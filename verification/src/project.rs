//! The project's records: live sessions and their heartbeats, role
//! catalogs and statuses, file claims, section names and role slugs.
use vstd::prelude::*;

use crate::currency::owned_str;
use crate::text::{
    alphanumeric_char, chars_of, is_alphanumeric, lowercase_of, push_chars, str_eq, string_from_chars,
    to_lowercase, trim_chars, trim_seq,
};
use crate::timefmt::{bytes_of, epoch_of, iso_epoch_fits, iso_fields, parse_iso_epoch, clock_millis};

verus! {

// ---------------------------------------------------------------------------
// Live sessions
// ---------------------------------------------------------------------------

/// A live agent session, kept fresh by heartbeats.
#[derive(Debug, Clone)]
pub struct SessionInfo {
    pub session_id: String,
    /// Milliseconds since the epoch of the last heartbeat.
    pub last_heartbeat: u64,
    pub hostname: String,
    pub cwd: String,
    pub name: String,
}

/// A session seen as plain values.
pub struct SessionModel {
    pub session_id: Seq<char>,
    pub last_heartbeat: u64,
    pub hostname: Seq<char>,
    pub cwd: Seq<char>,
    pub name: Seq<char>,
}

impl View for SessionInfo {
    type V = SessionModel;

    open spec fn view(&self) -> SessionModel {
        SessionModel {
            session_id: self.session_id@,
            last_heartbeat: self.last_heartbeat,
            hostname: self.hostname@,
            cwd: self.cwd@,
            name: self.name@,
        }
    }
}

pub type NameSeq = Seq<(Seq<char>, Seq<char>)>;

pub open spec fn opt_text_of(o: Option<&str>) -> Option<Seq<char>> {
    match o {
        Some(c) => Some(c@),
        None => None,
    }
}

/// Position of the session `id`, or -1.
pub open spec fn session_index(s: Seq<SessionModel>, id: Seq<char>) -> int
    decreases s.len(),
{
    if s.len() == 0 {
        -1
    } else if s.last().session_id == id {
        s.len() - 1
    } else {
        session_index(s.drop_last(), id)
    }
}

/// Position of the name entry for `id`, or -1.
pub open spec fn name_index(s: NameSeq, id: Seq<char>) -> int
    decreases s.len(),
{
    if s.len() == 0 {
        -1
    } else if s.last().0 == id {
        s.len() - 1
    } else {
        name_index(s.drop_last(), id)
    }
}

/// The stored display name of `id` (empty when none).
pub open spec fn stored_name(s: NameSeq, id: Seq<char>) -> Seq<char> {
    let i = name_index(s, id);
    if i >= 0 {
        s[i].1
    } else {
        Seq::empty()
    }
}

/// Set the name of `id`: in place when present, appended otherwise.
pub open spec fn name_put(s: NameSeq, id: Seq<char>, name: Seq<char>) -> NameSeq {
    let i = name_index(s, id);
    if i >= 0 {
        s.update(i, (id, name))
    } else {
        s.push((id, name))
    }
}

pub open spec fn sessions_distinct(s: Seq<SessionModel>) -> bool {
    forall|i: int, j: int| 0 <= i < j < s.len() ==> s[i].session_id != s[j].session_id
}

pub open spec fn names_distinct(s: NameSeq) -> bool {
    forall|i: int, j: int| 0 <= i < j < s.len() ==> s[i].0 != s[j].0
}

proof fn lemma_session_index(s: Seq<SessionModel>, id: Seq<char>)
    ensures
        -1 <= session_index(s, id) < s.len(),
        session_index(s, id) >= 0 ==> s[session_index(s, id)].session_id == id,
        session_index(s, id) == -1 ==> forall|j: int| 0 <= j < s.len() ==> s[j].session_id != id,
    decreases s.len(),
{
    if s.len() > 0 && s.last().session_id != id {
        lemma_session_index(s.drop_last(), id);
        assert forall|j: int| 0 <= j < s.len() && session_index(s, id) == -1 implies s[j].session_id != id by {
            if j < s.len() - 1 {
                assert(s[j] == s.drop_last()[j]);
            }
        }
    }
}

proof fn lemma_session_index_unique(s: Seq<SessionModel>, id: Seq<char>, j: int)
    requires
        sessions_distinct(s),
        0 <= j < s.len(),
        s[j].session_id == id,
    ensures
        session_index(s, id) == j,
{
    lemma_session_index(s, id);
}

proof fn lemma_name_index(s: NameSeq, id: Seq<char>)
    ensures
        -1 <= name_index(s, id) < s.len(),
        name_index(s, id) >= 0 ==> s[name_index(s, id)].0 == id,
        name_index(s, id) == -1 ==> forall|j: int| 0 <= j < s.len() ==> s[j].0 != id,
    decreases s.len(),
{
    if s.len() > 0 && s.last().0 != id {
        lemma_name_index(s.drop_last(), id);
        assert forall|j: int| 0 <= j < s.len() && name_index(s, id) == -1 implies s[j].0 != id by {
            if j < s.len() - 1 {
                assert(s[j] == s.drop_last()[j]);
            }
        }
    }
}

proof fn lemma_name_index_unique(s: NameSeq, id: Seq<char>, j: int)
    requires
        names_distinct(s),
        0 <= j < s.len(),
        s[j].0 == id,
    ensures
        name_index(s, id) == j,
{
    lemma_name_index(s, id);
}

/// A heartbeat of `id` at `now` from `host`: a known session takes the new
/// time, the working directory when one is given and non-empty, and the
/// stored name when it has none; an unknown session is added with the
/// stored name (or none), the host and the directory given (or none).
pub open spec fn heartbeat(
    s: Seq<SessionModel>,
    names: NameSeq,
    id: Seq<char>,
    cwd: Option<Seq<char>>,
    now: u64,
    host: Seq<char>,
) -> Seq<SessionModel> {
    let i = session_index(s, id);
    let stored = stored_name(names, id);
    if i >= 0 {
        let old = s[i];
        s.update(
            i,
            SessionModel {
                session_id: old.session_id,
                last_heartbeat: now,
                hostname: old.hostname,
                cwd: match cwd {
                    Some(c) => if c.len() > 0 {
                        c
                    } else {
                        old.cwd
                    },
                    None => old.cwd,
                },
                name: if old.name.len() == 0 && stored.len() > 0 {
                    stored
                } else {
                    old.name
                },
            },
        )
    } else {
        s.push(
            SessionModel {
                session_id: id,
                last_heartbeat: now,
                hostname: host,
                cwd: match cwd {
                    Some(c) => c,
                    None => Seq::empty(),
                },
                name: stored,
            },
        )
    }
}

/// `now - then` with `u64` wrapping subtraction.
pub open spec fn age_ms(now: u64, then: u64) -> int {
    if now >= then {
        now - then
    } else {
        now - then + 0x1_0000_0000_0000_0000
    }
}

/// Sessions whose last heartbeat is under two minutes before `now`
/// (milliseconds, with `u64` wrapping subtraction), in order.
pub open spec fn active_sessions(s: Seq<SessionModel>, now: u64) -> Seq<SessionModel>
    decreases s.len(),
{
    if s.len() == 0 {
        Seq::empty()
    } else if age_ms(now, s.last().last_heartbeat) < 120_000 {
        active_sessions(s.drop_last(), now).push(s.last())
    } else {
        active_sessions(s.drop_last(), now)
    }
}

/// Naming a list of sessions, pair by pair: the name is recorded, and a
/// live session with that id takes it.
pub open spec fn named(s: Seq<SessionModel>, names: NameSeq, pairs: NameSeq) -> (Seq<SessionModel>, NameSeq)
    decreases pairs.len(),
{
    if pairs.len() == 0 {
        (s, names)
    } else {
        let (s1, n1) = named(s, names, pairs.drop_last());
        let (id, name) = pairs.last();
        let i = session_index(s1, id);
        (
            if i >= 0 {
                s1.update(i, SessionModel { name: name, ..s1[i] })
            } else {
                s1
            },
            name_put(n1, id, name),
        )
    }
}

/// The names as a map: each id with an entry, to the name at that entry.
pub open spec fn names_map(s: NameSeq) -> Map<Seq<char>, Seq<char>> {
    Map::new(|id: Seq<char>| name_index(s, id) >= 0, |id: Seq<char>| s[name_index(s, id)].1)
}

/// `m` with each pair of `pairs` inserted in order, a later pair for an id
/// replacing an earlier one.
pub open spec fn insert_pairs(m: Map<Seq<char>, Seq<char>>, pairs: NameSeq) -> Map<Seq<char>, Seq<char>>
    decreases pairs.len(),
{
    if pairs.len() == 0 {
        m
    } else {
        insert_pairs(m, pairs.drop_last()).insert(pairs.last().0, pairs.last().1)
    }
}

/// Renaming an entry in place moves no id.
proof fn lemma_name_index_rename(s: NameSeq, i: int, w: Seq<char>, k: Seq<char>)
    requires
        0 <= i < s.len(),
    ensures
        name_index(s.update(i, (s[i].0, w)), k) == name_index(s, k),
    decreases s.len(),
{
    let u = s.update(i, (s[i].0, w));
    if i < s.len() - 1 {
        assert(u.drop_last() =~= s.drop_last().update(i, (s[i].0, w)));
        assert(s.drop_last()[i] == s[i]);
        lemma_name_index_rename(s.drop_last(), i, w, k);
    } else {
        assert(u.drop_last() =~= s.drop_last());
    }
}

/// Setting a name is inserting it into the map of names.
proof fn lemma_names_map_put(s: NameSeq, id: Seq<char>, name: Seq<char>)
    ensures
        names_map(name_put(s, id, name)) == names_map(s).insert(id, name),
{
    let i = name_index(s, id);
    lemma_name_index(s, id);
    let p = name_put(s, id, name);
    if i >= 0 {
        assert forall|k: Seq<char>| name_index(p, k) == name_index(s, k) by {
            lemma_name_index_rename(s, i, name, k);
        }
        assert forall|k: Seq<char>| name_index(p, k) >= 0 && k != id implies p[name_index(p, k)].1 == s[name_index(s, k)].1 by {
            lemma_name_index(s, k);
        }
        assert(p[i].1 == name);
        assert(names_map(p) =~= names_map(s).insert(id, name));
    } else {
        assert(p.drop_last() =~= s);
        assert(p.last().0 == id);
        assert(name_index(p, id) == s.len());
        assert forall|k: Seq<char>| k != id implies name_index(p, k) == name_index(s, k) by {}
        assert forall|k: Seq<char>| k != id && name_index(s, k) >= 0 implies p[name_index(s, k)] == s[name_index(s, k)] by {
            lemma_name_index(s, k);
        }
        assert(names_map(p) =~= names_map(s).insert(id, name));
    }
}

/// After a list of sessions is named, the map of names is the old one with
/// each pair inserted in order: a later pair for an id overwrites an earlier
/// one, and every id that no pair names keeps its name, or its absence.
pub proof fn law_named_names_overwrite(s: Seq<SessionModel>, names: NameSeq, pairs: NameSeq)
    ensures
        names_map(named(s, names, pairs).1) == insert_pairs(names_map(names), pairs),
        forall|j: int|
            0 <= j < pairs.len() && (forall|l: int| j < l < pairs.len() ==> pairs[l].0 != pairs[j].0) ==> {
                &&& names_map(named(s, names, pairs).1).contains_key(#[trigger] pairs[j].0)
                &&& names_map(named(s, names, pairs).1)[pairs[j].0] == pairs[j].1
            },
        forall|k: Seq<char>|
            (forall|j: int| 0 <= j < pairs.len() ==> pairs[j].0 != k) ==> {
                &&& names_map(named(s, names, pairs).1).contains_key(k) == #[trigger] names_map(names).contains_key(k)
                &&& names_map(names).contains_key(k) ==> names_map(named(s, names, pairs).1)[k] == names_map(names)[k]
            },
    decreases pairs.len(),
{
    if pairs.len() > 0 {
        let dl = pairs.drop_last();
        law_named_names_overwrite(s, names, dl);
        let n1 = named(s, names, dl).1;
        lemma_names_map_put(n1, pairs.last().0, pairs.last().1);
        let m = names_map(named(s, names, pairs).1);
        assert forall|j: int|
            0 <= j < pairs.len() && (forall|l: int| j < l < pairs.len() ==> pairs[l].0 != pairs[j].0) implies {
                &&& m.contains_key(#[trigger] pairs[j].0)
                &&& m[pairs[j].0] == pairs[j].1
            } by {
            if j < pairs.len() - 1 {
                assert(dl[j] == pairs[j]);
                assert forall|l: int| j < l < dl.len() implies dl[l].0 != dl[j].0 by {
                    assert(dl[l] == pairs[l]);
                }
                assert(pairs.last() == pairs[pairs.len() - 1]);
            }
        }
        assert forall|k: Seq<char>| (forall|j: int| 0 <= j < pairs.len() ==> pairs[j].0 != k) implies {
            &&& m.contains_key(k) == #[trigger] names_map(names).contains_key(k)
            &&& names_map(names).contains_key(k) ==> m[k] == names_map(names)[k]
        } by {
            assert forall|j: int| 0 <= j < dl.len() implies dl[j].0 != k by {
                assert(dl[j] == pairs[j]);
            }
            assert(pairs[pairs.len() - 1].0 != k);
        }
    }
}

/// The live sessions (at most one per id) and the names given to session ids.
pub struct SessionRegistry {
    sessions: Vec<SessionInfo>,
    names: Vec<(String, String)>,
}

impl SessionRegistry {
    pub closed spec fn sessions_view(&self) -> Seq<SessionModel> {
        self.sessions@.map_values(|x: SessionInfo| x@)
    }

    pub closed spec fn names_view(&self) -> NameSeq {
        self.names@.map_values(|p: (String, String)| (p.0@, p.1@))
    }

    #[verifier::type_invariant]
    closed spec fn keys_distinct(&self) -> bool {
        sessions_distinct(self.sessions_view()) && names_distinct(self.names_view())
    }

    /// No sessions and no names.
    pub fn new() -> (r: SessionRegistry)
        ensures
            r.sessions_view().len() == 0,
            r.names_view().len() == 0,
    {
        let r = SessionRegistry { sessions: Vec::new(), names: Vec::new() };
        assert(r.sessions_view() =~= Seq::<SessionModel>::empty());
        assert(r.names_view() =~= Seq::<(Seq<char>, Seq<char>)>::empty());
        r
    }

    fn session_position(&self, id: &str) -> (r: Option<usize>)
        ensures
            match r {
                Some(i) => i == session_index(self.sessions_view(), id@) && i < self.sessions@.len(),
                None => session_index(self.sessions_view(), id@) == -1,
            },
    {
        proof {
            use_type_invariant(self);
        }
        let ghost v = self.sessions_view();
        let mut i: usize = 0;
        while i < self.sessions.len()
            invariant
                i <= self.sessions.len(),
                v == self.sessions_view(),
                sessions_distinct(v),
                forall|j: int| 0 <= j < i ==> v[j].session_id != id@,
            decreases self.sessions.len() - i,
        {
            if str_eq(self.sessions[i].session_id.as_str(), id) {
                proof {
                    assert(v[i as int].session_id == id@);
                    lemma_session_index_unique(v, id@, i as int);
                }
                return Some(i);
            }
            i = i + 1;
        }
        proof {
            lemma_session_index(v, id@);
            if session_index(v, id@) >= 0 {
                assert(v[session_index(v, id@)].session_id == id@);
            }
        }
        None
    }

    fn name_position(&self, id: &str) -> (r: Option<usize>)
        ensures
            match r {
                Some(i) => i == name_index(self.names_view(), id@) && i < self.names@.len(),
                None => name_index(self.names_view(), id@) == -1,
            },
    {
        proof {
            use_type_invariant(self);
        }
        let ghost v = self.names_view();
        let mut i: usize = 0;
        while i < self.names.len()
            invariant
                i <= self.names.len(),
                v == self.names_view(),
                names_distinct(v),
                forall|j: int| 0 <= j < i ==> v[j].0 != id@,
            decreases self.names.len() - i,
        {
            if str_eq(self.names[i].0.as_str(), id) {
                proof {
                    assert(v[i as int].0 == id@);
                    lemma_name_index_unique(v, id@, i as int);
                }
                return Some(i);
            }
            i = i + 1;
        }
        proof {
            lemma_name_index(v, id@);
            if name_index(v, id@) >= 0 {
                assert(v[name_index(v, id@)].0 == id@);
            }
        }
        None
    }

    /// A heartbeat of `session_id` at `now` (milliseconds) from `host`.
    pub fn update_heartbeat_at(&mut self, session_id: &str, cwd: Option<&str>, now: u64, host: String)
        ensures
            final(self).sessions_view() == heartbeat(
                old(self).sessions_view(),
                old(self).names_view(),
                session_id@,
                opt_text_of(cwd),
                now,
                host@,
            ),
            final(self).names_view() == old(self).names_view(),
    {
        proof {
            use_type_invariant(&*self);
            lemma_session_index(self.sessions_view(), session_id@);
            lemma_name_index(self.names_view(), session_id@);
        }
        let ghost before = self.sessions_view();
        let stored = match self.name_position(session_id) {
            Some(i) => self.names[i].1.clone(),
            None => String::new(),
        };
        match self.session_position(session_id) {
            Some(i) => {
                let mut sessions: Vec<SessionInfo> = Vec::new();
                std::mem::swap(&mut sessions, &mut self.sessions);
                let mut s = sessions.remove(i);
                s.last_heartbeat = now;
                match cwd {
                    Some(c) => {
                        if chars_of(c).len() > 0 {
                            s.cwd = owned_str(c);
                        }
                    },
                    None => {},
                }
                if chars_of(s.name.as_str()).len() == 0 && chars_of(stored.as_str()).len() > 0 {
                    s.name = stored;
                }
                sessions.insert(i, s);
                proof {
                    let v = sessions@.map_values(|x: SessionInfo| x@);
                    assert(v =~= heartbeat(
                        before,
                        self.names_view(),
                        session_id@,
                        opt_text_of(cwd),
                        now,
                        host@,
                    ));
                    assert(sessions_distinct(v)) by {
                        assert forall|a: int, b: int| 0 <= a < b < v.len() implies v[a].session_id != v[b].session_id by {
                            assert(v[a].session_id == before[a].session_id);
                            assert(v[b].session_id == before[b].session_id);
                        }
                    }
                }
                self.sessions = sessions;
            },
            None => {
                let info = SessionInfo {
                    session_id: owned_str(session_id),
                    last_heartbeat: now,
                    hostname: host,
                    cwd: match cwd {
                        Some(c) => owned_str(c),
                        None => String::new(),
                    },
                    name: stored,
                };
                let mut sessions: Vec<SessionInfo> = Vec::new();
                std::mem::swap(&mut sessions, &mut self.sessions);
                sessions.push(info);
                proof {
                    let v = sessions@.map_values(|x: SessionInfo| x@);
                    assert(v =~= heartbeat(
                        before,
                        self.names_view(),
                        session_id@,
                        opt_text_of(cwd),
                        now,
                        host@,
                    ));
                    assert(sessions_distinct(v)) by {
                        assert forall|a: int, b: int| 0 <= a < b < v.len() implies v[a].session_id != v[b].session_id by {
                            assert(v[a].session_id == before[a].session_id);
                            if b < before.len() {
                                assert(v[b].session_id == before[b].session_id);
                            }
                        }
                    }
                }
                self.sessions = sessions;
            },
        }
    }

    /// A heartbeat of `session_id` now, from this machine. The time and the
    /// host name come from the system (the host name "unknown" when it
    /// cannot be read; the epoch when the clock reads before it).
    pub fn update_heartbeat(&mut self, session_id: &str, cwd: Option<&str>)
        ensures
            exists|now: u64, host: Seq<char>|
                final(self).sessions_view() == #[trigger] heartbeat(
                    old(self).sessions_view(),
                    old(self).names_view(),
                    session_id@,
                    opt_text_of(cwd),
                    now,
                    host,
                ),
            final(self).names_view() == old(self).names_view(),
    {
        let now: u64 = clock_millis();
        let host = match host_name() {
            Some(h) => h,
            None => owned_str("unknown"),
        };
        let ghost h = host@;
        self.update_heartbeat_at(session_id, cwd, now, host);
    }

    /// Record each `(session id, name)` pair in order; a live session with
    /// that id takes the name.
    pub fn set_session_names(&mut self, names: &[(String, String)])
        ensures
            (final(self).sessions_view(), final(self).names_view()) == named(
                old(self).sessions_view(),
                old(self).names_view(),
                names@.map_values(|p: (String, String)| (p.0@, p.1@)),
            ),
    {
        let ghost pairs = names@.map_values(|p: (String, String)| (p.0@, p.1@));
        let ghost s0 = self.sessions_view();
        let ghost n0 = self.names_view();
        let mut k: usize = 0;
        assert(pairs.take(0) =~= Seq::<(Seq<char>, Seq<char>)>::empty());
        while k < names.len()
            invariant
                k <= names.len(),
                pairs == names@.map_values(|p: (String, String)| (p.0@, p.1@)),
                (self.sessions_view(), self.names_view()) == named(s0, n0, pairs.take(k as int)),
            decreases names.len() - k,
        {
            proof {
                use_type_invariant(&*self);
                assert(pairs.take(k + 1).drop_last() =~= pairs.take(k as int));
                assert(pairs.take(k + 1).last() == pairs[k as int]);
                lemma_name_index(self.names_view(), pairs[k as int].0);
                lemma_session_index(self.sessions_view(), pairs[k as int].0);
            }
            let id = &names[k].0;
            let name = &names[k].1;
            let ghost sv = self.sessions_view();
            let ghost nv = self.names_view();
            let np = self.name_position(id.as_str());
            let sp = self.session_position(id.as_str());
            let mut nm: Vec<(String, String)> = Vec::new();
            std::mem::swap(&mut nm, &mut self.names);
            match np {
                Some(i) => {
                    nm.set(i, (id.clone(), name.clone()));
                },
                None => {
                    nm.push((id.clone(), name.clone()));
                },
            }
            proof {
                let v = nm@.map_values(|p: (String, String)| (p.0@, p.1@));
                assert(v =~= name_put(nv, id@, name@));
                assert(names_distinct(v)) by {
                    assert forall|a: int, b: int| 0 <= a < b < v.len() implies v[a].0 != v[b].0 by {
                        if a < nv.len() {
                            assert(v[a].0 == nv[a].0);
                        }
                        if b < nv.len() {
                            assert(v[b].0 == nv[b].0);
                        }
                    }
                }
            }
            self.names = nm;
            match sp {
                Some(i) => {
                    let mut ss: Vec<SessionInfo> = Vec::new();
                    std::mem::swap(&mut ss, &mut self.sessions);
                    let mut s = ss.remove(i);
                    s.name = name.clone();
                    ss.insert(i, s);
                    proof {
                        let v = ss@.map_values(|x: SessionInfo| x@);
                        assert(v =~= sv.update(i as int, SessionModel { name: name@, ..sv[i as int] }));
                        assert(sessions_distinct(v)) by {
                            assert forall|a: int, b: int| 0 <= a < b < v.len() implies v[a].session_id != v[b].session_id by {
                                assert(v[a].session_id == sv[a].session_id);
                                assert(v[b].session_id == sv[b].session_id);
                            }
                        }
                    }
                    self.sessions = ss;
                },
                None => {},
            }
            k = k + 1;
        }
        assert(pairs.take(names.len() as int) =~= pairs);
    }

    /// The names given to session ids, in the order first given.
    pub fn get_all_names(&self) -> (r: &[(String, String)])
        ensures
            r@.map_values(|p: (String, String)| (p.0@, p.1@)) == self.names_view(),
    {
        self.names.as_slice()
    }

    /// The sessions with a heartbeat under two minutes before `now`
    /// (milliseconds), in order.
    pub fn get_active_at(&self, now: u64) -> (r: Vec<&SessionInfo>)
        ensures
            r@.map_values(|x: &SessionInfo| x@) == active_sessions(self.sessions_view(), now),
    {
        let ghost v = self.sessions_view();
        let mut r: Vec<&SessionInfo> = Vec::new();
        let mut i: usize = 0;
        assert(v.take(0) =~= Seq::<SessionModel>::empty());
        while i < self.sessions.len()
            invariant
                i <= self.sessions.len(),
                v == self.sessions_view(),
                r@.map_values(|x: &SessionInfo| x@) == active_sessions(v.take(i as int), now),
            decreases self.sessions.len() - i,
        {
            proof {
                assert(v.take(i + 1).drop_last() =~= v.take(i as int));
                assert(v.take(i + 1).last() == v[i as int]);
            }
            let s = &self.sessions[i];
            if now.wrapping_sub(s.last_heartbeat) < 120_000 {
                let ghost before = r@;
                r.push(s);
                assert(r@.map_values(|x: &SessionInfo| x@) =~= before.map_values(|x: &SessionInfo| x@).push(s@));
            }
            i = i + 1;
        }
        assert(v.take(self.sessions.len() as int) =~= v);
        r
    }

    /// The sessions heard from in the last two minutes, by the system clock.
    pub fn get_active(&self) -> (r: Vec<&SessionInfo>)
        ensures
            exists|now: u64| r@.map_values(|x: &SessionInfo| x@) == active_sessions(self.sessions_view(), now),
    {
        let now: u64 = clock_millis();
        self.get_active_at(now)
    }
}

/// `hostname::get`, converted lossily to UTF-8; `None` when the host name
/// cannot be read.
#[verifier::external_body]
fn host_name() -> Option<String> {
    hostname::get().ok().map(|h| h.to_string_lossy().to_string())
}

// ---------------------------------------------------------------------------
// Section names and role slugs
// ---------------------------------------------------------------------------

/// Every character kept when alphanumeric, else a dash.
pub open spec fn dashed(s: Seq<char>) -> Seq<char> {
    s.map_values(|c: char| if alphanumeric_char(c) { c } else { '-' })
}

/// Append a finished dash-free piece: joined by one dash, empty pieces dropped.
pub open spec fn flush(out: Seq<char>, piece: Seq<char>) -> Seq<char> {
    if piece.len() == 0 {
        out
    } else if out.len() == 0 {
        piece
    } else {
        out + seq!['-'] + piece
    }
}

/// Scanning `s`: the pieces finished so far (joined) and the piece under way.
pub open spec fn slug_state(s: Seq<char>) -> (Seq<char>, Seq<char>)
    decreases s.len(),
{
    if s.len() == 0 {
        (Seq::empty(), Seq::empty())
    } else {
        let (o, c) = slug_state(s.drop_last());
        if s.last() == '-' {
            (flush(o, c), Seq::empty())
        } else {
            (o, c.push(s.last()))
        }
    }
}

/// The non-empty dash-separated pieces of `s`, joined by single dashes.
pub open spec fn slug_of(s: Seq<char>) -> Seq<char> {
    let (o, c) = slug_state(s);
    flush(o, c)
}

fn flush_exec(out: &mut Vec<char>, piece: &Vec<char>)
    ensures
        final(out)@ == flush(old(out)@, piece@),
{
    if piece.len() > 0 {
        if out.len() > 0 {
            out.push('-');
        }
        push_chars(out, piece);
    }
}

/// A section slug: the name lowercased, every non-alphanumeric character a
/// dash, runs of dashes collapsed, no dash at either end.
pub fn slugify(name: &str) -> (r: String)
    ensures
        r@ == slug_of(dashed(lowercase_of(name@))),
{
    let lower = to_lowercase(name);
    let cs = chars_of(lower.as_str());
    let ghost d = dashed(cs@);
    let mut out: Vec<char> = Vec::new();
    let mut cur: Vec<char> = Vec::new();
    let mut i: usize = 0;
    assert(d.take(0) =~= Seq::<char>::empty());
    while i < cs.len()
        invariant
            i <= cs.len(),
            d == dashed(cs@),
            (out@, cur@) == slug_state(d.take(i as int)),
        decreases cs.len() - i,
    {
        proof {
            assert(d.take(i + 1).drop_last() =~= d.take(i as int));
            assert(d.take(i + 1).last() == d[i as int]);
        }
        let c0 = cs[i];
        let c = if is_alphanumeric(c0) {
            c0
        } else {
            '-'
        };
        if c == '-' {
            flush_exec(&mut out, &cur);
            cur = Vec::new();
            assert(cur@ =~= Seq::<char>::empty());
        } else {
            cur.push(c);
        }
        i = i + 1;
    }
    assert(d.take(cs.len() as int) =~= d);
    flush_exec(&mut out, &cur);
    string_from_chars(&out)
}

/// No dash at either end, no two dashes in a row.
pub open spec fn slug_shaped(s: Seq<char>) -> bool {
    &&& s.len() > 0 ==> s[0] != '-' && s[s.len() - 1] != '-'
    &&& forall|i: int| 0 <= i < s.len() - 1 ==> !(#[trigger] s[i] == '-' && s[i + 1] == '-')
}

proof fn lemma_flush_shaped(o: Seq<char>, c: Seq<char>)
    requires
        slug_shaped(o),
        forall|i: int| 0 <= i < c.len() ==> c[i] != '-',
    ensures
        slug_shaped(flush(o, c)),
{
    let f = flush(o, c);
    if c.len() > 0 && o.len() > 0 {
        assert forall|i: int| 0 <= i < f.len() - 1 implies !(#[trigger] f[i] == '-' && f[i + 1] == '-') by {
            if i < o.len() - 1 {
                assert(f[i] == o[i] && f[i + 1] == o[i + 1]);
            } else if i == o.len() - 1 {
                assert(f[i] == o[i]);
            } else if i == o.len() {
                assert(f[i + 1] == c[0]);
            } else {
                assert(f[i] == c[i - o.len() - 1]);
            }
        }
        assert(f[0] == o[0]);
        assert(f[f.len() - 1] == c[c.len() - 1]);
    } else if c.len() > 0 {
        assert(f == c);
    }
}

proof fn lemma_slug_state_shaped(s: Seq<char>)
    ensures
        slug_shaped(slug_state(s).0),
        forall|i: int| 0 <= i < slug_state(s).1.len() ==> slug_state(s).1[i] != '-',
    decreases s.len(),
{
    if s.len() > 0 {
        lemma_slug_state_shaped(s.drop_last());
        let (o, c) = slug_state(s.drop_last());
        if s.last() == '-' {
            lemma_flush_shaped(o, c);
        } else {
            let c2 = c.push(s.last());
            assert forall|i: int| 0 <= i < c2.len() implies c2[i] != '-' by {
                if i < c.len() {
                    assert(c2[i] == c[i]);
                }
            }
        }
    }
}

/// A slug never starts or ends with a dash and never holds two dashes in a
/// row.
pub proof fn law_slug_shape(name: Seq<char>)
    ensures
        slug_shaped(slug_of(dashed(lowercase_of(name)))),
{
    let d = dashed(lowercase_of(name));
    lemma_slug_state_shaped(d);
    lemma_flush_shaped(slug_state(d).0, slug_state(d).1);
}

pub open spec fn slug_char_ok(c: char) -> bool {
    ('a' <= c && c <= 'z') || ('0' <= c && c <= '9') || c == '-'
}

/// The refusal of a role slug, or `None` when it is well formed.
pub open spec fn slug_error(slug: Seq<char>) -> Option<Seq<char>> {
    if slug.len() == 0 {
        Some("Role slug cannot be empty"@)
    } else if !(forall|i: int| 0 <= i < slug.len() ==> slug_char_ok(#[trigger] slug[i])) {
        Some("Role slug must be lowercase alphanumeric with hyphens only"@)
    } else if slug[0] == '-' || slug[slug.len() - 1] == '-' {
        Some("Role slug cannot start or end with a hyphen"@)
    } else {
        None
    }
}

/// A role slug is non-empty ASCII lowercase letters, digits and hyphens,
/// with no hyphen at either end.
pub fn validate_slug(slug: &str) -> (r: Result<(), String>)
    ensures
        match r {
            Ok(()) => slug_error(slug@) is None,
            Err(m) => slug_error(slug@) == Some(m@),
        },
{
    let cs = chars_of(slug);
    if cs.len() == 0 {
        return Err(owned_str("Role slug cannot be empty"));
    }
    let mut i: usize = 0;
    while i < cs.len()
        invariant
            i <= cs.len(),
            cs@ == slug@,
            forall|j: int| 0 <= j < i ==> slug_char_ok(#[trigger] cs@[j]),
        decreases cs.len() - i,
    {
        let c = cs[i];
        if !(('a' <= c && c <= 'z') || ('0' <= c && c <= '9') || c == '-') {
            assert(!slug_char_ok(cs@[i as int]));
            return Err(owned_str("Role slug must be lowercase alphanumeric with hyphens only"));
        }
        i = i + 1;
    }
    if cs[0] == '-' || cs[cs.len() - 1] == '-' {
        return Err(owned_str("Role slug cannot start or end with a hyphen"));
    }
    Ok(())
}

/// The active section as recorded in the project file (`default` when none).
pub fn active_section_or_default(recorded: Option<&str>) -> (r: String)
    ensures
        r@ == match recorded {
            Some(s) => s@,
            None => "default"@,
        },
{
    match recorded {
        Some(s) => owned_str(s),
        None => owned_str("default"),
    }
}

/// The active section named by the `.vaak/active-section` marker's text:
/// the text trimmed, or `default` when the marker is missing or blank.
pub fn marker_section(content: Option<&str>) -> (r: String)
    ensures
        r@ == match content {
            Some(s) => if trim_seq(s@).len() > 0 {
                trim_seq(s@)
            } else {
                "default"@
            },
            None => "default"@,
        },
{
    match content {
        Some(s) => {
            let cs = chars_of(s);
            let t = trim_chars(&cs);
            if t.len() > 0 {
                string_from_chars(&t)
            } else {
                owned_str("default")
            }
        },
        None => owned_str("default"),
    }
}

// ---------------------------------------------------------------------------
// Roles and their statuses
// ---------------------------------------------------------------------------

/// Per-role character stats, each 1 to 10.
#[derive(Debug, Clone, Copy)]
pub struct RoleStats {
    /// Technical depth.
    pub td: u8,
    /// Adversarial rigor.
    pub ar: u8,
    /// Communication precision.
    pub cp: u8,
    /// Domain ownership.
    pub domain: u8,
    /// Process discipline.
    pub pd: u8,
    /// Judgment under ambiguity.
    pub ja: u8,
}

/// A role that is launched beside another one.
#[derive(Debug, Clone)]
pub struct CompanionConfig {
    pub role: String,
    pub optional: bool,
    pub default_enabled: bool,
}

/// A role of the project's catalog.
#[derive(Debug, Clone)]
pub struct RoleConfig {
    pub title: String,
    pub description: String,
    pub max_instances: u32,
    pub permissions: Vec<String>,
    pub created_at: String,
    pub tags: Vec<String>,
    pub companions: Vec<CompanionConfig>,
    /// Created by the user rather than shipped or imported.
    pub custom: bool,
    pub stats: Option<RoleStats>,
    pub avatar_url: Option<String>,
}

/// Project-wide settings.
#[derive(Debug, Clone)]
pub struct ProjectSettings {
    pub heartbeat_timeout_seconds: u64,
    pub message_retention_days: u64,
    pub workflow_type: Option<String>,
    pub auto_collab: Option<bool>,
    pub human_in_loop: Option<bool>,
    pub workflow_colors: Option<Vec<(String, String)>>,
    pub discussion_mode: Option<String>,
    pub currency_enabled: Option<bool>,
}

/// A seat taken by a session.
#[derive(Debug, Clone)]
pub struct SessionBinding {
    pub role: String,
    pub instance: u32,
    pub session_id: String,
    pub claimed_at: String,
    pub last_heartbeat: String,
    pub status: String,
    pub activity: Option<String>,
    pub last_working_at: Option<String>,
    pub active_section: Option<String>,
}

/// The bindings of `.vaak/sessions.json`.
#[derive(Debug, Clone)]
pub struct SessionsFile {
    pub bindings: Vec<SessionBinding>,
}

/// How a role is staffed.
#[derive(Debug, Clone)]
pub struct RoleStatus {
    pub slug: String,
    pub title: String,
    pub active_instances: u32,
    pub max_instances: u32,
    /// "active" or "vacant".
    pub status: String,
}

/// Files a seat has claimed.
#[derive(Debug, Clone)]
pub struct FileClaim {
    pub role_instance: String,
    pub files: Vec<String>,
    pub description: String,
    pub claimed_at: String,
    pub session_id: String,
    /// "active", "stale" or "unknown".
    pub alive_state: Option<String>,
}

/// Seconds since a heartbeat at `now` (0 for one in the future; the
/// largest `u64` when the heartbeat does not parse).
pub open spec fn heartbeat_age(hb: Seq<char>, now: u64) -> int {
    match iso_fields(vstd::utf8::encode_utf8(hb)) {
        Some(f) => if now >= epoch_of(f) {
            now - epoch_of(f)
        } else {
            0
        },
        None => u64::MAX as int,
    }
}

/// The heartbeat's seconds fit in `u64` (or it does not parse).
pub open spec fn heartbeat_fits(hb: Seq<char>) -> bool {
    iso_epoch_fits(vstd::utf8::encode_utf8(hb))
}

fn heartbeat_age_exec(hb: &String, now: u64) -> (r: u64)
    requires
        heartbeat_fits(hb@),
    ensures
        r == heartbeat_age(hb@, now),
{
    let s = hb.as_str();
    proof {
        assert(bytes_of(s) == vstd::utf8::encode_utf8(hb@));
        match iso_fields(bytes_of(s)) {
            Some(f) => crate::timefmt::lemma_epoch_nonneg(f),
            None => {},
        }
    }
    match parse_iso_epoch(s) {
        Some(t) => if now >= t {
            now - t
        } else {
            0
        },
        None => u64::MAX,
    }
}

pub open spec fn is_role_binding(b: SessionBinding, slug: Seq<char>) -> bool {
    b.role@ == slug && b.status@ == "active"@
}

/// The active bindings of a role.
pub open spec fn role_bindings(bs: Seq<SessionBinding>, slug: Seq<char>) -> Seq<SessionBinding>
    decreases bs.len(),
{
    if bs.len() == 0 {
        Seq::empty()
    } else if is_role_binding(bs.last(), slug) {
        role_bindings(bs.drop_last(), slug).push(bs.last())
    } else {
        role_bindings(bs.drop_last(), slug)
    }
}

/// Of those, the ones heard from within the ten-minute disconnect threshold.
pub open spec fn fresh_count(bs: Seq<SessionBinding>, now: u64) -> nat
    decreases bs.len(),
{
    if bs.len() == 0 {
        0
    } else {
        fresh_count(bs.drop_last(), now) + if heartbeat_age(bs.last().last_heartbeat@, now) <= 600 {
            1nat
        } else {
            0nat
        }
    }
}

/// The status of one role: its active bindings, and "active" when one of
/// them is fresh, else "vacant".
pub open spec fn role_status_is(r: RoleStatus, slug: Seq<char>, role: RoleConfig, bs: Seq<SessionBinding>, now: u64) -> bool {
    let rb = role_bindings(bs, slug);
    &&& r.slug@ == slug
    &&& r.title@ == role.title@
    &&& r.active_instances == rb.len() as u32
    &&& r.max_instances == role.max_instances
    &&& r.status@ == (if fresh_count(rb, now) > 0 { "active"@ } else { "vacant"@ })
}

proof fn lemma_role_bindings_len(bs: Seq<SessionBinding>, slug: Seq<char>)
    ensures
        role_bindings(bs, slug).len() <= bs.len(),
    decreases bs.len(),
{
    if bs.len() > 0 {
        lemma_role_bindings_len(bs.drop_last(), slug);
    }
}

proof fn lemma_fresh_count_len(bs: Seq<SessionBinding>, now: u64)
    ensures
        fresh_count(bs, now) <= bs.len(),
    decreases bs.len(),
{
    if bs.len() > 0 {
        lemma_fresh_count_len(bs.drop_last(), now);
    }
}

fn role_status(slug: &String, role: &RoleConfig, bindings: &[SessionBinding], now_secs: u64) -> (r: RoleStatus)
    requires
        bindings@.len() <= u32::MAX,
        forall|i: int| 0 <= i < bindings@.len() ==> heartbeat_fits((#[trigger] bindings@[i]).last_heartbeat@),
    ensures
        role_status_is(r, slug@, *role, bindings@, now_secs),
{
    let mut total: u32 = 0;
    let mut active_count: u32 = 0;
    let mut i: usize = 0;
    let ghost bs = bindings@;
    assert(bs.take(0) =~= Seq::<SessionBinding>::empty());
    while i < bindings.len()
        invariant
            i <= bindings.len(),
            bs == bindings@,
            bs.len() <= u32::MAX,
            forall|k: int| 0 <= k < bs.len() ==> heartbeat_fits((#[trigger] bs[k]).last_heartbeat@),
            total == role_bindings(bs.take(i as int), slug@).len(),
            active_count == fresh_count(role_bindings(bs.take(i as int), slug@), now_secs),
            total <= i,
            active_count <= total,
        decreases bindings.len() - i,
    {
        proof {
            assert(bs.take(i + 1).drop_last() =~= bs.take(i as int));
            assert(bs.take(i + 1).last() == bs[i as int]);
        }
        let b = &bindings[i];
        if str_eq(b.role.as_str(), slug.as_str()) && str_eq(b.status.as_str(), "active") {
            proof {
                let rb = role_bindings(bs.take(i as int), slug@);
                assert(rb.push(bs[i as int]).drop_last() =~= rb);
            }
            total = total + 1;
            let age = heartbeat_age_exec(&b.last_heartbeat, now_secs);
            if age <= 600 {
                active_count = active_count + 1;
            }
        }
        i = i + 1;
    }
    assert(bs.take(bindings.len() as int) =~= bs);
    RoleStatus {
        slug: slug.clone(),
        title: role.title.clone(),
        active_instances: total,
        max_instances: role.max_instances,
        status: if active_count > 0 {
            owned_str("active")
        } else {
            owned_str("vacant")
        },
    }
}

/// The status of every role of the catalog, in the catalog's order: how
/// many active bindings it has, and whether one of them has been heard from
/// within ten minutes of `now_secs`.
pub fn compute_role_statuses(
    roles: &Vec<(String, RoleConfig)>,
    bindings: &[SessionBinding],
    now_secs: u64,
    timeout_secs: u64,
) -> (r: Vec<RoleStatus>)
    requires
        bindings@.len() <= u32::MAX,
        forall|i: int| 0 <= i < bindings@.len() ==> heartbeat_fits((#[trigger] bindings@[i]).last_heartbeat@),
    ensures
        r@.len() == roles@.len(),
        forall|i: int|
            0 <= i < r@.len() ==> role_status_is(#[trigger] r@[i], roles@[i].0@, roles@[i].1, bindings@, now_secs),
{
    let mut r: Vec<RoleStatus> = Vec::new();
    let mut i: usize = 0;
    while i < roles.len()
        invariant
            i <= roles.len(),
            r@.len() == i,
            bindings@.len() <= u32::MAX,
            forall|k: int| 0 <= k < bindings@.len() ==> heartbeat_fits((#[trigger] bindings@[k]).last_heartbeat@),
            forall|k: int| 0 <= k < i ==> role_status_is(#[trigger] r@[k], roles@[k].0@, roles@[k].1, bindings@, now_secs),
        decreases roles.len() - i,
    {
        let st = role_status(&roles[i].0, &roles[i].1, bindings, now_secs);
        r.push(st);
        i = i + 1;
    }
    r
}

// ---------------------------------------------------------------------------
// File claims
// ---------------------------------------------------------------------------

/// A claim's seat has left: no binding holds its session, or that
/// binding's heartbeat is older than `gone_threshold` seconds.
pub open spec fn claim_gone(bs: Seq<SessionBinding>, session_id: Seq<char>, now: u64, gone_threshold: u64) -> bool {
    match first_binding(bs, session_id) {
        Some(b) => heartbeat_age(b.last_heartbeat@, now) > gone_threshold,
        None => true,
    }
}

/// The first binding of a session.
pub open spec fn first_binding(bs: Seq<SessionBinding>, session_id: Seq<char>) -> Option<SessionBinding>
    decreases bs.len(),
{
    if bs.len() == 0 {
        None
    } else if bs[0].session_id@ == session_id {
        Some(bs[0])
    } else {
        first_binding(bs.drop_first(), session_id)
    }
}

/// Is the claim by `session_id` dropped as gone?
pub fn claim_is_gone(bindings: &[SessionBinding], session_id: &str, now_secs: u64, gone_threshold: u64) -> (b: bool)
    requires
        forall|i: int| 0 <= i < bindings@.len() ==> heartbeat_fits((#[trigger] bindings@[i]).last_heartbeat@),
    ensures
        b == claim_gone(bindings@, session_id@, now_secs, gone_threshold),
{
    let mut i: usize = 0;
    assert(bindings@.skip(0) =~= bindings@);
    while i < bindings.len()
        invariant
            i <= bindings.len(),
            first_binding(bindings@, session_id@) == first_binding(bindings@.skip(i as int), session_id@),
            forall|k: int| 0 <= k < bindings@.len() ==> heartbeat_fits((#[trigger] bindings@[k]).last_heartbeat@),
        decreases bindings.len() - i,
    {
        assert(bindings@.skip(i as int).drop_first() =~= bindings@.skip(i + 1));
        assert(bindings@.skip(i as int)[0] == bindings@[i as int]);
        if str_eq(bindings[i].session_id.as_str(), session_id) {
            let age = heartbeat_age_exec(&bindings[i].last_heartbeat, now_secs);
            return age > gone_threshold;
        }
        i = i + 1;
    }
    assert(bindings@.skip(bindings.len() as int) =~= Seq::<SessionBinding>::empty());
    true
}

/// A seat counts as stale once its keepalive is older than this.
pub const ALIVE_STATE_STALE_MS: u64 = 120_000;

pub open spec fn alive_state_spec(last_alive_at_ms: Option<u64>, now_ms: u64) -> Seq<char> {
    match last_alive_at_ms {
        Some(t) => if t == 0 {
            "unknown"@
        } else if (if now_ms >= t { now_ms - t } else { 0 }) > ALIVE_STATE_STALE_MS {
            "stale"@
        } else {
            "active"@
        },
        None => "unknown"@,
    }
}

/// The liveness of a surviving claim's seat from its keepalive file's
/// `last_alive_at_ms` (`None` when the file or the field cannot be read):
/// "unknown" without a keepalive, "stale" past the threshold, else "active".
pub fn alive_state_of(last_alive_at_ms: Option<u64>, now_ms: u64) -> (r: String)
    ensures
        r@ == alive_state_spec(last_alive_at_ms, now_ms),
{
    match last_alive_at_ms {
        Some(t) => {
            if t == 0 {
                owned_str("unknown")
            } else {
                let stale = if now_ms >= t {
                    now_ms - t
                } else {
                    0
                };
                if stale > ALIVE_STATE_STALE_MS {
                    owned_str("stale")
                } else {
                    owned_str("active")
                }
            }
        },
        None => owned_str("unknown"),
    }
}

} // verus!
