//! The state of a structured discussion (Delphi rounds or continuous review),
//! as kept in a section's `discussion.json`, with its defaults: a missing or
//! unreadable file reads as the default, inactive state.
use vstd::prelude::*;

verus! {

/// One participant's answer within a round.
#[derive(Debug, Clone)]
pub struct DiscussionSubmission {
    pub from: String,
    pub message_id: u64,
    pub submitted_at: String,
}

/// One round of a discussion.
#[derive(Debug, Clone)]
pub struct DiscussionRound {
    pub number: u32,
    pub opened_at: String,
    pub closed_at: Option<String>,
    pub submissions: Vec<DiscussionSubmission>,
    pub aggregate_message_id: Option<u64>,
    /// Continuous review: the status message that opened this round.
    pub trigger_message_id: Option<u64>,
    /// Continuous review: who posted that status.
    pub trigger_from: Option<String>,
    /// Continuous review: the author whose status is under review.
    pub author: Option<String>,
    /// Continuous review: the subject of that status.
    pub trigger_subject: Option<String>,
    /// Continuous review: whether a status message opened the round by itself.
    pub auto_triggered: Option<bool>,
    /// The round's own topic.
    pub topic: Option<String>,
}

/// Limits of a discussion.
#[derive(Debug, Clone, Copy, PartialEq, Eq, Structural)]
pub struct DiscussionSettings {
    pub max_rounds: u32,
    pub timeout_minutes: u32,
    pub expire_paused_after_minutes: u32,
    /// Seconds after which a continuous-review round closes by itself; 0 never.
    pub auto_close_timeout_seconds: u32,
}

pub const DEFAULT_MAX_ROUNDS: u32 = 10;
pub const DEFAULT_TIMEOUT_MINUTES: u32 = 15;
pub const DEFAULT_EXPIRE_PAUSED_MINUTES: u32 = 60;
pub const DEFAULT_AUTO_CLOSE_SECONDS: u32 = 60;

/// The settings a discussion has when none are stored.
pub open spec fn default_settings() -> DiscussionSettings {
    DiscussionSettings {
        max_rounds: DEFAULT_MAX_ROUNDS,
        timeout_minutes: DEFAULT_TIMEOUT_MINUTES,
        expire_paused_after_minutes: DEFAULT_EXPIRE_PAUSED_MINUTES,
        auto_close_timeout_seconds: DEFAULT_AUTO_CLOSE_SECONDS,
    }
}

impl Default for DiscussionSettings {
    fn default() -> (s: DiscussionSettings)
        ensures
            s == default_settings(),
    {
        DiscussionSettings {
            max_rounds: DEFAULT_MAX_ROUNDS,
            timeout_minutes: DEFAULT_TIMEOUT_MINUTES,
            expire_paused_after_minutes: DEFAULT_EXPIRE_PAUSED_MINUTES,
            auto_close_timeout_seconds: DEFAULT_AUTO_CLOSE_SECONDS,
        }
    }
}

/// The discussion held in a section.
#[derive(Debug, Clone)]
pub struct DiscussionState {
    pub active: bool,
    pub mode: Option<String>,
    pub topic: String,
    pub started_at: Option<String>,
    pub moderator: Option<String>,
    pub participants: Vec<String>,
    pub current_round: u32,
    pub phase: Option<String>,
    pub paused_at: Option<String>,
    pub expire_at: Option<String>,
    pub previous_phase: Option<String>,
    pub rounds: Vec<DiscussionRound>,
    pub settings: DiscussionSettings,
}

/// No discussion: inactive, no topic, participants or rounds, default settings.
pub open spec fn is_idle_discussion(s: DiscussionState) -> bool {
    &&& !s.active
    &&& s.mode is None
    &&& s.topic@.len() == 0
    &&& s.started_at is None
    &&& s.moderator is None
    &&& s.participants@.len() == 0
    &&& s.current_round == 0
    &&& s.phase is None
    &&& s.paused_at is None
    &&& s.expire_at is None
    &&& s.previous_phase is None
    &&& s.rounds@.len() == 0
    &&& s.settings == default_settings()
}

impl Default for DiscussionState {
    fn default() -> (s: DiscussionState)
        ensures
            is_idle_discussion(s),
    {
        DiscussionState {
            active: false,
            mode: None,
            topic: String::new(),
            started_at: None,
            moderator: None,
            participants: Vec::new(),
            current_round: 0,
            phase: None,
            paused_at: None,
            expire_at: None,
            previous_phase: None,
            rounds: Vec::new(),
            settings: DiscussionSettings::default(),
        }
    }
}

/// The discussion a section holds, from its parsed file: the parsed state,
/// or the idle one when the file is missing or does not parse.
pub fn discussion_or_idle(parsed: Option<DiscussionState>) -> (s: DiscussionState)
    ensures
        match parsed {
            Some(p) => s == p,
            None => is_idle_discussion(s),
        },
{
    match parsed {
        Some(p) => p,
        None => DiscussionState::default(),
    }
}

} // verus!
