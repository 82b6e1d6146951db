//! Opportunistic daily growth of the visual library: only free or local
//! generation, never paid, and video work first.
use vstd::prelude::*;
use crate::error::AppError;

verus! {

/// Settings of the daily feed.
pub struct DailyFeedSettings {
    pub enabled: bool,
    pub max_per_day: u32,
    pub interval_minutes: u32,
    pub last_cycle_at: Option<String>,
    pub consecutive_failures: u32,
    pub paused_until: Option<String>,
}

/// The stored row of the daily feed settings, as the database gives it.
pub struct DailyFeedRow {
    pub enabled: i64,
    pub max_per_day: i64,
    pub interval_minutes: i64,
    pub last_cycle_at: Option<String>,
    pub consecutive_failures: i64,
    pub paused_until: Option<String>,
}

/// Settings from the stored row (`Err` with the database's message when the
/// row could not be read): a flag is on when not zero, counts keep their low
/// 32 bits.
pub fn load_settings(row: Result<DailyFeedRow, String>) -> (r: Result<DailyFeedSettings, AppError>)
    ensures
        row is Err ==> (r matches Err(AppError::Message(m)) && m == row->Err_0),
        row matches Ok(w) ==> (r matches Ok(s) && {
            &&& s.enabled == (w.enabled != 0)
            &&& s.max_per_day == w.max_per_day as u32
            &&& s.interval_minutes == w.interval_minutes as u32
            &&& s.last_cycle_at == w.last_cycle_at
            &&& s.consecutive_failures == w.consecutive_failures as u32
            &&& s.paused_until == w.paused_until
        }),
{
    match row {
        Err(e) => Err(AppError::Message(e)),
        Ok(w) => Ok(
            DailyFeedSettings {
                enabled: w.enabled != 0,
                max_per_day: w.max_per_day as u32,
                interval_minutes: w.interval_minutes as u32,
                last_cycle_at: w.last_cycle_at,
                consecutive_failures: w.consecutive_failures as u32,
                paused_until: w.paused_until,
            },
        ),
    }
}

/// Why a daily cycle does nothing.
#[derive(Clone, Copy, Debug, PartialEq, Eq)]
pub enum DailySkip {
    Disabled,
    Paused,
    VideoPriority,
    NoFreeRoute,
    DailyLimit,
}

impl DailySkip {
    /// The reason as the cycle reports it.
    pub fn reason(&self) -> (r: &'static str)
        ensures
            r@ == skip_text(*self),
    {
        match self {
            DailySkip::Disabled => "disabled",
            DailySkip::Paused => "paused",
            DailySkip::VideoPriority => "video_priority",
            DailySkip::NoFreeRoute => "no_free_route",
            DailySkip::DailyLimit => "daily_limit",
        }
    }
}

pub open spec fn skip_text(s: DailySkip) -> Seq<char> {
    match s {
        DailySkip::Disabled => "disabled"@,
        DailySkip::Paused => "paused"@,
        DailySkip::VideoPriority => "video_priority"@,
        DailySkip::NoFreeRoute => "no_free_route"@,
        DailySkip::DailyLimit => "daily_limit"@,
    }
}

/// The checks before a daily cycle works, in order: enabled, not paused
/// (`paused_now`: a pause time that lies in the future), no video job queued
/// or running, a free or local generator, and today's attempts (their low
/// 32 bits) under the daily maximum.
pub open spec fn gate(
    enabled: bool,
    paused_now: bool,
    video_jobs: i64,
    free_route: bool,
    attempts_today: i64,
    max_per_day: u32,
) -> Option<DailySkip> {
    if !enabled {
        Some(DailySkip::Disabled)
    } else if paused_now {
        Some(DailySkip::Paused)
    } else if video_jobs > 0 {
        Some(DailySkip::VideoPriority)
    } else if !free_route {
        Some(DailySkip::NoFreeRoute)
    } else if attempts_today as u32 >= max_per_day {
        Some(DailySkip::DailyLimit)
    } else {
        None
    }
}

/// Whether a daily cycle may work now, or why not.
pub fn daily_gate(
    settings: &DailyFeedSettings,
    paused_now: bool,
    video_jobs: i64,
    free_route: bool,
    attempts_today: i64,
) -> (r: Option<DailySkip>)
    ensures
        r == gate(settings.enabled, paused_now, video_jobs, free_route, attempts_today, settings.max_per_day),
{
    if !settings.enabled {
        Some(DailySkip::Disabled)
    } else if paused_now {
        Some(DailySkip::Paused)
    } else if video_jobs > 0 {
        Some(DailySkip::VideoPriority)
    } else if !free_route {
        Some(DailySkip::NoFreeRoute)
    } else if attempts_today as u32 >= settings.max_per_day {
        Some(DailySkip::DailyLimit)
    } else {
        None
    }
}

/// A concept as the daily feed sees it: whether it is active (or a
/// priority) and how many assets cover it.
pub struct ConceptState {
    pub active: bool,
    pub coverage_count: u32,
}

/// The first active concept that no asset covers.
pub fn first_uncovered(concepts: &Vec<ConceptState>) -> (r: Option<usize>)
    ensures
        r matches Some(i) ==> (i < concepts@.len() && concepts@[i as int].active
            && concepts@[i as int].coverage_count == 0),
        r matches Some(i) ==> forall|k: int| 0 <= k < i ==> !((#[trigger] concepts@[k]).active
            && concepts@[k].coverage_count == 0),
        r is None ==> forall|k: int| 0 <= k < concepts@.len() ==> !((#[trigger] concepts@[k]).active
            && concepts@[k].coverage_count == 0),
{
    let mut i: usize = 0;
    while i < concepts.len()
        invariant
            i <= concepts@.len(),
            forall|k: int| 0 <= k < i ==> !((#[trigger] concepts@[k]).active
                && concepts@[k].coverage_count == 0),
        decreases concepts@.len() - i,
    {
        if concepts[i].active && concepts[i].coverage_count == 0 {
            return Some(i);
        }
        i = i + 1;
    }
    None
}

/// After a failed enqueue: the new failure count, and whether the feed pauses
/// (for six hours) because five or more failed in a row.
pub fn failure_backoff(consecutive_failures: u32) -> (r: (u32, bool))
    requires
        consecutive_failures < u32::MAX,
    ensures
        r.0 == consecutive_failures + 1,
        r.1 == (consecutive_failures + 1 >= 5),
{
    let fails = consecutive_failures + 1;
    (fails, fails >= 5)
}

/// The idempotency key of a daily generation for a concept: `daily:<id>:v1`.
pub fn daily_generation_key(concept_id: &str) -> (r: String)
    ensures
        r@ == "daily:"@ + concept_id@ + ":v1"@,
{
    let mut k = String::from_str("daily:");
    crate::text::push_str(&mut k, concept_id);
    crate::text::push_str(&mut k, ":v1");
    k
}

/// Video work first: a daily cycle never runs while a video job waits, and a
/// disabled feed never runs at all.
pub proof fn lemma_video_first(
    enabled: bool,
    paused_now: bool,
    video_jobs: i64,
    free_route: bool,
    attempts_today: i64,
    max_per_day: u32,
)
    ensures
        video_jobs > 0 ==> gate(enabled, paused_now, video_jobs, free_route, attempts_today, max_per_day) is Some,
        !enabled ==> gate(enabled, paused_now, video_jobs, free_route, attempts_today, max_per_day) == Some(DailySkip::Disabled),
        !free_route ==> gate(enabled, paused_now, video_jobs, free_route, attempts_today, max_per_day) is Some,
{
}

} // verus!
