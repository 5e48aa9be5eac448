//! Timer-less animation arithmetic. Times are milliseconds on a monotonic clock; every value
//! here is a pure function of a phase's start and the current time.
use vstd::prelude::*;

verus! {

/// Nominal length of the fullscreen enter and exit animations.
pub const FULLSCREEN_ANIMATION_DURATION_MS: u64 = 200;

/// Length of the overview cross-fade.
pub const OVERVIEW_FADE_MS: u64 = 100;

/// Opacity and progress values are given in thousandths.
pub const FULL: u32 = 1000;

/// Time since `start`, zero when `now` is not later.
pub open spec fn elapsed_spec(start: u64, now: u64) -> int {
    if now >= start {
        now - start
    } else {
        0
    }
}

pub fn elapsed(start: u64, now: u64) -> (r: u64)
    ensures
        r == elapsed_spec(start, now),
{
    now.saturating_sub(start)
}

/// Start of a phase that interrupts another: `now - (D - remaining)`, where `remaining` is
/// what the interrupted phase still had to run, so that the time it used and the time the new
/// phase has left add up to the nominal duration. A phase that interrupts nothing starts at
/// `now`.
pub open spec fn reversed_start_spec(now: u64, previous: Option<u64>) -> int {
    let d = FULLSCREEN_ANIMATION_DURATION_MS as int;
    match previous {
        Some(p) => {
            let used = if elapsed_spec(p, now) < d {
                elapsed_spec(p, now)
            } else {
                d
            };
            let remaining = d - used;
            now - (d - remaining)
        },
        None => now as int,
    }
}

pub fn reversed_start(now: u64, previous: Option<u64>) -> (r: u64)
    ensures
        r == reversed_start_spec(now, previous),
{
    match previous {
        Some(p) => {
            let e = elapsed(p, now);
            let used = if e < FULLSCREEN_ANIMATION_DURATION_MS {
                e
            } else {
                FULLSCREEN_ANIMATION_DURATION_MS
            };
            let remaining = FULLSCREEN_ANIMATION_DURATION_MS - used;
            now - (FULLSCREEN_ANIMATION_DURATION_MS - remaining)
        },
        None => now,
    }
}

/// When a phase started at `start` finishes.
pub open spec fn phase_end(start: int) -> int {
    start + FULLSCREEN_ANIMATION_DURATION_MS
}

/// A phase that interrupts one begun at `entered` runs for what the interrupted phase had
/// left, so the time the interrupted phase used and the time the new one runs from `now`
/// add up to the nominal duration: an enter animation cut short and its exit together never
/// take longer than that duration.
pub proof fn reversal_never_overshoots(entered: u64, now: u64)
    requires
        entered <= now,
    ensures
        0 <= reversed_start_spec(now, Some(entered)) <= now,
        phase_end(reversed_start_spec(now, Some(entered))) - now == FULLSCREEN_ANIMATION_DURATION_MS
            - if now - entered < FULLSCREEN_ANIMATION_DURATION_MS {
            now - entered
        } else {
            FULLSCREEN_ANIMATION_DURATION_MS as int
        },
        now - entered < FULLSCREEN_ANIMATION_DURATION_MS ==> (now - entered) + (phase_end(
            reversed_start_spec(now, Some(entered)),
        ) - now) == FULLSCREEN_ANIMATION_DURATION_MS,
{
}

/// How far a phase started at `start` has run, in thousandths, capped at one.
pub open spec fn progress_spec(start: u64, now: u64) -> int {
    let e = elapsed_spec(start, now);
    if e >= FULLSCREEN_ANIMATION_DURATION_MS {
        FULL as int
    } else {
        e * FULL / FULLSCREEN_ANIMATION_DURATION_MS as int
    }
}

pub fn progress(start: u64, now: u64) -> (r: u32)
    ensures
        r == progress_spec(start, now),
        r <= FULL,
{
    let e = elapsed(start, now);
    if e >= FULLSCREEN_ANIMATION_DURATION_MS {
        FULL
    } else {
        assert(e < 200);
        (e * 1000 / FULLSCREEN_ANIMATION_DURATION_MS) as u32
    }
}

/// The commit blocker of a phase is released once the phase is past its midpoint.
pub open spec fn past_midpoint_spec(start: u64, now: u64) -> bool {
    2 * elapsed_spec(start, now) > FULLSCREEN_ANIMATION_DURATION_MS
}

pub fn past_midpoint(start: u64, now: u64) -> (r: bool)
    ensures
        r == past_midpoint_spec(start, now),
{
    let e = elapsed(start, now);
    e > FULLSCREEN_ANIMATION_DURATION_MS / 2
}

/// The state of the overview mode, with the time at which its fade started.
#[derive(Clone, Copy, Debug, PartialEq, Eq, Structural)]
pub enum OverviewMode {
    Inactive,
    Started(u64),
    Active,
    Ended(u64),
}

/// Progress of the overview cross-fade in thousandths.
pub open spec fn fade_spec(start: u64, now: u64) -> int {
    let e = elapsed_spec(start, now);
    if e >= OVERVIEW_FADE_MS {
        FULL as int
    } else {
        e * 10
    }
}

pub fn fade(start: u64, now: u64) -> (r: u32)
    ensures
        r == fade_spec(start, now),
        r <= FULL,
{
    let e = elapsed(start, now);
    if e >= OVERVIEW_FADE_MS {
        FULL
    } else {
        (e * 10) as u32
    }
}

/// How deep the overview is, in thousandths: rising while it starts, full while active,
/// falling while it ends, absent when there is none.
pub open spec fn overview_alpha_spec(mode: OverviewMode, now: u64) -> Option<int> {
    match mode {
        OverviewMode::Inactive => None,
        OverviewMode::Started(s) => Some(fade_spec(s, now)),
        OverviewMode::Active => Some(FULL as int),
        OverviewMode::Ended(s) => Some(FULL - fade_spec(s, now)),
    }
}

pub fn overview_alpha(mode: OverviewMode, now: u64) -> (r: Option<u32>)
    ensures
        r.is_some() == overview_alpha_spec(mode, now).is_some(),
        r.is_some() ==> r.unwrap() == overview_alpha_spec(mode, now).unwrap(),
{
    match mode {
        OverviewMode::Inactive => None,
        OverviewMode::Started(s) => Some(fade(s, now)),
        OverviewMode::Active => Some(FULL),
        OverviewMode::Ended(s) => Some(FULL - fade(s, now)),
    }
}

/// Opacity of ordinary windows: one without overview, and from one down to 0.6 as the
/// overview deepens.
pub open spec fn window_alpha_spec(mode: OverviewMode, now: u64) -> int {
    match overview_alpha_spec(mode, now) {
        None => FULL as int,
        Some(a) => FULL - a * 400 / FULL as int,
    }
}

pub fn window_alpha(mode: OverviewMode, now: u64) -> (r: u32)
    ensures
        r == window_alpha_spec(mode, now),
        600 <= r <= FULL,
{
    match overview_alpha(mode, now) {
        None => FULL,
        Some(a) => FULL - a * 400 / FULL,
    }
}

/// Opacity of the darkening backdrop: 0.85 of the overview's depth.
pub open spec fn backdrop_alpha_spec(overview: int) -> int {
    overview * 85 / 100
}

pub fn backdrop_alpha(overview: u32) -> (r: u32)
    requires
        overview <= FULL,
    ensures
        r == backdrop_alpha_spec(overview as int),
{
    overview * 85 / 100
}

} // verus!
