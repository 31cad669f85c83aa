//! The scheduling rules of the agent's main cycle: hold, escalate past the
//! strategy once the impatience deadline passes, or consult the strategy;
//! classify the game's answer to a seize attempt; and move the impatience
//! deadline after every attempt.

use crate::order::str_eq;
use crate::parse::{parse_i64, spec_parse_i64};
use crate::sleep::{long_jitter, short_jitter};
use crate::stats::Stats;
use crate::{Config, COOLDOWN_TIME_MS};
use vstd::prelude::*;

verus! {

/// What the scheduler does next in a cycle.
#[derive(Clone, Copy, Debug, PartialEq, Eq, Structural)]
pub enum CycleAction {
    /// The agent already holds the flag: pause briefly, change nothing.
    Hold,
    /// Attempt to seize the flag. `escalated` marks an attempt the
    /// impatience deadline forced past the strategy.
    Yoink { escalated: bool },
    /// Ask the active strategy whether to act.
    ConsultStrategy,
}

/// The rule of one cycle: with no snapshot yet, seize blindly; holding the
/// flag, do nothing; past the impatience deadline, seize without asking the
/// strategy; otherwise let the strategy decide.
pub open spec fn spec_plan_cycle(
    has_snapshot: bool,
    holder_is_self: bool,
    now_ms: u64,
    impatient_fire_ms: u64,
) -> CycleAction {
    if !has_snapshot {
        CycleAction::Yoink { escalated: false }
    } else if holder_is_self {
        CycleAction::Hold
    } else if now_ms > impatient_fire_ms {
        CycleAction::Yoink { escalated: true }
    } else {
        CycleAction::ConsultStrategy
    }
}

/// Decide the next step of a cycle from the newest snapshot, the clock and
/// the impatience deadline. Escalation bypasses the strategy entirely.
pub fn plan_cycle(
    stats: Option<&Stats>,
    config: &Config,
    now_ms: u64,
    impatient_fire_ms: u64,
) -> (r: CycleAction)
    ensures
        match stats {
            Some(s) => r == spec_plan_cycle(
                true,
                s.flag.holder_id@ == config.user_id@,
                now_ms,
                impatient_fire_ms,
            ),
            None => r == spec_plan_cycle(false, false, now_ms, impatient_fire_ms),
        },
{
    match stats {
        None => CycleAction::Yoink { escalated: false },
        Some(s) => {
            if str_eq(s.flag.holder_id.as_str(), config.user_id.as_str()) {
                CycleAction::Hold
            } else if now_ms > impatient_fire_ms {
                CycleAction::Yoink { escalated: true }
            } else {
                CycleAction::ConsultStrategy
            }
        },
    }
}

/// The impatience deadline before any action was attempted: two full
/// cooldowns ahead, so a fresh agent defers to its strategy for a while.
pub fn initial_impatient_fire(now_ms: u64) -> (r: u64)
    requires
        now_ms + 2 * COOLDOWN_TIME_MS <= u64::MAX,
    ensures
        r == now_ms + 2 * COOLDOWN_TIME_MS,
{
    now_ms + 2 * COOLDOWN_TIME_MS
}

/// The impatience deadline after an action attempt: one cooldown ahead,
/// stretched by a long jitter after a successful seize and only a short one
/// after a rate-limited attempt, so a refused agent retries sooner.
pub fn next_impatient_fire(now_ms: u64, yoinked: bool) -> (r: u64)
    requires
        now_ms + COOLDOWN_TIME_MS + COOLDOWN_TIME_MS / 2 <= u64::MAX,
    ensures
        now_ms + COOLDOWN_TIME_MS <= r,
        yoinked ==> r <= now_ms + COOLDOWN_TIME_MS + COOLDOWN_TIME_MS / 2,
        !yoinked ==> r <= now_ms + COOLDOWN_TIME_MS + COOLDOWN_TIME_MS / 10,
{
    let j = if yoinked {
        long_jitter()
    } else {
        short_jitter()
    };
    now_ms + COOLDOWN_TIME_MS + j
}

/// How an action attempt ended, with how long to wait before the next one.
#[derive(Clone, Copy, Debug, PartialEq, Eq, Structural)]
pub enum YoinkOutcome {
    /// The flag was seized; wait out the cooldown.
    Yoinked { sleep_ms: u64 },
    /// The game rate-limited the attempt; wait until it will listen again.
    RateLimited { sleep_ms: u64 },
}

/// Why a seize response could not be acted on.
#[derive(Clone, Copy, Debug, PartialEq, Eq, Structural)]
pub enum YoinkError {
    /// The rate-limit response carried a timestamp that does not parse.
    RateLimitDateParse,
    /// The reported rate limit already lies in the past: sleeping a
    /// non-positive duration would be wrong, so the call fails instead.
    RateLimitInPast { until_ms: i64, now_ms: i64 },
}

/// The path of the response image that signals a rate limit.
pub open spec fn ratelimit_path() -> Seq<char> {
    "/api/images/ratelimit"@
}

/// How a seize response is classified. Any image but the rate-limit one
/// means the flag was seized. A rate-limit image carrying a timestamp `t`
/// asks for a wait of `(t + cooldown) - now`, owed only while positive; a
/// rate-limit image without a parsable timestamp falls back to the full
/// cooldown.
pub open spec fn spec_classify_response(
    image_path: Seq<char>,
    date_param: Option<Seq<char>>,
    now_ms: i64,
    cooldown_ms: i64,
) -> Result<YoinkOutcome, YoinkError> {
    if image_path != ratelimit_path() {
        Ok(YoinkOutcome::Yoinked { sleep_ms: cooldown_ms as u64 })
    } else {
        match date_param {
            None => Ok(YoinkOutcome::RateLimited { sleep_ms: cooldown_ms as u64 }),
            Some(ds) => match spec_parse_i64(ds) {
                None => Err(YoinkError::RateLimitDateParse),
                Some(last_ms) => {
                    let until = last_ms + cooldown_ms;
                    if until > now_ms {
                        Ok(YoinkOutcome::RateLimited { sleep_ms: (until - now_ms) as u64 })
                    } else {
                        Err(YoinkError::RateLimitInPast { until_ms: until as i64, now_ms })
                    }
                },
            },
        }
    }
}

/// Classify the game's answer to a seize attempt from the path of the
/// response image and its optional rate-limit timestamp parameter.
pub fn classify_yoink_response(
    image_path: &str,
    date_param: Option<&String>,
    now_ms: i64,
    cooldown_ms: i64,
) -> (r: Result<YoinkOutcome, YoinkError>)
    requires
        now_ms >= 0,
        cooldown_ms >= 0,
    ensures
        r == spec_classify_response(
            image_path@,
            match date_param {
                Some(d) => Some(d@),
                None => None,
            },
            now_ms,
            cooldown_ms,
        ),
{
    if !str_eq(image_path, "/api/images/ratelimit") {
        return Ok(YoinkOutcome::Yoinked { sleep_ms: cooldown_ms as u64 });
    }
    match date_param {
        None => Ok(YoinkOutcome::RateLimited { sleep_ms: cooldown_ms as u64 }),
        Some(ds) => {
            match parse_i64(ds.as_str()) {
                None => Err(YoinkError::RateLimitDateParse),
                Some(last_ms) => {
                    let until: i128 = last_ms as i128 + cooldown_ms as i128;
                    if until > now_ms as i128 {
                        Ok(
                            YoinkOutcome::RateLimited {
                                sleep_ms: (until - now_ms as i128) as u64,
                            },
                        )
                    } else {
                        Err(YoinkError::RateLimitInPast { until_ms: until as i64, now_ms })
                    }
                },
            }
        },
    }
}

} // verus!
