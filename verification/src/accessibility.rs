//! Age-based accessibility of memories and the eligibility rule that recall applies.
use vstd::prelude::*;
use crate::error::Error;
use crate::time::{Timestamp, elapsed_seconds, elapsed_whole_seconds};
use crate::text::str_eq;

verus! {

/// Seconds in one day.
pub const SECONDS_PER_DAY: i128 = 86400;

/// How a memory's accessibility is chosen.
#[derive(Debug, Clone, Copy, PartialEq, Eq, Structural)]
pub enum AccessibilityMode {
    Auto,
    Normal,
    Deep,
    Explicit,
}

/// How hard a memory is to reach.
#[derive(Debug, Clone, Copy, PartialEq, Eq, Structural)]
pub enum AccessibilityLevel {
    Normal,
    Deep,
    Explicit,
}

/// How much effort a cognitive request may spend.
#[derive(Debug, Clone, Copy, PartialEq, Eq, Structural)]
pub enum CognitiveEffort {
    Light,
    Normal,
    Deep,
    Maximum,
}

/// Restrictiveness of a level: 0 for `Normal`, 1 for `Deep`, 2 for `Explicit`.
pub open spec fn level_rank(level: AccessibilityLevel) -> int {
    match level {
        AccessibilityLevel::Normal => 0,
        AccessibilityLevel::Deep => 1,
        AccessibilityLevel::Explicit => 2,
    }
}

/// Order of efforts: `Light` < `Normal` < `Deep` < `Maximum`.
pub open spec fn effort_rank(effort: CognitiveEffort) -> int {
    match effort {
        CognitiveEffort::Light => 0,
        CognitiveEffort::Normal => 1,
        CognitiveEffort::Deep => 2,
        CognitiveEffort::Maximum => 3,
    }
}

/// Age thresholds, in days, after which an automatically managed memory
/// becomes deep and then explicit-only.
#[derive(Debug, Clone, Copy, PartialEq, Eq, Structural)]
pub struct AccessibilityPolicy {
    pub normal_days: u32,
    pub explicit_after_days: u32,
}

/// The level an automatically managed memory has after `elapsed` seconds.
pub open spec fn auto_level(policy: AccessibilityPolicy, elapsed: int) -> AccessibilityLevel {
    if elapsed <= policy.normal_days * 86400 {
        AccessibilityLevel::Normal
    } else if elapsed <= policy.explicit_after_days * 86400 {
        AccessibilityLevel::Deep
    } else {
        AccessibilityLevel::Explicit
    }
}

/// The level of a memory in `mode` whose last anchor is `anchor`, observed at `now`.
pub open spec fn spec_level(
    policy: AccessibilityPolicy,
    mode: AccessibilityMode,
    anchor: Timestamp,
    now: Timestamp,
) -> AccessibilityLevel {
    match mode {
        AccessibilityMode::Normal => AccessibilityLevel::Normal,
        AccessibilityMode::Deep => AccessibilityLevel::Deep,
        AccessibilityMode::Explicit => AccessibilityLevel::Explicit,
        AccessibilityMode::Auto => auto_level(policy, elapsed_whole_seconds(anchor, now)),
    }
}

/// The eligibility rule: normal memories are always eligible, deep ones need an
/// exact target, a direct topology contact or deep effort, explicit ones need an
/// exact target.
pub open spec fn spec_eligible(
    level: AccessibilityLevel,
    effort: CognitiveEffort,
    exact: bool,
    direct_topology: bool,
) -> bool {
    match level {
        AccessibilityLevel::Normal => true,
        AccessibilityLevel::Deep => exact || direct_topology || effort_rank(effort) >= 2,
        AccessibilityLevel::Explicit => exact,
    }
}

impl Default for AccessibilityPolicy {
    /// The default policy: normal for 90 days, explicit-only after 365 days.
    fn default() -> (policy: AccessibilityPolicy)
        ensures
            policy.normal_days == 90,
            policy.explicit_after_days == 365,
    {
        AccessibilityPolicy { normal_days: 90, explicit_after_days: 365 }
    }
}

impl AccessibilityPolicy {
    /// Accepts the policy exactly when `0 < normal_days < explicit_after_days`.
    pub fn validate(self) -> (result: Result<AccessibilityPolicy, Error>)
        ensures
            (self.normal_days > 0 && self.explicit_after_days > self.normal_days) ==> result
                == Ok::<AccessibilityPolicy, Error>(self),
            !(self.normal_days > 0 && self.explicit_after_days > self.normal_days) ==> (
            result matches Err(Error::Invalid(_))),
    {
        if self.normal_days == 0 || self.explicit_after_days <= self.normal_days {
            return Err(
                Error::Invalid("accessibility age thresholds must satisfy 0 < normal_days < explicit_after_days".to_owned()),
            );
        }
        Ok(self)
    }

    /// The accessibility level of a memory in `mode` anchored at `anchor`, seen at `now`.
    pub fn level(self, mode: AccessibilityMode, anchor: Timestamp, now: Timestamp) -> (level:
        AccessibilityLevel)
        ensures
            level == spec_level(self, mode, anchor, now),
    {
        match mode {
            AccessibilityMode::Normal => AccessibilityLevel::Normal,
            AccessibilityMode::Deep => AccessibilityLevel::Deep,
            AccessibilityMode::Explicit => AccessibilityLevel::Explicit,
            AccessibilityMode::Auto => {
                let elapsed = elapsed_seconds(anchor, now);
                if elapsed <= (self.normal_days as i128) * SECONDS_PER_DAY {
                    AccessibilityLevel::Normal
                } else if elapsed <= (self.explicit_after_days as i128) * SECONDS_PER_DAY {
                    AccessibilityLevel::Deep
                } else {
                    AccessibilityLevel::Explicit
                }
            },
        }
    }
}

/// Whether a memory at `level` may be surfaced for a request of `effort`.
pub fn eligible(
    level: AccessibilityLevel,
    effort: CognitiveEffort,
    exact: bool,
    direct_topology: bool,
) -> (ok: bool)
    ensures
        ok == spec_eligible(level, effort, exact, direct_topology),
{
    match level {
        AccessibilityLevel::Normal => true,
        AccessibilityLevel::Deep => exact || direct_topology || matches!(
            effort,
            CognitiveEffort::Deep | CognitiveEffort::Maximum
        ),
        AccessibilityLevel::Explicit => exact,
    }
}

/// Aging never makes an automatically managed memory easier to reach: of two
/// anchors, the one with more elapsed time has a level at least as restrictive.
pub proof fn older_memories_are_never_more_accessible(
    policy: AccessibilityPolicy,
    recent: Timestamp,
    old: Timestamp,
    now: Timestamp,
)
    requires
        elapsed_whole_seconds(recent, now) <= elapsed_whole_seconds(old, now),
    ensures
        level_rank(spec_level(policy, AccessibilityMode::Auto, recent, now)) <= level_rank(
            spec_level(policy, AccessibilityMode::Auto, old, now),
        ),
{
}

/// An exact target is eligible at every level and effort, and a normal memory is
/// eligible for every request: accessibility is an eligibility rule, not suppression.
pub proof fn exact_targets_and_normal_memories_are_always_eligible(
    level: AccessibilityLevel,
    effort: CognitiveEffort,
    direct_topology: bool,
)
    ensures
        spec_eligible(level, effort, true, direct_topology),
        spec_eligible(AccessibilityLevel::Normal, effort, false, direct_topology),
{
}

/// Spending more effort, adding an exact target or a direct topology contact, or
/// facing a less restrictive level never turns an eligible memory ineligible.
pub proof fn eligibility_is_monotone(
    level: AccessibilityLevel,
    looser: AccessibilityLevel,
    effort: CognitiveEffort,
    more: CognitiveEffort,
    exact: bool,
    direct_topology: bool,
)
    requires
        spec_eligible(level, effort, exact, direct_topology),
        level_rank(looser) <= level_rank(level),
        effort_rank(effort) <= effort_rank(more),
    ensures
        spec_eligible(level, more, exact, direct_topology),
        spec_eligible(level, effort, true, direct_topology),
        spec_eligible(level, effort, exact, true) || level == AccessibilityLevel::Explicit,
        spec_eligible(looser, effort, exact, direct_topology),
{
}

/// An explicitly set mode ignores the memory's age entirely.
pub proof fn explicit_modes_ignore_age(
    policy: AccessibilityPolicy,
    mode: AccessibilityMode,
    a: Timestamp,
    b: Timestamp,
    now: Timestamp,
)
    requires
        mode != AccessibilityMode::Auto,
    ensures
        spec_level(policy, mode, a, now) == spec_level(policy, mode, b, now),
{
}

/// The name under which an accessibility mode is stored.
pub open spec fn mode_name(mode: AccessibilityMode) -> Seq<char> {
    match mode {
        AccessibilityMode::Auto => "auto"@,
        AccessibilityMode::Normal => "normal"@,
        AccessibilityMode::Deep => "deep"@,
        AccessibilityMode::Explicit => "explicit"@,
    }
}

/// The accessibility mode a stored name denotes, if any.
pub open spec fn spec_parse_accessibility_mode(v: Seq<char>) -> Option<AccessibilityMode> {
    if v == "auto"@ {
        Some(AccessibilityMode::Auto)
    } else if v == "normal"@ {
        Some(AccessibilityMode::Normal)
    } else if v == "deep"@ {
        Some(AccessibilityMode::Deep)
    } else if v == "explicit"@ {
        Some(AccessibilityMode::Explicit)
    } else {
        None
    }
}

impl AccessibilityMode {
    /// The name under which this mode is stored.
    pub fn storage_name(self) -> (name: &'static str)
        ensures
            name@ == mode_name(self),
    {
        match self {
            AccessibilityMode::Auto => "auto",
            AccessibilityMode::Normal => "normal",
            AccessibilityMode::Deep => "deep",
            AccessibilityMode::Explicit => "explicit",
        }
    }
}

/// Decodes a stored accessibility mode; an unknown name is an authority inconsistency.
pub fn parse_accessibility_mode(value: &str) -> (result: Result<AccessibilityMode, Error>)
    ensures
        match spec_parse_accessibility_mode(value@) {
            Some(m) => result == Ok::<AccessibilityMode, Error>(m),
            None => result matches Err(Error::Infrastructure(_)),
        },
{
    if str_eq(value, "auto") {
        Ok(AccessibilityMode::Auto)
    } else if str_eq(value, "normal") {
        Ok(AccessibilityMode::Normal)
    } else if str_eq(value, "deep") {
        Ok(AccessibilityMode::Deep)
    } else if str_eq(value, "explicit") {
        Ok(AccessibilityMode::Explicit)
    } else {
        Err(Error::Infrastructure("invalid accessibility mode".to_owned()))
    }
}

/// A stored accessibility mode reads back as the mode that was stored.
pub proof fn stored_modes_round_trip(mode: AccessibilityMode)
    ensures
        spec_parse_accessibility_mode(mode_name(mode)) == Some(mode),
{
    reveal_strlit("auto");
    reveal_strlit("normal");
    reveal_strlit("deep");
    reveal_strlit("explicit");
    assert("auto"@.len() == 4 && "deep"@.len() == 4 && "normal"@.len() == 6 && "explicit"@.len() == 8);
    assert("auto"@[0] == 'a' && "deep"@[0] == 'd');
}

} // verus!
