use nous_memory::accessibility::{
    eligible, parse_accessibility_mode, AccessibilityLevel, AccessibilityMode, AccessibilityPolicy, CognitiveEffort,
};
use nous_memory::error::Error;
use nous_memory::time::Timestamp;

fn instant(t: chrono::DateTime<chrono::Utc>) -> Timestamp {
    Timestamp { seconds: t.timestamp(), nanos: t.timestamp_subsec_nanos() }
}

#[test]
fn accessibility_is_an_eligibility_rule_and_exact_is_not_suppression() {
    let now = chrono::Utc::now();
    let policy = AccessibilityPolicy::default();
    assert_eq!(
        policy.level(
            AccessibilityMode::Auto,
            instant(now - chrono::Duration::days(20)),
            instant(now)
        ),
        AccessibilityLevel::Normal
    );
    let deep = policy.level(
        AccessibilityMode::Auto,
        instant(now - chrono::Duration::days(100)),
        instant(now),
    );
    assert!(!eligible(deep, CognitiveEffort::Normal, false, false));
    assert!(eligible(deep, CognitiveEffort::Deep, false, false));
    assert!(eligible(deep, CognitiveEffort::Light, false, true));
    let explicit = policy.level(
        AccessibilityMode::Auto,
        instant(now - chrono::Duration::days(400)),
        instant(now),
    );
    assert!(!eligible(explicit, CognitiveEffort::Maximum, false, true));
    assert!(eligible(explicit, CognitiveEffort::Light, true, false));
}

#[test]
fn default_policy_thresholds() {
    let policy = AccessibilityPolicy::default();
    assert_eq!(policy.normal_days, 90);
    assert_eq!(policy.explicit_after_days, 365);
    assert!(policy.validate().is_ok());
}

#[test]
fn policy_validation_rejects_unordered_thresholds() {
    let zero = AccessibilityPolicy { normal_days: 0, explicit_after_days: 10 };
    assert!(matches!(zero.validate(), Err(Error::Invalid(_))));
    let equal = AccessibilityPolicy { normal_days: 10, explicit_after_days: 10 };
    assert!(matches!(equal.validate(), Err(Error::Invalid(_))));
    let good = AccessibilityPolicy { normal_days: 1, explicit_after_days: 2 };
    assert_eq!(good.validate().ok(), Some(good));
}

#[test]
fn level_thresholds_are_inclusive() {
    let policy = AccessibilityPolicy::default();
    let anchor = Timestamp { seconds: 1_000_000, nanos: 0 };
    let at = |seconds: i64| Timestamp { seconds: 1_000_000 + seconds, nanos: 0 };
    assert_eq!(policy.level(AccessibilityMode::Auto, anchor, at(90 * 86400)), AccessibilityLevel::Normal);
    assert_eq!(policy.level(AccessibilityMode::Auto, anchor, at(90 * 86400 + 1)), AccessibilityLevel::Deep);
    assert_eq!(policy.level(AccessibilityMode::Auto, anchor, at(365 * 86400)), AccessibilityLevel::Deep);
    assert_eq!(policy.level(AccessibilityMode::Auto, anchor, at(365 * 86400 + 1)), AccessibilityLevel::Explicit);
    // A future anchor counts as no elapsed time.
    assert_eq!(policy.level(AccessibilityMode::Auto, at(10), anchor), AccessibilityLevel::Normal);
}

#[test]
fn explicit_modes_do_not_depend_on_age() {
    let policy = AccessibilityPolicy::default();
    let anchor = Timestamp { seconds: 0, nanos: 0 };
    for now in [Timestamp { seconds: 0, nanos: 0 }, Timestamp { seconds: 1_000_000_000, nanos: 5 }] {
        assert_eq!(policy.level(AccessibilityMode::Normal, anchor, now), AccessibilityLevel::Normal);
        assert_eq!(policy.level(AccessibilityMode::Deep, anchor, now), AccessibilityLevel::Deep);
        assert_eq!(policy.level(AccessibilityMode::Explicit, anchor, now), AccessibilityLevel::Explicit);
    }
}

#[test]
fn eligibility_table() {
    for effort in [CognitiveEffort::Light, CognitiveEffort::Normal, CognitiveEffort::Deep, CognitiveEffort::Maximum] {
        assert!(eligible(AccessibilityLevel::Normal, effort, false, false));
        assert!(eligible(AccessibilityLevel::Deep, effort, true, false));
        assert!(eligible(AccessibilityLevel::Explicit, effort, true, false));
        assert!(!eligible(AccessibilityLevel::Explicit, effort, false, true));
    }
    assert!(!eligible(AccessibilityLevel::Deep, CognitiveEffort::Light, false, false));
    assert!(eligible(AccessibilityLevel::Deep, CognitiveEffort::Maximum, false, false));
}

#[test]
fn accessibility_modes_round_trip_through_storage() {
    for mode in [AccessibilityMode::Auto, AccessibilityMode::Normal, AccessibilityMode::Deep, AccessibilityMode::Explicit] {
        assert_eq!(parse_accessibility_mode(mode.storage_name()).ok(), Some(mode));
    }
    assert_eq!(AccessibilityMode::Explicit.storage_name(), "explicit");
    assert!(matches!(parse_accessibility_mode("Auto"), Err(Error::Infrastructure(_))));
}
