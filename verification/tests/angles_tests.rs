use astro_calc::angles::{propagate_sign_to_minutes, propagate_sign_to_seconds, ComponentSign};

#[test]
fn test_propagate_sign_to_minutes() {
    // Positive leading component: minutes become non-negative.
    assert_eq!(propagate_sign_to_minutes(222, 22), 22);
    assert_eq!(propagate_sign_to_minutes(222, -22), 22);
    // Negative leading component: minutes become non-positive.
    assert_eq!(propagate_sign_to_minutes(-222, 22), -22);
    assert_eq!(propagate_sign_to_minutes(-222, -22), -22);
    // Zero leading component: minutes keep their own sign.
    assert_eq!(propagate_sign_to_minutes(0, 49), 49);
    assert_eq!(propagate_sign_to_minutes(0, -49), -49);
    assert_eq!(propagate_sign_to_minutes(0, 0), 0);
}

#[test]
fn test_propagate_sign_to_seconds() {
    assert_eq!(propagate_sign_to_seconds(222, 22), ComponentSign::NonNegative);
    assert_eq!(propagate_sign_to_seconds(222, -22), ComponentSign::NonNegative);
    assert_eq!(propagate_sign_to_seconds(-222, 22), ComponentSign::Negative);
    assert_eq!(propagate_sign_to_seconds(-222, -22), ComponentSign::Negative);
    assert_eq!(propagate_sign_to_seconds(0, 49), ComponentSign::NonNegative);
    assert_eq!(propagate_sign_to_seconds(0, -49), ComponentSign::Negative);
    assert_eq!(propagate_sign_to_seconds(0, 0), ComponentSign::Unchanged);
}
