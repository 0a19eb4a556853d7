//! The profile store: lookups, removal, and snapshot matching.

use late::profile::{
    add_profile, choose_profile, find_by_values, get_current_if_any, get_profile_names,
    remove_profile, LateProfile,
};

fn profile(name: &str, buffer_size: u32, sample_rate: u32) -> LateProfile {
    LateProfile { name: name.to_string(), buffer_size, sample_rate }
}

#[test]
fn names_come_out_in_insertion_order() {
    let profiles = vec![profile("B", 256, 44100), profile("A", 128, 48000)];
    assert_eq!(get_profile_names(&profiles), vec!["B".to_string(), "A".to_string()]);
}

#[test]
fn names_keep_duplicates() {
    let profiles = vec![profile("X", 1, 2), profile("X", 3, 4)];
    assert_eq!(get_profile_names(&profiles), vec!["X".to_string(), "X".to_string()]);
}

#[test]
fn choose_profile_returns_the_first_match() {
    let profiles = vec![profile("X", 1, 2), profile("X", 3, 4), profile("Y", 5, 6)];
    let chosen = choose_profile(&profiles, "X").unwrap();
    assert_eq!(chosen, profile("X", 1, 2));
    assert_eq!(choose_profile(&profiles, "Y").unwrap(), profile("Y", 5, 6));
    assert!(choose_profile(&profiles, "Z").is_none());
    assert!(choose_profile(&profiles, "").is_none());
}

#[test]
fn find_by_values_needs_both_components_equal() {
    let profiles = vec![profile("A", 64, 48000)];
    // A profile with the same buffer size but another rate is no match.
    assert!(find_by_values(&profiles, 64, 44100).is_none());
    assert_eq!(find_by_values(&profiles, 64, 48000).unwrap(), profile("A", 64, 48000));
}

#[test]
fn snapshot_match_returns_none_without_an_exact_pair() {
    let profiles = vec![profile("A", 64, 48000)];
    assert_eq!(get_current_if_any(&profiles, Some(44100), Some(64)), None);
    assert_eq!(get_current_if_any(&profiles, Some(48000), Some(64)), Some("A".to_string()));
}

#[test]
fn snapshot_match_reads_unknown_components_as_zero() {
    let profiles = vec![profile("reset", 0, 0), profile("A", 128, 48000)];
    assert_eq!(get_current_if_any(&profiles, None, None), Some("reset".to_string()));
    // None is "unknown", not the value 0 of a known component.
    assert_eq!(get_current_if_any(&profiles, Some(48000), None), None);
}

#[test]
fn remove_profile_takes_out_only_the_first_match() {
    let mut profiles = vec![profile("X", 1, 2), profile("X", 3, 4), profile("Y", 5, 6)];
    assert!(remove_profile(&mut profiles, "X"));
    assert_eq!(profiles, vec![profile("X", 3, 4), profile("Y", 5, 6)]);
}

#[test]
fn remove_profile_is_a_no_op_without_a_match() {
    let mut profiles = vec![profile("X", 1, 2)];
    assert!(!remove_profile(&mut profiles, "Z"));
    assert_eq!(profiles, vec![profile("X", 1, 2)]);
}

#[test]
fn add_profile_appends() {
    let mut profiles = vec![profile("A", 128, 48000)];
    add_profile(&mut profiles, profile("B", 256, 44100));
    assert_eq!(profiles, vec![profile("A", 128, 48000), profile("B", 256, 44100)]);
}
