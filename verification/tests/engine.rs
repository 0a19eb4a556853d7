//! The synchronization engine and the live-metadata scraper.

use late::codec::{decode_profiles, encode_profiles};
use late::engine::{ActiveProfile, EngineAction, SyncEngine, UiEvent};
use late::metadata::parse_value_fragment;
use late::profile::LateProfile;

fn profile(name: &str, buffer_size: u32, sample_rate: u32) -> LateProfile {
    LateProfile { name: name.to_string(), buffer_size, sample_rate }
}

fn two_profile_store() -> Vec<LateProfile> {
    vec![profile("A", 128, 48000), profile("B", 256, 44100)]
}

#[test]
fn startup_resolves_the_indicator_from_the_snapshot() {
    let engine = SyncEngine::startup(two_profile_store(), Some(128), Some(48000));
    assert_eq!(engine.active, ActiveProfile::Named("A".to_string()));

    let engine = SyncEngine::startup(two_profile_store(), Some(256), Some(44100));
    assert_eq!(engine.active, ActiveProfile::Named("B".to_string()));

    let engine = SyncEngine::startup(two_profile_store(), Some(64), Some(48000));
    assert_eq!(engine.active, ActiveProfile::Unset);
}

#[test]
fn startup_reads_unknown_snapshot_components_as_reset() {
    let store = vec![profile("defaults", 0, 0)];
    let engine = SyncEngine::startup(store, None, None);
    assert_eq!(engine.active, ActiveProfile::Named("defaults".to_string()));
}

#[test]
fn select_applies_both_stored_values() {
    let mut engine = SyncEngine::startup(two_profile_store(), None, None);
    let acts = engine.update(UiEvent::SelectProfile("B".to_string()));
    assert_eq!(
        acts,
        vec![EngineAction::ApplySampleRate(44100), EngineAction::ApplyBufferSize(256)]
    );
    assert_eq!(engine.active, ActiveProfile::Named("B".to_string()));
    assert_eq!(engine.buffer_size, Some(256));
    assert_eq!(engine.sample_rate, Some(44100));
}

#[test]
fn select_with_the_empty_name_clears_the_indicator() {
    let mut engine = SyncEngine::startup(two_profile_store(), Some(128), Some(48000));
    assert_eq!(engine.active, ActiveProfile::Named("A".to_string()));
    let acts = engine.update(UiEvent::SelectProfile(String::new()));
    assert!(acts.is_empty());
    assert_eq!(engine.active, ActiveProfile::Unset);
}

#[test]
fn select_of_an_unknown_name_changes_nothing() {
    let mut engine = SyncEngine::startup(two_profile_store(), Some(128), Some(48000));
    let acts = engine.update(UiEvent::SelectProfile("missing".to_string()));
    assert!(acts.is_empty());
    assert_eq!(engine.active, ActiveProfile::Named("A".to_string()));
    assert_eq!(engine.buffer_size, Some(128));
}

#[test]
fn ad_hoc_edits_apply_but_leave_the_indicator() {
    let mut engine = SyncEngine::startup(two_profile_store(), Some(128), Some(48000));
    let acts = engine.update(UiEvent::ChangeBufferSize(512));
    assert_eq!(acts, vec![EngineAction::ApplyBufferSize(512)]);
    // The indicator intentionally stays until the user re-derives a match.
    assert_eq!(engine.active, ActiveProfile::Named("A".to_string()));
    assert_eq!(engine.buffer_size, Some(512));

    let acts = engine.update(UiEvent::ChangeSampleRate(96000));
    assert_eq!(acts, vec![EngineAction::ApplySampleRate(96000)]);
    assert_eq!(engine.sample_rate, Some(96000));
}

#[test]
fn delete_active_removes_the_named_profile_and_clears() {
    let store = vec![profile("studio", 64, 48000), profile("B", 256, 44100)];
    let mut engine = SyncEngine::startup(store, Some(64), Some(48000));
    assert_eq!(engine.active, ActiveProfile::Named("studio".to_string()));
    let acts = engine.update(UiEvent::DeleteActive);
    assert_eq!(acts, vec![EngineAction::PersistProfiles]);
    assert_eq!(engine.active, ActiveProfile::Unset);
    assert_eq!(engine.profiles, vec![profile("B", 256, 44100)]);
    assert!(engine.profiles.iter().all(|p| p.name != "studio"));
}

#[test]
fn save_as_profile_stores_and_activates_the_new_name() {
    let mut engine = SyncEngine::startup(Vec::new(), None, None);
    engine.update(UiEvent::ChangeBufferSize(512));
    engine.update(UiEvent::ChangeSampleRate(96000));
    let acts = engine.update(UiEvent::SaveAsProfile("live".to_string()));
    assert_eq!(
        acts,
        vec![
            EngineAction::PersistProfiles,
            EngineAction::ApplySampleRate(96000),
            EngineAction::ApplyBufferSize(512),
        ]
    );
    assert_eq!(engine.profiles, vec![profile("live", 512, 96000)]);
    assert_eq!(engine.active, ActiveProfile::Named("live".to_string()));
}

#[test]
fn save_as_profile_with_zero_values_stores_zeros_and_round_trips() {
    let mut engine = SyncEngine::startup(Vec::new(), Some(0), Some(0));
    engine.update(UiEvent::SaveAsProfile("X".to_string()));
    assert_eq!(engine.profiles, vec![profile("X", 0, 0)]);
    let text = encode_profiles(&engine.profiles);
    assert_eq!(decode_profiles(&text), engine.profiles);
}

#[test]
fn save_as_profile_with_unknown_values_stores_resets() {
    let mut engine = SyncEngine::startup(Vec::new(), None, None);
    engine.update(UiEvent::SaveAsProfile("fresh".to_string()));
    assert_eq!(engine.profiles, vec![profile("fresh", 0, 0)]);
}

#[test]
fn save_under_a_duplicate_name_activates_the_first_match() {
    let mut engine = SyncEngine::startup(vec![profile("X", 1, 2)], Some(512), Some(96000));
    let acts = engine.update(UiEvent::SaveAsProfile("X".to_string()));
    // Both profiles named "X" stay; selection applies the first one's values.
    assert_eq!(engine.profiles.len(), 2);
    assert_eq!(
        acts,
        vec![
            EngineAction::PersistProfiles,
            EngineAction::ApplySampleRate(2),
            EngineAction::ApplyBufferSize(1),
        ]
    );
    assert_eq!(engine.active, ActiveProfile::Named("X".to_string()));
}

#[test]
fn metadata_fragment_holds_the_value() {
    let output = "Found \"settings\" metadata 31\nupdate: id:0 key:'clock.force-quantum' value:'128' type:''\n";
    assert_eq!(parse_value_fragment(output), Some(128));
}

#[test]
fn metadata_without_a_fragment_is_unknown() {
    assert_eq!(parse_value_fragment(""), None);
    assert_eq!(parse_value_fragment("no fragment here"), None);
    assert_eq!(parse_value_fragment("value:"), None);
}

#[test]
fn metadata_fragment_must_hold_one_number() {
    assert_eq!(parse_value_fragment("value:''"), None);
    assert_eq!(parse_value_fragment("value:'abc'"), None);
    assert_eq!(parse_value_fragment("value:'12a'"), None);
    assert_eq!(parse_value_fragment("value:'4294967296'"), None);
    assert_eq!(parse_value_fragment("value:'4294967295'"), Some(u32::MAX));
}

#[test]
fn metadata_first_fragment_wins() {
    assert_eq!(parse_value_fragment("value:'48000' value:'128'"), Some(48000));
    assert_eq!(parse_value_fragment("value:'oops' value:'128'"), None);
}

#[test]
fn metadata_value_may_run_to_the_end_without_a_quote() {
    assert_eq!(parse_value_fragment("key value:'96000"), Some(96000));
}
