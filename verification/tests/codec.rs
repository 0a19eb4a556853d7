//! The durable profile-file format: encoding, decoding, and the round trip.

use late::codec::{decode_profiles, encode_profiles};
use late::profile::LateProfile;

fn profile(name: &str, buffer_size: u32, sample_rate: u32) -> LateProfile {
    LateProfile { name: name.to_string(), buffer_size, sample_rate }
}

#[test]
fn empty_store_encodes_to_the_empty_array() {
    assert_eq!(encode_profiles(&Vec::new()), "[]");
}

#[test]
fn encoding_is_the_documented_json_shape() {
    let profiles = vec![profile("A", 128, 48000)];
    assert_eq!(
        encode_profiles(&profiles),
        "[{\"name\":\"A\",\"buffer_size\":128,\"sample_rate\":48000}]"
    );
}

#[test]
fn round_trip_keeps_order_and_values() {
    let profiles = vec![
        profile("recording", 64, 48000),
        profile("mixing", 1024, 44100),
        profile("recording", 128, 96000),
    ];
    let text = encode_profiles(&profiles);
    assert_eq!(decode_profiles(&text), profiles);
}

#[test]
fn round_trip_of_the_empty_store() {
    let text = encode_profiles(&Vec::new());
    assert_eq!(decode_profiles(&text), Vec::<LateProfile>::new());
}

#[test]
fn round_trip_keeps_zero_values() {
    let profiles = vec![profile("X", 0, 0)];
    let text = encode_profiles(&profiles);
    assert_eq!(decode_profiles(&text), profiles);
}

#[test]
fn round_trip_escapes_quotes_and_backslashes_in_names() {
    let profiles = vec![profile("a\"b\\c", 512, 22050), profile("", 2048, 88200)];
    let text = encode_profiles(&profiles);
    assert_eq!(decode_profiles(&text), profiles);
}

#[test]
fn decoding_reads_short_escapes() {
    let text = "[{\"name\":\"a\\nb\\tc\\/d\",\"buffer_size\":1,\"sample_rate\":2}]";
    assert_eq!(decode_profiles(text), vec![profile("a\nb\tc/d", 1, 2)]);
}

#[test]
fn malformed_content_degrades_to_the_empty_collection() {
    assert!(decode_profiles("").is_empty());
    assert!(decode_profiles("not json").is_empty());
    assert!(decode_profiles("{}").is_empty());
    assert!(decode_profiles("[{}]").is_empty());
    assert!(decode_profiles("[{\"name\":\"A\",\"buffer_size\":128").is_empty());
    assert!(decode_profiles("[{\"name\":\"A\",\"buffer_size\":-1,\"sample_rate\":2}]").is_empty());
    assert!(
        decode_profiles("[{\"name\":\"A\",\"buffer_size\":128,\"sample_rate\":48000}]x").is_empty()
    );
}

#[test]
fn values_over_u32_are_malformed() {
    let text = "[{\"name\":\"A\",\"buffer_size\":4294967296,\"sample_rate\":2}]";
    assert!(decode_profiles(text).is_empty());
    let ok = "[{\"name\":\"A\",\"buffer_size\":4294967295,\"sample_rate\":2}]";
    assert_eq!(decode_profiles(ok), vec![profile("A", u32::MAX, 2)]);
}

#[test]
fn encoded_text_is_valid_json_for_other_readers() {
    let profiles = vec![profile("a\"b", 128, 48000), profile("plain", 256, 44100)];
    let text = encode_profiles(&profiles);
    let value: serde_json::Value = serde_json::from_str(&text).unwrap();
    let entries = value.as_array().unwrap();
    assert_eq!(entries.len(), 2);
    assert_eq!(entries[0]["name"].as_str().unwrap(), "a\"b");
    assert_eq!(entries[0]["buffer_size"].as_u64().unwrap(), 128);
    assert_eq!(entries[1]["sample_rate"].as_u64().unwrap(), 44100);
}

#[test]
fn text_from_another_json_writer_decodes() {
    // A name escaped by serde_json itself, framed in the documented field
    // order, reads back unchanged.
    let name = "stu\"dio\\ b\n";
    let name_json = serde_json::to_string(name).unwrap();
    let text = format!(
        "[{{\"name\":{},\"buffer_size\":{},\"sample_rate\":{}}}]",
        name_json, 64, 96000
    );
    assert_eq!(decode_profiles(&text), vec![profile(name, 64, 96000)]);
}
