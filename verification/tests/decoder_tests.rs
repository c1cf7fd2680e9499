use shard_pipeline::controller::{PipelineController, PipelineState};
use shard_pipeline::decoder::{encode_uint_slot, DecodeError, FieldType, LogdataDeserializer};

fn uint_field(name: &str) -> (String, FieldType) {
    (name.to_string(), FieldType::Uint)
}

fn build_two_uint_payload(a: u64, b: u64) -> Vec<u8> {
    let mut data = encode_uint_slot(a);
    data.extend(encode_uint_slot(b));
    data
}

#[test]
fn decodes_two_uint_fields() {
    // Event payload with order ["proposalID", "state"], proposalID = 7,
    // state = 2: the shard-add case.
    let data = build_two_uint_payload(7, 2);
    let fields = vec![uint_field("proposalID"), uint_field("state")];
    let order = vec!["proposalID".to_string(), "state".to_string()];
    let d = LogdataDeserializer::new(data, fields, order).unwrap();
    assert_eq!(d.get_u64("proposalID"), Ok(7));
    assert_eq!(d.get_u64("state"), Ok(2));
}

#[test]
fn shard_add_event_proceeds_to_resolution() {
    let data = build_two_uint_payload(7, 2);
    let fields = vec![uint_field("proposalID"), uint_field("state")];
    let order = vec!["proposalID".to_string(), "state".to_string()];
    let d = LogdataDeserializer::new(data, fields, order).unwrap();
    let mut ctl = PipelineController::new();
    ctl.on_event(true);
    assert_eq!(ctl.state, PipelineState::DecodingEvent);
    ctl.on_decoded(d.get_u64("state"));
    assert_eq!(ctl.state, PipelineState::ResolvingProposal);
}

#[test]
fn non_shard_add_state_is_a_noop() {
    let data = build_two_uint_payload(7, 1);
    let fields = vec![uint_field("proposalID"), uint_field("state")];
    let order = vec!["proposalID".to_string(), "state".to_string()];
    let d = LogdataDeserializer::new(data, fields, order).unwrap();
    let mut ctl = PipelineController::new();
    ctl.on_event(true);
    ctl.on_decoded(d.get_u64("state"));
    assert_eq!(ctl.state, PipelineState::Done);
}

#[test]
fn irrelevant_topic_is_ignored() {
    let mut ctl = PipelineController::new();
    ctl.on_event(false);
    assert_eq!(ctl.state, PipelineState::Idle);
}

#[test]
fn uint_round_trips_through_slot_layout() {
    for v in [0u64, 1, 7, 255, 256, u64::MAX] {
        let slot = encode_uint_slot(v);
        assert_eq!(slot.len(), 32);
        let fields = vec![uint_field("x")];
        let order = vec!["x".to_string()];
        let d = LogdataDeserializer::new(slot, fields, order).unwrap();
        let decoded = d.get_u64("x").unwrap();
        // Re-encode the decoded value into the same slot layout and decode
        // again: the interpreted 64-bit value survives the round trip.
        let fields2 = vec![uint_field("x")];
        let order2 = vec!["x".to_string()];
        let d2 = LogdataDeserializer::new(encode_uint_slot(decoded), fields2, order2).unwrap();
        assert_eq!(d2.get_u64("x"), Ok(v));
    }
}

fn string_payload(content: &[u8]) -> Vec<u8> {
    // Slot 0: pointer to offset 32; there, a length slot, then the bytes.
    let mut data = encode_uint_slot(32);
    data.extend(encode_uint_slot(content.len() as u64));
    data.extend(content);
    data
}

#[test]
fn string_field_yields_declared_byte_count() {
    let data = string_payload(b"hello");
    let fields = vec![("s".to_string(), FieldType::Str)];
    let order = vec!["s".to_string()];
    let d = LogdataDeserializer::new(data, fields, order).unwrap();
    let bytes = d.get_str("s").unwrap();
    assert_eq!(bytes, b"hello".to_vec());
    assert_eq!(bytes.len(), 5);
}

#[test]
fn string_length_past_buffer_is_malformed() {
    // The length slot declares 6 bytes but only 5 follow.
    let mut data = encode_uint_slot(32);
    data.extend(encode_uint_slot(6));
    data.extend(b"hello");
    let fields = vec![("s".to_string(), FieldType::Str)];
    let order = vec!["s".to_string()];
    let r = LogdataDeserializer::new(data, fields, order);
    assert!(r.is_err());
    assert_eq!(r.err().unwrap(), DecodeError::MalformedPayload);
}

#[test]
fn string_pointer_past_buffer_is_malformed() {
    let data = encode_uint_slot(4096);
    let fields = vec![("s".to_string(), FieldType::Str)];
    let order = vec!["s".to_string()];
    let r = LogdataDeserializer::new(data, fields, order);
    assert_eq!(r.err().unwrap(), DecodeError::MalformedPayload);
}

#[test]
fn short_payload_is_malformed() {
    let data = vec![0u8; 16];
    let fields = vec![uint_field("x")];
    let order = vec!["x".to_string()];
    let r = LogdataDeserializer::new(data, fields, order);
    assert_eq!(r.err().unwrap(), DecodeError::MalformedPayload);
}

#[test]
fn order_name_missing_from_fields_is_unknown() {
    let data = vec![0u8; 32];
    let fields = vec![uint_field("x")];
    let order = vec!["y".to_string()];
    let r = LogdataDeserializer::new(data, fields, order);
    assert_eq!(r.err().unwrap(), DecodeError::UnknownField);
}

#[test]
fn accessor_on_missing_name_is_unknown_field() {
    let data = build_two_uint_payload(1, 2);
    let fields = vec![uint_field("a"), uint_field("b")];
    let order = vec!["a".to_string(), "b".to_string()];
    let d = LogdataDeserializer::new(data, fields, order).unwrap();
    assert_eq!(d.get_u64("c"), Err(DecodeError::UnknownField));
}

#[test]
fn accessor_of_wrong_type_is_type_mismatch() {
    let data = string_payload(b"abc");
    let fields = vec![("s".to_string(), FieldType::Str)];
    let order = vec!["s".to_string()];
    let d = LogdataDeserializer::new(data, fields, order).unwrap();
    assert_eq!(d.get_u64("s"), Err(DecodeError::TypeMismatch));
    assert!(matches!(d.get_address("s"), Err(DecodeError::TypeMismatch)));

    let data2 = build_two_uint_payload(1, 2);
    let fields2 = vec![uint_field("a"), uint_field("b")];
    let order2 = vec!["a".to_string(), "b".to_string()];
    let d2 = LogdataDeserializer::new(data2, fields2, order2).unwrap();
    assert!(matches!(d2.get_str("a"), Err(DecodeError::TypeMismatch)));
}

#[test]
fn wide_uint_fails_with_numeric_overflow() {
    // A value needing more than 64 bits: a non-zero byte in the padding.
    let mut data = encode_uint_slot(5);
    data[3] = 1;
    let fields = vec![uint_field("x")];
    let order = vec!["x".to_string()];
    let d = LogdataDeserializer::new(data, fields, order).unwrap();
    assert_eq!(d.get_u64("x"), Err(DecodeError::NumericOverflow));
}

#[test]
fn address_field_yields_last_twenty_bytes() {
    let mut data = vec![0u8; 32];
    for (i, b) in data.iter_mut().enumerate().skip(12) {
        *b = i as u8;
    }
    let expected: Vec<u8> = data[12..32].to_vec();
    let fields = vec![("who".to_string(), FieldType::Address)];
    let order = vec!["who".to_string()];
    let d = LogdataDeserializer::new(data, fields, order).unwrap();
    assert_eq!(d.get_address("who").unwrap(), expected);
}
