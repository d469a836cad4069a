use pastelink::candidate::convert;
use pastelink::candidate::convert_batch;
use pastelink::candidate::line_from_record;
use pastelink::candidate::CandidateRecord;
use pastelink::codec::SignalError;

fn empty_record() -> CandidateRecord {
    CandidateRecord {
        foundation: None,
        component: None,
        protocol: None,
        priority: None,
        address: None,
        port: None,
        typ: None,
        tcptype: None,
    }
}

#[test]
fn empty_record_fills_defaults() {
    assert_eq!(convert("{}").unwrap(), "candidate: 1 udp 0  0 typ ");
}

#[test]
fn empty_record_line_matches_defaults() {
    assert_eq!(line_from_record(&empty_record()), "candidate: 1 udp 0  0 typ ");
}

#[test]
fn full_record_keeps_every_field() {
    let json = "{\"foundation\":\"f1\",\"component\":2,\"protocol\":\"tcp\",\"priority\":41885695,\"address\":\"192.0.2.7\",\"port\":51000,\"typ\":\"host\",\"tcptype\":\"passive\"}";
    assert_eq!(
        convert(json).unwrap(),
        "candidate:f1 2 tcp 41885695 192.0.2.7 51000 typ host tcptype passive"
    );
}

#[test]
fn tcptype_segment_present_only_when_supplied() {
    let with = convert("{\"tcptype\":\"active\"}").unwrap();
    assert!(with.ends_with(" tcptype active"));
    let without = convert("{\"typ\":\"host\"}").unwrap();
    assert!(!without.contains("tcptype"));
}

#[test]
fn unparseable_input_is_malformed() {
    assert_eq!(convert("not json at all").unwrap_err(), SignalError::MalformedCandidate);
    assert_eq!(convert("{\"unterminated\":").unwrap_err(), SignalError::MalformedCandidate);
}

#[test]
fn non_object_json_degrades_to_defaults() {
    // valid structured data that is no object: every field missing
    assert_eq!(convert("5").unwrap(), "candidate: 1 udp 0  0 typ ");
}

#[test]
fn extra_keys_are_ignored() {
    assert_eq!(
        convert("{\"foundation\":\"x\",\"something\":\"else\"}").unwrap(),
        "candidate:x 1 udp 0  0 typ "
    );
}

#[test]
fn numeric_fields_wrap_like_narrow_casts() {
    // 70000 wraps to 4464 in the sixteen-bit component and port fields
    assert_eq!(
        convert("{\"component\":70000,\"port\":70000}").unwrap(),
        "candidate: 4464 udp 0  4464 typ "
    );
}

#[test]
fn wrong_typed_fields_take_defaults() {
    // a string where a number belongs, and a number where a string belongs
    assert_eq!(
        convert("{\"component\":\"two\",\"protocol\":7}").unwrap(),
        "candidate: 1 udp 0  0 typ "
    );
}

#[test]
fn batch_keeps_order_and_skips_bad_entries() {
    let cands = vec![
        String::from("{\"foundation\":\"a\"}"),
        String::from("broken"),
        String::from("{\"foundation\":\"b\"}"),
    ];
    let out = convert_batch(&cands);
    assert_eq!(out.len(), 3);
    assert_eq!(out[0].as_deref(), Some("candidate:a 1 udp 0  0 typ "));
    assert_eq!(out[1], None);
    assert_eq!(out[2].as_deref(), Some("candidate:b 1 udp 0  0 typ "));
}
