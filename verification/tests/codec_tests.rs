use pastelink::codec::emit_block;
use pastelink::codec::body_is_clean;
use pastelink::codec::collect_block;
use pastelink::codec::parse_answer;
use pastelink::codec::parse_candidates;
use pastelink::codec::parse_description;
use pastelink::codec::parse_offer;
use pastelink::codec::CandidateNote;
use pastelink::codec::DescKind;
use pastelink::codec::SessionDescription;
use pastelink::codec::SignalError;

fn offer_desc() -> SessionDescription {
    SessionDescription {
        kind: DescKind::Offer,
        body: String::from("{\"type\":\"offer\",\"sdp\":\"v=0\\r\\no=- 1 1 IN IP4 0.0.0.0\"}"),
    }
}

#[test]
fn round_trip_offer_description() {
    let d = offer_desc();
    assert!(body_is_clean(&d));
    let cands = vec![String::from("c1"), String::from("c2")];
    let block = emit_block(&d, &cands);
    let parsed = parse_description(&block, DescKind::Offer).unwrap();
    assert_eq!(parsed.kind, DescKind::Offer);
    assert_eq!(parsed.body, d.body);
}

#[test]
fn round_trip_candidates_in_order() {
    let d = offer_desc();
    let cands = vec![
        String::from("{\"foundation\":\"a\"}"),
        String::from("{\"foundation\":\"b\"}"),
        String::from("plain text candidate"),
    ];
    let block = emit_block(&d, &cands);
    let (got, note) = parse_candidates(&block);
    assert_eq!(note, CandidateNote::Parsed);
    assert_eq!(got, cands);
}

#[test]
fn round_trip_answer_description() {
    let d = SessionDescription {
        kind: DescKind::Answer,
        body: String::from("{\"type\":\"answer\",\"sdp\":\"v=0\"}"),
    };
    let cands: Vec<String> = Vec::new();
    let block = emit_block(&d, &cands);
    let parsed = parse_answer(&block).unwrap();
    assert_eq!(parsed.kind, DescKind::Answer);
    assert_eq!(parsed.body, d.body);
}

#[test]
fn missing_description_line_is_fatal() {
    let text = "==== COPY EVERYTHING BETWEEN THESE LINES ====\nICE_CANDIDATES:\n[]\n==== END OF SECTION TO COPY ====\n";
    assert_eq!(parse_offer(text).unwrap_err(), SignalError::MissingDescription);
    assert_eq!(parse_answer(text).unwrap_err(), SignalError::MissingDescription);
}

#[test]
fn wrong_direction_prefix_is_missing() {
    let d = offer_desc();
    let block = emit_block(&d, &Vec::new());
    assert_eq!(parse_answer(&block).unwrap_err(), SignalError::MissingDescription);
}

#[test]
fn malformed_body_is_invalid() {
    let text = "OFFER:this is not json\n";
    assert_eq!(parse_offer(text).unwrap_err(), SignalError::InvalidDescription);
    // valid JSON that is not a session description is invalid too
    let text2 = "OFFER:{\"type\":\"offer\"}\n";
    assert_eq!(parse_offer(text2).unwrap_err(), SignalError::InvalidDescription);
}

#[test]
fn missing_marker_yields_zero_candidates() {
    let d = offer_desc();
    let block = emit_block(&d, &vec![String::from("c1")]);
    let without_marker = block.replace("ICE_CANDIDATES:", "NO MARKER HERE");
    let (got, note) = parse_candidates(&without_marker);
    assert!(got.is_empty());
    assert_eq!(note, CandidateNote::SectionMissing);
    // and the description parse still succeeds: not fatal
    assert!(parse_offer(&without_marker).is_ok());
}

#[test]
fn unparseable_candidate_section_is_not_fatal() {
    let text = "OFFER:{\"type\":\"offer\",\"sdp\":\"v=0\"}\nICE_CANDIDATES:\nnot a json array\n==== END OF SECTION TO COPY ====\n";
    let (got, note) = parse_candidates(text);
    assert!(got.is_empty());
    assert_eq!(note, CandidateNote::Unparseable);
    assert!(parse_offer(text).is_ok());
}

#[test]
fn candidate_lines_are_trimmed_and_joined() {
    let text = "ICE_CANDIDATES:\n  [\"c1\",  \n  \"c2\"]  \n==== END OF SECTION TO COPY ====\n";
    let (got, note) = parse_candidates(text);
    assert_eq!(note, CandidateNote::Parsed);
    assert_eq!(got, vec![String::from("c1"), String::from("c2")]);
}

#[test]
fn end_to_end_offer_to_answerer() {
    // the offer side emits its block
    let d = offer_desc();
    let cands = vec![String::from("c1"), String::from("c2")];
    let block = emit_block(&d, &cands);
    assert!(block.contains("OFFER:"));
    assert!(block.contains("[\"c1\",\"c2\"]"));
    // the operator pastes it line by line, with stray blank lines around it
    let mut lines: Vec<String> = vec![String::new(), String::from("   ")];
    for l in block.lines() {
        lines.push(String::from(l));
    }
    lines.push(String::from("trailing junk after the end line"));
    let (pasted, done) = collect_block(&lines);
    assert!(done);
    // the answer side recovers description and candidates in order
    let parsed = parse_offer(&pasted).unwrap();
    assert_eq!(parsed.body, d.body);
    let (got, note) = parse_candidates(&pasted);
    assert_eq!(note, CandidateNote::Parsed);
    assert_eq!(got, cands);
}

#[test]
fn collect_block_stops_at_end_line_and_drops_blanks() {
    let lines = vec![
        String::from(""),
        String::from("one"),
        String::from("   "),
        String::from("two"),
        String::from("==== END OF SECTION TO COPY ===="),
        String::from("three"),
    ];
    let (text, done) = collect_block(&lines);
    assert!(done);
    assert_eq!(text, "one\ntwo\n==== END OF SECTION TO COPY ====\n");
}

#[test]
fn collect_block_without_end_line() {
    let lines = vec![String::from("one"), String::from("two")];
    let (text, done) = collect_block(&lines);
    assert!(!done);
    assert_eq!(text, "one\ntwo\n");
}

#[test]
fn body_with_line_break_is_not_clean() {
    let d = SessionDescription { kind: DescKind::Offer, body: String::from("a\nb") };
    assert!(!body_is_clean(&d));
    let d2 = SessionDescription { kind: DescKind::Offer, body: String::from("has END OF SECTION inside") };
    assert!(!body_is_clean(&d2));
}
