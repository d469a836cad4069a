//! The signaling codec: the copy-paste text block that carries one session
//! description and the gathered candidate strings between the two operators.
//!
//! A block looks like
//!
//! ```text
//! ==== COPY EVERYTHING BETWEEN THESE LINES ====
//! OFFER:<serialized description>
//! ICE_CANDIDATES:
//! <json array of candidate strings>
//! ==== END OF SECTION TO COPY ====
//! ```
//!
//! with `ANSWER:` in place of `OFFER:` for the reply direction.
use vstd::prelude::*;

use crate::text::contains_seq;
use crate::text::lines_of;
use crate::text::matches_at;
use crate::text::nl_index;
use crate::text::is_space_char;
use crate::text::strip_cr;
use crate::text::lemma_lines_prepend;
use crate::text::lemma_char_in_concat;
use crate::text::split_lines;
use crate::text::starts_with_spec;
use crate::text::str_contains;
use crate::text::str_starts_with;
use crate::text::trim_spec;
use crate::text::trimmed;

verus! {

/// Which direction of the exchange a description belongs to.
#[derive(Clone, Copy, PartialEq, Eq, Structural, Debug)]
pub enum DescKind {
    Offer,
    Answer,
}

/// A session description as the codec sees it: a direction tag and an opaque
/// serialized body that only the peer-connection engine interprets.
#[derive(Clone, Debug)]
pub struct SessionDescription {
    pub kind: DescKind,
    pub body: String,
}

/// The mathematical model of a `SessionDescription`.
pub struct DescModel {
    pub kind: DescKind,
    pub body: Seq<char>,
}

impl View for SessionDescription {
    type V = DescModel;

    open spec fn view(&self) -> DescModel {
        DescModel { kind: self.kind, body: self.body@ }
    }
}

/// What can go wrong while decoding a signaling block.
#[derive(Clone, Copy, PartialEq, Eq, Structural, Debug)]
pub enum SignalError {
    /// No line carries the expected `OFFER:` or `ANSWER:` prefix.
    MissingDescription,
    /// The description line is there but its body does not deserialize.
    InvalidDescription,
    /// A candidate record is not parseable as a field mapping at all.
    MalformedCandidate,
}

pub open spec fn offer_prefix() -> Seq<char> {
    "OFFER:"@
}

pub open spec fn answer_prefix() -> Seq<char> {
    "ANSWER:"@
}

pub open spec fn prefix_of(k: DescKind) -> Seq<char> {
    match k {
        DescKind::Offer => offer_prefix(),
        DescKind::Answer => answer_prefix(),
    }
}

pub open spec fn ice_marker() -> Seq<char> {
    "ICE_CANDIDATES:"@
}

pub open spec fn end_marker() -> Seq<char> {
    "END OF SECTION"@
}

pub open spec fn banner_top() -> Seq<char> {
    "==== COPY EVERYTHING BETWEEN THESE LINES ===="@
}

pub open spec fn banner_end() -> Seq<char> {
    "==== END OF SECTION TO COPY ===="@
}

fn prefix_str(k: DescKind) -> (p: &'static str)
    ensures
        p@ == prefix_of(k),
{
    match k {
        DescKind::Offer => "OFFER:",
        DescKind::Answer => "ANSWER:",
    }
}

/// Whether a description body deserializes as a session description.
pub uninterp spec fn desc_text_ok(s: Seq<char>) -> bool;

/// Relies on `serde_json::from_str` for webrtc's `RTCSessionDescription`
/// (a plain serde struct of a type tag and an `sdp` string): whether the
/// body deserializes is a function of the text alone.
#[verifier::external_body]
fn check_description_body(s: &str) -> (r: bool)
    ensures
        r == desc_text_ok(s@),
{
    serde_json::from_str::<
        webrtc::peer_connection::sdp::session_description::RTCSessionDescription,
    >(s)
        .is_ok()
}

/// The compact JSON rendering of an array of strings.
pub uninterp spec fn json_array_text(ss: Seq<Seq<char>>) -> Seq<char>;

/// What a text parses to as a JSON array of strings, if it parses at all.
pub uninterp spec fn json_parsed_array(s: Seq<char>) -> Option<Seq<Seq<char>>>;

/// Relies on `serde_json::to_string` on a `Vec<String>`, which cannot fail:
/// one line of compact JSON, a `[`-opened and `]`-closed array that
/// `serde_json::from_str` parses back to the same strings.
#[verifier::external_body]
fn encode_candidate_array(v: &Vec<String>) -> (r: String)
    ensures
        r@ == json_array_text(v.deep_view()),
        json_parsed_array(r@) == Some(v.deep_view()),
        !r@.contains('\n'),
        r@.len() > 0,
        r@.first() == '[',
        r@.last() == ']',
{
    serde_json::to_string(v).unwrap()
}

/// Relies on `serde_json::from_str` for `Vec<String>`: whether and how a text
/// parses as an array of strings is a function of the text alone.
#[verifier::external_body]
fn decode_candidate_array(s: &str) -> (r: Option<Vec<String>>)
    ensures
        match r {
            Some(v) => json_parsed_array(s@) == Some(v.deep_view()),
            None => json_parsed_array(s@) is None,
        },
{
    serde_json::from_str::<Vec<String>>(s).ok()
}

/// The body of the first line that starts with `p`, with `p` stripped.
pub open spec fn first_prefixed(lines: Seq<Seq<char>>, p: Seq<char>) -> Option<Seq<char>>
    decreases lines.len(),
{
    if lines.len() == 0 {
        None
    } else if starts_with_spec(lines[0], p) {
        Some(lines[0].skip(p.len() as int))
    } else {
        first_prefixed(lines.drop_first(), p)
    }
}

/// What parsing a description out of a block text yields.
pub open spec fn parse_desc_spec(t: Seq<char>, k: DescKind) -> Result<DescModel, SignalError> {
    match first_prefixed(lines_of(t), prefix_of(k)) {
        None => Err(SignalError::MissingDescription),
        Some(body) => if desc_text_ok(body) {
            Ok(DescModel { kind: k, body })
        } else {
            Err(SignalError::InvalidDescription)
        },
    }
}

/// When no line carries the prefix, the scan comes up empty.
pub proof fn lemma_desc_missing(lines: Seq<Seq<char>>, p: Seq<char>)
    requires
        forall|i: int| 0 <= i < lines.len() ==> !starts_with_spec(lines[i], p),
    ensures
        first_prefixed(lines, p) is None,
    decreases lines.len(),
{
    if lines.len() > 0 {
        lemma_desc_missing(lines.drop_first(), p);
    }
}

/// Scan the pasted text for the line with the expected `OFFER:` or `ANSWER:`
/// prefix and take what follows the prefix as the description body.
pub fn parse_description(text: &str, kind: DescKind) -> (r: Result<SessionDescription, SignalError>)
    ensures
        match r {
            Ok(d) => parse_desc_spec(text@, kind) == Ok::<DescModel, SignalError>(d@) && d@.kind
                == kind,
            Err(e) => parse_desc_spec(text@, kind) == Err::<DescModel, SignalError>(e),
        },
{
    let prefix = prefix_str(kind);
    let plen = prefix.unicode_len();
    let lines = split_lines(text);
    let ghost dv = lines.deep_view();
    let n = lines.len();
    let mut i: usize = 0;
    proof {
        assert(dv.skip(0) =~= dv);
    }
    while i < n
        invariant
            n == dv.len(),
            dv == lines.deep_view(),
            dv == lines_of(text@),
            0 <= i <= n,
            plen == prefix_of(kind).len(),
            prefix@ == prefix_of(kind),
            forall|j: int| 0 <= j < i ==> !starts_with_spec(dv[j], prefix_of(kind)),
            first_prefixed(dv.skip(i as int), prefix_of(kind)) == first_prefixed(
                dv,
                prefix_of(kind),
            ),
        decreases n - i,
    {
        let line: &String = &lines[i];
        proof {
            assert(line@ == dv[i as int]);
            assert(dv.skip(i as int)[0] == dv[i as int]);
            assert(dv.skip(i as int).drop_first() =~= dv.skip(i as int + 1));
        }
        if str_starts_with(line.as_str(), prefix) {
            let llen = line.as_str().unicode_len();
            let body = line.as_str().substring_char(plen, llen);
            proof {
                assert(body@ =~= dv[i as int].skip(plen as int));
                assert(first_prefixed(dv, prefix_of(kind)) == Some(body@));
            }
            if check_description_body(body) {
                return Ok(SessionDescription { kind, body: String::from_str(body) });
            } else {
                return Err(SignalError::InvalidDescription);
            }
        }
        i += 1;
    }
    proof {
        assert(dv.skip(i as int) =~= Seq::<Seq<char>>::empty());
        lemma_desc_missing(dv, prefix_of(kind));
    }
    Err(SignalError::MissingDescription)
}

/// The candidate-array JSON gathered from the lines of a block: everything
/// between the `ICE_CANDIDATES:` marker line and the end-of-section line,
/// each line trimmed and concatenated.
pub open spec fn cand_json_from(lines: Seq<Seq<char>>, in_sec: bool) -> Seq<char>
    decreases lines.len(),
{
    if lines.len() == 0 {
        Seq::empty()
    } else {
        let l = lines[0];
        if contains_seq(l, ice_marker()) {
            cand_json_from(lines.drop_first(), true)
        } else if in_sec && !contains_seq(l, end_marker()) {
            trim_spec(l) + cand_json_from(lines.drop_first(), true)
        } else if contains_seq(l, end_marker()) {
            Seq::empty()
        } else {
            cand_json_from(lines.drop_first(), in_sec)
        }
    }
}

pub open spec fn cand_json_of(t: Seq<char>) -> Seq<char> {
    cand_json_from(lines_of(t), false)
}

/// How the candidate section of a block came out.
#[derive(Clone, Copy, PartialEq, Eq, Structural, Debug)]
pub enum CandidateNote {
    /// The section was found and parsed.
    Parsed,
    /// No `ICE_CANDIDATES:` marker, or nothing between marker and end line.
    SectionMissing,
    /// The section is there but is not a JSON array of strings.
    Unparseable,
}

/// The candidate strings a block text yields; unparseable or missing
/// sections yield none rather than an error.
pub open spec fn parse_cands_spec(t: Seq<char>) -> Seq<Seq<char>> {
    let j = cand_json_of(t);
    if j.len() == 0 {
        Seq::empty()
    } else {
        match json_parsed_array(j) {
            Some(c) => c,
            None => Seq::empty(),
        }
    }
}

/// When no line carries the `ICE_CANDIDATES:` marker, the section is empty.
pub proof fn lemma_no_marker_no_candidates(lines: Seq<Seq<char>>)
    requires
        forall|i: int| 0 <= i < lines.len() ==> !contains_seq(#[trigger] lines[i], ice_marker()),
    ensures
        cand_json_from(lines, false) == Seq::<char>::empty(),
    decreases lines.len(),
{
    if lines.len() > 0 {
        assert(!contains_seq(lines[0], ice_marker()));
        if !contains_seq(lines[0], end_marker()) {
            lemma_no_marker_no_candidates(lines.drop_first());
        }
    }
}

proof fn lemma_line_occurs(s: Seq<char>, m: Seq<char>, j: int)
    requires
        0 <= j < lines_of(s).len(),
        contains_seq(lines_of(s)[j], m),
    ensures
        contains_seq(s, m),
    decreases s.len(),
{
    crate::text::lemma_nl_index_bounds(s);
    let i = nl_index(s) as int;
    if s.len() == 0 {
    } else if i >= s.len() {
        assert(lines_of(s)[0] == s);
    } else {
        if j == 0 {
            let line = strip_cr(s.take(i));
            let p = choose|p: int| #[trigger] matches_at(line, m, p);
            assert(line.subrange(p, p + m.len() as int) == m);
            assert(s.subrange(p, p + m.len() as int) =~= line.subrange(p, p + m.len() as int)) by {
                assert(forall|t: int| 0 <= t < line.len() ==> line[t] == s[t]);
            }
            assert(matches_at(s, m, p));
        } else {
            lemma_line_occurs(s.skip(i + 1), m, j - 1);
            let p = choose|p: int| #[trigger] matches_at(s.skip(i + 1), m, p);
            assert(s.subrange(i + 1 + p, i + 1 + p + m.len() as int) =~= s.skip(i + 1).subrange(
                p,
                p + m.len() as int,
            ));
            assert(matches_at(s, m, i + 1 + p));
        }
    }
}

/// A block text that nowhere contains the `ICE_CANDIDATES:` marker yields
/// zero parsed candidates — and, per `parse_candidates`, no fatal error.
pub proof fn lemma_no_marker_in_text(t: Seq<char>)
    requires
        !contains_seq(t, ice_marker()),
    ensures
        parse_cands_spec(t) == Seq::<Seq<char>>::empty(),
{
    assert forall|j: int| 0 <= j < lines_of(t).len() implies !contains_seq(
        #[trigger] lines_of(t)[j],
        ice_marker(),
    ) by {
        if contains_seq(lines_of(t)[j], ice_marker()) {
            lemma_line_occurs(t, ice_marker(), j);
        }
    }
    lemma_no_marker_no_candidates(lines_of(t));
}

/// Scan a pasted block for its candidate section.  Absence of the marker, or
/// a malformed array, is not fatal: the session goes on with no candidates,
/// and the note says what happened so the caller can warn the operator.
pub fn parse_candidates(text: &str) -> (r: (Vec<String>, CandidateNote))
    ensures
        r.0.deep_view() == parse_cands_spec(text@),
        (r.1 == CandidateNote::SectionMissing) == (cand_json_of(text@).len() == 0),
        (r.1 == CandidateNote::Unparseable) == (cand_json_of(text@).len() > 0 && json_parsed_array(
            cand_json_of(text@),
        ) is None),
{
    let lines = split_lines(text);
    let ghost dv = lines.deep_view();
    let n = lines.len();
    let mut buf = String::new();
    let mut in_sec = false;
    let mut i: usize = 0;
    proof {
        assert(dv.skip(0) =~= dv);
        assert(buf@ + cand_json_from(dv, false) =~= cand_json_from(dv, false));
    }
    while i < n
        invariant
            n == dv.len(),
            dv == lines.deep_view(),
            0 <= i <= n,
            buf@ + cand_json_from(dv.skip(i as int), in_sec) == cand_json_from(dv, false),
        decreases n - i,
    {
        let line: &String = &lines[i];
        proof {
            assert(line@ == dv[i as int]);
            assert(dv.skip(i as int)[0] == dv[i as int]);
            assert(dv.skip(i as int).drop_first() =~= dv.skip(i as int + 1));
        }
        if str_contains(line.as_str(), "ICE_CANDIDATES:") {
            in_sec = true;
            i += 1;
        } else if in_sec && !str_contains(line.as_str(), "END OF SECTION") {
            let piece = trimmed(line.as_str());
            buf.append(piece.as_str());
            i += 1;
        } else if str_contains(line.as_str(), "END OF SECTION") {
            proof {
                assert(cand_json_from(dv.skip(i as int), in_sec) =~= Seq::<char>::empty());
                assert(dv.skip(n as int) =~= Seq::<Seq<char>>::empty());
            }
            i = n;
        } else {
            i += 1;
        }
    }
    proof {
        assert(dv.skip(i as int) =~= Seq::<Seq<char>>::empty());
        assert(buf@ =~= cand_json_from(dv, false));
    }
    if buf.as_str().unicode_len() == 0 {
        let empty: Vec<String> = Vec::new();
        proof {
            assert(empty.deep_view() =~= parse_cands_spec(text@));
        }
        return (empty, CandidateNote::SectionMissing);
    }
    match decode_candidate_array(buf.as_str()) {
        Some(v) => (v, CandidateNote::Parsed),
        None => {
            let empty: Vec<String> = Vec::new();
            proof {
                assert(empty.deep_view() =~= parse_cands_spec(text@));
            }
            (empty, CandidateNote::Unparseable)
        },
    }
}

/// One step of reading the peer's pasted block: what the accumulated text
/// and the finished flag become after one more line arrives.  Blank lines
/// are dropped; a line carrying the end-of-section marker finishes the read.
pub open spec fn collect_spec(lines: Seq<Seq<char>>) -> (Seq<char>, bool)
    decreases lines.len(),
{
    if lines.len() == 0 {
        (Seq::empty(), false)
    } else {
        let l = lines[0];
        if contains_seq(l, end_marker()) {
            (l + seq!['\n'], true)
        } else if trim_spec(l).len() == 0 {
            collect_spec(lines.drop_first())
        } else {
            let r = collect_spec(lines.drop_first());
            (l + seq!['\n'] + r.0, r.1)
        }
    }
}

/// Accumulate pasted input lines into one block text, as the interactive
/// reader does: keep non-blank lines, stop at the end-of-section line.
/// Returns the accumulated text (each kept line `\n`-terminated) and whether
/// the end line was seen.
pub fn collect_block(lines: &Vec<String>) -> (r: (String, bool))
    ensures
        (r.0@, r.1) == collect_spec(lines.deep_view()),
{
    let ghost dv = lines.deep_view();
    let n = lines.len();
    let mut buf = String::new();
    let mut i: usize = 0;
    proof {
        assert(dv.skip(0) =~= dv);
    }
    while i < n
        invariant
            n == dv.len(),
            dv == lines.deep_view(),
            0 <= i <= n,
            collect_spec(dv) == (buf@ + collect_spec(dv.skip(i as int)).0, collect_spec(
                dv.skip(i as int),
            ).1),
        decreases n - i,
    {
        let line: &String = &lines[i];
        proof {
            assert(line@ == dv[i as int]);
            assert(dv.skip(i as int)[0] == dv[i as int]);
            assert(dv.skip(i as int).drop_first() =~= dv.skip(i as int + 1));
        }
        if str_contains(line.as_str(), "END OF SECTION") {
            buf.append(line.as_str());
            crate::text::push_char(&mut buf, '\n');
            proof {
                assert(buf@ =~= collect_spec(dv).0);
                assert(collect_spec(dv).1);
            }
            return (buf, true);
        }
        let t = trimmed(line.as_str());
        if t.as_str().unicode_len() != 0 {
            buf.append(line.as_str());
            crate::text::push_char(&mut buf, '\n');
            proof {
                assert(buf@ + collect_spec(dv.skip(i as int + 1)).0 =~= collect_spec(dv).0);
            }
        }
        i += 1;
    }
    proof {
        assert(dv.skip(i as int) =~= Seq::<Seq<char>>::empty());
        assert(buf@ + Seq::<char>::empty() =~= buf@);
    }
    (buf, false)
}

proof fn lemma_banner_top_facts()
    ensures
        banner_top().len() == 45,
        !banner_top().contains('\n'),
        banner_top().last() != '\r',
        !contains_seq(banner_top(), ice_marker()),
        !contains_seq(banner_top(), end_marker()),
        !starts_with_spec(banner_top(), offer_prefix()),
        !starts_with_spec(banner_top(), answer_prefix()),
{
    reveal_strlit("==== COPY EVERYTHING BETWEEN THESE LINES ====");
    reveal_strlit("ICE_CANDIDATES:");
    reveal_strlit("END OF SECTION");
    reveal_strlit("OFFER:");
    reveal_strlit("ANSWER:");
    let b = banner_top();
    if b.contains('\n') {
        let i = choose|i: int| 0 <= i < b.len() && b[i] == '\n';
        assert(false);
    }
    if contains_seq(b, ice_marker()) {
        let i = choose|i: int| matches_at(b, ice_marker(), i);
        assert(b.subrange(i, i + 15)[0] == ice_marker()[0]);
        assert(b[i] == 'I');
        assert(b.subrange(i, i + 15)[1] == ice_marker()[1]);
        assert(b[i + 1] == 'C');
        assert(false);
    }
    if contains_seq(b, end_marker()) {
        let i = choose|i: int| matches_at(b, end_marker(), i);
        assert(b.subrange(i, i + 14)[0] == end_marker()[0]);
        assert(b[i] == 'E');
        assert(b.subrange(i, i + 14)[1] == end_marker()[1]);
        assert(b[i + 1] == 'N');
        assert(b.subrange(i, i + 14)[2] == end_marker()[2]);
        assert(b[i + 2] == 'D');
        assert(false);
    }
    if starts_with_spec(b, offer_prefix()) {
        assert(b.subrange(0, 6)[0] == offer_prefix()[0]);
        assert(false);
    }
    if starts_with_spec(b, answer_prefix()) {
        assert(b.subrange(0, 7)[0] == answer_prefix()[0]);
        assert(false);
    }
}

proof fn lemma_banner_end_facts()
    ensures
        banner_end().len() == 32,
        !banner_end().contains('\n'),
        banner_end().last() != '\r',
        contains_seq(banner_end(), end_marker()),
        !contains_seq(banner_end(), ice_marker()),
        !starts_with_spec(banner_end(), offer_prefix()),
        !starts_with_spec(banner_end(), answer_prefix()),
{
    reveal_strlit("==== END OF SECTION TO COPY ====");
    reveal_strlit("ICE_CANDIDATES:");
    reveal_strlit("END OF SECTION");
    reveal_strlit("OFFER:");
    reveal_strlit("ANSWER:");
    let b = banner_end();
    if b.contains('\n') {
        let i = choose|i: int| 0 <= i < b.len() && b[i] == '\n';
        assert(false);
    }
    assert(b.subrange(5, 19) =~= end_marker());
    assert(matches_at(b, end_marker(), 5));
    if contains_seq(b, ice_marker()) {
        let i = choose|i: int| matches_at(b, ice_marker(), i);
        assert(b.subrange(i, i + 15)[0] == ice_marker()[0]);
        assert(b[i] == 'I');
        assert(b.subrange(i, i + 15)[1] == ice_marker()[1]);
        assert(b[i + 1] == 'C');
        assert(false);
    }
    if starts_with_spec(b, offer_prefix()) {
        assert(b.subrange(0, 6)[0] == offer_prefix()[0]);
        assert(false);
    }
    if starts_with_spec(b, answer_prefix()) {
        assert(b.subrange(0, 7)[0] == answer_prefix()[0]);
        assert(false);
    }
}

proof fn lemma_ice_line_facts()
    ensures
        ice_marker().len() == 15,
        end_marker().len() == 14,
        offer_prefix().len() == 6,
        answer_prefix().len() == 7,
        !ice_marker().contains('\n'),
        ice_marker().last() != '\r',
        contains_seq(ice_marker(), ice_marker()),
        !contains_seq(ice_marker(), end_marker()),
        !starts_with_spec(ice_marker(), offer_prefix()),
        !starts_with_spec(ice_marker(), answer_prefix()),
        !offer_prefix().contains('\n'),
        !answer_prefix().contains('\n'),
        offer_prefix().last() != '\r',
        answer_prefix().last() != '\r',
{
    reveal_strlit("ICE_CANDIDATES:");
    reveal_strlit("END OF SECTION");
    reveal_strlit("OFFER:");
    reveal_strlit("ANSWER:");
    let b = ice_marker();
    if b.contains('\n') {
        let i = choose|i: int| 0 <= i < b.len() && b[i] == '\n';
        assert(false);
    }
    assert(b.subrange(0, 15) =~= b);
    assert(matches_at(b, ice_marker(), 0));
    if contains_seq(b, end_marker()) {
        let i = choose|i: int| matches_at(b, end_marker(), i);
        assert(b.subrange(i, i + 14)[0] == end_marker()[0]);
        assert(b[i] == 'E');
        assert(false);
    }
    if starts_with_spec(b, offer_prefix()) {
        assert(b.subrange(0, 6)[0] == offer_prefix()[0]);
        assert(false);
    }
    if starts_with_spec(b, answer_prefix()) {
        assert(b.subrange(0, 7)[0] == answer_prefix()[0]);
        assert(false);
    }
    if offer_prefix().contains('\n') {
        let i = choose|i: int| 0 <= i < offer_prefix().len() && offer_prefix()[i] == '\n';
        assert(false);
    }
    if answer_prefix().contains('\n') {
        let i = choose|i: int| 0 <= i < answer_prefix().len() && answer_prefix()[i] == '\n';
        assert(false);
    }
    assert(offer_prefix().last() != '\r');
    assert(answer_prefix().last() != '\r');
}

/// The whole emitted block: blank line, top banner, the type-prefixed
/// description line, the candidate marker line, the serialized candidate
/// array, the end banner, and a final blank line.
pub open spec fn block_text(d: DescModel, arr: Seq<char>) -> Seq<char> {
    seq!['\n'] + banner_top() + seq!['\n'] + prefix_of(d.kind) + d.body + seq!['\n'] + ice_marker()
        + seq!['\n'] + arr + seq!['\n'] + banner_end() + seq!['\n'] + seq!['\n']
}

/// A description body that survives the line framing of a block: it holds no
/// line break, does not end in a carriage return, and its line does not
/// collide with the two section markers.
pub open spec fn body_clean(k: DescKind, body: Seq<char>) -> bool {
    !body.contains('\n') && (body.len() > 0 ==> body.last() != '\r') && !contains_seq(
        prefix_of(k) + body,
        ice_marker(),
    ) && !contains_seq(prefix_of(k) + body, end_marker())
}

/// The round trip through a block: a clean description comes back from
/// `parse_desc_spec` exactly when its body deserializes, and the candidate
/// array line comes back whole from the section scan as long as it does not
/// itself contain a section marker.
#[verifier::rlimit(100)]
pub proof fn lemma_block_round_trip(d: DescModel, arr: Seq<char>)
    requires
        body_clean(d.kind, d.body),
        !arr.contains('\n'),
        arr.len() > 0,
        !is_space_char(arr[0]),
        !is_space_char(arr[arr.len() - 1]),
    ensures
        parse_desc_spec(block_text(d, arr), d.kind) == (if desc_text_ok(d.body) {
            Ok::<DescModel, SignalError>(d)
        } else {
            Err::<DescModel, SignalError>(SignalError::InvalidDescription)
        }),
        (!contains_seq(arr, ice_marker()) && !contains_seq(arr, end_marker()))
            ==> cand_json_of(block_text(d, arr)) == arr,
{
    lemma_banner_top_facts();
    lemma_banner_end_facts();
    lemma_ice_line_facts();
    let t = block_text(d, arr);
    let e = Seq::<char>::empty();
    let p = prefix_of(d.kind);
    let ld = p + d.body;
    lemma_char_in_concat(p, d.body, '\n');
    assert(!ld.contains('\n'));
    // peel the block into its lines
    let r5 = seq!['\n'];
    let r4 = banner_end() + seq!['\n'] + r5;
    let r3 = arr + seq!['\n'] + r4;
    let r2 = ice_marker() + seq!['\n'] + r3;
    let r1 = ld + seq!['\n'] + r2;
    let r0 = banner_top() + seq!['\n'] + r1;
    assert(t =~= e + seq!['\n'] + r0);
    lemma_lines_prepend(e, r0);
    lemma_lines_prepend(banner_top(), r1);
    lemma_lines_prepend(ld, r2);
    lemma_lines_prepend(ice_marker(), r3);
    lemma_lines_prepend(arr, r4);
    lemma_lines_prepend(banner_end(), r5);
    assert(r5 =~= e + seq!['\n'] + e);
    lemma_lines_prepend(e, e);
    assert(lines_of(e) =~= Seq::<Seq<char>>::empty());
    // the terminated lines lose nothing to carriage-return stripping
    assert(strip_cr(e) =~= e);
    assert(strip_cr(banner_top()) == banner_top());
    assert(strip_cr(banner_end()) == banner_end());
    assert(strip_cr(ice_marker()) == ice_marker());
    assert(strip_cr(arr) == arr) by {
        assert(arr.last() != '\r');
    }
    assert(strip_cr(ld) == ld) by {
        if d.body.len() > 0 {
            assert(ld.last() == d.body.last());
        } else {
            assert(ld =~= p);
            assert(ld.last() != '\r');
        }
    }
    let s0 = seq![e, banner_top(), ld, ice_marker(), arr, banner_end(), e];
    let s1 = seq![banner_top(), ld, ice_marker(), arr, banner_end(), e];
    let s2 = seq![ld, ice_marker(), arr, banner_end(), e];
    let s3 = seq![ice_marker(), arr, banner_end(), e];
    let s4 = seq![arr, banner_end(), e];
    let s5 = seq![banner_end(), e];
    assert(lines_of(t) =~= s0);
    assert(s0.drop_first() =~= s1);
    assert(s1.drop_first() =~= s2);
    assert(s2.drop_first() =~= s3);
    assert(s3.drop_first() =~= s4);
    assert(s4.drop_first() =~= s5);
    assert(s5.drop_first() =~= seq![e]);
    // nothing matches inside an empty line
    assert(!starts_with_spec(e, p));
    assert(!contains_seq(e, ice_marker())) by {
        if contains_seq(e, ice_marker()) {
            let i = choose|i: int| matches_at(e, ice_marker(), i);
        }
    }
    assert(!contains_seq(e, end_marker())) by {
        if contains_seq(e, end_marker()) {
            let i = choose|i: int| matches_at(e, end_marker(), i);
        }
    }
    // the description line
    assert(starts_with_spec(ld, p)) by {
        assert(ld.subrange(0, p.len() as int) =~= p);
    }
    assert(ld.skip(p.len() as int) =~= d.body);
    // the description scan stops at the description line
    assert(!starts_with_spec(banner_top(), p));
    assert(first_prefixed(s2, p) == Some(ld.skip(p.len() as int)));
    assert(first_prefixed(s1, p) == first_prefixed(s2, p));
    assert(first_prefixed(s0, p) == first_prefixed(s1, p));
    assert(first_prefixed(lines_of(t), p) == Some(d.body));
    assert(parse_desc_spec(t, d.kind) == (if desc_text_ok(d.body) {
        Ok::<DescModel, SignalError>(DescModel { kind: d.kind, body: d.body })
    } else {
        Err::<DescModel, SignalError>(SignalError::InvalidDescription)
    }));
    // the candidate section scan
    if !contains_seq(arr, ice_marker()) && !contains_seq(arr, end_marker()) {
        assert(cand_json_from(s5, true) == Seq::<char>::empty());
        assert(cand_json_from(s4, true) == trim_spec(arr) + cand_json_from(s5, true));
        assert(cand_json_from(s3, false) == cand_json_from(s4, true));
        assert(cand_json_from(s2, false) == cand_json_from(s3, false));
        assert(cand_json_from(s1, false) == cand_json_from(s2, false));
        assert(cand_json_from(s0, false) == cand_json_from(s1, false));
        assert(trim_spec(arr) == arr) by {
            crate::text::lemma_trim_front_skip(arr, 0);
            assert(arr.skip(0) =~= arr);
            crate::text::lemma_trim_back_take(arr, arr.len() as int);
            assert(arr.take(arr.len() as int) =~= arr);
        }
        assert(cand_json_of(t) =~= arr);
    }
}

/// Render a session description and the gathered candidate strings as the
/// copy-paste block.  The contract carries the round trip: a clean body is
/// recovered by the description parse exactly when it deserializes, and the
/// candidate strings are recovered in order whenever their serialized array
/// does not collide with the section markers.
pub fn emit_block(d: &SessionDescription, cands: &Vec<String>) -> (r: String)
    ensures
        r@ == block_text(d@, json_array_text(cands.deep_view())),
        body_clean(d@.kind, d@.body) ==> parse_desc_spec(r@, d@.kind) == (if desc_text_ok(d@.body) {
            Ok::<DescModel, SignalError>(d@)
        } else {
            Err::<DescModel, SignalError>(SignalError::InvalidDescription)
        }),
        (body_clean(d@.kind, d@.body) && !contains_seq(json_array_text(cands.deep_view()), ice_marker())
            && !contains_seq(json_array_text(cands.deep_view()), end_marker()))
            ==> parse_cands_spec(r@) == cands.deep_view(),
{
    let arr = encode_candidate_array(cands);
    let mut out = String::new();
    crate::text::push_char(&mut out, '\n');
    out.append("==== COPY EVERYTHING BETWEEN THESE LINES ====");
    crate::text::push_char(&mut out, '\n');
    out.append(prefix_str(d.kind));
    out.append(d.body.as_str());
    crate::text::push_char(&mut out, '\n');
    out.append("ICE_CANDIDATES:");
    crate::text::push_char(&mut out, '\n');
    out.append(arr.as_str());
    crate::text::push_char(&mut out, '\n');
    out.append("==== END OF SECTION TO COPY ====");
    crate::text::push_char(&mut out, '\n');
    crate::text::push_char(&mut out, '\n');
    proof {
        assert(out@ =~= block_text(d@, json_array_text(cands.deep_view())));
        if body_clean(d@.kind, d@.body) {
            assert(!is_space_char(arr@[0]));
            assert(!is_space_char(arr@[arr@.len() - 1]));
            lemma_block_round_trip(d@, arr@);
            if !contains_seq(arr@, ice_marker()) && !contains_seq(arr@, end_marker()) {
                assert(cand_json_of(out@) == arr@);
                assert(parse_cands_spec(out@) == cands.deep_view());
            }
        }
    }
    out
}

/// Whether a description's body survives the block framing; the round-trip
/// guarantee of `emit_block` applies exactly to clean descriptions.
pub fn body_is_clean(d: &SessionDescription) -> (b: bool)
    ensures
        b == body_clean(d@.kind, d@.body),
{
    let body = d.body.as_str();
    let n = body.unicode_len();
    let mut i: usize = 0;
    while i < n
        invariant
            body@ == d@.body,
            n == body@.len(),
            0 <= i <= n,
            forall|k: int| 0 <= k < i ==> body@[k] != '\n',
        decreases n - i,
    {
        if body.get_char(i) == '\n' {
            proof {
                assert(d@.body[i as int] == '\n');
                assert(d@.body.contains('\n'));
                assert(!body_clean(d@.kind, d@.body));
            }
            return false;
        }
        i += 1;
    }
    proof {
        if body@.contains('\n') {
            let k = choose|k: int| 0 <= k < body@.len() && body@[k] == '\n';
        }
    }
    if n > 0 && body.get_char(n - 1) == '\r' {
        proof {
            assert(d@.body.len() > 0);
            assert(d@.body.last() == '\r');
        }
        return false;
    }
    let mut line = String::from_str(prefix_str(d.kind));
    line.append(body);
    proof {
        assert(line@ == prefix_of(d@.kind) + d@.body);
    }
    if str_contains(line.as_str(), "ICE_CANDIDATES:") {
        return false;
    }
    if str_contains(line.as_str(), "END OF SECTION") {
        return false;
    }
    true
}

/// Parse the peer's offer out of a pasted block.
pub fn parse_offer(text: &str) -> (r: Result<SessionDescription, SignalError>)
    ensures
        match r {
            Ok(d) => parse_desc_spec(text@, DescKind::Offer) == Ok::<DescModel, SignalError>(d@),
            Err(e) => parse_desc_spec(text@, DescKind::Offer) == Err::<DescModel, SignalError>(e),
        },
{
    parse_description(text, DescKind::Offer)
}

/// Parse the peer's answer out of a pasted block.
pub fn parse_answer(text: &str) -> (r: Result<SessionDescription, SignalError>)
    ensures
        match r {
            Ok(d) => parse_desc_spec(text@, DescKind::Answer) == Ok::<DescModel, SignalError>(d@),
            Err(e) => parse_desc_spec(text@, DescKind::Answer) == Err::<DescModel, SignalError>(e),
        },
{
    parse_description(text, DescKind::Answer)
}

} // verus!
