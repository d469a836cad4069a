//! The candidate converter: one loosely-typed connectivity-candidate record
//! becomes the engine's canonical candidate line
//!
//! ```text
//! candidate:<foundation> <component> <protocol> <priority> <address> <port> typ <type>[ tcptype <tcp-type>]
//! ```
//!
//! Missing fields take documented defaults rather than failing; only input
//! that is not structured data at all is rejected.
use vstd::prelude::*;

use crate::codec::SignalError;
use crate::text::dec_spec;
use crate::text::u64_to_dec;

verus! {

/// One connectivity-candidate record, after the untrusted field mapping has
/// been read: every field optional, defaults applied only when the canonical
/// line is rendered.
pub struct CandidateRecord {
    pub foundation: Option<String>,
    pub component: Option<u64>,
    pub protocol: Option<String>,
    pub priority: Option<u64>,
    pub address: Option<String>,
    pub port: Option<u64>,
    pub typ: Option<String>,
    pub tcptype: Option<String>,
}

/// The mathematical model of a `CandidateRecord`.
pub struct CandidateFields {
    pub foundation: Option<Seq<char>>,
    pub component: Option<u64>,
    pub protocol: Option<Seq<char>>,
    pub priority: Option<u64>,
    pub address: Option<Seq<char>>,
    pub port: Option<u64>,
    pub typ: Option<Seq<char>>,
    pub tcptype: Option<Seq<char>>,
}

pub open spec fn opt_view(o: Option<String>) -> Option<Seq<char>> {
    match o {
        Some(s) => Some(s@),
        None => None,
    }
}

impl View for CandidateRecord {
    type V = CandidateFields;

    open spec fn view(&self) -> CandidateFields {
        CandidateFields {
            foundation: opt_view(self.foundation),
            component: self.component,
            protocol: opt_view(self.protocol),
            priority: self.priority,
            address: opt_view(self.address),
            port: self.port,
            typ: opt_view(self.typ),
            tcptype: opt_view(self.tcptype),
        }
    }
}

/// A missing text field renders as the empty string.
pub open spec fn or_empty(s: Option<Seq<char>>) -> Seq<char> {
    match s {
        Some(x) => x,
        None => Seq::empty(),
    }
}

/// The component number: default 1, and wrapped to sixteen bits as the
/// engine's component field is.
pub open spec fn component_val(c: Option<u64>) -> u64 {
    match c {
        Some(n) => n % 0x10000,
        None => 1,
    }
}

/// The protocol: default `udp`.
pub open spec fn protocol_val(p: Option<Seq<char>>) -> Seq<char> {
    match p {
        Some(x) => x,
        None => "udp"@,
    }
}

/// The priority: default 0, wrapped to thirty-two bits.
pub open spec fn priority_val(p: Option<u64>) -> u64 {
    match p {
        Some(n) => n % 0x100000000,
        None => 0,
    }
}

/// The port: default 0, wrapped to sixteen bits.
pub open spec fn port_val(p: Option<u64>) -> u64 {
    match p {
        Some(n) => n % 0x10000,
        None => 0,
    }
}

/// The optional trailing ` tcptype <tcp-type>` segment, present exactly when
/// the field was supplied.
pub open spec fn tcp_part(t: Option<Seq<char>>) -> Seq<char> {
    match t {
        Some(x) => " tcptype "@ + x,
        None => Seq::empty(),
    }
}

/// The canonical candidate line for a record, defaults filled in.
pub open spec fn candidate_line(f: CandidateFields) -> Seq<char> {
    "candidate:"@ + or_empty(f.foundation) + " "@ + dec_spec(component_val(f.component) as nat)
        + " "@ + protocol_val(f.protocol) + " "@ + dec_spec(priority_val(f.priority) as nat) + " "@
        + or_empty(f.address) + " "@ + dec_spec(port_val(f.port) as nat) + " typ "@ + or_empty(
        f.typ,
    ) + tcp_part(f.tcptype)
}

/// Render the canonical line for an already-read record.  Conversion is
/// total: every record yields a line, missing fields as their defaults.
pub fn line_from_record(rec: &CandidateRecord) -> (r: String)
    ensures
        r@ == candidate_line(rec@),
{
    let mut out = String::from_str("candidate:");
    match &rec.foundation {
        Some(f) => out.append(f.as_str()),
        None => (),
    }
    out.append(" ");
    let comp: u64 = match rec.component {
        Some(n) => n % 0x10000,
        None => 1,
    };
    let t = u64_to_dec(comp);
    out.append(t.as_str());
    out.append(" ");
    match &rec.protocol {
        Some(p) => out.append(p.as_str()),
        None => out.append("udp"),
    }
    out.append(" ");
    let prio: u64 = match rec.priority {
        Some(n) => n % 0x100000000,
        None => 0,
    };
    let t = u64_to_dec(prio);
    out.append(t.as_str());
    out.append(" ");
    match &rec.address {
        Some(a) => out.append(a.as_str()),
        None => (),
    }
    out.append(" ");
    let port: u64 = match rec.port {
        Some(n) => n % 0x10000,
        None => 0,
    };
    let t = u64_to_dec(port);
    out.append(t.as_str());
    out.append(" typ ");
    match &rec.typ {
        Some(x) => out.append(x.as_str()),
        None => (),
    }
    match &rec.tcptype {
        Some(x) => {
            out.append(" tcptype ");
            out.append(x.as_str());
        },
        None => (),
    }
    proof {
        assert(out@ =~= candidate_line(rec@));
    }
    out
}

/// What fields a candidate JSON text carries, if it is structured data.
pub uninterp spec fn parsed_candidate_record(s: Seq<char>) -> Option<CandidateFields>;

/// Relies on `serde_json::from_str` for `serde_json::Value` and on `Value`'s
/// index and `as_str`/`as_u64` accessors: which fields a candidate JSON text
/// carries is a function of the text alone.  A text that is valid JSON but
/// no object reads as a record with every field missing, since indexing a
/// non-object yields null.
#[verifier::external_body]
fn parse_candidate_record(s: &str) -> (r: Option<CandidateRecord>)
    ensures
        match r {
            Some(rec) => parsed_candidate_record(s@) == Some(rec@),
            None => parsed_candidate_record(s@) is None,
        },
{
    let v: serde_json::Value = match serde_json::from_str(s) {
        Ok(v) => v,
        Err(_) => return None,
    };
    Some(CandidateRecord {
        foundation: v["foundation"].as_str().map(|x| x.to_string()),
        component: v["component"].as_u64(),
        protocol: v["protocol"].as_str().map(|x| x.to_string()),
        priority: v["priority"].as_u64(),
        address: v["address"].as_str().map(|x| x.to_string()),
        port: v["port"].as_u64(),
        typ: v["typ"].as_str().map(|x| x.to_string()),
        tcptype: v["tcptype"].as_str().map(|x| x.to_string()),
    })
}

/// The canonical line a candidate JSON text converts to, if any.
pub open spec fn convert_spec(s: Seq<char>) -> Option<Seq<char>> {
    match parsed_candidate_record(s) {
        Some(f) => Some(candidate_line(f)),
        None => None,
    }
}

/// Convert one candidate JSON text to the canonical candidate line.
/// Succeeds exactly when the text is structured data at all; individual
/// missing fields degrade to their defaults instead of failing.
pub fn convert(s: &str) -> (r: Result<String, SignalError>)
    ensures
        r is Ok <==> parsed_candidate_record(s@) is Some,
        r matches Ok(line) ==> convert_spec(s@) == Some(line@),
        r matches Err(e) ==> e == SignalError::MalformedCandidate,
{
    match parse_candidate_record(s) {
        Some(rec) => Ok(line_from_record(&rec)),
        None => Err(SignalError::MalformedCandidate),
    }
}

/// Convert a whole batch of candidate JSON texts, keeping order; a slot is
/// `None` where that one candidate was malformed, so one bad candidate never
/// aborts the batch.
pub fn convert_batch(cands: &Vec<String>) -> (r: Vec<Option<String>>)
    ensures
        r.len() == cands.len(),
        forall|i: int|
            0 <= i < r.len() ==> (match #[trigger] r[i] {
                Some(line) => convert_spec(cands[i]@) == Some(line@),
                None => convert_spec(cands[i]@) is None,
            }),
{
    let mut r: Vec<Option<String>> = Vec::new();
    let n = cands.len();
    let mut i: usize = 0;
    while i < n
        invariant
            n == cands.len(),
            0 <= i <= n,
            r.len() == i,
            forall|j: int|
                0 <= j < i ==> (match #[trigger] r[j] {
                    Some(line) => convert_spec(cands[j]@) == Some(line@),
                    None => convert_spec(cands[j]@) is None,
                }),
        decreases n - i,
    {
        match convert(cands[i].as_str()) {
            Ok(line) => r.push(Some(line)),
            Err(_) => r.push(None),
        }
        i += 1;
    }
    r
}

} // verus!
