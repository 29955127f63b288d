//! Network traffic records and the text format they are read from.
//!
//! A record is one line of eight fields or more, separated by white space:
//! `timestamp src_ip src_port dst_ip dst_port protocol bytes duration`, as in
//! `2024-01-15T10:30:00 192.168.1.10 54321 10.0.0.1 443 TCP 1500 0.05`.

use crate::duration::{duration_of, read_duration, Duration};
use crate::text::{fields, read_unsigned, spans_at, spells, split_fields, to_chars, unsigned_of};
use chrono::NaiveDateTime;
use vstd::prelude::*;
use vstd::string::StrSliceExecFns;

verus! {

/// The transport protocol of a traffic record.
#[derive(Debug, Clone, Copy, PartialEq, Eq, Structural)]
pub enum Protocol {
    Tcp,
    Udp,
    Icmp,
    Other,
}

impl Protocol {
    /// The number that stands for the protocol in a feature vector.
    pub open spec fn code_of(self) -> u8 {
        match self {
            Protocol::Tcp => 0,
            Protocol::Udp => 1,
            Protocol::Icmp => 2,
            Protocol::Other => 3,
        }
    }

    /// The number that stands for the protocol in a feature vector.
    pub fn code(self) -> (code: u8)
        ensures
            code == self.code_of(),
    {
        match self {
            Protocol::Tcp => 0,
            Protocol::Udp => 1,
            Protocol::Icmp => 2,
            Protocol::Other => 3,
        }
    }

    /// The name under which the protocol is printed.
    pub open spec fn label_of(self) -> Seq<char> {
        match self {
            Protocol::Tcp => "TCP"@,
            Protocol::Udp => "UDP"@,
            Protocol::Icmp => "ICMP"@,
            Protocol::Other => "OTHER"@,
        }
    }

    /// The name under which the protocol is printed.
    pub fn label(self) -> (name: &'static str)
        ensures
            name@ == self.label_of(),
    {
        match self {
            Protocol::Tcp => "TCP",
            Protocol::Udp => "UDP",
            Protocol::Icmp => "ICMP",
            Protocol::Other => "OTHER",
        }
    }
}

/// What `str::to_uppercase` makes of a text.
pub uninterp spec fn uppercase_of(text: Seq<char>) -> Seq<char>;

/// Calls `str::to_uppercase`, which maps each character to its uppercase
/// form as Unicode defines it; the result depends on the text alone.
#[verifier::external_body]
fn uppercase(text: &str) -> (upper: String)
    ensures
        upper@ == uppercase_of(text@),
{
    text.to_uppercase()
}

/// The protocol that an uppercase name stands for.
pub open spec fn protocol_of(upper: Seq<char>) -> Protocol {
    if upper == "TCP"@ {
        Protocol::Tcp
    } else if upper == "UDP"@ {
        Protocol::Udp
    } else if upper == "ICMP"@ {
        Protocol::Icmp
    } else {
        Protocol::Other
    }
}

/// The protocol that an uppercase name stands for: `TCP`, `UDP` and `ICMP`
/// are known, every other name is `Other`.
pub fn protocol_named(upper: &str) -> (protocol: Protocol)
    ensures
        protocol == protocol_of(upper@),
{
    let letters = to_chars(upper);
    if spells(&letters, "TCP") {
        Protocol::Tcp
    } else if spells(&letters, "UDP") {
        Protocol::Udp
    } else if spells(&letters, "ICMP") {
        Protocol::Icmp
    } else {
        Protocol::Other
    }
}

/// Reads the name of a protocol, in upper or lower case.
pub fn parse_protocol(s: &str) -> (protocol: Protocol)
    ensures
        protocol == protocol_of(uppercase_of(s@)),
{
    let upper = uppercase(s);
    protocol_named(upper.as_str())
}

/// What `chrono::NaiveDateTime::parse_from_str` makes of a text under a
/// format: the moment as seconds since the Unix epoch and the nanoseconds
/// within that second, or nothing where the text does not fit the format.
pub uninterp spec fn datetime_of(text: Seq<char>, format: Seq<char>) -> Option<(i64, u32)>;

/// Calls `chrono::NaiveDateTime::parse_from_str` and hands the moment out as
/// the two numbers that `timestamp` and `timestamp_subsec_nanos` give for
/// it. The parser reads no clock, zone or locale: the result depends on the
/// two texts alone.
#[verifier::external_body]
fn parse_datetime(text: &str, format: &str) -> (moment: Option<(i64, u32)>)
    ensures
        moment == datetime_of(text@, format@),
{
    match NaiveDateTime::parse_from_str(text, format) {
        Ok(parsed) => Some((parsed.and_utc().timestamp(), parsed.and_utc().timestamp_subsec_nanos())),
        Err(_) => None,
    }
}

/// One observed network flow.
#[derive(Debug, PartialEq, Eq)]
pub struct NetworkEvent {
    /// When the flow was seen: seconds since the Unix epoch, read as UTC.
    pub timestamp: i64,
    /// The nanoseconds within that second; a thousand million or more only in
    /// a leap second.
    pub timestamp_nanos: u32,
    pub src_ip: String,
    pub src_port: u16,
    pub dst_ip: String,
    pub dst_port: u16,
    pub protocol: Protocol,
    pub bytes: u64,
    /// How long the flow lasted.
    pub duration: Duration,
}

impl Clone for NetworkEvent {
    fn clone(&self) -> (copy: Self)
        ensures
            copy == *self,
    {
        NetworkEvent {
            timestamp: self.timestamp,
            timestamp_nanos: self.timestamp_nanos,
            src_ip: self.src_ip.clone(),
            src_port: self.src_port,
            dst_ip: self.dst_ip.clone(),
            dst_port: self.dst_port,
            protocol: self.protocol,
            bytes: self.bytes,
            duration: self.duration,
        }
    }
}

/// The format of the timestamp field, as `chrono` reads it.
pub open spec fn timestamp_format() -> Seq<char> {
    "%Y-%m-%dT%H:%M:%S"@
}

/// Whether `line` has the shape of a record: it has eight fields or more
/// and does not begin as a comment.
pub open spec fn is_candidate(line: Seq<char>) -> bool {
    let f = fields(line);
    &&& f.len() >= 8
    &&& f[0][0] != '#'
}

/// Whether the ports, the byte count and the duration of `line` can be read.
pub open spec fn has_numbers(line: Seq<char>) -> bool {
    let f = fields(line);
    &&& unsigned_of(f[2], u16::MAX as nat) is Some
    &&& unsigned_of(f[4], u16::MAX as nat) is Some
    &&& unsigned_of(f[6], u64::MAX as nat) is Some
    &&& duration_of(f[7]) is Some
}

/// Whether `line` holds a record: it has the shape of one, and its
/// timestamp, ports, byte count and duration can be read.
pub open spec fn is_record(line: Seq<char>) -> bool {
    &&& is_candidate(line)
    &&& datetime_of(fields(line)[0], timestamp_format()) is Some
    &&& has_numbers(line)
}

/// Whether `event` carries what the fields of `line` say, with `moment`
/// for its timestamp and `protocol` for its protocol.
pub open spec fn carries(
    event: NetworkEvent,
    line: Seq<char>,
    moment: (i64, u32),
    protocol: Protocol,
) -> bool {
    let f = fields(line);
    &&& event.timestamp == moment.0
    &&& event.timestamp_nanos == moment.1
    &&& event.src_ip@ == f[1]
    &&& Some(event.src_port as nat) == unsigned_of(f[2], u16::MAX as nat)
    &&& event.dst_ip@ == f[3]
    &&& Some(event.dst_port as nat) == unsigned_of(f[4], u16::MAX as nat)
    &&& event.protocol == protocol
    &&& Some(event.bytes as nat) == unsigned_of(f[6], u64::MAX as nat)
    &&& Some(event.duration) == duration_of(f[7])
}

/// Whether `event` is what the first eight fields of `line` say.
pub open spec fn records(event: NetworkEvent, line: Seq<char>) -> bool {
    let f = fields(line);
    &&& datetime_of(f[0], timestamp_format()) matches Some(moment) && carries(
        event,
        line,
        moment,
        protocol_of(uppercase_of(f[5])),
    )
}

/// Whether `spans` are the positions of the fields of `line`.
pub open spec fn spans_of(spans: Seq<(usize, usize)>, line: Seq<char>) -> bool {
    &&& spans.len() == fields(line).len()
    &&& forall|k: int|
        0 <= k < spans.len() ==> (#[trigger] spans[k]).0 < spans[k].1 <= line.len() && fields(line)[k]
            == line.subrange(spans[k].0 as int, spans[k].1 as int)
}

/// Splits `line` into its fields, where it has the shape of a record.
fn split_candidate(line: &str) -> (split: Option<(Vec<char>, Vec<(usize, usize)>)>)
    ensures
        split is Some <==> is_candidate(line@),
        split matches Some(found) ==> found.0@ == line@ && spans_of(found.1@, line@),
{
    let text = to_chars(line);
    let spans = split_fields(&text);
    assert forall|k: int| 0 <= k < spans@.len() implies #[trigger] fields(line@)[k] == line@.subrange(
        spans@[k].0 as int,
        spans@[k].1 as int,
    ) by {
        assert(spans_at(spans@[k], line@, k));
    }
    if spans.len() < 8 {
        return None;
    }
    assert(spans_at(spans@[0], line@, 0));
    assert(fields(line@)[0][0] == text@[spans@[0].0 as int]);
    if text[spans[0].0] == '#' {
        return None;
    }
    Some((text, spans))
}

/// Builds a record from the fields of `line` that stand at `spans`, with
/// `moment` for its timestamp and `protocol` for its protocol, where its
/// ports, byte count and duration can be read.
fn read_fields(
    line: &str,
    text: &Vec<char>,
    spans: &Vec<(usize, usize)>,
    moment: (i64, u32),
    protocol: Protocol,
) -> (event: Option<NetworkEvent>)
    requires
        is_candidate(line@),
        text@ == line@,
        spans_of(spans@, line@),
    ensures
        event is Some <==> has_numbers(line@),
        event matches Some(e) ==> carries(e, line@, moment, protocol),
{
    assert(spans@[1].0 < spans@[1].1 && spans@[2].0 < spans@[2].1 && spans@[3].0 < spans@[3].1);
    assert(spans@[4].0 < spans@[4].1 && spans@[6].0 < spans@[6].1 && spans@[7].0 < spans@[7].1);
    let src_ip: String = line.substring_char(spans[1].0, spans[1].1).to_owned();
    let src_port = match read_unsigned(text, spans[2].0, spans[2].1, 65535) {
        Some(port) => port as u16,
        None => {
            return None;
        },
    };
    let dst_ip: String = line.substring_char(spans[3].0, spans[3].1).to_owned();
    let dst_port = match read_unsigned(text, spans[4].0, spans[4].1, 65535) {
        Some(port) => port as u16,
        None => {
            return None;
        },
    };
    let bytes = match read_unsigned(text, spans[6].0, spans[6].1, u64::MAX) {
        Some(bytes) => bytes,
        None => {
            return None;
        },
    };
    let duration = match read_duration(line.substring_char(spans[7].0, spans[7].1)) {
        Some(duration) => duration,
        None => {
            return None;
        },
    };
    Some(
        NetworkEvent {
            timestamp: moment.0,
            timestamp_nanos: moment.1,
            src_ip,
            src_port,
            dst_ip,
            dst_port,
            protocol,
            bytes,
            duration,
        },
    )
}

/// Builds the record that `line` holds from its fields, with `moment` for
/// its timestamp and `protocol` for its protocol, where the line has the
/// shape of a record and its ports, byte count and duration can be read.
pub fn read_record(line: &str, moment: (i64, u32), protocol: Protocol) -> (event: Option<
    NetworkEvent,
>)
    ensures
        event is Some <==> is_candidate(line@) && has_numbers(line@),
        event matches Some(e) ==> carries(e, line@, moment, protocol),
{
    match split_candidate(line) {
        Some((text, spans)) => read_fields(line, &text, &spans, moment, protocol),
        None => None,
    }
}

/// Reads one line of traffic data.
///
/// Blank lines, comment lines (the first character that is no white space
/// is `#`), lines with fewer than eight fields and lines with a field that
/// cannot be read give nothing. Fields behind the eighth are not looked at.
pub fn parse_line(line: &str) -> (event: Option<NetworkEvent>)
    ensures
        event is Some <==> is_record(line@),
        event matches Some(e) ==> records(e, line@),
{
    let (text, spans) = match split_candidate(line) {
        Some(split) => split,
        None => {
            return None;
        },
    };
    assert(spans@[0].0 < spans@[0].1 && spans@[5].0 < spans@[5].1);
    let moment = match parse_datetime(line.substring_char(spans[0].0, spans[0].1), "%Y-%m-%dT%H:%M:%S") {
        Some(moment) => moment,
        None => {
            return None;
        },
    };
    let protocol = parse_protocol(line.substring_char(spans[5].0, spans[5].1));
    read_fields(line, &text, &spans, moment, protocol)
}

} // verus!
