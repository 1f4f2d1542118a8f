//! The event model: structured events with exact wire casing.
//!
//! An event is a small record `{ "Type", "Name", "ShowName", "ID" }` plus a
//! free-form payload of string keys and JSON values. Field names on the wire
//! use this exact casing because external bindings depend on it.

use vstd::prelude::*;
use crate::json::{
    quoted, escape_text, parse_string_body, append_quoted, lemma_string_round_trip, chars_of,
    scan_string_body, str_eq,
};

verus! {

/// The kind of an event, named on the wire by a fixed short string.
#[derive(Debug, Clone, Copy, PartialEq, Eq, Hash, Structural)]
pub enum EventType {
    Start,
    StartOne,
    Update,
    End,
    EndOne,
    Msg,
    Error,
}

/// The event record as emitted on the wire.
#[derive(Debug, Clone)]
pub struct Event {
    pub event_type: EventType,
    pub name: String,
    pub show_name: String,
    pub id: String,
}

/// A progress pair: how many bytes of how many are done.
#[derive(Debug, Clone)]
pub struct ProgressEvent {
    pub total: i64,
    pub downloaded: i64,
}

/// The event record as received back from the wire, with the type still a
/// plain string (what a caller of the raw callback sees).
#[derive(Debug, Clone)]
pub struct DownloadEvent {
    pub event_type: String,
    pub name: String,
    pub show_name: String,
    pub id: String,
}

/// The wire name of each event type.
pub open spec fn wire_type_name_chars(t: EventType) -> Seq<char> {
    match t {
        EventType::Start => "start"@,
        EventType::StartOne => "startOne"@,
        EventType::Update => "update"@,
        EventType::End => "end"@,
        EventType::EndOne => "endOne"@,
        EventType::Msg => "msg"@,
        EventType::Error => "err"@,
    }
}

/// The event type a wire name stands for, if any.
pub open spec fn type_of_name(s: Seq<char>) -> Option<EventType> {
    if s == "start"@ {
        Some(EventType::Start)
    } else if s == "startOne"@ {
        Some(EventType::StartOne)
    } else if s == "update"@ {
        Some(EventType::Update)
    } else if s == "end"@ {
        Some(EventType::End)
    } else if s == "endOne"@ {
        Some(EventType::EndOne)
    } else if s == "msg"@ {
        Some(EventType::Msg)
    } else if s == "err"@ {
        Some(EventType::Error)
    } else {
        None
    }
}

/// The seven wire names are pairwise distinct, so each maps back to its type.
pub proof fn lemma_wire_type_name_round_trip(t: EventType)
    ensures
        type_of_name(wire_type_name_chars(t)) == Some(t),
{
    broadcast use vstd::string::group_string_axioms;

    reveal_strlit("start");
    reveal_strlit("startOne");
    reveal_strlit("update");
    reveal_strlit("end");
    reveal_strlit("endOne");
    reveal_strlit("msg");
    reveal_strlit("err");
    assert("start"@.len() == 5);
    assert("startOne"@.len() == 8);
    assert("update"@.len() == 6);
    assert("end"@.len() == 3);
    assert("endOne"@.len() == 6);
    assert("msg"@.len() == 3);
    assert("err"@.len() == 3);
    assert("update"@[0] == 'u' && "endOne"@[0] == 'e');
    assert("end"@[0] == 'e' && "msg"@[0] == 'm' && "err"@[0] == 'e');
    assert("end"@[1] == 'n' && "err"@[1] == 'r');
}

/// The wire name of an event type, as a string slice.
pub fn wire_type_name(t: EventType) -> (r: &'static str)
    ensures
        r@ == wire_type_name_chars(t),
{
    match t {
        EventType::Start => "start",
        EventType::StartOne => "startOne",
        EventType::Update => "update",
        EventType::End => "end",
        EventType::EndOne => "endOne",
        EventType::Msg => "msg",
        EventType::Error => "err",
    }
}

/// The JSON text of an event record, fields in wire order and casing.
pub open spec fn event_json(t: EventType, name: Seq<char>, show: Seq<char>, id: Seq<char>) -> Seq<
    char,
> {
    "{\"Type\":"@ + quoted(wire_type_name_chars(t)) + ",\"Name\":"@ + quoted(name) + ",\"ShowName\":"@
        + quoted(show) + ",\"ID\":"@ + quoted(id) + "}"@
}

impl Event {
    /// The JSON text this event serializes to.
    pub open spec fn wire_json(self) -> Seq<char> {
        event_json(self.event_type, self.name@, self.show_name@, self.id@)
    }
}

/// Encode an event record as UTF-8 JSON with exact field casing.
pub fn encode_event(e: &Event) -> (r: String)
    ensures
        r@ == e.wire_json(),
{
    let mut out = String::new();
    out.append("{\"Type\":");
    append_quoted(&mut out, wire_type_name(e.event_type));
    out.append(",\"Name\":");
    append_quoted(&mut out, e.name.as_str());
    out.append(",\"ShowName\":");
    append_quoted(&mut out, e.show_name.as_str());
    out.append(",\"ID\":");
    append_quoted(&mut out, e.id.as_str());
    out.append("}");
    proof {
        assert(out@ =~= e.wire_json());
    }
    out
}

/// Consume an expected literal prefix of the input.
pub open spec fn expect_lit(s: Seq<char>, lit: Seq<char>) -> Option<Seq<char>> {
    if lit.is_prefix_of(s) {
        Some(s.skip(lit.len() as int))
    } else {
        None
    }
}

/// Consuming a literal off itself-plus-rest leaves the rest.
proof fn lemma_expect_lit(lit: Seq<char>, rest: Seq<char>)
    ensures
        expect_lit(lit + rest, lit) == Some(rest),
{
    assert((lit + rest).take(lit.len() as int) =~= lit);
    assert((lit + rest).skip(lit.len() as int) =~= rest);
}

/// Read one quoted field value: an opening quote, then the string body.
pub open spec fn parse_field(s: Seq<char>) -> Option<(Seq<char>, Seq<char>)> {
    if s.len() > 0 && s[0] == '"' {
        parse_string_body(s.skip(1))
    } else {
        None
    }
}

/// Decode the JSON text of an event record: the event type and the three
/// string fields, in wire order.
pub open spec fn decode_event(s: Seq<char>) -> Option<(EventType, Seq<char>, Seq<char>, Seq<char>)> {
    match expect_lit(s, "{\"Type\":"@) {
        None => None,
        Some(r0) => match parse_field(r0) {
            None => None,
            Some((tname, r1)) => match type_of_name(tname) {
                None => None,
                Some(t) => match expect_lit(r1, ",\"Name\":"@) {
                    None => None,
                    Some(r2) => match parse_field(r2) {
                        None => None,
                        Some((name, r3)) => match expect_lit(r3, ",\"ShowName\":"@) {
                            None => None,
                            Some(r4) => match parse_field(r4) {
                                None => None,
                                Some((show, r5)) => match expect_lit(r5, ",\"ID\":"@) {
                                    None => None,
                                    Some(r6) => match parse_field(r6) {
                                        None => None,
                                        Some((id, r7)) => match expect_lit(r7, "}"@) {
                                            None => None,
                                            Some(r8) => if r8.len() == 0 {
                                                Some((t, name, show, id))
                                            } else {
                                                None
                                            },
                                        },
                                    },
                                },
                            },
                        },
                    },
                },
            },
        },
    }
}

/// Parsing a quoted field off an encoded field-plus-rest recovers the field.
proof fn lemma_parse_field(v: Seq<char>, rest: Seq<char>)
    ensures
        parse_field(quoted(v) + rest) == Some((v, rest)),
{
    let s = quoted(v) + rest;
    assert(s =~= seq!['"'] + (escape_text(v) + seq!['"'] + rest));
    assert(s[0] == '"');
    assert(s.skip(1) =~= escape_text(v) + seq!['"'] + rest);
    lemma_string_round_trip(v, rest);
}

/// JSON encoding and decoding of an event record preserve the event type and
/// every field, for every event of every type.
#[verifier::rlimit(60)]
pub proof fn lemma_event_round_trip(t: EventType, name: Seq<char>, show: Seq<char>, id: Seq<char>)
    ensures
        decode_event(event_json(t, name, show, id)) == Some((t, name, show, id)),
{
    let s = event_json(t, name, show, id);
    let tn = wire_type_name_chars(t);
    let rest1 = ",\"Name\":"@ + quoted(name) + ",\"ShowName\":"@ + quoted(show) + ",\"ID\":"@
        + quoted(id) + "}"@;
    assert(s =~= "{\"Type\":"@ + (quoted(tn) + rest1));
    lemma_expect_lit("{\"Type\":"@, quoted(tn) + rest1);
    lemma_parse_field(tn, rest1);
    lemma_wire_type_name_round_trip(t);
    let rest2 = ",\"ShowName\":"@ + quoted(show) + ",\"ID\":"@ + quoted(id) + "}"@;
    assert(rest1 =~= ",\"Name\":"@ + (quoted(name) + rest2));
    lemma_expect_lit(",\"Name\":"@, quoted(name) + rest2);
    lemma_parse_field(name, rest2);
    let rest3 = ",\"ID\":"@ + quoted(id) + "}"@;
    assert(rest2 =~= ",\"ShowName\":"@ + (quoted(show) + rest3));
    lemma_expect_lit(",\"ShowName\":"@, quoted(show) + rest3);
    lemma_parse_field(show, rest3);
    let rest4 = "}"@;
    assert(rest3 =~= ",\"ID\":"@ + (quoted(id) + rest4));
    lemma_expect_lit(",\"ID\":"@, quoted(id) + rest4);
    lemma_parse_field(id, rest4);
    assert(rest4 =~= "}"@ + Seq::<char>::empty());
    lemma_expect_lit("}"@, Seq::empty());
}

/// Consume an expected literal at `pos`, as the specification's
/// `expect_lit` does on the corresponding suffix.
fn eat_lit(cs: &Vec<char>, pos: usize, lit: &str) -> (r: Option<usize>)
    requires
        pos <= cs@.len(),
    ensures
        (expect_lit(cs@.skip(pos as int), lit@) is Some) == (r is Some),
        r matches Some(np) ==> pos <= np <= cs@.len() && (expect_lit(cs@.skip(pos as int), lit@)
            matches Some(rest) && cs@.skip(np as int) == rest),
{
    let n = lit.unicode_len();
    let total = cs.len();
    if total - pos < n {
        proof {
            assert(cs@.skip(pos as int).len() < lit@.len());
            assert(!lit@.is_prefix_of(cs@.skip(pos as int)));
        }
        return None;
    }
    let mut j: usize = 0;
    while j < n
        invariant
            total == cs@.len(),
            pos <= cs@.len(),
            n == lit@.len(),
            n <= cs@.len() - pos,
            j <= n,
            forall|k: int| 0 <= k < j ==> lit@[k] == cs@.skip(pos as int)[k],
        decreases n - j,
    {
        let c = lit.get_char(j);
        if c != cs[pos + j] {
            proof {
                assert(cs@.skip(pos as int)[j as int] == cs@[pos + j]);
                assert(!lit@.is_prefix_of(cs@.skip(pos as int))) by {
                    assert(cs@.skip(pos as int).take(n as int)[j as int] == cs@.skip(
                        pos as int,
                    )[j as int]);
                }
            }
            return None;
        }
        proof {
            assert(cs@.skip(pos as int)[j as int] == cs@[pos + j]);
        }
        j = j + 1;
    }
    proof {
        assert(lit@ =~= cs@.skip(pos as int).take(n as int));
        assert(lit@.is_prefix_of(cs@.skip(pos as int)));
        assert(cs@.skip(pos as int).skip(n as int) =~= cs@.skip(pos + n));
    }
    Some(pos + n)
}

/// The event type a wire name stands for, executably.
fn type_from_name(tname: &str) -> (r: Option<EventType>)
    ensures
        r == type_of_name(tname@),
{
    if str_eq(tname, "start") {
        Some(EventType::Start)
    } else if str_eq(tname, "startOne") {
        Some(EventType::StartOne)
    } else if str_eq(tname, "update") {
        Some(EventType::Update)
    } else if str_eq(tname, "end") {
        Some(EventType::End)
    } else if str_eq(tname, "endOne") {
        Some(EventType::EndOne)
    } else if str_eq(tname, "msg") {
        Some(EventType::Msg)
    } else if str_eq(tname, "err") {
        Some(EventType::Error)
    } else {
        None
    }
}

/// Read one quoted field at `pos`, as the specification's `parse_field`.
fn scan_field(cs: &Vec<char>, pos: usize) -> (r: Option<(String, usize)>)
    requires
        pos <= cs@.len(),
    ensures
        (parse_field(cs@.skip(pos as int)) is Some) == (r is Some),
        r matches Some(p) ==> pos <= p.1 <= cs@.len() && (parse_field(cs@.skip(pos as int))
            matches Some(q) && p.0@ == q.0 && cs@.skip(p.1 as int) == q.1),
{
    if pos >= cs.len() {
        return None;
    }
    proof {
        assert(cs@.skip(pos as int)[0] == cs@[pos as int]);
    }
    if cs[pos] != '"' {
        return None;
    }
    proof {
        assert(cs@.skip(pos as int).skip(1) =~= cs@.skip(pos + 1));
    }
    scan_string_body(cs, pos + 1)
}

/// Decode the JSON text of an event record, exactly as the specification
/// decoder reads it: the executable inverse of `encode_event`.
pub fn parse_event(s: &str) -> (r: Option<Event>)
    ensures
        (decode_event(s@) is Some) == (r is Some),
        r matches Some(e) ==> (decode_event(s@) matches Some(d) && e.event_type == d.0 && e.name@
            == d.1 && e.show_name@ == d.2 && e.id@ == d.3),
{
    let cs = chars_of(s);
    proof {
        assert(cs@.skip(0) =~= cs@);
    }
    let p0 = match eat_lit(&cs, 0, "{\"Type\":") {
        Some(p) => p,
        None => {
            return None;
        },
    };
    let (tname, p1) = match scan_field(&cs, p0) {
        Some(p) => p,
        None => {
            return None;
        },
    };
    let t = match type_from_name(tname.as_str()) {
        Some(t) => t,
        None => {
            return None;
        },
    };
    let p2 = match eat_lit(&cs, p1, ",\"Name\":") {
        Some(p) => p,
        None => {
            return None;
        },
    };
    let (name, p3) = match scan_field(&cs, p2) {
        Some(p) => p,
        None => {
            return None;
        },
    };
    let p4 = match eat_lit(&cs, p3, ",\"ShowName\":") {
        Some(p) => p,
        None => {
            return None;
        },
    };
    let (show_name, p5) = match scan_field(&cs, p4) {
        Some(p) => p,
        None => {
            return None;
        },
    };
    let p6 = match eat_lit(&cs, p5, ",\"ID\":") {
        Some(p) => p,
        None => {
            return None;
        },
    };
    let (id, p7) = match scan_field(&cs, p6) {
        Some(p) => p,
        None => {
            return None;
        },
    };
    let p8 = match eat_lit(&cs, p7, "}") {
        Some(p) => p,
        None => {
            return None;
        },
    };
    if p8 != cs.len() {
        return None;
    }
    proof {
        assert(cs@.skip(p8 as int).len() == 0);
    }
    Some(Event { event_type: t, name, show_name, id })
}

} // verus!
