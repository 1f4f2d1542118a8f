//! The JSON wire encoding of events and data payloads.
//!
//! Events and their key/value payloads travel as UTF-8 JSON text with exact
//! field casing, because external bindings depend on it. The encoder is
//! executable and verified against spec-level encoding functions; a
//! spec-level decoder inverts it, and the round-trip is proved.

use vstd::prelude::*;

verus! {

/// A JSON-compatible payload value: a string or a non-negative integer.
#[derive(Debug, Clone, PartialEq, Eq)]
pub enum JsonValue {
    Str(String),
    Num(u64),
}

/// The mathematical model of a payload value.
pub enum JsonValueModel {
    S(Seq<char>),
    N(nat),
}

impl JsonValue {
    /// The model of this value: its view.
    pub open spec fn model(self) -> JsonValueModel {
        match self {
            JsonValue::Str(s) => JsonValueModel::S(s@),
            JsonValue::Num(n) => JsonValueModel::N(n as nat),
        }
    }
}

// ---------------------------------------------------------------------------
// Spec-level encoding
// ---------------------------------------------------------------------------
/// How one character appears inside a JSON string literal: quotes and
/// backslashes are escaped, control characters become `\u00XX`, everything
/// else stands for itself.
pub open spec fn escape_char(c: char) -> Seq<char> {
    if c == '"' {
        seq!['\\', '"']
    } else if c == '\\' {
        seq!['\\', '\\']
    } else if (c as u32) < 32 {
        seq!['\\', 'u', '0', '0', hex_digit_char((c as u32 / 16) as nat), hex_digit_char((
        c as u32 % 16) as nat)]
    } else {
        seq![c]
    }
}

/// The lowercase hexadecimal digit for `n < 16`.
pub open spec fn hex_digit_char(n: nat) -> char {
    if n == 0 {
        '0'
    } else if n == 1 {
        '1'
    } else if n == 2 {
        '2'
    } else if n == 3 {
        '3'
    } else if n == 4 {
        '4'
    } else if n == 5 {
        '5'
    } else if n == 6 {
        '6'
    } else if n == 7 {
        '7'
    } else if n == 8 {
        '8'
    } else if n == 9 {
        '9'
    } else if n == 10 {
        'a'
    } else if n == 11 {
        'b'
    } else if n == 12 {
        'c'
    } else if n == 13 {
        'd'
    } else if n == 14 {
        'e'
    } else {
        'f'
    }
}

/// A whole string, escaped character by character.
pub open spec fn escape_text(s: Seq<char>) -> Seq<char>
    decreases s.len(),
{
    if s.len() == 0 {
        Seq::empty()
    } else {
        escape_char(s[0]) + escape_text(s.skip(1))
    }
}

/// A JSON string literal: the escaped text between double quotes.
pub open spec fn quoted(s: Seq<char>) -> Seq<char> {
    seq!['"'] + escape_text(s) + seq!['"']
}

/// The decimal digit character for `n < 10`.
pub open spec fn dec_digit_char(n: nat) -> char {
    hex_digit_char(n % 10)
}

/// The decimal digits of `n`, most significant first.
pub open spec fn dec_digits(n: nat) -> Seq<char>
    decreases n,
{
    if n < 10 {
        seq![dec_digit_char(n)]
    } else {
        dec_digits(n / 10).push(dec_digit_char(n % 10))
    }
}

/// The JSON text of one payload value.
pub open spec fn value_json(v: JsonValueModel) -> Seq<char> {
    match v {
        JsonValueModel::S(s) => quoted(s),
        JsonValueModel::N(n) => dec_digits(n),
    }
}

/// The inner text of a JSON object: `"key":value` pairs joined by commas.
pub open spec fn pairs_json(ps: Seq<(Seq<char>, JsonValueModel)>) -> Seq<char>
    decreases ps.len(),
{
    if ps.len() == 0 {
        Seq::empty()
    } else if ps.len() == 1 {
        quoted(ps[0].0) + seq![':'] + value_json(ps[0].1)
    } else {
        quoted(ps[0].0) + seq![':'] + value_json(ps[0].1) + seq![','] + pairs_json(ps.skip(1))
    }
}

/// A whole JSON object.
pub open spec fn object_json(ps: Seq<(Seq<char>, JsonValueModel)>) -> Seq<char> {
    seq!['{'] + pairs_json(ps) + seq!['}']
}

/// The model of an executable payload: the views of its keys and values.
pub open spec fn pairs_model(ps: Seq<(String, JsonValue)>) -> Seq<(Seq<char>, JsonValueModel)> {
    ps.map_values(|p: (String, JsonValue)| (p.0@, p.1.model()))
}

// ---------------------------------------------------------------------------
// Executable encoding
// ---------------------------------------------------------------------------
/// Relies on `String::push`: appends exactly the one character.
#[verifier::external_body]
pub fn push_char(out: &mut String, c: char)
    ensures
        final(out)@ == old(out)@.push(c),
{
    out.push(c);
}

/// The lowercase hexadecimal digit for `n < 16`.
fn hex_digit(n: u32) -> (c: char)
    requires
        n < 16,
    ensures
        c == hex_digit_char(n as nat),
{
    match n {
        0 => '0',
        1 => '1',
        2 => '2',
        3 => '3',
        4 => '4',
        5 => '5',
        6 => '6',
        7 => '7',
        8 => '8',
        9 => '9',
        10 => 'a',
        11 => 'b',
        12 => 'c',
        13 => 'd',
        14 => 'e',
        _ => 'f',
    }
}

/// Escaping a single character is its escape.
proof fn lemma_escape_text_single(c: char)
    ensures
        escape_text(seq![c]) == escape_char(c),
{
    assert(seq![c].skip(1) =~= Seq::<char>::empty());
    assert(escape_text(seq![c].skip(1)) == Seq::<char>::empty());
    assert(escape_text(seq![c]) =~= escape_char(c));
}

/// Escaping distributes over concatenation.
proof fn lemma_escape_text_concat(a: Seq<char>, b: Seq<char>)
    ensures
        escape_text(a + b) == escape_text(a) + escape_text(b),
    decreases a.len(),
{
    if a.len() == 0 {
        assert(a + b =~= b);
        assert(escape_text(a) =~= Seq::<char>::empty());
        assert(escape_text(a) + escape_text(b) =~= escape_text(b));
    } else {
        lemma_escape_text_concat(a.skip(1), b);
        assert((a + b)[0] == a[0]);
        assert((a + b).skip(1) =~= a.skip(1) + b);
        assert(escape_text(a + b) =~= escape_text(a) + escape_text(b));
    }
}

/// Escaping one more character extends the escaped text.
proof fn lemma_escape_text_snoc(s: Seq<char>, i: int)
    requires
        0 <= i < s.len(),
    ensures
        escape_text(s.take(i + 1)) == escape_text(s.take(i)) + escape_char(s[i]),
{
    assert(s.take(i + 1) =~= s.take(i) + seq![s[i]]);
    lemma_escape_text_concat(s.take(i), seq![s[i]]);
    lemma_escape_text_single(s[i]);
}

/// Append the escaped form of `s` to `out`.
fn append_escaped(out: &mut String, s: &str)
    ensures
        final(out)@ == old(out)@ + escape_text(s@),
{
    let n = s.unicode_len();
    let mut i: usize = 0;
    while i < n
        invariant
            n == s@.len(),
            i <= n,
            out@ == old(out)@ + escape_text(s@.take(i as int)),
        decreases n - i,
    {
        let c = s.get_char(i);
        if c == '"' {
            push_char(out, '\\');
            push_char(out, '"');
        } else if c == '\\' {
            push_char(out, '\\');
            push_char(out, '\\');
        } else if (c as u32) < 32 {
            push_char(out, '\\');
            push_char(out, 'u');
            push_char(out, '0');
            push_char(out, '0');
            push_char(out, hex_digit((c as u32) / 16));
            push_char(out, hex_digit((c as u32) % 16));
        } else {
            push_char(out, c);
        }
        proof {
            lemma_escape_text_snoc(s@, i as int);
            assert(out@ =~= old(out)@ + escape_text(s@.take(i + 1)));
        }
        i = i + 1;
    }
    proof {
        assert(s@.take(n as int) =~= s@);
    }
}

/// Append `s` as a JSON string literal (quoted and escaped) to `out`.
pub fn append_quoted(out: &mut String, s: &str)
    ensures
        final(out)@ == old(out)@ + quoted(s@),
{
    push_char(out, '"');
    append_escaped(out, s);
    push_char(out, '"');
    proof {
        assert(out@ =~= old(out)@ + quoted(s@));
    }
}

/// Append the decimal digits of `n` to `out`.
pub fn append_u64(out: &mut String, n: u64)
    ensures
        final(out)@ == old(out)@ + dec_digits(n as nat),
{
    append_u64_rec(out, n);
}

/// Recursive helper writing the digits most significant first.
fn append_u64_rec(out: &mut String, n: u64)
    ensures
        final(out)@ == old(out)@ + dec_digits(n as nat),
    decreases n,
{
    if n < 10 {
        push_char(out, hex_digit(n as u32));
    } else {
        append_u64_rec(out, n / 10);
        push_char(out, hex_digit((n % 10) as u32));
        proof {
            assert(out@ =~= old(out)@ + dec_digits(n as nat));
        }
    }
}

/// Append one payload value as JSON to `out`.
pub fn append_value(out: &mut String, v: &JsonValue)
    ensures
        final(out)@ == old(out)@ + value_json(v.model()),
{
    match v {
        JsonValue::Str(s) => {
            append_quoted(out, s.as_str());
        },
        JsonValue::Num(n) => {
            append_u64(out, *n);
        },
    }
}

/// One more pair extends the inner text of an object.
proof fn lemma_pairs_json_snoc(ps: Seq<(Seq<char>, JsonValueModel)>, i: int)
    requires
        0 <= i < ps.len(),
    ensures
        pairs_json(ps.take(i + 1)) == if i == 0 {
            quoted(ps[0].0) + seq![':'] + value_json(ps[0].1)
        } else {
            pairs_json(ps.take(i)) + seq![','] + quoted(ps[i].0) + seq![':'] + value_json(ps[i].1)
        },
    decreases i,
{
    if i == 0 {
        assert(ps.take(1) =~= seq![ps[0]]);
        assert(pairs_json(ps.take(1)) =~= quoted(ps[0].0) + seq![':'] + value_json(ps[0].1));
    } else {
        lemma_pairs_json_snoc(ps.skip(1), i - 1);
        assert(ps.take(i + 1)[0] == ps[0]);
        assert(ps.take(i + 1).skip(1) =~= ps.skip(1).take(i));
        assert(ps.take(i).skip(1) =~= ps.skip(1).take(i - 1));
        assert(ps.skip(1)[i - 1] == ps[i]);
        if i == 1 {
            assert(ps.take(2).len() == 2);
            assert(pairs_json(ps.take(2)) == quoted(ps[0].0) + seq![':'] + value_json(ps[0].1)
                + seq![','] + pairs_json(ps.skip(1).take(1)));
            assert(ps.take(1) =~= seq![ps[0]]);
            assert(pairs_json(ps.take(2)) =~= pairs_json(ps.take(1)) + seq![','] + quoted(ps[1].0)
                + seq![':'] + value_json(ps[1].1));
        } else {
            assert(pairs_json(ps.take(i + 1)) == quoted(ps[0].0) + seq![':'] + value_json(ps[0].1)
                + seq![','] + pairs_json(ps.skip(1).take(i)));
            assert(pairs_json(ps.take(i)) == quoted(ps[0].0) + seq![':'] + value_json(ps[0].1)
                + seq![','] + pairs_json(ps.skip(1).take(i - 1)));
            assert(pairs_json(ps.take(i + 1)) =~= pairs_json(ps.take(i)) + seq![','] + quoted(
                ps[i].0,
            ) + seq![':'] + value_json(ps[i].1));
        }
    }
}

/// Encode a payload as a JSON object with its pairs in order.
pub fn encode_object(pairs: &Vec<(String, JsonValue)>) -> (r: String)
    ensures
        r@ == object_json(pairs_model(pairs@)),
{
    let mut out = String::new();
    push_char(&mut out, '{');
    let ghost model = pairs_model(pairs@);
    let mut i: usize = 0;
    while i < pairs.len()
        invariant
            model == pairs_model(pairs@),
            model.len() == pairs@.len(),
            i <= pairs@.len(),
            out@ == seq!['{'] + pairs_json(model.take(i as int)),
        decreases pairs@.len() - i,
    {
        if i > 0 {
            push_char(&mut out, ',');
        }
        append_quoted(&mut out, pairs[i].0.as_str());
        push_char(&mut out, ':');
        append_value(&mut out, &pairs[i].1);
        proof {
            assert(model[i as int] == (pairs@[i as int].0@, pairs@[i as int].1.model()));
            lemma_pairs_json_snoc(model, i as int);
            assert(out@ =~= seq!['{'] + pairs_json(model.take(i + 1)));
        }
        i = i + 1;
    }
    push_char(&mut out, '}');
    proof {
        assert(model.take(model.len() as int) =~= model);
        assert(out@ =~= object_json(model));
    }
    out
}

// ---------------------------------------------------------------------------
// Spec-level decoding
// ---------------------------------------------------------------------------
pub open spec fn is_dec_digit(c: char) -> bool {
    48 <= c as u32 <= 57
}

pub open spec fn dec_digit_val(c: char) -> nat {
    (c as u32 - 48) as nat
}

pub open spec fn is_hex_lower(c: char) -> bool {
    is_dec_digit(c) || 97 <= c as u32 <= 102
}

pub open spec fn hex_val(c: char) -> nat {
    if is_dec_digit(c) {
        dec_digit_val(c)
    } else {
        (c as u32 - 87) as nat
    }
}

/// Read the body of a JSON string literal (the opening quote already
/// consumed) up to and including its closing quote: the unescaped content
/// and the remaining input.
pub open spec fn parse_string_body(s: Seq<char>) -> Option<(Seq<char>, Seq<char>)>
    decreases s.len(),
{
    if s.len() == 0 {
        None
    } else if s[0] == '"' {
        Some((Seq::empty(), s.skip(1)))
    } else if s[0] == '\\' {
        if s.len() >= 2 && (s[1] == '"' || s[1] == '\\') {
            match parse_string_body(s.skip(2)) {
                Some((t, r)) => Some((seq![s[1]] + t, r)),
                None => None,
            }
        } else if s.len() >= 6 && s[1] == 'u' && s[2] == '0' && s[3] == '0' && is_hex_lower(s[4])
            && is_hex_lower(s[5]) && hex_val(s[4]) * 16 + hex_val(s[5]) < 32 {
            match parse_string_body(s.skip(6)) {
                Some((t, r)) => Some(
                    (seq![((hex_val(s[4]) * 16 + hex_val(s[5])) as u32) as char] + t, r),
                ),
                None => None,
            }
        } else {
            None
        }
    } else {
        match parse_string_body(s.skip(1)) {
            Some((t, r)) => Some((seq![s[0]] + t, r)),
            None => None,
        }
    }
}

/// Read a run of decimal digits, folding them into `acc`.
pub open spec fn parse_digits(s: Seq<char>, acc: nat) -> (nat, Seq<char>)
    decreases s.len(),
{
    if s.len() == 0 || !is_dec_digit(s[0]) {
        (acc, s)
    } else {
        parse_digits(s.skip(1), acc * 10 + dec_digit_val(s[0]))
    }
}

/// Read one payload value: a string literal or a number.
pub open spec fn parse_value(s: Seq<char>) -> Option<(JsonValueModel, Seq<char>)> {
    if s.len() == 0 {
        None
    } else if s[0] == '"' {
        match parse_string_body(s.skip(1)) {
            Some((t, r)) => Some((JsonValueModel::S(t), r)),
            None => None,
        }
    } else if is_dec_digit(s[0]) {
        let (n, r) = parse_digits(s, 0);
        Some((JsonValueModel::N(n), r))
    } else {
        None
    }
}

/// A successful string parse consumes at least the closing quote.
proof fn lemma_parse_string_body_shrinks(s: Seq<char>)
    ensures
        parse_string_body(s) matches Some(p) ==> p.1.len() < s.len(),
    decreases s.len(),
{
    if s.len() == 0 {
    } else if s[0] == '"' {
    } else if s[0] == '\\' {
        if s.len() >= 2 && (s[1] == '"' || s[1] == '\\') {
            lemma_parse_string_body_shrinks(s.skip(2));
        } else if s.len() >= 6 && s[1] == 'u' && s[2] == '0' && s[3] == '0' && is_hex_lower(s[4])
            && is_hex_lower(s[5]) && hex_val(s[4]) * 16 + hex_val(s[5]) < 32 {
            lemma_parse_string_body_shrinks(s.skip(6));
        }
    } else {
        lemma_parse_string_body_shrinks(s.skip(1));
    }
}

/// Digit parsing never grows the input, and consumes at least one digit
/// when one is there.
proof fn lemma_parse_digits_shrinks(s: Seq<char>, acc: nat)
    ensures
        parse_digits(s, acc).1.len() <= s.len(),
        s.len() > 0 && is_dec_digit(s[0]) ==> parse_digits(s, acc).1.len() < s.len(),
    decreases s.len(),
{
    if s.len() == 0 || !is_dec_digit(s[0]) {
    } else {
        lemma_parse_digits_shrinks(s.skip(1), acc * 10 + dec_digit_val(s[0]));
    }
}

/// A successful value parse consumes at least one character.
proof fn lemma_parse_value_shrinks(s: Seq<char>)
    ensures
        parse_value(s) matches Some(p) ==> p.1.len() < s.len(),
{
    if s.len() == 0 {
    } else if s[0] == '"' {
        lemma_parse_string_body_shrinks(s.skip(1));
    } else if is_dec_digit(s[0]) {
        lemma_parse_digits_shrinks(s, 0);
    }
}

/// Read `"key":value` pairs separated by commas, up to and including the
/// closing brace of the object.
pub open spec fn parse_pairs(s: Seq<char>) -> Option<
    (Seq<(Seq<char>, JsonValueModel)>, Seq<char>),
>
    decreases s.len(),
    via parse_pairs_dec
{
    if s.len() == 0 || s[0] != '"' {
        None
    } else {
        match parse_string_body(s.skip(1)) {
            None => None,
            Some((key, r1)) => {
                if r1.len() == 0 || r1[0] != ':' {
                    None
                } else {
                    match parse_value(r1.skip(1)) {
                        None => None,
                        Some((v, r2)) => {
                            if r2.len() == 0 {
                                None
                            } else if r2[0] == '}' {
                                Some((seq![(key, v)], r2.skip(1)))
                            } else if r2[0] == ',' {
                                match parse_pairs(r2.skip(1)) {
                                    Some((ps, r3)) => Some((seq![(key, v)] + ps, r3)),
                                    None => None,
                                }
                            } else {
                                None
                            }
                        },
                    }
                }
            },
        }
    }
}

#[via_fn]
proof fn parse_pairs_dec(s: Seq<char>) {
    if s.len() > 0 && s[0] == '"' {
        lemma_parse_string_body_shrinks(s.skip(1));
        if let Some((key, r1)) = parse_string_body(s.skip(1)) {
            if r1.len() > 0 && r1[0] == ':' {
                lemma_parse_value_shrinks(r1.skip(1));
            }
        }
    }
}

/// Decode a whole JSON object into its sequence of pairs.
pub open spec fn decode_object(s: Seq<char>) -> Option<Seq<(Seq<char>, JsonValueModel)>> {
    if s.len() >= 2 && s[0] == '{' {
        if s.len() == 2 && s[1] == '}' {
            Some(Seq::empty())
        } else {
            match parse_pairs(s.skip(1)) {
                Some((ps, r)) => if r.len() == 0 {
                    Some(ps)
                } else {
                    None
                },
                None => None,
            }
        }
    } else {
        None
    }
}

// ---------------------------------------------------------------------------
// Round trip: decoding inverts encoding
// ---------------------------------------------------------------------------
/// The hexadecimal digit characters decode back to their values.
proof fn lemma_hex_digit_round_trip(k: nat)
    requires
        k < 16,
    ensures
        is_hex_lower(hex_digit_char(k)),
        hex_val(hex_digit_char(k)) == k,
{
}

/// Parsing a quoted, escaped text recovers the text and leaves the rest.
pub proof fn lemma_string_round_trip(s: Seq<char>, rest: Seq<char>)
    ensures
        parse_string_body(escape_text(s) + seq!['"'] + rest) == Some((s, rest)),
    decreases s.len(),
{
    if s.len() == 0 {
        assert(escape_text(s) + seq!['"'] + rest =~= seq!['"'] + rest);
        assert((seq!['"'] + rest)[0] == '"');
        assert((seq!['"'] + rest).skip(1) =~= rest);
    } else {
        let c = s[0];
        let tail = s.skip(1);
        lemma_string_round_trip(tail, rest);
        let inner = escape_text(tail) + seq!['"'] + rest;
        let total = escape_text(s) + seq!['"'] + rest;
        assert(escape_text(s) == escape_char(c) + escape_text(tail));
        assert(total =~= escape_char(c) + inner);
        if c == '"' {
            assert(total =~= seq!['\\', '"'] + inner);
            assert(total[0] == '\\' && total[1] == '"');
            assert(total.skip(2) =~= inner);
            assert(seq![c] + tail =~= s);
        } else if c == '\\' {
            assert(total =~= seq!['\\', '\\'] + inner);
            assert(total[0] == '\\' && total[1] == '\\');
            assert(total.skip(2) =~= inner);
            assert(seq![c] + tail =~= s);
        } else if (c as u32) < 32 {
            let hi = (c as u32 / 16) as nat;
            let lo = (c as u32 % 16) as nat;
            lemma_hex_digit_round_trip(hi);
            lemma_hex_digit_round_trip(lo);
            assert(total =~= seq!['\\', 'u', '0', '0', hex_digit_char(hi), hex_digit_char(lo)]
                + inner);
            assert(total[0] == '\\' && total[1] == 'u' && total[2] == '0' && total[3] == '0');
            assert(total[4] == hex_digit_char(hi) && total[5] == hex_digit_char(lo));
            assert(hex_val(total[4]) * 16 + hex_val(total[5]) == c as u32);
            assert(total.skip(6) =~= inner);
            vstd::utf8::char_u32_cast(c, c as u32);
            assert(((hex_val(total[4]) * 16 + hex_val(total[5])) as u32) as char == c);
            assert(seq![c] + tail =~= s);
        } else {
            assert(total[0] == c);
            assert(total.skip(1) =~= inner);
            assert(seq![c] + tail =~= s);
        }
    }
}

/// Folding the parsed digits of `n` onto `acc` shifts `acc` past them.
pub open spec fn digits_fold(acc: nat, n: nat) -> nat
    decreases n,
{
    if n < 10 {
        acc * 10 + n
    } else {
        digits_fold(acc, n / 10) * 10 + n % 10
    }
}

/// Parsing the decimal digits of `n` folds them onto the accumulator and
/// goes on with the rest of the input.
proof fn lemma_digits_parse_gen(n: nat, acc: nat, rest: Seq<char>)
    ensures
        parse_digits(dec_digits(n) + rest, acc) == parse_digits(rest, digits_fold(acc, n)),
    decreases n,
{
    if n < 10 {
        let d = dec_digit_char(n);
        assert(is_dec_digit(d) && dec_digit_val(d) == n);
        assert(dec_digits(n) + rest =~= seq![d] + rest);
        assert((seq![d] + rest)[0] == d);
        assert((seq![d] + rest).skip(1) =~= rest);
    } else {
        let d = dec_digit_char(n % 10);
        assert(is_dec_digit(d) && dec_digit_val(d) == n % 10);
        assert(dec_digits(n) =~= dec_digits(n / 10) + seq![d]);
        assert(dec_digits(n) + rest =~= dec_digits(n / 10) + (seq![d] + rest));
        assert((seq![d] + rest)[0] == d);
        lemma_digits_parse_gen(n / 10, acc, seq![d] + rest);
        assert(parse_digits(dec_digits(n) + rest, acc) == parse_digits(
            seq![d] + rest,
            digits_fold(acc, n / 10),
        ));
        assert((seq![d] + rest).skip(1) =~= rest);
    }
}

/// Folding onto a zero accumulator gives the number itself.
proof fn lemma_digits_fold_zero(n: nat)
    ensures
        digits_fold(0, n) == n,
    decreases n,
{
    if n < 10 {
    } else {
        lemma_digits_fold_zero(n / 10);
    }
}

/// Parsing the decimal digits of `n` recovers `n` and leaves the rest.
pub proof fn lemma_number_round_trip(n: nat, rest: Seq<char>)
    requires
        rest.len() == 0 || !is_dec_digit(rest[0]),
    ensures
        parse_digits(dec_digits(n) + rest, 0) == (n, rest),
{
    lemma_digits_parse_gen(n, 0, rest);
    lemma_digits_fold_zero(n);
    assert(parse_digits(rest, n) == (n, rest));
}

/// The first character of an encoded value, and hence whether value parsing
/// takes the string or the number branch, is determined by the value.
proof fn lemma_value_round_trip(v: JsonValueModel, rest: Seq<char>)
    requires
        rest.len() == 0 || !is_dec_digit(rest[0]),
    ensures
        parse_value(value_json(v) + rest) == Some((v, rest)),
{
    match v {
        JsonValueModel::S(t) => {
            let total = value_json(v) + rest;
            assert(quoted(t) =~= seq!['"'] + (escape_text(t) + seq!['"']));
            assert(total =~= seq!['"'] + (escape_text(t) + seq!['"'] + rest));
            assert(total[0] == '"');
            assert(total.skip(1) =~= escape_text(t) + seq!['"'] + rest);
            lemma_string_round_trip(t, rest);
        },
        JsonValueModel::N(n) => {
            let total = value_json(v) + rest;
            assert(dec_digits(n).len() > 0);
            assert(total[0] == dec_digits(n)[0]);
            assert(is_dec_digit(dec_digits(n)[0])) by {
                lemma_first_digit_is_digit(n);
            }
            assert(total[0] != '"') by {
                lemma_first_digit_is_digit(n);
            }
            lemma_number_round_trip(n, rest);
        },
    }
}

/// The leading character of a decimal rendering is a digit.
proof fn lemma_first_digit_is_digit(n: nat)
    ensures
        dec_digits(n).len() > 0,
        is_dec_digit(dec_digits(n)[0]),
        dec_digits(n)[0] != '"',
    decreases n,
{
    if n < 10 {
    } else {
        lemma_first_digit_is_digit(n / 10);
    }
}

/// Parsing the pairs of an encoded object (with its closing brace) recovers
/// the pairs in order and leaves the rest.
#[verifier::rlimit(60)]
pub proof fn lemma_pairs_round_trip(ps: Seq<(Seq<char>, JsonValueModel)>, rest: Seq<char>)
    requires
        ps.len() > 0,
    ensures
        parse_pairs(pairs_json(ps) + seq!['}'] + rest) == Some((ps, rest)),
    decreases ps.len(),
{
    let key = ps[0].0;
    let v = ps[0].1;
    let total = pairs_json(ps) + seq!['}'] + rest;
    if ps.len() == 1 {
        let after_key = seq![':'] + value_json(v) + seq!['}'] + rest;
        assert(quoted(key) =~= seq!['"'] + (escape_text(key) + seq!['"']));
        assert(total =~= seq!['"'] + (escape_text(key) + seq!['"'] + after_key));
        assert(total[0] == '"');
        assert(total.skip(1) =~= escape_text(key) + seq!['"'] + after_key);
        lemma_string_round_trip(key, after_key);
        assert(after_key[0] == ':');
        assert(after_key.skip(1) =~= value_json(v) + (seq!['}'] + rest));
        lemma_value_round_trip(v, seq!['}'] + rest);
        assert((seq!['}'] + rest)[0] == '}');
        assert((seq!['}'] + rest).skip(1) =~= rest);
        assert(seq![(key, v)] =~= ps);
    } else {
        lemma_pairs_round_trip(ps.skip(1), rest);
        let inner = pairs_json(ps.skip(1)) + seq!['}'] + rest;
        let after_key = seq![':'] + value_json(v) + seq![','] + inner;
        assert(pairs_json(ps) == quoted(key) + seq![':'] + value_json(v) + seq![','] + pairs_json(
            ps.skip(1),
        ));
        assert(quoted(key) =~= seq!['"'] + (escape_text(key) + seq!['"']));
        assert(total =~= seq!['"'] + (escape_text(key) + seq!['"'] + after_key));
        assert(total[0] == '"');
        assert(total.skip(1) =~= escape_text(key) + seq!['"'] + after_key);
        lemma_string_round_trip(key, after_key);
        assert(after_key[0] == ':');
        assert(after_key.skip(1) =~= value_json(v) + (seq![','] + inner));
        lemma_value_round_trip(v, seq![','] + inner);
        assert((seq![','] + inner)[0] == ',');
        assert((seq![','] + inner).skip(1) =~= inner);
        assert(seq![(key, v)] + ps.skip(1) =~= ps);
    }
}

/// Decoding inverts encoding for every payload object: the keys and values
/// come back unchanged and in order.
pub proof fn lemma_object_round_trip(ps: Seq<(Seq<char>, JsonValueModel)>)
    ensures
        decode_object(object_json(ps)) == Some(ps),
{
    let s = object_json(ps);
    if ps.len() == 0 {
        assert(pairs_json(ps) =~= Seq::<char>::empty());
        assert(s =~= seq!['{', '}']);
        assert(s.len() == 2 && s[0] == '{' && s[1] == '}');
    } else {
        lemma_pairs_round_trip(ps, Seq::empty());
        assert(quoted(ps[0].0)[0] == '"');
        assert(pairs_json(ps)[0] == '"');
        assert(s[0] == '{');
        assert(s[1] == '"');
        assert(s.skip(1) =~= pairs_json(ps) + seq!['}'] + Seq::<char>::empty());
        assert(!(s.len() == 2 && s[1] == '}'));
    }
}

// ---------------------------------------------------------------------------
// Executable decoding helpers
// ---------------------------------------------------------------------------
/// The characters of a string slice, as a vector.
pub fn chars_of(s: &str) -> (r: Vec<char>)
    ensures
        r@ == s@,
{
    let n = s.unicode_len();
    let mut r: Vec<char> = Vec::new();
    let mut i: usize = 0;
    while i < n
        invariant
            n == s@.len(),
            i <= n,
            r@ == s@.take(i as int),
        decreases n - i,
    {
        r.push(s.get_char(i));
        proof {
            assert(r@ =~= s@.take(i + 1));
        }
        i = i + 1;
    }
    proof {
        assert(s@.take(n as int) =~= s@);
    }
    r
}

/// Whether two string slices hold the same characters.
pub fn str_eq(a: &str, b: &str) -> (r: bool)
    ensures
        r == (a@ == b@),
{
    let n = a.unicode_len();
    if n != b.unicode_len() {
        proof {
            assert(a@.len() != b@.len());
        }
        return false;
    }
    let mut i: usize = 0;
    while i < n
        invariant
            n == a@.len() == b@.len(),
            i <= n,
            forall|j: int| 0 <= j < i ==> a@[j] == b@[j],
        decreases n - i,
    {
        if a.get_char(i) != b.get_char(i) {
            return false;
        }
        i = i + 1;
    }
    proof {
        assert(a@ =~= b@);
    }
    true
}

/// Read a JSON string body off `cs` from `pos`, the opening quote already
/// consumed: the unescaped content and the position after the closing
/// quote, exactly as the specification parser reads it.
pub fn scan_string_body(cs: &Vec<char>, pos: usize) -> (r: Option<(String, usize)>)
    requires
        pos <= cs@.len(),
    ensures
        (parse_string_body(cs@.skip(pos as int)) is Some) == (r is Some),
        r matches Some(p) ==> {
            &&& pos <= p.1 <= cs@.len()
            &&& parse_string_body(cs@.skip(pos as int)) matches Some(q) && p.0@ == q.0
                && cs@.skip(p.1 as int) == q.1
        },
{
    let mut out = String::new();
    let mut i: usize = pos;
    while i < cs.len()
        invariant
            pos <= i <= cs@.len(),
            (match parse_string_body(cs@.skip(i as int)) {
                Some(q) => parse_string_body(cs@.skip(pos as int)) == Some(
                    ((out@ + q.0), q.1),
                ),
                None => parse_string_body(cs@.skip(pos as int)) is None,
            }),
        decreases cs@.len() - i,
    {
        let c = cs[i];
        proof {
            assert(cs@.skip(i as int)[0] == cs@[i as int]);
        }
        if c == '"' {
            proof {
                assert(cs@.skip(i as int).skip(1) =~= cs@.skip(i + 1));
                assert(parse_string_body(cs@.skip(i as int)) == Some(
                    (Seq::<char>::empty(), cs@.skip(i + 1)),
                ));
                assert(out@ + Seq::<char>::empty() =~= out@);
            }
            return Some((out, i + 1));
        }
        if c == '\\' {
            if cs.len() - i < 2 {
                proof {
                    assert(cs@.skip(i as int).len() == 1);
                    assert(parse_string_body(cs@.skip(i as int)) is None);
                }
                return None;
            }
            let e = cs[i + 1];
            proof {
                assert(cs@.skip(i as int)[1] == cs@[i + 1]);
            }
            if e == '"' || e == '\\' {
                let ghost out0 = out@;
                push_char(&mut out, e);
                proof {
                    assert(cs@.skip(i as int).skip(2) =~= cs@.skip(i + 2));
                    if let Some(q) = parse_string_body(cs@.skip(i + 2)) {
                        assert(parse_string_body(cs@.skip(i as int)) == Some(
                            ((seq![e] + q.0), q.1),
                        ));
                        assert(out0.push(e) + q.0 =~= out0 + (seq![e] + q.0));
                    }
                }
                i = i + 2;
            } else if e == 'u' {
                if cs.len() - i < 6 {
                    proof {
                        assert(cs@.skip(i as int).len() < 6);
                        assert(parse_string_body(cs@.skip(i as int)) is None);
                    }
                    return None;
                }
                let z1 = cs[i + 2];
                let z2 = cs[i + 3];
                let h1 = cs[i + 4];
                let h0 = cs[i + 5];
                proof {
                    assert(cs@.skip(i as int)[2] == cs@[i + 2]);
                    assert(cs@.skip(i as int)[3] == cs@[i + 3]);
                    assert(cs@.skip(i as int)[4] == cs@[i + 4]);
                    assert(cs@.skip(i as int)[5] == cs@[i + 5]);
                }
                if z1 != '0' || z2 != '0' || !hex_lower(h1) || !hex_lower(h0) {
                    proof {
                        assert(parse_string_body(cs@.skip(i as int)) is None);
                    }
                    return None;
                }
                let code: u32 = hex_value(h1) * 16 + hex_value(h0);
                if code >= 32 {
                    proof {
                        assert(parse_string_body(cs@.skip(i as int)) is None);
                    }
                    return None;
                }
                let decoded = (code as u8) as char;
                let ghost out0 = out@;
                push_char(&mut out, decoded);
                proof {
                    assert(decoded as u32 == code);
                    vstd::utf8::char_u32_cast(decoded, code);
                    assert((code as u32) as char == decoded);
                    assert(cs@.skip(i as int).skip(6) =~= cs@.skip(i + 6));
                    if let Some(q) = parse_string_body(cs@.skip(i + 6)) {
                        assert(parse_string_body(cs@.skip(i as int)) == Some(
                            ((seq![decoded] + q.0), q.1),
                        ));
                        assert(out0.push(decoded) + q.0 =~= out0 + (seq![decoded] + q.0));
                    }
                }
                i = i + 6;
            } else {
                proof {
                    assert(parse_string_body(cs@.skip(i as int)) is None);
                }
                return None;
            }
        } else {
            let ghost out0 = out@;
            push_char(&mut out, c);
            proof {
                assert(cs@.skip(i as int).skip(1) =~= cs@.skip(i + 1));
                if let Some(q) = parse_string_body(cs@.skip(i + 1)) {
                    assert(parse_string_body(cs@.skip(i as int)) == Some(
                        ((seq![c] + q.0), q.1),
                    ));
                    assert(out0.push(c) + q.0 =~= out0 + (seq![c] + q.0));
                }
            }
            i = i + 1;
        }
    }
    proof {
        assert(cs@.skip(i as int).len() == 0);
        assert(parse_string_body(cs@.skip(i as int)) is None);
    }
    None
}

/// Whether a character is a lowercase hexadecimal digit.
fn hex_lower(c: char) -> (r: bool)
    ensures
        r == is_hex_lower(c),
{
    let code = c as u32;
    (48 <= code && code <= 57) || (97 <= code && code <= 102)
}

/// The value of a lowercase hexadecimal digit.
fn hex_value(c: char) -> (r: u32)
    requires
        is_hex_lower(c),
    ensures
        r == hex_val(c),
        r < 16,
{
    let code = c as u32;
    if code <= 57 {
        code - 48
    } else {
        code - 87
    }
}

} // verus!
