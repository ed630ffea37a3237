//! Decoder for incoming (and, for round-trip checks, outgoing) wire frames.
//!
//! An inbound frame is a JSON object envelope: fields in any order, with
//! whitespace, unknown fields tolerated. A frame whose `type` field names
//! one of the four tagged shapes is that shape; any other envelope is tried
//! as the untagged update shape; everything else is `MalformedEvent`.
//! `spec_decode` is the reference meaning; the executable decoder is proved
//! to return exactly it. The outbound readback (`decode_command`) reads the
//! canonical frames this client's own encoder emits.

use vstd::prelude::*;

use crate::codec::{escape, escape_char, push_char, CommandV, EventV, Incoming, Outgoing, UpdateV,
    WallpaperUpdate};
use crate::json::{field_of, inners_view, leaf_of, parse_top_fields, parse_top_fields_x, skip_ws,
    skip_ws_entry, tops_view, Field, FieldV, InnerEntry, Leaf, LeafV, TopEntry};

verus! {

/// An inbound frame that is not valid wire text for any known event shape.
#[derive(Clone, Copy, Debug, PartialEq, Eq, Structural)]
pub enum ProtocolError {
    MalformedEvent,
}

/// The remainder of `s` after the exact prefix `lit`, if `lit` is a prefix.
pub open spec fn spec_expect(s: Seq<char>, lit: Seq<char>) -> Option<Seq<char>> {
    if lit.len() <= s.len() && s.subrange(0, lit.len() as int) == lit {
        Option::Some(s.skip(lit.len() as int))
    } else {
        Option::None
    }
}

/// The character a JSON escape sequence `\c` stands for, if `c` is a
/// recognized escape.
pub open spec fn unescape_char(c: char) -> Option<char> {
    if c == '"' {
        Option::Some('"')
    } else if c == '\\' {
        Option::Some('\\')
    } else if c == '/' {
        Option::Some('/')
    } else if c == 'n' {
        Option::Some('\n')
    } else if c == 't' {
        Option::Some('\t')
    } else if c == 'r' {
        Option::Some('\r')
    } else if c == 'b' {
        Option::Some('\u{8}')
    } else if c == 'f' {
        Option::Some('\u{c}')
    } else {
        Option::None
    }
}

/// The value of a hexadecimal digit character, either case.
pub open spec fn hex_val(c: char) -> Option<u32> {
    if is_digit(c) {
        Option::Some(digit_val(c) as u32)
    } else if c == 'a' || c == 'A' {
        Option::Some(10)
    } else if c == 'b' || c == 'B' {
        Option::Some(11)
    } else if c == 'c' || c == 'C' {
        Option::Some(12)
    } else if c == 'd' || c == 'D' {
        Option::Some(13)
    } else if c == 'e' || c == 'E' {
        Option::Some(14)
    } else if c == 'f' || c == 'F' {
        Option::Some(15)
    } else {
        Option::None
    }
}

/// Parses the rest of a JSON string (the opening quote already consumed):
/// the decoded content and the remainder after the closing quote. Raw
/// control characters are refused; `\uXXXX` escapes are understood for
/// code points below 128.
pub open spec fn parse_string_rest(s: Seq<char>) -> Option<(Seq<char>, Seq<char>)>
    decreases s.len(),
{
    if s.len() == 0 {
        Option::None
    } else if s[0] == '"' {
        Option::Some((Seq::empty(), s.skip(1)))
    } else if s[0] == '\\' {
        if s.len() >= 2 && s[1] == 'u' {
            if s.len() >= 6 {
                match (hex_val(s[2]), hex_val(s[3]), hex_val(s[4]), hex_val(s[5])) {
                    (Option::Some(a), Option::Some(b), Option::Some(h), Option::Some(l)) => {
                        let v = a * 4096 + b * 256 + h * 16 + l;
                        if v < 128 {
                            match parse_string_rest(s.skip(6)) {
                                Option::Some(p) => Option::Some(
                                    (seq![((v as u8) as char)] + p.0, p.1),
                                ),
                                Option::None => Option::None,
                            }
                        } else {
                            Option::None
                        }
                    },
                    _ => Option::None,
                }
            } else {
                Option::None
            }
        } else if s.len() >= 2 {
            match unescape_char(s[1]) {
                Option::Some(c) => match parse_string_rest(s.skip(2)) {
                    Option::Some(p) => Option::Some((seq![c] + p.0, p.1)),
                    Option::None => Option::None,
                },
                Option::None => Option::None,
            }
        } else {
            Option::None
        }
    } else if (s[0] as u32) >= 32 {
        match parse_string_rest(s.skip(1)) {
            Option::Some(p) => Option::Some((seq![s[0]] + p.0, p.1)),
            Option::None => Option::None,
        }
    } else {
        Option::None
    }
}

/// Whether `c` is a decimal digit.
pub open spec fn is_digit(c: char) -> bool {
    c == '0' || c == '1' || c == '2' || c == '3' || c == '4' || c == '5' || c == '6' || c == '7'
        || c == '8' || c == '9'
}

/// The value of a decimal digit character.
pub open spec fn digit_val(c: char) -> nat {
    if c == '0' {
        0
    } else if c == '1' {
        1
    } else if c == '2' {
        2
    } else if c == '3' {
        3
    } else if c == '4' {
        4
    } else if c == '5' {
        5
    } else if c == '6' {
        6
    } else if c == '7' {
        7
    } else if c == '8' {
        8
    } else {
        9
    }
}

/// Consumes the longest run of digits, folding them into `acc`; fails only
/// when the value leaves `u64`.
pub open spec fn parse_nat_from(s: Seq<char>, acc: u64) -> Option<(u64, Seq<char>)>
    decreases s.len(),
{
    if s.len() > 0 && is_digit(s[0]) {
        if acc * 10 + digit_val(s[0]) <= u64::MAX {
            parse_nat_from(s.skip(1), (acc * 10 + digit_val(s[0])) as u64)
        } else {
            Option::None
        }
    } else {
        Option::Some((acc, s))
    }
}

/// Parses a decimal number: at least one digit, value within `u64`.
pub open spec fn parse_nat(s: Seq<char>) -> Option<(u64, Seq<char>)> {
    if s.len() > 0 && is_digit(s[0]) {
        parse_nat_from(s, 0)
    } else {
        Option::None
    }
}

/// Checks the exact prefix `lit` and returns the suffix after it.
pub(crate) fn expect_lit<'a>(s: &'a str, lit: &str) -> (r: Option<&'a str>)
    ensures
        r is Some <==> spec_expect(s@, lit@) is Some,
        r matches Some(rem) ==> spec_expect(s@, lit@) == Option::Some(rem@),
{
    let n = s.unicode_len();
    let m = lit.unicode_len();
    if m > n {
        return Option::None;
    }
    let mut k: usize = 0;
    while k < m
        invariant
            n == s@.len(),
            m == lit@.len(),
            m <= n,
            k <= m,
            s@.subrange(0, k as int) == lit@.subrange(0, k as int),
        decreases m - k,
    {
        if s.get_char(k) != lit.get_char(k) {
            proof {
                if spec_expect(s@, lit@) is Some {
                    assert(s@.subrange(0, m as int)[k as int] == s@[k as int]);
                    assert(lit@[k as int] == s@[k as int]);
                }
            }
            return Option::None;
        }
        proof {
            assert(s@.subrange(0, k + 1) =~= lit@.subrange(0, k + 1)) by {
                assert(forall|j: int|
                    0 <= j < k ==> s@.subrange(0, k + 1)[j] == #[trigger] s@.subrange(
                        0,
                        k as int,
                    )[j]);
                assert(forall|j: int|
                    0 <= j < k ==> lit@.subrange(0, k + 1)[j] == #[trigger] lit@.subrange(
                        0,
                        k as int,
                    )[j]);
            }
        }
        k = k + 1;
    }
    proof {
        assert(lit@.subrange(0, m as int) =~= lit@);
    }
    Option::Some(s.substring_char(m, n))
}

/// The decoded character for an escape, as executable code.
fn unescape_char_x(c: char) -> (r: Option<char>)
    ensures
        r == unescape_char(c),
{
    if c == '"' {
        Option::Some('"')
    } else if c == '\\' {
        Option::Some('\\')
    } else if c == '/' {
        Option::Some('/')
    } else if c == 'n' {
        Option::Some('\n')
    } else if c == 't' {
        Option::Some('\t')
    } else if c == 'r' {
        Option::Some('\r')
    } else if c == 'b' {
        Option::Some('\u{8}')
    } else if c == 'f' {
        Option::Some('\u{c}')
    } else {
        Option::None
    }
}

/// The value of a hexadecimal digit character, as executable code.
fn hex_val_x(c: char) -> (r: Option<u32>)
    ensures
        r == hex_val(c),
        r matches Some(v) ==> v < 16,
{
    match digit_val_x(c) {
        Option::Some(d) => Option::Some(d as u32),
        Option::None => {
            if c == 'a' || c == 'A' {
                Option::Some(10)
            } else if c == 'b' || c == 'B' {
                Option::Some(11)
            } else if c == 'c' || c == 'C' {
                Option::Some(12)
            } else if c == 'd' || c == 'D' {
                Option::Some(13)
            } else if c == 'e' || c == 'E' {
                Option::Some(14)
            } else if c == 'f' || c == 'F' {
                Option::Some(15)
            } else {
                Option::None
            }
        },
    }
}

/// Parses the rest of a JSON string, as executable code.
pub(crate) fn parse_string_rest_x<'a>(s: &'a str) -> (r: Option<(String, &'a str)>)
    ensures
        r is Some <==> parse_string_rest(s@) is Some,
        r matches Some(p) ==> parse_string_rest(s@) == Option::Some((p.0@, p.1@)),
    decreases s@.len(),
{
    let n = s.unicode_len();
    if n == 0 {
        return Option::None;
    }
    let c = s.get_char(0);
    if c == '"' {
        let rem = s.substring_char(1, n);
        proof {
            assert(rem@ =~= s@.skip(1));
        }
        Option::Some((String::new(), rem))
    } else if c == '\\' {
        if n >= 2 && s.get_char(1) == 'u' {
            if n >= 6 {
                let ha = hex_val_x(s.get_char(2));
                let hb = hex_val_x(s.get_char(3));
                let hh = hex_val_x(s.get_char(4));
                let hl = hex_val_x(s.get_char(5));
                match (ha, hb, hh, hl) {
                    (
                        Option::Some(a),
                        Option::Some(b),
                        Option::Some(h),
                        Option::Some(l),
                    ) => {
                        let v = a * 4096 + b * 256 + h * 16 + l;
                        if v < 128 {
                            let u = (v as u8) as char;
                            let tail = s.substring_char(6, n);
                            proof {
                                assert(tail@ =~= s@.skip(6));
                            }
                            match parse_string_rest_x(tail) {
                                Option::Some(p) => {
                                    let mut out = String::new();
                                    push_char(&mut out, u);
                                    out.append(p.0.as_str());
                                    proof {
                                        assert(out@ =~= seq![u] + p.0@);
                                    }
                                    Option::Some((out, p.1))
                                },
                                Option::None => Option::None,
                            }
                        } else {
                            Option::None
                        }
                    },
                    _ => Option::None,
                }
            } else {
                Option::None
            }
        } else if n >= 2 {
            match unescape_char_x(s.get_char(1)) {
                Option::Some(u) => {
                    let tail = s.substring_char(2, n);
                    proof {
                        assert(tail@ =~= s@.skip(2));
                    }
                    match parse_string_rest_x(tail) {
                        Option::Some(p) => {
                            let mut out = String::new();
                            push_char(&mut out, u);
                            out.append(p.0.as_str());
                            proof {
                                assert(out@ =~= seq![u] + p.0@);
                            }
                            Option::Some((out, p.1))
                        },
                        Option::None => Option::None,
                    }
                },
                Option::None => Option::None,
            }
        } else {
            Option::None
        }
    } else if (c as u32) >= 32 {
        let tail = s.substring_char(1, n);
        proof {
            assert(tail@ =~= s@.skip(1));
        }
        match parse_string_rest_x(tail) {
            Option::Some(p) => {
                let mut out = String::new();
                push_char(&mut out, c);
                out.append(p.0.as_str());
                proof {
                    assert(out@ =~= seq![c] + p.0@);
                }
                Option::Some((out, p.1))
            },
            Option::None => Option::None,
        }
    } else {
        Option::None
    }
}

/// The value of a digit character, as executable code.
pub(crate) fn digit_val_x(c: char) -> (r: Option<u64>)
    ensures
        r is Some <==> is_digit(c),
        r matches Some(d) ==> d == digit_val(c) && d < 10,
{
    if c == '0' {
        Option::Some(0)
    } else if c == '1' {
        Option::Some(1)
    } else if c == '2' {
        Option::Some(2)
    } else if c == '3' {
        Option::Some(3)
    } else if c == '4' {
        Option::Some(4)
    } else if c == '5' {
        Option::Some(5)
    } else if c == '6' {
        Option::Some(6)
    } else if c == '7' {
        Option::Some(7)
    } else if c == '8' {
        Option::Some(8)
    } else if c == '9' {
        Option::Some(9)
    } else {
        Option::None
    }
}

/// Folds digits into `acc`, as executable code.
fn parse_nat_from_x<'a>(s: &'a str, acc: u64) -> (r: Option<(u64, &'a str)>)
    ensures
        r is Some <==> parse_nat_from(s@, acc) is Some,
        r matches Some(p) ==> parse_nat_from(s@, acc) == Option::Some((p.0, p.1@)),
    decreases s@.len(),
{
    let n = s.unicode_len();
    if n == 0 {
        return Option::Some((acc, s));
    }
    match digit_val_x(s.get_char(0)) {
        Option::None => Option::Some((acc, s)),
        Option::Some(d) => {
            match acc.checked_mul(10) {
                Option::Some(m) => match m.checked_add(d) {
                    Option::Some(v) => {
                        let tail = s.substring_char(1, n);
                        proof {
                            assert(tail@ =~= s@.skip(1));
                        }
                        parse_nat_from_x(tail, v)
                    },
                    Option::None => Option::None,
                },
                Option::None => Option::None,
            }
        },
    }
}

/// Parses a decimal number, as executable code.
pub(crate) fn parse_nat_x<'a>(s: &'a str) -> (r: Option<(u64, &'a str)>)
    ensures
        r is Some <==> parse_nat(s@) is Some,
        r matches Some(p) ==> parse_nat(s@) == Option::Some((p.0, p.1@)),
{
    if s.unicode_len() == 0 {
        return Option::None;
    }
    if digit_val_x(s.get_char(0)).is_none() {
        return Option::None;
    }
    parse_nat_from_x(s, 0)
}

/// Meaning of an outbound frame read back as a command: the inverse
/// direction of the codec, used to state and check the round trip. The two
/// tagged shapes lead with `command`; the untagged check shape leads with
/// `data` and carries its `command` field last.
pub open spec fn spec_decode_command(s: Seq<char>) -> Option<CommandV> {
    match spec_expect(s, "{\"command\":\"subscribe\",\"identifier\":\""@) {
        Option::Some(rem) => match parse_string_rest(rem) {
            Option::Some(p) => match spec_expect(p.1, "}"@) {
                Option::Some(r2) => if r2.len() == 0 {
                    Option::Some(CommandV::Subscribe { identifier: p.0 })
                } else {
                    Option::None
                },
                Option::None => Option::None,
            },
            Option::None => Option::None,
        },
        Option::None => match spec_expect(s, "{\"command\":\"unsubscribe\",\"identifier\":\""@) {
            Option::Some(rem) => match parse_string_rest(rem) {
                Option::Some(p) => match spec_expect(p.1, "}"@) {
                    Option::Some(r2) => if r2.len() == 0 {
                        Option::Some(CommandV::Unsubscribe { identifier: p.0 })
                    } else {
                        Option::None
                    },
                    Option::None => Option::None,
                },
                Option::None => Option::None,
            },
            Option::None => match spec_expect(s, "{\"command\":\"message\",\"data\":\""@) {
                Option::Some(rem) => spec_decode_announce(rem),
                Option::None => match spec_expect(s, "{\"data\":\""@) {
                    Option::Some(rem) => spec_decode_check(rem),
                    Option::None => Option::None,
                },
            },
        },
    }
}

/// Meaning of an announce frame after its fixed prefix.
pub open spec fn spec_decode_announce(rem: Seq<char>) -> Option<CommandV> {
    match parse_string_rest(rem) {
        Option::Some(pd) => match spec_expect(pd.1, ",\"identifier\":\""@) {
            Option::Some(r2) => match parse_string_rest(r2) {
                Option::Some(pi) => match spec_expect(pi.1, "}"@) {
                    Option::Some(r3) => if r3.len() == 0 {
                        Option::Some(CommandV::Announce { data: pd.0, identifier: pi.0 })
                    } else {
                        Option::None
                    },
                    Option::None => Option::None,
                },
                Option::None => Option::None,
            },
            Option::None => Option::None,
        },
        Option::None => Option::None,
    }
}

/// Meaning of a check frame after its fixed prefix.
pub open spec fn spec_decode_check(rem: Seq<char>) -> Option<CommandV> {
    match parse_string_rest(rem) {
        Option::Some(pd) => match spec_expect(pd.1, ",\"identifier\":\""@) {
            Option::Some(r2) => match parse_string_rest(r2) {
                Option::Some(pi) => match spec_expect(pi.1, ",\"command\":\""@) {
                    Option::Some(r3) => match parse_string_rest(r3) {
                        Option::Some(pc) => match spec_expect(pc.1, "}"@) {
                            Option::Some(r4) => if r4.len() == 0 {
                                Option::Some(
                                    CommandV::Check {
                                        data: pd.0,
                                        identifier: pi.0,
                                        command: pc.0,
                                    },
                                )
                            } else {
                                Option::None
                            },
                            Option::None => Option::None,
                        },
                        Option::None => Option::None,
                    },
                    Option::None => Option::None,
                },
                Option::None => Option::None,
            },
            Option::None => Option::None,
        },
        Option::None => Option::None,
    }
}

/// Decodes an announce frame body, as executable code.
fn decode_announce(rem: &str) -> (r: Option<Outgoing>)
    ensures
        r is Some <==> spec_decode_announce(rem@) is Some,
        r matches Some(c) ==> spec_decode_announce(rem@) == Option::Some(c@),
{
    match parse_string_rest_x(rem) {
        Option::Some(pd) => match expect_lit(pd.1, ",\"identifier\":\"") {
            Option::Some(r2) => match parse_string_rest_x(r2) {
                Option::Some(pi) => match expect_lit(pi.1, "}") {
                    Option::Some(r3) => if r3.unicode_len() == 0 {
                        Option::Some(Outgoing::Announce { data: pd.0, identifier: pi.0 })
                    } else {
                        Option::None
                    },
                    Option::None => Option::None,
                },
                Option::None => Option::None,
            },
            Option::None => Option::None,
        },
        Option::None => Option::None,
    }
}

/// Decodes a check frame body, as executable code.
fn decode_check(rem: &str) -> (r: Option<Outgoing>)
    ensures
        r is Some <==> spec_decode_check(rem@) is Some,
        r matches Some(c) ==> spec_decode_check(rem@) == Option::Some(c@),
{
    match parse_string_rest_x(rem) {
        Option::Some(pd) => match expect_lit(pd.1, ",\"identifier\":\"") {
            Option::Some(r2) => match parse_string_rest_x(r2) {
                Option::Some(pi) => match expect_lit(pi.1, ",\"command\":\"") {
                    Option::Some(r3) => match parse_string_rest_x(r3) {
                        Option::Some(pc) => match expect_lit(pc.1, "}") {
                            Option::Some(r4) => if r4.unicode_len() == 0 {
                                Option::Some(
                                    Outgoing::Check {
                                        data: pd.0,
                                        identifier: pi.0,
                                        command: pc.0,
                                    },
                                )
                            } else {
                                Option::None
                            },
                            Option::None => Option::None,
                        },
                        Option::None => Option::None,
                    },
                    Option::None => Option::None,
                },
                Option::None => Option::None,
            },
            Option::None => Option::None,
        },
        Option::None => Option::None,
    }
}

/// Reads an outbound frame back into the command it encodes: the executable
/// inverse of `encode`, exact on everything `encode` produces.
pub fn decode_command(text: &str) -> (r: Result<Outgoing, ProtocolError>)
    ensures
        r is Ok <==> spec_decode_command(text@) is Some,
        r matches Ok(c) ==> spec_decode_command(text@) == Option::Some(c@),
        r matches Err(e) ==> e == ProtocolError::MalformedEvent,
{
    if let Option::Some(rem) = expect_lit(text, "{\"command\":\"subscribe\",\"identifier\":\"") {
        match parse_string_rest_x(rem) {
            Option::Some(p) => match expect_lit(p.1, "}") {
                Option::Some(r2) => if r2.unicode_len() == 0 {
                    Result::Ok(Outgoing::Subscribe { identifier: p.0 })
                } else {
                    Result::Err(ProtocolError::MalformedEvent)
                },
                Option::None => Result::Err(ProtocolError::MalformedEvent),
            },
            Option::None => Result::Err(ProtocolError::MalformedEvent),
        }
    } else if let Option::Some(rem) = expect_lit(
        text,
        "{\"command\":\"unsubscribe\",\"identifier\":\"",
    ) {
        match parse_string_rest_x(rem) {
            Option::Some(p) => match expect_lit(p.1, "}") {
                Option::Some(r2) => if r2.unicode_len() == 0 {
                    Result::Ok(Outgoing::Unsubscribe { identifier: p.0 })
                } else {
                    Result::Err(ProtocolError::MalformedEvent)
                },
                Option::None => Result::Err(ProtocolError::MalformedEvent),
            },
            Option::None => Result::Err(ProtocolError::MalformedEvent),
        }
    } else if let Option::Some(rem) = expect_lit(text, "{\"command\":\"message\",\"data\":\"") {
        match decode_announce(rem) {
            Option::Some(c) => Result::Ok(c),
            Option::None => Result::Err(ProtocolError::MalformedEvent),
        }
    } else if let Option::Some(rem) = expect_lit(text, "{\"data\":\"") {
        match decode_check(rem) {
            Option::Some(c) => Result::Ok(c),
            Option::None => Result::Err(ProtocolError::MalformedEvent),
        }
    } else {
        Result::Err(ProtocolError::MalformedEvent)
    }
}

/// What an optional-string field of the update payload means: absent or
/// `null` is no value, a string is a value, anything else does not fit.
pub open spec fn opt_str_leaf(l: Option<LeafV>) -> Option<Option<Seq<char>>> {
    match l {
        Option::None => Option::Some(Option::None),
        Option::Some(LeafV::Null) => Option::Some(Option::None),
        Option::Some(LeafV::Str(s)) => Option::Some(Option::Some(s)),
        _ => Option::None,
    }
}

/// The untagged update shape: an `identifier` string and a `message`
/// object with an `id` that fits `usize` and two optional strings; extra
/// fields anywhere are ignored.
pub open spec fn classify_update(fields: Seq<(Seq<char>, FieldV)>) -> Option<EventV> {
    match (field_of(fields, "identifier"@), field_of(fields, "message"@)) {
        (Option::Some(FieldV::Leaf(LeafV::Str(id))), Option::Some(FieldV::Obj(inner))) => {
            match leaf_of(inner, "id"@) {
                Option::Some(LeafV::Int(n)) => if n <= usize::MAX {
                    match (
                        opt_str_leaf(leaf_of(inner, "post_url"@)),
                        opt_str_leaf(leaf_of(inner, "set_by"@)),
                    ) {
                        (Option::Some(post), Option::Some(setb)) => Option::Some(
                            EventV::Message {
                                identifier: id,
                                message: UpdateV {
                                    id: n as usize,
                                    post_url: post,
                                    set_by: setb,
                                },
                            },
                        ),
                        _ => Option::None,
                    }
                } else {
                    Option::None
                },
                _ => Option::None,
            }
        },
        _ => Option::None,
    }
}

/// What an envelope's fields denote. A string `type` field naming one of
/// the four tagged shapes selects that shape, which must then supply its
/// fields; any other `type`, or none, falls back to the untagged update
/// shape. Unknown fields are ignored throughout.
pub open spec fn classify(fields: Seq<(Seq<char>, FieldV)>) -> Option<EventV> {
    match field_of(fields, "type"@) {
        Option::Some(FieldV::Leaf(LeafV::Str(t))) => {
            if t == "welcome"@ {
                Option::Some(EventV::Welcome)
            } else if t == "ping"@ {
                match field_of(fields, "message"@) {
                    Option::Some(FieldV::Leaf(LeafV::Int(n))) => Option::Some(
                        EventV::Ping { message: n },
                    ),
                    _ => Option::None,
                }
            } else if t == "confirm_subscription"@ {
                match field_of(fields, "identifier"@) {
                    Option::Some(FieldV::Leaf(LeafV::Str(id))) => Option::Some(
                        EventV::ConfirmSubscription { identifier: id },
                    ),
                    _ => Option::None,
                }
            } else if t == "disconnect"@ {
                match (field_of(fields, "reason"@), field_of(fields, "reconnect"@)) {
                    (
                        Option::Some(FieldV::Leaf(LeafV::Str(r))),
                        Option::Some(FieldV::Leaf(LeafV::Bool(b))),
                    ) => Option::Some(EventV::Disconnect { reason: r, reconnect: b }),
                    _ => Option::None,
                }
            } else {
                classify_update(fields)
            }
        },
        Option::Some(_) => classify_update(fields),
        Option::None => classify_update(fields),
    }
}

/// The canonical leaf for an optional string: `null` when absent.
pub open spec fn opt_leaf(o: Option<Seq<char>>) -> LeafV {
    match o {
        Option::None => LeafV::Null,
        Option::Some(s) => LeafV::Str(s),
    }
}

/// The canonical envelope fields of an incoming event: what the remote
/// side sends for it, as a field list, before ordering and whitespace.
pub open spec fn event_fields(ev: EventV) -> Seq<(Seq<char>, FieldV)> {
    match ev {
        EventV::Welcome => seq![("type"@, FieldV::Leaf(LeafV::Str("welcome"@)))],
        EventV::Ping { message } => seq![
            ("type"@, FieldV::Leaf(LeafV::Str("ping"@))),
            ("message"@, FieldV::Leaf(LeafV::Int(message))),
        ],
        EventV::ConfirmSubscription { identifier } => seq![
            ("type"@, FieldV::Leaf(LeafV::Str("confirm_subscription"@))),
            ("identifier"@, FieldV::Leaf(LeafV::Str(identifier))),
        ],
        EventV::Disconnect { reason, reconnect } => seq![
            ("type"@, FieldV::Leaf(LeafV::Str("disconnect"@))),
            ("reason"@, FieldV::Leaf(LeafV::Str(reason))),
            ("reconnect"@, FieldV::Leaf(LeafV::Bool(reconnect))),
        ],
        EventV::Message { identifier, message } => seq![
            ("identifier"@, FieldV::Leaf(LeafV::Str(identifier))),
            (
                "message"@,
                FieldV::Obj(
                    seq![
                        ("id"@, LeafV::Int(message.id as u64)),
                        ("post_url"@, opt_leaf(message.post_url)),
                        ("set_by"@, opt_leaf(message.set_by)),
                    ],
                ),
            ),
        ],
    }
}

/// The meaning of an inbound frame: a JSON object envelope — whitespace
/// and field order free, unknown fields validated and ignored — classified
/// into the event it denotes. Nothing for text that is not a single valid
/// JSON object or whose fields fit no event shape.
pub open spec fn spec_decode(s: Seq<char>) -> Option<EventV> {
    let s0 = skip_ws(s);
    if s0.len() > 0 && s0[0] == '{' {
        match parse_top_fields(s0.skip(1), s.len(), true) {
            Option::Some(p) => if skip_ws(p.1).len() == 0 {
                classify(p.0)
            } else {
                Option::None
            },
            Option::None => Option::None,
        }
    } else {
        Option::None
    }
}

/// Compares two string slices by content.
fn str_eq_x(a: &str, b: &str) -> (r: bool)
    ensures
        r == (a@ == b@),
{
    let n = a.unicode_len();
    let m = b.unicode_len();
    if n != m {
        proof {
            if a@ == b@ {
                assert(a@.len() == b@.len());
            }
        }
        return false;
    }
    let mut k: usize = 0;
    while k < n
        invariant
            n == a@.len(),
            m == b@.len(),
            n == m,
            k <= n,
            a@.subrange(0, k as int) == b@.subrange(0, k as int),
        decreases n - k,
    {
        if a.get_char(k) != b.get_char(k) {
            proof {
                if a@ == b@ {
                    assert(a@[k as int] == b@[k as int]);
                }
            }
            return false;
        }
        proof {
            assert(a@.subrange(0, k + 1) =~= b@.subrange(0, k + 1)) by {
                assert(forall|j: int|
                    0 <= j < k ==> a@.subrange(0, k + 1)[j] == #[trigger] a@.subrange(
                        0,
                        k as int,
                    )[j]);
                assert(forall|j: int|
                    0 <= j < k ==> b@.subrange(0, k + 1)[j] == #[trigger] b@.subrange(
                        0,
                        k as int,
                    )[j]);
            }
        }
        k = k + 1;
    }
    proof {
        assert(a@ =~= a@.subrange(0, n as int));
        assert(b@ =~= b@.subrange(0, n as int));
    }
    true
}

/// The first top-level field with the given key, as executable code.
fn find_field<'a>(fields: &'a Vec<TopEntry>, key: &str) -> (r: Option<&'a Field>)
    ensures
        r is Some <==> field_of(tops_view(fields@), key@) is Some,
        r matches Some(f) ==> field_of(tops_view(fields@), key@) == Option::Some(f@),
{
    let n = fields.len();
    let mut i: usize = 0;
    proof {
        assert(tops_view(fields@).skip(0) =~= tops_view(fields@));
    }
    while i < n
        invariant
            n == fields@.len(),
            i <= n,
            field_of(tops_view(fields@), key@) == field_of(
                tops_view(fields@).skip(i as int),
                key@,
            ),
        decreases n - i,
    {
        proof {
            assert(tops_view(fields@).skip(i as int)[0] == tops_view(fields@)[i as int]);
        }
        if str_eq_x(fields[i].key.as_str(), key) {
            return Option::Some(&fields[i].val);
        }
        proof {
            assert(tops_view(fields@).skip(i as int).skip(1) =~= tops_view(fields@).skip(i + 1));
        }
        i = i + 1;
    }
    proof {
        assert(tops_view(fields@).skip(n as int).len() == 0);
    }
    Option::None
}

/// The first nested field with the given key, as executable code.
fn find_leaf<'a>(fields: &'a Vec<InnerEntry>, key: &str) -> (r: Option<&'a Leaf>)
    ensures
        r is Some <==> leaf_of(inners_view(fields@), key@) is Some,
        r matches Some(l) ==> leaf_of(inners_view(fields@), key@) == Option::Some(l@),
{
    let n = fields.len();
    let mut i: usize = 0;
    proof {
        assert(inners_view(fields@).skip(0) =~= inners_view(fields@));
    }
    while i < n
        invariant
            n == fields@.len(),
            i <= n,
            leaf_of(inners_view(fields@), key@) == leaf_of(
                inners_view(fields@).skip(i as int),
                key@,
            ),
        decreases n - i,
    {
        proof {
            assert(inners_view(fields@).skip(i as int)[0] == inners_view(fields@)[i as int]);
        }
        if str_eq_x(fields[i].key.as_str(), key) {
            return Option::Some(&fields[i].val);
        }
        proof {
            assert(inners_view(fields@).skip(i as int).skip(1) =~= inners_view(fields@).skip(
                i + 1,
            ));
        }
        i = i + 1;
    }
    proof {
        assert(inners_view(fields@).skip(n as int).len() == 0);
    }
    Option::None
}

/// An optional-string field of the update payload, as executable code.
fn opt_str_leaf_x(l: Option<&Leaf>) -> (r: Option<Option<String>>)
    ensures
        r is Some <==> opt_str_leaf(
            match l {
                Option::Some(lf) => Option::Some(lf@),
                Option::None => Option::None,
            },
        ) is Some,
        r matches Some(o) ==> opt_str_leaf(
            match l {
                Option::Some(lf) => Option::Some(lf@),
                Option::None => Option::None,
            },
        ) == Option::Some(
            match o {
                Option::Some(ref s) => Option::Some(s@),
                Option::None => Option::None,
            },
        ),
{
    match l {
        Option::None => Option::Some(Option::None),
        Option::Some(Leaf::Null) => Option::Some(Option::None),
        Option::Some(Leaf::Str(s)) => Option::Some(Option::Some(s.clone())),
        Option::Some(_) => Option::None,
    }
}

/// Classifies the untagged update shape, as executable code.
fn classify_update_x(fields: &Vec<TopEntry>) -> (r: Option<Incoming>)
    ensures
        r is Some <==> classify_update(tops_view(fields@)) is Some,
        r matches Some(ev) ==> classify_update(tops_view(fields@)) == Option::Some(ev@),
{
    let idf = find_field(fields, "identifier");
    let msf = find_field(fields, "message");
    match (idf, msf) {
        (Option::Some(Field::Leaf(Leaf::Str(id))), Option::Some(Field::Obj(inner))) => {
            match find_leaf(inner, "id") {
                Option::Some(Leaf::Int(n)) => {
                    if *n <= usize::MAX as u64 {
                        let post = opt_str_leaf_x(find_leaf(inner, "post_url"));
                        let setb = opt_str_leaf_x(find_leaf(inner, "set_by"));
                        match (post, setb) {
                            (Option::Some(p), Option::Some(sb)) => Option::Some(
                                Incoming::Message {
                                    identifier: id.clone(),
                                    message: WallpaperUpdate {
                                        id: *n as usize,
                                        post_url: p,
                                        set_by: sb,
                                    },
                                },
                            ),
                            _ => Option::None,
                        }
                    } else {
                        Option::None
                    }
                },
                _ => Option::None,
            }
        },
        _ => Option::None,
    }
}

/// Classifies an envelope's fields, as executable code.
fn classify_x(fields: &Vec<TopEntry>) -> (r: Option<Incoming>)
    ensures
        r is Some <==> classify(tops_view(fields@)) is Some,
        r matches Some(ev) ==> classify(tops_view(fields@)) == Option::Some(ev@),
{
    match find_field(fields, "type") {
        Option::Some(f) => match f {
            Field::Leaf(Leaf::Str(t)) => {
                if str_eq_x(t.as_str(), "welcome") {
                    Option::Some(Incoming::Welcome)
                } else if str_eq_x(t.as_str(), "ping") {
                    match find_field(fields, "message") {
                        Option::Some(Field::Leaf(Leaf::Int(n))) => Option::Some(
                            Incoming::Ping { message: *n },
                        ),
                        _ => Option::None,
                    }
                } else if str_eq_x(t.as_str(), "confirm_subscription") {
                    match find_field(fields, "identifier") {
                        Option::Some(Field::Leaf(Leaf::Str(id))) => Option::Some(
                            Incoming::ConfirmSubscription { identifier: id.clone() },
                        ),
                        _ => Option::None,
                    }
                } else if str_eq_x(t.as_str(), "disconnect") {
                    let rf = find_field(fields, "reason");
                    let cf = find_field(fields, "reconnect");
                    match (rf, cf) {
                        (
                            Option::Some(Field::Leaf(Leaf::Str(rs))),
                            Option::Some(Field::Leaf(Leaf::Bool(b))),
                        ) => Option::Some(
                            Incoming::Disconnect { reason: rs.clone(), reconnect: *b },
                        ),
                        _ => Option::None,
                    }
                } else {
                    classify_update_x(fields)
                }
            },
            _ => classify_update_x(fields),
        },
        Option::None => classify_update_x(fields),
    }
}

/// Decodes one inbound text frame into the event it denotes.
///
/// Returns `Err(MalformedEvent)` exactly when the text is not a single
/// valid JSON object or its fields fit no event shape, i.e. when
/// `spec_decode` gives nothing.
pub fn decode(text: &str) -> (r: Result<Incoming, ProtocolError>)
    ensures
        r is Ok <==> spec_decode(text@) is Some,
        r matches Ok(ev) ==> spec_decode(text@) == Option::Some(ev@),
        r matches Err(e) ==> e == ProtocolError::MalformedEvent,
{
    let s0 = skip_ws_entry(text);
    let n = s0.unicode_len();
    if n > 0 && s0.get_char(0) == '{' {
        let tail = s0.substring_char(1, n);
        proof {
            assert(tail@ =~= skip_ws(text@).skip(1));
        }
        let fuel = text.unicode_len();
        match parse_top_fields_x(tail, fuel, true) {
            Option::Some(p) => {
                let rest = skip_ws_entry(p.1);
                if rest.unicode_len() == 0 {
                    match classify_x(&p.0) {
                        Option::Some(ev) => Result::Ok(ev),
                        Option::None => Result::Err(ProtocolError::MalformedEvent),
                    }
                } else {
                    Result::Err(ProtocolError::MalformedEvent)
                }
            },
            Option::None => Result::Err(ProtocolError::MalformedEvent),
        }
    } else {
        Result::Err(ProtocolError::MalformedEvent)
    }
}

/// A literal followed by anything parses back to exactly that suffix.
pub proof fn lemma_expect_prefix(lit: Seq<char>, suf: Seq<char>)
    ensures
        spec_expect(lit + suf, lit) == Option::Some(suf),
{
    let s = lit + suf;
    assert(s.subrange(0, lit.len() as int) =~= lit);
    assert(s.skip(lit.len() as int) =~= suf);
}

/// A single differing position refutes a prefix match.
pub proof fn lemma_expect_differs(s: Seq<char>, lit: Seq<char>, k: int)
    requires
        0 <= k < lit.len(),
        k < s.len(),
        s[k] != lit[k],
    ensures
        spec_expect(s, lit) is None,
{
    if lit.len() <= s.len() && s.subrange(0, lit.len() as int) == lit {
        assert(s.subrange(0, lit.len() as int)[k] == s[k]);
    }
}

/// Reading back an escaped string recovers it exactly: the escaping of any
/// content, a closing quote and any suffix parse to that content and suffix.
pub proof fn lemma_parse_escaped(c: Seq<char>, suf: Seq<char>)
    ensures
        parse_string_rest(escape(c) + seq!['"'] + suf) == Option::Some((c, suf)),
    decreases c.len(),
{
    let s = escape(c) + seq!['"'] + suf;
    if c.len() == 0 {
        assert(escape(c) == Seq::<char>::empty());
        assert(s =~= seq!['"'] + suf);
        assert(s[0] == '"');
        assert(s.skip(1) =~= suf);
        assert(c =~= Seq::<char>::empty());
    } else {
        let c0 = c[0];
        let ct = c.skip(1);
        assert(escape(c) == escape_char(c0) + escape(ct));
        lemma_parse_escaped(ct, suf);
        let s2 = escape(ct) + seq!['"'] + suf;
        if c0 == '"' || c0 == '\\' || c0 == '\u{8}' || c0 == '\t' || c0 == '\n' || c0 == '\u{c}'
            || c0 == '\r' {
            let e1: char = if c0 == '"' {
                '"'
            } else if c0 == '\\' {
                '\\'
            } else if c0 == '\u{8}' {
                'b'
            } else if c0 == '\t' {
                't'
            } else if c0 == '\n' {
                'n'
            } else if c0 == '\u{c}' {
                'f'
            } else {
                'r'
            };
            assert(escape_char(c0) =~= seq!['\\', e1]);
            assert(escape(c).len() == 2 + escape(ct).len());
            assert(escape(c)[0] == '\\');
            assert(escape(c)[1] == e1);
            assert(s[0] == '\\');
            assert(s[1] == e1);
            assert(e1 != 'u');
            assert(unescape_char(e1) == Option::Some(c0));
            assert(s.skip(2) =~= s2);
            assert(parse_string_rest(s) == Option::Some((seq![c0] + ct, suf)));
            assert(seq![c0] + ct =~= c);
        } else if (c0 as u32) < 32 {
            let u = c0 as u32;
            let h1 = crate::codec::hex_char((u / 16) as nat);
            let h0 = crate::codec::hex_char((u % 16) as nat);
            assert(escape_char(c0) =~= seq!['\\', 'u', '0', '0', h1, h0]);
            assert(escape(c).len() == 6 + escape(ct).len());
            assert(escape(c)[0] == '\\');
            assert(escape(c)[1] == 'u');
            assert(s[0] == '\\');
            assert(s[1] == 'u');
            assert(s[2] == '0');
            assert(s[3] == '0');
            assert(s[4] == h1);
            assert(s[5] == h0);
            assert(hex_val('0') == Option::Some(0u32));
            lemma_hex_round((u / 16) as nat);
            lemma_hex_round((u % 16) as nat);
            assert((u / 16) * 16 + u % 16 == u);
            assert(u < 128);
            assert(((u as u8) as char) == c0) by {
                let ce = (u as u8) as char;
                assert(ce as u32 == u);
                vstd::utf8::char_u32_cast(c0, u);
                vstd::utf8::char_u32_cast(ce, u);
            }
            assert(s.skip(6) =~= s2);
            assert(parse_string_rest(s) == Option::Some((seq![c0] + ct, suf)));
            assert(seq![c0] + ct =~= c);
        } else {
            assert(escape_char(c0) =~= seq![c0]);
            assert(escape(c)[0] == c0);
            assert(s[0] == c0);
            assert((c0 as u32) >= 32);
            assert(s.skip(1) =~= s2);
            assert(parse_string_rest(s) == Option::Some((seq![c0] + ct, suf)));
            assert(seq![c0] + ct =~= c);
        }
    }
}

/// A lowercase hexadecimal digit character reads back as its value.
proof fn lemma_hex_round(d: nat)
    requires
        d < 16,
    ensures
        hex_val(crate::codec::hex_char(d)) == Option::Some(d as u32),
{
}

} // verus!
