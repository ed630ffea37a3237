//! A JSON envelope reader for inbound frames.
//!
//! The remote side may order fields freely, insert whitespace, and add
//! fields this client does not know. The reader walks a JSON object,
//! keeping each field's key and a flat view of its value: scalars are kept,
//! an object value keeps its own fields one level down, and anything deeper
//! (and every array) is validated and skipped. Every function comes in a
//! spec and an executable form, the latter proved to return the former.

use vstd::prelude::*;

use crate::codec::push_char;
use crate::decode::{digit_val_x, expect_lit, is_digit, parse_nat, parse_string_rest,
    parse_string_rest_x, parse_nat_x, spec_expect};

verus! {

/// The flat view of a scalar field value. An integer number that fits `u64`
/// is kept as its value; any other valid number lexeme (negative,
/// fractional, exponent or oversized) is `NumOther`; `Other` is a nested
/// object or array that was validated and skipped.
pub enum LeafV {
    Null,
    Bool(bool),
    Int(u64),
    NumOther,
    Str(Seq<char>),
    Other,
}

/// The flat view of a top-level field value: a scalar, an object kept one
/// level deep, or an array (validated and skipped).
pub enum FieldV {
    Leaf(LeafV),
    Obj(Seq<(Seq<char>, LeafV)>),
    Arr,
}

/// Executable scalar field value; `Num` and `Str` own their text.
pub enum Leaf {
    Null,
    Bool(bool),
    Int(u64),
    NumOther,
    Str(String),
    Other,
}

/// Executable top-level field value.
pub enum Field {
    Leaf(Leaf),
    Obj(Vec<InnerEntry>),
    Arr,
}

/// One field of a nested object.
pub struct InnerEntry {
    pub key: String,
    pub val: Leaf,
}

/// One field of the top-level object.
pub struct TopEntry {
    pub key: String,
    pub val: Field,
}

impl View for Leaf {
    type V = LeafV;

    open spec fn view(&self) -> LeafV {
        match self {
            Leaf::Null => LeafV::Null,
            Leaf::Bool(b) => LeafV::Bool(*b),
            Leaf::Int(n) => LeafV::Int(*n),
            Leaf::NumOther => LeafV::NumOther,
            Leaf::Str(s) => LeafV::Str(s@),
            Leaf::Other => LeafV::Other,
        }
    }
}

impl View for InnerEntry {
    type V = (Seq<char>, LeafV);

    open spec fn view(&self) -> (Seq<char>, LeafV) {
        (self.key@, self.val@)
    }
}

impl View for Field {
    type V = FieldV;

    open spec fn view(&self) -> FieldV {
        match self {
            Field::Leaf(l) => FieldV::Leaf(l@),
            Field::Obj(entries) => FieldV::Obj(inners_view(entries@)),
            Field::Arr => FieldV::Arr,
        }
    }
}

impl View for TopEntry {
    type V = (Seq<char>, FieldV);

    open spec fn view(&self) -> (Seq<char>, FieldV) {
        (self.key@, self.val@)
    }
}

/// The view of a parsed top-level field list.
pub open spec fn tops_view(v: Seq<TopEntry>) -> Seq<(Seq<char>, FieldV)> {
    v.map_values(|e: TopEntry| e@)
}

/// The view of a parsed nested field list.
pub open spec fn inners_view(v: Seq<InnerEntry>) -> Seq<(Seq<char>, LeafV)> {
    v.map_values(|e: InnerEntry| e@)
}

/// Whether `c` is JSON whitespace.
pub open spec fn is_ws(c: char) -> bool {
    c == ' ' || c == '\t' || c == '\n' || c == '\r'
}

/// The remainder of `s` after any leading whitespace.
pub open spec fn skip_ws(s: Seq<char>) -> Seq<char>
    decreases s.len(),
{
    if s.len() > 0 && is_ws(s[0]) {
        skip_ws(s.skip(1))
    } else {
        s
    }
}

/// The longest run of digits at the front of `s`, and what follows it.
pub open spec fn span_digits(s: Seq<char>) -> (Seq<char>, Seq<char>)
    decreases s.len(),
{
    if s.len() > 0 && is_digit(s[0]) {
        let p = span_digits(s.skip(1));
        (seq![s[0]] + p.0, p.1)
    } else {
        (Seq::empty(), s)
    }
}

/// Parses a JSON number: the lexeme and the remainder. Optional minus,
/// digits, optional fraction, optional exponent; leading zeros tolerated.
pub open spec fn parse_number(s: Seq<char>) -> Option<(Seq<char>, Seq<char>)> {
    let neg_s1: (Seq<char>, Seq<char>) = if s.len() > 0 && s[0] == '-' {
        (seq!['-'], s.skip(1))
    } else {
        (Seq::empty(), s)
    };
    let neg = neg_s1.0;
    let s1 = neg_s1.1;
    if s1.len() > 0 && is_digit(s1[0]) {
        let d_s2 = span_digits(s1);
        let d = d_s2.0;
        let s2 = d_s2.1;
        let f_s3: (Seq<char>, Seq<char>) = if s2.len() >= 2 && s2[0] == '.' && is_digit(s2[1]) {
            let p = span_digits(s2.skip(1));
            (seq!['.'] + p.0, p.1)
        } else {
            (Seq::empty(), s2)
        };
        let f = f_s3.0;
        let s3 = f_s3.1;
        if s3.len() > 0 && (s3[0] == 'e' || s3[0] == 'E') {
            let e0 = s3[0];
            let s3b = s3.skip(1);
            let sg_s3c: (Seq<char>, Seq<char>) = if s3b.len() > 0 && (s3b[0] == '+' || s3b[0]
                == '-') {
                (seq![s3b[0]], s3b.skip(1))
            } else {
                (Seq::empty(), s3b)
            };
            let sg = sg_s3c.0;
            let s3c = sg_s3c.1;
            if s3c.len() > 0 && is_digit(s3c[0]) {
                let p = span_digits(s3c);
                Option::Some((neg + d + f + seq![e0] + sg + p.0, p.1))
            } else {
                Option::None
            }
        } else {
            Option::Some((neg + d + f, s3))
        }
    } else {
        Option::None
    }
}

/// Validates and consumes one JSON value of any shape.
pub open spec fn skip_value(s: Seq<char>, fuel: nat) -> Option<Seq<char>>
    decreases fuel,
{
    if fuel == 0 {
        Option::None
    } else {
        let s0 = skip_ws(s);
        if s0.len() == 0 {
            Option::None
        } else if s0[0] == '"' {
            match parse_string_rest(s0.skip(1)) {
                Option::Some(p) => Option::Some(p.1),
                Option::None => Option::None,
            }
        } else if s0[0] == '{' {
            skip_members(s0.skip(1), (fuel - 1) as nat, true)
        } else if s0[0] == '[' {
            skip_elements(s0.skip(1), (fuel - 1) as nat, true)
        } else if s0[0] == 't' {
            match spec_expect(s0, "true"@) {
                Option::Some(r) => Option::Some(r),
                Option::None => Option::None,
            }
        } else if s0[0] == 'f' {
            match spec_expect(s0, "false"@) {
                Option::Some(r) => Option::Some(r),
                Option::None => Option::None,
            }
        } else if s0[0] == 'n' {
            match spec_expect(s0, "null"@) {
                Option::Some(r) => Option::Some(r),
                Option::None => Option::None,
            }
        } else {
            match parse_number(s0) {
                Option::Some(p) => Option::Some(p.1),
                Option::None => Option::None,
            }
        }
    }
}

/// Validates and consumes an object's members after the opening brace.
pub open spec fn skip_members(s: Seq<char>, fuel: nat, first: bool) -> Option<Seq<char>>
    decreases fuel,
{
    if fuel == 0 {
        Option::None
    } else {
        let s0 = skip_ws(s);
        if first && s0.len() > 0 && s0[0] == '}' {
            Option::Some(s0.skip(1))
        } else if s0.len() > 0 && s0[0] == '"' {
            match parse_string_rest(s0.skip(1)) {
                Option::Some(pk) => {
                    let s1 = skip_ws(pk.1);
                    if s1.len() > 0 && s1[0] == ':' {
                        match skip_value(s1.skip(1), (fuel - 1) as nat) {
                            Option::Some(r) => {
                                let s2 = skip_ws(r);
                                if s2.len() > 0 && s2[0] == ',' {
                                    skip_members(s2.skip(1), (fuel - 1) as nat, false)
                                } else if s2.len() > 0 && s2[0] == '}' {
                                    Option::Some(s2.skip(1))
                                } else {
                                    Option::None
                                }
                            },
                            Option::None => Option::None,
                        }
                    } else {
                        Option::None
                    }
                },
                Option::None => Option::None,
            }
        } else {
            Option::None
        }
    }
}

/// Validates and consumes an array's elements after the opening bracket.
pub open spec fn skip_elements(s: Seq<char>, fuel: nat, first: bool) -> Option<Seq<char>>
    decreases fuel,
{
    if fuel == 0 {
        Option::None
    } else {
        let s0 = skip_ws(s);
        if first && s0.len() > 0 && s0[0] == ']' {
            Option::Some(s0.skip(1))
        } else {
            match skip_value(s0, (fuel - 1) as nat) {
                Option::Some(r) => {
                    let s2 = skip_ws(r);
                    if s2.len() > 0 && s2[0] == ',' {
                        skip_elements(s2.skip(1), (fuel - 1) as nat, false)
                    } else if s2.len() > 0 && s2[0] == ']' {
                        Option::Some(s2.skip(1))
                    } else {
                        Option::None
                    }
                },
                Option::None => Option::None,
            }
        }
    }
}

/// A number lexeme as an exact `u64`: all digits, value within range.
pub open spec fn lex_u64(lex: Seq<char>) -> Option<u64> {
    match parse_nat(lex) {
        Option::Some(p) => if p.1.len() == 0 {
            Option::Some(p.0)
        } else {
            Option::None
        },
        Option::None => Option::None,
    }
}

/// Parses one scalar field value (whitespace already skipped by callers of
/// the walkers; this skips its own leading whitespace too).
pub open spec fn parse_leaf(s: Seq<char>, fuel: nat) -> Option<(LeafV, Seq<char>)> {
    let s0 = skip_ws(s);
    if s0.len() == 0 {
        Option::None
    } else if s0[0] == '"' {
        match parse_string_rest(s0.skip(1)) {
            Option::Some(p) => Option::Some((LeafV::Str(p.0), p.1)),
            Option::None => Option::None,
        }
    } else if s0[0] == '{' || s0[0] == '[' {
        match skip_value(s0, fuel) {
            Option::Some(r) => Option::Some((LeafV::Other, r)),
            Option::None => Option::None,
        }
    } else if s0[0] == 't' {
        match spec_expect(s0, "true"@) {
            Option::Some(r) => Option::Some((LeafV::Bool(true), r)),
            Option::None => Option::None,
        }
    } else if s0[0] == 'f' {
        match spec_expect(s0, "false"@) {
            Option::Some(r) => Option::Some((LeafV::Bool(false), r)),
            Option::None => Option::None,
        }
    } else if s0[0] == 'n' {
        match spec_expect(s0, "null"@) {
            Option::Some(r) => Option::Some((LeafV::Null, r)),
            Option::None => Option::None,
        }
    } else {
        match parse_number(s0) {
            Option::Some(p) => match lex_u64(p.0) {
                Option::Some(v) => Option::Some((LeafV::Int(v), p.1)),
                Option::None => Option::Some((LeafV::NumOther, p.1)),
            },
            Option::None => Option::None,
        }
    }
}

/// Walks a nested object's fields after the opening brace.
pub open spec fn parse_inner_fields(s: Seq<char>, fuel: nat, first: bool) -> Option<
    (Seq<(Seq<char>, LeafV)>, Seq<char>),
>
    decreases fuel,
{
    if fuel == 0 {
        Option::None
    } else {
        let s0 = skip_ws(s);
        if first && s0.len() > 0 && s0[0] == '}' {
            Option::Some((Seq::empty(), s0.skip(1)))
        } else if s0.len() > 0 && s0[0] == '"' {
            match parse_string_rest(s0.skip(1)) {
                Option::Some(pk) => {
                    let s1 = skip_ws(pk.1);
                    if s1.len() > 0 && s1[0] == ':' {
                        match parse_leaf(s1.skip(1), (fuel - 1) as nat) {
                            Option::Some(pv) => {
                                let s2 = skip_ws(pv.1);
                                if s2.len() > 0 && s2[0] == ',' {
                                    match parse_inner_fields(
                                        s2.skip(1),
                                        (fuel - 1) as nat,
                                        false,
                                    ) {
                                        Option::Some(pr) => Option::Some(
                                            (seq![(pk.0, pv.0)] + pr.0, pr.1),
                                        ),
                                        Option::None => Option::None,
                                    }
                                } else if s2.len() > 0 && s2[0] == '}' {
                                    Option::Some((seq![(pk.0, pv.0)], s2.skip(1)))
                                } else {
                                    Option::None
                                }
                            },
                            Option::None => Option::None,
                        }
                    } else {
                        Option::None
                    }
                },
                Option::None => Option::None,
            }
        } else {
            Option::None
        }
    }
}

/// Parses one top-level field value: a scalar, a one-level object, or a
/// skipped array.
pub open spec fn parse_field_value(s: Seq<char>, fuel: nat) -> Option<(FieldV, Seq<char>)> {
    let s0 = skip_ws(s);
    if s0.len() > 0 && s0[0] == '{' {
        match parse_inner_fields(s0.skip(1), fuel, true) {
            Option::Some(p) => Option::Some((FieldV::Obj(p.0), p.1)),
            Option::None => Option::None,
        }
    } else if s0.len() > 0 && s0[0] == '[' {
        match skip_value(s0, fuel) {
            Option::Some(r) => Option::Some((FieldV::Arr, r)),
            Option::None => Option::None,
        }
    } else {
        match parse_leaf(s0, fuel) {
            Option::Some(p) => Option::Some((FieldV::Leaf(p.0), p.1)),
            Option::None => Option::None,
        }
    }
}

/// Walks the top-level object's fields after the opening brace.
pub open spec fn parse_top_fields(s: Seq<char>, fuel: nat, first: bool) -> Option<
    (Seq<(Seq<char>, FieldV)>, Seq<char>),
>
    decreases fuel,
{
    if fuel == 0 {
        Option::None
    } else {
        let s0 = skip_ws(s);
        if first && s0.len() > 0 && s0[0] == '}' {
            Option::Some((Seq::empty(), s0.skip(1)))
        } else if s0.len() > 0 && s0[0] == '"' {
            match parse_string_rest(s0.skip(1)) {
                Option::Some(pk) => {
                    let s1 = skip_ws(pk.1);
                    if s1.len() > 0 && s1[0] == ':' {
                        match parse_field_value(s1.skip(1), (fuel - 1) as nat) {
                            Option::Some(pv) => {
                                let s2 = skip_ws(pv.1);
                                if s2.len() > 0 && s2[0] == ',' {
                                    match parse_top_fields(s2.skip(1), (fuel - 1) as nat, false) {
                                        Option::Some(pr) => Option::Some(
                                            (seq![(pk.0, pv.0)] + pr.0, pr.1),
                                        ),
                                        Option::None => Option::None,
                                    }
                                } else if s2.len() > 0 && s2[0] == '}' {
                                    Option::Some((seq![(pk.0, pv.0)], s2.skip(1)))
                                } else {
                                    Option::None
                                }
                            },
                            Option::None => Option::None,
                        }
                    } else {
                        Option::None
                    }
                },
                Option::None => Option::None,
            }
        } else {
            Option::None
        }
    }
}

/// Skips leading whitespace, as executable code.
fn skip_ws_x<'a>(s: &'a str) -> (r: &'a str)
    ensures
        r@ == skip_ws(s@),
    decreases s@.len(),
{
    let n = s.unicode_len();
    if n > 0 {
        let c = s.get_char(0);
        if c == ' ' || c == '\t' || c == '\n' || c == '\r' {
            let tail = s.substring_char(1, n);
            proof {
                assert(tail@ =~= s@.skip(1));
            }
            return skip_ws_x(tail);
        }
    }
    s
}

/// Takes the run of digits at the front, as executable code.
fn span_digits_x<'a>(s: &'a str) -> (r: (String, &'a str))
    ensures
        r.0@ == span_digits(s@).0,
        r.1@ == span_digits(s@).1,
    decreases s@.len(),
{
    let n = s.unicode_len();
    if n > 0 {
        let c = s.get_char(0);
        if digit_val_x(c).is_some() {
            let tail = s.substring_char(1, n);
            proof {
                assert(tail@ =~= s@.skip(1));
            }
            let p = span_digits_x(tail);
            let mut out = String::new();
            push_char(&mut out, c);
            out.append(p.0.as_str());
            proof {
                assert(out@ =~= seq![c] + p.0@);
            }
            return (out, p.1);
        }
    }
    (String::new(), s)
}

/// Parses a JSON number, as executable code.
fn parse_number_x<'a>(s: &'a str) -> (r: Option<(String, &'a str)>)
    ensures
        r is Some <==> parse_number(s@) is Some,
        r matches Some(p) ==> parse_number(s@) == Option::Some((p.0@, p.1@)),
{
    let n = s.unicode_len();
    let mut lex = String::new();
    let mut cur: &str = s;
    if n > 0 && s.get_char(0) == '-' {
        push_char(&mut lex, '-');
        let t = s.substring_char(1, n);
        proof {
            assert(t@ =~= s@.skip(1));
        }
        cur = t;
    }
    let ghost neg: Seq<char> = lex@;
    let ghost s1: Seq<char> = cur@;
    let cn = cur.unicode_len();
    if cn == 0 {
        return Option::None;
    }
    if digit_val_x(cur.get_char(0)).is_none() {
        return Option::None;
    }
    let d = span_digits_x(cur);
    lex.append(d.0.as_str());
    cur = d.1;
    let ghost dd: Seq<char> = d.0@;
    let ghost s2: Seq<char> = cur@;
    let c2n = cur.unicode_len();
    let mut has_frac = false;
    if c2n >= 2 && cur.get_char(0) == '.' {
        if digit_val_x(cur.get_char(1)).is_some() {
            has_frac = true;
            push_char(&mut lex, '.');
            let t = cur.substring_char(1, c2n);
            proof {
                assert(t@ =~= s2.skip(1));
            }
            let fd = span_digits_x(t);
            lex.append(fd.0.as_str());
            cur = fd.1;
            proof {
                assert(lex@ =~= neg + dd + (seq!['.'] + span_digits(s2.skip(1)).0));
            }
        }
    }
    let ghost ff: Seq<char> = if has_frac {
        seq!['.'] + span_digits(s2.skip(1)).0
    } else {
        Seq::<char>::empty()
    };
    proof {
        assert(lex@ =~= neg + dd + ff);
    }
    let ghost s3: Seq<char> = cur@;
    let c3n = cur.unicode_len();
    if c3n > 0 && (cur.get_char(0) == 'e' || cur.get_char(0) == 'E') {
        let e0 = cur.get_char(0);
        push_char(&mut lex, e0);
        let mut t = cur.substring_char(1, c3n);
        proof {
            assert(t@ =~= s3.skip(1));
        }
        let ghost s3b: Seq<char> = t@;
        let tn = t.unicode_len();
        let mut has_sign = false;
        if tn > 0 && (t.get_char(0) == '+' || t.get_char(0) == '-') {
            has_sign = true;
            push_char(&mut lex, t.get_char(0));
            let t2 = t.substring_char(1, tn);
            proof {
                assert(t2@ =~= s3b.skip(1));
            }
            t = t2;
        }
        let ghost sg: Seq<char> = if has_sign {
            seq![s3b[0]]
        } else {
            Seq::<char>::empty()
        };
        let ghost s3c: Seq<char> = t@;
        proof {
            assert(lex@ =~= neg + dd + ff + seq![e0] + sg);
        }
        let t2n = t.unicode_len();
        if t2n == 0 {
            return Option::None;
        }
        if digit_val_x(t.get_char(0)).is_none() {
            return Option::None;
        }
        let ed = span_digits_x(t);
        lex.append(ed.0.as_str());
        cur = ed.1;
        proof {
            assert(lex@ =~= neg + dd + ff + seq![e0] + sg + span_digits(s3c).0);
        }
        return Option::Some((lex, cur));
    }
    Option::Some((lex, cur))
}

/// Validates and consumes one value, as executable code.
fn skip_value_x<'a>(s: &'a str, fuel: usize) -> (r: Option<&'a str>)
    ensures
        r is Some <==> skip_value(s@, fuel as nat) is Some,
        r matches Some(rem) ==> skip_value(s@, fuel as nat) == Option::Some(rem@),
    decreases fuel,
{
    if fuel == 0 {
        return Option::None;
    }
    let s0 = skip_ws_x(s);
    let n = s0.unicode_len();
    if n == 0 {
        return Option::None;
    }
    let c = s0.get_char(0);
    if c == '"' {
        let tail = s0.substring_char(1, n);
        proof {
            assert(tail@ =~= s0@.skip(1));
        }
        match parse_string_rest_x(tail) {
            Option::Some(p) => Option::Some(p.1),
            Option::None => Option::None,
        }
    } else if c == '{' {
        let tail = s0.substring_char(1, n);
        proof {
            assert(tail@ =~= s0@.skip(1));
        }
        skip_members_x(tail, fuel - 1, true)
    } else if c == '[' {
        let tail = s0.substring_char(1, n);
        proof {
            assert(tail@ =~= s0@.skip(1));
        }
        skip_elements_x(tail, fuel - 1, true)
    } else if c == 't' {
        expect_lit(s0, "true")
    } else if c == 'f' {
        expect_lit(s0, "false")
    } else if c == 'n' {
        expect_lit(s0, "null")
    } else {
        match parse_number_x(s0) {
            Option::Some(p) => Option::Some(p.1),
            Option::None => Option::None,
        }
    }
}

/// Validates and consumes an object's members, as executable code.
fn skip_members_x<'a>(s: &'a str, fuel: usize, first: bool) -> (r: Option<&'a str>)
    ensures
        r is Some <==> skip_members(s@, fuel as nat, first) is Some,
        r matches Some(rem) ==> skip_members(s@, fuel as nat, first) == Option::Some(rem@),
    decreases fuel,
{
    if fuel == 0 {
        return Option::None;
    }
    let s0 = skip_ws_x(s);
    let n = s0.unicode_len();
    if first && n > 0 && s0.get_char(0) == '}' {
        let rem = s0.substring_char(1, n);
        proof {
            assert(rem@ =~= s0@.skip(1));
        }
        return Option::Some(rem);
    }
    if n > 0 && s0.get_char(0) == '"' {
        let tail = s0.substring_char(1, n);
        proof {
            assert(tail@ =~= s0@.skip(1));
        }
        match parse_string_rest_x(tail) {
            Option::Some(pk) => {
                let s1 = skip_ws_x(pk.1);
                let n1 = s1.unicode_len();
                if n1 > 0 && s1.get_char(0) == ':' {
                    let after = s1.substring_char(1, n1);
                    proof {
                        assert(after@ =~= s1@.skip(1));
                    }
                    match skip_value_x(after, fuel - 1) {
                        Option::Some(r2) => {
                            let s2 = skip_ws_x(r2);
                            let n2 = s2.unicode_len();
                            if n2 > 0 && s2.get_char(0) == ',' {
                                let next = s2.substring_char(1, n2);
                                proof {
                                    assert(next@ =~= s2@.skip(1));
                                }
                                skip_members_x(next, fuel - 1, false)
                            } else if n2 > 0 && s2.get_char(0) == '}' {
                                let rem = s2.substring_char(1, n2);
                                proof {
                                    assert(rem@ =~= s2@.skip(1));
                                }
                                Option::Some(rem)
                            } else {
                                Option::None
                            }
                        },
                        Option::None => Option::None,
                    }
                } else {
                    Option::None
                }
            },
            Option::None => Option::None,
        }
    } else {
        Option::None
    }
}

/// Validates and consumes an array's elements, as executable code.
fn skip_elements_x<'a>(s: &'a str, fuel: usize, first: bool) -> (r: Option<&'a str>)
    ensures
        r is Some <==> skip_elements(s@, fuel as nat, first) is Some,
        r matches Some(rem) ==> skip_elements(s@, fuel as nat, first) == Option::Some(rem@),
    decreases fuel,
{
    if fuel == 0 {
        return Option::None;
    }
    let s0 = skip_ws_x(s);
    let n = s0.unicode_len();
    if first && n > 0 && s0.get_char(0) == ']' {
        let rem = s0.substring_char(1, n);
        proof {
            assert(rem@ =~= s0@.skip(1));
        }
        return Option::Some(rem);
    }
    match skip_value_x(s0, fuel - 1) {
        Option::Some(r2) => {
            let s2 = skip_ws_x(r2);
            let n2 = s2.unicode_len();
            if n2 > 0 && s2.get_char(0) == ',' {
                let next = s2.substring_char(1, n2);
                proof {
                    assert(next@ =~= s2@.skip(1));
                }
                skip_elements_x(next, fuel - 1, false)
            } else if n2 > 0 && s2.get_char(0) == ']' {
                let rem = s2.substring_char(1, n2);
                proof {
                    assert(rem@ =~= s2@.skip(1));
                }
                Option::Some(rem)
            } else {
                Option::None
            }
        },
        Option::None => Option::None,
    }
}

/// Parses one scalar field value, as executable code.
fn parse_leaf_x<'a>(s: &'a str, fuel: usize) -> (r: Option<(Leaf, &'a str)>)
    ensures
        r is Some <==> parse_leaf(s@, fuel as nat) is Some,
        r matches Some(p) ==> parse_leaf(s@, fuel as nat) == Option::Some((p.0@, p.1@)),
{
    let s0 = skip_ws_x(s);
    let n = s0.unicode_len();
    if n == 0 {
        return Option::None;
    }
    let c = s0.get_char(0);
    if c == '"' {
        let tail = s0.substring_char(1, n);
        proof {
            assert(tail@ =~= s0@.skip(1));
        }
        match parse_string_rest_x(tail) {
            Option::Some(p) => Option::Some((Leaf::Str(p.0), p.1)),
            Option::None => Option::None,
        }
    } else if c == '{' || c == '[' {
        match skip_value_x(s0, fuel) {
            Option::Some(r2) => Option::Some((Leaf::Other, r2)),
            Option::None => Option::None,
        }
    } else if c == 't' {
        match expect_lit(s0, "true") {
            Option::Some(r2) => Option::Some((Leaf::Bool(true), r2)),
            Option::None => Option::None,
        }
    } else if c == 'f' {
        match expect_lit(s0, "false") {
            Option::Some(r2) => Option::Some((Leaf::Bool(false), r2)),
            Option::None => Option::None,
        }
    } else if c == 'n' {
        match expect_lit(s0, "null") {
            Option::Some(r2) => Option::Some((Leaf::Null, r2)),
            Option::None => Option::None,
        }
    } else {
        match parse_number_x(s0) {
            Option::Some(p) => {
                match parse_nat_x(p.0.as_str()) {
                    Option::Some(q) => {
                        if q.1.unicode_len() == 0 {
                            Option::Some((Leaf::Int(q.0), p.1))
                        } else {
                            Option::Some((Leaf::NumOther, p.1))
                        }
                    },
                    Option::None => Option::Some((Leaf::NumOther, p.1)),
                }
            },
            Option::None => Option::None,
        }
    }
}

/// Walks a nested object's fields, as executable code.
fn parse_inner_fields_x<'a>(s: &'a str, fuel: usize, first: bool) -> (r: Option<
    (Vec<InnerEntry>, &'a str),
>)
    ensures
        r is Some <==> parse_inner_fields(s@, fuel as nat, first) is Some,
        r matches Some(p) ==> parse_inner_fields(s@, fuel as nat, first) == Option::Some(
            (inners_view(p.0@), p.1@),
        ),
    decreases fuel,
{
    if fuel == 0 {
        return Option::None;
    }
    let s0 = skip_ws_x(s);
    let n = s0.unicode_len();
    if first && n > 0 && s0.get_char(0) == '}' {
        let rem = s0.substring_char(1, n);
        proof {
            assert(rem@ =~= s0@.skip(1));
        }
        let out: Vec<InnerEntry> = Vec::new();
        proof {
            assert(inners_view(out@) =~= Seq::<(Seq<char>, LeafV)>::empty());
        }
        return Option::Some((out, rem));
    }
    if n > 0 && s0.get_char(0) == '"' {
        let tail = s0.substring_char(1, n);
        proof {
            assert(tail@ =~= s0@.skip(1));
        }
        match parse_string_rest_x(tail) {
            Option::Some(pk) => {
                let s1 = skip_ws_x(pk.1);
                let n1 = s1.unicode_len();
                if n1 > 0 && s1.get_char(0) == ':' {
                    let after = s1.substring_char(1, n1);
                    proof {
                        assert(after@ =~= s1@.skip(1));
                    }
                    match parse_leaf_x(after, fuel - 1) {
                        Option::Some(pv) => {
                            let entry = InnerEntry { key: pk.0, val: pv.0 };
                            let s2 = skip_ws_x(pv.1);
                            let n2 = s2.unicode_len();
                            if n2 > 0 && s2.get_char(0) == ',' {
                                let next = s2.substring_char(1, n2);
                                proof {
                                    assert(next@ =~= s2@.skip(1));
                                }
                                match parse_inner_fields_x(next, fuel - 1, false) {
                                    Option::Some(pr) => {
                                        let mut out: Vec<InnerEntry> = Vec::new();
                                        out.push(entry);
                                        let mut rest = pr.0;
                                        out.append(&mut rest);
                                        proof {
                                            assert(inners_view(out@) =~= seq![entry@]
                                                + inners_view(pr.0@));
                                        }
                                        Option::Some((out, pr.1))
                                    },
                                    Option::None => Option::None,
                                }
                            } else if n2 > 0 && s2.get_char(0) == '}' {
                                let rem = s2.substring_char(1, n2);
                                proof {
                                    assert(rem@ =~= s2@.skip(1));
                                }
                                let mut out: Vec<InnerEntry> = Vec::new();
                                out.push(entry);
                                proof {
                                    assert(inners_view(out@) =~= seq![entry@]);
                                }
                                Option::Some((out, rem))
                            } else {
                                Option::None
                            }
                        },
                        Option::None => Option::None,
                    }
                } else {
                    Option::None
                }
            },
            Option::None => Option::None,
        }
    } else {
        Option::None
    }
}

/// Parses one top-level field value, as executable code.
fn parse_field_value_x<'a>(s: &'a str, fuel: usize) -> (r: Option<(Field, &'a str)>)
    ensures
        r is Some <==> parse_field_value(s@, fuel as nat) is Some,
        r matches Some(p) ==> parse_field_value(s@, fuel as nat) == Option::Some((p.0@, p.1@)),
{
    let s0 = skip_ws_x(s);
    let n = s0.unicode_len();
    if n > 0 && s0.get_char(0) == '{' {
        let tail = s0.substring_char(1, n);
        proof {
            assert(tail@ =~= s0@.skip(1));
        }
        match parse_inner_fields_x(tail, fuel, true) {
            Option::Some(p) => Option::Some((Field::Obj(p.0), p.1)),
            Option::None => Option::None,
        }
    } else if n > 0 && s0.get_char(0) == '[' {
        match skip_value_x(s0, fuel) {
            Option::Some(r2) => Option::Some((Field::Arr, r2)),
            Option::None => Option::None,
        }
    } else {
        match parse_leaf_x(s0, fuel) {
            Option::Some(p) => Option::Some((Field::Leaf(p.0), p.1)),
            Option::None => Option::None,
        }
    }
}

/// Walks the top-level object's fields, as executable code.
pub(crate) fn parse_top_fields_x<'a>(s: &'a str, fuel: usize, first: bool) -> (r: Option<
    (Vec<TopEntry>, &'a str),
>)
    ensures
        r is Some <==> parse_top_fields(s@, fuel as nat, first) is Some,
        r matches Some(p) ==> parse_top_fields(s@, fuel as nat, first) == Option::Some(
            (tops_view(p.0@), p.1@),
        ),
    decreases fuel,
{
    if fuel == 0 {
        return Option::None;
    }
    let s0 = skip_ws_x(s);
    let n = s0.unicode_len();
    if first && n > 0 && s0.get_char(0) == '}' {
        let rem = s0.substring_char(1, n);
        proof {
            assert(rem@ =~= s0@.skip(1));
        }
        let out: Vec<TopEntry> = Vec::new();
        proof {
            assert(tops_view(out@) =~= Seq::<(Seq<char>, FieldV)>::empty());
        }
        return Option::Some((out, rem));
    }
    if n > 0 && s0.get_char(0) == '"' {
        let tail = s0.substring_char(1, n);
        proof {
            assert(tail@ =~= s0@.skip(1));
        }
        match parse_string_rest_x(tail) {
            Option::Some(pk) => {
                let s1 = skip_ws_x(pk.1);
                let n1 = s1.unicode_len();
                if n1 > 0 && s1.get_char(0) == ':' {
                    let after = s1.substring_char(1, n1);
                    proof {
                        assert(after@ =~= s1@.skip(1));
                    }
                    match parse_field_value_x(after, fuel - 1) {
                        Option::Some(pv) => {
                            let entry = TopEntry { key: pk.0, val: pv.0 };
                            let s2 = skip_ws_x(pv.1);
                            let n2 = s2.unicode_len();
                            if n2 > 0 && s2.get_char(0) == ',' {
                                let next = s2.substring_char(1, n2);
                                proof {
                                    assert(next@ =~= s2@.skip(1));
                                }
                                match parse_top_fields_x(next, fuel - 1, false) {
                                    Option::Some(pr) => {
                                        let mut out: Vec<TopEntry> = Vec::new();
                                        out.push(entry);
                                        let mut rest = pr.0;
                                        out.append(&mut rest);
                                        proof {
                                            assert(tops_view(out@) =~= seq![entry@] + tops_view(
                                                pr.0@,
                                            ));
                                        }
                                        Option::Some((out, pr.1))
                                    },
                                    Option::None => Option::None,
                                }
                            } else if n2 > 0 && s2.get_char(0) == '}' {
                                let rem = s2.substring_char(1, n2);
                                proof {
                                    assert(rem@ =~= s2@.skip(1));
                                }
                                let mut out: Vec<TopEntry> = Vec::new();
                                out.push(entry);
                                proof {
                                    assert(tops_view(out@) =~= seq![entry@]);
                                }
                                Option::Some((out, rem))
                            } else {
                                Option::None
                            }
                        },
                        Option::None => Option::None,
                    }
                } else {
                    Option::None
                }
            },
            Option::None => Option::None,
        }
    } else {
        Option::None
    }
}

/// Skips leading whitespace for callers outside this module.
pub(crate) fn skip_ws_entry<'a>(s: &'a str) -> (r: &'a str)
    ensures
        r@ == skip_ws(s@),
{
    skip_ws_x(s)
}

/// The first field with the given key, if any.
pub open spec fn field_of(fields: Seq<(Seq<char>, FieldV)>, key: Seq<char>) -> Option<FieldV>
    decreases fields.len(),
{
    if fields.len() == 0 {
        Option::None
    } else if fields[0].0 == key {
        Option::Some(fields[0].1)
    } else {
        field_of(fields.skip(1), key)
    }
}

/// The first nested field with the given key, if any.
pub open spec fn leaf_of(fields: Seq<(Seq<char>, LeafV)>, key: Seq<char>) -> Option<LeafV>
    decreases fields.len(),
{
    if fields.len() == 0 {
        Option::None
    } else if fields[0].0 == key {
        Option::Some(fields[0].1)
    } else {
        leaf_of(fields.skip(1), key)
    }
}

} // verus!
