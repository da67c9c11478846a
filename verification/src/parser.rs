//! The executable recursive-descent parser, verified against the grammar
//! model in [`crate::grammar`].
//!
//! Every function takes the input buffer and a position in it, and
//! reports how far it consumed; values of the model are reached through
//! `Seq::skip` on the buffer's view.

use vstd::prelude::*;

use crate::ast::{
    member_models, members_model, value_models, values_model, ErrKind, GMember, GValue, Member,
    ParseError, Value,
};
use crate::grammar::{
    digit_run, is_digit_byte, is_hex_byte, is_safe_byte, is_single_escape_byte, is_unicode_escape,
    is_ws_byte, spec_array, spec_element, spec_elements, spec_elements_more, spec_exponent,
    spec_fraction, spec_integer, spec_member, spec_members, spec_members_more, spec_number,
    spec_object, spec_string, spec_value, string_body_len, ws_len,
};

verus! {

/// Skipping twice from the front is one longer skip.
proof fn skip_skip(s: Seq<u8>, m: int, n: int)
    requires
        0 <= m,
        0 <= n,
        m + n <= s.len(),
    ensures
        s.skip(m).skip(n) == s.skip(m + n),
{
    vstd::seq_lib::lemma_seq_skip_of_skip(s, m, n);
}

/// Whether `b` is insignificant whitespace.
fn ws_byte(b: u8) -> (r: bool)
    ensures
        r == is_ws_byte(b),
{
    b == 0x20 || b == 0x09 || b == 0x0a || b == 0x0d
}

/// Whether `b` is a decimal digit.
fn digit_byte(b: u8) -> (r: bool)
    ensures
        r == is_digit_byte(b),
{
    0x30 <= b && b <= 0x39
}

/// Whether `b` is a hexadecimal digit.
fn hex_byte(b: u8) -> (r: bool)
    ensures
        r == is_hex_byte(b),
{
    (0x30 <= b && b <= 0x39) || (0x61 <= b && b <= 0x66) || (0x41 <= b && b <= 0x46)
}

/// Whether `b` may stand unescaped inside a string literal.
fn safe_byte(b: u8) -> (r: bool)
    ensures
        r == is_safe_byte(b),
{
    !(b <= 0x1f || b == 0x7f) && b != 0x22 && b != 0x5c
}

/// Whether `b` is a one-character escape code.
fn single_escape_byte(b: u8) -> (r: bool)
    ensures
        r == is_single_escape_byte(b),
{
    b == 0x22 || b == 0x5c || b == 0x2f || b == 0x62 || b == 0x66 || b == 0x6e || b == 0x72
        || b == 0x74
}

/// Consumes the run of insignificant whitespace at `pos`.
fn skip_ws(input: &[u8], pos: usize) -> (r: usize)
    requires
        pos <= input@.len(),
    ensures
        pos <= r <= input@.len(),
        r - pos == ws_len(input@.skip(pos as int)),
{
    let mut i = pos;
    while i < input.len() && ws_byte(input[i])
        invariant
            pos <= i <= input@.len(),
            ws_len(input@.skip(pos as int)) == i - pos + ws_len(input@.skip(i as int)),
        decreases input@.len() - i,
    {
        proof {
            assert(input@.skip(i as int)[0] == input@[i as int]);
            assert(input@.skip(i as int).skip(1) == input@.skip(i as int + 1)) by {
                skip_skip(input@, i as int, 1);
            }
        }
        i = i + 1;
    }
    proof {
        if i < input@.len() {
            assert(input@.skip(i as int)[0] == input@[i as int]);
        }
        assert(ws_len(input@.skip(i as int)) == 0);
    }
    i
}

/// Consumes the run of decimal digits at `pos`.
fn scan_digits(input: &[u8], pos: usize) -> (r: usize)
    requires
        pos <= input@.len(),
    ensures
        pos <= r <= input@.len(),
        r - pos == digit_run(input@.skip(pos as int)),
{
    let mut i = pos;
    while i < input.len() && digit_byte(input[i])
        invariant
            pos <= i <= input@.len(),
            digit_run(input@.skip(pos as int)) == i - pos + digit_run(input@.skip(i as int)),
        decreases input@.len() - i,
    {
        proof {
            assert(input@.skip(i as int)[0] == input@[i as int]);
            assert(input@.skip(i as int).skip(1) == input@.skip(i as int + 1)) by {
                skip_skip(input@, i as int, 1);
            }
        }
        i = i + 1;
    }
    proof {
        if i < input@.len() {
            assert(input@.skip(i as int)[0] == input@[i as int]);
        }
        assert(digit_run(input@.skip(i as int)) == 0);
    }
    i
}

/// Copies the bytes of `input` between `a` and `b` into a fresh vector.
fn copy_range(input: &[u8], a: usize, b: usize) -> (r: Vec<u8>)
    requires
        a <= b <= input@.len(),
    ensures
        r@ == input@.subrange(a as int, b as int),
{
    let mut out: Vec<u8> = Vec::new();
    let mut j = a;
    while j < b
        invariant
            a <= j <= b <= input@.len(),
            out@ == input@.subrange(a as int, j as int),
        decreases b - j,
    {
        out.push(input[j]);
        proof {
            assert(out@ == input@.subrange(a as int, j as int + 1)) by {
                assert(input@.subrange(a as int, j as int + 1) == input@.subrange(
                    a as int,
                    j as int,
                ).push(input@[j as int]));
            }
        }
        j = j + 1;
    }
    out
}

/// Checks for a `\uXXXX` escape at `pos`: a backslash, a `u`, and exactly
/// four hexadecimal digits.  Returns the position just past the escape.
pub fn escaped_hex(input: &[u8], pos: usize) -> (r: Result<usize, ParseError>)
    requires
        pos <= input@.len(),
    ensures
        match r {
            Ok(end) => end == pos + 6 && is_unicode_escape(input@.skip(pos as int)),
            Err(e) => !is_unicode_escape(input@.skip(pos as int)) && e.kind
                == ErrKind::InvalidUnicodeEscape && e.pos == pos,
        },
{
    let s_len = input.len() - pos;
    if s_len >= 6 && input[pos] == 0x5c && input[pos + 1] == 0x75 && hex_byte(input[pos + 2])
        && hex_byte(input[pos + 3]) && hex_byte(input[pos + 4]) && hex_byte(input[pos + 5]) {
        proof {
            let s = input@.skip(pos as int);
            assert(s[0] == input@[pos as int]);
            assert(s[1] == input@[pos as int + 1]);
            assert(s[2] == input@[pos as int + 2]);
            assert(s[3] == input@[pos as int + 3]);
            assert(s[4] == input@[pos as int + 4]);
            assert(s[5] == input@[pos as int + 5]);
        }
        Ok(pos + 6)
    } else {
        proof {
            let s = input@.skip(pos as int);
            if s.len() >= 6 {
                assert(s[0] == input@[pos as int]);
                assert(s[1] == input@[pos as int + 1]);
                assert(s[2] == input@[pos as int + 2]);
                assert(s[3] == input@[pos as int + 3]);
                assert(s[4] == input@[pos as int + 4]);
                assert(s[5] == input@[pos as int + 5]);
            }
        }
        Err(ParseError { kind: ErrKind::InvalidUnicodeEscape, pos })
    }
}

/// The string production: an opening quote at `pos`, an interior of safe
/// characters and escape sequences, a closing quote.  Returns the
/// position just past the closing quote and the interior bytes,
/// verbatim.
fn parse_string(input: &[u8], pos: usize) -> (r: Result<(usize, Vec<u8>), ParseError>)
    requires
        pos <= input@.len(),
    ensures
        match r {
            Ok((end, body)) => pos < end <= input@.len() && spec_string(input@.skip(pos as int))
                == Ok::<_, ErrKind>(((end - pos) as nat, body@)),
            Err(e) => spec_string(input@.skip(pos as int)) == Err::<(nat, Seq<u8>), _>(e.kind)
                && e.pos <= input@.len(),
        },
{
    if pos >= input.len() || input[pos] != 0x22 {
        proof {
            if pos < input@.len() {
                assert(input@.skip(pos as int)[0] == input@[pos as int]);
            }
        }
        return Err(ParseError { kind: ErrKind::UnterminatedString, pos });
    }
    let ghost s = input@.skip(pos as int);
    proof {
        assert(s[0] == input@[pos as int]);
        assert(s.skip(1) == input@.skip(pos as int + 1)) by {
            skip_skip(input@, pos as int, 1);
        }
    }
    let mut i = pos + 1;
    loop
        invariant
            pos + 1 <= i <= input@.len(),
            pos < input@.len(),
            input@[pos as int] == 0x22,
            s == input@.skip(pos as int),
            s.skip(1) == input@.skip(pos as int + 1),
            match string_body_len(input@.skip(i as int)) {
                Ok(n) => string_body_len(s.skip(1)) == Ok::<_, ErrKind>((i - pos - 1 + n) as nat),
                Err(e) => string_body_len(s.skip(1)) == Err::<nat, _>(e),
            },
        decreases input@.len() - i,
    {
        if i >= input.len() {
            proof {
                assert(input@.skip(i as int).len() == 0);
            }
            return Err(ParseError { kind: ErrKind::UnterminatedString, pos });
        }
        let b = input[i];
        proof {
            assert(input@.skip(i as int)[0] == input@[i as int]);
        }
        if b == 0x22 {
            let body = copy_range(input, pos + 1, i);
            proof {
                assert(string_body_len(input@.skip(i as int)) == Ok::<_, ErrKind>(0nat));
                assert(s.subrange(1, (i - pos) as int) =~= input@.subrange(
                    pos as int + 1,
                    i as int,
                ));
            }
            return Ok((i + 1, body));
        } else if b == 0x5c {
            if input.len() - i < 2 {
                return Err(ParseError { kind: ErrKind::UnterminatedString, pos });
            }
            let b2 = input[i + 1];
            proof {
                assert(input@.skip(i as int)[1] == input@[i as int + 1]);
            }
            if single_escape_byte(b2) {
                proof {
                    assert(input@.skip(i as int).skip(2) == input@.skip(i as int + 2)) by {
                        skip_skip(input@, i as int, 2);
                    }
                }
                i = i + 2;
            } else if b2 == 0x75 {
                match escaped_hex(input, i) {
                    Ok(end) => {
                        proof {
                            assert(input@.skip(i as int).skip(6) == input@.skip(i as int + 6))
                                by {
                                skip_skip(input@, i as int, 6);
                            }
                        }
                        i = end;
                    },
                    Err(_) => {
                        return Err(ParseError { kind: ErrKind::InvalidUnicodeEscape, pos });
                    },
                }
            } else {
                return Err(ParseError { kind: ErrKind::InvalidEscape, pos });
            }
        } else if safe_byte(b) {
            proof {
                assert(input@.skip(i as int).skip(1) == input@.skip(i as int + 1)) by {
                    skip_skip(input@, i as int, 1);
                }
            }
            i = i + 1;
        } else {
            return Err(ParseError { kind: ErrKind::UnterminatedString, pos });
        }
    }
}

/// The integer part of a number at `pos`: an optional `-`, then digits
/// with no superfluous leading zero.  Returns the position just past the
/// digits.
fn parse_integer(input: &[u8], pos: usize) -> (r: Result<usize, ParseError>)
    requires
        pos <= input@.len(),
    ensures
        match r {
            Ok(end) => pos < end <= input@.len() && spec_integer(input@.skip(pos as int))
                == Ok::<_, ErrKind>((end - pos) as nat),
            Err(e) => spec_integer(input@.skip(pos as int)) == Err::<nat, _>(e.kind) && e.pos
                <= input@.len(),
        },
{
    let ghost s = input@.skip(pos as int);
    let has_sign = pos < input.len() && input[pos] == 0x2d;
    let ip = if has_sign {
        pos + 1
    } else {
        pos
    };
    proof {
        if pos < input@.len() {
            assert(s[0] == input@[pos as int]);
        }
        assert(s.skip(if has_sign { 1int } else { 0int }) == input@.skip(ip as int)) by {
            skip_skip(input@, pos as int, if has_sign { 1int } else { 0int });
        }
    }
    let ghost t = input@.skip(ip as int);
    let ie = scan_digits(input, ip);
    if ie == ip {
        return Err(ParseError { kind: ErrKind::MalformedNumber, pos });
    }
    proof {
        assert(t[0] == input@[ip as int]);
    }
    if input[ip] == 0x30 && ie - ip > 1 {
        return Err(ParseError { kind: ErrKind::MalformedNumber, pos });
    }
    Ok(ie)
}

/// The optional fractional part at `pos`: nothing, or `.` followed by
/// digits.  Returns the position just past it and the canonical bytes it
/// contributes.
fn parse_fraction(input: &[u8], pos: usize) -> (r: Result<(usize, Vec<u8>), ParseError>)
    requires
        pos <= input@.len(),
    ensures
        match r {
            Ok((end, part)) => pos <= end <= input@.len() && spec_fraction(input@.skip(pos as int))
                == Ok::<_, ErrKind>(((end - pos) as nat, part@)),
            Err(e) => spec_fraction(input@.skip(pos as int)) == Err::<(nat, Seq<u8>), _>(e.kind)
                && e.pos <= input@.len(),
        },
{
    let ghost u = input@.skip(pos as int);
    if pos < input.len() && input[pos] == 0x2e {
        proof {
            assert(u[0] == input@[pos as int]);
            assert(u.skip(1) == input@.skip(pos as int + 1)) by {
                skip_skip(input@, pos as int, 1);
            }
        }
        let fd = scan_digits(input, pos + 1);
        if fd == pos + 1 {
            return Err(ParseError { kind: ErrKind::MalformedNumber, pos });
        }
        let mut part: Vec<u8> = Vec::new();
        part.push(0x2e);
        let mut digits = copy_range(input, pos + 1, fd);
        part.append(&mut digits);
        proof {
            assert(u.subrange(1, (fd - pos) as int) =~= input@.subrange(
                pos as int + 1,
                fd as int,
            ));
            assert(part@ =~= seq![0x2eu8] + u.subrange(1, (fd - pos) as int));
        }
        Ok((fd, part))
    } else {
        proof {
            if pos < input@.len() {
                assert(u[0] == input@[pos as int]);
            }
        }
        Ok((pos, Vec::new()))
    }
}

/// The optional exponent part at `pos`: nothing, or `e`/`E`, an optional
/// sign, and digits.  Returns the position just past it and the
/// canonical bytes it contributes.
fn parse_exponent(input: &[u8], pos: usize) -> (r: Result<(usize, Vec<u8>), ParseError>)
    requires
        pos <= input@.len(),
    ensures
        match r {
            Ok((end, part)) => pos <= end <= input@.len() && spec_exponent(input@.skip(pos as int))
                == Ok::<_, ErrKind>(((end - pos) as nat, part@)),
            Err(e) => spec_exponent(input@.skip(pos as int)) == Err::<(nat, Seq<u8>), _>(e.kind)
                && e.pos <= input@.len(),
        },
{
    let ghost v = input@.skip(pos as int);
    if pos < input.len() && (input[pos] == 0x65 || input[pos] == 0x45) {
        proof {
            assert(v[0] == input@[pos as int]);
            assert(v.skip(1) == input@.skip(pos as int + 1)) by {
                skip_skip(input@, pos as int, 1);
            }
        }
        let has_esign = pos + 1 < input.len() && (input[pos + 1] == 0x2b || input[pos + 1]
            == 0x2d);
        let sg = if has_esign {
            pos + 2
        } else {
            pos + 1
        };
        proof {
            if pos + 1 < input@.len() {
                assert(v.skip(1)[0] == input@[pos as int + 1]);
            }
            assert(v.skip(1).skip(if has_esign { 1int } else { 0int }) == input@.skip(sg as int))
                by {
                skip_skip(input@, pos as int + 1, if has_esign { 1int } else { 0int });
            }
        }
        let de = scan_digits(input, sg);
        if de == sg {
            return Err(ParseError { kind: ErrKind::MalformedNumber, pos });
        }
        let mut part: Vec<u8> = Vec::new();
        part.push(0x45);
        let mut rest = copy_range(input, pos + 1, de);
        part.append(&mut rest);
        proof {
            assert(v.skip(1).subrange(0, (de - pos - 1) as int) =~= input@.subrange(
                pos as int + 1,
                de as int,
            ));
            assert(part@ =~= seq![0x45u8] + v.skip(1).subrange(0, (de - pos - 1) as int));
        }
        Ok((de, part))
    } else {
        proof {
            if pos < input@.len() {
                assert(v[0] == input@[pos as int]);
            }
        }
        Ok((pos, Vec::new()))
    }
}

/// The number production: the integer part, then the optional fraction
/// and exponent.  Returns the position just past the literal and its
/// canonical bytes.
fn parse_number(input: &[u8], pos: usize) -> (r: Result<(usize, Vec<u8>), ParseError>)
    requires
        pos <= input@.len(),
    ensures
        match r {
            Ok((end, canon)) => pos < end <= input@.len() && spec_number(input@.skip(pos as int))
                == Ok::<_, ErrKind>(((end - pos) as nat, canon@)),
            Err(e) => spec_number(input@.skip(pos as int)) == Err::<(nat, Seq<u8>), _>(e.kind)
                && e.pos <= input@.len(),
        },
{
    let ghost s = input@.skip(pos as int);
    let ie = match parse_integer(input, pos) {
        Ok(ie) => ie,
        Err(e) => {
            return Err(e);
        },
    };
    proof {
        assert(s.skip((ie - pos) as int) == input@.skip(ie as int)) by {
            skip_skip(input@, pos as int, (ie - pos) as int);
        }
    }
    let (fe, fpart) = match parse_fraction(input, ie) {
        Ok(p) => p,
        Err(e) => {
            return Err(e);
        },
    };
    proof {
        assert(input@.skip(ie as int).skip((fe - ie) as int) == input@.skip(fe as int)) by {
            skip_skip(input@, ie as int, (fe - ie) as int);
        }
    }
    let (ee, epart) = match parse_exponent(input, fe) {
        Ok(p) => p,
        Err(e) => {
            return Err(e);
        },
    };
    let ghost fseq = fpart@;
    let ghost eseq = epart@;
    let mut canon = copy_range(input, pos, ie);
    let mut f = fpart;
    canon.append(&mut f);
    let mut x = epart;
    canon.append(&mut x);
    proof {
        assert(s.subrange(0, (ie - pos) as int) =~= input@.subrange(pos as int, ie as int));
        assert(canon@ =~= s.subrange(0, (ie - pos) as int) + fseq + eseq);
        assert(spec_number(s) == Ok::<_, ErrKind>(((ee - pos) as nat, canon@)));
    }
    Ok((ee, canon))
}

/// The value production: dispatch on the leading character and commit to
/// the matching alternative.
fn parse_value(input: &[u8], pos: usize) -> (r: Result<(usize, Value), ParseError>)
    requires
        pos <= input@.len(),
    ensures
        match r {
            Ok((end, v)) => {
                &&& pos < end <= input@.len()
                &&& (spec_value(input@.skip(pos as int)) matches Ok((n, g)) && end == pos + n
                    && value_models(v, g))
            },
            Err(e) => {
                &&& (spec_value(input@.skip(pos as int)) matches Err(k) && k == e.kind)
                &&& e.pos <= input@.len()
            },
        },
    decreases input@.len() - pos, 2int,
{
    let ghost s = input@.skip(pos as int);
    if pos >= input.len() {
        return Err(ParseError { kind: ErrKind::NoAlternativeMatched, pos });
    }
    let b = input[pos];
    proof {
        assert(s[0] == input@[pos as int]);
    }
    if b == 0x7b {
        parse_object(input, pos)
    } else if b == 0x5b {
        parse_array(input, pos)
    } else if b == 0x22 {
        match parse_string(input, pos) {
            Ok((end, body)) => Ok((end, Value::String(body))),
            Err(e) => Err(e),
        }
    } else if b == 0x2d || digit_byte(b) {
        match parse_number(input, pos) {
            Ok((end, canon)) => Ok((end, Value::Number(canon))),
            Err(e) => Err(e),
        }
    } else if b == 0x74 {
        if input.len() - pos >= 4 && input[pos + 1] == 0x72 && input[pos + 2] == 0x75 && input[pos
            + 3] == 0x65 {
            proof {
                assert(s[1] == input@[pos as int + 1]);
                assert(s[2] == input@[pos as int + 2]);
                assert(s[3] == input@[pos as int + 3]);
            }
            Ok((pos + 4, Value::True))
        } else {
            proof {
                if s.len() >= 4 {
                    assert(s[1] == input@[pos as int + 1]);
                    assert(s[2] == input@[pos as int + 2]);
                    assert(s[3] == input@[pos as int + 3]);
                }
            }
            Err(ParseError { kind: ErrKind::NoAlternativeMatched, pos })
        }
    } else if b == 0x66 {
        if input.len() - pos >= 5 && input[pos + 1] == 0x61 && input[pos + 2] == 0x6c && input[pos
            + 3] == 0x73 && input[pos + 4] == 0x65 {
            proof {
                assert(s[1] == input@[pos as int + 1]);
                assert(s[2] == input@[pos as int + 2]);
                assert(s[3] == input@[pos as int + 3]);
                assert(s[4] == input@[pos as int + 4]);
            }
            Ok((pos + 5, Value::False))
        } else {
            proof {
                if s.len() >= 5 {
                    assert(s[1] == input@[pos as int + 1]);
                    assert(s[2] == input@[pos as int + 2]);
                    assert(s[3] == input@[pos as int + 3]);
                    assert(s[4] == input@[pos as int + 4]);
                }
            }
            Err(ParseError { kind: ErrKind::NoAlternativeMatched, pos })
        }
    } else if b == 0x6e {
        if input.len() - pos >= 4 && input[pos + 1] == 0x75 && input[pos + 2] == 0x6c && input[pos
            + 3] == 0x6c {
            proof {
                assert(s[1] == input@[pos as int + 1]);
                assert(s[2] == input@[pos as int + 2]);
                assert(s[3] == input@[pos as int + 3]);
            }
            Ok((pos + 4, Value::Null))
        } else {
            proof {
                if s.len() >= 4 {
                    assert(s[1] == input@[pos as int + 1]);
                    assert(s[2] == input@[pos as int + 2]);
                    assert(s[3] == input@[pos as int + 3]);
                }
            }
            Err(ParseError { kind: ErrKind::NoAlternativeMatched, pos })
        }
    } else {
        Err(ParseError { kind: ErrKind::NoAlternativeMatched, pos })
    }
}

/// The object production: `{`, a possibly empty member list, `}`.
#[verifier::rlimit(50)]
fn parse_object(input: &[u8], pos: usize) -> (r: Result<(usize, Value), ParseError>)
    requires
        pos <= input@.len(),
    ensures
        match r {
            Ok((end, v)) => {
                &&& pos < end <= input@.len()
                &&& (spec_object(input@.skip(pos as int)) matches Ok((n, g)) && end == pos + n
                    && value_models(v, g))
            },
            Err(e) => {
                &&& (spec_object(input@.skip(pos as int)) matches Err(k) && k == e.kind)
                &&& e.pos <= input@.len()
            },
        },
    decreases input@.len() - pos, 1int,
{
    let ghost s = input@.skip(pos as int);
    if pos >= input.len() || input[pos] != 0x7b {
        proof {
            if pos < input@.len() {
                assert(s[0] == input@[pos as int]);
            }
        }
        return Err(ParseError { kind: ErrKind::UnterminatedObject, pos });
    }
    proof {
        assert(s[0] == input@[pos as int]);
        assert(s.skip(1) == input@.skip(pos as int + 1)) by {
            skip_skip(input@, pos as int, 1);
        }
    }
    let (p, ms) = parse_members(input, pos + 1);
    proof {
        assert(s.skip(1 + (p - pos - 1)) == input@.skip(p as int)) by {
            skip_skip(input@, pos as int, (p - pos) as int);
        }
    }
    if p < input.len() && input[p] == 0x7d {
        proof {
            assert(input@.skip(p as int)[0] == input@[p as int]);
            let gms = spec_members(input@.skip(pos as int + 1)).1;
            assert(spec_object(s) == Ok::<_, ErrKind>(((p + 1 - pos) as nat, GValue::Object(
                gms,
            ))));
            assert(value_models(Value::Object { members: ms }, GValue::Object(gms)));
        }
        Ok((p + 1, Value::Object { members: ms }))
    } else {
        proof {
            if p < input@.len() {
                assert(input@.skip(p as int)[0] == input@[p as int]);
            }
        }
        Err(ParseError { kind: ErrKind::UnterminatedObject, pos })
    }
}

/// The array production: `[`, a possibly empty element list, `]`.
#[verifier::rlimit(50)]
fn parse_array(input: &[u8], pos: usize) -> (r: Result<(usize, Value), ParseError>)
    requires
        pos <= input@.len(),
    ensures
        match r {
            Ok((end, v)) => {
                &&& pos < end <= input@.len()
                &&& (spec_array(input@.skip(pos as int)) matches Ok((n, g)) && end == pos + n
                    && value_models(v, g))
            },
            Err(e) => {
                &&& (spec_array(input@.skip(pos as int)) matches Err(k) && k == e.kind)
                &&& e.pos <= input@.len()
            },
        },
    decreases input@.len() - pos, 1int,
{
    let ghost s = input@.skip(pos as int);
    if pos >= input.len() || input[pos] != 0x5b {
        proof {
            if pos < input@.len() {
                assert(s[0] == input@[pos as int]);
            }
        }
        return Err(ParseError { kind: ErrKind::UnterminatedArray, pos });
    }
    proof {
        assert(s[0] == input@[pos as int]);
        assert(s.skip(1) == input@.skip(pos as int + 1)) by {
            skip_skip(input@, pos as int, 1);
        }
    }
    let (p, vs) = parse_elements(input, pos + 1);
    proof {
        assert(s.skip(1 + (p - pos - 1)) == input@.skip(p as int)) by {
            skip_skip(input@, pos as int, (p - pos) as int);
        }
    }
    if p < input.len() && input[p] == 0x5d {
        proof {
            assert(input@.skip(p as int)[0] == input@[p as int]);
            let gvs = spec_elements(input@.skip(pos as int + 1)).1;
            assert(spec_array(s) == Ok::<_, ErrKind>(((p + 1 - pos) as nat, GValue::Array(gvs))));
            assert(value_models(Value::Array(vs), GValue::Array(gvs)));
        }
        Ok((p + 1, Value::Array(vs)))
    } else {
        proof {
            if p < input@.len() {
                assert(input@.skip(p as int)[0] == input@[p as int]);
            }
        }
        Err(ParseError { kind: ErrKind::UnterminatedArray, pos })
    }
}

/// A comma-separated member list at `pos`, possibly empty; never fails.
#[verifier::rlimit(50)]
fn parse_members(input: &[u8], pos: usize) -> (r: (usize, Vec<Member>))
    requires
        pos <= input@.len(),
    ensures
        pos <= r.0 <= input@.len(),
        spec_members(input@.skip(pos as int)).0 == r.0 - pos,
        members_model(r.1@, spec_members(input@.skip(pos as int)).1),
    decreases input@.len() - pos, 6int,
{
    let ghost s = input@.skip(pos as int);
    let mut ms: Vec<Member> = Vec::new();
    let mut cur: usize;
    let ghost mut gacc: Seq<GMember>;
    match parse_member(input, pos) {
        Err(_) => {
            return (pos, ms);
        },
        Ok((p, m)) => {
            proof {
                gacc = seq![spec_member(s)->Ok_0.1];
                assert(s.skip((p - pos) as int) == input@.skip(p as int)) by {
                    skip_skip(input@, pos as int, (p - pos) as int);
                }
            }
            ms.push(m);
            cur = p;
        },
    }
    loop
        invariant
            pos <= cur <= input@.len(),
            s == input@.skip(pos as int),
            members_model(ms@, gacc),
            spec_members(s).0 == (cur - pos) + spec_members_more(input@.skip(cur as int)).0,
            spec_members(s).1 == gacc + spec_members_more(input@.skip(cur as int)).1,
        ensures
            pos <= cur <= input@.len(),
            members_model(ms@, gacc),
            spec_members(s).0 == (cur - pos) + spec_members_more(input@.skip(cur as int)).0,
            spec_members(s).1 == gacc + spec_members_more(input@.skip(cur as int)).1,
            spec_members_more(input@.skip(cur as int)).0 == 0,
            spec_members_more(input@.skip(cur as int)).1 == Seq::<GMember>::empty(),
        decreases input@.len() - cur,
    {
        if cur < input.len() && input[cur] == 0x2c {
            let ghost t = input@.skip(cur as int);
            proof {
                assert(t[0] == input@[cur as int]);
                assert(t.skip(1) == input@.skip(cur as int + 1)) by {
                    skip_skip(input@, cur as int, 1);
                }
            }
            match parse_member(input, cur + 1) {
                Ok((p2, m2)) => {
                    proof {
                        let gm2 = spec_member(t.skip(1))->Ok_0.1;
                        assert(t.skip(1 + (p2 - cur - 1)) == input@.skip(p2 as int)) by {
                            skip_skip(input@, cur as int, (p2 - cur) as int);
                        }
                        assert(spec_members_more(t).0 == (p2 - cur) + spec_members_more(
                            input@.skip(p2 as int),
                        ).0);
                        assert(spec_members_more(t).1 == seq![gm2] + spec_members_more(
                            input@.skip(p2 as int),
                        ).1);
                        assert(gacc + spec_members_more(t).1 =~= (gacc + seq![gm2])
                            + spec_members_more(input@.skip(p2 as int)).1);
                        gacc = gacc + seq![gm2];
                    }
                    ms.push(m2);
                    cur = p2;
                },
                Err(_) => {
                    proof {
                        assert(spec_members_more(t).0 == 0);
                    }
                    break ;
                },
            }
        } else {
            proof {
                if cur < input@.len() {
                    assert(input@.skip(cur as int)[0] == input@[cur as int]);
                } else {
                    assert(input@.skip(cur as int).len() == 0);
                }
                assert(spec_members_more(input@.skip(cur as int)).0 == 0);
            }
            break ;
        }
    }
    proof {
        assert(spec_members_more(input@.skip(cur as int)).0 == 0);
        assert(spec_members(s).1 =~= gacc);
    }
    (cur, ms)
}

/// A comma-separated element list at `pos`, possibly empty; never fails.
fn parse_elements(input: &[u8], pos: usize) -> (r: (usize, Vec<Value>))
    requires
        pos <= input@.len(),
    ensures
        pos <= r.0 <= input@.len(),
        spec_elements(input@.skip(pos as int)).0 == r.0 - pos,
        values_model(r.1@, spec_elements(input@.skip(pos as int)).1),
    decreases input@.len() - pos, 6int,
{
    let ghost s = input@.skip(pos as int);
    let mut vs: Vec<Value> = Vec::new();
    let mut cur: usize;
    let ghost mut gacc: Seq<GValue>;
    match parse_element(input, pos) {
        Err(_) => {
            return (pos, vs);
        },
        Ok((p, v)) => {
            proof {
                gacc = seq![spec_element(s)->Ok_0.1];
                assert(s.skip((p - pos) as int) == input@.skip(p as int)) by {
                    skip_skip(input@, pos as int, (p - pos) as int);
                }
            }
            vs.push(v);
            cur = p;
        },
    }
    loop
        invariant
            pos <= cur <= input@.len(),
            s == input@.skip(pos as int),
            values_model(vs@, gacc),
            spec_elements(s).0 == (cur - pos) + spec_elements_more(input@.skip(cur as int)).0,
            spec_elements(s).1 == gacc + spec_elements_more(input@.skip(cur as int)).1,
        ensures
            pos <= cur <= input@.len(),
            values_model(vs@, gacc),
            spec_elements(s).0 == (cur - pos) + spec_elements_more(input@.skip(cur as int)).0,
            spec_elements(s).1 == gacc + spec_elements_more(input@.skip(cur as int)).1,
            spec_elements_more(input@.skip(cur as int)).0 == 0,
            spec_elements_more(input@.skip(cur as int)).1 == Seq::<GValue>::empty(),
        decreases input@.len() - cur,
    {
        if cur < input.len() && input[cur] == 0x2c {
            let ghost t = input@.skip(cur as int);
            proof {
                assert(t[0] == input@[cur as int]);
                assert(t.skip(1) == input@.skip(cur as int + 1)) by {
                    skip_skip(input@, cur as int, 1);
                }
            }
            match parse_element(input, cur + 1) {
                Ok((p2, v2)) => {
                    proof {
                        let gv2 = spec_element(t.skip(1))->Ok_0.1;
                        assert(t.skip(1 + (p2 - cur - 1)) == input@.skip(p2 as int)) by {
                            skip_skip(input@, cur as int, (p2 - cur) as int);
                        }
                        assert(spec_elements_more(t).0 == (p2 - cur) + spec_elements_more(
                            input@.skip(p2 as int),
                        ).0);
                        assert(spec_elements_more(t).1 == seq![gv2] + spec_elements_more(
                            input@.skip(p2 as int),
                        ).1);
                        assert(gacc + spec_elements_more(t).1 =~= (gacc + seq![gv2])
                            + spec_elements_more(input@.skip(p2 as int)).1);
                        gacc = gacc + seq![gv2];
                    }
                    vs.push(v2);
                    cur = p2;
                },
                Err(_) => {
                    proof {
                        assert(spec_elements_more(t).0 == 0);
                    }
                    break ;
                },
            }
        } else {
            proof {
                if cur < input@.len() {
                    assert(input@.skip(cur as int)[0] == input@[cur as int]);
                } else {
                    assert(input@.skip(cur as int).len() == 0);
                }
                assert(spec_elements_more(input@.skip(cur as int)).0 == 0);
            }
            break ;
        }
    }
    proof {
        assert(spec_elements_more(input@.skip(cur as int)).0 == 0);
        assert(spec_elements(s).1 =~= gacc);
    }
    (cur, vs)
}

/// The member production: whitespace, a string key, whitespace, `:`, and
/// an element as the value.
fn parse_member(input: &[u8], pos: usize) -> (r: Result<(usize, Member), ParseError>)
    requires
        pos <= input@.len(),
    ensures
        match r {
            Ok((end, m)) => {
                &&& pos < end <= input@.len()
                &&& (spec_member(input@.skip(pos as int)) matches Ok((n, gm)) && end == pos + n
                    && member_models(m, gm))
            },
            Err(e) => {
                &&& (spec_member(input@.skip(pos as int)) matches Err(k) && k == e.kind)
                &&& e.pos <= input@.len()
            },
        },
    decreases input@.len() - pos, 4int,
{
    let ghost s = input@.skip(pos as int);
    let w0 = skip_ws(input, pos);
    proof {
        assert(s.skip((w0 - pos) as int) == input@.skip(w0 as int)) by {
            skip_skip(input@, pos as int, (w0 - pos) as int);
        }
    }
    match parse_string(input, w0) {
        Err(e) => Err(e),
        Ok((p1, key)) => {
            proof {
                assert(input@.skip(w0 as int).skip((p1 - w0) as int) == input@.skip(p1 as int))
                    by {
                    skip_skip(input@, w0 as int, (p1 - w0) as int);
                }
            }
            let w1 = skip_ws(input, p1);
            proof {
                assert(input@.skip(p1 as int).skip((w1 - p1) as int) == input@.skip(w1 as int))
                    by {
                    skip_skip(input@, p1 as int, (w1 - p1) as int);
                }
            }
            if w1 < input.len() && input[w1] == 0x3a {
                proof {
                    assert(input@.skip(w1 as int)[0] == input@[w1 as int]);
                    assert(input@.skip(w1 as int).skip(1) == input@.skip(w1 as int + 1)) by {
                        skip_skip(input@, w1 as int, 1);
                    }
                }
                match parse_element(input, w1 + 1) {
                    Err(e) => Err(e),
                    Ok((p3, v)) => Ok((p3, Member { key, value: v })),
                }
            } else {
                proof {
                    if w1 < input@.len() {
                        assert(input@.skip(w1 as int)[0] == input@[w1 as int]);
                    } else {
                        assert(input@.skip(w1 as int).len() == 0);
                    }
                }
                Err(ParseError { kind: ErrKind::NoAlternativeMatched, pos: w1 })
            }
        },
    }
}

/// The element production: whitespace, a value, whitespace.
fn parse_element(input: &[u8], pos: usize) -> (r: Result<(usize, Value), ParseError>)
    requires
        pos <= input@.len(),
    ensures
        match r {
            Ok((end, v)) => {
                &&& pos < end <= input@.len()
                &&& (spec_element(input@.skip(pos as int)) matches Ok((n, g)) && end == pos + n
                    && value_models(v, g))
            },
            Err(e) => {
                &&& (spec_element(input@.skip(pos as int)) matches Err(k) && k == e.kind)
                &&& e.pos <= input@.len()
            },
        },
    decreases input@.len() - pos, 3int,
{
    let ghost s = input@.skip(pos as int);
    let w0 = skip_ws(input, pos);
    proof {
        assert(s.skip((w0 - pos) as int) == input@.skip(w0 as int)) by {
            skip_skip(input@, pos as int, (w0 - pos) as int);
        }
    }
    match parse_value(input, w0) {
        Err(e) => Err(e),
        Ok((p, v)) => {
            let w1 = skip_ws(input, p);
            proof {
                assert(input@.skip(w0 as int).skip((p - w0) as int) == input@.skip(p as int))
                    by {
                    skip_skip(input@, w0 as int, (p - w0) as int);
                }
            }
            Ok((w1, v))
        },
    }
}

/// Parses one JSON value at the start of `input` and returns the
/// position where it ends — the start of any trailing data, which the
/// caller is free to inspect — together with the parsed tree.  The whole
/// behaviour, including exactly which inputs fail and with which error
/// kind, is fixed by [`spec_value`].
pub fn json(input: &[u8]) -> (r: Result<(usize, Value), ParseError>)
    ensures
        match r {
            Ok((end, v)) => {
                &&& end <= input@.len()
                &&& (spec_value(input@) matches Ok((n, g)) && end == n && value_models(v, g))
            },
            Err(e) => {
                &&& (spec_value(input@) matches Err(k) && k == e.kind)
                &&& e.pos <= input@.len()
            },
        },
{
    proof {
        assert(input@.skip(0) =~= input@);
    }
    parse_value(input, 0)
}

} // verus!
