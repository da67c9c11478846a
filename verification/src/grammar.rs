//! The mathematical model of the JSON grammar.
//!
//! Each production is a spec function over the remaining input, a byte
//! sequence.  A successful parse yields the number of bytes the production
//! consumes together with the parsed model value; a failure yields the
//! error kind.  The executable parser is verified to agree with these
//! functions exactly, so they are the single statement of what the
//! library accepts and returns.
//!
//! Recursion in the mutually recursive productions terminates because a
//! nested production always starts strictly later in the input.  The
//! skip counts fed to `Seq::skip` never exceed the input length; the
//! explicit bounds checks below restate that so the recursion measure is
//! visibly decreasing, and their failure branches are never reached.

use vstd::prelude::*;

use crate::ast::{ErrKind, GMember, GValue};

verus! {

/// Insignificant whitespace: space, tab, newline, carriage return.
pub open spec fn is_ws_byte(b: u8) -> bool {
    b == 0x20 || b == 0x09 || b == 0x0a || b == 0x0d
}

/// An ASCII decimal digit.
pub open spec fn is_digit_byte(b: u8) -> bool {
    0x30 <= b <= 0x39
}

/// An ASCII hexadecimal digit, either case.
pub open spec fn is_hex_byte(b: u8) -> bool {
    is_digit_byte(b) || (0x61 <= b <= 0x66) || (0x41 <= b <= 0x46)
}

/// A byte that may stand unescaped inside a string literal: anything but
/// an ASCII control character, the quote, and the backslash.  Bytes of
/// multi-byte UTF-8 characters are all at or above 0x80 and are safe.
pub open spec fn is_safe_byte(b: u8) -> bool {
    !(b <= 0x1f || b == 0x7f) && b != 0x22 && b != 0x5c
}

/// A character that may follow a backslash as a one-character escape:
/// one of `"` `\` `/` `b` `f` `n` `r` `t`.
pub open spec fn is_single_escape_byte(b: u8) -> bool {
    ||| b == 0x22
    ||| b == 0x5c
    ||| b == 0x2f
    ||| b == 0x62
    ||| b == 0x66
    ||| b == 0x6e
    ||| b == 0x72
    ||| b == 0x74
}

/// The number of insignificant whitespace bytes at the head of `s`.
pub open spec fn ws_len(s: Seq<u8>) -> nat
    decreases s.len(),
{
    if s.len() > 0 && is_ws_byte(s[0]) {
        1 + ws_len(s.skip(1))
    } else {
        0
    }
}

/// The number of decimal digits at the head of `s`.
pub open spec fn digit_run(s: Seq<u8>) -> nat
    decreases s.len(),
{
    if s.len() > 0 && is_digit_byte(s[0]) {
        1 + digit_run(s.skip(1))
    } else {
        0
    }
}

/// A well-formed `\uXXXX` escape stands at the head of `s`.
pub open spec fn is_unicode_escape(s: Seq<u8>) -> bool {
    s.len() >= 6 && s[0] == 0x5c && s[1] == 0x75 && is_hex_byte(s[2]) && is_hex_byte(s[3])
        && is_hex_byte(s[4]) && is_hex_byte(s[5])
}

/// Scans the interior of a string literal, `s` being the input just after
/// the opening quote.  On success the result is the length of the
/// interior: the closing quote stands at that index.
pub open spec fn string_body_len(s: Seq<u8>) -> Result<nat, ErrKind>
    decreases s.len(),
{
    if s.len() == 0 {
        Err(ErrKind::UnterminatedString)
    } else if s[0] == 0x22 {
        Ok(0)
    } else if s[0] == 0x5c {
        if s.len() < 2 {
            Err(ErrKind::UnterminatedString)
        } else if is_single_escape_byte(s[1]) {
            match string_body_len(s.skip(2)) {
                Ok(n) => Ok(n + 2),
                Err(e) => Err(e),
            }
        } else if s[1] == 0x75 {
            if is_unicode_escape(s) {
                match string_body_len(s.skip(6)) {
                    Ok(n) => Ok(n + 6),
                    Err(e) => Err(e),
                }
            } else {
                Err(ErrKind::InvalidUnicodeEscape)
            }
        } else {
            Err(ErrKind::InvalidEscape)
        }
    } else if is_safe_byte(s[0]) {
        match string_body_len(s.skip(1)) {
            Ok(n) => Ok(n + 1),
            Err(e) => Err(e),
        }
    } else {
        Err(ErrKind::UnterminatedString)
    }
}

/// The string production: an opening quote, an interior of safe
/// characters and escape sequences, a closing quote.  Yields the consumed
/// length and the interior bytes, verbatim.
pub open spec fn spec_string(s: Seq<u8>) -> Result<(nat, Seq<u8>), ErrKind> {
    if s.len() == 0 || s[0] != 0x22 {
        Err(ErrKind::UnterminatedString)
    } else {
        match string_body_len(s.skip(1)) {
            Ok(n) => Ok(((n + 2) as nat, s.subrange(1, 1 + n as int))),
            Err(e) => Err(e),
        }
    }
}

/// The optional fractional part: nothing, or `.` followed by one or more
/// digits.  Yields the consumed length and the canonical bytes it
/// contributes (`.` and the digits, or nothing).
pub open spec fn spec_fraction(s: Seq<u8>) -> Result<(nat, Seq<u8>), ErrKind> {
    if s.len() > 0 && s[0] == 0x2e {
        let m = digit_run(s.skip(1));
        if m == 0 {
            Err(ErrKind::MalformedNumber)
        } else {
            Ok(((1 + m) as nat, seq![0x2eu8] + s.subrange(1, 1 + m as int)))
        }
    } else {
        Ok((0, Seq::empty()))
    }
}

/// The optional exponent part: nothing, or `e`/`E`, an optional sign, and
/// one or more digits.  Yields the consumed length and the canonical
/// bytes it contributes (`E`, then the sign and digits as written, or
/// nothing).
pub open spec fn spec_exponent(s: Seq<u8>) -> Result<(nat, Seq<u8>), ErrKind> {
    if s.len() > 0 && (s[0] == 0x65 || s[0] == 0x45) {
        let t = s.skip(1);
        let sg: nat = if t.len() > 0 && (t[0] == 0x2b || t[0] == 0x2d) {
            1
        } else {
            0
        };
        let d = digit_run(t.skip(sg as int));
        if d == 0 {
            Err(ErrKind::MalformedNumber)
        } else {
            Ok(((1 + sg + d) as nat, seq![0x45u8] + t.subrange(0, (sg + d) as int)))
        }
    } else {
        Ok((0, Seq::empty()))
    }
}

/// The integer part of a number: an optional `-`, then either the single
/// digit `0` or a nonzero digit followed by more digits.  Yields the
/// consumed length; the canonical bytes are the consumed prefix itself.
pub open spec fn spec_integer(s: Seq<u8>) -> Result<nat, ErrKind> {
    let sign: nat = if s.len() > 0 && s[0] == 0x2d {
        1
    } else {
        0
    };
    let t = s.skip(sign as int);
    let n = digit_run(t);
    if n == 0 {
        Err(ErrKind::MalformedNumber)
    } else if n > 1 && t[0] == 0x30 {
        Err(ErrKind::MalformedNumber)
    } else {
        Ok((sign + n) as nat)
    }
}

/// The number production: the integer part, then the optional fraction
/// and exponent.  Yields the consumed length and the canonical literal:
/// the sign and integer digits as written, then the fraction and
/// exponent parts in their canonical forms.
pub open spec fn spec_number(s: Seq<u8>) -> Result<(nat, Seq<u8>), ErrKind> {
    match spec_integer(s) {
        Err(e) => Err(e),
        Ok(k) => {
            let u = s.skip(k as int);
            match spec_fraction(u) {
                Err(e) => Err(e),
                Ok((fl, fpart)) => match spec_exponent(u.skip(fl as int)) {
                    Err(e) => Err(e),
                    Ok((el, epart)) => Ok(
                        ((k + fl + el) as nat, s.subrange(0, k as int) + fpart + epart),
                    ),
                },
            }
        },
    }
}

/// The value production: dispatch on the leading character, which the six
/// alternatives never share, and commit to the matching production.
pub open spec fn spec_value(s: Seq<u8>) -> Result<(nat, GValue), ErrKind>
    decreases s.len(), 2int,
{
    if s.len() == 0 {
        Err(ErrKind::NoAlternativeMatched)
    } else if s[0] == 0x7b {
        spec_object(s)
    } else if s[0] == 0x5b {
        spec_array(s)
    } else if s[0] == 0x22 {
        match spec_string(s) {
            Ok((n, body)) => Ok((n, GValue::Text(body))),
            Err(e) => Err(e),
        }
    } else if s[0] == 0x2d || is_digit_byte(s[0]) {
        match spec_number(s) {
            Ok((n, canon)) => Ok((n, GValue::Number(canon))),
            Err(e) => Err(e),
        }
    } else if s[0] == 0x74 {
        if s.len() >= 4 && s[1] == 0x72 && s[2] == 0x75 && s[3] == 0x65 {
            Ok((4, GValue::True))
        } else {
            Err(ErrKind::NoAlternativeMatched)
        }
    } else if s[0] == 0x66 {
        if s.len() >= 5 && s[1] == 0x61 && s[2] == 0x6c && s[3] == 0x73 && s[4] == 0x65 {
            Ok((5, GValue::False))
        } else {
            Err(ErrKind::NoAlternativeMatched)
        }
    } else if s[0] == 0x6e {
        if s.len() >= 4 && s[1] == 0x75 && s[2] == 0x6c && s[3] == 0x6c {
            Ok((4, GValue::Null))
        } else {
            Err(ErrKind::NoAlternativeMatched)
        }
    } else {
        Err(ErrKind::NoAlternativeMatched)
    }
}

/// The object production: `{`, a possibly empty member list, `}`.
pub open spec fn spec_object(s: Seq<u8>) -> Result<(nat, GValue), ErrKind>
    decreases s.len(), 1int,
{
    if s.len() == 0 || s[0] != 0x7b {
        Err(ErrKind::UnterminatedObject)
    } else {
        let (n, ms) = spec_members(s.skip(1));
        let rest = s.skip(1 + n as int);
        if rest.len() > 0 && rest[0] == 0x7d {
            Ok(((n + 2) as nat, GValue::Object(ms)))
        } else {
            Err(ErrKind::UnterminatedObject)
        }
    }
}

/// The array production: `[`, a possibly empty element list, `]`.
pub open spec fn spec_array(s: Seq<u8>) -> Result<(nat, GValue), ErrKind>
    decreases s.len(), 1int,
{
    if s.len() == 0 || s[0] != 0x5b {
        Err(ErrKind::UnterminatedArray)
    } else {
        let (n, vs) = spec_elements(s.skip(1));
        let rest = s.skip(1 + n as int);
        if rest.len() > 0 && rest[0] == 0x5d {
            Ok(((n + 2) as nat, GValue::Array(vs)))
        } else {
            Err(ErrKind::UnterminatedArray)
        }
    }
}

/// A comma-separated member list, possibly empty.  The list ends before
/// the first position where no further member can be read; a separator
/// not followed by a member is left unconsumed.  This production never
/// fails.
pub open spec fn spec_members(s: Seq<u8>) -> (nat, Seq<GMember>)
    decreases s.len(), 6int,
{
    match spec_member(s) {
        Err(_) => (0, Seq::empty()),
        Ok((n, m)) => if n > s.len() {
            (n, seq![m])
        } else {
            let (n2, ms) = spec_members_more(s.skip(n as int));
            ((n + n2) as nat, seq![m] + ms)
        },
    }
}

/// The continuation of a member list: zero or more `,` member pairs.
pub open spec fn spec_members_more(s: Seq<u8>) -> (nat, Seq<GMember>)
    decreases s.len(), 5int,
{
    if s.len() > 0 && s[0] == 0x2c {
        match spec_member(s.skip(1)) {
            Err(_) => (0, Seq::empty()),
            Ok((n, m)) => if 1 + n > s.len() {
                ((1 + n) as nat, seq![m])
            } else {
                let (n2, ms) = spec_members_more(s.skip(1 + n as int));
                ((1 + n + n2) as nat, seq![m] + ms)
            },
        }
    } else {
        (0, Seq::empty())
    }
}

/// The member production: whitespace, a string key, whitespace, `:`, and
/// an element as the value.
pub open spec fn spec_member(s: Seq<u8>) -> Result<(nat, GMember), ErrKind>
    decreases s.len(), 4int,
{
    let w0 = ws_len(s);
    if w0 > s.len() {
        Err(ErrKind::NoAlternativeMatched)
    } else {
        let t0 = s.skip(w0 as int);
        match spec_string(t0) {
            Err(e) => Err(e),
            Ok((k, key)) => if k > t0.len() {
                Err(ErrKind::NoAlternativeMatched)
            } else {
                let t1 = t0.skip(k as int);
                let w1 = ws_len(t1);
                if w1 > t1.len() {
                    Err(ErrKind::NoAlternativeMatched)
                } else {
                    let t2 = t1.skip(w1 as int);
                    if t2.len() > 0 && t2[0] == 0x3a {
                        match spec_element(t2.skip(1)) {
                            Err(e) => Err(e),
                            Ok((n, v)) => Ok(
                                ((w0 + k + w1 + 1 + n) as nat, GMember { key, value: v }),
                            ),
                        }
                    } else {
                        Err(ErrKind::NoAlternativeMatched)
                    }
                }
            },
        }
    }
}

/// A comma-separated element list, possibly empty, ending as a member
/// list does.  This production never fails.
pub open spec fn spec_elements(s: Seq<u8>) -> (nat, Seq<GValue>)
    decreases s.len(), 6int,
{
    match spec_element(s) {
        Err(_) => (0, Seq::empty()),
        Ok((n, v)) => if n > s.len() {
            (n, seq![v])
        } else {
            let (n2, vs) = spec_elements_more(s.skip(n as int));
            ((n + n2) as nat, seq![v] + vs)
        },
    }
}

/// The continuation of an element list: zero or more `,` element pairs.
pub open spec fn spec_elements_more(s: Seq<u8>) -> (nat, Seq<GValue>)
    decreases s.len(), 5int,
{
    if s.len() > 0 && s[0] == 0x2c {
        match spec_element(s.skip(1)) {
            Err(_) => (0, Seq::empty()),
            Ok((n, v)) => if 1 + n > s.len() {
                ((1 + n) as nat, seq![v])
            } else {
                let (n2, vs) = spec_elements_more(s.skip(1 + n as int));
                ((1 + n + n2) as nat, seq![v] + vs)
            },
        }
    } else {
        (0, Seq::empty())
    }
}

/// The element production: whitespace, a value, whitespace.
pub open spec fn spec_element(s: Seq<u8>) -> Result<(nat, GValue), ErrKind>
    decreases s.len(), 3int,
{
    let w0 = ws_len(s);
    if w0 > s.len() {
        Err(ErrKind::NoAlternativeMatched)
    } else {
        match spec_value(s.skip(w0 as int)) {
            Err(e) => Err(e),
            Ok((n, v)) => {
                let w1 = ws_len(s.skip(w0 as int).skip(n as int));
                Ok(((w0 + n + w1) as nat, v))
            },
        }
    }
}

} // verus!
