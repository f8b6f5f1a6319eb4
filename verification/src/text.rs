//! Building text: decimal numbers, fixed-point numbers, padding and JSON
//! string literals, each appended to a `String` and each specified as a
//! sequence of characters.

use vstd::prelude::*;
use vstd::string::StringExecFns;
use vstd::string::StrSliceExecFns;
use crate::fixed::{FIXED_ONE, FIXED_PLACES};

verus! {

/// The character for a digit below sixteen: `0` to `9`, then `a` to `f`.
pub open spec fn digit(d: nat) -> char {
    if d < 10 {
        ('0' as nat + d) as char
    } else {
        ('a' as nat + d - 10) as char
    }
}

/// `n` in decimal, without leading zeros.
pub open spec fn decimal(n: nat) -> Seq<char>
    decreases n,
{
    if n < 10 {
        seq![digit(n)]
    } else {
        decimal(n / 10).push(digit(n % 10))
    }
}

/// The last `places` decimal digits of `n`, zeros included.
pub open spec fn last_digits(n: nat, places: nat) -> Seq<char>
    decreases places,
{
    if places == 0 {
        Seq::empty()
    } else {
        last_digits(n / 10, (places - 1) as nat).push(digit(n % 10))
    }
}

/// A fixed-point number in decimal: sign, whole part, point and six
/// places.
pub open spec fn fixed_decimal(v: int) -> Seq<char> {
    let magnitude = (if v < 0 { -v } else { v }) as nat;
    let sign = if v < 0 { seq!['-'] } else { Seq::empty() };
    sign + decimal(magnitude / (FIXED_ONE as nat)).push('.') + last_digits(
        magnitude % (FIXED_ONE as nat),
        FIXED_PLACES as nat,
    )
}

/// A whole number in decimal, with a minus sign where it is negative.
pub open spec fn integer(v: int) -> Seq<char> {
    if v < 0 {
        seq!['-'] + decimal((-v) as nat)
    } else {
        decimal(v as nat)
    }
}

/// `n` spaces.
pub open spec fn spaces(n: nat) -> Seq<char> {
    Seq::new(n, |i: int| ' ')
}

/// `cell`, followed by the spaces that bring it to `width` characters.
pub open spec fn padded(cell: Seq<char>, width: nat) -> Seq<char> {
    if cell.len() >= width {
        cell
    } else {
        cell + spaces((width - cell.len()) as nat)
    }
}

/// One character inside a JSON string literal.
pub open spec fn json_escaped_char(c: char) -> Seq<char> {
    if c == '"' {
        seq!['\\', '"']
    } else if c == '\\' {
        seq!['\\', '\\']
    } else if (c as nat) < 0x20 {
        seq!['\\', 'u', '0', '0', digit((c as nat) / 16), digit((c as nat) % 16)]
    } else {
        seq![c]
    }
}

/// The characters of `s` as they stand inside a JSON string literal.
pub open spec fn json_escaped(s: Seq<char>) -> Seq<char>
    decreases s.len(),
{
    if s.len() == 0 {
        Seq::empty()
    } else {
        json_escaped(s.drop_last()) + json_escaped_char(s.last())
    }
}

/// `s` as a JSON string literal, quotes included.
pub open spec fn json_string(s: Seq<char>) -> Seq<char> {
    seq!['"'] + json_escaped(s).push('"')
}

/// The one-character text of a digit.
fn digit_text(d: u8) -> (text: &'static str)
    requires
        d < 16,
    ensures
        text@ == seq![digit(d as nat)],
{
    proof {
        reveal_strlit("0");
        reveal_strlit("1");
        reveal_strlit("2");
        reveal_strlit("3");
        reveal_strlit("4");
        reveal_strlit("5");
        reveal_strlit("6");
        reveal_strlit("7");
        reveal_strlit("8");
        reveal_strlit("9");
        reveal_strlit("a");
        reveal_strlit("b");
        reveal_strlit("c");
        reveal_strlit("d");
        reveal_strlit("e");
        reveal_strlit("f");
    }
    let text = match d {
        0 => "0",
        1 => "1",
        2 => "2",
        3 => "3",
        4 => "4",
        5 => "5",
        6 => "6",
        7 => "7",
        8 => "8",
        9 => "9",
        10 => "a",
        11 => "b",
        12 => "c",
        13 => "d",
        14 => "e",
        _ => "f",
    };
    assert(text@ =~= seq![digit(d as nat)]);
    text
}

/// Appends `n` in decimal.
pub fn append_decimal(out: &mut String, n: u64)
    ensures
        final(out)@ == old(out)@ + decimal(n as nat),
    decreases n,
{
    if n >= 10 {
        append_decimal(out, n / 10);
    }
    out.append(digit_text((n % 10) as u8));
    assert(out@ =~= old(out)@ + decimal(n as nat));
}

/// `n` in decimal, as a text of its own.
pub fn decimal_text(n: u64) -> (text: String)
    ensures
        text@ == decimal(n as nat),
{
    let mut text = String::new();
    append_decimal(&mut text, n);
    assert(text@ =~= decimal(n as nat));
    text
}

/// The size of a 64-bit value without its sign.
fn magnitude_of(v: i64) -> (m: u64)
    ensures
        m == (if v < 0 {
            -v
        } else {
            v as int
        }),
{
    if v < 0 {
        ((-(v + 1)) as u64) + 1
    } else {
        v as u64
    }
}

/// Appends a whole number in decimal.
pub fn append_integer(out: &mut String, v: i64)
    ensures
        final(out)@ == old(out)@ + integer(v as int),
{
    proof {
        reveal_strlit("-");
    }
    if v < 0 {
        out.append("-");
    }
    append_decimal(out, magnitude_of(v));
    assert(out@ =~= old(out)@ + integer(v as int));
}

/// Appends the last `places` decimal digits of `n`.
fn append_last_digits(out: &mut String, n: u64, places: usize)
    ensures
        final(out)@ == old(out)@ + last_digits(n as nat, places as nat),
    decreases places,
{
    if places > 0 {
        append_last_digits(out, n / 10, places - 1);
        out.append(digit_text((n % 10) as u8));
    }
    assert(out@ =~= old(out)@ + last_digits(n as nat, places as nat));
}

/// Appends a fixed-point number in decimal.
pub fn append_fixed(out: &mut String, v: i64)
    ensures
        final(out)@ == old(out)@ + fixed_decimal(v as int),
{
    proof {
        reveal_strlit("-");
        reveal_strlit(".");
    }
    if v < 0 {
        out.append("-");
    }
    let magnitude: u64 = magnitude_of(v);
    append_decimal(out, magnitude / (FIXED_ONE as u64));
    out.append(".");
    append_last_digits(out, magnitude % (FIXED_ONE as u64), FIXED_PLACES);
    assert(out@ =~= old(out)@ + fixed_decimal(v as int));
}

/// Appends `cell` and pads it with spaces to `width` characters.
pub fn append_padded(out: &mut String, cell: &str, width: usize)
    ensures
        final(out)@ == old(out)@ + padded(cell@, width as nat),
{
    out.append(cell);
    let mut len: usize = cell.unicode_len();
    while len < width
        invariant
            cell@.len() <= len,
            len <= width || len == cell@.len(),
            out@ == old(out)@ + cell@ + spaces((len - cell@.len()) as nat),
        decreases width - len,
    {
        proof {
            reveal_strlit(" ");
        }
        out.append(" ");
        len = len + 1;
        assert(out@ =~= old(out)@ + cell@ + spaces((len - cell@.len()) as nat));
    }
    assert(out@ =~= old(out)@ + padded(cell@, width as nat));
}

/// Appends `s` as a JSON string literal.
pub fn append_json_string(out: &mut String, s: &str)
    ensures
        final(out)@ == old(out)@ + json_string(s@),
{
    proof {
        reveal_strlit("\"");
    }
    out.append("\"");
    let len: usize = s.unicode_len();
    let mut i: usize = 0;
    while i < len
        invariant
            len == s@.len(),
            i <= len,
            out@ == old(out)@ + seq!['"'] + json_escaped(s@.subrange(0, i as int)),
        decreases len - i,
    {
        let c: char = s.get_char(i);
        let ghost before = out@;
        proof {
            reveal_strlit("\\\"");
            reveal_strlit("\\\\");
            reveal_strlit("\\u00");
        }
        if c == '"' {
            out.append("\\\"");
        } else if c == '\\' {
            out.append("\\\\");
        } else if (c as u32) < 0x20 {
            let code: u8 = c as u8;
            out.append("\\u00");
            out.append(digit_text(code / 16));
            out.append(digit_text(code % 16));
        } else {
            out.append(s.substring_char(i, i + 1));
        }
        proof {
            assert(s@.subrange(i as int, i + 1) =~= seq![c]);
            assert(out@ =~= before + json_escaped_char(c));
            assert(s@.subrange(0, i + 1).drop_last() =~= s@.subrange(0, i as int));
            assert(s@.subrange(0, i + 1).last() == c);
        }
        i = i + 1;
    }
    out.append("\"");
    assert(s@.subrange(0, len as int) =~= s@);
    assert(out@ =~= old(out)@ + json_string(s@));
}

} // verus!
