use crate::buffer::push_char;
use vstd::prelude::*;
use vstd::string::{StrSliceExecFns, StringExecFns};

verus! {

/// A color as red, green and blue channels.
#[derive(Debug, PartialEq, Eq, Structural)]
pub struct Color {
    pub red: u8,
    pub green: u8,
    pub blue: u8,
}

/// A hexadecimal digit, of either case.
pub open spec fn is_hex_digit(c: char) -> bool {
    let v = c as int;
    (48 <= v <= 57) || (65 <= v <= 70) || (97 <= v <= 102)
}

/// The value of a hexadecimal digit.
pub open spec fn hex_value(c: char) -> int {
    let v = c as int;
    if v <= 57 {
        v - 48
    } else if v <= 70 {
        v - 55
    } else {
        v - 87
    }
}

/// What two characters read as a base-16 byte give: two digits, or a `+` sign and one digit.
pub open spec fn hex_pair(c0: char, c1: char) -> Option<u8> {
    if is_hex_digit(c0) && is_hex_digit(c1) {
        Some((16 * hex_value(c0) + hex_value(c1)) as u8)
    } else if c0 == '+' && is_hex_digit(c1) {
        Some(hex_value(c1) as u8)
    } else {
        None
    }
}

/// The `k`-th pair of characters of `t`, read as a base-16 byte.
pub open spec fn pair_of(t: Seq<char>, k: int) -> Option<u8> {
    hex_pair(t[2 * k], t[2 * k + 1])
}

/// Every pair of characters of `t` reads as a byte.
pub open spec fn pairs_ok(t: Seq<char>) -> bool {
    forall|k: int| 0 <= k < t.len() / 2 ==> #[trigger] pair_of(t, k) is Some
}

/// Each character of `s`, `n` times in a row.
pub open spec fn repeated(s: Seq<char>, n: nat) -> Seq<char>
    decreases s.len(),
{
    if s.len() == 0 {
        seq![]
    } else {
        repeated(s.drop_last(), n) + Seq::new(n, |_i: int| s.last())
    }
}

/// A color code without its leading `#`, with the three-digit shorthand spelled out.
pub open spec fn expand_hex(s: Seq<char>) -> Seq<char> {
    let t = if s.len() > 0 && s[0] == '#' {
        s.skip(1)
    } else {
        s
    };
    if t.len() == 3 {
        repeated(t, 2)
    } else {
        t
    }
}

/// A color code is accepted: three or four bytes of hexadecimal, the fourth being ignored.
pub open spec fn color_parses(s: Seq<char>) -> bool {
    let t = expand_hex(s);
    (t.len() == 6 || t.len() == 8) && pairs_ok(t)
}

/// `r` is what parsing the color code `s` gives: the channels of an accepted code, else the
/// error `empty` for an empty code and `invalid` for any other.
pub open spec fn parsed_as(s: Seq<char>, r: Result<Color, String>) -> bool {
    match r {
        Ok(c) => {
            let t = expand_hex(s);
            &&& color_parses(s)
            &&& pair_of(t, 0) == Some(c.red)
            &&& pair_of(t, 1) == Some(c.green)
            &&& pair_of(t, 2) == Some(c.blue)
        },
        Err(e) => {
            &&& !color_parses(s)
            &&& e@ == if s.len() == 0 {
                "empty"@
            } else {
                "invalid"@
            }
        },
    }
}

/// The value of a hexadecimal digit, if `c` is one.
fn hex_digit(c: char) -> (r: Option<u8>)
    ensures
        r == if is_hex_digit(c) {
            Some(hex_value(c) as u8)
        } else {
            None
        },
{
    let v = c as u32;
    if 48 <= v && v <= 57 {
        Some((v - 48) as u8)
    } else if 65 <= v && v <= 70 {
        Some((v - 55) as u8)
    } else if 97 <= v && v <= 102 {
        Some((v - 87) as u8)
    } else {
        None
    }
}

/// Reads two characters as a base-16 byte: two digits, or a `+` sign and one digit.
fn parse_hex_byte(s: &str) -> (r: Option<u8>)
    requires
        s@.len() == 2,
    ensures
        r == hex_pair(s@[0], s@[1]),
{
    let c0 = s.get_char(0);
    let c1 = s.get_char(1);
    match (hex_digit(c0), hex_digit(c1)) {
        (Some(d0), Some(d1)) => Some(16 * d0 + d1),
        (None, Some(d1)) => if c0 == '+' {
            Some(d1)
        } else {
            None
        },
        _ => None,
    }
}

/// The text after its first `pos` characters.
fn crop_letters(s: &str, pos: usize) -> (r: &str)
    ensures
        r@ == if pos < s@.len() {
            s@.skip(pos as int)
        } else {
            Seq::<char>::empty()
        },
{
    let n = s.unicode_len();
    if pos < n {
        let r = s.substring_char(pos, n);
        assert(r@ =~= s@.skip(pos as int));
        r
    } else {
        proof {
            reveal_strlit("");
        }
        ""
    }
}

/// Each character written `repetitions + 1` times in a row (none for a negative count).
fn repeat_letters(s: &str, repetitions: i32) -> (r: String)
    ensures
        r@ == repeated(s@, if repetitions < 0 { 0 } else { (repetitions + 1) as nat }),
{
    let times: u64 = if repetitions < 0 {
        0
    } else {
        repetitions as u64 + 1
    };
    let ghost n = times as nat;
    let mut output = String::new();
    let len = s.unicode_len();
    let mut i: usize = 0;
    while i < len
        invariant
            i <= len == s@.len(),
            n == times,
            output@ == repeated(s@.take(i as int), n),
        decreases len - i,
    {
        let c = s.get_char(i);
        let ghost base = output@;
        let mut j: u64 = 0;
        while j < times
            invariant
                j <= times,
                n == times,
                output@ == base + Seq::new(j as nat, |_k: int| c),
            decreases times - j,
        {
            push_char(&mut output, c);
            j += 1;
            assert(output@ =~= base + Seq::new(j as nat, |_k: int| c));
        }
        i += 1;
        assert(s@.take(i as int).drop_last() =~= s@.take(i - 1));
        assert(s@.take(i as int).last() == c);
    }
    assert(s@.take(len as int) =~= s@);
    output
}

/// The bytes that consecutive pairs of hexadecimal digits give; nothing if a pair is not one.
fn decode_hex(s: &str) -> (r: Option<Vec<u8>>)
    requires
        s@.len() % 2 == 0,
    ensures
        r is Some <==> pairs_ok(s@),
        r matches Some(v) ==> v@.len() == s@.len() / 2 && forall|k: int|
            0 <= k < v@.len() ==> pair_of(s@, k) == Some(#[trigger] v@[k]),
{
    let len = s.unicode_len();
    let half = len / 2;
    let mut out: Vec<u8> = Vec::new();
    let mut k: usize = 0;
    while k < half
        invariant
            half == s@.len() / 2,
            len == s@.len(),
            k <= half,
            out@.len() == k,
            forall|j: int| 0 <= j < k ==> pair_of(s@, j) == Some(#[trigger] out@[j]),
        decreases half - k,
    {
        let piece = s.substring_char(2 * k, 2 * k + 2);
        match parse_hex_byte(piece) {
            Some(b) => out.push(b),
            None => {
                assert(pair_of(s@, k as int) is None);
                return None;
            },
        }
        k += 1;
    }
    assert forall|j: int| 0 <= j < s@.len() / 2 implies #[trigger] pair_of(s@, j) is Some by {
        assert(pair_of(s@, j) == Some(out@[j]));
    }
    Some(out)
}

/// Writing each character `n` times multiplies the length by `n`.
proof fn lemma_repeated_len(s: Seq<char>, n: nat)
    ensures
        repeated(s, n).len() == s.len() * n,
    decreases s.len(),
{
    if s.len() > 0 {
        lemma_repeated_len(s.drop_last(), n);
        assert(s.len() * n == (s.len() - 1) * n + n) by (nonlinear_arith);
    }
}

impl Color {
    /// Parses a color code: an optional `#`, then six or eight hexadecimal digits, or the
    /// three-digit shorthand in which each digit stands for two. An empty code gives the
    /// error `empty`, any other unaccepted code the error `invalid`.
    pub fn new(hex_code: &str) -> (r: Result<Color, String>)
        ensures
            parsed_as(hex_code@, r),
    {
        if hex_code.unicode_len() == 0 {
            return Err(String::from_str("empty"));
        }
        let stripped = if hex_code.get_char(0) == '#' {
            crop_letters(hex_code, 1)
        } else {
            hex_code
        };
        let expanded = if stripped.unicode_len() == 3 {
            proof {
                lemma_repeated_len(stripped@, 2);
            }
            repeat_letters(stripped, 1)
        } else {
            stripped.to_owned()
        };
        assert(expanded@ == expand_hex(hex_code@));
        let n = expanded.as_str().unicode_len();
        if n % 2 != 0 {
            return Err(String::from_str("invalid"));
        }
        let decoded = match decode_hex(expanded.as_str()) {
            Some(v) => v,
            None => {
                return Err(String::from_str("invalid"));
            },
        };
        if decoded.len() < 3 || decoded.len() > 4 {
            return Err(String::from_str("invalid"));
        }
        Ok(Color { red: decoded[0], green: decoded[1], blue: decoded[2] })
    }
}

/// Parses a color code as `Color::new` does.
pub fn convert_hexcode_to_rgb(hex_code: String) -> (r: Result<Color, String>)
    ensures
        parsed_as(hex_code@, r),
{
    match Color::new(hex_code.as_str()) {
        Ok(color) => Ok(color),
        Err(e) => Err(e),
    }
}

} // verus!
