//! The size of an SVG document.

use vstd::prelude::*;
use vstd::slice::slice_subrange;
use vstd::string::StrSliceExecFns;
use vstd::utf8::{decode_utf8, valid_utf8};

use crate::patterns::{captured, find_captures, group_texts, match_texts};
use crate::platform::{all_digits, digits_value, find_char, position};

verus! {

/// Bytes as text, with the replacement character for what is no UTF-8.
pub uninterp spec fn lossy_text(bytes: Seq<u8>) -> Seq<char>;

/// Reads bytes as text with `String::from_utf8_lossy`.  Valid UTF-8 is decoded as
/// it is; how many replacement characters stand for anything else is left unsaid.
#[verifier::external_body]
fn read_lossy(bytes: &[u8]) -> (text: String)
    ensures
        text@ == lossy_text(bytes@),
        valid_utf8(bytes@) ==> text@ == decode_utf8(bytes@),
{
    String::from_utf8_lossy(bytes).into_owned()
}

/// Ten to the power of `n`.
pub open spec fn ten_to(n: nat) -> nat
    decreases n,
{
    if n == 0 {
        1
    } else {
        10 * ten_to((n - 1) as nat)
    }
}

/// How many halves of the distance between two double-precision numbers just
/// below `n + 1` fit into one: 2 to the power of 54 less the binary digits of `n`.
pub open spec fn half_steps(n: nat) -> nat
    decreases n,
{
    if n == 0 {
        0x40_0000_0000_0000
    } else {
        half_steps(n / 2) / 2
    }
}

/// Whether the number with the whole part `n` and these digits behind the point
/// is read as `n + 1` in double precision: it lies within half a distance of it.
pub open spec fn rounds_up(n: nat, fraction: Seq<char>) -> bool {
    (ten_to(fraction.len()) - digits_value(fraction)) * half_steps(n) <= ten_to(fraction.len())
}

/// The digits before the point of a number, and those behind it.
pub open spec fn number_parts(text: Seq<char>) -> (Seq<char>, Seq<char>) {
    let point = find_char(text, '.', 0);
    if point < text.len() {
        (text.take(point), text.skip(point + 1))
    } else {
        (text, Seq::empty())
    }
}

/// A decimal number read in double precision, without what is behind the point;
/// the largest number if it does not fit, and zero if the text is no number.
pub open spec fn whole_number(text: Seq<char>) -> u32 {
    let (whole, fraction) = number_parts(text);
    let n = digits_value(whole);
    if !all_digits(whole) || !all_digits(fraction) || whole.len() + fraction.len() == 0 {
        0
    } else if n >= u32::MAX {
        u32::MAX
    } else if rounds_up(n, fraction) {
        (n + 1) as u32
    } else {
        n as u32
    }
}

/// How far the scaled distance from one exceeds one, for the first digits of a
/// fraction.
spec fn excess(fraction: Seq<char>, steps: nat) -> int {
    (ten_to(fraction.len()) - digits_value(fraction)) * steps - ten_to(fraction.len())
}

proof fn lemma_excess_step(fraction: Seq<char>, steps: nat)
    requires
        fraction.len() > 0,
        all_digits(fraction),
    ensures
        excess(fraction, steps) == 10 * excess(fraction.drop_last(), steps) - (
        fraction.last() as int - '0' as int) * steps,
        0 <= fraction.last() as int - '0' as int <= 9,
{
    let before = fraction.drop_last();
    let power = ten_to(before.len());
    let value = digits_value(before);
    let d = fraction.last() as int - '0' as int;
    assert('0' <= fraction[fraction.len() - 1] <= '9');
    assert(ten_to(fraction.len()) == 10 * power);
    assert(digits_value(fraction) == 10 * value + d);
    assert((10 * power - (10 * value + d)) * steps - 10 * power == 10 * ((power - value) * steps
        - power) - d * steps) by (nonlinear_arith);
}

/// A fraction that has come close enough stays so, and one that is too far stays so.
proof fn lemma_excess_settles(fraction: Seq<char>, steps: nat, n: int)
    requires
        0 <= n <= fraction.len(),
        all_digits(fraction),
    ensures
        excess(fraction.take(n), steps) <= 0 ==> excess(fraction, steps) <= 0,
        excess(fraction.take(n), steps) >= steps ==> excess(fraction, steps) >= steps,
    decreases fraction.len() - n,
{
    if n == fraction.len() {
        assert(fraction.take(n) =~= fraction);
    } else {
        let next = fraction.take(n + 1);
        assert(all_digits(next));
        assert(next.drop_last() =~= fraction.take(n));
        lemma_excess_step(next, steps);
        let d = next.last() as int - '0' as int;
        assert(0 <= d * steps <= 9 * steps) by (nonlinear_arith)
            requires
                0 <= d <= 9,
                steps >= 0,
        ;
        lemma_excess_settles(fraction, steps, n + 1);
    }
}

fn count_half_steps(n: u32) -> (steps: i64)
    ensures
        steps == half_steps(n as nat),
        0 <= steps <= 0x40_0000_0000_0000,
    decreases n,
{
    if n == 0 {
        0x40_0000_0000_0000
    } else {
        count_half_steps(n / 2) / 2
    }
}

/// Whether the digits of `text` from `from` on, behind the point of a number with
/// the whole part `n`, round it up.
fn check_rounds_up(n: u32, text: &str, from: usize, len: usize) -> (answer: bool)
    requires
        from <= len == text@.len(),
        all_digits(text@.skip(from as int)),
    ensures
        answer == rounds_up(n as nat, text@.skip(from as int)),
{
    let steps: i64 = count_half_steps(n);
    let ghost fraction = text@.skip(from as int);
    let ghost p = steps as nat;
    proof {
        assert(excess(fraction, p) <= 0 <==> rounds_up(n as nat, fraction));
        assert(fraction.take(0).len() == 0);
        assert(excess(fraction.take(0), p) == p - 1) by (nonlinear_arith)
            requires
                excess(fraction.take(0), p) == (1 - 0) * p - 1,
        ;
    }
    if steps <= 1 {
        proof {
            lemma_excess_settles(fraction, p, 0);
        }
        return true;
    }
    let mut left: i64 = steps - 1;
    let mut i: usize = from;
    while i < len
        invariant
            from <= i <= len == text@.len(),
            fraction == text@.skip(from as int),
            all_digits(fraction),
            p == steps,
            1 < steps <= 0x40_0000_0000_0000,
            left == excess(fraction.take(i - from), p),
            0 < left < steps,
            excess(fraction, p) <= 0 <==> rounds_up(n as nat, fraction),
        decreases len - i,
    {
        let c = text.get_char(i);
        assert(c == fraction[i - from]);
        let d: i64 = c as i64 - '0' as i64;
        proof {
            let next = fraction.take(i + 1 - from);
            assert(next.drop_last() =~= fraction.take(i - from));
            assert(next.last() == c);
            lemma_excess_step(next, p);
            lemma_excess_settles(fraction, p, i + 1 - from);
            assert(0 <= d * steps <= 9 * steps) by (nonlinear_arith)
                requires
                    0 <= d <= 9,
                    steps >= 1,
            ;
        }
        left = 10 * left - d * steps;
        i = i + 1;
        if left <= 0 {
            return true;
        }
        if left >= steps {
            return false;
        }
    }
    assert(fraction.take(i - from) =~= fraction);
    false
}

/// Reads a decimal number in double precision and drops what is behind the point.
pub fn read_whole_number(text: &str) -> (number: u32)
    ensures
        number == whole_number(text@),
{
    let len: usize = text.unicode_len();
    let point = position(text, '.', 0, len);
    let from: usize = if point < len {
        point + 1
    } else {
        len
    };
    proof {
        let (whole, fraction) = number_parts(text@);
        assert(whole =~= text@.take(point as int));
        assert(fraction =~= text@.skip(from as int));
    }
    if point == 0 && from == len {
        return 0;
    }
    match read_digits(text, 0, point) {
        None => 0,
        Some(n) => {
            match read_digits(text, from, len) {
                None => 0,
                Some(_) => {
                    assert(text@.subrange(0, point as int) =~= text@.take(point as int));
                    assert(text@.subrange(from as int, len as int) =~= text@.skip(from as int));
                    if n == u32::MAX || !check_rounds_up(n, text, from, len) {
                        n
                    } else {
                        n + 1
                    }
                },
            }
        },
    }
}

/// The value of the digits from `lo` to `hi`, or the largest number if that is
/// smaller; `None` if something else is among them.
fn read_digits(text: &str, lo: usize, hi: usize) -> (value: Option<u32>)
    requires
        lo <= hi <= text@.len(),
    ensures
        match value {
            Some(n) => all_digits(text@.subrange(lo as int, hi as int)) && n == limited(
                digits_value(text@.subrange(lo as int, hi as int)),
            ),
            None => !all_digits(text@.subrange(lo as int, hi as int)),
        },
{
    let ghost digits = text@.subrange(lo as int, hi as int);
    let mut value: u32 = 0;
    let mut i: usize = lo;
    assert(digits.take(0) =~= Seq::empty());
    while i < hi
        invariant
            lo <= i <= hi <= text@.len(),
            digits == text@.subrange(lo as int, hi as int),
            all_digits(digits.take(i - lo)),
            value == limited(digits_value(digits.take(i - lo))),
        decreases hi - i,
    {
        let c = text.get_char(i);
        assert(digits[i - lo] == c);
        if c < '0' || c > '9' {
            return None;
        }
        let d: u32 = c as u32 - '0' as u32;
        proof {
            let next = digits.take(i + 1 - lo);
            assert(next.drop_last() =~= digits.take(i - lo));
            assert forall|j: int| 0 <= j < next.len() implies '0' <= #[trigger] next[j] <= '9' by {
                if j < i - lo {
                    assert(digits.take(i - lo)[j] == digits[j]);
                }
            }
        }
        value = if value > (u32::MAX - d) / 10 {
            u32::MAX
        } else {
            value * 10 + d
        };
        i = i + 1;
    }
    assert(digits.take(i - lo) =~= digits);
    Some(value)
}

/// A number, or the largest if it does not fit.
spec fn limited(n: nat) -> u32 {
    if n >= u32::MAX {
        u32::MAX
    } else {
        n as u32
    }
}

/// The number in a group of a match; zero if the group holds none.
pub open spec fn group_number(groups: Seq<Option<Seq<char>>>, i: int) -> u32 {
    if i < groups.len() && groups[i] is Some {
        whole_number(groups[i]->0)
    } else {
        0
    }
}

/// The size of a document by the matches for its width, its height and its view
/// box.
pub open spec fn matched_size(
    width: Option<Seq<Option<Seq<char>>>>,
    height: Option<Seq<Option<Seq<char>>>>,
    view_box: Option<Seq<Option<Seq<char>>>>,
) -> (u32, u32) {
    if width is Some && height is Some {
        (group_number(width->0, 1), group_number(height->0, 1))
    } else if view_box is Some {
        (group_number(view_box->0, 1), group_number(view_box->0, 2))
    } else {
        (0, 0)
    }
}

fn read_group(groups: &Vec<Option<String>>, i: usize) -> (number: u32)
    ensures
        number == group_number(group_texts(groups@), i as int),
{
    if i < groups.len() {
        match &groups[i] {
            Some(text) => read_whole_number(text.as_str()),
            None => 0,
        }
    } else {
        0
    }
}

/// The size of a document by the matches for its width, its height and its view
/// box.
pub fn size_of_matches(
    width: Option<Vec<Option<String>>>,
    height: Option<Vec<Option<String>>>,
    view_box: Option<Vec<Option<String>>>,
) -> (size: (u32, u32))
    ensures
        size == matched_size(match_texts(width), match_texts(height), match_texts(view_box)),
{
    match (&width, &height) {
        (Some(w), Some(h)) => (read_group(w, 1), read_group(h, 1)),
        _ => match &view_box {
            Some(groups) => (read_group(groups, 1), read_group(groups, 2)),
            None => (0, 0),
        },
    }
}

/// How much of a document its size is looked for in.
pub const SEARCHED_BYTES: usize = 2048;

/// The beginning of a document.
pub open spec fn searched_part(svg: Seq<u8>) -> Seq<u8> {
    if svg.len() <= SEARCHED_BYTES {
        svg
    } else {
        svg.take(SEARCHED_BYTES as int)
    }
}

/// The size of a document, by the attributes of its root element: width and
/// height, or else the view box.
pub open spec fn svg_size(svg: Seq<u8>) -> (u32, u32) {
    let text = lossy_text(searched_part(svg));
    matched_size(
        captured(r#"width="(\d+(?:\.\d+)?)""#@, text),
        captured(r#"height="(\d+(?:\.\d+)?)""#@, text),
        captured(r#"viewBox="[\d.]+\s+[\d.]+\s+([\d.]+)\s+([\d.]+)""#@, text),
    )
}

/// The width and the height of a document; zeros if it gives none.
pub fn parse_svg_dimensions(svg: &[u8]) -> (size: (u32, u32))
    ensures
        size == svg_size(svg@),
{
    let end: usize = if svg.len() <= SEARCHED_BYTES {
        svg.len()
    } else {
        SEARCHED_BYTES
    };
    let part = slice_subrange(svg, 0, end);
    assert(part@ =~= searched_part(svg@));
    let text = read_lossy(part);
    let width = find_captures(r#"width="(\d+(?:\.\d+)?)""#, text.as_str());
    let height = find_captures(r#"height="(\d+(?:\.\d+)?)""#, text.as_str());
    let view_box = find_captures(
        r#"viewBox="[\d.]+\s+[\d.]+\s+([\d.]+)\s+([\d.]+)""#,
        text.as_str(),
    );
    size_of_matches(width, height, view_box)
}

} // verus!
