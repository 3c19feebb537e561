//! Platforms and their versions: which features a deployment target allows.

use vstd::prelude::*;
use vstd::string::StrSliceExecFns;

use crate::text::same_text;

verus! {

/// The platforms of phones and pads.
pub open spec fn ios_platform(platform: Seq<char>) -> bool {
    platform == "iphoneos"@ || platform == "iphonesimulator"@
}

/// Whether a platform is one of phones and pads.
pub fn is_ios_platform(platform: &str) -> (answer: bool)
    ensures
        answer == ios_platform(platform@),
{
    same_text(platform, "iphoneos") || same_text(platform, "iphonesimulator")
}

/// The platforms of Apple TV.
pub open spec fn tv_platform(platform: Seq<char>) -> bool {
    platform == "appletvos"@ || platform == "appletvsimulator"@
}

/// Whether a platform is one of Apple TV.
pub fn is_tv_platform(platform: &str) -> (answer: bool)
    ensures
        answer == tv_platform(platform@),
{
    same_text(platform, "appletvos") || same_text(platform, "appletvsimulator")
}

/// The platforms of device families, whose catalogs carry the idiom in each key.
pub open spec fn idiom_platform(platform: Seq<char>) -> bool {
    ios_platform(platform) || tv_platform(platform)
}

/// Whether the catalogs of a platform carry the idiom in each key.
pub fn is_idiom_platform(platform: &str) -> (answer: bool)
    ensures
        answer == idiom_platform(platform@),
{
    is_ios_platform(platform) || is_tv_platform(platform)
}

/// The device family of a platform, as metadata names it.
pub open spec fn platform_family(platform: Seq<char>) -> Seq<char> {
    if ios_platform(platform) {
        "ios"@
    } else if tv_platform(platform) {
        "atv"@
    } else {
        platform
    }
}

/// The name under which metadata record a platform: that of the device family,
/// not that of the development kit.
pub fn deployment_platform_name(platform: &str) -> (name: &str)
    ensures
        name@ == platform_family(platform@),
{
    if is_ios_platform(platform) {
        "ios"
    } else if is_tv_platform(platform) {
        "atv"
    } else {
        platform
    }
}

/// The number of an idiom in a key.
pub open spec fn idiom_number(idiom: Seq<char>) -> u16 {
    if idiom == "iphone"@ || idiom == "phone"@ {
        1
    } else if idiom == "ipad"@ || idiom == "pad"@ {
        2
    } else if idiom == "tv"@ || idiom == "appletv"@ {
        3
    } else if idiom == "car"@ || idiom == "carplay"@ {
        4
    } else if idiom == "watch"@ {
        5
    } else if idiom == "ios-marketing"@ || idiom == "marketing"@ {
        6
    } else {
        0
    }
}

/// The number of an idiom in a key; 0, which stands for every device, for
/// `universal` and for names that are not known.
pub fn idiom_value(idiom: &str) -> (value: u16)
    ensures
        value == idiom_number(idiom@),
{
    if same_text(idiom, "iphone") || same_text(idiom, "phone") {
        1
    } else if same_text(idiom, "ipad") || same_text(idiom, "pad") {
        2
    } else if same_text(idiom, "tv") || same_text(idiom, "appletv") {
        3
    } else if same_text(idiom, "car") || same_text(idiom, "carplay") {
        4
    } else if same_text(idiom, "watch") {
        5
    } else if same_text(idiom, "ios-marketing") || same_text(idiom, "marketing") {
        6
    } else {
        0
    }
}

/// The position of the first `c` in `s` from `from` on; the length of `s` if
/// there is none.
pub open spec fn find_char(s: Seq<char>, c: char, from: int) -> int
    decreases s.len() - from,
{
    if from >= s.len() {
        s.len() as int
    } else if s[from] == c {
        from
    } else {
        find_char(s, c, from + 1)
    }
}

/// Whether `s` consists of decimal digits.
pub open spec fn all_digits(s: Seq<char>) -> bool {
    forall|i: int| 0 <= i < s.len() ==> '0' <= #[trigger] s[i] <= '9'
}

/// The value of a string of decimal digits.
pub open spec fn digits_value(s: Seq<char>) -> nat
    decreases s.len(),
{
    if s.len() == 0 {
        0
    } else {
        10 * digits_value(s.drop_last()) + (s.last() as nat - '0' as nat) as nat
    }
}

/// A string of digits, with or without a plus sign before them, as a number
/// below 2^32; `None` for any other string.
pub open spec fn parsed_number(s: Seq<char>) -> Option<u32> {
    let digits = if s.len() > 0 && s[0] == '+' {
        s.skip(1)
    } else {
        s
    };
    if digits.len() > 0 && all_digits(digits) && digits_value(digits) <= u32::MAX {
        Some(digits_value(digits) as u32)
    } else {
        None
    }
}

/// A number, or zero.
pub open spec fn number_or_zero(number: Option<u32>) -> u32 {
    match number {
        Some(n) => n,
        None => 0,
    }
}

/// The first two components of a version such as `10.15.4`; a component that is
/// missing or no number counts as zero.
pub open spec fn version_of(s: Seq<char>) -> (u32, u32) {
    let dot = find_char(s, '.', 0);
    let major = number_or_zero(parsed_number(s.subrange(0, dot)));
    let minor = if dot < s.len() {
        number_or_zero(
            parsed_number(s.subrange(dot + 1, find_char(s, '.', dot + 1))),
        )
    } else {
        0
    };
    (major, minor)
}

/// Whether version `a` is `b` or later.
pub open spec fn version_reaches(a: (u32, u32), b: (u32, u32)) -> bool {
    a.0 > b.0 || a.0 == b.0 && a.1 >= b.1
}

proof fn lemma_find_char(s: Seq<char>, c: char, from: int)
    requires
        0 <= from <= s.len(),
    ensures
        from <= find_char(s, c, from) <= s.len(),
    decreases s.len() - from,
{
    if from < s.len() && s[from] != c {
        lemma_find_char(s, c, from + 1);
    }
}

/// A longer string of digits is worth no less.
proof fn lemma_digits_value_grows(s: Seq<char>, i: int)
    requires
        0 <= i <= s.len(),
    ensures
        digits_value(s.take(i)) <= digits_value(s),
    decreases s.len(),
{
    if i < s.len() {
        lemma_digits_value_grows(s.drop_last(), i);
        assert(s.drop_last().take(i) =~= s.take(i));
    } else {
        assert(s.take(i) =~= s);
    }
}

/// The position of the first `c` in `s` from `from` on, or the length of `s`.
pub(crate) fn position(s: &str, c: char, from: usize, len: usize) -> (at: usize)
    requires
        from <= len == s@.len(),
    ensures
        at == find_char(s@, c, from as int),
        from <= at <= len,
{
    let mut at: usize = from;
    while at < len && s.get_char(at) != c
        invariant
            from <= at <= len == s@.len(),
            find_char(s@, c, from as int) == find_char(s@, c, at as int),
        decreases len - at,
    {
        at = at + 1;
    }
    at
}

/// Reads the part of `s` from `lo` to `hi` as a number.
pub(crate) fn parse_number(s: &str, lo: usize, hi: usize) -> (number: Option<u32>)
    requires
        lo <= hi <= s@.len(),
    ensures
        number == parsed_number(s@.subrange(lo as int, hi as int)),
{
    let ghost part = s@.subrange(lo as int, hi as int);
    let mut i: usize = lo;
    if lo < hi && s.get_char(lo) == '+' {
        i = lo + 1;
    }
    let ghost start = i;
    let ghost digits = s@.subrange(start as int, hi as int);
    assert(digits =~= if part.len() > 0 && part[0] == '+' { part.skip(1) } else { part });
    if i == hi {
        return None;
    }
    let mut value: u32 = 0;
    assert(digits.take(0) =~= Seq::empty());
    while i < hi
        invariant
            lo <= start <= i <= hi <= s@.len(),
            digits == s@.subrange(start as int, hi as int),
            part == s@.subrange(lo as int, hi as int),
            parsed_number(part) == (if digits.len() > 0 && all_digits(digits) && digits_value(
                digits,
            ) <= u32::MAX {
                Some(digits_value(digits) as u32)
            } else {
                None
            }),
            all_digits(digits.take(i - start)),
            value == digits_value(digits.take(i - start)),
        decreases hi - i,
    {
        let c = s.get_char(i);
        assert(digits[i - start] == c);
        if c < '0' || c > '9' {
            return None;
        }
        let digit: u32 = c as u32 - '0' as u32;
        proof {
            assert(digits.take(i + 1 - start).drop_last() =~= digits.take(i - start));
            lemma_digits_value_grows(digits, i + 1 - start);
            assert(all_digits(digits.take(i + 1 - start))) by {
                assert forall|j: int| 0 <= j < i + 1 - start implies '0'
                    <= #[trigger] digits.take(i + 1 - start)[j] <= '9' by {
                    if j < i - start {
                        assert(digits.take(i - start)[j] == digits[j]);
                    }
                }
            }
        }
        if value > (u32::MAX - digit) / 10 {
            return None;
        }
        value = value * 10 + digit;
        i = i + 1;
    }
    assert(digits.take(i - start) =~= digits);
    Some(value)
}

/// The first two components of a version.
pub fn parse_version(s: &str) -> (version: (u32, u32))
    ensures
        version == version_of(s@),
{
    let len = s.unicode_len();
    let dot = position(s, '.', 0, len);
    let major: u32 = match parse_number(s, 0, dot) {
        Some(n) => n,
        None => 0,
    };
    let minor: u32 = if dot < len {
        let end = position(s, '.', dot + 1, len);
        match parse_number(s, dot + 1, end) {
            Some(n) => n,
            None => 0,
        }
    } else {
        0
    };
    (major, minor)
}

/// Whether version `a` is `b` or later.
pub fn reaches(a: (u32, u32), b: (u32, u32)) -> (answer: bool)
    ensures
        answer == version_reaches(a, b),
{
    a.0 > b.0 || a.0 == b.0 && a.1 >= b.1
}

/// The version of each family from which a feature is there.
pub open spec fn since(
    platform: Seq<char>,
    mac: (u32, u32),
    phone: (u32, u32),
    watch: (u32, u32),
) -> (u32, u32) {
    if platform == "iphoneos"@ || platform == "appletvos"@ {
        phone
    } else if platform == "watchos"@ {
        watch
    } else {
        mac
    }
}

/// Picks the version that holds for a platform.
pub fn version_for(
    platform: &str,
    mac: (u32, u32),
    phone: (u32, u32),
    watch: (u32, u32),
) -> (version: (u32, u32))
    ensures
        version == since(platform@, mac, phone, watch),
{
    if same_text(platform, "iphoneos") || same_text(platform, "appletvos") {
        phone
    } else if same_text(platform, "watchos") {
        watch
    } else {
        mac
    }
}

/// The version that first reads LZFSE-compressed renditions.
pub open spec fn lzfse_since(platform: Seq<char>) -> (u32, u32) {
    since(platform, (10, 11), (9, 0), (2, 0))
}

/// The version that first reads deepmap-compressed renditions.
pub open spec fn dmp2_since(platform: Seq<char>) -> (u32, u32) {
    since(platform, (11, 0), (14, 0), (7, 0))
}

/// The version that first reads packed atlases.
pub open spec fn packing_since(platform: Seq<char>) -> (u32, u32) {
    since(platform, (10, 11), (9, 0), (2, 0))
}

/// The version that first reads LZFSE-compressed renditions.
pub fn min_lzfse_version(platform: &str) -> (version: (u32, u32))
    ensures
        version == lzfse_since(platform@),
{
    version_for(platform, (10, 11), (9, 0), (2, 0))
}

/// The version that first reads deepmap-compressed renditions.
pub fn min_dmp2_version(platform: &str) -> (version: (u32, u32))
    ensures
        version == dmp2_since(platform@),
{
    version_for(platform, (11, 0), (14, 0), (7, 0))
}

/// The version that first reads packed atlases.
pub fn min_pack_version(platform: &str) -> (version: (u32, u32))
    ensures
        version == packing_since(platform@),
{
    version_for(platform, (10, 11), (9, 0), (2, 0))
}

/// The version that first reads gray renditions of eight bits.
pub open spec fn ga8_since(platform: Seq<char>) -> (u32, u32) {
    since(platform, (10, 11), (9, 0), (2, 0))
}

/// The version that first reads renditions that keep their JPEG data.
pub open spec fn jpeg_since(platform: Seq<char>) -> (u32, u32) {
    since(platform, (10, 10), (9, 0), (2, 0))
}

/// The version that first reads gray renditions of eight bits.
pub fn min_ga8_version(platform: &str) -> (version: (u32, u32))
    ensures
        version == ga8_since(platform@),
{
    version_for(platform, (10, 11), (9, 0), (2, 0))
}

/// The version that first reads renditions that keep their JPEG data.
pub fn min_jpeg_car_version(platform: &str) -> (version: (u32, u32))
    ensures
        version == jpeg_since(platform@),
{
    version_for(platform, (10, 10), (9, 0), (2, 0))
}

} // verus!
