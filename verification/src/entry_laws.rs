//! What numbers, versions and the entries of a set are read as.

use vstd::arithmetic::power2::{lemma_pow2_strictly_increases, lemma_pow2_unfold, pow2};
use vstd::prelude::*;

use crate::entries::{
    appearance_of, direction_of, icon_size_number, idiom_matches, idiom_of, point_width,
    rendering_intent, scale_of, set_idiom_matches, without_x,
};
use crate::json::{items_of, member, text_member, Json};
use crate::platform::{
    all_digits, digits_value, dmp2_since, find_char, ga8_since, idiom_number, jpeg_since,
    lzfse_since, packing_since, parsed_number, version_of, version_reaches,
};
use crate::svg::{half_steps, matched_size, number_parts, rounds_up, ten_to, whole_number};
use crate::text::{decimal, digit, hex};

verus! {

/// A decimal digit is worth what it stands for.
proof fn lemma_digit(d: nat)
    requires
        d < 10,
    ensures
        '0' <= digit(d) <= '9',
        digit(d) as nat - '0' as nat == d,
{
}

proof fn lemma_decimal(n: nat)
    ensures
        decimal(n).len() >= 1,
        all_digits(decimal(n)),
        digits_value(decimal(n)) == n,
    decreases n,
{
    let text = decimal(n);
    lemma_digit(n % 10);
    if n < 10 {
        assert(text.drop_last() =~= Seq::empty());
        assert(digits_value(text.drop_last()) == 0);
    } else {
        lemma_decimal(n / 10);
        assert(text.drop_last() =~= decimal(n / 10));
        assert forall|i: int| 0 <= i < text.len() implies '0' <= #[trigger] text[i] <= '9' by {
            if i < text.len() - 1 {
                assert(decimal(n / 10)[i] == text[i]);
            }
        }
    }
}

/// A number in decimal reads back as that number, with or without a plus sign.
pub proof fn numbers_read_back(n: u32)
    ensures
        parsed_number(decimal(n as nat)) == Some(n),
        parsed_number(seq!['+'] + decimal(n as nat)) == Some(n),
{
    let text = decimal(n as nat);
    lemma_decimal(n as nat);
    assert('0' <= text[0] <= '9');
    assert((seq!['+'] + text).skip(1) =~= text);
}

/// A text with a character other than a digit behind its first is no number.
pub proof fn other_texts_are_no_numbers(text: Seq<char>, i: int)
    requires
        0 < i < text.len(),
        !('0' <= text[i] <= '9'),
    ensures
        parsed_number(text) is None,
{
    assert(text.skip(1)[i - 1] == text[i]);
}

proof fn lemma_first_found(s: Seq<char>, c: char, from: int, at: int)
    requires
        0 <= from <= at <= s.len(),
        forall|i: int| from <= i < at ==> #[trigger] s[i] != c,
        at < s.len() ==> s[at] == c,
    ensures
        find_char(s, c, from) == at,
    decreases at - from,
{
    if from < at {
        lemma_first_found(s, c, from + 1, at);
    }
}

/// A version reads back as its first two components, whatever follows; one that is
/// missing is zero.
pub proof fn versions_read_back(major: u32, minor: u32, rest: Seq<char>)
    ensures
        version_of(decimal(major as nat)) == (major, 0u32),
        version_of(decimal(major as nat) + seq!['.'] + decimal(minor as nat)) == (major, minor),
        version_of(
            decimal(major as nat) + seq!['.'] + decimal(minor as nat) + seq!['.'] + rest,
        ) == (major, minor),
{
    let a = decimal(major as nat);
    let b = decimal(minor as nat);
    lemma_decimal(major as nat);
    lemma_decimal(minor as nat);
    numbers_read_back(major);
    numbers_read_back(minor);
    lemma_first_found(a, '.', 0, a.len() as int);
    assert(a.subrange(0, a.len() as int) =~= a);
    let two = a + seq!['.'] + b;
    lemma_version(two, a, b);
    let more = two + seq!['.'] + rest;
    lemma_version(more, a, b);
}

proof fn lemma_version(s: Seq<char>, a: Seq<char>, b: Seq<char>)
    requires
        all_digits(a),
        all_digits(b),
        a.len() + 1 + b.len() <= s.len(),
        s.subrange(0, a.len() as int) =~= a,
        s[a.len() as int] == '.',
        s.subrange(a.len() as int + 1, (a.len() + 1 + b.len()) as int) =~= b,
        a.len() + 1 + b.len() < s.len() ==> s[(a.len() + 1 + b.len()) as int] == '.',
    ensures
        version_of(s) == (
            crate::platform::number_or_zero(parsed_number(a)),
            crate::platform::number_or_zero(parsed_number(b)),
        ),
{
    let dot = a.len() as int;
    let end = (a.len() + 1 + b.len()) as int;
    assert forall|i: int| 0 <= i < dot implies #[trigger] s[i] != '.' by {
        assert(s.subrange(0, dot)[i] == s[i]);
        assert('0' <= a[i] <= '9');
    }
    assert forall|i: int| dot + 1 <= i < end implies #[trigger] s[i] != '.' by {
        assert(s.subrange(dot + 1, end)[i - dot - 1] == s[i]);
        assert('0' <= b[i - dot - 1] <= '9');
    }
    lemma_first_found(s, '.', 0, dot);
    lemma_first_found(s, '.', dot + 1, end);
}

/// Versions are in one order: of two, one reaches the other, both only if they are the
/// same; what reaches a version reaches all before it; and more of a component is later.
pub proof fn versions_are_ordered(a: (u32, u32), b: (u32, u32), c: (u32, u32))
    ensures
        version_reaches(a, b) || version_reaches(b, a),
        version_reaches(a, b) && version_reaches(b, a) <==> a == b,
        version_reaches(a, b) && version_reaches(b, c) ==> version_reaches(a, c),
        a.0 > b.0 ==> version_reaches(a, b),
        a.0 == b.0 && a.1 > b.1 ==> version_reaches(a, b),
{
}

/// Whether a version is the one of its family: of phones and televisions, of watches, or
/// else of the Mac.
pub open spec fn is_of_family(
    version: (u32, u32),
    platform: Seq<char>,
    mac: (u32, u32),
    phone: (u32, u32),
    watch: (u32, u32),
) -> bool {
    if platform == "iphoneos"@ || platform == "appletvos"@ {
        version == phone
    } else if platform == "watchos"@ {
        version == watch
    } else {
        version == mac
    }
}

/// The versions from which on renditions may be packed, gray, kept as JPEG images, or
/// compressed by LZFSE or deepmaps.
pub proof fn features_have_versions(platform: Seq<char>)
    ensures
        is_of_family(lzfse_since(platform), platform, (10, 11), (9, 0), (2, 0)),
        is_of_family(dmp2_since(platform), platform, (11, 0), (14, 0), (7, 0)),
        is_of_family(packing_since(platform), platform, (10, 11), (9, 0), (2, 0)),
        is_of_family(ga8_since(platform), platform, (10, 11), (9, 0), (2, 0)),
        is_of_family(jpeg_since(platform), platform, (10, 10), (9, 0), (2, 0)),
        version_reaches(dmp2_since(platform), lzfse_since(platform)),
{
}

/// The scale of an entry is the number in front of its `x`.
pub proof fn scales_read_back(info: Json, n: u32)
    requires
        text_member(info, "scale"@) == Some(decimal(n as nat) + seq!['x']),
    ensures
        scale_of(info) == n,
{
    let text = decimal(n as nat);
    let all = text + seq!['x'];
    lemma_decimal(n as nat);
    numbers_read_back(n);
    assert(all.drop_last() =~= text);
    assert('0' <= text[text.len() - 1] <= '9');
    assert(without_x(text) == text);
    assert(without_x(all) == text);
}

/// An entry without a scale has scale 1.
pub proof fn scales_default_to_one(info: Json)
    requires
        text_member(info, "scale"@) is None,
    ensures
        scale_of(info) == 1,
{
    reveal_strlit("1x");
    let text = decimal(1);
    assert(text =~= seq!['1']);
    assert("1x"@ =~= text + seq!['x']);
    numbers_read_back(1);
    assert("1x"@.drop_last() =~= text);
    assert(without_x(text) == text);
    assert(without_x("1x"@) == text);
}

/// The width of an icon is the number in front of the first `x` of its size.
pub proof fn point_widths_read_back(info: Json, n: u32, rest: Seq<char>)
    requires
        text_member(info, "size"@) == Some(decimal(n as nat) + seq!['x'] + rest),
    ensures
        point_width(info) == Some(n),
{
    let text = decimal(n as nat);
    let all = text + seq!['x'] + rest;
    lemma_decimal(n as nat);
    numbers_read_back(n);
    assert forall|i: int| 0 <= i < text.len() implies #[trigger] all[i] != 'x' by {
        assert('0' <= text[i] <= '9');
    }
    lemma_first_found(all, 'x', 0, text.len() as int);
    assert(all.take(text.len() as int) =~= text);
}

/// An entry is for the dark appearance exactly where one of its appearances is a dark
/// luminosity.
pub proof fn dark_entries_say_so(info: Json)
    ensures
        appearance_of(info) <= 1,
        appearance_of(info) == 1 <==> exists|i: int|
            0 <= i < items_of(info, "appearances"@).len() && text_member(
                #[trigger] items_of(info, "appearances"@)[i],
                "appearance"@,
            ) == Some("luminosity"@) && text_member(
                items_of(info, "appearances"@)[i],
                "value"@,
            ) == Some("dark"@),
{
    let list = items_of(info, "appearances"@);
    if exists|i: int|
        0 <= i < list.len() && text_member(#[trigger] list[i], "appearance"@) == Some(
            "luminosity"@,
        ) && text_member(list[i], "value"@) == Some("dark"@) {
        let i = choose|i: int|
            0 <= i < list.len() && text_member(#[trigger] list[i], "appearance"@) == Some(
                "luminosity"@,
            ) && text_member(list[i], "value"@) == Some("dark"@);
        assert(crate::entries::is_dark(list[i]));
    }
}

/// Writing directions have the numbers 5 and 4; all else is 0.
pub proof fn directions_have_numbers(info: Json)
    ensures
        direction_of(info) == 5 <==> text_member(info, "language-direction"@) == Some(
            "left-to-right"@,
        ),
        direction_of(info) == 4 <==> text_member(info, "language-direction"@) == Some(
            "right-to-left"@,
        ),
        direction_of(info) == 0 || direction_of(info) == 4 || direction_of(info) == 5,
{
    reveal_strlit("left-to-right");
    reveal_strlit("right-to-left");
    assert("left-to-right"@[0] == 'l' && "right-to-left"@[0] == 'r');
}

/// A set is drawn as the original, as a template, or as the system decides.
pub proof fn intents_have_numbers(contents: Json)
    ensures
        ({
            let said = match member(contents, "properties"@) {
                Some(properties) => text_member(properties, "template-rendering-intent"@),
                None => None,
            };
            &&& rendering_intent(contents) == 0 <==> said == Some("original"@)
            &&& rendering_intent(contents) == 2 <==> said == Some("template"@)
            &&& said != Some("original"@) && said != Some("template"@) ==> rendering_intent(
                contents,
            ) == 4
        }),
{
    reveal_strlit("original");
    reveal_strlit("template");
    assert("original"@[0] == 'o' && "template"@[0] == 't');
}

/// The devices have their numbers, under either of their names; others have none.
pub proof fn idioms_have_numbers(name: Seq<char>)
    ensures
        idiom_number(name) == 1 <==> name == "iphone"@ || name == "phone"@,
        idiom_number(name) == 2 <==> name == "ipad"@ || name == "pad"@,
        idiom_number(name) == 3 <==> name == "tv"@ || name == "appletv"@,
        idiom_number(name) == 4 <==> name == "car"@ || name == "carplay"@,
        idiom_number(name) == 5 <==> name == "watch"@,
        idiom_number(name) == 6 <==> name == "ios-marketing"@ || name == "marketing"@,
        idiom_number(name) <= 6,
{
    reveal_strlit("iphone");
    reveal_strlit("phone");
    reveal_strlit("ipad");
    reveal_strlit("pad");
    reveal_strlit("tv");
    reveal_strlit("appletv");
    reveal_strlit("car");
    reveal_strlit("carplay");
    reveal_strlit("watch");
    reveal_strlit("ios-marketing");
    reveal_strlit("marketing");
    assert("iphone"@.len() == 6 && "phone"@.len() == 5 && "watch"@.len() == 5);
    assert("ipad"@.len() == 4 && "pad"@.len() == 3 && "car"@.len() == 3 && "tv"@.len() == 2);
    assert("appletv"@.len() == 7 && "carplay"@.len() == 7);
    assert("ios-marketing"@.len() == 13 && "marketing"@.len() == 9);
    assert("phone"@[0] == 'p' && "watch"@[0] == 'w' && "pad"@[0] == 'p' && "car"@[0] == 'c');
    assert("appletv"@[0] == 'a' && "carplay"@[0] == 'c');
}

/// Platforms with device families number the device of an entry, others have none; on
/// the Mac only entries for the Mac and for all devices are compiled, and phones and
/// pads leave out those for the Mac and for the store.
pub proof fn entries_are_for_platforms(info: Json, platform: Seq<char>)
    ensures
        ({
            let idiom = match text_member(info, "idiom"@) {
                Some(text) => text,
                None => "universal"@,
            };
            let phones = platform == "iphoneos"@ || platform == "iphonesimulator"@;
            let televisions = platform == "appletvos"@ || platform == "appletvsimulator"@;
            &&& idiom_of(info, platform) == (if phones || televisions {
                idiom_number(idiom)
            } else {
                0
            })
            &&& idiom_matches(info, platform) <==> platform != "macosx"@ || idiom == "mac"@ || idiom
                == "universal"@
            &&& set_idiom_matches(info, platform) <==> idiom_matches(info, platform) && !(phones && (
            idiom == "mac"@ || idiom == "ios-marketing"@))
        }),
{
}

/// The sizes of icons on the Mac are numbered.
pub proof fn icon_sizes_have_numbers(points: u32)
    ensures
        icon_size_number(points) == 1 <==> points == 16,
        icon_size_number(points) == 2 <==> points == 32,
        icon_size_number(points) == 3 <==> points == 128,
        icon_size_number(points) == 4 <==> points == 256,
        icon_size_number(points) == 5 <==> points == 512,
        icon_size_number(points) <= 5,
{
}

proof fn lemma_half_steps(n: nat, k: nat)
    requires
        n < pow2(k),
        k <= 32,
    ensures
        half_steps(n) >= pow2((54 - k) as nat),
    decreases k,
{
    if n == 0 {
        assert(pow2(54) == 0x40_0000_0000_0000) by {
            vstd::arithmetic::power2::lemma2_to64();
            vstd::arithmetic::power2::lemma_pow2_adds(32, 22);
        }
        if k > 0 {
            lemma_pow2_strictly_increases((54 - k) as nat, 54);
        }
    } else {
        assert(k > 0) by {
            vstd::arithmetic::power2::lemma2_to64();
        }
        lemma_pow2_unfold(k);
        lemma_half_steps(n / 2, (k - 1) as nat);
        lemma_pow2_unfold((55 - k) as nat);
    }
}

/// A whole number in a document reads back.
pub proof fn whole_numbers_read_back(n: u32)
    requires
        n < u32::MAX,
    ensures
        whole_number(decimal(n as nat)) == n,
{
    let text = decimal(n as nat);
    lemma_decimal(n as nat);
    assert forall|i: int| 0 <= i < text.len() implies #[trigger] text[i] != '.' by {
        assert('0' <= text[i] <= '9');
    }
    lemma_first_found(text, '.', 0, text.len() as int);
    assert(number_parts(text) == (text, Seq::<char>::empty()));
    vstd::arithmetic::power2::lemma2_to64();
    lemma_half_steps(n as nat, 32);
    lemma_pow2_strictly_increases(1, 22);
    assert(ten_to(0) == 1);
    assert(digits_value(Seq::<char>::empty()) == 0);
    assert(!rounds_up(n as nat, Seq::empty()));
}

/// A document whose width and height were found has that width and that height; else,
/// one whose view box was found has the third and the fourth of its numbers.
pub proof fn documents_tell_their_size(
    w: Option<Seq<Option<Seq<char>>>>,
    h: Option<Seq<Option<Seq<char>>>>,
    view_box: Option<Seq<Option<Seq<char>>>>,
    width: u32,
    height: u32,
)
    requires
        width < u32::MAX,
        height < u32::MAX,
    ensures
        w is Some && h is Some && w->0.len() == 2 && h->0.len() == 2 && w->0[1] == Some(
            decimal(width as nat),
        ) && h->0[1] == Some(decimal(height as nat)) ==> matched_size(w, h, view_box) == (
            width,
            height,
        ),
        (w is None || h is None) && view_box is Some && view_box->0.len() == 3 && view_box->0[1]
            == Some(decimal(width as nat)) && view_box->0[2] == Some(decimal(height as nat))
            ==> matched_size(w, h, view_box) == (width, height),
        (w is None || h is None) && view_box is None ==> matched_size(w, h, view_box) == (
            0u32,
            0u32,
        ),
{
    whole_numbers_read_back(width);
    whole_numbers_read_back(height);
}

/// The value of a hexadecimal digit.
pub open spec fn hex_digit_value(c: char) -> nat {
    if '0' <= c <= '9' {
        (c as nat - '0' as nat) as nat
    } else {
        (10 + c as nat - 'A' as nat) as nat
    }
}

/// The value of a string of hexadecimal digits.
pub open spec fn hex_value(s: Seq<char>) -> nat
    decreases s.len(),
{
    if s.len() == 0 {
        0
    } else {
        16 * hex_value(s.drop_last()) + hex_digit_value(s.last())
    }
}

/// Sixteen to a power.
pub open spec fn sixteen_to(n: nat) -> nat
    decreases n,
{
    if n == 0 {
        1
    } else {
        16 * sixteen_to((n - 1) as nat)
    }
}

/// A number in hexadecimal reads back, as far as it has room.
pub proof fn hex_numbers_read_back(n: nat, width: nat)
    requires
        n < sixteen_to(width),
    ensures
        hex(n, width).len() == width,
        hex_value(hex(n, width)) == n,
    decreases width,
{
    if width > 0 {
        hex_numbers_read_back(n / 16, (width - 1) as nat);
        assert(hex(n, width).drop_last() =~= hex(n / 16, (width - 1) as nat));
        assert(hex_digit_value(digit(n % 16)) == n % 16);
    }
}

} // verus!
