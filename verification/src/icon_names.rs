//! The names of rendered icons.  They hold numbers in the shape of a UUID that
//! depend on the icon alone, so that compiling it twice gives the same archive.

use std::collections::hash_map::DefaultHasher;
use std::hash::Hash;
use std::hash::Hasher;

use vstd::prelude::*;
use vstd::std_specs::hash::DefaultHasherAdditionalSpecFns;
use vstd::string::StrSliceExecFns;

use crate::text::{decimal, decimal_is_injective, hex, put_decimal, put_hex, put_str};

verus! {

/// What hashing a text writes into a hasher.
pub uninterp spec fn text_writes(text: Seq<char>) -> Seq<Seq<u8>>;

/// Hashes a text with the implementation of `Hash::hash` for `str`.  What it writes
/// depends on the text alone; which bytes these are is left unsaid, as the
/// documentation of `str` does not fix them.
#[verifier::external_body]
fn hash_text(hasher: &mut DefaultHasher, text: &str)
    ensures
        final(hasher)@ == old(hasher)@ + text_writes(text@),
{
    text.hash(hasher);
}

/// What hashing the first `n` of some texts writes.
pub open spec fn writes_of(texts: Seq<Seq<char>>, n: nat) -> Seq<Seq<u8>>
    decreases n,
{
    if n == 0 {
        Seq::empty()
    } else {
        writes_of(texts, (n - 1) as nat) + text_writes(texts[n - 1])
    }
}

/// The hash of some texts.
pub open spec fn hash_of(texts: Seq<Seq<char>>) -> u64 {
    DefaultHasher::spec_finish(writes_of(texts, texts.len()))
}

/// Texts behind references.
pub open spec fn inputs_view(inputs: Seq<&str>) -> Seq<Seq<char>> {
    Seq::new(inputs.len(), |i: int| inputs[i]@)
}

/// The hash of `seed` and some more texts.
fn hash_texts(seed: &str, inputs: &[&str]) -> (hash: u64)
    ensures
        hash == hash_of(seq![seed@] + inputs_view(inputs@)),
{
    let ghost all = seq![seed@] + inputs_view(inputs@);
    let mut hasher = DefaultHasher::new();
    hash_text(&mut hasher, seed);
    proof {
        reveal_with_fuel(writes_of, 2);
        assert(all[0] == seed@);
        assert(hasher@ =~= writes_of(all, 1));
    }
    let mut i: usize = 0;
    while i < inputs.len()
        invariant
            i <= inputs@.len(),
            all == seq![seed@] + inputs_view(inputs@),
            hasher@ == writes_of(all, (i + 1) as nat),
        decreases inputs.len() - i,
    {
        assert(all[i + 1] == inputs@[i as int]@);
        hash_text(&mut hasher, inputs[i]);
        i = i + 1;
    }
    hasher.finish()
}

/// Two numbers in the shape of a UUID.
pub open spec fn uuid_text(lo: nat, hi: nat) -> Seq<char> {
    hex(lo / 0x1_0000_0000, 8) + "-"@ + hex(lo / 0x1_0000, 4) + "-"@ + hex(lo, 4) + "-"@ + hex(
        hi / 0x1_0000_0000_0000,
        4,
    ) + "-"@ + hex(hi, 12)
}

/// The two numbers of some texts.
pub open spec fn uuid_numbers(inputs: Seq<Seq<char>>) -> (nat, nat) {
    (
        hash_of(seq!["uuid-lo"@] + inputs) as nat,
        hash_of(seq!["uuid-hi"@] + inputs) as nat,
    )
}

/// A text in the shape of a UUID that depends on the inputs alone.
pub fn deterministic_uuid(inputs: &[&str]) -> (uuid: String)
    ensures
        ({
            let (lo, hi) = uuid_numbers(inputs_view(inputs@));
            uuid@ == uuid_text(lo, hi)
        }),
{
    let lo: u64 = hash_texts("uuid-lo", inputs);
    let hi: u64 = hash_texts("uuid-hi", inputs);
    make_uuid(lo, hi)
}

/// Two numbers in the shape of a UUID.
pub fn make_uuid(lo: u64, hi: u64) -> (uuid: String)
    ensures
        uuid@ == uuid_text(lo as nat, hi as nat),
{
    let mut uuid = String::new();
    put_hex(&mut uuid, lo / 0x1_0000_0000, 8);
    assert(uuid@ =~= hex(lo as nat / 0x1_0000_0000, 8));
    put_str(&mut uuid, "-");
    put_hex(&mut uuid, lo / 0x1_0000, 4);
    put_str(&mut uuid, "-");
    put_hex(&mut uuid, lo, 4);
    put_str(&mut uuid, "-");
    put_hex(&mut uuid, hi / 0x1_0000_0000_0000, 4);
    put_str(&mut uuid, "-");
    put_hex(&mut uuid, hi, 12);
    uuid
}

proof fn lemma_hex_len(n: nat, width: nat)
    ensures
        hex(n, width).len() == width,
    decreases width,
{
    if width > 0 {
        lemma_hex_len(n / 16, (width - 1) as nat);
    }
}

/// A UUID has 36 characters; dashes stand behind the first 8 digits and three times
/// behind 4 more.
pub proof fn uuids_have_their_shape(lo: nat, hi: nat)
    ensures
        uuid_text(lo, hi).len() == 36,
        uuid_text(lo, hi)[8] == '-',
        uuid_text(lo, hi)[13] == '-',
        uuid_text(lo, hi)[18] == '-',
        uuid_text(lo, hi)[23] == '-',
{
    reveal_strlit("-");
    lemma_hex_len(lo / 0x1_0000_0000, 8);
    lemma_hex_len(lo / 0x1_0000, 4);
    lemma_hex_len(lo, 4);
    lemma_hex_len(hi / 0x1_0000_0000_0000, 4);
    lemma_hex_len(hi, 12);
}

/// The name of a rendered icon: its size and appearance, and numbers that depend on
/// the icon, its size, its scale and its appearance.
pub open spec fn rendered_name(
    icon_name: Seq<char>,
    point_size: u32,
    uuid: (nat, nat),
    tail: (nat, nat),
    appearance: Seq<char>,
) -> Seq<char> {
    let digits = hex(tail.0, 16) + hex(tail.1, 16);
    icon_name + decimal(point_size as nat) + "x"@ + decimal(point_size as nat) + "_"@ + appearance
        + "_"@ + uuid_text(uuid.0, uuid.1) + "-"@ + digits.subrange(0, 5) + "-"@ + digits.subrange(
        5,
        21,
    ) + ".png"@
}

/// What the numbers in the name of a rendered icon depend on.
pub open spec fn name_inputs(
    icon_name: Seq<char>,
    point_size: u32,
    scale: u32,
    last: Seq<char>,
) -> Seq<Seq<char>> {
    seq![icon_name, decimal(point_size as nat), decimal(scale as nat) + "x"@, last]
}

/// The name of a rendered icon.
pub open spec fn pre_rendered(
    icon_name: Seq<char>,
    point_size: u32,
    scale: u32,
    appearance: Seq<char>,
) -> Seq<char> {
    rendered_name(
        icon_name,
        point_size,
        uuid_numbers(name_inputs(icon_name, point_size, scale, appearance)),
        uuid_numbers(name_inputs(icon_name, point_size, scale, "tail"@)),
        appearance,
    )
}

/// The name of a rendered icon, given its numbers.
pub fn make_rendered_name(
    icon_name: &str,
    point_size: u32,
    uuid: (u64, u64),
    tail: (u64, u64),
    appearance: &str,
) -> (name: String)
    ensures
        name@ == rendered_name(
            icon_name@,
            point_size,
            (uuid.0 as nat, uuid.1 as nat),
            (tail.0 as nat, tail.1 as nat),
            appearance@,
        ),
{
    let mut digits = String::new();
    put_hex(&mut digits, tail.0, 16);
    assert(digits@ =~= hex(tail.0 as nat, 16));
    put_hex(&mut digits, tail.1, 16);
    proof {
        lemma_hex_len(tail.0 as nat, 16);
        lemma_hex_len(tail.1 as nat, 16);
    }
    let text = make_uuid(uuid.0, uuid.1);
    let mut name = icon_name.to_owned();
    put_decimal(&mut name, point_size as u128);
    put_str(&mut name, "x");
    put_decimal(&mut name, point_size as u128);
    put_str(&mut name, "_");
    put_str(&mut name, appearance);
    put_str(&mut name, "_");
    put_str(&mut name, text.as_str());
    put_str(&mut name, "-");
    put_str(&mut name, digits.as_str().substring_char(0, 5));
    put_str(&mut name, "-");
    put_str(&mut name, digits.as_str().substring_char(5, 21));
    put_str(&mut name, ".png");
    name
}

/// The name of a rendered icon.
pub fn pre_rendered_name(
    icon_name: &str,
    point_size: u32,
    scale: u32,
    appearance_name: &str,
) -> (name: String)
    ensures
        name@ == pre_rendered(icon_name@, point_size, scale, appearance_name@),
{
    let mut size = String::new();
    put_decimal(&mut size, point_size as u128);
    assert(size@ =~= decimal(point_size as nat));
    let mut scaled = String::new();
    put_decimal(&mut scaled, scale as u128);
    assert(scaled@ =~= decimal(scale as nat));
    put_str(&mut scaled, "x");
    let inputs: [&str; 4] = [icon_name, size.as_str(), scaled.as_str(), appearance_name];
    let others: [&str; 4] = [icon_name, size.as_str(), scaled.as_str(), "tail"];
    proof {
        assert(inputs_view(inputs@) =~= name_inputs(
            icon_name@,
            point_size,
            scale,
            appearance_name@,
        ));
        assert(inputs_view(others@) =~= name_inputs(icon_name@, point_size, scale, "tail"@));
    }
    let uuid = (hash_texts("uuid-lo", &inputs), hash_texts("uuid-hi", &inputs));
    let tail = (hash_texts("uuid-lo", &others), hash_texts("uuid-hi", &others));
    make_rendered_name(icon_name, point_size, uuid, tail, appearance_name)
}

/// A hexadecimal digit, in upper case.
pub open spec fn is_hex_digit(c: char) -> bool {
    '0' <= c <= '9' || 'A' <= c <= 'F'
}

proof fn lemma_hex_digits(n: nat, width: nat, i: int)
    requires
        0 <= i < width,
    ensures
        hex(n, width).len() == width,
        is_hex_digit(hex(n, width)[i]),
    decreases width,
{
    lemma_hex_len(n, width);
    lemma_hex_len(n / 16, (width - 1) as nat);
    if i < width - 1 {
        lemma_hex_digits(n / 16, (width - 1) as nat, i);
    }
}

/// Whether a dash stands at a place of the numbers of a name.
pub open spec fn is_dash_place(i: int) -> bool {
    i == 8 || i == 13 || i == 18 || i == 23 || i == 36 || i == 42
}

/// What the name of a rendered icon begins with.
pub open spec fn name_head(icon_name: Seq<char>, point_size: u32, appearance: Seq<char>) -> Seq<
    char,
> {
    icon_name + decimal(point_size as nat) + "x"@ + decimal(point_size as nat) + "_"@ + appearance
        + "_"@
}

/// The numbers of a name: a UUID, and groups of five and sixteen digits behind it.
spec fn name_numbers(uuid: (nat, nat), tail: (nat, nat)) -> Seq<char> {
    let digits = hex(tail.0, 16) + hex(tail.1, 16);
    uuid_text(uuid.0, uuid.1) + "-"@ + digits.subrange(0, 5) + "-"@ + digits.subrange(5, 21)
}

proof fn lemma_uuid_digits(lo: nat, hi: nat, i: int)
    requires
        0 <= i < 36,
    ensures
        uuid_text(lo, hi).len() == 36,
        if is_dash_place(i) {
            uuid_text(lo, hi)[i] == '-'
        } else {
            is_hex_digit(uuid_text(lo, hi)[i])
        },
{
    uuids_have_their_shape(lo, hi);
    reveal_strlit("-");
    lemma_hex_len(lo / 0x1_0000_0000, 8);
    lemma_hex_len(lo / 0x1_0000, 4);
    lemma_hex_len(lo, 4);
    lemma_hex_len(hi / 0x1_0000_0000_0000, 4);
    lemma_hex_len(hi, 12);
    if i < 8 {
        lemma_hex_digits(lo / 0x1_0000_0000, 8, i);
    } else if 8 < i < 13 {
        lemma_hex_digits(lo / 0x1_0000, 4, i - 9);
    } else if 13 < i < 18 {
        lemma_hex_digits(lo, 4, i - 14);
    } else if 18 < i < 23 {
        lemma_hex_digits(hi / 0x1_0000_0000_0000, 4, i - 19);
    } else if 23 < i {
        lemma_hex_digits(hi, 12, i - 24);
    }
}

proof fn lemma_name_numbers(uuid: (nat, nat), tail: (nat, nat), i: int)
    requires
        0 <= i < 59,
    ensures
        name_numbers(uuid, tail).len() == 59,
        if is_dash_place(i) {
            name_numbers(uuid, tail)[i] == '-'
        } else {
            is_hex_digit(name_numbers(uuid, tail)[i])
        },
{
    let digits = hex(tail.0, 16) + hex(tail.1, 16);
    reveal_strlit("-");
    uuids_have_their_shape(uuid.0, uuid.1);
    lemma_hex_len(tail.0, 16);
    lemma_hex_len(tail.1, 16);
    if i < 36 {
        lemma_uuid_digits(uuid.0, uuid.1, i);
    } else if !is_dash_place(i) {
        let at = if i < 42 {
            i - 37
        } else {
            i - 38
        };
        assert(name_numbers(uuid, tail)[i] == digits[at]);
        if at < 16 {
            lemma_hex_digits(tail.0, 16, at);
        } else {
            lemma_hex_digits(tail.1, 16, at - 16);
        }
    }
}

/// The name of a rendered icon has the shape of its parts: the icon, its size twice and
/// the appearance, then hexadecimal digits in groups of 8, 4, 4, 4, 12, 5 and 16 with
/// dashes between them, and the extension.
pub proof fn rendered_names_have_their_shape(
    icon_name: Seq<char>,
    point_size: u32,
    scale: u32,
    appearance: Seq<char>,
)
    ensures
        ({
            let name = pre_rendered(icon_name, point_size, scale, appearance);
            let head = name_head(icon_name, point_size, appearance);
            let at = head.len() as int;
            &&& name.len() == at + 59 + 4
            &&& name.take(at) == head
            &&& name.skip(at + 59) == ".png"@
            &&& forall|i: int|
                0 <= i < 59 ==> if is_dash_place(i) {
                    #[trigger] name[at + i] == '-'
                } else {
                    is_hex_digit(name[at + i])
                }
        }),
{
    let name = pre_rendered(icon_name, point_size, scale, appearance);
    let head = name_head(icon_name, point_size, appearance);
    let at = head.len() as int;
    let uuid = uuid_numbers(name_inputs(icon_name, point_size, scale, appearance));
    let tail = uuid_numbers(name_inputs(icon_name, point_size, scale, "tail"@));
    let numbers = name_numbers(uuid, tail);
    reveal_strlit(".png");
    lemma_name_numbers(uuid, tail, 0);
    assert(name =~= head + numbers + ".png"@);
    assert(name.take(at) =~= head);
    assert(name.skip(at + 59) =~= ".png"@);
    assert forall|i: int| 0 <= i < 59 implies if is_dash_place(i) {
        #[trigger] name[at + i] == '-'
    } else {
        is_hex_digit(name[at + i])
    } by {
        lemma_name_numbers(uuid, tail, i);
        assert(name[at + i] == numbers[i]);
    }
}

proof fn lemma_decimal_digits(n: nat, i: int)
    requires
        0 <= i < decimal(n).len(),
    ensures
        '0' <= decimal(n)[i] <= '9',
    decreases n,
{
    if n >= 10 && i < decimal(n).len() - 1 {
        lemma_decimal_digits(n / 10, i);
    }
}

/// Different sizes of an icon have different names, whatever their scales and
/// appearances are.  Two scales of one size differ only in what is hashed into the
/// numbers of the name, and how hashes differ is left unsaid.
pub proof fn sizes_have_different_names(
    icon_name: Seq<char>,
    one: u32,
    other: u32,
    one_scale: u32,
    other_scale: u32,
    one_appearance: Seq<char>,
    other_appearance: Seq<char>,
)
    requires
        one != other,
    ensures
        pre_rendered(icon_name, one, one_scale, one_appearance) != pre_rendered(
            icon_name,
            other,
            other_scale,
            other_appearance,
        ),
{
    let a = pre_rendered(icon_name, one, one_scale, one_appearance);
    let b = pre_rendered(icon_name, other, other_scale, other_appearance);
    let first = decimal(one as nat);
    let second = decimal(other as nat);
    let at = icon_name.len() as int;
    reveal_strlit("x");
    assert forall|i: int| 0 <= i < first.len() implies a[at + i] == first[i] by {}
    assert forall|i: int| 0 <= i < second.len() implies b[at + i] == second[i] by {}
    assert(a[at + first.len()] == 'x');
    assert(b[at + second.len()] == 'x');
    if a == b {
        if first.len() < second.len() {
            lemma_decimal_digits(other as nat, first.len() as int);
            assert(b[at + first.len()] == second[first.len() as int]);
        }
        if second.len() < first.len() {
            lemma_decimal_digits(one as nat, second.len() as int);
            assert(a[at + second.len()] == first[second.len() as int]);
        }
        assert forall|i: int| 0 <= i < first.len() implies first[i] == second[i] by {
            assert(a[at + i] == first[i]);
            assert(b[at + i] == second[i]);
        }
        assert(first =~= second);
        decimal_is_injective(one as nat, other as nat);
    }
}

} // verus!
