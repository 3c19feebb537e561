//! Icon files: PNG images of several sizes, one behind the other.

use vstd::prelude::*;

use crate::bytes::{be32, be32_reads_back, put_be32, put_bytes, read_be32};

verus! {

/// What an icon file begins with: `icns`.
pub const FILE_TYPE: u32 = 0x6963_6e73;

/// The type of an image of a width in pixels, if icon files have such images.
pub open spec fn image_type(pixels: u64) -> Option<u32> {
    if pixels == 16 {
        Some(0x6963_7034u32)
    } else if pixels == 32 {
        Some(0x6963_7035u32)
    } else if pixels == 64 {
        Some(0x6963_7036u32)
    } else if pixels == 128 {
        Some(0x6963_3037u32)
    } else if pixels == 256 {
        Some(0x6963_3038u32)
    } else if pixels == 512 {
        Some(0x6963_3039u32)
    } else if pixels == 1024 {
        Some(0x6963_3130u32)
    } else {
        None
    }
}

/// The type of an image of a width in pixels.
pub fn find_image_type(pixels: u64) -> (kind: Option<u32>)
    ensures
        kind == image_type(pixels),
{
    match pixels {
        16 => Some(0x6963_7034),
        32 => Some(0x6963_7035),
        64 => Some(0x6963_7036),
        128 => Some(0x6963_3037),
        256 => Some(0x6963_3038),
        512 => Some(0x6963_3039),
        1024 => Some(0x6963_3130),
        _ => None,
    }
}

/// Whether image `i` goes into an icon file: icon files have images of its width, and
/// it is the first of that width.
pub open spec fn is_taken(images: Seq<(Vec<u8>, u64)>, i: int) -> bool {
    &&& image_type(images[i].1) is Some
    &&& forall|j: int| 0 <= j < i ==> (#[trigger] images[j]).1 != images[i].1
}

/// The part of an icon file for one image.
pub open spec fn icns_part(image: (Vec<u8>, u64)) -> Seq<u8> {
    be32(image_type(image.1)->0) + be32((image.0@.len() + 8) as u32) + image.0@
}

/// The parts of an icon file for the first `n` images.
pub open spec fn icns_parts(images: Seq<(Vec<u8>, u64)>, n: nat) -> Seq<u8>
    decreases n,
{
    if n == 0 {
        Seq::empty()
    } else if is_taken(images, n - 1) {
        icns_parts(images, (n - 1) as nat) + icns_part(images[n - 1])
    } else {
        icns_parts(images, (n - 1) as nat)
    }
}

/// The icon file of images that are given with their widths in pixels.
pub open spec fn icns_file(images: Seq<(Vec<u8>, u64)>) -> Seq<u8> {
    let parts = icns_parts(images, images.len());
    be32(FILE_TYPE) + be32((parts.len() + 8) as u32) + parts
}

/// Whether the length of an icon file fits its field.
pub open spec fn icns_fits(images: Seq<(Vec<u8>, u64)>) -> bool {
    icns_parts(images, images.len()).len() + 8 <= u32::MAX
}

/// Puts PNG images, given with their widths in pixels, into an icon file; `None` if it
/// would be too long.
pub fn make_icns(images: &Vec<(Vec<u8>, u64)>) -> (out: Option<Vec<u8>>)
    ensures
        match out {
            Some(bytes) => icns_fits(images@) && bytes@ == icns_file(images@),
            None => !icns_fits(images@),
        },
{
    let mut parts: Vec<u8> = Vec::new();
    let mut i: usize = 0;
    assert(parts@ =~= icns_parts(images@, 0));
    while i < images.len()
        invariant
            i <= images@.len(),
            parts@ == icns_parts(images@, i as nat),
        decreases images.len() - i,
    {
        let pixels: u64 = images[i].1;
        let mut first = true;
        let mut j: usize = 0;
        while j < i
            invariant
                j <= i < images@.len(),
                pixels == images@[i as int].1,
                first == (forall|k: int| 0 <= k < j ==> (#[trigger] images@[k]).1 != pixels),
            decreases i - j,
        {
            if images[j].1 == pixels {
                first = false;
            }
            j = j + 1;
        }
        match find_image_type(pixels) {
            Some(kind) => {
                if first {
                    let data = &images[i].0;
                    let mut part: Vec<u8> = Vec::new();
                    put_be32(&mut part, kind);
                    put_be32(&mut part, (data.len() as u128 + 8) as u32);
                    put_bytes(&mut part, data.as_slice());
                    assert(part@ =~= icns_part(images@[i as int]));
                    put_bytes(&mut parts, part.as_slice());
                }
            },
            None => {},
        }
        i = i + 1;
    }
    if parts.len() as u128 + 8 > u32::MAX as u128 {
        return None;
    }
    let mut out: Vec<u8> = Vec::new();
    put_be32(&mut out, FILE_TYPE);
    put_be32(&mut out, parts.len() as u32 + 8);
    put_bytes(&mut out, parts.as_slice());
    assert(out@ =~= icns_file(images@));
    Some(out)
}

/// An icon file tells what it is and how long it is.
pub proof fn icon_files_tell_their_length(images: Seq<(Vec<u8>, u64)>)
    requires
        icns_fits(images),
    ensures
        read_be32(icns_file(images), 0) == FILE_TYPE,
        read_be32(icns_file(images), 4) == icns_file(images).len(),
{
    let file = icns_file(images);
    let parts = icns_parts(images, images.len());
    assert(file.len() == 8 + parts.len());
    assert(file.subrange(0, 4) =~= be32(FILE_TYPE));
    assert(file.subrange(4, 8) =~= be32((parts.len() + 8) as u32));
    be32_reads_back(file, 0, FILE_TYPE);
    be32_reads_back(file, 4, (parts.len() + 8) as u32);
}

} // verus!
