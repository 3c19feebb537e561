//! What the command-line tool reports: its version, the files it made, and what
//! they depend on.

use vstd::prelude::*;
use vstd::utf8::encode_utf8;
use vstd::string::StrSliceExecFns;

use crate::bytes::{be16, be32, lemma_empty_prefix, put_be16, put_be32, put_bytes};
use crate::order::texts;
use crate::platform::{
    find_char, ios_platform, is_ios_platform, parse_number, parsed_number, position,
};
use crate::plist::{
    key_line, new_plist, plist_end, plist_start, put_key, put_string, string_line, string_lines,
    text_view,
};
use crate::text::{put_str, same_text};

verus! {

broadcast use lemma_empty_prefix;

/// The version of the framework that archives are made for where nothing else is
/// known.
pub const DEFAULT_COREUI_VERSION: u32 = 972;

/// The same for phones and pads.
pub const DEFAULT_IOS_COREUI_VERSION: u32 = 975;

/// The version of the framework that archives for a platform are made for: the one
/// asked for, the one in the environment if it is a number, that of the host, or the
/// default of the platform.
pub open spec fn coreui_version(
    platform: Seq<char>,
    explicit: Option<u32>,
    environment: Option<Seq<char>>,
    host: Option<u32>,
) -> u32 {
    match explicit {
        Some(v) => v,
        None => match environment {
            Some(text) if parsed_number(text) is Some => parsed_number(text)->0,
            _ => match host {
                Some(v) => v,
                None => if ios_platform(platform) {
                    DEFAULT_IOS_COREUI_VERSION
                } else {
                    DEFAULT_COREUI_VERSION
                },
            },
        },
    }
}

/// The version of the framework that archives are made for.
pub fn resolve_coreui_version(
    platform: &str,
    explicit: Option<u32>,
    environment: Option<&str>,
    host: Option<u32>,
) -> (version: u32)
    ensures
        version == coreui_version(platform@, explicit, text_view(environment), host),
{
    match explicit {
        Some(v) => {
            return v;
        },
        None => {},
    }
    match environment {
        Some(text) => {
            let len = text.unicode_len();
            assert(text@.subrange(0, len as int) =~= text@);
            match parse_number(text, 0, len) {
                Some(n) => {
                    return n;
                },
                None => {},
            }
        },
        None => {},
    }
    match host {
        Some(v) => v,
        None => if is_ios_platform(platform) {
            DEFAULT_IOS_COREUI_VERSION
        } else {
            DEFAULT_COREUI_VERSION
        },
    }
}

/// The first component of a bundle version, if it is a number.
pub fn leading_version(text: &str) -> (version: Option<u32>)
    ensures
        version == parsed_number(text@.subrange(0, find_char(text@, '.', 0))),
{
    let len = text.unicode_len();
    let dot = position(text, '.', 0, len);
    parse_number(text, 0, dot)
}

/// The text that the dictionary of a property list holds under a key, as the `plist`
/// crate reads it; `None` if it cannot, or if there is no such text.
pub uninterp spec fn plist_member(data: Seq<u8>, key: Seq<char>) -> Option<Seq<char>>;

/// Reads a property list of any encoding with `plist::Value::from_reader` and finds the
/// text under a key of its dictionary.  The result depends on the contents and the
/// key alone.  What it is for given contents is left unsaid: that is the business
/// of the file format.
#[verifier::external_body]
fn read_plist_member(data: &[u8], key: &str) -> (text: Option<String>)
    ensures
        match text {
            Some(t) => plist_member(data@, key@) == Some(t@),
            None => plist_member(data@, key@) is None,
        },
{
    let value = plist::Value::from_reader(std::io::Cursor::new(data)).ok()?;
    let text = value.as_dictionary()?.get(key)?.as_string()?;
    Some(text.to_owned())
}

/// The version of the framework that its property list names: the first component of
/// its bundle version, if that is a number.
pub fn plist_version(data: &[u8]) -> (version: Option<u32>)
    ensures
        version == (match plist_member(data@, "CFBundleVersion"@) {
            Some(text) => parsed_number(text.subrange(0, find_char(text, '.', 0))),
            None => None,
        }),
{
    match read_plist_member(data, "CFBundleVersion") {
        Some(text) => leading_version(&text),
        None => None,
    }
}

/// The version of the tool, as a property list or as text.
pub open spec fn version_report(format: Seq<char>, bundle: Seq<char>, short: Seq<char>) -> Seq<
    char,
> {
    if format == "human-readable-text"@ {
        "/* com.apple.actool.version */\nbundle-version: "@ + bundle
            + "\nshort-bundle-version: "@ + short + "\n"@
    } else {
        plist_start() + key_line("\t"@, "com.apple.actool.version"@) + "\t<dict>\n"@ + key_line(
            "\t\t"@,
            "bundle-version"@,
        ) + string_line("\t\t"@, bundle) + key_line("\t\t"@, "short-bundle-version"@)
            + string_line("\t\t"@, short) + "\t</dict>\n"@ + plist_end()
    }
}

/// The version of the tool.
pub fn make_version_report(format: &str, bundle: &str, short: &str) -> (out: String)
    ensures
        out@ == version_report(format@, bundle@, short@),
{
    if same_text(format, "human-readable-text") {
        let mut out = "/* com.apple.actool.version */\nbundle-version: ".to_owned();
        put_str(&mut out, bundle);
        put_str(&mut out, "\nshort-bundle-version: ");
        put_str(&mut out, short);
        put_str(&mut out, "\n");
        return out;
    }
    let mut out = new_plist();
    put_key(&mut out, "\t", "com.apple.actool.version");
    put_str(&mut out, "\t<dict>\n");
    put_key(&mut out, "\t\t", "bundle-version");
    put_string(&mut out, "\t\t", bundle);
    put_key(&mut out, "\t\t", "short-bundle-version");
    put_string(&mut out, "\t\t", short);
    put_str(&mut out, "\t</dict>\n");
    put_str(&mut out, "</dict>\n</plist>\n");
    out
}

/// Texts, each on a line of its own.
pub open spec fn plain_lines(values: Seq<Seq<char>>) -> Seq<char>
    decreases values.len(),
{
    if values.len() == 0 {
        Seq::empty()
    } else {
        plain_lines(values.drop_last()) + (values.last() + "\n"@)
    }
}

/// The files that were made, as a property list or as text.
pub open spec fn results_report(format: Seq<char>, files: Seq<Seq<char>>) -> Seq<char> {
    if format == "human-readable-text"@ {
        "/* com.apple.actool.compilation-results */\n"@ + plain_lines(files)
    } else {
        plist_start() + key_line("\t"@, "com.apple.actool.compilation-results"@) + "\t<dict>\n"@
            + key_line("\t\t"@, "output-files"@) + "\t\t<array>\n"@ + string_lines(
            "\t\t\t"@,
            files,
        ) + "\t\t</array>\n"@ + "\t</dict>\n"@ + plist_end()
    }
}

/// The files that were made.
pub fn make_results_report(format: &str, files: &[String]) -> (out: String)
    ensures
        out@ == results_report(format@, texts(files@)),
{
    let ghost all = texts(files@);
    let plain = same_text(format, "human-readable-text");
    let mut out = if plain {
        "/* com.apple.actool.compilation-results */\n".to_owned()
    } else {
        let mut start = new_plist();
        put_key(&mut start, "\t", "com.apple.actool.compilation-results");
        put_str(&mut start, "\t<dict>\n");
        put_key(&mut start, "\t\t", "output-files");
        put_str(&mut start, "\t\t<array>\n");
        start
    };
    let ghost head = out@;
    let mut i: usize = 0;
    proof {
        assert(out@ =~= head + plain_lines(all.take(0)));
        assert(out@ =~= head + string_lines("\t\t\t"@, all.take(0)));
    }
    while i < files.len()
        invariant
            i <= files@.len(),
            all == texts(files@),
            plain ==> out@ == head + plain_lines(all.take(i as int)),
            !plain ==> out@ == head + string_lines("\t\t\t"@, all.take(i as int)),
        decreases files.len() - i,
    {
        if plain {
            put_str(&mut out, files[i].as_str());
            put_str(&mut out, "\n");
        } else {
            put_string(&mut out, "\t\t\t", files[i].as_str());
        }
        i = i + 1;
        proof {
            assert(all.take(i as int).drop_last() =~= all.take(i - 1));
            assert(plain ==> out@ =~= head + plain_lines(all.take(i as int)));
            assert(!plain ==> out@ =~= head + string_lines("\t\t\t"@, all.take(i as int)));
        }
    }
    assert(all.take(i as int) =~= all);
    if !plain {
        put_str(&mut out, "\t\t</array>\n");
        put_str(&mut out, "\t</dict>\n");
        put_str(&mut out, "</dict>\n</plist>\n");
    }
    out
}

/// Records of dependency information: a kind, a text, and a zero byte.
pub open spec fn records(kind: u8, values: Seq<Seq<char>>) -> Seq<u8>
    decreases values.len(),
{
    if values.len() == 0 {
        Seq::empty()
    } else {
        records(kind, values.drop_last()) + (seq![kind] + encode_utf8(values.last()) + seq![0u8])
    }
}

/// Dependency information: the tool, what it read, and what it made.
pub open spec fn dependency_info(
    tool: Seq<char>,
    inputs: Seq<Seq<char>>,
    outputs: Seq<Seq<char>>,
) -> Seq<u8> {
    records(0, seq![tool]) + records(0x10, inputs) + records(0x40, outputs)
}

fn put_record(out: &mut Vec<u8>, kind: u8, value: &str)
    ensures
        final(out)@ == old(out)@ + (seq![kind] + encode_utf8(value@) + seq![0u8]),
{
    let ghost before = out@;
    out.push(kind);
    put_bytes(out, value.as_bytes());
    out.push(0);
    assert(out@ =~= before + (seq![kind] + encode_utf8(value@) + seq![0u8]));
}

fn put_records(out: &mut Vec<u8>, kind: u8, values: &[String])
    ensures
        final(out)@ == old(out)@ + records(kind, texts(values@)),
{
    let ghost before = out@;
    let ghost all = texts(values@);
    let mut i: usize = 0;
    assert(out@ =~= before + records(kind, all.take(0)));
    while i < values.len()
        invariant
            i <= values@.len(),
            all == texts(values@),
            out@ == before + records(kind, all.take(i as int)),
        decreases values.len() - i,
    {
        put_record(out, kind, values[i].as_str());
        i = i + 1;
        assert(all.take(i as int).drop_last() =~= all.take(i - 1));
        assert(out@ =~= before + records(kind, all.take(i as int)));
    }
    assert(all.take(i as int) =~= all);
}

/// Dependency information.
pub fn make_dependency_info(tool: &str, inputs: &[String], outputs: &[String]) -> (out: Vec<u8>)
    ensures
        out@ == dependency_info(tool@, texts(inputs@), texts(outputs@)),
{
    let mut out: Vec<u8> = Vec::new();
    put_record(&mut out, 0, tool);
    proof {
        let one = seq![tool@];
        assert(one.drop_last() =~= Seq::empty());
        assert(records(0, one.drop_last()) =~= Seq::empty());
        assert(out@ =~= records(0, one));
    }
    put_records(&mut out, 0x10, inputs);
    put_records(&mut out, 0x40, outputs);
    out
}

/// The description of an image that is embedded in icon files: its color space,
/// width and height, as a big-endian list of tagged values.
pub open spec fn exif_dimensions(width: u32, height: u32) -> Seq<u8> {
    be16(0x4d4d) + be16(0x002a) + be32(8) + be16(1) + be16(0x8769) + be16(4) + be32(1) + be32(26)
        + be32(0) + be16(3) + be16(0xa001) + be16(3) + be32(1) + be16(1) + be16(0) + be16(0xa002)
        + be16(4) + be32(1) + be32(width) + be16(0xa003) + be16(4) + be32(1) + be32(height) + be32(
        0,
    )
}

/// The description of an image that is embedded in icon files.
pub fn build_exif_dimensions(width: u32, height: u32) -> (out: Vec<u8>)
    ensures
        out@ == exif_dimensions(width, height),
{
    let mut out: Vec<u8> = Vec::new();
    put_be16(&mut out, 0x4d4d);
    put_be16(&mut out, 0x002a);
    put_be32(&mut out, 8);
    put_be16(&mut out, 1);
    put_be16(&mut out, 0x8769);
    put_be16(&mut out, 4);
    put_be32(&mut out, 1);
    put_be32(&mut out, 26);
    put_be32(&mut out, 0);
    put_be16(&mut out, 3);
    put_be16(&mut out, 0xa001);
    put_be16(&mut out, 3);
    put_be32(&mut out, 1);
    put_be16(&mut out, 1);
    put_be16(&mut out, 0);
    put_be16(&mut out, 0xa002);
    put_be16(&mut out, 4);
    put_be32(&mut out, 1);
    put_be32(&mut out, width);
    put_be16(&mut out, 0xa003);
    put_be16(&mut out, 4);
    put_be32(&mut out, 1);
    put_be32(&mut out, height);
    put_be32(&mut out, 0);
    out
}

} // verus!
