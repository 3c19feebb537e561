//! What reports and property lists say, and what paths are called.

use vstd::prelude::*;

use crate::files::{behind_last_slash, file_name_of, trimmed};
use crate::plist::{icon_files, ios_icon_plist, primary_icon, tvos_icon_plist, IconImage};
use crate::report::{plain_lines, results_report, version_report};
use crate::text::decimal;

verus! {

/// Whether a text holds another.
pub open spec fn says(text: Seq<char>, part: Seq<char>) -> bool {
    exists|at: int| 0 <= at <= text.len() - part.len() && #[trigger] part_at(text, at, part)
}

/// Whether a text holds another at a place.
pub open spec fn part_at(text: Seq<char>, at: int, part: Seq<char>) -> bool {
    text.subrange(at, at + part.len()) == part
}

pub proof fn lemma_says(before: Seq<char>, part: Seq<char>, behind: Seq<char>)
    ensures
        says(before + part + behind, part),
{
    let text = before + part + behind;
    let at = before.len() as int;
    assert(text.subrange(at, at + part.len()) =~= part);
    assert(part_at(text, at, part));
}

/// The report of the versions says each behind its label.
pub proof fn reports_say_the_versions(bundle: Seq<char>, short: Seq<char>)
    ensures
        says(version_report("human-readable-text"@, bundle, short), "\nbundle-version: "@ + bundle),
        says(
            version_report("human-readable-text"@, bundle, short),
            "\nshort-bundle-version: "@ + short + "\n"@,
        ),
{
    reveal_strlit("/* com.apple.actool.version */\nbundle-version: ");
    reveal_strlit("\nbundle-version: ");
    reveal_strlit("/* com.apple.actool.version */");
    let head = "/* com.apple.actool.version */"@;
    let label = "\nshort-bundle-version: "@;
    let text = version_report("human-readable-text"@, bundle, short);
    assert("/* com.apple.actool.version */\nbundle-version: "@ =~= head + "\nbundle-version: "@);
    lemma_says(head, "\nbundle-version: "@ + bundle, label + short + "\n"@);
    assert(text =~= head + ("\nbundle-version: "@ + bundle) + (label + short + "\n"@));
    lemma_says(head + ("\nbundle-version: "@ + bundle), label + short + "\n"@, Seq::empty());
    assert(text =~= head + ("\nbundle-version: "@ + bundle) + (label + short + "\n"@)
        + Seq::<char>::empty());
}

/// The lines of a report are the files that were made, in order.
pub proof fn reports_list_the_files(files: Seq<Seq<char>>, i: int)
    requires
        0 <= i < files.len(),
    ensures
        says(plain_lines(files), files[i] + "\n"@),
        says(results_report("human-readable-text"@, files), files[i] + "\n"@),
    decreases files.len(),
{
    lemma_lines(files, i);
    let lines = plain_lines(files);
    let head = "/* com.apple.actool.compilation-results */\n"@;
    let part = files[i] + "\n"@;
    let at = choose|at: int| 0 <= at <= lines.len() - part.len() && #[trigger] part_at(
        lines,
        at,
        part,
    );
    lemma_says(head + lines.take(at), part, lines.skip(at + part.len()));
    assert(head + lines =~= head + lines.take(at) + part + lines.skip(at + part.len())) by {
        assert(lines =~= lines.take(at) + lines.subrange(at, at + part.len()) + lines.skip(
            at + part.len(),
        ));
    }
}

proof fn lemma_lines(files: Seq<Seq<char>>, i: int)
    requires
        0 <= i < files.len(),
    ensures
        says(plain_lines(files), files[i] + "\n"@),
    decreases files.len(),
{
    let before = plain_lines(files.drop_last());
    let last = files.last() + "\n"@;
    let part = files[i] + "\n"@;
    if i == files.len() - 1 {
        lemma_says(before, last, Seq::empty());
        assert(plain_lines(files) =~= before + last + Seq::<char>::empty());
    } else {
        lemma_lines(files.drop_last(), i);
        let at = choose|at: int| 0 <= at <= before.len() - part.len() && #[trigger] part_at(
            before,
            at,
            part,
        );
        lemma_says(before.take(at), part, before.skip(at + part.len()) + last);
        assert(before =~= before.take(at) + before.subrange(at, at + part.len()) + before.skip(
            at + part.len(),
        ));
        assert(plain_lines(files) =~= before.take(at) + part + (before.skip(at + part.len())
            + last));
    }
}

/// The property list of an iOS icon names the files of the phone, and for the pad those
/// of both where the pad has its own.
pub proof fn icon_lists_are_by_device(icons: Seq<IconImage>, name: Seq<char>)
    ensures
        ({
            let text = ios_icon_plist(icons, name);
            let phone = icon_files(icons, name, "iphone"@);
            let pad = icon_files(icons, name, "ipad"@);
            &&& says(text, primary_icon("CFBundleIcons"@, phone, name))
            &&& pad.len() > 0 ==> says(text, primary_icon("CFBundleIcons~ipad"@, phone + pad, name))
            &&& pad.len() == 0 ==> says(
                text,
                primary_icon("CFBundleIcons~ipad"@, Seq::empty(), name),
            )
        }),
{
    let text = ios_icon_plist(icons, name);
    let phone = icon_files(icons, name, "iphone"@);
    let pad = icon_files(icons, name, "ipad"@);
    let start = crate::plist::plist_start();
    let end = crate::plist::plist_end();
    let first = primary_icon("CFBundleIcons"@, phone, name);
    let files = if pad.len() == 0 {
        pad
    } else {
        phone + pad
    };
    assert(pad.len() == 0 ==> pad =~= Seq::empty());
    let second = primary_icon("CFBundleIcons~ipad"@, files, name);
    lemma_says(start, first, second + end);
    assert(text =~= start + first + (second + end));
    lemma_says(start + first, second, end);
}

/// The icon files of a device are named after the icon and its size, where there is an
/// image for the device in that size.
pub proof fn icon_files_are_named(icons: Seq<IconImage>, name: Seq<char>, i: int)
    requires
        0 <= i < icons.len(),
    ensures
        icons[i].idiom@ == "iphone"@ && icons[i].point_w == 60 ==> icon_files(
            icons,
            name,
            "iphone"@,
        ) == seq![name + decimal(60) + "x"@ + decimal(60)],
        icons[i].idiom@ == "ipad"@ && icons[i].point_w == 76 ==> icon_files(icons, name, "ipad"@)
            == seq![name + decimal(76) + "x"@ + decimal(76)],
        (forall|j: int|
            0 <= j < icons.len() ==> (#[trigger] icons[j]).idiom@ != "ipad"@ || icons[j].point_w
                != 76) ==> icon_files(icons, name, "ipad"@).len() == 0,
{
    reveal_strlit("iphone");
    reveal_strlit("ipad");
    assert("iphone"@.len() == 6 && "ipad"@.len() == 4);
}

/// The property list of a tvOS icon names the icon.
pub proof fn television_lists_name_the_icon(name: Seq<char>)
    ensures
        says(tvos_icon_plist(name), "<string>"@ + name + "</string>\n"@),
{
    let part = "<string>"@ + name + "</string>\n"@;
    let before = crate::plist::plist_start() + crate::plist::key_line("\t"@, "CFBundleIcons"@)
        + "\t<dict>\n"@ + crate::plist::key_line("\t\t"@, "CFBundlePrimaryIcon"@) + "\t\t"@;
    let behind = "\t</dict>\n"@ + crate::plist::plist_end();
    lemma_says(before, part, behind);
    assert(tvos_icon_plist(name) =~= before + part + behind);
}

/// The name of a file in a folder is the last component of its path.
pub proof fn files_are_called_by_their_name(dir: Seq<char>, name: Seq<char>)
    requires
        name.len() > 0,
        !name.contains('/'),
        name != "."@,
        name != ".."@,
    ensures
        file_name_of(dir + seq!['/'] + name) == name,
        file_name_of(name) == name,
{
    let path = dir + seq!['/'] + name;
    assert(path.skip(path.len() - name.len()) =~= name);
    assert(name.skip(name.len() - name.len()) =~= name);
    lemma_not_trimmed(path, name);
    lemma_not_trimmed(name, name);
    lemma_last(path, dir.len() as int, path.len() as int);
    assert(path.skip(dir.len() as int + 1) =~= name);
    lemma_no_slash(name, name.len() as int);
}

proof fn lemma_not_trimmed(path: Seq<char>, name: Seq<char>)
    requires
        name.len() > 0,
        !name.contains('/'),
        name != "."@,
        path.len() >= name.len(),
        path.skip(path.len() - name.len()) == name,
    ensures
        trimmed(path) == path,
{
    reveal_strlit(".");
    let n = path.len() as int;
    assert(path[n - 1] == name[name.len() - 1]);
    assert(name.contains(name[name.len() - 1]));
    if name.len() > 1 {
        assert(path[n - 2] == name[name.len() - 2]);
        assert(name.contains(name[name.len() - 2]));
    } else if name[0] == '.' {
        assert(name =~= "."@);
    }
}

proof fn lemma_last(path: Seq<char>, at: int, len: int)
    requires
        0 <= at < len <= path.len(),
        path[at] == '/',
        forall|i: int| at < i < len ==> #[trigger] path[i] != '/',
        len == path.len(),
    ensures
        behind_last_slash(path, len) == path.skip(at + 1),
{
    lemma_last_from(path, at, len);
}

proof fn lemma_last_from(path: Seq<char>, at: int, len: int)
    requires
        0 <= at < len <= path.len(),
        path[at] == '/',
        forall|i: int| at < i < len ==> #[trigger] path[i] != '/',
    ensures
        behind_last_slash(path, len) == path.skip(at + 1),
    decreases len,
{
    if at < len - 1 {
        lemma_last_from(path, at, len - 1);
    }
}

proof fn lemma_no_slash(path: Seq<char>, len: int)
    requires
        0 <= len <= path.len(),
        !path.contains('/'),
    ensures
        behind_last_slash(path, len) == path,
    decreases len,
{
    if len > 0 {
        assert(path.contains(path[len - 1]));
        lemma_no_slash(path, len - 1);
    } else {
        assert(path.skip(0) =~= path);
    }
}

} // verus!
