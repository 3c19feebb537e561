//! Folders and files in memory.

use vstd::prelude::*;
use vstd::string::StrSliceExecFns;

use crate::json::Json;
use crate::order::{byte_order, encodings, text_order, texts};
use crate::text::{put_str, same_text};

verus! {

/// What the SVG renderer of the platform drew.
#[derive(Debug)]
pub struct Drawing {
    /// The size of the document.
    pub width: u32,
    pub height: u32,
    /// How many pixels one unit of the document has.
    pub scale: u32,
    /// Blue, green, red and alpha of each pixel; alpha is multiplied in.
    pub pixels: Vec<u8>,
}

/// A file.
#[derive(Debug)]
pub struct File {
    /// What it holds; `None` if it cannot be read.
    pub data: Option<Vec<u8>>,
    /// What it holds as a JSON value; `None` if it is no JSON text.
    pub json: Option<Json>,
    /// An SVG document, drawn in the sizes that there were drawings for.
    pub drawings: Vec<Drawing>,
}

/// A file or a folder.
#[derive(Debug)]
pub enum Item {
    Folder(Vec<(String, Item)>),
    File(File),
}

/// The item that has a name.
pub open spec fn child_from(entries: Seq<(String, Item)>, name: Seq<char>, from: int) -> Option<Item>
    decreases entries.len() - from,
{
    if from < 0 || from >= entries.len() {
        None
    } else if entries[from].0@ == name {
        Some(entries[from].1)
    } else {
        child_from(entries, name, from + 1)
    }
}

/// The item of a name in a folder; there is none in a file.
pub open spec fn child(item: Item, name: Seq<char>) -> Option<Item> {
    match item {
        Item::Folder(entries) => child_from(entries@, name, 0),
        Item::File(_) => None,
    }
}

/// The position of the first slash, or the length.
pub open spec fn first_slash(path: Seq<char>) -> int
    decreases path.len(),
{
    if path.len() == 0 || path[0] == '/' {
        0
    } else {
        1 + first_slash(path.skip(1))
    }
}

pub proof fn lemma_first_slash(path: Seq<char>)
    ensures
        0 <= first_slash(path) <= path.len(),
        first_slash(path) < path.len() ==> path[first_slash(path)] == '/',
        forall|i: int| 0 <= i < first_slash(path) ==> #[trigger] path[i] != '/',
    decreases path.len(),
{
    if path.len() > 0 && path[0] != '/' {
        lemma_first_slash(path.skip(1));
        assert forall|i: int| 0 <= i < first_slash(path) implies #[trigger] path[i] != '/' by {
            if i > 0 {
                assert(path.skip(1)[i - 1] == path[i]);
            }
        }
    }
}

/// What is left of a path behind its first component.
pub open spec fn behind_slash(path: Seq<char>) -> Seq<char> {
    if first_slash(path) < path.len() {
        path.skip(first_slash(path) + 1)
    } else {
        Seq::empty()
    }
}

/// Whether a path has a component that goes up.
pub open spec fn goes_up(path: Seq<char>) -> bool
    decreases path.len(),
{
    proof {
        lemma_first_slash(path);
    }
    path.len() > 0 && (path.take(first_slash(path)) == ".."@ || goes_up(behind_slash(path)))
}

/// Whether a path leads away from where it is looked up: it starts at the root of the
/// file system, or goes up.
pub open spec fn leads_away(path: Seq<char>) -> bool {
    path.len() > 0 && path[0] == '/' || goes_up(path)
}

/// The item that one component of a path leads to: empty ones and single dots stay in
/// the folder.
pub open spec fn step(item: Item, name: Seq<char>) -> Option<Item> {
    if name.len() > 0 && name != "."@ {
        child(item, name)
    } else if item is Folder {
        Some(item)
    } else {
        None
    }
}

/// The item that a path leads to, component by component.  A slash follows folders
/// only.
pub open spec fn item_below(item: Item, path: Seq<char>) -> Option<Item>
    decreases path.len(),
{
    if path.len() == 0 {
        Some(item)
    } else {
        proof {
            lemma_first_slash(path);
        }
        match step(item, path.take(first_slash(path))) {
            Some(next) => if first_slash(path) < path.len() && next is File {
                None
            } else {
                item_below(next, behind_slash(path))
            },
            None => None,
        }
    }
}

/// The item that a path leads to.  What a path that leads away stands for only the
/// file system can tell: it is an entry of its own, under the whole path, that
/// whoever reads a folder adds to it.
pub open spec fn item_at(item: Item, path: Seq<char>) -> Option<Item> {
    if leads_away(path) {
        child(item, path)
    } else {
        item_below(item, path)
    }
}

/// Where the component of a path that begins at `from` ends.
fn component_end(path: &str, from: usize) -> (end: usize)
    requires
        from <= path@.len(),
    ensures
        end == from + first_slash(path@.skip(from as int)),
        from <= end <= path@.len(),
{
    let len: usize = path.unicode_len();
    let ghost left = path@.skip(from as int);
    let mut end: usize = from;
    proof {
        lemma_first_slash(left);
    }
    while end < len && path.get_char(end) != '/'
        invariant
            from <= end <= len == path@.len(),
            left == path@.skip(from as int),
            forall|i: int| from <= i < end ==> #[trigger] path@[i] != '/',
        decreases len - end,
    {
        end = end + 1;
    }
    proof {
        let k = first_slash(left);
        if k < end - from {
            assert(left[k] == path@[from + k]);
        }
        if end - from < k {
            assert(left[end - from] == path@[end as int]);
        }
    }
    end
}

/// Whether a path leads away from where it is looked up.
pub fn check_leads_away(path: &str) -> (answer: bool)
    ensures
        answer == leads_away(path@),
{
    let len: usize = path.unicode_len();
    if len > 0 && path.get_char(0) == '/' {
        return true;
    }
    let mut from: usize = 0;
    assert(path@.skip(0) =~= path@);
    while from < len
        invariant
            from <= len == path@.len(),
            goes_up(path@) == goes_up(path@.skip(from as int)),
        decreases len - from,
    {
        let ghost left = path@.skip(from as int);
        let end = component_end(path, from);
        let name = path.substring_char(from, end);
        assert(name@ =~= left.take(end - from));
        if same_text(name, "..") {
            return true;
        }
        let next: usize = if end < len {
            end + 1
        } else {
            end
        };
        assert(behind_slash(left) =~= path@.skip(next as int));
        from = next;
    }
    assert(path@.skip(from as int).len() == 0);
    false
}

/// A path extended by another; one that starts at the root stands alone.
pub open spec fn joined(dir: Seq<char>, path: Seq<char>) -> Seq<char> {
    if path.len() > 0 && path[0] == '/' {
        path
    } else if dir.len() == 0 || dir.last() == '/' {
        dir + path
    } else {
        dir + "/"@ + path
    }
}

/// Extends a path by another.
pub fn join(dir: &str, path: &str) -> (out: String)
    ensures
        out@ == joined(dir@, path@),
{
    if path.unicode_len() > 0 && path.get_char(0) == '/' {
        return path.to_owned();
    }
    let mut out = dir.to_owned();
    let len: usize = dir.unicode_len();
    if len > 0 && dir.get_char(len - 1) != '/' {
        put_str(&mut out, "/");
    }
    put_str(&mut out, path);
    out
}

/// The position of the last dot that a file's extension starts behind: a dot at
/// the start of a name is no such dot.  `None` if there is none.
pub open spec fn extension_dot(name: Seq<char>, len: int) -> Option<int>
    decreases len,
{
    if len <= 1 {
        None
    } else if name[len - 1] == '.' {
        Some(len - 1)
    } else {
        extension_dot(name, len - 1)
    }
}

/// A name without its extension.
pub open spec fn stem(name: Seq<char>) -> Seq<char> {
    match extension_dot(name, name.len() as int) {
        Some(at) => name.take(at),
        None => name,
    }
}

/// The extension of a name; empty if there is none.
pub open spec fn extension(name: Seq<char>) -> Seq<char> {
    match extension_dot(name, name.len() as int) {
        Some(at) => name.skip(at + 1),
        None => Seq::empty(),
    }
}

/// A name without its extension, and the extension.
pub fn split_extension(name: &str) -> (parts: (&str, &str))
    ensures
        parts.0@ == stem(name@),
        parts.1@ == extension(name@),
{
    let len: usize = name.unicode_len();
    let mut end: usize = len;
    while end > 1
        invariant
            end <= len == name@.len(),
            extension_dot(name@, len as int) == extension_dot(name@, end as int),
        decreases end,
    {
        if name.get_char(end - 1) == '.' {
            let first = name.substring_char(0, end - 1);
            let second = name.substring_char(end, len);
            assert(first@ =~= name@.take(end - 1));
            assert(second@ =~= name@.skip(end as int));
            return (first, second);
        }
        end = end - 1;
    }
    proof {
        reveal_strlit("");
        assert(""@ =~= Seq::empty());
    }
    (name, "")
}

/// A path without the slashes at its end, nor single dots between them.
pub open spec fn trimmed(path: Seq<char>) -> Seq<char>
    decreases path.len(),
{
    let n = path.len();
    if n > 0 && (path.last() == '/' || n > 1 && path.last() == '.' && path[n - 2] == '/') {
        trimmed(path.drop_last())
    } else {
        path
    }
}

/// What stands behind the last slash.
pub open spec fn behind_last_slash(path: Seq<char>, from: int) -> Seq<char>
    decreases from,
{
    if from <= 0 {
        path
    } else if path[from - 1] == '/' {
        path.skip(from)
    } else {
        behind_last_slash(path, from - 1)
    }
}

/// The last component of a path, if it is a name; else nothing.
pub open spec fn file_name_of(path: Seq<char>) -> Seq<char> {
    let path = trimmed(path);
    let name = behind_last_slash(path, path.len() as int);
    if name == "."@ || name == ".."@ {
        Seq::empty()
    } else {
        name
    }
}

/// The last component of a path, if it is a name; else nothing.
pub fn file_name(path: &str) -> (name: &str)
    ensures
        name@ == file_name_of(path@),
{
    let len: usize = path.unicode_len();
    let mut end: usize = len;
    assert(path@.take(len as int) =~= path@);
    while end > 0 && (path.get_char(end - 1) == '/' || end > 1 && path.get_char(end - 1) == '.'
        && path.get_char(end - 2) == '/')
        invariant
            end <= len == path@.len(),
            trimmed(path@) == trimmed(path@.take(end as int)),
        decreases end,
    {
        assert(path@.take(end as int).drop_last() =~= path@.take(end - 1));
        end = end - 1;
    }
    let ghost whole = path@.take(end as int);
    assert(trimmed(path@) == whole);
    let mut from: usize = end;
    while from > 0 && path.get_char(from - 1) != '/'
        invariant
            from <= end <= len == path@.len(),
            whole == path@.take(end as int),
            behind_last_slash(whole, end as int) == behind_last_slash(whole, from as int),
        decreases from,
    {
        from = from - 1;
    }
    let name = path.substring_char(from, end);
    assert(name@ =~= whole.skip(from as int));
    assert(whole.skip(0) =~= whole);
    if same_text(name, ".") || same_text(name, "..") {
        proof {
            reveal_strlit("");
            assert(""@ =~= Seq::empty());
        }
        return "";
    }
    name
}

/// Texts of a folder's entries.
pub open spec fn names_of(entries: Seq<(String, Item)>) -> Seq<Seq<char>> {
    Seq::new(entries.len(), |i: int| entries[i].0@)
}

/// The order in which the entries of a folder are taken: that of their names.
pub open spec fn listing(entries: Seq<(String, Item)>) -> Seq<usize> {
    byte_order(encodings(names_of(entries)))
}

/// The order in which the entries of a folder are taken.
pub fn list_entries(entries: &Vec<(String, Item)>) -> (order: Vec<usize>)
    ensures
        order@ == listing(entries@),
        crate::order::is_permutation(order@, entries@.len()),
{
    let mut names: Vec<String> = Vec::new();
    let mut i: usize = 0;
    while i < entries.len()
        invariant
            i <= entries@.len(),
            names@.len() == i,
            forall|j: int| 0 <= j < i ==> (#[trigger] names@[j])@ == entries@[j].0@,
        decreases entries.len() - i,
    {
        names.push(entries[i].0.as_str().to_owned());
        i = i + 1;
    }
    assert(texts(names@) =~= names_of(entries@));
    text_order(&names)
}

impl Item {
    /// The item of a name in a folder.
    pub fn get_child(&self, name: &str) -> (found: Option<&Item>)
        ensures
            match found {
                Some(item) => child(*self, name@) == Some(*item),
                None => child(*self, name@) is None,
            },
    {
        match self {
            Item::Folder(entries) => {
                let mut i: usize = 0;
                while i < entries.len()
                    invariant
                        i <= entries@.len(),
                        child(*self, name@) == child_from(entries@, name@, i as int),
                    decreases entries.len() - i,
                {
                    if same_text(entries[i].0.as_str(), name) {
                        return Some(&entries[i].1);
                    }
                    i = i + 1;
                }
                None
            },
            Item::File(_) => None,
        }
    }

    /// The item that a path leads to.
    pub fn find(&self, path: &str) -> (found: Option<&Item>)
        ensures
            match found {
                Some(item) => item_at(*self, path@) == Some(*item),
                None => item_at(*self, path@) is None,
            },
    {
        if check_leads_away(path) {
            return self.get_child(path);
        }
        let len: usize = path.unicode_len();
        let mut item: &Item = self;
        let mut from: usize = 0;
        assert(path@.skip(0) =~= path@);
        while from < len
            invariant
                from <= len == path@.len(),
                !leads_away(path@),
                item_below(*self, path@) == item_below(*item, path@.skip(from as int)),
            decreases len - from,
        {
            let ghost left = path@.skip(from as int);
            let end = component_end(path, from);
            let name = path.substring_char(from, end);
            assert(name@ =~= left.take(end - from));
            let next: usize = if end < len {
                end + 1
            } else {
                end
            };
            assert(behind_slash(left) =~= path@.skip(next as int));
            if end > from && !same_text(name, ".") {
                match item.get_child(name) {
                    Some(found) => {
                        item = found;
                    },
                    None => {
                        return None;
                    },
                }
            } else if !item.is_folder() {
                return None;
            }
            if end < len && !item.is_folder() {
                return None;
            }
            from = next;
        }
        assert(path@.skip(from as int).len() == 0);
        Some(item)
    }

    /// Whether the item is a folder.
    pub fn is_folder(&self) -> (answer: bool)
        ensures
            answer == (*self is Folder),
    {
        match self {
            Item::Folder(_) => true,
            Item::File(_) => false,
        }
    }
}

} // verus!
