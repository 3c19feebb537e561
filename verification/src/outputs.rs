//! The files that come of a project, in the order in which they are written.

use vstd::prelude::*;

use crate::catalog::{find_suffix, suffix_of, text_pairs};
use crate::files::{file_name, file_name_of};
use crate::icon_bundle::IconPlan;
use crate::order::{sort_texts, sorted_texts, texts};
use crate::platform::{idiom_platform, is_idiom_platform, is_tv_platform, tv_platform};
use crate::plist::{
    icon_plist, info_plist, ios_icon_plist, ios_loose_icons, loose_icons, loose_views,
    make_icon_plist, make_info_plist, make_ios_icon_plist, make_tvos_icon_plist, text_view,
    tvos_icon_plist, IconImage, LooseIcon, LooseModel,
};
use crate::project::Project;
use crate::text::put_str;

verus! {

/// A file to be written.
pub enum Output {
    /// A copy of a file.
    Copy { from: String, to: String },
    /// A home screen icon, copied or brought to its size.
    Icon(LooseIcon),
    /// An icon file of all the icon images of a project, under a name.
    IconFile(String),
    /// The archive.
    Archive,
    /// A copy of a folder.
    Folder { from: String, to: String },
    /// A property list.
    Plist(String),
}

/// A file to be written, with texts.
pub enum OutputModel {
    Copy { from: Seq<char>, to: Seq<char> },
    Icon(LooseModel),
    IconFile(Seq<char>),
    Archive,
    Folder { from: Seq<char>, to: Seq<char> },
    Plist(Seq<char>),
}

impl View for Output {
    type V = OutputModel;

    open spec fn view(&self) -> OutputModel {
        match self {
            Output::Copy { from, to } => OutputModel::Copy { from: from@, to: to@ },
            Output::Icon(icon) => OutputModel::Icon(icon@),
            Output::IconFile(name) => OutputModel::IconFile(name@),
            Output::Archive => OutputModel::Archive,
            Output::Folder { from, to } => OutputModel::Folder { from: from@, to: to@ },
            Output::Plist(text) => OutputModel::Plist(text@),
        }
    }
}

/// Files to be written, with texts.
pub open spec fn output_views(outputs: Seq<Output>) -> Seq<OutputModel> {
    Seq::new(outputs.len(), |i: int| outputs[i]@)
}

/// What is asked for beside the archive.
pub struct Wishes {
    pub app_icon: Option<String>,
    pub accent_color: Option<String>,
    pub widget_background_color: Option<String>,
    /// Whether there is to be an icon file.
    pub standalone_icon: bool,
    /// Whether there is to be a property list.
    pub info_plist: bool,
    /// Whether the property list names the languages.
    pub localizations: bool,
}

/// A JPEG image that is copied: under the name of its set, with its own extension.
pub open spec fn jpeg_copy(pair: (Seq<char>, Seq<char>)) -> OutputModel {
    let extension = match suffix_of(pair.1) {
        Some(e) => e,
        None => "jpg"@,
    };
    OutputModel::Copy { from: pair.1, to: pair.0 + "."@ + extension }
}

/// The JPEG images that are copied.
pub open spec fn jpeg_copies(pairs: Seq<(Seq<char>, Seq<char>)>) -> Seq<OutputModel> {
    Seq::new(pairs.len(), |i: int| jpeg_copy(pairs[i]))
}

/// The files of an icon: its home screen icons on platforms with device families,
/// elsewhere one file, if it is wanted and there are images.
pub open spec fn icon_outputs(
    platform: Seq<char>,
    icon: Option<Seq<char>>,
    standalone: bool,
    icons: Seq<IconImage>,
    images: nat,
) -> Seq<OutputModel> {
    match icon {
        None => Seq::empty(),
        Some(name) => if idiom_platform(platform) {
            let loose = loose_icons(icons, name);
            Seq::new(loose.len(), |i: int| OutputModel::Icon(loose[i]))
        } else if standalone && images > 0 {
            seq![OutputModel::IconFile(name + ".icns"@)]
        } else {
            Seq::empty()
        },
    }
}

/// The folders of brand assets, which are copied on Apple TV.
pub open spec fn brand_outputs(platform: Seq<char>, folders: Seq<Seq<char>>) -> Seq<OutputModel> {
    if tv_platform(platform) {
        Seq::new(
            folders.len(),
            |i: int| OutputModel::Folder { from: folders[i], to: file_name_of(folders[i]) },
        )
    } else {
        Seq::empty()
    }
}

/// The property list of a project.
pub open spec fn project_plist(
    platform: Seq<char>,
    icon: Option<Seq<char>>,
    accent_color: Option<Seq<char>>,
    widget_background_color: Option<Seq<char>>,
    localizations: Seq<Seq<char>>,
    icons: Seq<IconImage>,
) -> Seq<char> {
    if icon is Some && tv_platform(platform) {
        tvos_icon_plist(icon->0)
    } else if icon is Some && idiom_platform(platform) {
        ios_icon_plist(icons, icon->0)
    } else {
        info_plist(icon, accent_color, widget_background_color, localizations)
    }
}

/// The languages that a property list names.
pub open spec fn plist_languages(locales: Seq<Seq<char>>, wanted: bool) -> Seq<Seq<char>> {
    if wanted {
        sorted_texts(locales)
    } else {
        Seq::empty()
    }
}

/// The text of an optional string.
pub open spec fn wish(text: Option<String>) -> Option<Seq<char>> {
    match text {
        Some(t) => Some(t@),
        None => None,
    }
}

/// The files that come of a project.
pub open spec fn outputs_of(
    project: Project,
    archive: bool,
    folders: Seq<Seq<char>>,
    platform: Seq<char>,
    wishes: Wishes,
) -> Seq<OutputModel> {
    jpeg_copies(text_pairs(project.loose_jpegs@)) + icon_outputs(
        platform,
        wish(wishes.app_icon),
        wishes.standalone_icon,
        project.icons@,
        project.icon_files@.len(),
    ) + (if archive {
        seq![OutputModel::Archive]
    } else {
        Seq::empty()
    }) + brand_outputs(platform, folders) + (if wishes.info_plist {
        seq![
            OutputModel::Plist(
                project_plist(
                    platform,
                    wish(wishes.app_icon),
                    wish(wishes.accent_color),
                    wish(wishes.widget_background_color),
                    plist_languages(texts(project.locales@), wishes.localizations),
                    project.icons@,
                ),
            ),
        ]
    } else {
        Seq::empty()
    })
}

fn list_copies(pairs: &Vec<(String, String)>) -> (outputs: Vec<Output>)
    ensures
        output_views(outputs@) == jpeg_copies(text_pairs(pairs@)),
{
    let mut outputs: Vec<Output> = Vec::new();
    let mut i: usize = 0;
    while i < pairs.len()
        invariant
            i <= pairs@.len(),
            outputs@.len() == i,
            forall|j: int|
                0 <= j < i ==> (#[trigger] outputs@[j])@ == jpeg_copy((pairs@[j].0@, pairs@[j].1@)),
        decreases pairs.len() - i,
    {
        let from = pairs[i].1.as_str();
        let mut to = pairs[i].0.as_str().to_owned();
        put_str(&mut to, ".");
        match find_suffix(from) {
            Some(extension) => put_str(&mut to, extension),
            None => put_str(&mut to, "jpg"),
        }
        outputs.push(Output::Copy { from: from.to_owned(), to });
        i = i + 1;
    }
    assert(output_views(outputs@) =~= jpeg_copies(text_pairs(pairs@)));
    outputs
}

fn list_icons(platform: &str, icon: &Option<String>, standalone: bool, project: &Project) -> (
outputs: Vec<Output>)
    ensures
        output_views(outputs@) == icon_outputs(
            platform@,
            wish(*icon),
            standalone,
            project.icons@,
            project.icon_files@.len(),
        ),
{
    let mut outputs: Vec<Output> = Vec::new();
    match icon {
        None => {},
        Some(name) => {
            if is_idiom_platform(platform) {
                let loose = ios_loose_icons(project.icons.as_slice(), name.as_str());
                let ghost all = loose_views(loose@);
                let ghost given = loose@;
                for one in it: loose
                    invariant
                        it.seq() == given,
                        all == loose_views(given),
                        outputs@.len() == it.index(),
                        forall|j: int|
                            0 <= j < outputs@.len() ==> (#[trigger] outputs@[j])@
                                == OutputModel::Icon(all[j]),
                {
                    assert(all[it.index() as int] == one@);
                    outputs.push(Output::Icon(one));
                }
            } else if standalone && project.icon_files.len() > 0 {
                let mut to = name.as_str().to_owned();
                put_str(&mut to, ".icns");
                outputs.push(Output::IconFile(to));
            }
        },
    }
    assert(output_views(outputs@) =~= icon_outputs(
        platform@,
        wish(*icon),
        standalone,
        project.icons@,
        project.icon_files@.len(),
    ));
    outputs
}

fn list_folders(platform: &str, folders: &Vec<String>) -> (outputs: Vec<Output>)
    ensures
        output_views(outputs@) == brand_outputs(platform@, texts(folders@)),
{
    let mut outputs: Vec<Output> = Vec::new();
    if is_tv_platform(platform) {
        let mut i: usize = 0;
        while i < folders.len()
            invariant
                i <= folders@.len(),
                outputs@.len() == i,
                forall|j: int|
                    0 <= j < i ==> (#[trigger] outputs@[j])@ == (OutputModel::Folder {
                        from: folders@[j]@,
                        to: file_name_of(folders@[j]@),
                    }),
            decreases folders.len() - i,
        {
            let from = folders[i].as_str();
            outputs.push(Output::Folder { from: from.to_owned(), to: file_name(from).to_owned() });
            i = i + 1;
        }
    }
    assert(output_views(outputs@) =~= brand_outputs(platform@, texts(folders@)));
    outputs
}

fn borrow_text(text: &Option<String>) -> (out: Option<&str>)
    ensures
        text_view(out) == wish(*text),
{
    match text {
        Some(t) => Some(t.as_str()),
        None => None,
    }
}

/// The property list of a project.
pub fn make_project_plist(platform: &str, project: &Project, wishes: &Wishes) -> (text: String)
    ensures
        text@ == project_plist(
            platform@,
            wish(wishes.app_icon),
            wish(wishes.accent_color),
            wish(wishes.widget_background_color),
            plist_languages(texts(project.locales@), wishes.localizations),
            project.icons@,
        ),
{
    match &wishes.app_icon {
        Some(name) => {
            if is_tv_platform(platform) {
                return make_tvos_icon_plist(name.as_str());
            }
            if is_idiom_platform(platform) {
                return make_ios_icon_plist(name.as_str(), project.icons.as_slice());
            }
        },
        None => {},
    }
    let mut names: Vec<String> = Vec::new();
    if wishes.localizations {
        let mut i: usize = 0;
        while i < project.locales.len()
            invariant
                i <= project.locales@.len(),
                names@.len() == i,
                forall|j: int| 0 <= j < i ==> (#[trigger] names@[j])@ == project.locales@[j]@,
            decreases project.locales.len() - i,
        {
            names.push(project.locales[i].as_str().to_owned());
            i = i + 1;
        }
        assert(texts(names@) =~= texts(project.locales@));
        names = sort_texts(names);
    } else {
        assert(texts(names@) =~= Seq::empty());
    }
    make_info_plist(
        borrow_text(&wishes.app_icon),
        borrow_text(&wishes.accent_color),
        borrow_text(&wishes.widget_background_color),
        names.as_slice(),
    )
}

/// Lists the files that come of a project.  `archive` tells whether there is an
/// archive, and `folders` are the folders of brand assets.
pub fn list_outputs(
    project: &Project,
    archive: bool,
    folders: &Vec<String>,
    platform: &str,
    wishes: &Wishes,
) -> (outputs: Vec<Output>)
    ensures
        output_views(outputs@) == outputs_of(
            *project,
            archive,
            texts(folders@),
            platform@,
            *wishes,
        ),
{
    let mut outputs = list_copies(&project.loose_jpegs);
    let mut icons = list_icons(platform, &wishes.app_icon, wishes.standalone_icon, project);
    let ghost first = output_views(outputs@);
    let ghost second = output_views(icons@);
    outputs.append(&mut icons);
    assert(output_views(outputs@) =~= first + second);
    let ghost first = output_views(outputs@);
    if archive {
        outputs.push(Output::Archive);
        assert(output_views(outputs@) =~= first + seq![OutputModel::Archive]);
    } else {
        assert(first + Seq::<OutputModel>::empty() =~= first);
    }
    let ghost first = output_views(outputs@);
    let mut copies = list_folders(platform, folders);
    let ghost second = output_views(copies@);
    outputs.append(&mut copies);
    assert(output_views(outputs@) =~= first + second);
    let ghost first = output_views(outputs@);
    if wishes.info_plist {
        let text = make_project_plist(platform, project, wishes);
        outputs.push(Output::Plist(text));
        assert(output_views(outputs@) =~= first + seq![OutputModel::Plist(text@)]);
    } else {
        assert(first + Seq::<OutputModel>::empty() =~= first);
    }
    outputs
}

/// The files that come of an icon bundle: the archive; an icon file, if the app has that
/// icon; and a property list, if it is wanted, which names the icon on the same
/// condition.
pub open spec fn icon_bundle_outputs(
    icon_name: Seq<char>,
    names_match: bool,
    info_plist: bool,
) -> Seq<OutputModel> {
    let file = if names_match {
        seq![OutputModel::IconFile(icon_name + ".icns"@)]
    } else {
        Seq::empty()
    };
    let plist = if info_plist {
        seq![
            OutputModel::Plist(
                icon_plist(
                    if names_match {
                        Some(icon_name)
                    } else {
                        None
                    },
                ),
            ),
        ]
    } else {
        Seq::empty()
    };
    seq![OutputModel::Archive] + file + plist
}

/// Lists the files that come of an icon bundle.
pub fn list_icon_outputs(plan: &IconPlan, info_plist: bool) -> (outputs: Vec<Output>)
    ensures
        output_views(outputs@) == icon_bundle_outputs(
            plan.icon_name@,
            plan.names_match,
            info_plist,
        ),
{
    let mut outputs: Vec<Output> = Vec::new();
    outputs.push(Output::Archive);
    if plan.names_match {
        let mut name = plan.icon_name.as_str().to_owned();
        put_str(&mut name, ".icns");
        outputs.push(Output::IconFile(name));
    }
    if info_plist {
        let name = if plan.names_match {
            Some(plan.icon_name.as_str())
        } else {
            None
        };
        outputs.push(Output::Plist(make_icon_plist(name)));
    }
    assert(output_views(outputs@) =~= icon_bundle_outputs(
        plan.icon_name@,
        plan.names_match,
        info_plist,
    ));
    outputs
}

/// The size that the `png` crate reads from a PNG file, `None` if it cannot.
pub uninterp spec fn png_size(data: Seq<u8>) -> Option<(u32, u32)>;

/// Reads the size of a PNG image with `png::Decoder::read_header_info`, which depends
/// on the data alone.  What it is for given data is left unsaid: that is the
/// business of the file format.
#[verifier::external_body]
pub(crate) fn measure_png(data: &[u8]) -> (size: Option<(u32, u32)>)
    ensures
        size == png_size(data@),
{
    let mut decoder = png::Decoder::new(data);
    let info = decoder.read_header_info().ok()?;
    Some((info.width, info.height))
}

/// Whether an icon of a size has to be brought to another; one whose size is not
/// known is copied as it is.
pub open spec fn has_other_size(size: Option<(u32, u32)>, point_w: u32, scale: u32) -> bool {
    match size {
        Some((width, height)) => width != point_w * scale || height != point_w * scale,
        None => false,
    }
}

/// Whether an icon has to be brought to its size.
pub fn check_icon_size(size: Option<(u32, u32)>, point_w: u32, scale: u32) -> (answer: bool)
    ensures
        answer == has_other_size(size, point_w, scale),
{
    match size {
        Some((width, height)) => {
            assert(0 <= point_w * scale <= 0xffff_ffff * 0xffff_ffff) by (nonlinear_arith)
                requires
                    0 <= point_w <= 0xffff_ffff,
                    0 <= scale <= 0xffff_ffff,
            ;
            let side: u64 = point_w as u64 * scale as u64;
            width as u64 != side || height as u64 != side
        },
        None => false,
    }
}

/// Whether a home screen icon has to be brought to its size.
pub fn icon_needs_scaling(icon: &LooseIcon, data: &[u8]) -> (answer: bool)
    ensures
        answer == has_other_size(png_size(data@), icon.point_w, icon.scale),
{
    check_icon_size(measure_png(data), icon.point_w, icon.scale)
}

} // verus!
