//! A project: several catalogs that are compiled together, and the files that come
//! of them.

use vstd::prelude::*;
use vstd::string::StrSliceExecFns;

use crate::catalog::{
    begun, catalog_icons, catalog_of, catalog_set_icons, icon_views, models, optional_text,
    optional_texts, set_icon_views, text_pairs, AssetCatalog, CatalogError, Gathered, IconModel,
    Settings,
};
use crate::facets::{with_new_facet, Facet, FacetTable};
use crate::files::Item;
use crate::naming::is_text_function;
use crate::order::{sorted_texts, texts};
use crate::platform::{ga8_since, jpeg_since, version_of, version_reaches};
use crate::plist::IconImage;
use crate::rendition::{Rendition, RenditionModel};
use crate::text::same_text;

verus! {

/// The languages among the arguments of a command line; `None` if there are none.
/// An empty argument names no language.
pub open spec fn languages_among(arguments: Seq<Seq<char>>) -> Option<Seq<Seq<char>>> {
    let named = arguments.filter(|a: Seq<char>| a.len() > 0);
    if named.len() == 0 {
        None
    } else {
        Some(named)
    }
}

/// Picks the languages from the arguments of a command line.
pub fn pick_languages(arguments: &Vec<String>) -> (languages: Option<Vec<String>>)
    ensures
        optional_texts(languages) == languages_among(texts(arguments@)),
{
    let ghost wanted = |a: Seq<char>| a.len() > 0;
    let ghost all = texts(arguments@);
    let mut named: Vec<String> = Vec::new();
    let mut i: usize = 0;
    proof {
        reveal_with_fuel(Seq::filter, 1);
        assert(texts(named@) =~= all.take(0).filter(wanted));
    }
    while i < arguments.len()
        invariant
            i <= arguments@.len(),
            all == texts(arguments@),
            wanted == (|a: Seq<char>| a.len() > 0),
            texts(named@) == all.take(i as int).filter(wanted),
        decreases arguments.len() - i,
    {
        let ghost before = named@;
        let argument = arguments[i].as_str();
        assert(all[i as int] == argument@);
        if argument.unicode_len() > 0 {
            named.push(argument.to_owned());
            assert(texts(named@) =~= texts(before).push(argument@));
        }
        proof {
            reveal_with_fuel(Seq::filter, 1);
            assert(all.take(i + 1).drop_last() =~= all.take(i as int));
            assert(all.take(i + 1).last() == argument@);
        }
        i = i + 1;
    }
    assert(all.take(i as int) =~= all);
    assert(texts(named@).len() == named@.len());
    if named.len() == 0 {
        None
    } else {
        Some(named)
    }
}

/// Whether a property list names the languages; it does unless the argument is
/// "no", in any mix of cases.
pub open spec fn names_languages(argument: Seq<char>) -> bool {
    !(argument.len() == 2 && (argument[0] == 'N' || argument[0] == 'n') && (argument[1] == 'O'
        || argument[1] == 'o'))
}

/// Whether a property list names the languages.
pub fn check_localizations(argument: &str) -> (answer: bool)
    ensures
        answer == names_languages(argument@),
{
    if argument.unicode_len() != 2 {
        return true;
    }
    let first = argument.get_char(0);
    let second = argument.get_char(1);
    !((first == 'N' || first == 'n') && (second == 'O' || second == 'o'))
}

/// What was found in several catalogs.
pub struct Project {
    pub renditions: Vec<Rendition>,
    pub facets: FacetTable,
    /// The JPEG images to be copied: the names of their sets, and where they are.
    pub loose_jpegs: Vec<(String, String)>,
    /// The languages that images were found for, each once.
    pub locales: Vec<String>,
    /// The image files of the icon: where they are, their widths in pixels, and
    /// their scales.
    pub icon_files: Vec<(String, u64, u32)>,
    /// The images of the icon set, with their idioms.
    pub icons: Vec<IconImage>,
}

/// What was found in several catalogs, with texts.
#[verifier::ext_equal]
pub struct ProjectModel {
    pub renditions: Seq<RenditionModel>,
    pub facets: Seq<(Seq<char>, Facet)>,
    pub loose_jpegs: Seq<(Seq<char>, Seq<char>)>,
    pub locales: Seq<Seq<char>>,
    pub icon_files: Seq<(Seq<char>, nat, u32)>,
    pub icons: Seq<IconModel>,
}

impl View for Project {
    type V = ProjectModel;

    open spec fn view(&self) -> ProjectModel {
        ProjectModel {
            renditions: models(self.renditions@),
            facets: self.facets@,
            loose_jpegs: text_pairs(self.loose_jpegs@),
            locales: texts(self.locales@),
            icon_files: icon_views(self.icon_files@),
            icons: set_icon_views(self.icons@),
        }
    }
}

/// A project without catalogs.
pub open spec fn no_project() -> ProjectModel {
    ProjectModel {
        renditions: Seq::empty(),
        facets: Seq::empty(),
        loose_jpegs: Seq::empty(),
        locales: Seq::empty(),
        icon_files: Seq::empty(),
        icons: Seq::empty(),
    }
}

/// Names with the first `n` of more names; a name that was there keeps its facet.
pub open spec fn with_new_facets(
    entries: Seq<(Seq<char>, Facet)>,
    more: Seq<(Seq<char>, Facet)>,
    n: nat,
) -> Seq<(Seq<char>, Facet)>
    decreases n,
{
    if n == 0 {
        entries
    } else {
        with_new_facet(
            with_new_facets(entries, more, (n - 1) as nat),
            more[n - 1].0,
            more[n - 1].1,
        )
    }
}

/// Texts with the first `n` of more texts, each once.
pub open spec fn with_new_texts(all: Seq<Seq<char>>, more: Seq<Seq<char>>, n: nat) -> Seq<
    Seq<char>,
>
    decreases n,
{
    if n == 0 {
        all
    } else {
        let before = with_new_texts(all, more, (n - 1) as nat);
        if before.contains(more[n - 1]) {
            before
        } else {
            before.push(more[n - 1])
        }
    }
}

/// A project with one more catalog.
pub open spec fn with_catalog(
    p: ProjectModel,
    found: Gathered,
    icon_files: Seq<(Seq<char>, nat, u32)>,
    icons: Seq<IconModel>,
) -> ProjectModel {
    ProjectModel {
        renditions: p.renditions + found.renditions,
        facets: with_new_facets(p.facets, found.facets, found.facets.len()),
        loose_jpegs: p.loose_jpegs + found.loose_jpegs,
        locales: with_new_texts(
            p.locales,
            sorted_texts(found.locales),
            sorted_texts(found.locales).len(),
        ),
        icon_files: p.icon_files + icon_files,
        icons: p.icons + icons,
    }
}

/// The first `n` catalogs of a project, or the first thing that is wrong with one.
pub open spec fn project_of<H: Fn(&str) -> u16, C: Fn(&str) -> u64>(
    s: Settings,
    hash: H,
    component: C,
    sources: Seq<(String, Option<Item>)>,
    n: nat,
) -> Result<ProjectModel, CatalogError>
    decreases n,
{
    if n == 0 {
        Ok(no_project())
    } else {
        match project_of(s, hash, component, sources, (n - 1) as nat) {
            Err(e) => Err(e),
            Ok(p) => {
                let path = sources[n - 1].0@;
                let root = sources[n - 1].1;
                let out = catalog_of(
                    s,
                    hash,
                    component,
                    begun(Seq::empty(), Seq::empty()),
                    root,
                    path,
                );
                match out.error {
                    Some(e) => Err(e),
                    None => match (
                        catalog_set_icons(s, root, path),
                        catalog_icons(s, root, path),
                    ) {
                        (Ok(icons), Ok(files)) => Ok(with_catalog(p, out.state, files, icons)),
                        (Err(e), _) => Err(e),
                        (_, Err(e)) => Err(e),
                    },
                }
            },
        }
    }
}

/// Nothing is read behind an error.
proof fn lemma_project_stop<H: Fn(&str) -> u16, C: Fn(&str) -> u64>(
    s: Settings,
    hash: H,
    component: C,
    sources: Seq<(String, Option<Item>)>,
    m: nat,
    n: nat,
)
    requires
        m <= n,
        project_of(s, hash, component, sources, m) is Err,
    ensures
        project_of(s, hash, component, sources, n) == project_of(s, hash, component, sources, m),
    decreases n,
{
    if m < n {
        lemma_project_stop(s, hash, component, sources, m, (n - 1) as nat);
    }
}

/// What a project is compiled for.
pub struct Options {
    pub platform: String,
    pub min_deploy: String,
    pub app_icon: Option<String>,
    pub include_languages: Option<Vec<String>>,
    pub development_region: Option<String>,
    pub draws_svg: bool,
}

impl View for Options {
    type V = Settings;

    open spec fn view(&self) -> Settings {
        Settings {
            platform: self.platform@,
            min_deploy: self.min_deploy@,
            app_icon: optional_text(self.app_icon),
            languages: optional_texts(self.include_languages),
            region: optional_text(self.development_region),
            force_bgra: !version_reaches(version_of(self.min_deploy@), ga8_since(self.platform@)),
            jpeg_in_car: version_reaches(version_of(self.min_deploy@), jpeg_since(self.platform@)),
            draws_svg: self.draws_svg,
        }
    }
}

fn copy_text(text: &Option<String>) -> (copy: Option<String>)
    ensures
        optional_text(copy) == optional_text(*text),
{
    match text {
        Some(t) => Some(t.as_str().to_owned()),
        None => None,
    }
}

fn copy_texts(list: &Option<Vec<String>>) -> (copy: Option<Vec<String>>)
    ensures
        optional_texts(copy) == optional_texts(*list),
{
    match list {
        Some(names) => {
            let mut out: Vec<String> = Vec::new();
            let mut i: usize = 0;
            while i < names.len()
                invariant
                    i <= names@.len(),
                    out@.len() == i,
                    forall|j: int| 0 <= j < i ==> (#[trigger] out@[j])@ == names@[j]@,
                decreases names.len() - i,
            {
                out.push(names[i].as_str().to_owned());
                i = i + 1;
            }
            assert(texts(out@) =~= texts(names@));
            Some(out)
        },
        None => None,
    }
}

impl Options {
    /// A catalog of a project.
    pub(crate) fn catalog(&self, path: &str) -> (catalog: AssetCatalog)
        ensures
            catalog.settings() == self@,
            catalog.locales().len() == 0,
            catalog.copies().len() == 0,
            catalog.place() == path@,
    {
        AssetCatalog::new(
            path.to_owned(),
            self.platform.as_str().to_owned(),
            self.min_deploy.as_str().to_owned(),
            copy_text(&self.app_icon),
            copy_texts(&self.include_languages),
            copy_text(&self.development_region),
            self.draws_svg,
        )
    }
}

/// Whether a text is in a list.
fn has_text(list: &Vec<String>, text: &str) -> (answer: bool)
    ensures
        answer == texts(list@).contains(text@),
{
    let mut i: usize = 0;
    while i < list.len()
        invariant
            i <= list@.len(),
            forall|j: int| 0 <= j < i ==> (#[trigger] list@[j])@ != text@,
        decreases list.len() - i,
    {
        if same_text(list[i].as_str(), text) {
            assert(texts(list@)[i as int] == text@);
            return true;
        }
        i = i + 1;
    }
    proof {
        assert forall|j: int| 0 <= j < texts(list@).len() implies #[trigger] texts(list@)[j]
            != text@ by {
            assert(list@[j]@ != text@);
        }
    }
    false
}

impl Project {
    fn empty() -> (p: Project)
        ensures
            p@ == no_project(),
            p.facets.wf(),
    {
        let p = Project {
            renditions: Vec::new(),
            facets: FacetTable::new(),
            loose_jpegs: Vec::new(),
            locales: Vec::new(),
            icon_files: Vec::new(),
            icons: Vec::new(),
        };
        assert(p@ =~= no_project());
        p
    }

    fn add_facets(&mut self, facets: &FacetTable)
        requires
            old(self).facets.wf(),
            facets.wf(),
        ensures
            final(self).facets.wf(),
            final(self)@ == (ProjectModel {
                facets: with_new_facets(old(self)@.facets, facets@, facets@.len()),
                ..old(self)@
            }),
    {
        let ghost start = self@.facets;
        let n: usize = facets.len();
        let mut i: usize = 0;
        while i < n
            invariant
                i <= n == facets@.len(),
                facets.wf(),
                self.facets.wf(),
                start == old(self)@.facets,
                self@ == (ProjectModel {
                    facets: with_new_facets(start, facets@, i as nat),
                    ..old(self)@
                }),
            decreases n - i,
        {
            self.facets.insert_new(facets.name(i), facets.facet(i));
            i = i + 1;
        }
    }

    fn add_locales(&mut self, locales: &Vec<String>)
        requires
            old(self).facets.wf(),
        ensures
            final(self).facets.wf(),
            final(self)@ == (ProjectModel {
                locales: with_new_texts(old(self)@.locales, texts(locales@), locales@.len()),
                ..old(self)@
            }),
    {
        let ghost start = self@.locales;
        let mut i: usize = 0;
        while i < locales.len()
            invariant
                i <= locales@.len(),
                self.facets.wf(),
                start == old(self)@.locales,
                self@ == (ProjectModel {
                    locales: with_new_texts(start, texts(locales@), i as nat),
                    ..old(self)@
                }),
            decreases locales.len() - i,
        {
            let locale = locales[i].as_str();
            assert(texts(locales@)[i as int] == locale@);
            if !has_text(&self.locales, locale) {
                let ghost before = self.locales@;
                self.locales.push(locale.to_owned());
                assert(texts(self.locales@) =~= texts(before).push(locale@));
            }
            i = i + 1;
        }
    }

    fn add_copies(&mut self, copies: &Vec<(String, String)>)
        requires
            old(self).facets.wf(),
        ensures
            final(self).facets.wf(),
            final(self)@ == (ProjectModel {
                loose_jpegs: old(self)@.loose_jpegs + text_pairs(copies@),
                ..old(self)@
            }),
    {
        let ghost start = self@.loose_jpegs;
        let ghost all = text_pairs(copies@);
        let mut i: usize = 0;
        assert(start + all.take(0) =~= start);
        while i < copies.len()
            invariant
                i <= copies@.len(),
                self.facets.wf(),
                all == text_pairs(copies@),
                start == old(self)@.loose_jpegs,
                self@ == (ProjectModel {
                    loose_jpegs: start + all.take(i as int),
                    ..old(self)@
                }),
            decreases copies.len() - i,
        {
            let ghost before = self.loose_jpegs@;
            let name = copies[i].0.as_str().to_owned();
            let path = copies[i].1.as_str().to_owned();
            self.loose_jpegs.push((name, path));
            i = i + 1;
            assert(text_pairs(self.loose_jpegs@) =~= text_pairs(before).push((name@, path@)));
            assert(text_pairs(self.loose_jpegs@) =~= start + all.take(i as int));
        }
        assert(all.take(i as int) =~= all);
    }

    /// Adds a catalog that was read.
    fn add_catalog(
        &mut self,
        renditions: Vec<Rendition>,
        facets: &FacetTable,
        copies: &Vec<(String, String)>,
        locales: &Vec<String>,
        icon_files: Vec<(String, u64, u32)>,
        icons: Vec<IconImage>,
        Ghost(found): Ghost<Gathered>,
    )
        requires
            old(self).facets.wf(),
            facets.wf(),
            found.renditions == models(renditions@),
            found.facets == facets@,
            found.loose_jpegs == text_pairs(copies@),
            sorted_texts(found.locales) == texts(locales@),
        ensures
            final(self).facets.wf(),
            final(self)@ == with_catalog(
                old(self)@,
                found,
                icon_views(icon_files@),
                set_icon_views(icons@),
            ),
    {
        self.add_facets(facets);
        self.add_copies(copies);
        self.add_locales(locales);
        let mut renditions = renditions;
        let mut icon_files = icon_files;
        let mut icons = icons;
        let ghost first = self.renditions@;
        let ghost second = renditions@;
        self.renditions.append(&mut renditions);
        assert(models(self.renditions@) =~= models(first) + models(second));
        let ghost first = self.icon_files@;
        let ghost second = icon_files@;
        self.icon_files.append(&mut icon_files);
        assert(icon_views(self.icon_files@) =~= icon_views(first) + icon_views(second));
        let ghost first = self.icons@;
        let ghost second = icons@;
        self.icons.append(&mut icons);
        assert(set_icon_views(self.icons@) =~= set_icon_views(first) + set_icon_views(second));
    }
}

/// Reads the catalogs of a project.
pub fn read_project<H: Fn(&str) -> u16, C: Fn(&str) -> u64>(
    sources: &Vec<(String, Option<Item>)>,
    options: &Options,
    hash: &H,
    component: &C,
) -> (project: Result<Project, CatalogError>)
    requires
        is_text_function(*hash),
        is_text_function(*component),
    ensures
        match project {
            Ok(p) => p.facets.wf() && project_of(
                options@,
                *hash,
                *component,
                sources@,
                sources@.len(),
            ) == Ok::<ProjectModel, CatalogError>(p@),
            Err(e) => project_of(options@, *hash, *component, sources@, sources@.len()) == Err::<
                ProjectModel,
                CatalogError,
            >(e),
        },
{
    let ghost s = options@;
    let mut project = Project::empty();
    let mut i: usize = 0;
    while i < sources.len()
        invariant
            i <= sources@.len(),
            is_text_function(*hash),
            is_text_function(*component),
            s == options@,
            project.facets.wf(),
            project_of(s, *hash, *component, sources@, i as nat) == Ok::<
                ProjectModel,
                CatalogError,
            >(project@),
        decreases sources.len() - i,
    {
        match read_source(&mut project, &sources[i], options, hash, component) {
            Ok(()) => {},
            Err(e) => {
                proof {
                    lemma_project_stop(
                        s,
                        *hash,
                        *component,
                        sources@,
                        (i + 1) as nat,
                        sources@.len(),
                    );
                }
                return Err(e);
            },
        }
        i = i + 1;
    }
    Ok(project)
}

/// Reads one more catalog of a project.
fn read_source<H: Fn(&str) -> u16, C: Fn(&str) -> u64>(
    project: &mut Project,
    source: &(String, Option<Item>),
    options: &Options,
    hash: &H,
    component: &C,
) -> (result: Result<(), CatalogError>)
    requires
        is_text_function(*hash),
        is_text_function(*component),
        old(project).facets.wf(),
    ensures
        ({
            let s = options@;
            let out = catalog_of(
                s,
                *hash,
                *component,
                begun(Seq::empty(), Seq::empty()),
                source.1,
                source.0@,
            );
            let icons = catalog_set_icons(s, source.1, source.0@);
            let files = catalog_icons(s, source.1, source.0@);
            match result {
                Ok(()) => final(project).facets.wf() && out.error is None && icons is Ok && files
                    is Ok && final(project)@ == with_catalog(
                    old(project)@,
                    out.state,
                    files->Ok_0,
                    icons->Ok_0,
                ),
                Err(e) => match out.error {
                    Some(error) => error == e,
                    None => icons == Err::<Seq<IconModel>, CatalogError>(e) || (icons is Ok && files
                        == Err::<Seq<(Seq<char>, nat, u32)>, CatalogError>(e)),
                },
            }
        }),
{
    let mut catalog = options.catalog(source.0.as_str());
    let root = match &source.1 {
        Some(item) => Some(item),
        None => None,
    };
    assert(begun(catalog.locales(), catalog.copies()) =~= begun(Seq::empty(), Seq::empty()));
    let (renditions, facets) = match catalog.parse(root, hash, component) {
        Err(e) => {
            return Err(e);
        },
        Ok(found) => found,
    };
    let icons = match catalog.get_appicon_images(root) {
        Err(e) => {
            return Err(e);
        },
        Ok(icons) => icons,
    };
    let files = match catalog.get_icon_images(root) {
        Err(e) => {
            return Err(e);
        },
        Ok(files) => files,
    };
    let locales = catalog.get_locales_used();
    let ghost found = catalog_of(
        options@,
        *hash,
        *component,
        begun(Seq::empty(), Seq::empty()),
        source.1,
        source.0@,
    ).state;
    project.add_catalog(
        renditions,
        &facets,
        catalog.get_copies(),
        &locales,
        files,
        icons,
        Ghost(found),
    );
    Ok(())
}

/// Names that were there keep their places and their facets.
proof fn lemma_new_facets_keep(
    entries: Seq<(Seq<char>, Facet)>,
    more: Seq<(Seq<char>, Facet)>,
    n: nat,
)
    ensures
        with_new_facets(entries, more, n).len() >= entries.len(),
        with_new_facets(entries, more, n).take(entries.len() as int) == entries,
    decreases n,
{
    if n > 0 {
        lemma_new_facets_keep(entries, more, (n - 1) as nat);
    }
    assert(with_new_facets(entries, more, n).take(entries.len() as int) =~= entries);
}

/// Texts that were there keep their places.
proof fn lemma_new_texts_keep(all: Seq<Seq<char>>, more: Seq<Seq<char>>, n: nat)
    ensures
        with_new_texts(all, more, n).len() >= all.len(),
        with_new_texts(all, more, n).take(all.len() as int) == all,
    decreases n,
{
    if n > 0 {
        lemma_new_texts_keep(all, more, (n - 1) as nat);
    }
    assert(with_new_texts(all, more, n).take(all.len() as int) =~= all);
}

/// Whether a project has everything of another, in front of its own.
pub open spec fn keeps(p: ProjectModel, q: ProjectModel) -> bool {
    &&& q.renditions.len() <= p.renditions.len()
    &&& p.renditions.take(q.renditions.len() as int) == q.renditions
    &&& q.facets.len() <= p.facets.len()
    &&& p.facets.take(q.facets.len() as int) == q.facets
    &&& q.loose_jpegs.len() <= p.loose_jpegs.len()
    &&& p.loose_jpegs.take(q.loose_jpegs.len() as int) == q.loose_jpegs
    &&& q.locales.len() <= p.locales.len()
    &&& p.locales.take(q.locales.len() as int) == q.locales
    &&& q.icons.len() <= p.icons.len()
    &&& p.icons.take(q.icons.len() as int) == q.icons
}

proof fn lemma_catalog_keeps(
    p: ProjectModel,
    q: ProjectModel,
    found: Gathered,
    icon_files: Seq<(Seq<char>, nat, u32)>,
    icons: Seq<IconModel>,
)
    requires
        keeps(p, q),
    ensures
        keeps(with_catalog(p, found, icon_files, icons), q),
{
    let after = with_catalog(p, found, icon_files, icons);
    lemma_new_facets_keep(p.facets, found.facets, found.facets.len());
    let more = sorted_texts(found.locales);
    lemma_new_texts_keep(p.locales, more, more.len());
    assert(after.renditions.take(q.renditions.len() as int) =~= q.renditions);
    assert(after.facets.take(q.facets.len() as int) =~= p.facets.take(q.facets.len() as int)) by {
        assert forall|i: int| 0 <= i < q.facets.len() implies after.facets[i] == p.facets[i] by {
            assert(after.facets.take(p.facets.len() as int)[i] == p.facets[i]);
        }
    }
    assert(after.loose_jpegs.take(q.loose_jpegs.len() as int) =~= q.loose_jpegs);
    assert(after.locales.take(q.locales.len() as int) =~= p.locales.take(
        q.locales.len() as int,
    )) by {
        assert forall|i: int| 0 <= i < q.locales.len() implies after.locales[i]
            == p.locales[i] by {
            assert(after.locales.take(p.locales.len() as int)[i] == p.locales[i]);
        }
    }
    assert(after.icons.take(q.icons.len() as int) =~= q.icons);
}

/// A later catalog never changes what an earlier one brought: renditions keep their
/// places, and a name stands for what it first stood for.
pub proof fn earlier_catalogs_win<H: Fn(&str) -> u16, C: Fn(&str) -> u64>(
    s: Settings,
    hash: H,
    component: C,
    sources: Seq<(String, Option<Item>)>,
    m: nat,
    n: nat,
)
    requires
        m <= n,
        project_of(s, hash, component, sources, n) is Ok,
    ensures
        project_of(s, hash, component, sources, m) is Ok,
        keeps(
            project_of(s, hash, component, sources, n)->Ok_0,
            project_of(s, hash, component, sources, m)->Ok_0,
        ),
    decreases n,
{
    let p = project_of(s, hash, component, sources, n)->Ok_0;
    if m == n {
        assert(p.renditions.take(p.renditions.len() as int) =~= p.renditions);
        assert(p.facets.take(p.facets.len() as int) =~= p.facets);
        assert(p.loose_jpegs.take(p.loose_jpegs.len() as int) =~= p.loose_jpegs);
        assert(p.locales.take(p.locales.len() as int) =~= p.locales);
        assert(p.icons.take(p.icons.len() as int) =~= p.icons);
    } else {
        earlier_catalogs_win(s, hash, component, sources, m, (n - 1) as nat);
        let before = project_of(s, hash, component, sources, (n - 1) as nat)->Ok_0;
        let q = project_of(s, hash, component, sources, m)->Ok_0;
        let path = sources[n - 1].0@;
        let root = sources[n - 1].1;
        let out = catalog_of(
            s,
            hash,
            component,
            begun(Seq::empty(), Seq::empty()),
            root,
            path,
        );
        lemma_catalog_keeps(
            before,
            q,
            out.state,
            catalog_icons(s, root, path)->Ok_0,
            catalog_set_icons(s, root, path)->Ok_0,
        );
    }
}

} // verus!
