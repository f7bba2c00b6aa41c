//! The desired and the existing state of the managed files.

use crate::config::{
    file_views, Cache, CacheView, Configuration, FileTarget, FileTargetView, SymbolicTarget,
    SymbolicTargetView, TemplateTarget, TemplateTargetView,
};
use crate::order::lemma_path_before_irreflexive;
use crate::path_map::{ascending, entries_map, holds_key, index_of_key, PathMap};
use crate::paths::{join, joined_path};
use crate::sequences::{lemma_filter_map_empty, lemma_filter_map_take};
use vstd::prelude::*;

verus! {

/// A symbolic link from a managed source file to a place in the filesystem.
#[derive(Debug, PartialEq, Eq)]
pub struct SymlinkDescription {
    pub source: String,
    pub target: SymbolicTarget,
}

/// A `SymlinkDescription` as a plain value, its texts as sequences of characters.
pub struct SymlinkDescriptionView {
    pub source: Seq<char>,
    pub target: SymbolicTargetView,
}

impl View for SymlinkDescription {
    type V = SymlinkDescriptionView;

    open spec fn view(&self) -> SymlinkDescriptionView {
        SymlinkDescriptionView { source: self.source@, target: self.target@ }
    }
}

impl Clone for SymlinkDescription {
    fn clone(&self) -> (r: Self)
        ensures
            r == *self,
    {
        SymlinkDescription { source: self.source.clone(), target: self.target.clone() }
    }
}

impl SymlinkDescriptionView {
    /// Two descriptions are the same entry of a set when they link the same source
    /// to the same target path.
    pub open spec fn same_entry(self, other: SymlinkDescriptionView) -> bool {
        self.source == other.source && self.target.target == other.target.target
    }
}

impl SymlinkDescription {
    /// Whether both link the same source to the same target path.
    pub fn same_entry(&self, other: &SymlinkDescription) -> (r: bool)
        ensures
            r == self@.same_entry(other@),
    {
        self.source == other.source && self.target.target == other.target.target
    }
}

/// A template: a managed source file that is rendered into `cache` and copied
/// from there to its target.
#[derive(Debug, PartialEq, Eq)]
pub struct TemplateDescription {
    pub source: String,
    pub target: TemplateTarget,
    pub cache: String,
}

/// A `TemplateDescription` as a plain value, its texts as sequences of characters.
pub struct TemplateDescriptionView {
    pub source: Seq<char>,
    pub target: TemplateTargetView,
    pub cache: Seq<char>,
}

impl View for TemplateDescription {
    type V = TemplateDescriptionView;

    open spec fn view(&self) -> TemplateDescriptionView {
        TemplateDescriptionView { source: self.source@, target: self.target@, cache: self.cache@ }
    }
}

impl Clone for TemplateDescription {
    fn clone(&self) -> (r: Self)
        ensures
            r == *self,
    {
        TemplateDescription {
            source: self.source.clone(),
            target: self.target.clone(),
            cache: self.cache.clone(),
        }
    }
}

impl TemplateDescriptionView {
    /// Two descriptions are the same entry of a set when they render the same
    /// source to the same target path.
    pub open spec fn same_entry(self, other: TemplateDescriptionView) -> bool {
        self.source == other.source && self.target.target == other.target.target
    }
}

impl TemplateDescription {
    /// Whether both render the same source to the same target path.
    pub fn same_entry(&self, other: &TemplateDescription) -> (r: bool)
        ensures
            r == self@.same_entry(other@),
    {
        self.source == other.source && self.target.target == other.target.target
    }
}

/// Symbolic links as plain values.
pub open spec fn symlink_views(v: Seq<SymlinkDescription>) -> Seq<SymlinkDescriptionView> {
    v.map_values(|d: SymlinkDescription| d@)
}

/// Templates as plain values.
pub open spec fn template_views(v: Seq<TemplateDescription>) -> Seq<TemplateDescriptionView> {
    v.map_values(|d: TemplateDescription| d@)
}

/// `d` is an entry of `set`.
pub open spec fn has_symlink(set: Seq<SymlinkDescriptionView>, d: SymlinkDescriptionView) -> bool {
    exists|j: int| 0 <= j < set.len() && (#[trigger] set[j]).same_entry(d)
}

/// `d` is an entry of `set`.
pub open spec fn has_template(
    set: Seq<TemplateDescriptionView>,
    d: TemplateDescriptionView,
) -> bool {
    exists|j: int| 0 <= j < set.len() && (#[trigger] set[j]).same_entry(d)
}

/// Whether `d` is an entry of `set`.
pub fn contains_symlink(set: &Vec<SymlinkDescription>, d: &SymlinkDescription) -> (r: bool)
    ensures
        r == has_symlink(symlink_views(set@), d@),
{
    let mut j: usize = 0;
    while j < set.len()
        invariant
            j <= set@.len(),
            forall|k: int| 0 <= k < j ==> !(#[trigger] symlink_views(set@)[k]).same_entry(d@),
        decreases set@.len() - j,
    {
        if set[j].same_entry(d) {
            assert(symlink_views(set@)[j as int].same_entry(d@));
            return true;
        }
        j += 1;
    }
    false
}

/// Whether `d` is an entry of `set`.
pub fn contains_template(set: &Vec<TemplateDescription>, d: &TemplateDescription) -> (r: bool)
    ensures
        r == has_template(template_views(set@), d@),
{
    let mut j: usize = 0;
    while j < set.len()
        invariant
            j <= set@.len(),
            forall|k: int| 0 <= k < j ==> !(#[trigger] template_views(set@)[k]).same_entry(d@),
        decreases set@.len() - j,
    {
        if set[j].same_entry(d) {
            assert(template_views(set@)[j as int].same_entry(d@));
            return true;
        }
        j += 1;
    }
    false
}

/// The four sets that a run reconciles: what the configuration asks for, and what
/// the cache records as deployed. Each set is kept in the order in which its
/// entries are to be handled.
#[derive(Debug, PartialEq, Eq)]
pub struct FileState {
    pub desired_symlinks: Vec<SymlinkDescription>,
    pub desired_templates: Vec<TemplateDescription>,
    pub existing_symlinks: Vec<SymlinkDescription>,
    pub existing_templates: Vec<TemplateDescription>,
}

/// A `FileState` as a plain value, its texts as sequences of characters.
pub struct FileStateView {
    pub desired_symlinks: Seq<SymlinkDescriptionView>,
    pub desired_templates: Seq<TemplateDescriptionView>,
    pub existing_symlinks: Seq<SymlinkDescriptionView>,
    pub existing_templates: Seq<TemplateDescriptionView>,
}

impl View for FileState {
    type V = FileStateView;

    open spec fn view(&self) -> FileStateView {
        FileStateView {
            desired_symlinks: symlink_views(self.desired_symlinks@),
            desired_templates: template_views(self.desired_templates@),
            existing_symlinks: symlink_views(self.existing_symlinks@),
            existing_templates: template_views(self.existing_templates@),
        }
    }
}

/// No two symbolic links of `set` have the same source.
pub open spec fn distinct_symlink_sources(set: Seq<SymlinkDescriptionView>) -> bool {
    forall|i: int, j: int|
        0 <= i < j < set.len() ==> (#[trigger] set[i]).source != (#[trigger] set[j]).source
}

/// No two templates of `set` have the same source.
pub open spec fn distinct_template_sources(set: Seq<TemplateDescriptionView>) -> bool {
    forall|i: int, j: int|
        0 <= i < j < set.len() ==> (#[trigger] set[i]).source != (#[trigger] set[j]).source
}

/// Some symbolic link of `set` has the source `key`.
pub open spec fn has_symlink_source(set: Seq<SymlinkDescriptionView>, key: Seq<char>) -> bool {
    exists|j: int| 0 <= j < set.len() && (#[trigger] set[j]).source == key
}

/// Some template of `set` has the source `key`.
pub open spec fn has_template_source(set: Seq<TemplateDescriptionView>, key: Seq<char>) -> bool {
    exists|j: int| 0 <= j < set.len() && (#[trigger] set[j]).source == key
}

/// The existing sets hold an entry for every source that the cache records, as
/// sets that were built from the cache do.
pub open spec fn existing_covers(state: FileStateView, cache: CacheView) -> bool {
    &&& forall|key: Seq<char>|
        cache.symlinks.contains_key(key) ==> has_symlink_source(state.existing_symlinks, key)
    &&& forall|key: Seq<char>|
        cache.templates.contains_key(key) ==> has_template_source(state.existing_templates, key)
}

/// Why a configuration cannot be turned into a file state.
#[derive(Debug, PartialEq, Eq)]
pub enum ConfigurationError {
    /// A file is declared with an empty source path.
    EmptySource,
    /// The file with this source is declared with an empty target path.
    EmptyTarget { source: String },
}

/// A `ConfigurationError` as a plain value, its texts as sequences of characters.
pub enum ConfigurationErrorView {
    EmptySource,
    EmptyTarget { source: Seq<char> },
}

impl View for ConfigurationError {
    type V = ConfigurationErrorView;

    open spec fn view(&self) -> ConfigurationErrorView {
        match self {
            ConfigurationError::EmptySource => ConfigurationErrorView::EmptySource,
            ConfigurationError::EmptyTarget { source } => ConfigurationErrorView::EmptyTarget {
                source: source@,
            },
        }
    }
}

/// The path at which a declared file is to be deployed.
pub open spec fn target_path(target: FileTargetView) -> Seq<char> {
    match target {
        FileTargetView::Symbolic(t) => t.target,
        FileTargetView::ComplexTemplate(t) => t.target,
    }
}

/// What is wrong with a declared file, if anything: an empty source path, or else
/// an empty target path.
pub open spec fn file_fault(file: (Seq<char>, FileTargetView)) -> Option<ConfigurationErrorView> {
    if file.0.len() == 0 {
        Some(ConfigurationErrorView::EmptySource)
    } else if target_path(file.1).len() == 0 {
        Some(ConfigurationErrorView::EmptyTarget { source: file.0 })
    } else {
        None
    }
}

/// The symbolic link that a file declared as one stands for.
pub open spec fn declared_symlink(file: (Seq<char>, FileTargetView)) -> SymlinkDescriptionView {
    SymlinkDescriptionView { source: file.0, target: file.1->Symbolic_0 }
}

/// The template that a file declared as one stands for, with its place in the
/// cache directory.
pub open spec fn declared_template(
    file: (Seq<char>, FileTargetView),
    cache_directory: Seq<char>,
) -> TemplateDescriptionView {
    TemplateDescriptionView {
        source: file.0,
        target: file.1->ComplexTemplate_0,
        cache: joined_path(cache_directory, file.0),
    }
}

/// The symbolic links among the declared files, in their order.
pub open spec fn desired_symlinks_of(files: Seq<(Seq<char>, FileTargetView)>) -> Seq<
    SymlinkDescriptionView,
> {
    files.filter(|f: (Seq<char>, FileTargetView)| f.1 is Symbolic).map_values(
        |f: (Seq<char>, FileTargetView)| declared_symlink(f),
    )
}

/// The templates among the declared files, in their order.
pub open spec fn desired_templates_of(
    files: Seq<(Seq<char>, FileTargetView)>,
    cache_directory: Seq<char>,
) -> Seq<TemplateDescriptionView> {
    files.filter(|f: (Seq<char>, FileTargetView)| f.1 is ComplexTemplate).map_values(
        |f: (Seq<char>, FileTargetView)| declared_template(f, cache_directory),
    )
}

/// No file declared, nothing desired.
proof fn lemma_desired_start(cache_directory: Seq<char>)
    ensures
        desired_symlinks_of(Seq::empty()) == Seq::<SymlinkDescriptionView>::empty(),
        desired_templates_of(Seq::empty(), cache_directory) == Seq::<
            TemplateDescriptionView,
        >::empty(),
{
    lemma_filter_map_empty(
        |f: (Seq<char>, FileTargetView)| f.1 is Symbolic,
        |f: (Seq<char>, FileTargetView)| declared_symlink(f),
    );
    lemma_filter_map_empty(
        |f: (Seq<char>, FileTargetView)| f.1 is ComplexTemplate,
        |f: (Seq<char>, FileTargetView)| declared_template(f, cache_directory),
    );
}

/// What one more declared file adds to the desired sets.
proof fn lemma_desired_step(
    files: Seq<(Seq<char>, FileTargetView)>,
    i: int,
    cache_directory: Seq<char>,
)
    requires
        0 <= i < files.len(),
    ensures
        desired_symlinks_of(files.take(i + 1)) == if files[i].1 is Symbolic {
            desired_symlinks_of(files.take(i)).push(declared_symlink(files[i]))
        } else {
            desired_symlinks_of(files.take(i))
        },
        desired_templates_of(files.take(i + 1), cache_directory) == if files[i].1
            is ComplexTemplate {
            desired_templates_of(files.take(i), cache_directory).push(
                declared_template(files[i], cache_directory),
            )
        } else {
            desired_templates_of(files.take(i), cache_directory)
        },
{
    lemma_filter_map_take(
        files,
        i,
        |f: (Seq<char>, FileTargetView)| f.1 is Symbolic,
        |f: (Seq<char>, FileTargetView)| declared_symlink(f),
    );
    lemma_filter_map_take(
        files,
        i,
        |f: (Seq<char>, FileTargetView)| f.1 is ComplexTemplate,
        |f: (Seq<char>, FileTargetView)| declared_template(f, cache_directory),
    );
}

/// The symbolic link that a cache entry records.
pub open spec fn cached_symlink(entry: (Seq<char>, Seq<char>)) -> SymlinkDescriptionView {
    SymlinkDescriptionView {
        source: entry.0,
        target: SymbolicTargetView { target: entry.1, owner: None },
    }
}

/// The template that a cache entry records, with its place in the cache directory.
pub open spec fn cached_template(
    entry: (Seq<char>, Seq<char>),
    cache_directory: Seq<char>,
) -> TemplateDescriptionView {
    TemplateDescriptionView {
        source: entry.0,
        target: TemplateTargetView { target: entry.1, owner: None, append: None, prepend: None },
        cache: joined_path(cache_directory, entry.0),
    }
}

/// The symbolic links that the cache records, in the order of the cache.
pub open spec fn existing_symlinks_of(entries: Seq<(Seq<char>, Seq<char>)>) -> Seq<
    SymlinkDescriptionView,
> {
    entries.map_values(|e: (Seq<char>, Seq<char>)| cached_symlink(e))
}

/// The templates that the cache records, in the order of the cache.
pub open spec fn existing_templates_of(
    entries: Seq<(Seq<char>, Seq<char>)>,
    cache_directory: Seq<char>,
) -> Seq<TemplateDescriptionView> {
    entries.map_values(|e: (Seq<char>, Seq<char>)| cached_template(e, cache_directory))
}

/// The sets that the entries of a cache stand for hold each source once, since
/// the cache holds each key once.
pub proof fn lemma_cached_sources_distinct(
    entries: Seq<(Seq<char>, Seq<char>)>,
    cache_directory: Seq<char>,
)
    requires
        ascending(entries),
    ensures
        distinct_symlink_sources(existing_symlinks_of(entries)),
        distinct_template_sources(existing_templates_of(entries, cache_directory)),
{
    assert forall|i: int, j: int| 0 <= i < j < entries.len() implies (#[trigger] entries[i]).0 != (
    #[trigger] entries[j]).0 by {
        lemma_path_before_irreflexive(entries[i].0);
    }
    let links = existing_symlinks_of(entries);
    let templates = existing_templates_of(entries, cache_directory);
    assert forall|i: int, j: int| 0 <= i < j < links.len() implies (#[trigger] links[i]).source != (
    #[trigger] links[j]).source by {
        assert(entries[i].0 != entries[j].0);
    }
    assert forall|i: int, j: int| 0 <= i < j < templates.len() implies (
    #[trigger] templates[i]).source != (#[trigger] templates[j]).source by {
        assert(entries[i].0 != entries[j].0);
    }
}

/// Existing sets that are built from the entries of a cache hold an entry for
/// every source that the cache records.
pub proof fn lemma_existing_covers_cache(
    state: FileStateView,
    cache: CacheView,
    symlinks: Seq<(Seq<char>, Seq<char>)>,
    templates: Seq<(Seq<char>, Seq<char>)>,
    cache_directory: Seq<char>,
)
    requires
        cache.symlinks == entries_map(symlinks),
        cache.templates == entries_map(templates),
        state.existing_symlinks == existing_symlinks_of(symlinks),
        state.existing_templates == existing_templates_of(templates, cache_directory),
    ensures
        existing_covers(state, cache),
{
    assert forall|key: Seq<char>| cache.symlinks.contains_key(key) implies has_symlink_source(
        state.existing_symlinks,
        key,
    ) by {
        let i = index_of_key(symlinks, key);
        assert(holds_key(symlinks, key));
        assert(state.existing_symlinks[i].source == key);
    }
    assert forall|key: Seq<char>| cache.templates.contains_key(key) implies has_template_source(
        state.existing_templates,
        key,
    ) by {
        let i = index_of_key(templates, key);
        assert(holds_key(templates, key));
        assert(state.existing_templates[i].source == key);
    }
}

/// No two declared files have the same source.
pub open spec fn distinct_file_sources(files: Seq<(Seq<char>, FileTargetView)>) -> bool {
    forall|i: int, j: int|
        0 <= i < j < files.len() ==> (#[trigger] files[i]).0 != (#[trigger] files[j]).0
}

/// Some declared file has the source `key`.
pub open spec fn declares_source(files: Seq<(Seq<char>, FileTargetView)>, key: Seq<char>) -> bool {
    exists|j: int| 0 <= j < files.len() && (#[trigger] files[j]).0 == key
}

/// Every desired entry comes from a declared file with the same source.
proof fn lemma_desired_sources_declared(
    files: Seq<(Seq<char>, FileTargetView)>,
    cache_directory: Seq<char>,
)
    ensures
        forall|i: int|
            0 <= i < desired_symlinks_of(files).len() ==> declares_source(
                files,
                (#[trigger] desired_symlinks_of(files)[i]).source,
            ),
        forall|i: int|
            0 <= i < desired_templates_of(files, cache_directory).len() ==> declares_source(
                files,
                (#[trigger] desired_templates_of(files, cache_directory)[i]).source,
            ),
{
    let is_link = |f: (Seq<char>, FileTargetView)| f.1 is Symbolic;
    let is_template = |f: (Seq<char>, FileTargetView)| f.1 is ComplexTemplate;
    let links = files.filter(is_link);
    let templates = files.filter(is_template);
    assert forall|i: int| 0 <= i < desired_symlinks_of(files).len() implies declares_source(
        files,
        (#[trigger] desired_symlinks_of(files)[i]).source,
    ) by {
        assert(links.contains(links[i]));
        files.lemma_filter_contains_rev(is_link, links[i]);
        let j = choose|j: int| 0 <= j < files.len() && files[j] == links[i];
        assert(files[j].0 == desired_symlinks_of(files)[i].source);
    }
    assert forall|i: int|
        0 <= i < desired_templates_of(files, cache_directory).len() implies declares_source(
        files,
        (#[trigger] desired_templates_of(files, cache_directory)[i]).source,
    ) by {
        assert(templates.contains(templates[i]));
        files.lemma_filter_contains_rev(is_template, templates[i]);
        let j = choose|j: int| 0 <= j < files.len() && files[j] == templates[i];
        assert(files[j].0 == desired_templates_of(files, cache_directory)[i].source);
    }
}

/// Where no source is declared twice, no source is desired twice.
pub proof fn lemma_desired_sources_distinct(
    files: Seq<(Seq<char>, FileTargetView)>,
    cache_directory: Seq<char>,
)
    requires
        distinct_file_sources(files),
    ensures
        distinct_symlink_sources(desired_symlinks_of(files)),
        distinct_template_sources(desired_templates_of(files, cache_directory)),
    decreases files.len(),
{
    if files.len() == 0 {
        lemma_desired_start(cache_directory);
        assert(files =~= Seq::empty());
    } else {
        let rest = files.drop_last();
        let last = files.last();
        assert(files.take(files.len() - 1) =~= rest);
        assert(files.take(files.len() as int) =~= files);
        assert forall|i: int, j: int| 0 <= i < j < rest.len() implies (#[trigger] rest[i]).0 != (
        #[trigger] rest[j]).0 by {
            assert(files[i].0 != files[j].0);
        }
        lemma_desired_sources_distinct(rest, cache_directory);
        lemma_desired_sources_declared(rest, cache_directory);
        lemma_desired_step(files, files.len() - 1, cache_directory);
        let links = desired_symlinks_of(files);
        let templates = desired_templates_of(files, cache_directory);
        assert forall|i: int, j: int| 0 <= i < j < links.len() implies (#[trigger] links[i]).source
            != (#[trigger] links[j]).source by {
            if j == desired_symlinks_of(rest).len() {
                assert(declares_source(rest, desired_symlinks_of(rest)[i].source));
                let k = choose|k: int|
                    0 <= k < rest.len() && (#[trigger] rest[k]).0 == desired_symlinks_of(
                        rest,
                    )[i].source;
                assert(files[k].0 != files[files.len() - 1].0);
            }
        }
        assert forall|i: int, j: int| 0 <= i < j < templates.len() implies (
        #[trigger] templates[i]).source != (#[trigger] templates[j]).source by {
            if j == desired_templates_of(rest, cache_directory).len() {
                assert(declares_source(
                    rest,
                    desired_templates_of(rest, cache_directory)[i].source,
                ));
                let k = choose|k: int|
                    0 <= k < rest.len() && (#[trigger] rest[k]).0 == desired_templates_of(
                        rest,
                        cache_directory,
                    )[i].source;
                assert(files[k].0 != files[files.len() - 1].0);
            }
        }
    }
}

/// The symbolic links that `entries` records.
pub fn symlinks_from_cache(entries: &PathMap) -> (r: Vec<SymlinkDescription>)
    ensures
        symlink_views(r@) == existing_symlinks_of(entries.entries()),
        distinct_symlink_sources(symlink_views(r@)),
{
    let mut out: Vec<SymlinkDescription> = Vec::new();
    let n = entries.len();
    let mut i: usize = 0;
    while i < n
        invariant
            i <= n,
            n == entries.entries().len(),
            symlink_views(out@) == existing_symlinks_of(entries.entries().take(i as int)),
        decreases n - i,
    {
        let (source, target) = entries.entry(i);
        let ghost before = out@;
        out.push(
            SymlinkDescription {
                source: source.clone(),
                target: SymbolicTarget { target: target.clone(), owner: None },
            },
        );
        proof {
            let e = entries.entries();
            assert(e.take(i + 1) =~= e.take(i as int).push(e[i as int]));
            assert(symlink_views(out@) =~= symlink_views(before).push(cached_symlink(e[i as int])));
            assert(existing_symlinks_of(e.take(i + 1)) =~= existing_symlinks_of(
                e.take(i as int),
            ).push(cached_symlink(e[i as int])));
        }
        i += 1;
    }
    proof {
        assert(entries.entries().take(n as int) =~= entries.entries());
        lemma_cached_sources_distinct(entries.entries(), Seq::empty());
    }
    out
}

/// The templates that `entries` records, each with its place in `cache_directory`.
pub fn templates_from_cache(entries: &PathMap, cache_directory: &str) -> (r: Vec<
    TemplateDescription,
>)
    ensures
        template_views(r@) == existing_templates_of(entries.entries(), cache_directory@),
        distinct_template_sources(template_views(r@)),
{
    let mut out: Vec<TemplateDescription> = Vec::new();
    let n = entries.len();
    let mut i: usize = 0;
    while i < n
        invariant
            i <= n,
            n == entries.entries().len(),
            template_views(out@) == existing_templates_of(
                entries.entries().take(i as int),
                cache_directory@,
            ),
        decreases n - i,
    {
        let (source, target) = entries.entry(i);
        let ghost before = out@;
        out.push(
            TemplateDescription {
                source: source.clone(),
                target: TemplateTarget {
                    target: target.clone(),
                    owner: None,
                    append: None,
                    prepend: None,
                },
                cache: join(cache_directory, source.as_str()),
            },
        );
        proof {
            let e = entries.entries();
            let d = cached_template(e[i as int], cache_directory@);
            assert(e.take(i + 1) =~= e.take(i as int).push(e[i as int]));
            assert(template_views(out@) =~= template_views(before).push(d));
            assert(existing_templates_of(e.take(i + 1), cache_directory@)
                =~= existing_templates_of(e.take(i as int), cache_directory@).push(d));
        }
        i += 1;
    }
    proof {
        assert(entries.entries().take(n as int) =~= entries.entries());
        lemma_cached_sources_distinct(entries.entries(), cache_directory@);
    }
    out
}

/// The state that a run reconciles. The desired sets are the files that
/// `config` declares, the existing sets what `cache` records, each source once. A
/// configuration that declares a file with an empty source or target path is
/// refused, with the fault of the first such file. That no source is declared
/// twice is left to whoever builds the configuration; where none is, none is
/// desired twice.
pub fn file_state_from_configuration(
    config: &Configuration,
    cache: &Cache,
    cache_directory: &str,
) -> (r: Result<FileState, ConfigurationError>)
    ensures
        match r {
            Ok(state) => {
                &&& forall|i: int|
                    0 <= i < config.files@.len() ==> file_fault(
                        #[trigger] file_views(config.files@)[i],
                    ) is None
                &&& state@.desired_symlinks == desired_symlinks_of(file_views(config.files@))
                &&& state@.desired_templates == desired_templates_of(
                    file_views(config.files@),
                    cache_directory@,
                )
                &&& state@.existing_symlinks == existing_symlinks_of(cache.symlinks.entries())
                &&& state@.existing_templates == existing_templates_of(
                    cache.templates.entries(),
                    cache_directory@,
                )
                &&& distinct_symlink_sources(state@.existing_symlinks)
                &&& distinct_template_sources(state@.existing_templates)
                &&& existing_covers(state@, cache@)
                &&& distinct_file_sources(file_views(config.files@)) ==> distinct_symlink_sources(
                    state@.desired_symlinks,
                ) && distinct_template_sources(state@.desired_templates)
            },
            Err(e) => exists|i: int|
                {
                    &&& 0 <= i < config.files@.len()
                    &&& file_fault(#[trigger] file_views(config.files@)[i]) == Some(e@)
                    &&& forall|j: int|
                        0 <= j < i ==> file_fault(#[trigger] file_views(config.files@)[j]) is None
                },
        },
{
    let mut desired_symlinks: Vec<SymlinkDescription> = Vec::new();
    let mut desired_templates: Vec<TemplateDescription> = Vec::new();
    let ghost files = file_views(config.files@);
    proof {
        lemma_desired_start(cache_directory@);
        assert(files.take(0) =~= Seq::empty());
    }
    let mut i: usize = 0;
    while i < config.files.len()
        invariant
            i <= config.files@.len(),
            files == file_views(config.files@),
            forall|j: int| 0 <= j < i ==> file_fault(#[trigger] files[j]) is None,
            symlink_views(desired_symlinks@) == desired_symlinks_of(files.take(i as int)),
            template_views(desired_templates@) == desired_templates_of(
                files.take(i as int),
                cache_directory@,
            ),
        decreases config.files@.len() - i,
    {
        let file = &config.files[i];
        let source = &file.0;
        proof {
            lemma_desired_step(files, i as int, cache_directory@);
        }
        if source.as_str().is_empty() {
            return Err(ConfigurationError::EmptySource);
        }
        match &file.1 {
            FileTarget::Symbolic(target) => {
                if target.target.as_str().is_empty() {
                    return Err(ConfigurationError::EmptyTarget { source: source.clone() });
                }
                let ghost before = desired_symlinks@;
                desired_symlinks.push(
                    SymlinkDescription { source: source.clone(), target: target.clone() },
                );
                assert(symlink_views(desired_symlinks@) =~= symlink_views(before).push(
                    declared_symlink(files[i as int]),
                ));
            },
            FileTarget::ComplexTemplate(target) => {
                if target.target.as_str().is_empty() {
                    return Err(ConfigurationError::EmptyTarget { source: source.clone() });
                }
                let ghost before = desired_templates@;
                desired_templates.push(
                    TemplateDescription {
                        source: source.clone(),
                        target: target.clone(),
                        cache: join(cache_directory, source.as_str()),
                    },
                );
                assert(template_views(desired_templates@) =~= template_views(before).push(
                    declared_template(files[i as int], cache_directory@),
                ));
            },
        }
        i += 1;
    }
    proof {
        assert(files.take(i as int) =~= files);
    }
    let existing_symlinks = symlinks_from_cache(&cache.symlinks);
    let existing_templates = templates_from_cache(&cache.templates, cache_directory);
    let state = FileState {
        desired_symlinks,
        desired_templates,
        existing_symlinks,
        existing_templates,
    };
    proof {
        lemma_existing_covers_cache(
            state@,
            cache@,
            cache.symlinks.entries(),
            cache.templates.entries(),
            cache_directory@,
        );
        if distinct_file_sources(files) {
            lemma_desired_sources_distinct(files, cache_directory@);
        }
    }
    Ok(state)
}

} // verus!
