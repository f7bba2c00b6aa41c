//! What the configuration declares for each managed file, and the cache of what
//! earlier runs deployed.

use crate::path_map::PathMap;
use vstd::prelude::*;
use vstd::string::StringExecFns;

verus! {

/// The identity that is to own a deployed file.
#[derive(Debug, PartialEq, Eq)]
pub enum UnixUser {
    Uid(u32),
    Name(String),
}

/// A `UnixUser` as a plain value, its texts as sequences of characters.
pub enum UnixUserView {
    Uid(u32),
    Name(Seq<char>),
}

impl View for UnixUser {
    type V = UnixUserView;

    open spec fn view(&self) -> UnixUserView {
        match self {
            UnixUser::Uid(id) => UnixUserView::Uid(*id),
            UnixUser::Name(name) => UnixUserView::Name(name@),
        }
    }
}

impl Clone for UnixUser {
    fn clone(&self) -> (r: Self)
        ensures
            r == *self,
    {
        match self {
            UnixUser::Uid(id) => UnixUser::Uid(*id),
            UnixUser::Name(name) => UnixUser::Name(name.clone()),
        }
    }
}

/// An optional owner, as a plain value.
pub open spec fn owner_view(owner: Option<UnixUser>) -> Option<UnixUserView> {
    match owner {
        Some(user) => Some(user@),
        None => None,
    }
}

/// An optional text, as a plain value.
pub open spec fn text_view(text: Option<String>) -> Option<Seq<char>> {
    match text {
        Some(t) => Some(t@),
        None => None,
    }
}

/// A copy of an optional owner.
pub fn clone_owner(owner: &Option<UnixUser>) -> (r: Option<UnixUser>)
    ensures
        r == *owner,
{
    match owner {
        Some(user) => Some(user.clone()),
        None => None,
    }
}

/// A copy of an optional text.
pub fn clone_text(text: &Option<String>) -> (r: Option<String>)
    ensures
        r == *text,
{
    match text {
        Some(t) => Some(t.clone()),
        None => None,
    }
}

/// Where a symbolic link is to stand, and who is to own it.
#[derive(Debug, PartialEq, Eq)]
pub struct SymbolicTarget {
    pub target: String,
    pub owner: Option<UnixUser>,
}

/// A `SymbolicTarget` as a plain value, its texts as sequences of characters.
pub struct SymbolicTargetView {
    pub target: Seq<char>,
    pub owner: Option<UnixUserView>,
}

impl View for SymbolicTarget {
    type V = SymbolicTargetView;

    open spec fn view(&self) -> SymbolicTargetView {
        SymbolicTargetView { target: self.target@, owner: owner_view(self.owner) }
    }
}

impl Clone for SymbolicTarget {
    fn clone(&self) -> (r: Self)
        ensures
            r == *self,
    {
        SymbolicTarget { target: self.target.clone(), owner: clone_owner(&self.owner) }
    }
}

/// Where a rendered template is to stand, who is to own it, and the text to put
/// around the source's content before it is rendered.
#[derive(Debug, PartialEq, Eq)]
pub struct TemplateTarget {
    pub target: String,
    pub owner: Option<UnixUser>,
    pub append: Option<String>,
    pub prepend: Option<String>,
}

/// A `TemplateTarget` as a plain value, its texts as sequences of characters.
pub struct TemplateTargetView {
    pub target: Seq<char>,
    pub owner: Option<UnixUserView>,
    pub append: Option<Seq<char>>,
    pub prepend: Option<Seq<char>>,
}

impl View for TemplateTarget {
    type V = TemplateTargetView;

    open spec fn view(&self) -> TemplateTargetView {
        TemplateTargetView {
            target: self.target@,
            owner: owner_view(self.owner),
            append: text_view(self.append),
            prepend: text_view(self.prepend),
        }
    }
}

impl Clone for TemplateTarget {
    fn clone(&self) -> (r: Self)
        ensures
            r == *self,
    {
        TemplateTarget {
            target: self.target.clone(),
            owner: clone_owner(&self.owner),
            append: clone_text(&self.append),
            prepend: clone_text(&self.prepend),
        }
    }
}

/// `content` with `prepend` in front of it and `append` behind it, each where it
/// is given.
pub open spec fn decorated(
    prepend: Option<Seq<char>>,
    content: Seq<char>,
    append: Option<Seq<char>>,
) -> Seq<char> {
    let front = match prepend {
        Some(text) => text,
        None => Seq::<char>::empty(),
    };
    let back = match append {
        Some(text) => text,
        None => Seq::<char>::empty(),
    };
    front + content + back
}

/// Puts `prepend` in front of `file` and `append` behind it, each where it is given.
pub fn decorate(prepend: &Option<String>, file: String, append: &Option<String>) -> (r: String)
    ensures
        r@ == decorated(text_view(*prepend), file@, text_view(*append)),
{
    let mut text = match prepend {
        Some(front) => {
            let mut t = front.clone();
            t.append(file.as_str());
            t
        },
        None => {
            assert(Seq::<char>::empty() + file@ =~= file@);
            file
        },
    };
    match append {
        Some(back) => {
            text.append(back.as_str());
        },
        None => {
            assert(text@ + Seq::<char>::empty() =~= text@);
        },
    }
    text
}

impl TemplateTarget {
    /// The template's text for a source that holds `file`: the content with this
    /// target's `prepend` in front of it and its `append` behind it.
    pub fn apply_actions(&self, file: String) -> (r: String)
        ensures
            r@ == decorated(self@.prepend, file@, self@.append),
    {
        decorate(&self.prepend, file, &self.append)
    }
}

/// What the configuration declares for one source file.
#[derive(Debug, PartialEq, Eq)]
pub enum FileTarget {
    Symbolic(SymbolicTarget),
    ComplexTemplate(TemplateTarget),
}

/// A `FileTarget` as a plain value, its texts as sequences of characters.
pub enum FileTargetView {
    Symbolic(SymbolicTargetView),
    ComplexTemplate(TemplateTargetView),
}

impl View for FileTarget {
    type V = FileTargetView;

    open spec fn view(&self) -> FileTargetView {
        match self {
            FileTarget::Symbolic(target) => FileTargetView::Symbolic(target@),
            FileTarget::ComplexTemplate(target) => FileTargetView::ComplexTemplate(target@),
        }
    }
}

/// The files that the configuration declares, each source with its target, in the
/// order in which they are to be handled.
#[derive(Debug, PartialEq, Eq)]
pub struct Configuration {
    pub files: Vec<(String, FileTarget)>,
}

/// The declared files as plain values.
pub open spec fn file_views(files: Seq<(String, FileTarget)>) -> Seq<(Seq<char>, FileTargetView)> {
    files.map_values(|f: (String, FileTarget)| (f.0@, f.1@))
}

/// The record of what is deployed: for each managed source the target that it
/// was deployed to, symbolic links and templates apart.
#[derive(Debug, PartialEq, Eq)]
pub struct Cache {
    pub symlinks: PathMap,
    pub templates: PathMap,
}

/// A `Cache` as a plain value, its texts as sequences of characters.
pub struct CacheView {
    pub symlinks: Map<Seq<char>, Seq<char>>,
    pub templates: Map<Seq<char>, Seq<char>>,
}

impl CacheView {
    /// The cache that records nothing.
    pub open spec fn empty() -> CacheView {
        CacheView { symlinks: Map::empty(), templates: Map::empty() }
    }
}

impl View for Cache {
    type V = CacheView;

    open spec fn view(&self) -> CacheView {
        CacheView { symlinks: self.symlinks@, templates: self.templates@ }
    }
}

impl Clone for Cache {
    fn clone(&self) -> (r: Self)
        ensures
            r@ == self@,
            r.symlinks.entries() == self.symlinks.entries(),
            r.templates.entries() == self.templates.entries(),
    {
        Cache { symlinks: self.symlinks.clone(), templates: self.templates.clone() }
    }
}

impl Default for Cache {
    fn default() -> (r: Self)
        ensures
            r@ == CacheView::empty(),
    {
        Cache { symlinks: PathMap::new(), templates: PathMap::new() }
    }
}

} // verus!
