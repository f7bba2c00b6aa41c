//! The filesystem as the engine sees it: a capability with a fixed set of
//! operations, the two comparisons that classify what is on disk, and a session
//! that keeps the history of every call made through it.

use crate::config::{owner_view, UnixUser, UnixUserView};
use crate::order::{rank, Rank};
use crate::render::{render_error_text, render_template, Variables};
use vstd::prelude::*;

verus! {

/// How the target of a symbolic link stands to its source.
#[derive(Debug, Clone, Copy, PartialEq, Eq, Structural)]
pub enum SymlinkComparison {
    /// The target is a link that points to the source.
    Identical,
    /// The target exists and the source does not.
    OnlyTargetExists,
    /// The source exists and the target does not.
    OnlySourceExists,
    /// Both exist, and the target is no link to the source.
    Mismatch,
    /// Neither exists.
    BothMissing,
}

/// How the target of a template stands to the rendered artifact in the cache.
#[derive(Debug, Clone, Copy, PartialEq, Eq, Structural)]
pub enum TemplateComparison {
    /// Target and cached artifact exist and hold the same content.
    Identical,
    /// The cached artifact exists and the target does not.
    OnlyCacheExists,
    /// The target exists and the cached artifact does not.
    OnlyTargetExists,
    /// Both exist, and the target does not hold what the cached artifact holds.
    Mismatch,
    /// Neither exists.
    BothMissing,
}

/// What was found at a path that should hold a symbolic link.
#[derive(Debug, PartialEq, Eq)]
pub enum LinkState {
    Missing,
    /// A symbolic link that points to the given path.
    Link(String),
    /// Something that is no symbolic link.
    Other,
}

/// What was found at a path that should hold a regular file.
#[derive(Debug, PartialEq, Eq)]
pub enum FileContent {
    Missing,
    /// A regular file with the given content.
    Text(String),
    /// Something that is no regular file.
    Other,
}

/// The comparison for a source that exists or not, and what is at the target.
pub open spec fn symlink_comparison_of(
    source_exists: bool,
    source: Seq<char>,
    target: LinkState,
) -> SymlinkComparison {
    if target is Missing {
        if source_exists {
            SymlinkComparison::OnlySourceExists
        } else {
            SymlinkComparison::BothMissing
        }
    } else if !source_exists {
        SymlinkComparison::OnlyTargetExists
    } else if target is Link && target->Link_0@ == source {
        SymlinkComparison::Identical
    } else {
        SymlinkComparison::Mismatch
    }
}

/// Classifies the target of a symbolic link against its source.
pub fn classify_symlink(source_exists: bool, source: &str, target: &LinkState) -> (r:
    SymlinkComparison)
    ensures
        r == symlink_comparison_of(source_exists, source@, *target),
{
    match target {
        LinkState::Missing => {
            if source_exists {
                SymlinkComparison::OnlySourceExists
            } else {
                SymlinkComparison::BothMissing
            }
        },
        LinkState::Link(destination) => {
            if !source_exists {
                SymlinkComparison::OnlyTargetExists
            } else if rank(destination.as_str(), source) == Rank::Same {
                SymlinkComparison::Identical
            } else {
                SymlinkComparison::Mismatch
            }
        },
        LinkState::Other => {
            if !source_exists {
                SymlinkComparison::OnlyTargetExists
            } else {
                SymlinkComparison::Mismatch
            }
        },
    }
}

/// The comparison for what is at the target and what is at the cached artifact.
pub open spec fn template_comparison_of(target: FileContent, cache: FileContent) -> TemplateComparison {
    if target is Missing {
        if cache is Missing {
            TemplateComparison::BothMissing
        } else {
            TemplateComparison::OnlyCacheExists
        }
    } else if cache is Missing {
        TemplateComparison::OnlyTargetExists
    } else if target is Text && cache is Text && target->Text_0@ == cache->Text_0@ {
        TemplateComparison::Identical
    } else {
        TemplateComparison::Mismatch
    }
}

/// Classifies the target of a template against the cached artifact.
pub fn classify_template(target: &FileContent, cache: &FileContent) -> (r: TemplateComparison)
    ensures
        r == template_comparison_of(*target, *cache),
{
    match (target, cache) {
        (FileContent::Missing, FileContent::Missing) => TemplateComparison::BothMissing,
        (FileContent::Missing, _) => TemplateComparison::OnlyCacheExists,
        (_, FileContent::Missing) => TemplateComparison::OnlyTargetExists,
        (FileContent::Text(a), FileContent::Text(b)) => {
            if *a == *b {
                TemplateComparison::Identical
            } else {
                TemplateComparison::Mismatch
            }
        },
        _ => TemplateComparison::Mismatch,
    }
}

/// The failure of a filesystem operation or of the renderer.
#[derive(Debug, PartialEq, Eq)]
pub struct IoError {
    pub message: String,
}

/// A `IoError` as a plain value, its texts as sequences of characters.
pub struct IoErrorView {
    pub message: Seq<char>,
}

impl View for IoError {
    type V = IoErrorView;

    open spec fn view(&self) -> IoErrorView {
        IoErrorView { message: self.message@ }
    }
}

impl Clone for IoError {
    fn clone(&self) -> (r: Self)
        ensures
            r == *self,
    {
        IoError { message: self.message.clone() }
    }
}

/// The operations that the engine asks of a filesystem. An implementation says
/// what each of them does: carry it out, only pretend to, or ask first.
pub trait Filesystem {
    /// Classifies the link at `target` against `source`.
    fn compare_symlink(&mut self, source: &str, target: &str) -> Result<SymlinkComparison, IoError>;

    /// Classifies the file at `target` against the rendered artifact at `cache`.
    fn compare_template(&mut self, target: &str, cache: &str) -> Result<
        TemplateComparison,
        IoError,
    >;

    /// Creates the directory `path` and its missing ancestors.
    fn create_dir_all(&mut self, path: &str, owner: &Option<UnixUser>) -> Result<(), IoError>;

    /// Creates at `target` a symbolic link that points to `source`.
    fn make_symlink(&mut self, target: &str, source: &str, owner: &Option<UnixUser>) -> Result<
        (),
        IoError,
    >;

    /// Removes the file or link at `path`.
    fn remove_file(&mut self, path: &str) -> Result<(), IoError>;

    /// Removes the empty directory at `path`.
    fn remove_dir(&mut self, path: &str) -> Result<(), IoError>;

    /// Reads the file at `path` as text.
    fn read_to_string(&mut self, path: &str) -> Result<String, IoError>;

    /// Writes `content` to the file at `path`.
    fn write(&mut self, path: &str, content: String) -> Result<(), IoError>;

    /// Copies the file at `from` to `to`.
    fn copy_file(&mut self, from: &str, to: &str, owner: &Option<UnixUser>) -> Result<
        (),
        IoError,
    >;

    /// Gives the file at `to` the permissions of the file at `from`.
    fn copy_permissions(&mut self, from: &str, to: &str, owner: &Option<UnixUser>) -> Result<
        (),
        IoError,
    >;

    /// Makes `owner` the owner of `path`.
    fn set_owner(&mut self, path: &str, owner: &Option<UnixUser>) -> Result<(), IoError>;
}

/// A request that a session hands to the filesystem or to the renderer.
pub enum Call {
    CompareSymlink { source: Seq<char>, target: Seq<char> },
    CompareTemplate { target: Seq<char>, cache: Seq<char> },
    CreateDirAll { path: Seq<char>, owner: Option<UnixUserView> },
    MakeSymlink { target: Seq<char>, source: Seq<char>, owner: Option<UnixUserView> },
    RemoveFile { path: Seq<char> },
    RemoveDir { path: Seq<char> },
    ReadToString { path: Seq<char> },
    Write { path: Seq<char>, content: Seq<char> },
    CopyFile { from: Seq<char>, to: Seq<char>, owner: Option<UnixUserView> },
    CopyPermissions { from: Seq<char>, to: Seq<char>, owner: Option<UnixUserView> },
    SetOwner { path: Seq<char>, owner: Option<UnixUserView> },
    Render { template: Seq<char> },
}

/// What came back for a request.
pub enum Reply {
    Symlink(SymlinkComparison),
    Template(TemplateComparison),
    Text(Seq<char>),
    Done,
    Failed(IoErrorView),
}

/// A request together with what came back for it.
pub struct Exchange {
    pub call: Call,
    pub reply: Reply,
}

/// The reply is of the kind that the request yields: a comparison is answered by
/// its classification, a reading or rendering by a text, every other request by
/// nothing; and each of them may fail.
pub open spec fn answers(call: Call, reply: Reply) -> bool {
    match reply {
        Reply::Failed(_) => true,
        Reply::Symlink(_) => call is CompareSymlink,
        Reply::Template(_) => call is CompareTemplate,
        Reply::Text(_) => call is ReadToString || call is Render,
        Reply::Done => !(call is CompareSymlink || call is CompareTemplate || call
            is ReadToString || call is Render),
    }
}

/// The reply that stands for the result of an operation that yields nothing.
pub open spec fn reply_of_unit(r: Result<(), IoError>) -> Reply {
    match r {
        Ok(_) => Reply::Done,
        Err(e) => Reply::Failed(e@),
    }
}

/// The reply that stands for the result of an operation that yields a text.
pub open spec fn reply_of_text(r: Result<String, IoError>) -> Reply {
    match r {
        Ok(text) => Reply::Text(text@),
        Err(e) => Reply::Failed(e@),
    }
}

/// The reply that stands for the result of comparing a symbolic link.
pub open spec fn reply_of_symlink(r: Result<SymlinkComparison, IoError>) -> Reply {
    match r {
        Ok(c) => Reply::Symlink(c),
        Err(e) => Reply::Failed(e@),
    }
}

/// The reply that stands for the result of comparing a template.
pub open spec fn reply_of_template(r: Result<TemplateComparison, IoError>) -> Reply {
    match r {
        Ok(c) => Reply::Template(c),
        Err(e) => Reply::Failed(e@),
    }
}

/// A filesystem together with the history of what was asked of it and of the
/// renderer. Every method makes one call and appends one exchange to the history;
/// the history itself exists in proofs only.
pub struct Session<F> {
    fs: F,
    history: Ghost<Seq<Exchange>>,
}

impl<F: Filesystem> Session<F> {
    /// The exchanges so far, oldest first.
    pub closed spec fn history(&self) -> Seq<Exchange> {
        self.history@
    }

    /// The filesystem that the session works on, as it stands.
    pub closed spec fn underlying(&self) -> F {
        self.fs
    }

    /// A session on `fs` with an empty history.
    pub fn new(fs: F) -> (s: Self)
        ensures
            s.history() == Seq::<Exchange>::empty(),
            s.underlying() == fs,
    {
        Session { fs, history: Ghost(Seq::empty()) }
    }

    /// The filesystem that the session works on.
    pub fn filesystem(&self) -> (fs: &F)
        ensures
            *fs == self.underlying(),
    {
        &self.fs
    }

    /// Ends the session and hands the filesystem back.
    pub fn into_filesystem(self) -> (fs: F)
        ensures
            fs == self.underlying(),
    {
        self.fs
    }

    /// Asks the filesystem to classify the link at `target` against `source`.
    pub fn compare_symlink(&mut self, source: &str, target: &str) -> (r: Result<
        SymlinkComparison,
        IoError,
    >)
        ensures
            final(self).history() == old(self).history().push(
                Exchange {
                    call: Call::CompareSymlink { source: source@, target: target@ },
                    reply: reply_of_symlink(r),
                },
            ),
    {
        let r = self.fs.compare_symlink(source, target);
        self.history = Ghost(
            self.history@.push(
                Exchange {
                    call: Call::CompareSymlink { source: source@, target: target@ },
                    reply: reply_of_symlink(r),
                },
            ),
        );
        r
    }

    /// Asks the filesystem to classify the file at `target` against the artifact at
    /// `cache`.
    pub fn compare_template(&mut self, target: &str, cache: &str) -> (r: Result<
        TemplateComparison,
        IoError,
    >)
        ensures
            final(self).history() == old(self).history().push(
                Exchange {
                    call: Call::CompareTemplate { target: target@, cache: cache@ },
                    reply: reply_of_template(r),
                },
            ),
    {
        let r = self.fs.compare_template(target, cache);
        self.history = Ghost(
            self.history@.push(
                Exchange {
                    call: Call::CompareTemplate { target: target@, cache: cache@ },
                    reply: reply_of_template(r),
                },
            ),
        );
        r
    }

    /// Asks the filesystem to create the directory `path` and its missing ancestors.
    pub fn create_dir_all(&mut self, path: &str, owner: &Option<UnixUser>) -> (r: Result<
        (),
        IoError,
    >)
        ensures
            final(self).history() == old(self).history().push(
                Exchange {
                    call: Call::CreateDirAll { path: path@, owner: owner_view(*owner) },
                    reply: reply_of_unit(r),
                },
            ),
    {
        let r = self.fs.create_dir_all(path, owner);
        self.history = Ghost(
            self.history@.push(
                Exchange {
                    call: Call::CreateDirAll { path: path@, owner: owner_view(*owner) },
                    reply: reply_of_unit(r),
                },
            ),
        );
        r
    }

    /// Asks the filesystem to create at `target` a link that points to `source`.
    pub fn make_symlink(&mut self, target: &str, source: &str, owner: &Option<UnixUser>) -> (r:
        Result<(), IoError>)
        ensures
            final(self).history() == old(self).history().push(
                Exchange {
                    call: Call::MakeSymlink {
                        target: target@,
                        source: source@,
                        owner: owner_view(*owner),
                    },
                    reply: reply_of_unit(r),
                },
            ),
    {
        let r = self.fs.make_symlink(target, source, owner);
        self.history = Ghost(
            self.history@.push(
                Exchange {
                    call: Call::MakeSymlink {
                        target: target@,
                        source: source@,
                        owner: owner_view(*owner),
                    },
                    reply: reply_of_unit(r),
                },
            ),
        );
        r
    }

    /// Asks the filesystem to remove the file or link at `path`.
    pub fn remove_file(&mut self, path: &str) -> (r: Result<(), IoError>)
        ensures
            final(self).history() == old(self).history().push(
                Exchange { call: Call::RemoveFile { path: path@ }, reply: reply_of_unit(r) },
            ),
    {
        let r = self.fs.remove_file(path);
        self.history = Ghost(
            self.history@.push(
                Exchange { call: Call::RemoveFile { path: path@ }, reply: reply_of_unit(r) },
            ),
        );
        r
    }

    /// Asks the filesystem to remove the empty directory at `path`.
    pub fn remove_dir(&mut self, path: &str) -> (r: Result<(), IoError>)
        ensures
            final(self).history() == old(self).history().push(
                Exchange { call: Call::RemoveDir { path: path@ }, reply: reply_of_unit(r) },
            ),
    {
        let r = self.fs.remove_dir(path);
        self.history = Ghost(
            self.history@.push(
                Exchange { call: Call::RemoveDir { path: path@ }, reply: reply_of_unit(r) },
            ),
        );
        r
    }

    /// Asks the filesystem for the text of the file at `path`.
    pub fn read_to_string(&mut self, path: &str) -> (r: Result<String, IoError>)
        ensures
            final(self).history() == old(self).history().push(
                Exchange { call: Call::ReadToString { path: path@ }, reply: reply_of_text(r) },
            ),
    {
        let r = self.fs.read_to_string(path);
        self.history = Ghost(
            self.history@.push(
                Exchange { call: Call::ReadToString { path: path@ }, reply: reply_of_text(r) },
            ),
        );
        r
    }

    /// Asks the filesystem to write `content` to the file at `path`.
    pub fn write(&mut self, path: &str, content: String) -> (r: Result<(), IoError>)
        ensures
            final(self).history() == old(self).history().push(
                Exchange {
                    call: Call::Write { path: path@, content: content@ },
                    reply: reply_of_unit(r),
                },
            ),
    {
        let ghost text = content@;
        let r = self.fs.write(path, content);
        self.history = Ghost(
            self.history@.push(
                Exchange {
                    call: Call::Write { path: path@, content: text },
                    reply: reply_of_unit(r),
                },
            ),
        );
        r
    }

    /// Asks the filesystem to copy the file at `from` to `to`.
    pub fn copy_file(&mut self, from: &str, to: &str, owner: &Option<UnixUser>) -> (r: Result<
        (),
        IoError,
    >)
        ensures
            final(self).history() == old(self).history().push(
                Exchange {
                    call: Call::CopyFile { from: from@, to: to@, owner: owner_view(*owner) },
                    reply: reply_of_unit(r),
                },
            ),
    {
        let r = self.fs.copy_file(from, to, owner);
        self.history = Ghost(
            self.history@.push(
                Exchange {
                    call: Call::CopyFile { from: from@, to: to@, owner: owner_view(*owner) },
                    reply: reply_of_unit(r),
                },
            ),
        );
        r
    }

    /// Asks the filesystem to give the file at `to` the permissions of the file at
    /// `from`.
    pub fn copy_permissions(&mut self, from: &str, to: &str, owner: &Option<UnixUser>) -> (r:
        Result<(), IoError>)
        ensures
            final(self).history() == old(self).history().push(
                Exchange {
                    call: Call::CopyPermissions {
                        from: from@,
                        to: to@,
                        owner: owner_view(*owner),
                    },
                    reply: reply_of_unit(r),
                },
            ),
    {
        let r = self.fs.copy_permissions(from, to, owner);
        self.history = Ghost(
            self.history@.push(
                Exchange {
                    call: Call::CopyPermissions {
                        from: from@,
                        to: to@,
                        owner: owner_view(*owner),
                    },
                    reply: reply_of_unit(r),
                },
            ),
        );
        r
    }

    /// Asks the filesystem to make `owner` the owner of `path`.
    pub fn set_owner(&mut self, path: &str, owner: &Option<UnixUser>) -> (r: Result<(), IoError>)
        ensures
            final(self).history() == old(self).history().push(
                Exchange {
                    call: Call::SetOwner { path: path@, owner: owner_view(*owner) },
                    reply: reply_of_unit(r),
                },
            ),
    {
        let r = self.fs.set_owner(path, owner);
        self.history = Ghost(
            self.history@.push(
                Exchange {
                    call: Call::SetOwner { path: path@, owner: owner_view(*owner) },
                    reply: reply_of_unit(r),
                },
            ),
        );
        r
    }

    /// Renders `template` with `variables`. A failure of the renderer comes back
    /// as an `IoError` that holds the renderer's message.
    pub fn render(
        &mut self,
        handlebars: &handlebars::Handlebars<'_>,
        template: &str,
        variables: &Variables,
    ) -> (r: Result<String, IoError>)
        ensures
            final(self).history() == old(self).history().push(
                Exchange { call: Call::Render { template: template@ }, reply: reply_of_text(r) },
            ),
    {
        let r = match render_template(handlebars, template, variables) {
            Ok(text) => Ok(text),
            Err(e) => Err(IoError { message: render_error_text(&e) }),
        };
        self.history = Ghost(
            self.history@.push(
                Exchange { call: Call::Render { template: template@ }, reply: reply_of_text(r) },
            ),
        );
        r
    }
}

/// A filesystem that looks and does not touch. Comparisons and readings go to
/// the filesystem underneath; every operation that would change something is
/// answered with success and never reaches it.
pub struct DryRun<F> {
    inner: Session<F>,
}

impl<F: Filesystem> DryRun<F> {
    /// What has reached the filesystem underneath, oldest first.
    pub closed spec fn reached(&self) -> Seq<Exchange> {
        self.inner.history()
    }

    /// The filesystem underneath, as it stands.
    pub closed spec fn underlying(&self) -> F {
        self.inner.underlying()
    }

    /// A dry run on `fs`.
    pub fn new(fs: F) -> (r: Self)
        ensures
            r.reached() == Seq::<Exchange>::empty(),
            r.underlying() == fs,
    {
        DryRun { inner: Session::new(fs) }
    }

    /// Hands the filesystem underneath back.
    pub fn into_filesystem(self) -> (fs: F)
        ensures
            fs == self.underlying(),
    {
        self.inner.into_filesystem()
    }
}

impl<F: Filesystem> Filesystem for DryRun<F> {
    fn compare_symlink(&mut self, source: &str, target: &str) -> (r: Result<
        SymlinkComparison,
        IoError,
    >)
        ensures
            final(self).reached() == old(self).reached().push(
                Exchange {
                    call: Call::CompareSymlink { source: source@, target: target@ },
                    reply: reply_of_symlink(r),
                },
            ),
    {
        self.inner.compare_symlink(source, target)
    }

    fn compare_template(&mut self, target: &str, cache: &str) -> (r: Result<
        TemplateComparison,
        IoError,
    >)
        ensures
            final(self).reached() == old(self).reached().push(
                Exchange {
                    call: Call::CompareTemplate { target: target@, cache: cache@ },
                    reply: reply_of_template(r),
                },
            ),
    {
        self.inner.compare_template(target, cache)
    }

    fn create_dir_all(&mut self, path: &str, owner: &Option<UnixUser>) -> (r: Result<(), IoError>)
        ensures
            r is Ok,
            final(self).reached() == old(self).reached(),
            final(self).underlying() == old(self).underlying(),
    {
        Ok(())
    }

    fn make_symlink(&mut self, target: &str, source: &str, owner: &Option<UnixUser>) -> (r:
        Result<(), IoError>)
        ensures
            r is Ok,
            final(self).reached() == old(self).reached(),
            final(self).underlying() == old(self).underlying(),
    {
        Ok(())
    }

    fn remove_file(&mut self, path: &str) -> (r: Result<(), IoError>)
        ensures
            r is Ok,
            final(self).reached() == old(self).reached(),
            final(self).underlying() == old(self).underlying(),
    {
        Ok(())
    }

    fn remove_dir(&mut self, path: &str) -> (r: Result<(), IoError>)
        ensures
            r is Ok,
            final(self).reached() == old(self).reached(),
            final(self).underlying() == old(self).underlying(),
    {
        Ok(())
    }

    fn read_to_string(&mut self, path: &str) -> (r: Result<String, IoError>)
        ensures
            final(self).reached() == old(self).reached().push(
                Exchange { call: Call::ReadToString { path: path@ }, reply: reply_of_text(r) },
            ),
    {
        self.inner.read_to_string(path)
    }

    fn write(&mut self, path: &str, content: String) -> (r: Result<(), IoError>)
        ensures
            r is Ok,
            final(self).reached() == old(self).reached(),
            final(self).underlying() == old(self).underlying(),
    {
        Ok(())
    }

    fn copy_file(&mut self, from: &str, to: &str, owner: &Option<UnixUser>) -> (r: Result<
        (),
        IoError,
    >)
        ensures
            r is Ok,
            final(self).reached() == old(self).reached(),
            final(self).underlying() == old(self).underlying(),
    {
        Ok(())
    }

    fn copy_permissions(&mut self, from: &str, to: &str, owner: &Option<UnixUser>) -> (r: Result<
        (),
        IoError,
    >)
        ensures
            r is Ok,
            final(self).reached() == old(self).reached(),
            final(self).underlying() == old(self).underlying(),
    {
        Ok(())
    }

    fn set_owner(&mut self, path: &str, owner: &Option<UnixUser>) -> (r: Result<(), IoError>)
        ensures
            r is Ok,
            final(self).reached() == old(self).reached(),
            final(self).underlying() == old(self).underlying(),
    {
        Ok(())
    }
}

} // verus!
