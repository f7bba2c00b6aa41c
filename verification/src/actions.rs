//! The actions of a plan, what each of them asks of the filesystem for a given
//! comparison, and how a run of one is carried out and recorded.

use crate::args::Options;
use crate::config::{
    clone_owner, clone_text, decorate, decorated, owner_view, text_view, Cache, CacheView,
    UnixUser, UnixUserView,
};
use crate::file_state::{
    SymlinkDescription, SymlinkDescriptionView, TemplateDescription, TemplateDescriptionView,
};
use crate::filesystem::{
    answers, Call, Exchange, Filesystem, IoError, IoErrorView, Reply, Session, SymlinkComparison,
    TemplateComparison,
};
use crate::paths::{parent, parent_path};
use crate::render::Variables;
use vstd::prelude::*;

verus! {

/// One planned change to one managed file.
#[derive(Debug, PartialEq, Eq)]
pub enum Action {
    DeleteSymlink { source: String, target: String },
    DeleteTemplate { source: String, cache: String, target: String },
    CreateSymlink(SymlinkDescription),
    CreateTemplate(TemplateDescription),
    UpdateSymlink(SymlinkDescription),
    UpdateTemplate(TemplateDescription),
}

/// A `Action` as a plain value, its texts as sequences of characters.
pub enum ActionView {
    DeleteSymlink { source: Seq<char>, target: Seq<char> },
    DeleteTemplate { source: Seq<char>, cache: Seq<char>, target: Seq<char> },
    CreateSymlink(SymlinkDescriptionView),
    CreateTemplate(TemplateDescriptionView),
    UpdateSymlink(SymlinkDescriptionView),
    UpdateTemplate(TemplateDescriptionView),
}

impl View for Action {
    type V = ActionView;

    open spec fn view(&self) -> ActionView {
        match self {
            Action::DeleteSymlink { source, target } => ActionView::DeleteSymlink {
                source: source@,
                target: target@,
            },
            Action::DeleteTemplate { source, cache, target } => ActionView::DeleteTemplate {
                source: source@,
                cache: cache@,
                target: target@,
            },
            Action::CreateSymlink(d) => ActionView::CreateSymlink(d@),
            Action::CreateTemplate(d) => ActionView::CreateTemplate(d@),
            Action::UpdateSymlink(d) => ActionView::UpdateSymlink(d@),
            Action::UpdateTemplate(d) => ActionView::UpdateTemplate(d@),
        }
    }
}

impl Clone for Action {
    fn clone(&self) -> (r: Self)
        ensures
            r == *self,
    {
        match self {
            Action::DeleteSymlink { source, target } => Action::DeleteSymlink {
                source: source.clone(),
                target: target.clone(),
            },
            Action::DeleteTemplate { source, cache, target } => Action::DeleteTemplate {
                source: source.clone(),
                cache: cache.clone(),
                target: target.clone(),
            },
            Action::CreateSymlink(d) => Action::CreateSymlink(d.clone()),
            Action::CreateTemplate(d) => Action::CreateTemplate(d.clone()),
            Action::UpdateSymlink(d) => Action::UpdateSymlink(d.clone()),
            Action::UpdateTemplate(d) => Action::UpdateTemplate(d.clone()),
        }
    }
}

/// Actions as plain values.
pub open spec fn action_views(v: Seq<Action>) -> Seq<ActionView> {
    v.map_values(|a: Action| a@)
}

/// One step of an action: a single request to the filesystem or to the renderer.
/// `ReadToString` and `Render` yield a text; `Render` works on the text that the
/// step before it yielded, and `Write` writes it.
#[derive(Debug, PartialEq, Eq)]
pub enum Op {
    CreateDirAll { path: String, owner: Option<UnixUser> },
    MakeSymlink { target: String, source: String, owner: Option<UnixUser> },
    RemoveFile { path: String },
    ReadToString { path: String },
    Render { prepend: Option<String>, append: Option<String> },
    Write { path: String },
    CopyFile { from: String, to: String, owner: Option<UnixUser> },
    CopyPermissions { from: String, to: String, owner: Option<UnixUser> },
}

/// A `Op` as a plain value, its texts as sequences of characters.
pub enum OpView {
    CreateDirAll { path: Seq<char>, owner: Option<UnixUserView> },
    MakeSymlink { target: Seq<char>, source: Seq<char>, owner: Option<UnixUserView> },
    RemoveFile { path: Seq<char> },
    ReadToString { path: Seq<char> },
    Render { prepend: Option<Seq<char>>, append: Option<Seq<char>> },
    Write { path: Seq<char> },
    CopyFile { from: Seq<char>, to: Seq<char>, owner: Option<UnixUserView> },
    CopyPermissions { from: Seq<char>, to: Seq<char>, owner: Option<UnixUserView> },
}

impl View for Op {
    type V = OpView;

    open spec fn view(&self) -> OpView {
        match self {
            Op::CreateDirAll { path, owner } => OpView::CreateDirAll {
                path: path@,
                owner: owner_view(*owner),
            },
            Op::MakeSymlink { target, source, owner } => OpView::MakeSymlink {
                target: target@,
                source: source@,
                owner: owner_view(*owner),
            },
            Op::RemoveFile { path } => OpView::RemoveFile { path: path@ },
            Op::ReadToString { path } => OpView::ReadToString { path: path@ },
            Op::Render { prepend, append } => OpView::Render {
                prepend: text_view(*prepend),
                append: text_view(*append),
            },
            Op::Write { path } => OpView::Write { path: path@ },
            Op::CopyFile { from, to, owner } => OpView::CopyFile {
                from: from@,
                to: to@,
                owner: owner_view(*owner),
            },
            Op::CopyPermissions { from, to, owner } => OpView::CopyPermissions {
                from: from@,
                to: to@,
                owner: owner_view(*owner),
            },
        }
    }
}

impl Clone for Op {
    fn clone(&self) -> (r: Self)
        ensures
            r == *self,
    {
        match self {
            Op::CreateDirAll { path, owner } => Op::CreateDirAll {
                path: path.clone(),
                owner: clone_owner(owner),
            },
            Op::MakeSymlink { target, source, owner } => Op::MakeSymlink {
                target: target.clone(),
                source: source.clone(),
                owner: clone_owner(owner),
            },
            Op::RemoveFile { path } => Op::RemoveFile { path: path.clone() },
            Op::ReadToString { path } => Op::ReadToString { path: path.clone() },
            Op::Render { prepend, append } => Op::Render {
                prepend: clone_text(prepend),
                append: clone_text(append),
            },
            Op::Write { path } => Op::Write { path: path.clone() },
            Op::CopyFile { from, to, owner } => Op::CopyFile {
                from: from.clone(),
                to: to.clone(),
                owner: clone_owner(owner),
            },
            Op::CopyPermissions { from, to, owner } => Op::CopyPermissions {
                from: from.clone(),
                to: to.clone(),
                owner: clone_owner(owner),
            },
        }
    }
}

/// Steps as plain values.
pub open spec fn op_views(v: Seq<Op>) -> Seq<OpView> {
    v.map_values(|op: Op| op@)
}

/// What is to be done for an action once the comparison is known.
#[derive(Debug, PartialEq, Eq)]
pub enum Verdict {
    /// The target is in conflict and may not be touched: nothing is done.
    Skip,
    /// These steps are taken, in this order. With no step the action succeeds as
    /// it stands.
    Apply(Vec<Op>),
    /// This path has no parent directory that could be created: nothing is done.
    NoParent(String),
}

/// A `Verdict` as a plain value, its texts as sequences of characters.
pub enum VerdictView {
    Skip,
    Apply(Seq<OpView>),
    NoParent(Seq<char>),
}

impl View for Verdict {
    type V = VerdictView;

    open spec fn view(&self) -> VerdictView {
        match self {
            Verdict::Skip => VerdictView::Skip,
            Verdict::Apply(ops) => VerdictView::Apply(op_views(ops@)),
            Verdict::NoParent(path) => VerdictView::NoParent(path@),
        }
    }
}

/// Why an action failed.
#[derive(Debug, PartialEq, Eq)]
pub enum ActionError {
    /// The comparison itself failed.
    Compare(IoError),
    /// This path has no parent directory that could be created.
    NoParent { path: String },
    /// This step failed; the steps before it were taken, those after it were not.
    Step { op: Op, cause: IoError },
}

/// A `ActionError` as a plain value, its texts as sequences of characters.
pub enum ActionErrorView {
    Compare(IoErrorView),
    NoParent { path: Seq<char> },
    Step { op: OpView, cause: IoErrorView },
}

impl View for ActionError {
    type V = ActionErrorView;

    open spec fn view(&self) -> ActionErrorView {
        match self {
            ActionError::Compare(e) => ActionErrorView::Compare(e@),
            ActionError::NoParent { path } => ActionErrorView::NoParent { path: path@ },
            ActionError::Step { op, cause } => ActionErrorView::Step { op: op@, cause: cause@ },
        }
    }
}

/// The result of an action as a plain value.
pub open spec fn outcome_view(r: Result<bool, ActionError>) -> Result<bool, ActionErrorView> {
    match r {
        Ok(applied) => Ok(applied),
        Err(e) => Err(e@),
    }
}

/// The steps that put a symbolic link in place: make sure that the target's
/// parent directory exists, then create the link.
pub open spec fn link_ops(d: SymlinkDescriptionView, parent: Seq<char>) -> Seq<OpView> {
    seq![
        OpView::CreateDirAll { path: parent, owner: d.target.owner },
        OpView::MakeSymlink { target: d.target.target, source: d.source, owner: d.target.owner },
    ]
}

/// The steps that put a rendered template in place: make sure that the target's
/// parent directory exists, read the source, render it, make sure that the
/// parent directory of the cached artifact exists, write the artifact, copy it to
/// the target, and give the target the permissions of the source.
pub open spec fn render_ops(
    d: TemplateDescriptionView,
    target_parent: Seq<char>,
    cache_parent: Seq<char>,
) -> Seq<OpView> {
    seq![
        OpView::CreateDirAll { path: target_parent, owner: d.target.owner },
        OpView::ReadToString { path: d.source },
        OpView::Render { prepend: d.target.prepend, append: d.target.append },
        OpView::CreateDirAll { path: cache_parent, owner: None },
        OpView::Write { path: d.cache },
        OpView::CopyFile { from: d.cache, to: d.target.target, owner: d.target.owner },
        OpView::CopyPermissions { from: d.source, to: d.target.target, owner: d.target.owner },
    ]
}

/// The steps that remove what is at `path`.
pub open spec fn removal(path: Seq<char>) -> Seq<OpView> {
    seq![OpView::RemoveFile { path }]
}

/// Putting a symbolic link in place, after removing what is at the target
/// where `replace` is set.
pub open spec fn linking(
    d: SymlinkDescriptionView,
    replace: bool,
    parent: Option<Seq<char>>,
) -> VerdictView {
    match parent {
        None => VerdictView::NoParent(d.target.target),
        Some(p) => VerdictView::Apply(
            if replace {
                removal(d.target.target) + link_ops(d, p)
            } else {
                link_ops(d, p)
            },
        ),
    }
}

/// Putting a rendered template in place, after removing what is at the target
/// where `replace` is set.
pub open spec fn rendering(
    d: TemplateDescriptionView,
    replace: bool,
    target_parent: Option<Seq<char>>,
    cache_parent: Option<Seq<char>>,
) -> VerdictView {
    match (target_parent, cache_parent) {
        (None, _) => VerdictView::NoParent(d.target.target),
        (Some(_), None) => VerdictView::NoParent(d.cache),
        (Some(t), Some(c)) => VerdictView::Apply(
            if replace {
                removal(d.target.target) + render_ops(d, t, c)
            } else {
                render_ops(d, t, c)
            },
        ),
    }
}

/// Creating or updating a symbolic link. An identical link is left as it is. Where
/// the target is missing the link is put in place. Where something else is at
/// the target, it is replaced if `force` is set and left alone if not.
pub open spec fn symlink_deploy_verdict(
    d: SymlinkDescriptionView,
    comparison: SymlinkComparison,
    force: bool,
    parent: Option<Seq<char>>,
) -> VerdictView {
    match comparison {
        SymlinkComparison::Identical => VerdictView::Apply(Seq::empty()),
        SymlinkComparison::BothMissing | SymlinkComparison::OnlySourceExists => linking(
            d,
            false,
            parent,
        ),
        SymlinkComparison::OnlyTargetExists | SymlinkComparison::Mismatch => if force {
            linking(d, true, parent)
        } else {
            VerdictView::Skip
        },
    }
}

/// Creating or updating a template. A target identical to the cached artifact is
/// left as it is. Where neither exists the template is put in place. In every
/// other state the target is replaced if `force` is set and left alone if not.
pub open spec fn template_deploy_verdict(
    d: TemplateDescriptionView,
    comparison: TemplateComparison,
    force: bool,
    target_parent: Option<Seq<char>>,
    cache_parent: Option<Seq<char>>,
) -> VerdictView {
    match comparison {
        TemplateComparison::Identical => VerdictView::Apply(Seq::empty()),
        TemplateComparison::BothMissing => rendering(d, false, target_parent, cache_parent),
        _ => if force {
            rendering(d, true, target_parent, cache_parent)
        } else {
            VerdictView::Skip
        },
    }
}

/// Deleting a symbolic link. The target is removed if it still is the recorded
/// link, or if `force` is set; else it is left alone.
pub open spec fn symlink_delete_verdict(
    target: Seq<char>,
    comparison: SymlinkComparison,
    force: bool,
) -> VerdictView {
    if comparison == SymlinkComparison::Identical || force {
        VerdictView::Apply(removal(target))
    } else {
        VerdictView::Skip
    }
}

/// Deleting a template. The target and the cached artifact are removed if the
/// target still holds what the artifact holds, or if `force` is set; else both
/// are left alone.
pub open spec fn template_delete_verdict(
    target: Seq<char>,
    cache: Seq<char>,
    comparison: TemplateComparison,
    force: bool,
) -> VerdictView {
    if comparison == TemplateComparison::Identical || force {
        VerdictView::Apply(removal(target) + removal(cache))
    } else {
        VerdictView::Skip
    }
}

/// What is to be done to create or update the link `d`, given the comparison and
/// the parent directory of its target.
pub fn deploy_symlink_verdict(
    d: &SymlinkDescription,
    comparison: SymlinkComparison,
    force: bool,
    parent: Option<String>,
) -> (v: Verdict)
    ensures
        v@ == symlink_deploy_verdict(d@, comparison, force, text_view(parent)),
{
    let replace = match comparison {
        SymlinkComparison::Identical => {
            let v = Verdict::Apply(Vec::new());
            assert(op_views(Seq::<Op>::empty()) =~= Seq::empty());
            return v;
        },
        SymlinkComparison::BothMissing | SymlinkComparison::OnlySourceExists => false,
        SymlinkComparison::OnlyTargetExists | SymlinkComparison::Mismatch => {
            if !force {
                return Verdict::Skip;
            }
            true
        },
    };
    match parent {
        None => Verdict::NoParent(d.target.target.clone()),
        Some(p) => {
            let mut ops: Vec<Op> = Vec::new();
            if replace {
                ops.push(Op::RemoveFile { path: d.target.target.clone() });
            }
            ops.push(Op::CreateDirAll { path: p, owner: clone_owner(&d.target.owner) });
            ops.push(
                Op::MakeSymlink {
                    target: d.target.target.clone(),
                    source: d.source.clone(),
                    owner: clone_owner(&d.target.owner),
                },
            );
            proof {
                let expected = if replace {
                    removal(d@.target.target) + link_ops(d@, p@)
                } else {
                    link_ops(d@, p@)
                };
                assert(op_views(ops@) =~= expected);
            }
            Verdict::Apply(ops)
        },
    }
}

/// What is to be done to create or update the template `d`, given the
/// comparison and the parent directories of its target and of its cached artifact.
pub fn deploy_template_verdict(
    d: &TemplateDescription,
    comparison: TemplateComparison,
    force: bool,
    target_parent: Option<String>,
    cache_parent: Option<String>,
) -> (v: Verdict)
    ensures
        v@ == template_deploy_verdict(
            d@,
            comparison,
            force,
            text_view(target_parent),
            text_view(cache_parent),
        ),
{
    let replace = match comparison {
        TemplateComparison::Identical => {
            let v = Verdict::Apply(Vec::new());
            assert(op_views(Seq::<Op>::empty()) =~= Seq::empty());
            return v;
        },
        TemplateComparison::BothMissing => false,
        _ => {
            if !force {
                return Verdict::Skip;
            }
            true
        },
    };
    let t = match target_parent {
        None => {
            return Verdict::NoParent(d.target.target.clone());
        },
        Some(t) => t,
    };
    let c = match cache_parent {
        None => {
            return Verdict::NoParent(d.cache.clone());
        },
        Some(c) => c,
    };
    let ghost tv = t@;
    let ghost cv = c@;
    let mut ops: Vec<Op> = Vec::new();
    if replace {
        ops.push(Op::RemoveFile { path: d.target.target.clone() });
    }
    ops.push(Op::CreateDirAll { path: t, owner: clone_owner(&d.target.owner) });
    ops.push(Op::ReadToString { path: d.source.clone() });
    ops.push(
        Op::Render { prepend: clone_text(&d.target.prepend), append: clone_text(&d.target.append) },
    );
    ops.push(Op::CreateDirAll { path: c, owner: None });
    ops.push(Op::Write { path: d.cache.clone() });
    ops.push(
        Op::CopyFile {
            from: d.cache.clone(),
            to: d.target.target.clone(),
            owner: clone_owner(&d.target.owner),
        },
    );
    ops.push(
        Op::CopyPermissions {
            from: d.source.clone(),
            to: d.target.target.clone(),
            owner: clone_owner(&d.target.owner),
        },
    );
    proof {
        let expected = if replace {
            removal(d@.target.target) + render_ops(d@, tv, cv)
        } else {
            render_ops(d@, tv, cv)
        };
        assert(op_views(ops@) =~= expected);
    }
    Verdict::Apply(ops)
}

/// What is to be done to delete the link at `target`, given the comparison.
pub fn delete_symlink_verdict(target: &str, comparison: SymlinkComparison, force: bool) -> (v:
    Verdict)
    ensures
        v@ == symlink_delete_verdict(target@, comparison, force),
{
    if comparison == SymlinkComparison::Identical || force {
        let mut ops: Vec<Op> = Vec::new();
        ops.push(Op::RemoveFile { path: target.to_string() });
        assert(op_views(ops@) =~= removal(target@));
        Verdict::Apply(ops)
    } else {
        Verdict::Skip
    }
}

/// What is to be done to delete the template at `target` and its artifact at
/// `cache`, given the comparison.
pub fn delete_template_verdict(
    target: &str,
    cache: &str,
    comparison: TemplateComparison,
    force: bool,
) -> (v: Verdict)
    ensures
        v@ == template_delete_verdict(target@, cache@, comparison, force),
{
    if comparison == TemplateComparison::Identical || force {
        let mut ops: Vec<Op> = Vec::new();
        ops.push(Op::RemoveFile { path: target.to_string() });
        ops.push(Op::RemoveFile { path: cache.to_string() });
        assert(op_views(ops@) =~= removal(target@) + removal(cache@));
        Verdict::Apply(ops)
    } else {
        Verdict::Skip
    }
}

impl ActionView {
    /// The comparison that a run of the action starts with.
    pub open spec fn probe(self) -> Call {
        match self {
            ActionView::DeleteSymlink { source, target } => Call::CompareSymlink { source, target },
            ActionView::CreateSymlink(d) => Call::CompareSymlink {
                source: d.source,
                target: d.target.target,
            },
            ActionView::UpdateSymlink(d) => Call::CompareSymlink {
                source: d.source,
                target: d.target.target,
            },
            ActionView::DeleteTemplate { source, cache, target } => Call::CompareTemplate {
                target,
                cache,
            },
            ActionView::CreateTemplate(d) => Call::CompareTemplate {
                target: d.target.target,
                cache: d.cache,
            },
            ActionView::UpdateTemplate(d) => Call::CompareTemplate {
                target: d.target.target,
                cache: d.cache,
            },
        }
    }

    /// What is to be done for the action when the comparison is answered with
    /// `reply`.
    pub open spec fn verdict(self, reply: Reply, force: bool) -> VerdictView {
        match self {
            ActionView::DeleteSymlink { source, target } => symlink_delete_verdict(
                target,
                reply->Symlink_0,
                force,
            ),
            ActionView::CreateSymlink(d) => symlink_deploy_verdict(
                d,
                reply->Symlink_0,
                force,
                parent_path(d.target.target),
            ),
            ActionView::UpdateSymlink(d) => symlink_deploy_verdict(
                d,
                reply->Symlink_0,
                force,
                parent_path(d.target.target),
            ),
            ActionView::DeleteTemplate { source, cache, target } => template_delete_verdict(
                target,
                cache,
                reply->Template_0,
                force,
            ),
            ActionView::CreateTemplate(d) => template_deploy_verdict(
                d,
                reply->Template_0,
                force,
                parent_path(d.target.target),
                parent_path(d.cache),
            ),
            ActionView::UpdateTemplate(d) => template_deploy_verdict(
                d,
                reply->Template_0,
                force,
                parent_path(d.target.target),
                parent_path(d.cache),
            ),
        }
    }

    /// The cache once the action has been applied: a deletion takes the entry of
    /// its source out, a creation or an update records the target for its source.
    pub open spec fn applied_to(self, cache: CacheView) -> CacheView {
        match self {
            ActionView::DeleteSymlink { source, target } => CacheView {
                symlinks: cache.symlinks.remove(source),
                templates: cache.templates,
            },
            ActionView::DeleteTemplate { source, cache: artifact, target } => CacheView {
                symlinks: cache.symlinks,
                templates: cache.templates.remove(source),
            },
            ActionView::CreateSymlink(d) => CacheView {
                symlinks: cache.symlinks.insert(d.source, d.target.target),
                templates: cache.templates,
            },
            ActionView::UpdateSymlink(d) => CacheView {
                symlinks: cache.symlinks.insert(d.source, d.target.target),
                templates: cache.templates,
            },
            ActionView::CreateTemplate(d) => CacheView {
                symlinks: cache.symlinks,
                templates: cache.templates.insert(d.source, d.target.target),
            },
            ActionView::UpdateTemplate(d) => CacheView {
                symlinks: cache.symlinks,
                templates: cache.templates.insert(d.source, d.target.target),
            },
        }
    }
}

/// The text in hand after a reply: the text that the reply holds, if it holds
/// one, and else the text as it was.
pub open spec fn text_next(text: Seq<char>, reply: Reply) -> Seq<char> {
    match reply {
        Reply::Text(t) => t,
        _ => text,
    }
}

/// The text in hand after the exchanges of `trace`: what the last reading or
/// rendering among them yielded, and the empty text if there was none.
#[verifier::opaque]
pub open spec fn text_after(trace: Seq<Exchange>) -> Seq<char>
    decreases trace.len(),
{
    if trace.len() == 0 {
        Seq::empty()
    } else {
        text_next(text_after(trace.drop_last()), trace.last().reply)
    }
}

/// Before any exchange the text in hand is empty.
pub proof fn lemma_text_after_empty()
    ensures
        text_after(Seq::empty()) == Seq::<char>::empty(),
{
    reveal(text_after);
}

/// One more exchange leaves the text that its reply holds, or the text as it was.
pub proof fn lemma_text_after_push(trace: Seq<Exchange>, x: Exchange)
    ensures
        text_after(trace.push(x)) == text_next(text_after(trace), x.reply),
{
    reveal(text_after);
    assert(trace.push(x).drop_last() =~= trace);
}

/// The request that a step makes with `text` in hand.
pub open spec fn call_of(op: OpView, text: Seq<char>) -> Call {
    match op {
        OpView::CreateDirAll { path, owner } => Call::CreateDirAll { path, owner },
        OpView::MakeSymlink { target, source, owner } => Call::MakeSymlink {
            target,
            source,
            owner,
        },
        OpView::RemoveFile { path } => Call::RemoveFile { path },
        OpView::ReadToString { path } => Call::ReadToString { path },
        OpView::Render { prepend, append } => Call::Render {
            template: decorated(prepend, text, append),
        },
        OpView::Write { path } => Call::Write { path, content: text },
        OpView::CopyFile { from, to, owner } => Call::CopyFile { from, to, owner },
        OpView::CopyPermissions { from, to, owner } => Call::CopyPermissions { from, to, owner },
    }
}

/// `trace` is what taking the steps `ops` in order leaves behind, and `result`
/// is how that ended. Each exchange is the request of the step at its place, made
/// with the text in hand at that point, with a reply of the kind that the request
/// yields. Only the last exchange may have failed.
/// If it did, the steps after it were not taken and the result is that failure;
/// if none failed, every step was taken and the result is success.
pub open spec fn carried_out(
    ops: Seq<OpView>,
    trace: Seq<Exchange>,
    result: Result<bool, ActionErrorView>,
) -> bool {
    &&& trace.len() <= ops.len()
    &&& forall|i: int|
        0 <= i < trace.len() ==> (#[trigger] trace[i]).call == call_of(
            ops[i],
            text_after(trace.take(i)),
        )
    &&& forall|i: int| 0 <= i < trace.len() ==> answers((#[trigger] trace[i]).call, trace[i].reply)
    &&& forall|i: int| 0 <= i < trace.len() - 1 ==> !((#[trigger] trace[i]).reply is Failed)
    &&& if trace.len() > 0 && trace.last().reply is Failed {
        result == Err::<bool, ActionErrorView>(
            ActionErrorView::Step {
                op: ops[trace.len() - 1],
                cause: trace.last().reply->Failed_0,
            },
        )
    } else {
        trace.len() == ops.len() && result == Ok::<bool, ActionErrorView>(true)
    }
}

/// `trace` is what a run of `action` leaves behind, and `result` is how it ended.
/// The run starts with the action's comparison. If the comparison fails, or the
/// verdict for its answer is to skip or finds a path without a parent, nothing
/// else is asked; else the steps of the verdict are carried out.
pub open spec fn is_run(
    action: ActionView,
    force: bool,
    trace: Seq<Exchange>,
    result: Result<bool, ActionErrorView>,
) -> bool {
    &&& trace.len() >= 1
    &&& trace[0].call == action.probe()
    &&& answers(trace[0].call, trace[0].reply)
    &&& match trace[0].reply {
        Reply::Failed(e) => trace.len() == 1 && result == Err::<bool, ActionErrorView>(
            ActionErrorView::Compare(e),
        ),
        reply => match action.verdict(reply, force) {
            VerdictView::Skip => trace.len() == 1 && result == Ok::<bool, ActionErrorView>(false),
            VerdictView::NoParent(path) => trace.len() == 1 && result == Err::<
                bool,
                ActionErrorView,
            >(ActionErrorView::NoParent { path }),
            VerdictView::Apply(ops) => carried_out(ops, trace.skip(1), result),
        },
    }
}

/// Takes one step: makes its request through the session, with `text` in hand,
/// and hands back the text in hand after it.
pub fn perform<F: Filesystem>(
    session: &mut Session<F>,
    handlebars: &handlebars::Handlebars<'_>,
    variables: &Variables,
    op: &Op,
    text: String,
) -> (r: Result<String, IoError>)
    ensures
        final(session).history().len() == old(session).history().len() + 1,
        final(session).history().drop_last() == old(session).history(),
        final(session).history().last().call == call_of(op@, text@),
        answers(final(session).history().last().call, final(session).history().last().reply),
        match r {
            Ok(t) => !(final(session).history().last().reply is Failed) && t@ == text_next(
                text@,
                final(session).history().last().reply,
            ),
            Err(e) => final(session).history().last().reply == Reply::Failed(e@),
        },
{
    let ghost before = session.history();
    let r = match op {
        Op::CreateDirAll { path, owner } => match session.create_dir_all(path.as_str(), owner) {
            Ok(_) => Ok(text),
            Err(e) => Err(e),
        },
        Op::MakeSymlink { target, source, owner } => match session.make_symlink(
            target.as_str(),
            source.as_str(),
            owner,
        ) {
            Ok(_) => Ok(text),
            Err(e) => Err(e),
        },
        Op::RemoveFile { path } => match session.remove_file(path.as_str()) {
            Ok(_) => Ok(text),
            Err(e) => Err(e),
        },
        Op::ReadToString { path } => session.read_to_string(path.as_str()),
        Op::Render { prepend, append } => {
            let template = decorate(prepend, text, append);
            session.render(handlebars, template.as_str(), variables)
        },
        Op::Write { path } => match session.write(path.as_str(), text.clone()) {
            Ok(_) => Ok(text),
            Err(e) => Err(e),
        },
        Op::CopyFile { from, to, owner } => match session.copy_file(
            from.as_str(),
            to.as_str(),
            owner,
        ) {
            Ok(_) => Ok(text),
            Err(e) => Err(e),
        },
        Op::CopyPermissions { from, to, owner } => match session.copy_permissions(
            from.as_str(),
            to.as_str(),
            owner,
        ) {
            Ok(_) => Ok(text),
            Err(e) => Err(e),
        },
    };
    proof {
        assert(session.history().drop_last() =~= before);
    }
    r
}

/// Takes the steps `ops` in order, up to the first that fails.
pub fn carry_out<F: Filesystem>(
    session: &mut Session<F>,
    handlebars: &handlebars::Handlebars<'_>,
    variables: &Variables,
    ops: &Vec<Op>,
) -> (result: Result<bool, ActionError>)
    ensures
        old(session).history().is_prefix_of(final(session).history()),
        carried_out(
            op_views(ops@),
            final(session).history().skip(old(session).history().len() as int),
            outcome_view(result),
        ),
{
    let ghost start = session.history();
    let ghost mut done: Seq<Exchange> = Seq::empty();
    let mut text = String::new();
    let mut i: usize = 0;
    proof {
        assert(start + done =~= start);
        lemma_text_after_empty();
    }
    while i < ops.len()
        invariant
            i <= ops@.len(),
            done.len() == i,
            start == old(session).history(),
            session.history() == start + done,
            text@ == text_after(done),
            forall|k: int|
                0 <= k < done.len() ==> (#[trigger] done[k]).call == call_of(
                    op_views(ops@)[k],
                    text_after(done.take(k)),
                ),
            forall|k: int| 0 <= k < done.len() ==> answers((#[trigger] done[k]).call, done[k].reply),
            forall|k: int| 0 <= k < done.len() ==> !((#[trigger] done[k]).reply is Failed),
        decreases ops@.len() - i,
    {
        let ghost before = session.history();
        let step = perform(session, handlebars, variables, &ops[i], text);
        proof {
            let x = session.history().last();
            let next = done.push(x);
            assert(session.history() =~= before.push(x));
            assert(session.history() =~= start + next);
            lemma_text_after_push(done, x);
            assert forall|k: int| 0 <= k < next.len() implies (#[trigger] next[k]).call == call_of(
                op_views(ops@)[k],
                text_after(next.take(k)),
            ) by {
                if k < done.len() {
                    assert(next.take(k) =~= done.take(k));
                } else {
                    assert(next.take(k) =~= done);
                }
            }
            assert((start + next).skip(start.len() as int) =~= next);
            done = next;
        }
        match step {
            Ok(t) => {
                text = t;
            },
            Err(cause) => {
                let failure = ActionError::Step { op: ops[i].clone(), cause };
                proof {
                    assert(session.history().skip(start.len() as int) =~= done);
                    assert(done.last().reply == Reply::Failed(cause@));
                    assert(failure@ == ActionErrorView::Step {
                        op: op_views(ops@)[done.len() - 1],
                        cause: cause@,
                    });
                }
                return Err(failure);
            },
        }
        i += 1;
    }
    proof {
        assert((start + done).skip(start.len() as int) =~= done);
    }
    Ok(true)
}

/// A run that ends with its comparison.
proof fn lemma_run_stopped(
    action: ActionView,
    force: bool,
    start: Seq<Exchange>,
    first: Exchange,
    result: Result<bool, ActionErrorView>,
)
    requires
        first.call == action.probe(),
        answers(first.call, first.reply),
        match first.reply {
            Reply::Failed(e) => result == Err::<bool, ActionErrorView>(ActionErrorView::Compare(e)),
            reply => match action.verdict(reply, force) {
                VerdictView::Skip => result == Ok::<bool, ActionErrorView>(false),
                VerdictView::NoParent(path) => result == Err::<bool, ActionErrorView>(
                    ActionErrorView::NoParent { path },
                ),
                VerdictView::Apply(ops) => false,
            },
        },
    ensures
        start.is_prefix_of(start.push(first)),
        is_run(action, force, start.push(first).skip(start.len() as int), result),
{
    assert(start.push(first).skip(start.len() as int) =~= seq![first]);
}

/// A run that goes on to carry out the steps of its verdict.
proof fn lemma_run_applied(
    action: ActionView,
    force: bool,
    start: Seq<Exchange>,
    first: Exchange,
    all: Seq<Exchange>,
    ops: Seq<OpView>,
    result: Result<bool, ActionErrorView>,
)
    requires
        first.call == action.probe(),
        answers(first.call, first.reply),
        !(first.reply is Failed),
        action.verdict(first.reply, force) == VerdictView::Apply(ops),
        start.push(first).is_prefix_of(all),
        carried_out(ops, all.skip(start.len() as int + 1), result),
    ensures
        start.is_prefix_of(all),
        is_run(action, force, all.skip(start.len() as int), result),
{
    let trace = all.skip(start.len() as int);
    assert(trace[0] == start.push(first)[start.len() as int]);
    assert(trace.skip(1) =~= all.skip(start.len() as int + 1));
}

impl Action {
    /// Makes the comparison that the action starts with and hands back the
    /// verdict for its answer.
    pub fn compare<F: Filesystem>(&self, session: &mut Session<F>, force: bool) -> (r: Result<
        Verdict,
        IoError,
    >)
        ensures
            final(session).history().len() == old(session).history().len() + 1,
            final(session).history().drop_last() == old(session).history(),
            final(session).history().last().call == self@.probe(),
            answers(final(session).history().last().call, final(session).history().last().reply),
            match r {
                Ok(v) => !(final(session).history().last().reply is Failed) && v@
                    == self@.verdict(final(session).history().last().reply, force),
                Err(e) => final(session).history().last().reply == Reply::Failed(e@),
            },
    {
        let ghost before = session.history();
        let r = match self {
            Action::DeleteSymlink { source, target } => {
                match session.compare_symlink(source.as_str(), target.as_str()) {
                    Ok(c) => Ok(delete_symlink_verdict(target.as_str(), c, force)),
                    Err(e) => Err(e),
                }
            },
            Action::CreateSymlink(d) => {
                match session.compare_symlink(d.source.as_str(), d.target.target.as_str()) {
                    Ok(c) => Ok(
                        deploy_symlink_verdict(d, c, force, parent(d.target.target.as_str())),
                    ),
                    Err(e) => Err(e),
                }
            },
            Action::UpdateSymlink(d) => {
                match session.compare_symlink(d.source.as_str(), d.target.target.as_str()) {
                    Ok(c) => Ok(
                        deploy_symlink_verdict(d, c, force, parent(d.target.target.as_str())),
                    ),
                    Err(e) => Err(e),
                }
            },
            Action::DeleteTemplate { source, cache, target } => {
                match session.compare_template(target.as_str(), cache.as_str()) {
                    Ok(c) => Ok(delete_template_verdict(target.as_str(), cache.as_str(), c, force)),
                    Err(e) => Err(e),
                }
            },
            Action::CreateTemplate(d) => {
                match session.compare_template(d.target.target.as_str(), d.cache.as_str()) {
                    Ok(c) => Ok(
                        deploy_template_verdict(
                            d,
                            c,
                            force,
                            parent(d.target.target.as_str()),
                            parent(d.cache.as_str()),
                        ),
                    ),
                    Err(e) => Err(e),
                }
            },
            Action::UpdateTemplate(d) => {
                match session.compare_template(d.target.target.as_str(), d.cache.as_str()) {
                    Ok(c) => Ok(
                        deploy_template_verdict(
                            d,
                            c,
                            force,
                            parent(d.target.target.as_str()),
                            parent(d.cache.as_str()),
                        ),
                    ),
                    Err(e) => Err(e),
                }
            },
        };
        proof {
            assert(session.history().drop_last() =~= before);
        }
        r
    }

    /// Runs the action: compares what is on disk with what is expected, decides
    /// what is to be done, and does it. The result is `Ok(true)` when the action
    /// holds on disk afterwards and the cache is to record it, `Ok(false)` when
    /// the action was skipped for a conflict that only `force` overrides.
    pub fn run<F: Filesystem>(
        &self,
        session: &mut Session<F>,
        opt: &Options,
        handlebars: &handlebars::Handlebars<'_>,
        variables: &Variables,
    ) -> (result: Result<bool, ActionError>)
        ensures
            old(session).history().is_prefix_of(final(session).history()),
            is_run(
                self@,
                opt.force,
                final(session).history().skip(old(session).history().len() as int),
                outcome_view(result),
            ),
    {
        let ghost start = session.history();
        let compared = self.compare(session, opt.force);
        let ghost first = session.history().last();
        proof {
            assert(session.history() =~= start.push(first));
        }
        let verdict = match compared {
            Ok(v) => v,
            Err(e) => {
                proof {
                    lemma_run_stopped(self@, opt.force, start, first, Err(ActionErrorView::Compare(e@)));
                }
                return Err(ActionError::Compare(e));
            },
        };
        match verdict {
            Verdict::Skip => {
                proof {
                    lemma_run_stopped(self@, opt.force, start, first, Ok(false));
                }
                Ok(false)
            },
            Verdict::NoParent(path) => {
                proof {
                    lemma_run_stopped(
                        self@,
                        opt.force,
                        start,
                        first,
                        Err(ActionErrorView::NoParent { path: path@ }),
                    );
                }
                Err(ActionError::NoParent { path })
            },
            Verdict::Apply(ops) => {
                let result = carry_out(session, handlebars, variables, &ops);
                proof {
                    lemma_run_applied(
                        self@,
                        opt.force,
                        start,
                        first,
                        session.history(),
                        op_views(ops@),
                        outcome_view(result),
                    );
                }
                result
            },
        }
    }

    /// Records in the cache that the action was applied.
    pub fn affect_cache(&self, cache: &mut Cache)
        ensures
            final(cache)@ == self@.applied_to(old(cache)@),
    {
        match self {
            Action::DeleteSymlink { source, target } => {
                cache.symlinks.remove(source.as_str());
            },
            Action::DeleteTemplate { source, cache: artifact, target } => {
                cache.templates.remove(source.as_str());
            },
            Action::CreateSymlink(d) => {
                cache.symlinks.insert(d.source.clone(), d.target.target.clone());
            },
            Action::UpdateSymlink(d) => {
                cache.symlinks.insert(d.source.clone(), d.target.target.clone());
            },
            Action::CreateTemplate(d) => {
                cache.templates.insert(d.source.clone(), d.target.target.clone());
            },
            Action::UpdateTemplate(d) => {
                cache.templates.insert(d.source.clone(), d.target.target.clone());
            },
        }
    }
}

} // verus!
