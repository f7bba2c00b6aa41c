//! What holds of every plan and of every run, stated over the models that the
//! contracts of the planner and of the actions use.

use crate::actions::{
    is_run, link_ops, removal, render_ops, ActionErrorView, ActionView, OpView, VerdictView,
};
use crate::config::CacheView;
use crate::deploy::{
    cache_after, plan_of, symlink_action, symlink_deletion, symlink_phase, template_action,
    template_deletion, template_phase, undeploy_plan_of, Change,
};
use crate::path_map::{ascending, entries_map, holds_key, index_of_key, lemma_entries_map};
use crate::file_state::{
    distinct_symlink_sources, distinct_template_sources, existing_covers, existing_symlinks_of,
    existing_templates_of, has_symlink, has_symlink_source, has_template, has_template_source,
    FileStateView, SymlinkDescriptionView, TemplateDescriptionView,
};
use crate::filesystem::{Exchange, Reply, SymlinkComparison, TemplateComparison};
use crate::paths::parent_path;
use crate::sequences::{lemma_filter_all, lemma_filter_none};
use vstd::prelude::*;

verus! {

/// The phase of a plan that an action belongs to: deletions of links, deletions
/// of templates, creations of links, creations of templates, updates of links,
/// updates of templates.
pub open spec fn phase(action: ActionView) -> nat {
    match action {
        ActionView::DeleteSymlink { .. } => 0,
        ActionView::DeleteTemplate { .. } => 1,
        ActionView::CreateSymlink(_) => 2,
        ActionView::CreateTemplate(_) => 3,
        ActionView::UpdateSymlink(_) => 4,
        ActionView::UpdateTemplate(_) => 5,
    }
}

/// The number of a kind of change among the three.
pub open spec fn rank_of(change: Change) -> nat {
    match change {
        Change::Delete => 0,
        Change::Create => 1,
        Change::Update => 2,
    }
}

/// Every action of a phase for symbolic links makes the change of that phase to
/// an entry of `from`.
proof fn lemma_symlink_phase_members(
    change: Change,
    from: Seq<SymlinkDescriptionView>,
    other: Seq<SymlinkDescriptionView>,
)
    ensures
        forall|i: int|
            0 <= i < symlink_phase(change, from, other).len() ==> phase(
                #[trigger] symlink_phase(change, from, other)[i],
            ) == 2 * rank_of(change),
{
}

/// Every action of a phase for templates makes the change of that phase to an
/// entry of `from`.
proof fn lemma_template_phase_members(
    change: Change,
    from: Seq<TemplateDescriptionView>,
    other: Seq<TemplateDescriptionView>,
)
    ensures
        forall|i: int|
            0 <= i < template_phase(change, from, other).len() ==> phase(
                #[trigger] template_phase(change, from, other)[i],
            ) == 2 * rank_of(change) + 1,
{
}

/// The phases of a plan follow one another: every deletion comes before every
/// creation, every creation before every update, and within each of the three
/// every symbolic link before every template. So a path that one entry vacates is
/// free before another entry is created at it.
pub proof fn lemma_plan_is_phased(state: FileStateView)
    ensures
        forall|i: int, j: int|
            0 <= i < j < plan_of(state).len() ==> phase(#[trigger] plan_of(state)[i]) <= phase(
                #[trigger] plan_of(state)[j],
            ),
{
    lemma_symlink_phase_members(Change::Delete, state.existing_symlinks, state.desired_symlinks);
    lemma_template_phase_members(
        Change::Delete,
        state.existing_templates,
        state.desired_templates,
    );
    lemma_symlink_phase_members(Change::Create, state.desired_symlinks, state.existing_symlinks);
    lemma_template_phase_members(
        Change::Create,
        state.desired_templates,
        state.existing_templates,
    );
    lemma_symlink_phase_members(Change::Update, state.desired_symlinks, state.existing_symlinks);
    lemma_template_phase_members(
        Change::Update,
        state.desired_templates,
        state.existing_templates,
    );
}

/// Of a sequence, the elements that are selected and those that are not add up
/// to the whole.
proof fn lemma_filter_split<A>(s: Seq<A>, keep: spec_fn(A) -> bool, drop: spec_fn(A) -> bool)
    requires
        forall|x: A| #[trigger] keep(x) == !drop(x),
    ensures
        s.filter(keep).len() + s.filter(drop).len() == s.len(),
    decreases s.len(),
{
    reveal(Seq::filter);
    if s.len() > 0 {
        lemma_filter_split(s.drop_last(), keep, drop);
    }
}

/// Every desired entry is handled once: the creations and the updates of a plan
/// together are as many as the desired entries, and the deletions and the
/// updates as many as the existing ones, for symbolic links and for templates.
pub proof fn lemma_plan_handles_each_entry_once(state: FileStateView)
    ensures
        symlink_phase(Change::Create, state.desired_symlinks, state.existing_symlinks).len()
            + symlink_phase(Change::Update, state.desired_symlinks, state.existing_symlinks).len()
            == state.desired_symlinks.len(),
        template_phase(Change::Create, state.desired_templates, state.existing_templates).len()
            + template_phase(
            Change::Update,
            state.desired_templates,
            state.existing_templates,
        ).len() == state.desired_templates.len(),
        symlink_phase(Change::Delete, state.existing_symlinks, state.desired_symlinks).len()
            + symlink_phase(Change::Update, state.existing_symlinks, state.desired_symlinks).len()
            == state.existing_symlinks.len(),
        template_phase(Change::Delete, state.existing_templates, state.desired_templates).len()
            + template_phase(
            Change::Update,
            state.existing_templates,
            state.desired_templates,
        ).len() == state.existing_templates.len(),
        plan_of(state).len() == symlink_phase(
            Change::Delete,
            state.existing_symlinks,
            state.desired_symlinks,
        ).len() + template_phase(
            Change::Delete,
            state.existing_templates,
            state.desired_templates,
        ).len() + state.desired_symlinks.len() + state.desired_templates.len(),
{
    let ds = state.desired_symlinks;
    let es = state.existing_symlinks;
    let dt = state.desired_templates;
    let et = state.existing_templates;
    lemma_filter_split(
        ds,
        |d: SymlinkDescriptionView| has_symlink(es, d) == (Change::Create == Change::Update),
        |d: SymlinkDescriptionView| has_symlink(es, d) == (Change::Update == Change::Update),
    );
    lemma_filter_split(
        dt,
        |d: TemplateDescriptionView| has_template(et, d) == (Change::Create == Change::Update),
        |d: TemplateDescriptionView| has_template(et, d) == (Change::Update == Change::Update),
    );
    lemma_filter_split(
        es,
        |d: SymlinkDescriptionView| has_symlink(ds, d) == (Change::Delete == Change::Update),
        |d: SymlinkDescriptionView| has_symlink(ds, d) == (Change::Update == Change::Update),
    );
    lemma_filter_split(
        et,
        |d: TemplateDescriptionView| has_template(dt, d) == (Change::Delete == Change::Update),
        |d: TemplateDescriptionView| has_template(dt, d) == (Change::Update == Change::Update),
    );
}

/// The same change for every symbolic link of `set`, in its order.
pub open spec fn all_symlinks(change: Change, set: Seq<SymlinkDescriptionView>) -> Seq<
    ActionView,
> {
    set.map_values(|d: SymlinkDescriptionView| symlink_action(change, d))
}

/// The same change for every template of `set`, in its order.
pub open spec fn all_templates(change: Change, set: Seq<TemplateDescriptionView>) -> Seq<
    ActionView,
> {
    set.map_values(|d: TemplateDescriptionView| template_action(change, d))
}

/// No entry is both desired and existing.
pub open spec fn disjoint(state: FileStateView) -> bool {
    &&& forall|i: int|
        0 <= i < state.desired_symlinks.len() ==> !has_symlink(
            state.existing_symlinks,
            #[trigger] state.desired_symlinks[i],
        )
    &&& forall|i: int|
        0 <= i < state.desired_templates.len() ==> !has_template(
            state.existing_templates,
            #[trigger] state.desired_templates[i],
        )
}

/// Every desired entry exists and every existing entry is desired.
pub open spec fn identical(state: FileStateView) -> bool {
    &&& forall|i: int|
        0 <= i < state.desired_symlinks.len() ==> has_symlink(
            state.existing_symlinks,
            #[trigger] state.desired_symlinks[i],
        )
    &&& forall|i: int|
        0 <= i < state.existing_symlinks.len() ==> has_symlink(
            state.desired_symlinks,
            #[trigger] state.existing_symlinks[i],
        )
    &&& forall|i: int|
        0 <= i < state.desired_templates.len() ==> has_template(
            state.existing_templates,
            #[trigger] state.desired_templates[i],
        )
    &&& forall|i: int|
        0 <= i < state.existing_templates.len() ==> has_template(
            state.desired_templates,
            #[trigger] state.existing_templates[i],
        )
}

/// Where no entry is both desired and existing, the plan updates nothing: it
/// deletes every existing entry and then creates every desired one, symbolic
/// links before templates. Where nothing exists, it holds creations only.
pub proof fn lemma_disjoint_plan(state: FileStateView)
    requires
        disjoint(state),
    ensures
        plan_of(state) == all_symlinks(Change::Delete, state.existing_symlinks) + all_templates(
            Change::Delete,
            state.existing_templates,
        ) + all_symlinks(Change::Create, state.desired_symlinks) + all_templates(
            Change::Create,
            state.desired_templates,
        ),
        state.existing_symlinks.len() == 0 && state.existing_templates.len() == 0 ==> plan_of(
            state,
        ) == all_symlinks(Change::Create, state.desired_symlinks) + all_templates(
            Change::Create,
            state.desired_templates,
        ),
{
    let ds = state.desired_symlinks;
    let es = state.existing_symlinks;
    let dt = state.desired_templates;
    let et = state.existing_templates;
    assert forall|i: int| 0 <= i < es.len() implies !has_symlink(ds, #[trigger] es[i]) by {
        if has_symlink(ds, es[i]) {
            let j = choose|j: int| 0 <= j < ds.len() && (#[trigger] ds[j]).same_entry(es[i]);
            assert(es[i].same_entry(ds[j]));
            assert(has_symlink(es, ds[j]));
        }
    }
    assert forall|i: int| 0 <= i < et.len() implies !has_template(dt, #[trigger] et[i]) by {
        if has_template(dt, et[i]) {
            let j = choose|j: int| 0 <= j < dt.len() && (#[trigger] dt[j]).same_entry(et[i]);
            assert(et[i].same_entry(dt[j]));
            assert(has_template(et, dt[j]));
        }
    }
    lemma_filter_all(es, |d: SymlinkDescriptionView| has_symlink(ds, d) == (Change::Delete == Change::Update));
    lemma_filter_all(et, |d: TemplateDescriptionView| has_template(dt, d) == (Change::Delete == Change::Update));
    lemma_filter_all(ds, |d: SymlinkDescriptionView| has_symlink(es, d) == (Change::Create == Change::Update));
    lemma_filter_all(dt, |d: TemplateDescriptionView| has_template(et, d) == (Change::Create == Change::Update));
    lemma_filter_none(ds, |d: SymlinkDescriptionView| has_symlink(es, d) == (Change::Update == Change::Update));
    lemma_filter_none(dt, |d: TemplateDescriptionView| has_template(et, d) == (Change::Update == Change::Update));
    assert(symlink_phase(Change::Update, ds, es) =~= Seq::empty());
    assert(template_phase(Change::Update, dt, et) =~= Seq::empty());
    let creations = all_symlinks(Change::Create, ds) + all_templates(Change::Create, dt);
    let deletions = all_symlinks(Change::Delete, es) + all_templates(Change::Delete, et);
    assert(plan_of(state) =~= deletions + all_symlinks(Change::Create, ds) + all_templates(
        Change::Create,
        dt,
    ));
    if es.len() == 0 && et.len() == 0 {
        assert(deletions =~= Seq::empty());
        assert(plan_of(state) =~= creations);
    }
}

/// Where the desired and the existing entries are the same, the plan holds
/// updates only: one for every desired entry, symbolic links before templates.
pub proof fn lemma_identical_plan(state: FileStateView)
    requires
        identical(state),
    ensures
        plan_of(state) == all_symlinks(Change::Update, state.desired_symlinks) + all_templates(
            Change::Update,
            state.desired_templates,
        ),
{
    let ds = state.desired_symlinks;
    let es = state.existing_symlinks;
    let dt = state.desired_templates;
    let et = state.existing_templates;
    lemma_filter_none(es, |d: SymlinkDescriptionView| has_symlink(ds, d) == (Change::Delete == Change::Update));
    lemma_filter_none(et, |d: TemplateDescriptionView| has_template(dt, d) == (Change::Delete == Change::Update));
    lemma_filter_none(ds, |d: SymlinkDescriptionView| has_symlink(es, d) == (Change::Create == Change::Update));
    lemma_filter_none(dt, |d: TemplateDescriptionView| has_template(et, d) == (Change::Create == Change::Update));
    lemma_filter_all(ds, |d: SymlinkDescriptionView| has_symlink(es, d) == (Change::Update == Change::Update));
    lemma_filter_all(dt, |d: TemplateDescriptionView| has_template(et, d) == (Change::Update == Change::Update));
    assert(symlink_phase(Change::Delete, es, ds) =~= Seq::empty());
    assert(template_phase(Change::Delete, et, dt) =~= Seq::empty());
    assert(symlink_phase(Change::Create, ds, es) =~= Seq::empty());
    assert(template_phase(Change::Create, dt, et) =~= Seq::empty());
    assert(plan_of(state) =~= all_symlinks(Change::Update, ds) + all_templates(Change::Update, dt));
}

/// The reply that finds the target of `action` identical to what is expected.
pub open spec fn identical_reply(action: ActionView) -> Reply {
    match action {
        ActionView::DeleteSymlink { .. } => Reply::Symlink(SymlinkComparison::Identical),
        ActionView::CreateSymlink(_) => Reply::Symlink(SymlinkComparison::Identical),
        ActionView::UpdateSymlink(_) => Reply::Symlink(SymlinkComparison::Identical),
        _ => Reply::Template(TemplateComparison::Identical),
    }
}

/// The reply that finds only the target of `action` to exist.
pub open spec fn only_target_reply(action: ActionView) -> Reply {
    match action {
        ActionView::DeleteSymlink { .. } => Reply::Symlink(SymlinkComparison::OnlyTargetExists),
        ActionView::CreateSymlink(_) => Reply::Symlink(SymlinkComparison::OnlyTargetExists),
        ActionView::UpdateSymlink(_) => Reply::Symlink(SymlinkComparison::OnlyTargetExists),
        _ => Reply::Template(TemplateComparison::OnlyTargetExists),
    }
}

/// The path at which `action` deploys or deletes.
pub open spec fn target_of(action: ActionView) -> Seq<char> {
    match action {
        ActionView::DeleteSymlink { source, target } => target,
        ActionView::DeleteTemplate { source, cache, target } => target,
        ActionView::CreateSymlink(d) => d.target.target,
        ActionView::UpdateSymlink(d) => d.target.target,
        ActionView::CreateTemplate(d) => d.target.target,
        ActionView::UpdateTemplate(d) => d.target.target,
    }
}

/// The source whose cache entry `action` changes.
pub open spec fn source_of(action: ActionView) -> Seq<char> {
    match action {
        ActionView::DeleteSymlink { source, target } => source,
        ActionView::DeleteTemplate { source, cache, target } => source,
        ActionView::CreateSymlink(d) => d.source,
        ActionView::UpdateSymlink(d) => d.source,
        ActionView::CreateTemplate(d) => d.source,
        ActionView::UpdateTemplate(d) => d.source,
    }
}

/// The cache records the target of `action` for its source.
pub open spec fn records(cache: CacheView, action: ActionView) -> bool {
    match action {
        ActionView::DeleteSymlink { .. } | ActionView::CreateSymlink(_) | ActionView::UpdateSymlink(
            _,
        ) => cache.symlinks.contains_key(source_of(action)) && cache.symlinks[source_of(action)]
            == target_of(action),
        _ => cache.templates.contains_key(source_of(action)) && cache.templates[source_of(action)]
            == target_of(action),
    }
}

/// A creation or an update that finds its target identical to what is expected
/// changes nothing: the run asks the comparison and nothing else, it succeeds,
/// and a cache that records the entry already is the same after the action is
/// applied to it.
pub proof fn lemma_identical_is_noop(
    action: ActionView,
    force: bool,
    trace: Seq<Exchange>,
    result: Result<bool, ActionErrorView>,
    cache: CacheView,
)
    requires
        !(action is DeleteSymlink),
        !(action is DeleteTemplate),
        is_run(action, force, trace, result),
        trace[0].reply == identical_reply(action),
    ensures
        trace.len() == 1,
        result == Ok::<bool, ActionErrorView>(true),
        records(cache, action) ==> action.applied_to(cache) == cache,
{
    assert(action.verdict(trace[0].reply, force) == VerdictView::Apply(Seq::empty()));
    if records(cache, action) {
        let after = action.applied_to(cache);
        assert(after.symlinks =~= cache.symlinks);
        assert(after.templates =~= cache.templates);
    }
}

/// Force-gating. Where the comparison finds only the target to exist, no action
/// touches it unless `force` is set: the verdict is to skip. With `force` the
/// verdict is never to skip, and where steps are taken the first of them removes
/// the target; a creation or an update then puts the entry in place.
pub proof fn lemma_force_gates_conflict(action: ActionView)
    ensures
        action.verdict(only_target_reply(action), false) == VerdictView::Skip,
        !(action.verdict(only_target_reply(action), true) is Skip),
        match action.verdict(only_target_reply(action), true) {
            VerdictView::Apply(ops) => ops.len() > 0 && ops[0] == OpView::RemoveFile {
                path: target_of(action),
            },
            _ => true,
        },
        match action {
            ActionView::CreateSymlink(d) | ActionView::UpdateSymlink(d) => parent_path(
                d.target.target,
            ) is Some ==> action.verdict(only_target_reply(action), true) == VerdictView::Apply(
                removal(d.target.target) + link_ops(d, parent_path(d.target.target).unwrap()),
            ),
            ActionView::CreateTemplate(d) | ActionView::UpdateTemplate(d) => parent_path(
                d.target.target,
            ) is Some && parent_path(d.cache) is Some ==> action.verdict(
                only_target_reply(action),
                true,
            ) == VerdictView::Apply(
                removal(d.target.target) + render_ops(
                    d,
                    parent_path(d.target.target).unwrap(),
                    parent_path(d.cache).unwrap(),
                ),
            ),
            _ => true,
        },
{
}

/// A run that is skipped asks the comparison and nothing else, so the target is
/// not touched, and it ends without success.
pub proof fn lemma_skip_touches_nothing(
    action: ActionView,
    force: bool,
    trace: Seq<Exchange>,
    result: Result<bool, ActionErrorView>,
)
    requires
        is_run(action, force, trace, result),
        !(trace[0].reply is Failed),
        action.verdict(trace[0].reply, force) == VerdictView::Skip,
    ensures
        trace.len() == 1,
        result == Ok::<bool, ActionErrorView>(false),
{
}

/// The cache changes on success only: after one more action, the cache is what
/// it was before that action if the action was skipped or failed, and has the
/// action applied to it if the action succeeded.
pub proof fn lemma_cache_follows_success(
    cache: CacheView,
    plan: Seq<ActionView>,
    outcomes: Seq<Result<bool, ActionErrorView>>,
    action: ActionView,
    outcome: Result<bool, ActionErrorView>,
)
    requires
        plan.len() == outcomes.len(),
    ensures
        cache_after(cache, plan.push(action), outcomes.push(outcome)) == if outcome == Ok::<
            bool,
            ActionErrorView,
        >(true) {
            action.applied_to(cache_after(cache, plan, outcomes))
        } else {
            cache_after(cache, plan, outcomes)
        },
{
    assert(plan.push(action).drop_last() =~= plan);
    assert(outcomes.push(outcome).drop_last() =~= outcomes);
}

/// Whether `action` is about a symbolic link, not a template.
pub open spec fn is_link_action(action: ActionView) -> bool {
    action is DeleteSymlink || action is CreateSymlink || action is UpdateSymlink
}

/// What applying `action` does to the entry that the cache has for `key` among
/// the symbolic links (`links`) or among the templates (not `links`): nothing,
/// or taking it out, or setting it to a target.
pub open spec fn effect(action: ActionView, links: bool, key: Seq<char>) -> Option<
    Option<Seq<char>>,
> {
    if is_link_action(action) != links || source_of(action) != key {
        None
    } else if action is DeleteSymlink || action is DeleteTemplate {
        Some(None)
    } else {
        Some(Some(target_of(action)))
    }
}

/// The symbolic links of a cache, or its templates.
pub open spec fn side(cache: CacheView, links: bool) -> Map<Seq<char>, Seq<char>> {
    if links {
        cache.symlinks
    } else {
        cache.templates
    }
}

/// The entry that a map has for `key`, if any.
pub open spec fn lookup(map: Map<Seq<char>, Seq<char>>, key: Seq<char>) -> Option<Seq<char>> {
    if map.contains_key(key) {
        Some(map[key])
    } else {
        None
    }
}

/// The entry for `key` once every action of `plan` has been applied in order,
/// where it was `before`: what the last action that touches it leaves.
pub open spec fn entry_after(
    plan: Seq<ActionView>,
    links: bool,
    key: Seq<char>,
    before: Option<Seq<char>>,
) -> Option<Seq<char>>
    decreases plan.len(),
{
    if plan.len() == 0 {
        before
    } else {
        match effect(plan.last(), links, key) {
            Some(entry) => entry,
            None => entry_after(plan.drop_last(), links, key, before),
        }
    }
}

/// Every action succeeded.
pub open spec fn all_succeeded(outcomes: Seq<Result<bool, ActionErrorView>>) -> bool {
    forall|i: int| 0 <= i < outcomes.len() ==> #[trigger] outcomes[i] == Ok::<bool, ActionErrorView>(true)
}

/// After a plan of which every action succeeded, the cache holds for each key
/// what the last action that touches the key leaves.
pub proof fn lemma_cache_after_pointwise(
    cache: CacheView,
    plan: Seq<ActionView>,
    outcomes: Seq<Result<bool, ActionErrorView>>,
    links: bool,
    key: Seq<char>,
)
    requires
        outcomes.len() == plan.len(),
        all_succeeded(outcomes),
    ensures
        lookup(side(cache_after(cache, plan, outcomes), links), key) == entry_after(
            plan,
            links,
            key,
            lookup(side(cache, links), key),
        ),
    decreases plan.len(),
{
    if plan.len() > 0 {
        lemma_cache_after_pointwise(cache, plan.drop_last(), outcomes.drop_last(), links, key);
        assert(outcomes.last() == Ok::<bool, ActionErrorView>(true));
    }
}

/// Applying one plan after another.
pub proof fn lemma_entry_after_concat(
    first: Seq<ActionView>,
    second: Seq<ActionView>,
    links: bool,
    key: Seq<char>,
    before: Option<Seq<char>>,
)
    ensures
        entry_after(first + second, links, key, before) == entry_after(
            second,
            links,
            key,
            entry_after(first, links, key, before),
        ),
    decreases second.len(),
{
    if second.len() == 0 {
        assert(first + second =~= first);
    } else {
        assert((first + second).drop_last() =~= first + second.drop_last());
        lemma_entry_after_concat(first, second.drop_last(), links, key, before);
    }
}

/// Where every action of a plan that touches the entry for `key` leaves it the
/// same way, the entry is left that way if any action touches it, and is as it was
/// if none does.
pub proof fn lemma_entry_after_settled(
    plan: Seq<ActionView>,
    links: bool,
    key: Seq<char>,
    before: Option<Seq<char>>,
    entry: Option<Seq<char>>,
)
    requires
        forall|i: int|
            0 <= i < plan.len() ==> effect(#[trigger] plan[i], links, key) is None || effect(
                plan[i],
                links,
                key,
            ) == Some(entry),
    ensures
        entry_after(plan, links, key, before) == if exists|i: int|
            0 <= i < plan.len() && effect(#[trigger] plan[i], links, key) is Some {
            entry
        } else {
            before
        },
    decreases plan.len(),
{
    if plan.len() > 0 {
        let rest = plan.drop_last();
        assert forall|i: int| 0 <= i < rest.len() implies effect(
            #[trigger] rest[i],
            links,
            key,
        ) is None || effect(rest[i], links, key) == Some(entry) by {
            assert(rest[i] == plan[i]);
        }
        lemma_entry_after_settled(rest, links, key, before, entry);
        if effect(plan.last(), links, key) is Some {
            assert(effect(plan[plan.len() - 1], links, key) is Some);
        } else {
            if exists|i: int| 0 <= i < plan.len() && effect(#[trigger] plan[i], links, key) is Some {
                let i = choose|i: int|
                    0 <= i < plan.len() && effect(#[trigger] plan[i], links, key) is Some;
                assert(rest[i] == plan[i]);
            }
            if exists|i: int| 0 <= i < rest.len() && effect(#[trigger] rest[i], links, key) is Some {
                let i = choose|i: int|
                    0 <= i < rest.len() && effect(#[trigger] rest[i], links, key) is Some;
                assert(rest[i] == plan[i]);
            }
        }
    }
}

/// Taking everything down empties the cache: the plan holds one deletion for
/// each entry of the cache, and once all of them have succeeded the cache
/// records nothing.
pub proof fn lemma_undeploy_empties_cache(
    cache: CacheView,
    symlinks: Seq<(Seq<char>, Seq<char>)>,
    templates: Seq<(Seq<char>, Seq<char>)>,
    cache_directory: Seq<char>,
    outcomes: Seq<Result<bool, ActionErrorView>>,
)
    requires
        cache.symlinks == entries_map(symlinks),
        cache.templates == entries_map(templates),
        outcomes.len() == symlinks.len() + templates.len(),
        all_succeeded(outcomes),
    ensures
        undeploy_plan_of(symlinks, templates, cache_directory).len() == symlinks.len()
            + templates.len(),
        forall|i: int|
            0 <= i < symlinks.len() ==> #[trigger] undeploy_plan_of(
                symlinks,
                templates,
                cache_directory,
            )[i] == symlink_deletion(symlinks[i]),
        forall|i: int|
            0 <= i < templates.len() ==> #[trigger] undeploy_plan_of(
                symlinks,
                templates,
                cache_directory,
            )[symlinks.len() + i] == template_deletion(templates[i], cache_directory),
        cache_after(cache, undeploy_plan_of(symlinks, templates, cache_directory), outcomes)
            == CacheView::empty(),
{
    let plan = undeploy_plan_of(symlinks, templates, cache_directory);
    let after = cache_after(cache, plan, outcomes);
    let gone: Option<Seq<char>> = None;
    assert forall|i: int| 0 <= i < symlinks.len() implies #[trigger] plan[i] == symlink_deletion(
        symlinks[i],
    ) by {}
    assert forall|i: int| 0 <= i < templates.len() implies #[trigger] plan[symlinks.len() + i]
        == template_deletion(templates[i], cache_directory) by {}
    assert forall|key: Seq<char>, links: bool| lookup(side(after, links), key) is None by {
        lemma_cache_after_pointwise(cache, plan, outcomes, links, key);
        assert forall|i: int| 0 <= i < plan.len() implies effect(
            #[trigger] plan[i],
            links,
            key,
        ) is None || effect(plan[i], links, key) == Some(gone) by {
            if i < symlinks.len() {
                assert(plan[i] == symlink_deletion(symlinks[i]));
            } else {
                assert(plan[symlinks.len() + (i - symlinks.len())] == template_deletion(
                    templates[i - symlinks.len()],
                    cache_directory,
                ));
            }
        }
        let before = lookup(side(cache, links), key);
        lemma_entry_after_settled(plan, links, key, before, gone);
        if before is Some {
            if links {
                let i = index_of_key(symlinks, key);
                assert(holds_key(symlinks, key));
                assert(effect(plan[i], links, key) is Some);
            } else {
                let i = index_of_key(templates, key);
                assert(holds_key(templates, key));
                assert(effect(plan[symlinks.len() + i], links, key) is Some);
            }
        }
    }
    assert(after.symlinks =~= Map::empty()) by {
        assert forall|key: Seq<char>| !after.symlinks.contains_key(key) by {
            assert(lookup(side(after, true), key) is None);
        }
    }
    assert(after.templates =~= Map::empty()) by {
        assert forall|key: Seq<char>| !after.templates.contains_key(key) by {
            assert(lookup(side(after, false), key) is None);
        }
    }
}

/// What a cache records that holds exactly the symbolic links of `set`: for each
/// source its target.
pub open spec fn symlink_record(set: Seq<SymlinkDescriptionView>) -> Map<Seq<char>, Seq<char>> {
    Map::new(
        |key: Seq<char>| has_symlink_source(set, key),
        |key: Seq<char>|
            set[choose|j: int| 0 <= j < set.len() && (#[trigger] set[j]).source
                == key].target.target,
    )
}

/// What a cache records that holds exactly the templates of `set`: for each
/// source its target.
pub open spec fn template_record(set: Seq<TemplateDescriptionView>) -> Map<Seq<char>, Seq<char>> {
    Map::new(
        |key: Seq<char>| has_template_source(set, key),
        |key: Seq<char>|
            set[choose|j: int| 0 <= j < set.len() && (#[trigger] set[j]).source
                == key].target.target,
    )
}

/// Each action of a phase for symbolic links leaves the templates of the cache
/// alone, and touches the symbolic link of a key only as the change of the phase
/// to an entry of `from` with that source.
proof fn lemma_symlink_phase_effects(
    change: Change,
    from: Seq<SymlinkDescriptionView>,
    other: Seq<SymlinkDescriptionView>,
    key: Seq<char>,
)
    ensures
        forall|i: int|
            0 <= i < symlink_phase(change, from, other).len() ==> {
                let a = #[trigger] symlink_phase(change, from, other)[i];
                &&& effect(a, false, key) is None
                &&& effect(a, true, key) is Some ==> exists|j: int|
                    0 <= j < from.len() && (#[trigger] from[j]).source == key && a
                        == symlink_action(change, from[j]) && has_symlink(other, from[j]) == (change
                        == Change::Update)
            },
{
    let keep = |d: SymlinkDescriptionView| has_symlink(other, d) == (change == Change::Update);
    let kept = from.filter(keep);
    let phase = symlink_phase(change, from, other);
    assert forall|i: int| 0 <= i < phase.len() implies {
        let a = #[trigger] phase[i];
        &&& effect(a, false, key) is None
        &&& effect(a, true, key) is Some ==> exists|j: int|
            0 <= j < from.len() && (#[trigger] from[j]).source == key && a == symlink_action(
                change,
                from[j],
            ) && has_symlink(other, from[j]) == (change == Change::Update)
    } by {
        let a = phase[i];
        assert(a == symlink_action(change, kept[i]));
        if effect(a, true, key) is Some {
            from.lemma_filter_pred(keep, i);
            assert(kept.contains(kept[i]));
            from.lemma_filter_contains_rev(keep, kept[i]);
            let j = choose|j: int| 0 <= j < from.len() && from[j] == kept[i];
            assert(from[j].source == key);
        }
    }
}

/// Each action of a phase for templates leaves the symbolic links of the cache
/// alone, and touches the template of a key only as the change of the phase to
/// an entry of `from` with that source.
proof fn lemma_template_phase_effects(
    change: Change,
    from: Seq<TemplateDescriptionView>,
    other: Seq<TemplateDescriptionView>,
    key: Seq<char>,
)
    ensures
        forall|i: int|
            0 <= i < template_phase(change, from, other).len() ==> {
                let a = #[trigger] template_phase(change, from, other)[i];
                &&& effect(a, true, key) is None
                &&& effect(a, false, key) is Some ==> exists|j: int|
                    0 <= j < from.len() && (#[trigger] from[j]).source == key && a
                        == template_action(change, from[j]) && has_template(other, from[j]) == (
                    change == Change::Update)
            },
{
    let keep = |d: TemplateDescriptionView| has_template(other, d) == (change == Change::Update);
    let kept = from.filter(keep);
    let phase = template_phase(change, from, other);
    assert forall|i: int| 0 <= i < phase.len() implies {
        let a = #[trigger] phase[i];
        &&& effect(a, true, key) is None
        &&& effect(a, false, key) is Some ==> exists|j: int|
            0 <= j < from.len() && (#[trigger] from[j]).source == key && a == template_action(
                change,
                from[j],
            ) && has_template(other, from[j]) == (change == Change::Update)
    } by {
        let a = phase[i];
        assert(a == template_action(change, kept[i]));
        if effect(a, false, key) is Some {
            from.lemma_filter_pred(keep, i);
            assert(kept.contains(kept[i]));
            from.lemma_filter_contains_rev(keep, kept[i]);
            let j = choose|j: int| 0 <= j < from.len() && from[j] == kept[i];
            assert(from[j].source == key);
        }
    }
}

/// An entry of `from` that belongs to a phase for symbolic links has its action
/// in the phase.
proof fn lemma_symlink_phase_holds(
    change: Change,
    from: Seq<SymlinkDescriptionView>,
    other: Seq<SymlinkDescriptionView>,
    j: int,
)
    requires
        0 <= j < from.len(),
        has_symlink(other, from[j]) == (change == Change::Update),
    ensures
        exists|i: int|
            0 <= i < symlink_phase(change, from, other).len() && #[trigger] symlink_phase(
                change,
                from,
                other,
            )[i] == symlink_action(change, from[j]),
{
    let keep = |d: SymlinkDescriptionView| has_symlink(other, d) == (change == Change::Update);
    let kept = from.filter(keep);
    from.lemma_filter_contains(keep, j);
    let i = choose|i: int| 0 <= i < kept.len() && kept[i] == from[j];
    assert(symlink_phase(change, from, other)[i] == symlink_action(change, from[j]));
}

/// An entry of `from` that belongs to a phase for templates has its action in
/// the phase.
proof fn lemma_template_phase_holds(
    change: Change,
    from: Seq<TemplateDescriptionView>,
    other: Seq<TemplateDescriptionView>,
    j: int,
)
    requires
        0 <= j < from.len(),
        has_template(other, from[j]) == (change == Change::Update),
    ensures
        exists|i: int|
            0 <= i < template_phase(change, from, other).len() && #[trigger] template_phase(
                change,
                from,
                other,
            )[i] == template_action(change, from[j]),
{
    let keep = |d: TemplateDescriptionView| has_template(other, d) == (change == Change::Update);
    let kept = from.filter(keep);
    from.lemma_filter_contains(keep, j);
    let i = choose|i: int| 0 <= i < kept.len() && kept[i] == from[j];
    assert(template_phase(change, from, other)[i] == template_action(change, from[j]));
}

/// What a phase for symbolic links leaves of the entries for `key`. The template
/// is as it was. The symbolic link is left as `entry` if the phase holds an
/// action for an entry of `from` with that source, and is as it was if not;
/// `entry` is what each such action leaves.
proof fn lemma_symlink_phase_after(
    change: Change,
    from: Seq<SymlinkDescriptionView>,
    other: Seq<SymlinkDescriptionView>,
    key: Seq<char>,
    before: Option<Seq<char>>,
    entry: Option<Seq<char>>,
)
    requires
        forall|j: int|
            0 <= j < from.len() && (#[trigger] from[j]).source == key ==> entry == if change
                == Change::Delete {
                None
            } else {
                Some(from[j].target.target)
            },
    ensures
        entry_after(symlink_phase(change, from, other), true, key, before) == if exists|j: int|
            0 <= j < from.len() && (#[trigger] from[j]).source == key && has_symlink(
                other,
                from[j],
            ) == (change == Change::Update) {
            entry
        } else {
            before
        },
{
    let phase = symlink_phase(change, from, other);
    lemma_symlink_phase_effects(change, from, other, key);
    lemma_entry_after_settled(phase, true, key, before, entry);
    if exists|j: int|
        0 <= j < from.len() && (#[trigger] from[j]).source == key && has_symlink(other, from[j])
            == (change == Change::Update) {
        let j = choose|j: int|
            0 <= j < from.len() && (#[trigger] from[j]).source == key && has_symlink(
                other,
                from[j],
            ) == (change == Change::Update);
        lemma_symlink_phase_holds(change, from, other, j);
        let i = choose|i: int|
            0 <= i < phase.len() && #[trigger] phase[i] == symlink_action(change, from[j]);
        assert(effect(phase[i], true, key) is Some);
    }
}

/// What a phase for templates leaves of the entries for `key`, as for symbolic
/// links.
proof fn lemma_template_phase_after(
    change: Change,
    from: Seq<TemplateDescriptionView>,
    other: Seq<TemplateDescriptionView>,
    key: Seq<char>,
    before: Option<Seq<char>>,
    entry: Option<Seq<char>>,
)
    requires
        forall|j: int|
            0 <= j < from.len() && (#[trigger] from[j]).source == key ==> entry == if change
                == Change::Delete {
                None
            } else {
                Some(from[j].target.target)
            },
    ensures
        entry_after(template_phase(change, from, other), false, key, before) == if exists|j: int|
            0 <= j < from.len() && (#[trigger] from[j]).source == key && has_template(
                other,
                from[j],
            ) == (change == Change::Update) {
            entry
        } else {
            before
        },
{
    let phase = template_phase(change, from, other);
    lemma_template_phase_effects(change, from, other, key);
    lemma_entry_after_settled(phase, false, key, before, entry);
    if exists|j: int|
        0 <= j < from.len() && (#[trigger] from[j]).source == key && has_template(other, from[j])
            == (change == Change::Update) {
        let j = choose|j: int|
            0 <= j < from.len() && (#[trigger] from[j]).source == key && has_template(
                other,
                from[j],
            ) == (change == Change::Update);
        lemma_template_phase_holds(change, from, other, j);
        let i = choose|i: int|
            0 <= i < phase.len() && #[trigger] phase[i] == template_action(change, from[j]);
        assert(effect(phase[i], false, key) is Some);
    }
}

/// A phase for symbolic links leaves the templates of the cache as they were, and
/// a phase for templates the symbolic links.
proof fn lemma_phase_spares_other_side(
    change: Change,
    symlinks: Seq<SymlinkDescriptionView>,
    other_symlinks: Seq<SymlinkDescriptionView>,
    templates: Seq<TemplateDescriptionView>,
    other_templates: Seq<TemplateDescriptionView>,
    key: Seq<char>,
    before: Option<Seq<char>>,
)
    ensures
        entry_after(symlink_phase(change, symlinks, other_symlinks), false, key, before)
            == before,
        entry_after(template_phase(change, templates, other_templates), true, key, before)
            == before,
{
    lemma_symlink_phase_effects(change, symlinks, other_symlinks, key);
    lemma_template_phase_effects(change, templates, other_templates, key);
    lemma_entry_after_settled(
        symlink_phase(change, symlinks, other_symlinks),
        false,
        key,
        before,
        None,
    );
    lemma_entry_after_settled(
        template_phase(change, templates, other_templates),
        true,
        key,
        before,
        None,
    );
}

/// The entry for `key` after the six phases of a plan, as the entries after each
/// phase in turn.
proof fn lemma_entry_after_plan(
    state: FileStateView,
    links: bool,
    key: Seq<char>,
    before: Option<Seq<char>>,
)
    ensures
        entry_after(plan_of(state), links, key, before) == entry_after(
            template_phase(Change::Update, state.desired_templates, state.existing_templates),
            links,
            key,
            entry_after(
                symlink_phase(Change::Update, state.desired_symlinks, state.existing_symlinks),
                links,
                key,
                entry_after(
                    template_phase(
                        Change::Create,
                        state.desired_templates,
                        state.existing_templates,
                    ),
                    links,
                    key,
                    entry_after(
                        symlink_phase(
                            Change::Create,
                            state.desired_symlinks,
                            state.existing_symlinks,
                        ),
                        links,
                        key,
                        entry_after(
                            template_phase(
                                Change::Delete,
                                state.existing_templates,
                                state.desired_templates,
                            ),
                            links,
                            key,
                            entry_after(
                                symlink_phase(
                                    Change::Delete,
                                    state.existing_symlinks,
                                    state.desired_symlinks,
                                ),
                                links,
                                key,
                                before,
                            ),
                        ),
                    ),
                ),
            ),
        ),
{
    let delete_links = symlink_phase(Change::Delete, state.existing_symlinks, state.desired_symlinks);
    let delete_templates = template_phase(Change::Delete, state.existing_templates, state.desired_templates);
    let create_links = symlink_phase(Change::Create, state.desired_symlinks, state.existing_symlinks);
    let create_templates = template_phase(Change::Create, state.desired_templates, state.existing_templates);
    let update_links = symlink_phase(Change::Update, state.desired_symlinks, state.existing_symlinks);
    let update_templates = template_phase(Change::Update, state.desired_templates, state.existing_templates);
    lemma_entry_after_concat(delete_links, delete_templates, links, key, before);
    lemma_entry_after_concat(delete_links + delete_templates, create_links, links, key, before);
    lemma_entry_after_concat(delete_links + delete_templates + create_links, create_templates, links, key, before);
    lemma_entry_after_concat(delete_links + delete_templates + create_links + create_templates, update_links, links, key, before);
    lemma_entry_after_concat(delete_links + delete_templates + create_links + create_templates + update_links, update_templates, links, key, before);
}

/// After a deployment of which every action succeeded, the cache has for `key`
/// among the symbolic links what the desired set has for it.
proof fn lemma_link_after_deploy(state: FileStateView, key: Seq<char>, before: Option<Seq<char>>)
    requires
        distinct_symlink_sources(state.desired_symlinks),
        before is Some ==> has_symlink_source(state.existing_symlinks, key),
    ensures
        entry_after(plan_of(state), true, key, before) == lookup(
            symlink_record(state.desired_symlinks),
            key,
        ),
{
    let ds = state.desired_symlinks;
    let es = state.existing_symlinks;
    let dt = state.desired_templates;
    let et = state.existing_templates;
    let gone: Option<Seq<char>> = None;
    lemma_entry_after_plan(state, true, key, before);
    let e1 = entry_after(symlink_phase(Change::Delete, es, ds), true, key, before);
    lemma_symlink_phase_after(Change::Delete, es, ds, key, before, gone);
    lemma_phase_spares_other_side(Change::Delete, es, ds, et, dt, key, e1);
    if has_symlink_source(ds, key) {
        let j = choose|j: int| 0 <= j < ds.len() && (#[trigger] ds[j]).source == key;
        let set = Some(ds[j].target.target);
        assert forall|i: int| 0 <= i < ds.len() && (#[trigger] ds[i]).source == key implies i
            == j by {
            if i < j {
                assert(ds[i].source != ds[j].source);
            } else if j < i {
                assert(ds[j].source != ds[i].source);
            }
        }
        lemma_symlink_phase_after(Change::Create, ds, es, key, e1, set);
        let e3 = entry_after(symlink_phase(Change::Create, ds, es), true, key, e1);
        lemma_phase_spares_other_side(Change::Create, ds, es, dt, et, key, e3);
        lemma_symlink_phase_after(Change::Update, ds, es, key, e3, set);
        let e5 = entry_after(symlink_phase(Change::Update, ds, es), true, key, e3);
        lemma_phase_spares_other_side(Change::Update, ds, es, dt, et, key, e5);
        assert(e5 == set);
    } else {
        lemma_symlink_phase_after(Change::Create, ds, es, key, e1, gone);
        lemma_phase_spares_other_side(Change::Create, ds, es, dt, et, key, e1);
        lemma_symlink_phase_after(Change::Update, ds, es, key, e1, gone);
        lemma_phase_spares_other_side(Change::Update, ds, es, dt, et, key, e1);
        if before is Some {
            let i = choose|i: int| 0 <= i < es.len() && (#[trigger] es[i]).source == key;
            if has_symlink(ds, es[i]) {
                let j = choose|j: int| 0 <= j < ds.len() && (#[trigger] ds[j]).same_entry(es[i]);
                assert(ds[j].source == key);
            }
        }
        assert(e1 is None);
    }
}

/// After a deployment of which every action succeeded, the cache has for `key`
/// among the templates what the desired set has for it.
proof fn lemma_template_after_deploy(
    state: FileStateView,
    key: Seq<char>,
    before: Option<Seq<char>>,
)
    requires
        distinct_template_sources(state.desired_templates),
        before is Some ==> has_template_source(state.existing_templates, key),
    ensures
        entry_after(plan_of(state), false, key, before) == lookup(
            template_record(state.desired_templates),
            key,
        ),
{
    let ds = state.desired_symlinks;
    let es = state.existing_symlinks;
    let dt = state.desired_templates;
    let et = state.existing_templates;
    let gone: Option<Seq<char>> = None;
    lemma_entry_after_plan(state, false, key, before);
    lemma_phase_spares_other_side(Change::Delete, es, ds, et, dt, key, before);
    lemma_template_phase_after(Change::Delete, et, dt, key, before, gone);
    let e2 = entry_after(template_phase(Change::Delete, et, dt), false, key, before);
    lemma_phase_spares_other_side(Change::Create, ds, es, dt, et, key, e2);
    if has_template_source(dt, key) {
        let j = choose|j: int| 0 <= j < dt.len() && (#[trigger] dt[j]).source == key;
        let set = Some(dt[j].target.target);
        assert forall|i: int| 0 <= i < dt.len() && (#[trigger] dt[i]).source == key implies i
            == j by {
            if i < j {
                assert(dt[i].source != dt[j].source);
            } else if j < i {
                assert(dt[j].source != dt[i].source);
            }
        }
        lemma_template_phase_after(Change::Create, dt, et, key, e2, set);
        let e4 = entry_after(template_phase(Change::Create, dt, et), false, key, e2);
        lemma_phase_spares_other_side(Change::Update, ds, es, dt, et, key, e4);
        lemma_template_phase_after(Change::Update, dt, et, key, e4, set);
        let e6 = entry_after(template_phase(Change::Update, dt, et), false, key, e4);
        assert(e6 == set);
    } else {
        lemma_template_phase_after(Change::Create, dt, et, key, e2, gone);
        lemma_phase_spares_other_side(Change::Update, ds, es, dt, et, key, e2);
        lemma_template_phase_after(Change::Update, dt, et, key, e2, gone);
        if before is Some {
            let i = choose|i: int| 0 <= i < et.len() && (#[trigger] et[i]).source == key;
            if has_template(dt, et[i]) {
                let j = choose|j: int| 0 <= j < dt.len() && (#[trigger] dt[j]).same_entry(et[i]);
                assert(dt[j].source == key);
            }
        }
        assert(e2 is None);
    }
}

/// A deployment of which every action succeeded leaves the cache with a record
/// of exactly the desired entries: what was deleted is gone from it, and each
/// desired source has its desired target. It is asked that no source is desired
/// twice, and that the existing sets hold an entry for every source that the
/// cache recorded before.
pub proof fn lemma_deploy_records_desired(
    state: FileStateView,
    cache: CacheView,
    outcomes: Seq<Result<bool, ActionErrorView>>,
)
    requires
        distinct_symlink_sources(state.desired_symlinks),
        distinct_template_sources(state.desired_templates),
        existing_covers(state, cache),
        outcomes.len() == plan_of(state).len(),
        all_succeeded(outcomes),
    ensures
        cache_after(cache, plan_of(state), outcomes) == (CacheView {
            symlinks: symlink_record(state.desired_symlinks),
            templates: template_record(state.desired_templates),
        }),
{
    let after = cache_after(cache, plan_of(state), outcomes);
    let links = symlink_record(state.desired_symlinks);
    let templates = template_record(state.desired_templates);
    assert forall|key: Seq<char>| #[trigger]
        after.symlinks.dom().contains(key) == links.dom().contains(key) && (
        after.symlinks.dom().contains(key) ==> after.symlinks[key] == links[key]) by {
        lemma_cache_after_pointwise(cache, plan_of(state), outcomes, true, key);
        lemma_link_after_deploy(state, key, lookup(cache.symlinks, key));
        assert(lookup(after.symlinks, key) == lookup(links, key));
    }
    assert forall|key: Seq<char>| #[trigger]
        after.templates.dom().contains(key) == templates.dom().contains(key) && (
        after.templates.dom().contains(key) ==> after.templates[key] == templates[key]) by {
        lemma_cache_after_pointwise(cache, plan_of(state), outcomes, false, key);
        lemma_template_after_deploy(state, key, lookup(cache.templates, key));
        assert(lookup(after.templates, key) == lookup(templates, key));
    }
    assert(after.symlinks =~= links);
    assert(after.templates =~= templates);
}

/// Idempotence. After a deployment of which every action succeeded, the state
/// that is built anew from the same desired sets and from the cache as the
/// deployment left it plans updates only, one for each desired entry. Each of
/// them finds its target identical as long as nothing else changes the
/// filesystem, and then changes nothing (`lemma_identical_is_noop`).
pub proof fn lemma_second_deploy_only_updates(
    state: FileStateView,
    cache: CacheView,
    outcomes: Seq<Result<bool, ActionErrorView>>,
    symlinks: Seq<(Seq<char>, Seq<char>)>,
    templates: Seq<(Seq<char>, Seq<char>)>,
    cache_directory: Seq<char>,
)
    requires
        distinct_symlink_sources(state.desired_symlinks),
        distinct_template_sources(state.desired_templates),
        existing_covers(state, cache),
        outcomes.len() == plan_of(state).len(),
        all_succeeded(outcomes),
        ascending(symlinks),
        ascending(templates),
        entries_map(symlinks) == cache_after(cache, plan_of(state), outcomes).symlinks,
        entries_map(templates) == cache_after(cache, plan_of(state), outcomes).templates,
    ensures
        plan_of(
            FileStateView {
                desired_symlinks: state.desired_symlinks,
                desired_templates: state.desired_templates,
                existing_symlinks: existing_symlinks_of(symlinks),
                existing_templates: existing_templates_of(templates, cache_directory),
            },
        ) == all_symlinks(Change::Update, state.desired_symlinks) + all_templates(
            Change::Update,
            state.desired_templates,
        ),
{
    let ds = state.desired_symlinks;
    let dt = state.desired_templates;
    let es = existing_symlinks_of(symlinks);
    let et = existing_templates_of(templates, cache_directory);
    let next = FileStateView {
        desired_symlinks: ds,
        desired_templates: dt,
        existing_symlinks: es,
        existing_templates: et,
    };
    lemma_deploy_records_desired(state, cache, outcomes);
    lemma_entries_map(symlinks);
    lemma_entries_map(templates);
    let links = symlink_record(ds);
    let rendered = template_record(dt);
    assert forall|i: int| 0 <= i < ds.len() implies has_symlink(es, #[trigger] ds[i]) by {
        let key = ds[i].source;
        assert(has_symlink_source(ds, key));
        let j = choose|j: int| 0 <= j < ds.len() && (#[trigger] ds[j]).source == key;
        if i < j {
            assert(ds[i].source != ds[j].source);
        } else if j < i {
            assert(ds[j].source != ds[i].source);
        }
        assert(links.contains_key(key) && links[key] == ds[i].target.target);
        assert(holds_key(symlinks, key));
        let m = index_of_key(symlinks, key);
        assert(entries_map(symlinks)[symlinks[m].0] == symlinks[m].1);
        assert(es[m].same_entry(ds[i]));
    }
    assert forall|m: int| 0 <= m < es.len() implies has_symlink(ds, #[trigger] es[m]) by {
        let key = symlinks[m].0;
        assert(entries_map(symlinks).contains_key(symlinks[m].0));
        assert(links.contains_key(key));
        let j = choose|j: int| 0 <= j < ds.len() && (#[trigger] ds[j]).source == key;
        assert(links[key] == ds[j].target.target);
        assert(entries_map(symlinks)[symlinks[m].0] == symlinks[m].1);
        assert(ds[j].same_entry(es[m]));
    }
    assert forall|i: int| 0 <= i < dt.len() implies has_template(et, #[trigger] dt[i]) by {
        let key = dt[i].source;
        assert(has_template_source(dt, key));
        let j = choose|j: int| 0 <= j < dt.len() && (#[trigger] dt[j]).source == key;
        if i < j {
            assert(dt[i].source != dt[j].source);
        } else if j < i {
            assert(dt[j].source != dt[i].source);
        }
        assert(rendered.contains_key(key) && rendered[key] == dt[i].target.target);
        assert(holds_key(templates, key));
        let m = index_of_key(templates, key);
        assert(entries_map(templates)[templates[m].0] == templates[m].1);
        assert(et[m].same_entry(dt[i]));
    }
    assert forall|m: int| 0 <= m < et.len() implies has_template(dt, #[trigger] et[m]) by {
        let key = templates[m].0;
        assert(entries_map(templates).contains_key(templates[m].0));
        assert(rendered.contains_key(key));
        let j = choose|j: int| 0 <= j < dt.len() && (#[trigger] dt[j]).source == key;
        assert(rendered[key] == dt[j].target.target);
        assert(entries_map(templates)[templates[m].0] == templates[m].1);
        assert(dt[j].same_entry(et[m]));
    }
    lemma_identical_plan(next);
}

/// A plan of which no action would change the cache leaves the cache as it is,
/// however its actions end.
pub proof fn lemma_unchanged_cache(
    cache: CacheView,
    plan: Seq<ActionView>,
    outcomes: Seq<Result<bool, ActionErrorView>>,
)
    requires
        forall|i: int| 0 <= i < plan.len() ==> (#[trigger] plan[i]).applied_to(cache) == cache,
    ensures
        cache_after(cache, plan, outcomes) == cache,
    decreases plan.len(),
{
    if plan.len() > 0 && outcomes.len() == plan.len() {
        let rest = plan.drop_last();
        assert forall|i: int| 0 <= i < rest.len() implies (#[trigger] rest[i]).applied_to(cache)
            == cache by {
            assert(rest[i] == plan[i]);
        }
        lemma_unchanged_cache(cache, rest, outcomes.drop_last());
        assert(plan.last() == plan[plan.len() - 1]);
    }
}

/// Where the desired and the existing entries are the same, and the existing
/// sets are those that the cache records, a deployment leaves the cache as it
/// is, however its actions end: every action is an update of an entry that the
/// cache records already.
pub proof fn lemma_identical_state_keeps_cache(
    state: FileStateView,
    cache: CacheView,
    symlinks: Seq<(Seq<char>, Seq<char>)>,
    templates: Seq<(Seq<char>, Seq<char>)>,
    cache_directory: Seq<char>,
    outcomes: Seq<Result<bool, ActionErrorView>>,
)
    requires
        identical(state),
        ascending(symlinks),
        ascending(templates),
        cache.symlinks == entries_map(symlinks),
        cache.templates == entries_map(templates),
        state.existing_symlinks == existing_symlinks_of(symlinks),
        state.existing_templates == existing_templates_of(templates, cache_directory),
    ensures
        cache_after(cache, plan_of(state), outcomes) == cache,
{
    let plan = plan_of(state);
    let ds = state.desired_symlinks;
    let dt = state.desired_templates;
    lemma_identical_plan(state);
    lemma_entries_map(symlinks);
    lemma_entries_map(templates);
    assert forall|i: int| 0 <= i < plan.len() implies (#[trigger] plan[i]).applied_to(cache)
        == cache by {
        let after = plan[i].applied_to(cache);
        if i < ds.len() {
            let d = ds[i];
            assert(plan[i] == symlink_action(Change::Update, d));
            let m = choose|m: int|
                0 <= m < state.existing_symlinks.len() && (
                #[trigger] state.existing_symlinks[m]).same_entry(d);
            assert(entries_map(symlinks)[symlinks[m].0] == symlinks[m].1);
            assert(after.symlinks =~= cache.symlinks);
        } else {
            let d = dt[i - ds.len()];
            assert(plan[i] == template_action(Change::Update, d));
            let m = choose|m: int|
                0 <= m < state.existing_templates.len() && (
                #[trigger] state.existing_templates[m]).same_entry(d);
            assert(entries_map(templates)[templates[m].0] == templates[m].1);
            assert(after.templates =~= cache.templates);
        }
    }
    lemma_unchanged_cache(cache, plan, outcomes);
}

} // verus!
