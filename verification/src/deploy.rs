//! Planning a run and carrying the plan out.

use crate::actions::{
    action_views, is_run, outcome_view, Action, ActionError, ActionErrorView, ActionView,
};
use crate::args::Options;
use crate::config::{Cache, CacheView};
use crate::file_state::{
    contains_symlink, contains_template, distinct_symlink_sources, distinct_template_sources,
    existing_covers, has_symlink, has_template, symlink_views, template_views, FileState, FileStateView,
    SymlinkDescription, SymlinkDescriptionView, TemplateDescription, TemplateDescriptionView,
};
use crate::filesystem::{Exchange, Filesystem, Session};
use crate::laws::{
    all_succeeded, lemma_deploy_records_desired, lemma_undeploy_empties_cache, symlink_record,
    template_record,
};
use crate::paths::{join, joined_path};
use crate::render::Variables;
use crate::sequences::{lemma_filter_map_empty, lemma_filter_map_take};
use vstd::prelude::*;

verus! {

/// The three kinds of change that a plan holds, in the order of its phases.
#[derive(Debug, Clone, Copy, PartialEq, Eq, Structural)]
pub enum Change {
    Delete,
    Create,
    Update,
}

/// The action that makes the change `change` to the symbolic link `d`.
pub open spec fn symlink_action(change: Change, d: SymlinkDescriptionView) -> ActionView {
    match change {
        Change::Delete => ActionView::DeleteSymlink { source: d.source, target: d.target.target },
        Change::Create => ActionView::CreateSymlink(d),
        Change::Update => ActionView::UpdateSymlink(d),
    }
}

/// The action that makes the change `change` to the template `d`.
pub open spec fn template_action(change: Change, d: TemplateDescriptionView) -> ActionView {
    match change {
        Change::Delete => ActionView::DeleteTemplate {
            source: d.source,
            cache: d.cache,
            target: d.target.target,
        },
        Change::Create => ActionView::CreateTemplate(d),
        Change::Update => ActionView::UpdateTemplate(d),
    }
}

/// One phase of a plan for symbolic links. An update is planned for each entry
/// of `from` that `other` holds too; a deletion or a creation for each entry of
/// `from` that `other` lacks. The actions stand in the order of `from`.
pub open spec fn symlink_phase(
    change: Change,
    from: Seq<SymlinkDescriptionView>,
    other: Seq<SymlinkDescriptionView>,
) -> Seq<ActionView> {
    from.filter(|d: SymlinkDescriptionView| has_symlink(other, d) == (change == Change::Update))
        .map_values(|d: SymlinkDescriptionView| symlink_action(change, d))
}

/// One phase of a plan for templates, as for symbolic links.
pub open spec fn template_phase(
    change: Change,
    from: Seq<TemplateDescriptionView>,
    other: Seq<TemplateDescriptionView>,
) -> Seq<ActionView> {
    from.filter(|d: TemplateDescriptionView| has_template(other, d) == (change == Change::Update))
        .map_values(|d: TemplateDescriptionView| template_action(change, d))
}

/// The plan for a deployment, in six phases. What exists and is no longer
/// desired is deleted; what is desired and does not exist is created; what is
/// desired and exists is updated. Within each of the three, symbolic links come
/// before templates.
pub open spec fn plan_of(state: FileStateView) -> Seq<ActionView> {
    symlink_phase(Change::Delete, state.existing_symlinks, state.desired_symlinks)
        + template_phase(Change::Delete, state.existing_templates, state.desired_templates)
        + symlink_phase(Change::Create, state.desired_symlinks, state.existing_symlinks)
        + template_phase(Change::Create, state.desired_templates, state.existing_templates)
        + symlink_phase(Change::Update, state.desired_symlinks, state.existing_symlinks)
        + template_phase(Change::Update, state.desired_templates, state.existing_templates)
}

/// The action that deletes the symbolic link of a cache entry.
pub open spec fn symlink_deletion(entry: (Seq<char>, Seq<char>)) -> ActionView {
    ActionView::DeleteSymlink { source: entry.0, target: entry.1 }
}

/// The action that deletes the template of a cache entry, with its artifact in
/// the cache directory.
pub open spec fn template_deletion(
    entry: (Seq<char>, Seq<char>),
    cache_directory: Seq<char>,
) -> ActionView {
    ActionView::DeleteTemplate {
        source: entry.0,
        cache: joined_path(cache_directory, entry.0),
        target: entry.1,
    }
}

/// The plan that takes down everything that the cache records: one deletion for
/// each entry, symbolic links first, each kind in the order of the cache.
pub open spec fn undeploy_plan_of(
    symlinks: Seq<(Seq<char>, Seq<char>)>,
    templates: Seq<(Seq<char>, Seq<char>)>,
    cache_directory: Seq<char>,
) -> Seq<ActionView> {
    symlinks.map_values(|e: (Seq<char>, Seq<char>)| symlink_deletion(e)) + templates.map_values(
        |e: (Seq<char>, Seq<char>)| template_deletion(e, cache_directory),
    )
}

/// What one more entry of `from` adds to a phase for symbolic links.
proof fn lemma_symlink_phase_step(
    change: Change,
    from: Seq<SymlinkDescriptionView>,
    other: Seq<SymlinkDescriptionView>,
    i: int,
)
    requires
        0 <= i < from.len(),
    ensures
        symlink_phase(change, from.take(i + 1), other) == if has_symlink(other, from[i]) == (change
            == Change::Update) {
            symlink_phase(change, from.take(i), other).push(symlink_action(change, from[i]))
        } else {
            symlink_phase(change, from.take(i), other)
        },
{
    lemma_filter_map_take(
        from,
        i,
        |d: SymlinkDescriptionView| has_symlink(other, d) == (change == Change::Update),
        |d: SymlinkDescriptionView| symlink_action(change, d),
    );
}

/// What one more entry of `from` adds to a phase for templates.
proof fn lemma_template_phase_step(
    change: Change,
    from: Seq<TemplateDescriptionView>,
    other: Seq<TemplateDescriptionView>,
    i: int,
)
    requires
        0 <= i < from.len(),
    ensures
        template_phase(change, from.take(i + 1), other) == if has_template(other, from[i]) == (
        change == Change::Update) {
            template_phase(change, from.take(i), other).push(template_action(change, from[i]))
        } else {
            template_phase(change, from.take(i), other)
        },
{
    lemma_filter_map_take(
        from,
        i,
        |d: TemplateDescriptionView| has_template(other, d) == (change == Change::Update),
        |d: TemplateDescriptionView| template_action(change, d),
    );
}

/// A phase over no entries plans nothing.
proof fn lemma_phase_start(
    change: Change,
    symlinks: Seq<SymlinkDescriptionView>,
    templates: Seq<TemplateDescriptionView>,
)
    ensures
        symlink_phase(change, Seq::empty(), symlinks) == Seq::<ActionView>::empty(),
        template_phase(change, Seq::empty(), templates) == Seq::<ActionView>::empty(),
{
    lemma_filter_map_empty(
        |d: SymlinkDescriptionView| has_symlink(symlinks, d) == (change == Change::Update),
        |d: SymlinkDescriptionView| symlink_action(change, d),
    );
    lemma_filter_map_empty(
        |d: TemplateDescriptionView| has_template(templates, d) == (change == Change::Update),
        |d: TemplateDescriptionView| template_action(change, d),
    );
}

/// Appends to `actions` the phase for symbolic links that makes `change`.
fn push_symlink_phase(
    actions: &mut Vec<Action>,
    change: Change,
    from: &Vec<SymlinkDescription>,
    other: &Vec<SymlinkDescription>,
)
    ensures
        action_views(final(actions)@) == action_views(old(actions)@) + symlink_phase(
            change,
            symlink_views(from@),
            symlink_views(other@),
        ),
{
    let ghost start = action_views(actions@);
    let ghost f = symlink_views(from@);
    let ghost o = symlink_views(other@);
    proof {
        lemma_phase_start(change, o, Seq::empty());
        assert(f.take(0) =~= Seq::empty());
        assert(start + Seq::<ActionView>::empty() =~= start);
    }
    let mut i: usize = 0;
    while i < from.len()
        invariant
            i <= from@.len(),
            f == symlink_views(from@),
            o == symlink_views(other@),
            action_views(actions@) == start + symlink_phase(change, f.take(i as int), o),
        decreases from@.len() - i,
    {
        let d = &from[i];
        let present = contains_symlink(other, d);
        proof {
            lemma_symlink_phase_step(change, f, o, i as int);
        }
        let ghost before = actions@;
        let ghost phase = symlink_phase(change, f.take(i as int), o);
        match change {
            Change::Delete => {
                if !present {
                    actions.push(
                        Action::DeleteSymlink {
                            source: d.source.clone(),
                            target: d.target.target.clone(),
                        },
                    );
                }
            },
            Change::Create => {
                if !present {
                    actions.push(Action::CreateSymlink(d.clone()));
                }
            },
            Change::Update => {
                if present {
                    actions.push(Action::UpdateSymlink(d.clone()));
                }
            },
        }
        proof {
            if present == (change == Change::Update) {
                let a = symlink_action(change, f[i as int]);
                assert(action_views(actions@) =~= action_views(before).push(a));
                assert((start + phase).push(a) =~= start + phase.push(a));
            }
        }
        i += 1;
    }
    proof {
        assert(f.take(i as int) =~= f);
    }
}

/// Appends to `actions` the phase for templates that makes `change`.
fn push_template_phase(
    actions: &mut Vec<Action>,
    change: Change,
    from: &Vec<TemplateDescription>,
    other: &Vec<TemplateDescription>,
)
    ensures
        action_views(final(actions)@) == action_views(old(actions)@) + template_phase(
            change,
            template_views(from@),
            template_views(other@),
        ),
{
    let ghost start = action_views(actions@);
    let ghost f = template_views(from@);
    let ghost o = template_views(other@);
    proof {
        lemma_phase_start(change, Seq::empty(), o);
        assert(f.take(0) =~= Seq::empty());
        assert(start + Seq::<ActionView>::empty() =~= start);
    }
    let mut i: usize = 0;
    while i < from.len()
        invariant
            i <= from@.len(),
            f == template_views(from@),
            o == template_views(other@),
            action_views(actions@) == start + template_phase(change, f.take(i as int), o),
        decreases from@.len() - i,
    {
        let d = &from[i];
        let present = contains_template(other, d);
        proof {
            lemma_template_phase_step(change, f, o, i as int);
        }
        let ghost before = actions@;
        let ghost phase = template_phase(change, f.take(i as int), o);
        match change {
            Change::Delete => {
                if !present {
                    actions.push(
                        Action::DeleteTemplate {
                            source: d.source.clone(),
                            cache: d.cache.clone(),
                            target: d.target.target.clone(),
                        },
                    );
                }
            },
            Change::Create => {
                if !present {
                    actions.push(Action::CreateTemplate(d.clone()));
                }
            },
            Change::Update => {
                if present {
                    actions.push(Action::UpdateTemplate(d.clone()));
                }
            },
        }
        proof {
            if present == (change == Change::Update) {
                let a = template_action(change, f[i as int]);
                assert(action_views(actions@) =~= action_views(before).push(a));
                assert((start + phase).push(a) =~= start + phase.push(a));
            }
        }
        i += 1;
    }
    proof {
        assert(f.take(i as int) =~= f);
    }
}

/// Plans a deployment: the actions that take the existing state to the desired
/// one, in the order in which they are to be run.
pub fn plan_deploy(state: FileState) -> (actions: Vec<Action>)
    ensures
        action_views(actions@) == plan_of(state@),
{
    let mut actions: Vec<Action> = Vec::new();
    proof {
        assert(action_views(actions@) =~= Seq::empty());
    }
    push_symlink_phase(
        &mut actions,
        Change::Delete,
        &state.existing_symlinks,
        &state.desired_symlinks,
    );
    push_template_phase(
        &mut actions,
        Change::Delete,
        &state.existing_templates,
        &state.desired_templates,
    );
    push_symlink_phase(
        &mut actions,
        Change::Create,
        &state.desired_symlinks,
        &state.existing_symlinks,
    );
    push_template_phase(
        &mut actions,
        Change::Create,
        &state.desired_templates,
        &state.existing_templates,
    );
    push_symlink_phase(
        &mut actions,
        Change::Update,
        &state.desired_symlinks,
        &state.existing_symlinks,
    );
    push_template_phase(
        &mut actions,
        Change::Update,
        &state.desired_templates,
        &state.existing_templates,
    );
    proof {
        let s = state@;
        assert(Seq::<ActionView>::empty() + symlink_phase(
            Change::Delete,
            s.existing_symlinks,
            s.desired_symlinks,
        ) =~= symlink_phase(Change::Delete, s.existing_symlinks, s.desired_symlinks));
    }
    actions
}

/// Plans the removal of everything that the cache records.
pub fn plan_undeploy(cache: &Cache, cache_directory: &str) -> (actions: Vec<Action>)
    ensures
        action_views(actions@) == undeploy_plan_of(
            cache.symlinks.entries(),
            cache.templates.entries(),
            cache_directory@,
        ),
{
    let mut actions: Vec<Action> = Vec::new();
    let ghost links = cache.symlinks.entries();
    let ghost templates = cache.templates.entries();
    let ghost to_link = |e: (Seq<char>, Seq<char>)| symlink_deletion(e);
    let ghost to_template = |e: (Seq<char>, Seq<char>)| template_deletion(e, cache_directory@);
    let n = cache.symlinks.len();
    let mut i: usize = 0;
    proof {
        assert(action_views(actions@) =~= links.take(0).map_values(to_link));
    }
    while i < n
        invariant
            i <= n,
            n == links.len(),
            links == cache.symlinks.entries(),
            to_link == |e: (Seq<char>, Seq<char>)| symlink_deletion(e),
            action_views(actions@) == links.take(i as int).map_values(to_link),
        decreases n - i,
    {
        let (source, target) = cache.symlinks.entry(i);
        let ghost before = actions@;
        actions.push(Action::DeleteSymlink { source: source.clone(), target: target.clone() });
        proof {
            assert(links.take(i + 1) =~= links.take(i as int).push(links[i as int]));
            assert(action_views(actions@) =~= action_views(before).push(
                symlink_deletion(links[i as int]),
            ));
            assert(links.take(i + 1).map_values(to_link) =~= links.take(i as int).map_values(
                to_link,
            ).push(symlink_deletion(links[i as int])));
        }
        i += 1;
    }
    let ghost first = action_views(actions@);
    let m = cache.templates.len();
    let mut j: usize = 0;
    proof {
        assert(links.take(n as int) =~= links);
        assert(first + templates.take(0).map_values(to_template) =~= first);
    }
    while j < m
        invariant
            j <= m,
            m == templates.len(),
            templates == cache.templates.entries(),
            to_template == |e: (Seq<char>, Seq<char>)| template_deletion(e, cache_directory@),
            action_views(actions@) == first + templates.take(j as int).map_values(to_template),
        decreases m - j,
    {
        let (source, target) = cache.templates.entry(j);
        let ghost before = actions@;
        let artifact = join(cache_directory, source.as_str());
        actions.push(
            Action::DeleteTemplate {
                source: source.clone(),
                cache: artifact,
                target: target.clone(),
            },
        );
        proof {
            let a = template_deletion(templates[j as int], cache_directory@);
            assert(templates.take(j + 1) =~= templates.take(j as int).push(templates[j as int]));
            assert(action_views(actions@) =~= action_views(before).push(a));
            assert(first + templates.take(j + 1).map_values(to_template) =~= (first
                + templates.take(j as int).map_values(to_template)).push(a));
        }
        j += 1;
    }
    proof {
        assert(templates.take(m as int) =~= templates);
    }
    actions
}

/// The results of the actions of a plan as plain values.
pub open spec fn outcome_views(v: Seq<Result<bool, ActionError>>) -> Seq<
    Result<bool, ActionErrorView>,
> {
    v.map_values(|r: Result<bool, ActionError>| outcome_view(r))
}

/// The cache after a plan was carried out with the given results: each action
/// that succeeded was applied to it, in the order of the plan, and no other.
pub open spec fn cache_after(
    cache: CacheView,
    plan: Seq<ActionView>,
    outcomes: Seq<Result<bool, ActionErrorView>>,
) -> CacheView
    decreases plan.len(),
{
    if plan.len() == 0 || outcomes.len() != plan.len() {
        cache
    } else {
        let before = cache_after(cache, plan.drop_last(), outcomes.drop_last());
        if outcomes.last() == Ok::<bool, ActionErrorView>(true) {
            plan.last().applied_to(before)
        } else {
            before
        }
    }
}

/// `trace` is what carrying out `plan` leaves behind, and `outcomes` holds the
/// result of each action: the trace is made of one run for each action, in the
/// order of the plan.
pub open spec fn is_execution(
    plan: Seq<ActionView>,
    force: bool,
    trace: Seq<Exchange>,
    outcomes: Seq<Result<bool, ActionErrorView>>,
) -> bool
    decreases plan.len(),
{
    if plan.len() == 0 {
        trace.len() == 0 && outcomes.len() == 0
    } else {
        &&& outcomes.len() == plan.len()
        &&& exists|cut: int|
            {
                &&& 0 <= cut <= trace.len()
                &&& is_execution(
                    plan.drop_last(),
                    force,
                    #[trigger] trace.take(cut),
                    outcomes.drop_last(),
                )
                &&& is_run(plan.last(), force, trace.skip(cut), outcomes.last())
            }
    }
}

/// What a deployment or its reverse did: the plan, and for each of its actions
/// how the run of it ended.
#[derive(Debug, PartialEq, Eq)]
pub struct Report {
    pub plan: Vec<Action>,
    pub outcomes: Vec<Result<bool, ActionError>>,
}

impl Report {
    /// Whether some action was skipped for a conflict that `force` would override.
    pub fn suggest_force(&self) -> (r: bool)
        ensures
            r == exists|i: int|
                0 <= i < self.outcomes@.len() && outcome_view(#[trigger] self.outcomes@[i]) == Ok::<
                    bool,
                    ActionErrorView,
                >(false),
    {
        let mut i: usize = 0;
        while i < self.outcomes.len()
            invariant
                i <= self.outcomes@.len(),
                forall|k: int|
                    0 <= k < i ==> outcome_view(#[trigger] self.outcomes@[k]) != Ok::<
                        bool,
                        ActionErrorView,
                    >(false),
            decreases self.outcomes@.len() - i,
        {
            match &self.outcomes[i] {
                Ok(applied) => {
                    if !*applied {
                        return true;
                    }
                },
                Err(_) => {},
            }
            i += 1;
        }
        false
    }

    /// Whether something went wrong: an action failed or was skipped.
    pub fn error_occurred(&self) -> (r: bool)
        ensures
            r == exists|i: int|
                0 <= i < self.outcomes@.len() && outcome_view(#[trigger] self.outcomes@[i]) != Ok::<
                    bool,
                    ActionErrorView,
                >(true),
    {
        let mut i: usize = 0;
        while i < self.outcomes.len()
            invariant
                i <= self.outcomes@.len(),
                forall|k: int|
                    0 <= k < i ==> outcome_view(#[trigger] self.outcomes@[k]) == Ok::<
                        bool,
                        ActionErrorView,
                    >(true),
            decreases self.outcomes@.len() - i,
        {
            match &self.outcomes[i] {
                Ok(applied) => {
                    if !*applied {
                        return true;
                    }
                },
                Err(_) => {
                    return true;
                },
            }
            i += 1;
        }
        false
    }
}

/// Runs the actions of `plan` in order. An action that succeeds is recorded in
/// the cache; one that is skipped or fails leaves the cache as it is, and the
/// actions after it are run all the same.
pub fn execute<F: Filesystem>(
    plan: Vec<Action>,
    cache: &mut Cache,
    session: &mut Session<F>,
    opt: &Options,
    handlebars: &handlebars::Handlebars<'_>,
    variables: &Variables,
) -> (report: Report)
    ensures
        report.plan@ == plan@,
        report.outcomes@.len() == plan@.len(),
        old(session).history().is_prefix_of(final(session).history()),
        is_execution(
            action_views(plan@),
            opt.force,
            final(session).history().skip(old(session).history().len() as int),
            outcome_views(report.outcomes@),
        ),
        final(cache)@ == cache_after(
            old(cache)@,
            action_views(plan@),
            outcome_views(report.outcomes@),
        ),
{
    let ghost start = session.history();
    let ghost actions = action_views(plan@);
    let mut outcomes: Vec<Result<bool, ActionError>> = Vec::new();
    let mut i: usize = 0;
    proof {
        assert(session.history().skip(start.len() as int) =~= Seq::empty());
        assert(actions.take(0) =~= Seq::empty());
        assert(outcome_views(outcomes@) =~= Seq::empty());
    }
    while i < plan.len()
        invariant
            i <= plan@.len(),
            outcomes@.len() == i,
            actions == action_views(plan@),
            start == old(session).history(),
            start.is_prefix_of(session.history()),
            is_execution(
                actions.take(i as int),
                opt.force,
                session.history().skip(start.len() as int),
                outcome_views(outcomes@),
            ),
            cache@ == cache_after(old(cache)@, actions.take(i as int), outcome_views(outcomes@)),
        decreases plan@.len() - i,
    {
        let ghost before = session.history();
        let ghost cache_before = cache@;
        let ghost outcomes_before = outcome_views(outcomes@);
        let result = plan[i].run(session, opt, handlebars, variables);
        let applied = match &result {
            Ok(applied) => *applied,
            Err(_) => false,
        };
        if applied {
            plan[i].affect_cache(cache);
        }
        let ghost outcome = outcome_view(result);
        outcomes.push(result);
        proof {
            let trace = session.history().skip(start.len() as int);
            let cut = before.len() - start.len();
            let next = actions.take(i + 1);
            let results = outcome_views(outcomes@);
            assert(next.drop_last() =~= actions.take(i as int));
            assert(next.last() == plan@[i as int]@);
            assert(results =~= outcomes_before.push(outcome));
            assert(results.drop_last() =~= outcomes_before);
            assert(trace.take(cut) =~= before.skip(start.len() as int));
            assert(trace.skip(cut) =~= session.history().skip(before.len() as int));
            assert(is_execution(next.drop_last(), opt.force, trace.take(cut), results.drop_last()));
            assert(is_run(next.last(), opt.force, trace.skip(cut), results.last()));
        }
        i += 1;
    }
    proof {
        assert(actions.take(i as int) =~= actions);
    }
    Report { plan, outcomes }
}

/// Deploys: plans the actions that take the existing state to the desired one,
/// runs them, and records in the cache what was applied. Where every action
/// succeeds, the cache ends as the record of exactly the desired entries,
/// provided that no source is desired twice and that the existing sets hold an
/// entry for every source that the cache recorded.
pub fn deploy<F: Filesystem>(
    opt: &Options,
    state: FileState,
    cache: &mut Cache,
    session: &mut Session<F>,
    handlebars: &handlebars::Handlebars<'_>,
    variables: &Variables,
) -> (report: Report)
    ensures
        action_views(report.plan@) == plan_of(state@),
        report.outcomes@.len() == report.plan@.len(),
        old(session).history().is_prefix_of(final(session).history()),
        is_execution(
            plan_of(state@),
            opt.force,
            final(session).history().skip(old(session).history().len() as int),
            outcome_views(report.outcomes@),
        ),
        final(cache)@ == cache_after(old(cache)@, plan_of(state@), outcome_views(report.outcomes@)),
        all_succeeded(outcome_views(report.outcomes@)) && distinct_symlink_sources(
            state@.desired_symlinks,
        ) && distinct_template_sources(state@.desired_templates) && existing_covers(
            state@,
            old(cache)@,
        ) ==> final(cache)@ == (CacheView {
            symlinks: symlink_record(state@.desired_symlinks),
            templates: template_record(state@.desired_templates),
        }),
{
    let ghost desired = state@;
    let plan = plan_deploy(state);
    let report = execute(plan, cache, session, opt, handlebars, variables);
    proof {
        let outcomes = outcome_views(report.outcomes@);
        if all_succeeded(outcomes) && distinct_symlink_sources(desired.desired_symlinks)
            && distinct_template_sources(desired.desired_templates) && existing_covers(
            desired,
            old(cache)@,
        ) {
            lemma_deploy_records_desired(desired, old(cache)@, outcomes);
        }
    }
    report
}

/// Takes down everything that the cache records: plans one deletion for each of
/// its entries, runs them, and takes out of the cache what was deleted. Where
/// every action succeeds, the cache ends empty.
pub fn undeploy<F: Filesystem>(
    opt: &Options,
    cache: &mut Cache,
    session: &mut Session<F>,
    handlebars: &handlebars::Handlebars<'_>,
    variables: &Variables,
) -> (report: Report)
    ensures
        action_views(report.plan@) == undeploy_plan_of(
            old(cache).symlinks.entries(),
            old(cache).templates.entries(),
            opt.cache_directory@,
        ),
        report.outcomes@.len() == report.plan@.len(),
        old(session).history().is_prefix_of(final(session).history()),
        is_execution(
            action_views(report.plan@),
            opt.force,
            final(session).history().skip(old(session).history().len() as int),
            outcome_views(report.outcomes@),
        ),
        final(cache)@ == cache_after(
            old(cache)@,
            action_views(report.plan@),
            outcome_views(report.outcomes@),
        ),
        all_succeeded(outcome_views(report.outcomes@)) ==> final(cache)@ == CacheView::empty(),
{
    let plan = plan_undeploy(cache, opt.cache_directory.as_str());
    let report = execute(plan, cache, session, opt, handlebars, variables);
    proof {
        let outcomes = outcome_views(report.outcomes@);
        if all_succeeded(outcomes) {
            lemma_undeploy_empties_cache(
                old(cache)@,
                old(cache).symlinks.entries(),
                old(cache).templates.entries(),
                opt.cache_directory@,
                outcomes,
            );
        }
    }
    report
}

} // verus!
