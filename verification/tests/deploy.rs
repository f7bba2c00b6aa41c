use dotter::actions::{
    delete_symlink_verdict, delete_template_verdict, deploy_symlink_verdict,
    deploy_template_verdict, Action, ActionError, Op, Verdict,
};
use dotter::args::Options;
use dotter::config::{Cache, SymbolicTarget, TemplateTarget, UnixUser};
use dotter::deploy::{plan_deploy, plan_undeploy};
use dotter::file_state::{FileState, SymlinkDescription, TemplateDescription};
use dotter::filesystem::{Filesystem, IoError, Session, SymlinkComparison, TemplateComparison};

/// One call that the filesystem double has seen, with its arguments.
#[derive(Debug, Clone, PartialEq, Eq)]
enum Seen {
    CompareSymlink(String, String),
    CompareTemplate(String, String),
    CreateDirAll(String, Option<UnixUser>),
    MakeSymlink(String, String, Option<UnixUser>),
    RemoveFile(String),
    RemoveDir(String),
    ReadToString(String),
    Write(String, String),
    CopyFile(String, String, Option<UnixUser>),
    CopyPermissions(String, String, Option<UnixUser>),
    SetOwner(String, Option<UnixUser>),
}

/// A filesystem double: it answers the comparisons as scripted, hands out the
/// scripted content, fails the call with the scripted number, and records every
/// call in order.
struct Scripted {
    symlink: Result<SymlinkComparison, IoError>,
    template: Result<TemplateComparison, IoError>,
    content: String,
    fail_at: Option<usize>,
    seen: Vec<Seen>,
}

impl Scripted {
    fn new() -> Scripted {
        Scripted {
            symlink: Ok(SymlinkComparison::BothMissing),
            template: Ok(TemplateComparison::BothMissing),
            content: String::new(),
            fail_at: None,
            seen: Vec::new(),
        }
    }

    fn with_symlink(comparison: SymlinkComparison) -> Scripted {
        let mut fs = Scripted::new();
        fs.symlink = Ok(comparison);
        fs
    }

    fn with_template(comparison: TemplateComparison, content: &str) -> Scripted {
        let mut fs = Scripted::new();
        fs.template = Ok(comparison);
        fs.content = content.to_string();
        fs
    }

    fn note(&mut self, call: Seen) -> Result<(), IoError> {
        let index = self.seen.len();
        self.seen.push(call);
        if self.fail_at == Some(index) {
            Err(IoError { message: format!("call {} failed", index) })
        } else {
            Ok(())
        }
    }
}

impl Filesystem for Scripted {
    fn compare_symlink(&mut self, source: &str, target: &str) -> Result<SymlinkComparison, IoError> {
        self.seen.push(Seen::CompareSymlink(source.to_string(), target.to_string()));
        self.symlink.clone()
    }

    fn compare_template(&mut self, target: &str, cache: &str) -> Result<TemplateComparison, IoError> {
        self.seen.push(Seen::CompareTemplate(target.to_string(), cache.to_string()));
        self.template.clone()
    }

    fn create_dir_all(&mut self, path: &str, owner: &Option<UnixUser>) -> Result<(), IoError> {
        self.note(Seen::CreateDirAll(path.to_string(), owner.clone()))
    }

    fn make_symlink(
        &mut self,
        target: &str,
        source: &str,
        owner: &Option<UnixUser>,
    ) -> Result<(), IoError> {
        self.note(Seen::MakeSymlink(target.to_string(), source.to_string(), owner.clone()))
    }

    fn remove_file(&mut self, path: &str) -> Result<(), IoError> {
        self.note(Seen::RemoveFile(path.to_string()))
    }

    fn remove_dir(&mut self, path: &str) -> Result<(), IoError> {
        self.note(Seen::RemoveDir(path.to_string()))
    }

    fn read_to_string(&mut self, path: &str) -> Result<String, IoError> {
        self.note(Seen::ReadToString(path.to_string()))?;
        Ok(self.content.clone())
    }

    fn write(&mut self, path: &str, content: String) -> Result<(), IoError> {
        self.note(Seen::Write(path.to_string(), content))
    }

    fn copy_file(&mut self, from: &str, to: &str, owner: &Option<UnixUser>) -> Result<(), IoError> {
        self.note(Seen::CopyFile(from.to_string(), to.to_string(), owner.clone()))
    }

    fn copy_permissions(
        &mut self,
        from: &str,
        to: &str,
        owner: &Option<UnixUser>,
    ) -> Result<(), IoError> {
        self.note(Seen::CopyPermissions(from.to_string(), to.to_string(), owner.clone()))
    }

    fn set_owner(&mut self, path: &str, owner: &Option<UnixUser>) -> Result<(), IoError> {
        self.note(Seen::SetOwner(path.to_string(), owner.clone()))
    }
}

fn symlink(source: &str, target: &str) -> SymlinkDescription {
    SymlinkDescription {
        source: source.into(),
        target: SymbolicTarget { target: target.into(), owner: None },
    }
}

fn template(source: &str, target: &str, cache: &str) -> TemplateDescription {
    TemplateDescription {
        source: source.into(),
        target: TemplateTarget { target: target.into(), owner: None, append: None, prepend: None },
        cache: cache.into(),
    }
}

fn run(action: &Action, fs: Scripted, force: bool) -> (Result<bool, ActionError>, Vec<Seen>) {
    let mut session = Session::new(fs);
    let options = Options { cache_directory: "cache".into(), force };
    let handlebars = handlebars::Handlebars::new();
    let variables = toml::value::Table::new();
    let result = action.run(&mut session, &options, &handlebars, &variables);
    (result, session.into_filesystem().seen)
}

#[test]
fn initial_deploy() {
    // File state
    let a = SymlinkDescription {
        source: "a_in".into(),
        target: SymbolicTarget { target: "a_out".into(), owner: None },
    };
    let b = TemplateDescription {
        source: "b_in".into(),
        target: TemplateTarget {
            target: "b_out".into(),
            owner: None,
            append: None,
            prepend: None,
        },
        cache: "cache/b_cache".into(),
    };
    let file_state = FileState {
        desired_symlinks: vec![a.clone()],
        desired_templates: vec![b.clone()],
        existing_symlinks: Vec::new(),
        existing_templates: Vec::new(),
    };

    // Plan
    let actions = plan_deploy(file_state);
    assert_eq!(actions, [Action::CreateSymlink(a), Action::CreateTemplate(b)]);

    // Setup
    let options = Options::default();
    let handlebars = handlebars::Handlebars::new();
    let variables = Default::default();

    // Action 1
    let mut session = Session::new(Scripted::with_symlink(SymlinkComparison::OnlySourceExists));
    actions[0].run(&mut session, &options, &handlebars, &variables).unwrap();
    assert_eq!(
        session.into_filesystem().seen,
        vec![
            Seen::CompareSymlink("a_in".into(), "a_out".into()),
            Seen::CreateDirAll("".into(), None), // parent of a_out
            Seen::MakeSymlink("a_out".into(), "a_in".into(), None),
        ]
    );

    // Action 2
    let mut session = Session::new(Scripted::with_template(TemplateComparison::BothMissing, ""));
    actions[1].run(&mut session, &options, &handlebars, &variables).unwrap();
    assert_eq!(
        session.into_filesystem().seen,
        vec![
            Seen::CompareTemplate("b_out".into(), "cache/b_cache".into()),
            Seen::CreateDirAll("".into(), None), // parent of b_out
            Seen::ReadToString("b_in".into()),
            Seen::CreateDirAll("cache".into(), None),
            Seen::Write("cache/b_cache".into(), String::from("")),
            Seen::CopyFile("cache/b_cache".into(), "b_out".into(), None),
            Seen::CopyPermissions("b_in".into(), "b_out".into(), None),
        ]
    );
}

#[test]
fn initial_deploy_records_the_link_in_the_cache() {
    let action = Action::CreateSymlink(symlink("a_in", "a_out"));
    let (result, _) = run(&action, Scripted::with_symlink(SymlinkComparison::BothMissing), false);
    assert_eq!(result, Ok(true));
    let mut cache = Cache::default();
    action.affect_cache(&mut cache);
    assert_eq!(cache.symlinks.get("a_in"), Some(&"a_out".to_string()));
    assert_eq!(cache.symlinks.len(), 1);
    assert_eq!(cache.templates.len(), 0);
}

#[test]
fn disjoint_sets_plan_creations_links_first() {
    let state = FileState {
        desired_symlinks: vec![symlink("a", "x"), symlink("b", "y")],
        desired_templates: vec![template("c", "z", "cache/c")],
        existing_symlinks: Vec::new(),
        existing_templates: Vec::new(),
    };
    assert_eq!(
        plan_deploy(state),
        vec![
            Action::CreateSymlink(symlink("a", "x")),
            Action::CreateSymlink(symlink("b", "y")),
            Action::CreateTemplate(template("c", "z", "cache/c")),
        ]
    );
}

#[test]
fn disjoint_sets_delete_what_exists_before_creating() {
    let state = FileState {
        desired_symlinks: vec![symlink("a", "x")],
        desired_templates: vec![template("c", "z", "cache/c")],
        existing_symlinks: vec![symlink("old", "o")],
        existing_templates: vec![template("t", "u", "cache/t")],
    };
    assert_eq!(
        plan_deploy(state),
        vec![
            Action::DeleteSymlink { source: "old".into(), target: "o".into() },
            Action::DeleteTemplate { source: "t".into(), cache: "cache/t".into(), target: "u".into() },
            Action::CreateSymlink(symlink("a", "x")),
            Action::CreateTemplate(template("c", "z", "cache/c")),
        ]
    );
}

#[test]
fn identical_sets_plan_updates_only() {
    let state = FileState {
        desired_symlinks: vec![symlink("a", "x"), symlink("b", "y")],
        desired_templates: vec![template("c", "z", "cache/c")],
        existing_symlinks: vec![symlink("b", "y"), symlink("a", "x")],
        existing_templates: vec![template("c", "z", "cache/c")],
    };
    assert_eq!(
        plan_deploy(state),
        vec![
            Action::UpdateSymlink(symlink("a", "x")),
            Action::UpdateSymlink(symlink("b", "y")),
            Action::UpdateTemplate(template("c", "z", "cache/c")),
        ]
    );
}

#[test]
fn an_update_carries_the_desired_description() {
    let mut desired = symlink("a", "x");
    desired.target.owner = Some(UnixUser::Name("root".into()));
    let state = FileState {
        desired_symlinks: vec![desired.clone()],
        desired_templates: Vec::new(),
        existing_symlinks: vec![symlink("a", "x")],
        existing_templates: Vec::new(),
    };
    assert_eq!(plan_deploy(state), vec![Action::UpdateSymlink(desired)]);
}

#[test]
fn all_six_phases_come_in_order() {
    let state = FileState {
        desired_symlinks: vec![symlink("keep", "k"), symlink("new", "n")],
        desired_templates: vec![template("tnew", "tn", "cache/tnew"), template("tkeep", "tk", "cache/tkeep")],
        existing_symlinks: vec![symlink("gone", "g"), symlink("keep", "k")],
        existing_templates: vec![template("tkeep", "tk", "cache/tkeep"), template("tgone", "tg", "cache/tgone")],
    };
    assert_eq!(
        plan_deploy(state),
        vec![
            Action::DeleteSymlink { source: "gone".into(), target: "g".into() },
            Action::DeleteTemplate {
                source: "tgone".into(),
                cache: "cache/tgone".into(),
                target: "tg".into(),
            },
            Action::CreateSymlink(symlink("new", "n")),
            Action::CreateTemplate(template("tnew", "tn", "cache/tnew")),
            Action::UpdateSymlink(symlink("keep", "k")),
            Action::UpdateTemplate(template("tkeep", "tk", "cache/tkeep")),
        ]
    );
}

#[test]
fn a_vacated_path_is_deleted_before_it_is_created_anew() {
    // The entry at path P moves away and another entry takes the path.
    let state = FileState {
        desired_symlinks: vec![symlink("second", "P"), symlink("first", "Q")],
        desired_templates: Vec::new(),
        existing_symlinks: vec![symlink("first", "P")],
        existing_templates: Vec::new(),
    };
    assert_eq!(
        plan_deploy(state),
        vec![
            Action::DeleteSymlink { source: "first".into(), target: "P".into() },
            Action::CreateSymlink(symlink("second", "P")),
            Action::CreateSymlink(symlink("first", "Q")),
        ]
    );
}

#[test]
fn an_empty_state_plans_nothing() {
    let state = FileState {
        desired_symlinks: Vec::new(),
        desired_templates: Vec::new(),
        existing_symlinks: Vec::new(),
        existing_templates: Vec::new(),
    };
    assert_eq!(plan_deploy(state), Vec::<Action>::new());
}

#[test]
fn undeploy_plans_one_deletion_for_each_cache_entry() {
    let mut cache = Cache::default();
    cache.symlinks.insert("z_in".into(), "z_out".into());
    cache.symlinks.insert("a_in".into(), "a_out".into());
    cache.templates.insert("b_in".into(), "b_out".into());
    assert_eq!(
        plan_undeploy(&cache, "cache"),
        vec![
            Action::DeleteSymlink { source: "a_in".into(), target: "a_out".into() },
            Action::DeleteSymlink { source: "z_in".into(), target: "z_out".into() },
            Action::DeleteTemplate {
                source: "b_in".into(),
                cache: "cache/b_in".into(),
                target: "b_out".into(),
            },
        ]
    );
}

#[test]
fn undeploy_of_an_empty_cache_plans_nothing() {
    assert_eq!(plan_undeploy(&Cache::default(), "cache"), Vec::<Action>::new());
}

#[test]
fn an_identical_link_is_left_alone() {
    for action in [
        Action::CreateSymlink(symlink("a_in", "a_out")),
        Action::UpdateSymlink(symlink("a_in", "a_out")),
    ] {
        for force in [false, true] {
            let (result, seen) =
                run(&action, Scripted::with_symlink(SymlinkComparison::Identical), force);
            assert_eq!(result, Ok(true));
            assert_eq!(seen, vec![Seen::CompareSymlink("a_in".into(), "a_out".into())]);
        }
    }
}

#[test]
fn an_identical_template_is_left_alone() {
    for action in [
        Action::CreateTemplate(template("b_in", "b_out", "cache/b_in")),
        Action::UpdateTemplate(template("b_in", "b_out", "cache/b_in")),
    ] {
        let (result, seen) =
            run(&action, Scripted::with_template(TemplateComparison::Identical, "x"), false);
        assert_eq!(result, Ok(true));
        assert_eq!(seen, vec![Seen::CompareTemplate("b_out".into(), "cache/b_in".into())]);
    }
}

#[test]
fn an_identical_update_leaves_the_cache_unchanged() {
    let mut cache = Cache::default();
    cache.symlinks.insert("a_in".into(), "a_out".into());
    cache.templates.insert("b_in".into(), "b_out".into());
    Action::UpdateSymlink(symlink("a_in", "a_out")).affect_cache(&mut cache);
    Action::UpdateTemplate(template("b_in", "b_out", "cache/b_in")).affect_cache(&mut cache);
    let mut expected = Cache::default();
    expected.symlinks.insert("a_in".into(), "a_out".into());
    expected.templates.insert("b_in".into(), "b_out".into());
    assert_eq!(cache, expected);
}

#[test]
fn a_conflict_is_skipped_without_force() {
    for comparison in [SymlinkComparison::OnlyTargetExists, SymlinkComparison::Mismatch] {
        for action in [
            Action::CreateSymlink(symlink("a_in", "dir/a_out")),
            Action::UpdateSymlink(symlink("a_in", "dir/a_out")),
            Action::DeleteSymlink { source: "a_in".into(), target: "dir/a_out".into() },
        ] {
            let (result, seen) = run(&action, Scripted::with_symlink(comparison), false);
            assert_eq!(result, Ok(false));
            assert_eq!(seen, vec![Seen::CompareSymlink("a_in".into(), "dir/a_out".into())]);
        }
    }
}

#[test]
fn a_conflict_is_overwritten_with_force() {
    for comparison in [SymlinkComparison::OnlyTargetExists, SymlinkComparison::Mismatch] {
        for action in [
            Action::CreateSymlink(symlink("a_in", "dir/a_out")),
            Action::UpdateSymlink(symlink("a_in", "dir/a_out")),
        ] {
            let (result, seen) = run(&action, Scripted::with_symlink(comparison), true);
            assert_eq!(result, Ok(true));
            assert_eq!(
                seen,
                vec![
                    Seen::CompareSymlink("a_in".into(), "dir/a_out".into()),
                    Seen::RemoveFile("dir/a_out".into()),
                    Seen::CreateDirAll("dir".into(), None),
                    Seen::MakeSymlink("dir/a_out".into(), "a_in".into(), None),
                ]
            );
        }
    }
}

#[test]
fn a_template_in_conflict_is_gated_by_force() {
    let action = Action::CreateTemplate(template("b_in", "out/b_out", "cache/b_in"));
    for comparison in [
        TemplateComparison::OnlyTargetExists,
        TemplateComparison::OnlyCacheExists,
        TemplateComparison::Mismatch,
    ] {
        let (result, seen) = run(&action, Scripted::with_template(comparison, "text"), false);
        assert_eq!(result, Ok(false));
        assert_eq!(seen, vec![Seen::CompareTemplate("out/b_out".into(), "cache/b_in".into())]);

        let (result, seen) = run(&action, Scripted::with_template(comparison, "text"), true);
        assert_eq!(result, Ok(true));
        assert_eq!(
            seen,
            vec![
                Seen::CompareTemplate("out/b_out".into(), "cache/b_in".into()),
                Seen::RemoveFile("out/b_out".into()),
                Seen::CreateDirAll("out".into(), None),
                Seen::ReadToString("b_in".into()),
                Seen::CreateDirAll("cache".into(), None),
                Seen::Write("cache/b_in".into(), "text".into()),
                Seen::CopyFile("cache/b_in".into(), "out/b_out".into(), None),
                Seen::CopyPermissions("b_in".into(), "out/b_out".into(), None),
            ]
        );
    }
}

#[test]
fn a_link_is_deleted_when_it_is_still_the_recorded_one() {
    let action = Action::DeleteSymlink { source: "a_in".into(), target: "a_out".into() };
    let (result, seen) = run(&action, Scripted::with_symlink(SymlinkComparison::Identical), false);
    assert_eq!(result, Ok(true));
    assert_eq!(
        seen,
        vec![
            Seen::CompareSymlink("a_in".into(), "a_out".into()),
            Seen::RemoveFile("a_out".into()),
        ]
    );
    let (result, seen) = run(&action, Scripted::with_symlink(SymlinkComparison::Mismatch), true);
    assert_eq!(result, Ok(true));
    assert_eq!(seen.len(), 2);
    assert_eq!(seen[1], Seen::RemoveFile("a_out".into()));
}

#[test]
fn a_template_is_deleted_with_its_cached_artifact() {
    let action = Action::DeleteTemplate {
        source: "b_in".into(),
        cache: "cache/b_in".into(),
        target: "b_out".into(),
    };
    let (result, seen) =
        run(&action, Scripted::with_template(TemplateComparison::Identical, ""), false);
    assert_eq!(result, Ok(true));
    assert_eq!(
        seen,
        vec![
            Seen::CompareTemplate("b_out".into(), "cache/b_in".into()),
            Seen::RemoveFile("b_out".into()),
            Seen::RemoveFile("cache/b_in".into()),
        ]
    );
    let (result, seen) =
        run(&action, Scripted::with_template(TemplateComparison::Mismatch, ""), false);
    assert_eq!(result, Ok(false));
    assert_eq!(seen.len(), 1);
}

#[test]
fn the_owner_goes_to_the_target_and_not_to_the_cache() {
    let owner = Some(UnixUser::Uid(1000));
    let mut description = template("b_in", "out/b_out", "cache/b_in");
    description.target.owner = owner.clone();
    let action = Action::CreateTemplate(description);
    let (result, seen) =
        run(&action, Scripted::with_template(TemplateComparison::BothMissing, "text"), false);
    assert_eq!(result, Ok(true));
    assert_eq!(
        seen,
        vec![
            Seen::CompareTemplate("out/b_out".into(), "cache/b_in".into()),
            Seen::CreateDirAll("out".into(), owner.clone()),
            Seen::ReadToString("b_in".into()),
            Seen::CreateDirAll("cache".into(), None),
            Seen::Write("cache/b_in".into(), "text".into()),
            Seen::CopyFile("cache/b_in".into(), "out/b_out".into(), owner.clone()),
            Seen::CopyPermissions("b_in".into(), "out/b_out".into(), owner),
        ]
    );
}

#[test]
fn a_template_is_rendered_with_the_variables() {
    let mut description = template("b_in", "b_out", "cache/b_in");
    description.target.prepend = Some("# {{name}}\n".into());
    description.target.append = Some("\nbye".into());
    let action = Action::CreateTemplate(description);
    let fs = Scripted::with_template(TemplateComparison::BothMissing, "hello {{name}}");
    let mut session = Session::new(fs);
    let options = Options::default();
    let handlebars = handlebars::Handlebars::new();
    let mut variables = toml::value::Table::new();
    variables.insert("name".into(), toml::Value::String("world".into()));
    let result = action.run(&mut session, &options, &handlebars, &variables);
    assert_eq!(result, Ok(true));
    let seen = session.into_filesystem().seen;
    assert_eq!(seen[4], Seen::Write("cache/b_in".into(), "# world\nhello world\nbye".into()));
}

#[test]
fn a_template_that_does_not_render_fails_at_that_step() {
    let action = Action::CreateTemplate(template("b_in", "b_out", "cache/b_in"));
    let fs = Scripted::with_template(TemplateComparison::BothMissing, "{{#if}}");
    let (result, seen) = run(&action, fs, false);
    match result {
        Err(ActionError::Step { op, cause }) => {
            assert_eq!(op, Op::Render { prepend: None, append: None });
            assert!(!cause.message.is_empty());
        }
        other => panic!("expected a failed step, got {:?}", other),
    }
    assert_eq!(
        seen,
        vec![
            Seen::CompareTemplate("b_out".into(), "cache/b_in".into()),
            Seen::CreateDirAll("".into(), None),
            Seen::ReadToString("b_in".into()),
        ]
    );
}

#[test]
fn a_failed_comparison_fails_the_action() {
    let mut fs = Scripted::new();
    fs.symlink = Err(IoError { message: "no access".into() });
    let action = Action::CreateSymlink(symlink("a_in", "a_out"));
    let (result, seen) = run(&action, fs, true);
    assert_eq!(result, Err(ActionError::Compare(IoError { message: "no access".into() })));
    assert_eq!(seen.len(), 1);
}

#[test]
fn a_failed_step_stops_the_action() {
    let mut fs = Scripted::with_symlink(SymlinkComparison::OnlySourceExists);
    fs.fail_at = Some(1);
    let action = Action::CreateSymlink(symlink("a_in", "dir/a_out"));
    let (result, seen) = run(&action, fs, false);
    assert_eq!(
        result,
        Err(ActionError::Step {
            op: Op::CreateDirAll { path: "dir".into(), owner: None },
            cause: IoError { message: "call 1 failed".into() },
        })
    );
    assert_eq!(
        seen,
        vec![
            Seen::CompareSymlink("a_in".into(), "dir/a_out".into()),
            Seen::CreateDirAll("dir".into(), None),
        ]
    );
}

#[test]
fn a_target_without_a_parent_is_refused() {
    let action = Action::CreateSymlink(symlink("a_in", "/"));
    let (result, seen) = run(&action, Scripted::with_symlink(SymlinkComparison::BothMissing), false);
    assert_eq!(result, Err(ActionError::NoParent { path: "/".into() }));
    assert_eq!(seen.len(), 1);
}

#[test]
fn verdicts_for_a_link_to_deploy() {
    let d = symlink("a_in", "dir/a_out");
    let create = vec![
        Op::CreateDirAll { path: "dir".into(), owner: None },
        Op::MakeSymlink { target: "dir/a_out".into(), source: "a_in".into(), owner: None },
    ];
    let mut replace = vec![Op::RemoveFile { path: "dir/a_out".into() }];
    replace.extend(create.clone());
    let parent = || Some("dir".to_string());
    for force in [false, true] {
        assert_eq!(
            deploy_symlink_verdict(&d, SymlinkComparison::Identical, force, parent()),
            Verdict::Apply(Vec::new())
        );
        assert_eq!(
            deploy_symlink_verdict(&d, SymlinkComparison::BothMissing, force, parent()),
            Verdict::Apply(create.clone())
        );
        assert_eq!(
            deploy_symlink_verdict(&d, SymlinkComparison::OnlySourceExists, force, parent()),
            Verdict::Apply(create.clone())
        );
    }
    assert_eq!(
        deploy_symlink_verdict(&d, SymlinkComparison::OnlyTargetExists, false, parent()),
        Verdict::Skip
    );
    assert_eq!(
        deploy_symlink_verdict(&d, SymlinkComparison::Mismatch, false, None),
        Verdict::Skip
    );
    assert_eq!(
        deploy_symlink_verdict(&d, SymlinkComparison::OnlyTargetExists, true, parent()),
        Verdict::Apply(replace.clone())
    );
    assert_eq!(
        deploy_symlink_verdict(&d, SymlinkComparison::Mismatch, true, parent()),
        Verdict::Apply(replace)
    );
    assert_eq!(
        deploy_symlink_verdict(&d, SymlinkComparison::BothMissing, false, None),
        Verdict::NoParent("dir/a_out".into())
    );
    assert_eq!(
        deploy_symlink_verdict(&d, SymlinkComparison::Identical, false, None),
        Verdict::Apply(Vec::new())
    );
}

#[test]
fn verdicts_for_a_template_to_deploy() {
    let d = template("b_in", "out/b_out", "cache/b_in");
    let target_parent = || Some("out".to_string());
    let cache_parent = || Some("cache".to_string());
    assert_eq!(
        deploy_template_verdict(&d, TemplateComparison::Identical, false, None, None),
        Verdict::Apply(Vec::new())
    );
    assert_eq!(
        deploy_template_verdict(&d, TemplateComparison::BothMissing, false, None, cache_parent()),
        Verdict::NoParent("out/b_out".into())
    );
    assert_eq!(
        deploy_template_verdict(&d, TemplateComparison::BothMissing, false, target_parent(), None),
        Verdict::NoParent("cache/b_in".into())
    );
    match deploy_template_verdict(
        &d,
        TemplateComparison::BothMissing,
        false,
        target_parent(),
        cache_parent(),
    ) {
        Verdict::Apply(ops) => {
            assert_eq!(ops.len(), 7);
            assert_eq!(ops[1], Op::ReadToString { path: "b_in".into() });
            assert_eq!(ops[2], Op::Render { prepend: None, append: None });
            assert_eq!(ops[4], Op::Write { path: "cache/b_in".into() });
        }
        other => panic!("expected steps, got {:?}", other),
    }
    match deploy_template_verdict(
        &d,
        TemplateComparison::OnlyCacheExists,
        true,
        target_parent(),
        cache_parent(),
    ) {
        Verdict::Apply(ops) => {
            assert_eq!(ops.len(), 8);
            assert_eq!(ops[0], Op::RemoveFile { path: "out/b_out".into() });
        }
        other => panic!("expected steps, got {:?}", other),
    }
    assert_eq!(
        deploy_template_verdict(
            &d,
            TemplateComparison::OnlyCacheExists,
            false,
            target_parent(),
            cache_parent()
        ),
        Verdict::Skip
    );
}

#[test]
fn verdicts_for_deletions() {
    assert_eq!(
        delete_symlink_verdict("a_out", SymlinkComparison::Identical, false),
        Verdict::Apply(vec![Op::RemoveFile { path: "a_out".into() }])
    );
    assert_eq!(delete_symlink_verdict("a_out", SymlinkComparison::BothMissing, false), Verdict::Skip);
    assert_eq!(
        delete_symlink_verdict("a_out", SymlinkComparison::OnlyTargetExists, true),
        Verdict::Apply(vec![Op::RemoveFile { path: "a_out".into() }])
    );
    assert_eq!(
        delete_template_verdict("b_out", "cache/b_in", TemplateComparison::Identical, false),
        Verdict::Apply(vec![
            Op::RemoveFile { path: "b_out".into() },
            Op::RemoveFile { path: "cache/b_in".into() },
        ])
    );
    assert_eq!(
        delete_template_verdict("b_out", "cache/b_in", TemplateComparison::OnlyTargetExists, false),
        Verdict::Skip
    );
}

#[test]
fn the_default_options_do_not_force() {
    let options = Options::default();
    assert!(!options.force);
    assert_eq!(options.cache_directory, ".dotter/cache");
}
