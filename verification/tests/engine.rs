use dotter::actions::{Action, ActionError};
use dotter::args::Options;
use dotter::config::{Cache, Configuration, FileTarget, SymbolicTarget, TemplateTarget, UnixUser};
use dotter::deploy::{deploy, execute, undeploy, Report};
use dotter::file_state::{file_state_from_configuration, SymlinkDescription};
use dotter::filesystem::{
    classify_symlink, classify_template, DryRun, FileContent, Filesystem, IoError, LinkState,
    Session, SymlinkComparison, TemplateComparison,
};
use std::collections::{BTreeMap, BTreeSet};

/// A filesystem in memory: regular files with their content, symbolic links with
/// the path they point to, and directories. It counts the calls that change it.
#[derive(Debug, Clone, PartialEq, Eq, Default)]
struct Memory {
    files: BTreeMap<String, String>,
    links: BTreeMap<String, String>,
    dirs: BTreeSet<String>,
    changes: usize,
}

impl Memory {
    fn with_files(files: &[(&str, &str)]) -> Memory {
        let mut fs = Memory::default();
        for (path, content) in files {
            fs.files.insert(path.to_string(), content.to_string());
        }
        fs
    }

    fn link_state(&self, path: &str) -> LinkState {
        if let Some(destination) = self.links.get(path) {
            LinkState::Link(destination.clone())
        } else if self.files.contains_key(path) || self.dirs.contains(path) {
            LinkState::Other
        } else {
            LinkState::Missing
        }
    }

    fn content(&self, path: &str) -> FileContent {
        if let Some(text) = self.files.get(path) {
            FileContent::Text(text.clone())
        } else if self.links.contains_key(path) || self.dirs.contains(path) {
            FileContent::Other
        } else {
            FileContent::Missing
        }
    }
}

fn missing(path: &str) -> IoError {
    IoError { message: format!("{}: no such file", path) }
}

impl Filesystem for Memory {
    fn compare_symlink(&mut self, source: &str, target: &str) -> Result<SymlinkComparison, IoError> {
        let source_exists = self.files.contains_key(source);
        Ok(classify_symlink(source_exists, source, &self.link_state(target)))
    }

    fn compare_template(&mut self, target: &str, cache: &str) -> Result<TemplateComparison, IoError> {
        Ok(classify_template(&self.content(target), &self.content(cache)))
    }

    fn create_dir_all(&mut self, path: &str, _owner: &Option<UnixUser>) -> Result<(), IoError> {
        self.changes += 1;
        self.dirs.insert(path.to_string());
        Ok(())
    }

    fn make_symlink(
        &mut self,
        target: &str,
        source: &str,
        _owner: &Option<UnixUser>,
    ) -> Result<(), IoError> {
        self.changes += 1;
        if self.links.contains_key(target) || self.files.contains_key(target) {
            return Err(IoError { message: format!("{}: exists", target) });
        }
        self.links.insert(target.to_string(), source.to_string());
        Ok(())
    }

    fn remove_file(&mut self, path: &str) -> Result<(), IoError> {
        self.changes += 1;
        if self.links.remove(path).is_some() || self.files.remove(path).is_some() {
            Ok(())
        } else {
            Err(missing(path))
        }
    }

    fn remove_dir(&mut self, path: &str) -> Result<(), IoError> {
        self.changes += 1;
        if self.dirs.remove(path) {
            Ok(())
        } else {
            Err(missing(path))
        }
    }

    fn read_to_string(&mut self, path: &str) -> Result<String, IoError> {
        self.files.get(path).cloned().ok_or_else(|| missing(path))
    }

    fn write(&mut self, path: &str, content: String) -> Result<(), IoError> {
        self.changes += 1;
        self.files.insert(path.to_string(), content);
        Ok(())
    }

    fn copy_file(&mut self, from: &str, to: &str, _owner: &Option<UnixUser>) -> Result<(), IoError> {
        self.changes += 1;
        let content = self.files.get(from).cloned().ok_or_else(|| missing(from))?;
        self.files.insert(to.to_string(), content);
        Ok(())
    }

    fn copy_permissions(
        &mut self,
        from: &str,
        _to: &str,
        _owner: &Option<UnixUser>,
    ) -> Result<(), IoError> {
        self.changes += 1;
        if self.files.contains_key(from) {
            Ok(())
        } else {
            Err(missing(from))
        }
    }

    fn set_owner(&mut self, _path: &str, _owner: &Option<UnixUser>) -> Result<(), IoError> {
        self.changes += 1;
        Ok(())
    }
}

fn configuration() -> Configuration {
    Configuration {
        files: vec![
            (
                "b_in".to_string(),
                FileTarget::ComplexTemplate(TemplateTarget {
                    target: "home/b_out".into(),
                    owner: None,
                    append: None,
                    prepend: None,
                }),
            ),
            (
                "a_in".to_string(),
                FileTarget::Symbolic(SymbolicTarget { target: "home/a_out".into(), owner: None }),
            ),
        ],
    }
}

fn options(force: bool) -> Options {
    Options { cache_directory: "cache".into(), force }
}

fn variables() -> toml::value::Table {
    let mut table = toml::value::Table::new();
    table.insert("name".into(), toml::Value::String("world".into()));
    table
}

fn run_deploy(
    fs: Memory,
    config: &Configuration,
    cache: &mut Cache,
    force: bool,
) -> (Report, Memory) {
    let opt = options(force);
    let state = file_state_from_configuration(config, cache, &opt.cache_directory).unwrap();
    let mut session = Session::new(fs);
    let handlebars = handlebars::Handlebars::new();
    let report = deploy(&opt, state, cache, &mut session, &handlebars, &variables());
    (report, session.into_filesystem())
}

fn run_undeploy(fs: Memory, cache: &mut Cache, force: bool) -> (Report, Memory) {
    let opt = options(force);
    let mut session = Session::new(fs);
    let handlebars = handlebars::Handlebars::new();
    let report = undeploy(&opt, cache, &mut session, &handlebars, &variables());
    (report, session.into_filesystem())
}

fn entries(map: &dotter::path_map::PathMap) -> Vec<(String, String)> {
    let mut out = Vec::new();
    for i in 0..map.len() {
        let (key, value) = map.entry(i);
        out.push((key.clone(), value.clone()));
    }
    out
}

#[test]
fn a_first_deployment_creates_everything() {
    let fs = Memory::with_files(&[("a_in", "A"), ("b_in", "hello {{name}}")]);
    let mut cache = Cache::default();
    let (report, fs) = run_deploy(fs, &configuration(), &mut cache, false);

    assert_eq!(
        report.plan,
        vec![
            Action::CreateSymlink(SymlinkDescription {
                source: "a_in".into(),
                target: SymbolicTarget { target: "home/a_out".into(), owner: None },
            }),
            Action::CreateTemplate(dotter::file_state::TemplateDescription {
                source: "b_in".into(),
                target: TemplateTarget {
                    target: "home/b_out".into(),
                    owner: None,
                    append: None,
                    prepend: None,
                },
                cache: "cache/b_in".into(),
            }),
        ]
    );
    assert_eq!(report.outcomes, vec![Ok(true), Ok(true)]);
    assert!(!report.error_occurred());
    assert!(!report.suggest_force());

    assert_eq!(fs.links.get("home/a_out"), Some(&"a_in".to_string()));
    assert_eq!(fs.files.get("cache/b_in"), Some(&"hello world".to_string()));
    assert_eq!(fs.files.get("home/b_out"), Some(&"hello world".to_string()));
    assert!(fs.dirs.contains("home"));
    assert!(fs.dirs.contains("cache"));

    assert_eq!(entries(&cache.symlinks), vec![("a_in".to_string(), "home/a_out".to_string())]);
    assert_eq!(entries(&cache.templates), vec![("b_in".to_string(), "home/b_out".to_string())]);
}

#[test]
fn a_second_deployment_changes_nothing() {
    let fs = Memory::with_files(&[("a_in", "A"), ("b_in", "hello {{name}}")]);
    let mut cache = Cache::default();
    let (first, fs) = run_deploy(fs, &configuration(), &mut cache, false);
    assert_eq!(first.outcomes, vec![Ok(true), Ok(true)]);
    let cache_before = cache.clone();
    let fs_before = fs.clone();

    let (second, fs) = run_deploy(fs, &configuration(), &mut cache, false);
    assert_eq!(second.plan.len(), 2);
    assert!(matches!(second.plan[0], Action::UpdateSymlink(_)));
    assert!(matches!(second.plan[1], Action::UpdateTemplate(_)));
    assert_eq!(second.outcomes, vec![Ok(true), Ok(true)]);
    assert!(!second.error_occurred());
    assert_eq!(fs, fs_before);
    assert_eq!(fs.changes, fs_before.changes);
    assert_eq!(cache, cache_before);
}

#[test]
fn undeploy_takes_everything_down_and_empties_the_cache() {
    let fs = Memory::with_files(&[("a_in", "A"), ("b_in", "hello {{name}}")]);
    let mut cache = Cache::default();
    let (_, fs) = run_deploy(fs, &configuration(), &mut cache, false);

    let (report, fs) = run_undeploy(fs, &mut cache, false);
    assert_eq!(
        report.plan,
        vec![
            Action::DeleteSymlink { source: "a_in".into(), target: "home/a_out".into() },
            Action::DeleteTemplate {
                source: "b_in".into(),
                cache: "cache/b_in".into(),
                target: "home/b_out".into(),
            },
        ]
    );
    assert_eq!(report.outcomes, vec![Ok(true), Ok(true)]);
    assert_eq!(cache.symlinks.len(), 0);
    assert_eq!(cache.templates.len(), 0);
    assert_eq!(cache, Cache::default());
    assert!(fs.links.is_empty());
    assert!(!fs.files.contains_key("home/b_out"));
    assert!(!fs.files.contains_key("cache/b_in"));
    assert!(fs.files.contains_key("a_in"));
    assert!(fs.files.contains_key("b_in"));
}

#[test]
fn an_occupied_target_is_skipped_without_force() {
    // The target exists and the source does not: only the target exists.
    let fs = Memory::with_files(&[("home/a_out", "mine")]);
    let before = fs.clone();
    let config = Configuration {
        files: vec![(
            "a_in".to_string(),
            FileTarget::Symbolic(SymbolicTarget { target: "home/a_out".into(), owner: None }),
        )],
    };
    let mut cache = Cache::default();
    let (report, fs) = run_deploy(fs, &config, &mut cache, false);
    assert_eq!(report.outcomes, vec![Ok(false)]);
    assert!(report.suggest_force());
    assert!(report.error_occurred());
    assert_eq!(fs, before);
    assert_eq!(cache, Cache::default());
}

#[test]
fn an_occupied_target_is_replaced_with_force() {
    let fs = Memory::with_files(&[("home/a_out", "mine")]);
    let config = Configuration {
        files: vec![(
            "a_in".to_string(),
            FileTarget::Symbolic(SymbolicTarget { target: "home/a_out".into(), owner: None }),
        )],
    };
    let mut cache = Cache::default();
    let (report, fs) = run_deploy(fs, &config, &mut cache, true);
    assert_eq!(report.outcomes, vec![Ok(true)]);
    assert!(!report.suggest_force());
    assert!(!report.error_occurred());
    assert!(!fs.files.contains_key("home/a_out"));
    assert_eq!(fs.links.get("home/a_out"), Some(&"a_in".to_string()));
    assert_eq!(cache.symlinks.get("a_in"), Some(&"home/a_out".to_string()));
}

#[test]
fn a_failed_action_does_not_stop_the_plan() {
    // The template's source is missing, so reading it fails; the link after it in
    // the plan is still handled, and only the link reaches the cache.
    let fs = Memory::with_files(&[("a_in", "A")]);
    let config = Configuration {
        files: vec![
            (
                "b_in".to_string(),
                FileTarget::ComplexTemplate(TemplateTarget {
                    target: "home/b_out".into(),
                    owner: None,
                    append: None,
                    prepend: None,
                }),
            ),
            (
                "a_in".to_string(),
                FileTarget::Symbolic(SymbolicTarget { target: "home/a_out".into(), owner: None }),
            ),
            (
                "c_in".to_string(),
                FileTarget::Symbolic(SymbolicTarget { target: "home/c_out".into(), owner: None }),
            ),
        ],
    };
    let mut cache = Cache::default();
    let (report, fs) = run_deploy(fs, &config, &mut cache, false);
    assert_eq!(report.plan.len(), 3);
    assert_eq!(report.outcomes[0], Ok(true));
    assert_eq!(report.outcomes[1], Ok(true));
    assert!(matches!(report.outcomes[2], Err(ActionError::Step { .. })));
    assert!(report.error_occurred());
    assert!(!report.suggest_force());
    assert_eq!(fs.links.len(), 2);
    assert_eq!(cache.symlinks.len(), 2);
    assert_eq!(cache.templates.len(), 0);
}

#[test]
fn a_changed_target_moves_the_link() {
    let fs = Memory::with_files(&[("a_in", "A")]);
    let mut cache = Cache::default();
    let old = Configuration {
        files: vec![(
            "a_in".to_string(),
            FileTarget::Symbolic(SymbolicTarget { target: "home/old".into(), owner: None }),
        )],
    };
    let (_, fs) = run_deploy(fs, &old, &mut cache, false);
    assert_eq!(fs.links.get("home/old"), Some(&"a_in".to_string()));

    let new = Configuration {
        files: vec![(
            "a_in".to_string(),
            FileTarget::Symbolic(SymbolicTarget { target: "home/new".into(), owner: None }),
        )],
    };
    let (report, fs) = run_deploy(fs, &new, &mut cache, false);
    assert!(matches!(report.plan[0], Action::DeleteSymlink { .. }));
    assert!(matches!(report.plan[1], Action::CreateSymlink(_)));
    assert_eq!(report.outcomes, vec![Ok(true), Ok(true)]);
    assert!(!fs.links.contains_key("home/old"));
    assert_eq!(fs.links.get("home/new"), Some(&"a_in".to_string()));
    assert_eq!(entries(&cache.symlinks), vec![("a_in".to_string(), "home/new".to_string())]);
}

#[test]
fn an_externally_changed_link_is_not_deleted_without_force() {
    let fs = Memory::with_files(&[("a_in", "A")]);
    let mut cache = Cache::default();
    let (_, mut fs) = run_deploy(fs, &configuration_of_one_link(), &mut cache, false);
    fs.links.insert("home/a_out".into(), "elsewhere".into());

    let (report, fs) = run_undeploy(fs, &mut cache, false);
    assert_eq!(report.outcomes, vec![Ok(false)]);
    assert!(report.suggest_force());
    assert_eq!(fs.links.get("home/a_out"), Some(&"elsewhere".to_string()));
    assert_eq!(cache.symlinks.len(), 1);

    let (report, fs) = run_undeploy(fs, &mut cache, true);
    assert_eq!(report.outcomes, vec![Ok(true)]);
    assert!(fs.links.is_empty());
    assert_eq!(cache.symlinks.len(), 0);
}

fn configuration_of_one_link() -> Configuration {
    Configuration {
        files: vec![(
            "a_in".to_string(),
            FileTarget::Symbolic(SymbolicTarget { target: "home/a_out".into(), owner: None }),
        )],
    }
}

#[test]
fn only_successful_actions_reach_the_cache() {
    let plan = vec![
        Action::CreateSymlink(SymlinkDescription {
            source: "a_in".into(),
            target: SymbolicTarget { target: "home/a_out".into(), owner: None },
        }),
        Action::CreateSymlink(SymlinkDescription {
            source: "gone_in".into(),
            target: SymbolicTarget { target: "home/taken".into(), owner: None },
        }),
    ];
    let fs = Memory::with_files(&[("a_in", "A"), ("home/taken", "mine")]);
    let mut session = Session::new(fs);
    let mut cache = Cache::default();
    let handlebars = handlebars::Handlebars::new();
    let report = execute(plan, &mut cache, &mut session, &options(false), &handlebars, &variables());
    assert_eq!(report.outcomes, vec![Ok(true), Ok(false)]);
    assert_eq!(entries(&cache.symlinks), vec![("a_in".to_string(), "home/a_out".to_string())]);
}

#[test]
fn a_dry_run_reads_and_does_not_write() {
    let fs = Memory::with_files(&[("a_in", "A"), ("b_in", "hello {{name}}")]);
    let before = fs.clone();
    let opt = options(false);
    let mut cache = Cache::default();
    let state =
        file_state_from_configuration(&configuration(), &cache, &opt.cache_directory).unwrap();
    let mut session = Session::new(DryRun::new(fs));
    let handlebars = handlebars::Handlebars::new();
    let report = deploy(&opt, state, &mut cache, &mut session, &handlebars, &variables());
    assert_eq!(report.outcomes, vec![Ok(true), Ok(true)]);
    let fs = session.into_filesystem().into_filesystem();
    assert_eq!(fs, before);
    assert_eq!(fs.changes, 0);
}

#[test]
fn a_dry_run_answers_every_change_with_success() {
    let mut dry = DryRun::new(Memory::default());
    let owner = Some(UnixUser::Name("nobody".into()));
    assert_eq!(dry.create_dir_all("d", &owner), Ok(()));
    assert_eq!(dry.make_symlink("t", "s", &owner), Ok(()));
    assert_eq!(dry.remove_file("missing"), Ok(()));
    assert_eq!(dry.remove_dir("missing"), Ok(()));
    assert_eq!(dry.write("f", "text".into()), Ok(()));
    assert_eq!(dry.copy_file("missing", "f", &owner), Ok(()));
    assert_eq!(dry.copy_permissions("missing", "f", &owner), Ok(()));
    assert_eq!(dry.set_owner("f", &owner), Ok(()));
    assert!(dry.read_to_string("f").is_err());
    assert_eq!(dry.compare_symlink("s", "t"), Ok(SymlinkComparison::BothMissing));
    assert_eq!(dry.compare_template("t", "c"), Ok(TemplateComparison::BothMissing));
    assert_eq!(dry.into_filesystem(), Memory::default());
}
