use git2::{Config, Repository};
use git_snapshot::error::Error;
use git_snapshot::repo::{NoOp, Repo, SnapshotOutcome};
use git_snapshot::repo_watcher::{
    covered, handle_change, relative_path, ChangeOutcome, RepoConfig, RepoWatcher, Task, WatchConfig,
    DEFAULT_DEBOUNCE_PERIOD, METADATA_DIR,
};
use git_snapshot::watcher::{EventKind, WatchMode};
use std::path::Path;
use std::io::Write;
use tempfile::{tempdir, Builder, NamedTempFile, TempDir};

fn test_repo(path: &Path) -> (Repository, Config) {
    let repo = Repository::init(path).unwrap();
    let mut config = repo.config().unwrap();
    config.set_str("user.name", "Test").unwrap();
    config.set_str("user.email", "test@test.test").unwrap();

    (repo, config)
}

fn create_temp_file(path: &Path) -> String {
    let (_file, path) = NamedTempFile::new_in(path).unwrap().keep().unwrap();
    path.canonicalize().unwrap().to_str().unwrap().to_owned()
}

fn canonical(path: &Path) -> String {
    path.canonicalize().unwrap().to_str().unwrap().to_owned()
}

fn check_snapshot_exists(repo: &Repo) -> bool {
    let config = repo.git_repo().config().unwrap();
    let snapshot_branch = Repo::snapshot_branch(&config, &repo.current_branch().unwrap());
    repo.git_repo()
        .resolve_reference_from_short_name(&snapshot_branch)
        .is_ok()
}

fn config_of(paths: &[&str], debounce_period: u64) -> WatchConfig {
    WatchConfig {
        repos: paths.iter().map(|p| RepoConfig { path: (*p).to_owned() }).collect(),
        mode: WatchMode::Event,
        debounce_period,
    }
}

fn run(tasks: Vec<Task>) -> Vec<String> {
    let mut reloads = Vec::new();
    for task in tasks {
        match task {
            Task::Snapshot { path, root } => {
                handle_change(&path, &root, &Vec::new());
            }
            Task::Reload { path } => reloads.push(path),
        }
    }
    reloads
}

fn test_repo_watcher(_mode: WatchMode) -> (TempDir, Repo, RepoWatcher) {
    let repo_path = tempdir().unwrap();
    let (repo, _) = test_repo(repo_path.path());
    let repo = Repo::new(repo);

    let repo_watcher = RepoWatcher::new(config_of(&[&canonical(repo_path.path())], 50));

    (repo_path, repo, repo_watcher)
}

#[test]
fn repo_watcher() {
    let (repo_path, repo, mut repo_watcher) = test_repo_watcher(WatchMode::Event);
    let file = create_temp_file(repo_path.path());
    assert_eq!(repo_watcher.on_event(EventKind::Create, &file, 0), 1);

    let tasks = repo_watcher.take_due(100);
    run(tasks);

    assert!(check_snapshot_exists(&repo));
}

#[test]
fn config_file() {
    let repo_path = tempdir().unwrap();
    let (repo, _) = test_repo(repo_path.path());
    let repo = Repo::new(repo);
    let config_path = NamedTempFile::new().unwrap();
    let config = config_of(&[&canonical(repo_path.path())], 10);

    let mut repo_watcher =
        RepoWatcher::with_config(&canonical(config_path.path()), Ok(config)).unwrap();

    let file = create_temp_file(repo_path.path());
    repo_watcher.on_event(EventKind::Create, &file, 0);
    assert!(repo_watcher.take_due(9).is_empty());
    let tasks = repo_watcher.take_due(50);
    assert!(run(tasks).is_empty());
    assert!(check_snapshot_exists(&repo));
}

#[test]
fn config_file_change() {
    let repo_path1 = tempdir().unwrap();
    let (repo, _) = test_repo(repo_path1.path());
    let repo1 = Repo::new(repo);
    println!("Repo: {:?}", repo_path1);

    let repo_path2 = tempdir().unwrap();
    let (repo, _) = test_repo(repo_path2.path());
    let repo2 = Repo::new(repo);

    let config_path = NamedTempFile::new().unwrap();
    let config_file = canonical(config_path.path());
    let config = config_of(&[&canonical(repo_path1.path())], 10);

    let mut repo_watcher = RepoWatcher::with_config(&config_file, Ok(config)).unwrap();

    repo_watcher.on_event(EventKind::Modify, &config_file, 0);
    let reloads = run(repo_watcher.take_due(10));
    assert_eq!(reloads, vec![config_file.clone()]);
    let config = config_of(&[&canonical(repo_path2.path())], 10);
    repo_watcher.reload(Ok(config)).unwrap();

    let file1 = create_temp_file(repo_path1.path());
    let file2 = create_temp_file(repo_path2.path());
    assert_eq!(repo_watcher.on_event(EventKind::Create, &file1, 1000), 0);
    assert_eq!(repo_watcher.on_event(EventKind::Create, &file2, 1000), 1);

    run(repo_watcher.take_due(1000 + 50));

    assert!(!check_snapshot_exists(&repo1));
    assert!(check_snapshot_exists(&repo2));
}

#[test]
fn reload_keeps_watching_the_config_file() {
    let mut repo_watcher = RepoWatcher::with_config("/etc/watch.json", Ok(config_of(&["/a"], 10)))
        .unwrap();
    repo_watcher.reload(Ok(config_of(&["/b"], 20))).unwrap();
    repo_watcher.on_event(EventKind::Modify, "/etc/watch.json", 0);
    assert!(repo_watcher.take_due(19).is_empty());
    let tasks = repo_watcher.take_due(20);
    assert_eq!(tasks.len(), 1);
    assert!(matches!(&tasks[0], Task::Reload { path } if path == "/etc/watch.json"));
}

#[test]
fn reload_drops_pending_debounces_of_the_old_set() {
    let mut repo_watcher = RepoWatcher::with_config("/etc/watch.json", Ok(config_of(&["/a"], 10)))
        .unwrap();
    repo_watcher.on_event(EventKind::Modify, "/a/file", 0);
    repo_watcher.reload(Ok(config_of(&["/a"], 10))).unwrap();
    assert!(repo_watcher.take_due(1000).is_empty());
}

#[test]
fn failed_reload_leaves_the_watcher_as_it_was() {
    let mut repo_watcher = RepoWatcher::with_config("/etc/watch.json", Ok(config_of(&["/a"], 10)))
        .unwrap();
    repo_watcher.on_event(EventKind::Modify, "/a/file", 0);
    let result = repo_watcher.reload(Err(Error::Json("expected value".to_owned())));
    assert!(matches!(result, Err(Error::Json(text)) if text == "expected value"));
    let tasks = repo_watcher.take_due(10);
    assert_eq!(tasks.len(), 1);
    assert!(matches!(
        &tasks[0],
        Task::Snapshot { path, root } if path == "/a/file" && root == "/a"
    ));
}

#[test]
fn with_config_fails_where_loading_failed() {
    let result = RepoWatcher::with_config("/etc/watch.json", Err(Error::InvalidHead));
    assert!(matches!(result.err().unwrap(), Error::InvalidHead));
}

#[test]
fn with_config_hands_an_io_error_back() {
    let missing = std::io::Error::new(std::io::ErrorKind::NotFound, "no such file");
    let result = RepoWatcher::with_config("/etc/watch.json", Err(Error::Io(missing)));
    match result.err().unwrap() {
        Error::Io(error) => assert_eq!(error.kind(), std::io::ErrorKind::NotFound),
        other => panic!("unexpected {:?}", other),
    }
}

#[test]
fn a_repository_listed_twice_is_watched_once() {
    let watcher = RepoWatcher::watcher(&config_of(&["/a", "/b", "/a"], 10));
    assert_eq!(watcher.roots(), vec!["/a".to_owned(), "/b".to_owned()]);
    assert_eq!(watcher.debounce_period(), 10);
}

#[test]
fn default_config_is_empty_event_mode() {
    let config = WatchConfig::default();
    assert!(config.repos.is_empty());
    assert_eq!(config.mode, WatchMode::Event);
    assert_eq!(config.debounce_period, 30 * 1000);
    assert_eq!(DEFAULT_DEBOUNCE_PERIOD, 30000);
    assert_eq!(WatchMode::default(), WatchMode::Event);
}

#[test]
fn add_repo_adds_once() {
    let mut config = WatchConfig::default();
    assert!(config.add_repo("/a"));
    assert!(config.add_repo("/b"));
    assert!(!config.add_repo("/a"));
    let paths: Vec<&str> = config.repos.iter().map(|r| r.path.as_str()).collect();
    assert_eq!(paths, vec!["/a", "/b"]);
}

#[test]
fn remove_repo_removes_the_first_entry() {
    let mut config = config_of(&["/a", "/b", "/a", "/c"], 10);
    assert!(config.remove_repo("/a"));
    let paths: Vec<&str> = config.repos.iter().map(|r| r.path.as_str()).collect();
    assert_eq!(paths, vec!["/b", "/a", "/c"]);
    assert!(!config.remove_repo("/missing"));
    assert_eq!(config.repos.len(), 3);
    assert_eq!(config.debounce_period, 10);
}

#[test]
fn relative_path_strips_the_root() {
    assert_eq!(relative_path("/work/repo/src/a.rs", "/work/repo"), Some("src/a.rs".to_owned()));
    assert_eq!(relative_path("/work/repo", "/work/repo"), Some("".to_owned()));
    assert_eq!(relative_path("/work/repo/a", "/work/repo/"), Some("a".to_owned()));
    assert_eq!(relative_path("/work/repository/a", "/work/repo"), None);
    assert_eq!(relative_path("/work", "/work/repo"), None);
}

#[test]
fn handler_drops_changes_to_the_metadata_directory() {
    assert_eq!(METADATA_DIR, ".git");
    let repo_path = tempdir().unwrap();
    let (repo, _) = test_repo(repo_path.path());
    let repo = Repo::new(repo);
    create_temp_file(repo_path.path());
    let root = canonical(repo_path.path());

    let outcome = handle_change(&format!("{}/.git/index.lock", root), &root, &Vec::new());
    assert!(matches!(outcome, ChangeOutcome::Metadata));
    let outcome = handle_change(&format!("{}/.git", root), &root, &Vec::new());
    assert!(matches!(outcome, ChangeOutcome::Metadata));
    assert!(!check_snapshot_exists(&repo));

    let outcome = handle_change(&format!("{}/.github/workflow", root), &root, &Vec::new());
    assert!(matches!(
        outcome,
        ChangeOutcome::Snapshot(Ok(SnapshotOutcome::Committed { .. }))
    ));
    assert!(check_snapshot_exists(&repo));
}

#[test]
fn handler_drops_strangers() {
    let repo_path = tempdir().unwrap();
    let (repo, _) = test_repo(repo_path.path());
    let repo = Repo::new(repo);
    let root = canonical(repo_path.path());
    create_temp_file(repo_path.path());

    assert!(matches!(handle_change("/somewhere/else", &root, &Vec::new()), ChangeOutcome::Outside));
    assert!(!check_snapshot_exists(&repo));

    let elsewhere = tempdir().unwrap();
    let stranger = canonical(elsewhere.path());
    assert!(matches!(
        handle_change(&format!("{}/file", stranger), &stranger, &Vec::new()),
        ChangeOutcome::NoRepository(Error::Git(_))
    ));
}

#[test]
fn handler_reports_a_noop() {
    let repo_path = tempdir().unwrap();
    let (_repo, _) = test_repo(repo_path.path());
    let root = canonical(repo_path.path());
    assert!(matches!(
        handle_change(&format!("{}/gone", root), &root, &Vec::new()),
        ChangeOutcome::Snapshot(Ok(SnapshotOutcome::NoOp(NoOp::NothingStaged)))
    ));
}

#[test]
fn handler_leaves_an_ignored_path_alone() {
    let repo_path = tempdir().unwrap();
    let (repo, _) = test_repo(repo_path.path());
    let mut rules = Builder::new()
        .prefix(".gitignore")
        .rand_bytes(0)
        .tempfile_in(repo_path.path())
        .unwrap();
    rules.write_all(b"*.log\n").unwrap();
    rules.keep().unwrap();
    let repo = Repo::new(repo);
    let root = canonical(repo_path.path());
    create_temp_file(repo_path.path());

    let outcome = handle_change(&format!("{}/build.log", root), &root, &Vec::new());
    assert!(matches!(outcome, ChangeOutcome::Ignored));
    let outcome = handle_change(&format!("{}/deep/down/trace.log", root), &root, &Vec::new());
    assert!(matches!(outcome, ChangeOutcome::Ignored));
    assert!(!check_snapshot_exists(&repo));

    let outcome = handle_change(&format!("{}/build.rs", root), &root, &Vec::new());
    assert!(matches!(
        outcome,
        ChangeOutcome::Snapshot(Ok(SnapshotOutcome::Committed { .. }))
    ));
    assert!(check_snapshot_exists(&repo));
}

#[test]
fn covered_only_where_the_rules_say_so() {
    assert!(covered(Ok(true)));
    assert!(!covered(Ok(false)));
    assert!(!covered(Err(Error::InvalidHead)));
}

#[test]
fn on_event_counts_the_roots_that_hold_the_path() {
    let mut repo_watcher = RepoWatcher::with_config(
        "/work/watch.json",
        Ok(config_of(&["/work", "/work/inner", "/other"], 10)),
    )
    .unwrap();
    assert_eq!(repo_watcher.mode(), WatchMode::Event);
    assert_eq!(repo_watcher.on_event(EventKind::Create, "/work/inner/file", 0), 2);
    assert_eq!(repo_watcher.on_event(EventKind::Create, "/work/watch.json", 0), 2);
    assert_eq!(repo_watcher.on_event(EventKind::Create, "/other/file", 0), 1);
    assert_eq!(repo_watcher.on_event(EventKind::Create, "/nowhere", 0), 0);
    assert_eq!(repo_watcher.on_event(EventKind::Access, "/other/file", 0), 0);
}
