use git2::{Config, ErrorCode, Index, IndexAddOption, Repository, Signature};
use git_snapshot::error::{Error, GitError};
use git_snapshot::repo::{
    branch_from_head, branch_ref_name, copy_variables, display_name, last_component,
    push_status, gate, git_result, plan_push,
    scoped_key, snapshot_branch_for, Checkpoint, HeadState, NoOp, PushStatus, Repo,
    SnapshotOutcome, BRANCH_SUB_KEY, DEFAULT_SNAPSHOT_BRANCH, DEFAULT_SNAPSHOT_COMMIT_MESSAGE,
};
use std::path::Path;
use tempfile::{tempdir, NamedTempFile};

const TEST_REMOTE_NAME: &'static str = "test";

fn test_repo(path: &Path) -> (Repository, Config) {
    let repo = Repository::init(path).unwrap();
    let mut config = repo.config().unwrap();
    config.set_str("user.name", "Test").unwrap();
    config.set_str("user.email", "test@test.test").unwrap();

    (repo, config)
}

fn test_repo_with_files(path: &Path) -> (Repository, Config) {
    let (repo, config) = test_repo(path);
    NamedTempFile::new_in(path).unwrap().keep().unwrap();
    (repo, config)
}

fn test_repo_with_remote(path: &Path, remote_path: &Path) -> (Repository, Repository, Config) {
    let (repo, config) = test_repo_with_files(path);
    let remote_repo = Repository::init_bare(remote_path).unwrap();
    repo.remote(
        TEST_REMOTE_NAME,
        &format!("file://{}", remote_repo.path().to_str().unwrap()),
    )
    .unwrap();
    repo.config()
        .unwrap()
        .set_bool(&format!("remote.{}.snapshotenabled", "test"), true)
        .unwrap();
    (repo, remote_repo, config)
}

fn commit_all(repo: &Repository) {
    let mut index = Index::new().unwrap();
    repo.set_index(&mut index).unwrap();
    index
        .add_all(&["*"], IndexAddOption::DEFAULT, None)
        .unwrap();
    let tree = index.write_tree().unwrap();
    let tree = repo.find_tree(tree).unwrap();

    let signature = Signature::now("test", "test").unwrap();

    repo.commit(Some("HEAD"), &signature, &signature, "", &tree, &[])
        .unwrap();
}

fn check_snapshot_exists(repo: &Repo) -> bool {
    let config = repo.git_repo().config().unwrap();
    let snapshot_branch = Repo::snapshot_branch(&config, &repo.current_branch().unwrap());
    repo.git_repo()
        .resolve_reference_from_short_name(&snapshot_branch)
        .is_ok()
}

#[test]
fn snapshot() {
    let temp_dir = tempdir().unwrap();
    let (repo, _config) = test_repo_with_files(temp_dir.path());

    commit_all(&repo);

    NamedTempFile::new_in(temp_dir.path())
        .unwrap()
        .keep()
        .unwrap();

    let repo = Repo::new(repo);
    repo.snapshot().unwrap();
}

#[test]
fn test_snapshot_empty_branch() {
    let temp_dir = tempdir().unwrap();
    let (repo, _config) = test_repo_with_files(temp_dir.path());

    let repo = Repo::new(repo);
    repo.snapshot().unwrap();

    assert!(check_snapshot_exists(&repo))
}

#[test]
fn snapshot_no_changes() {
    let temp_dir = tempdir().unwrap();
    let (repo, config) = test_repo_with_files(temp_dir.path());

    commit_all(&repo);

    NamedTempFile::new_in(temp_dir.path())
        .unwrap()
        .keep()
        .unwrap();

    let repo = Repo::new(repo);
    repo.snapshot().unwrap();

    let current_branch = repo.current_branch().unwrap();
    let snapshot_branch = Repo::snapshot_branch(&config, &current_branch);
    let snapshot_ref = repo
        .git_repo()
        .resolve_reference_from_short_name(&snapshot_branch)
        .unwrap();

    let first_commit = snapshot_ref.peel_to_commit().unwrap();

    repo.snapshot().unwrap();

    let second_commit = snapshot_ref.peel_to_commit().unwrap();

    assert_eq!(first_commit.id(), second_commit.id());
}

#[test]
fn snapshot_branch_config_disabled() {
    let temp_dir = tempdir().unwrap();
    let (repo, config) = test_repo_with_files(temp_dir.path());

    let repo = Repo::new(repo);

    let current_branch = repo.current_branch().unwrap();
    let snapshot_branch = Repo::snapshot_branch(&config, &current_branch);
    repo.git_repo()
        .config()
        .unwrap()
        .set_bool(&format!("branch.{}.snapshotenabled", current_branch), false)
        .unwrap();

    repo.snapshot().unwrap();

    let ref_result = repo
        .git_repo()
        .resolve_reference_from_short_name(&snapshot_branch);

    assert_eq!(ErrorCode::NotFound, ref_result.err().unwrap().code());
}

#[test]
fn snapshot_branch_config_snapshotbranch() {
    let temp_dir = tempdir().unwrap();
    let (repo, _config) = test_repo_with_files(temp_dir.path());

    let repo = Repo::new(repo);

    let current_branch = repo.current_branch().unwrap();
    let snapshot_branch = "snapshottest";

    repo.git_repo()
        .config()
        .unwrap()
        .set_str(
            &format!("branch.{}.snapshotbranch", current_branch),
            snapshot_branch,
        )
        .unwrap();

    repo.snapshot().unwrap();

    assert!(check_snapshot_exists(&repo));
}

#[test]
fn snapshot_snapshot_config_snapshotbranch() {
    let temp_dir = tempdir().unwrap();
    let (repo, _config) = test_repo_with_files(temp_dir.path());

    let repo = Repo::new(repo);

    let snapshot_branch = "snapshottest";

    repo.git_repo()
        .config()
        .unwrap()
        .set_str("snapshot.snapshotbranch", snapshot_branch)
        .unwrap();

    repo.snapshot().unwrap();

    assert!(check_snapshot_exists(&repo));
}

#[test]
fn snapshot_remote_push() {
    let temp_dir = tempdir().unwrap();
    let remote_dir = tempdir().unwrap();

    let (repo, remote_repo, config) = test_repo_with_remote(temp_dir.path(), remote_dir.path());

    let repo = Repo::new(repo);
    repo.snapshot().unwrap();

    let current_branch = repo.current_branch().unwrap();
    let snapshot_branch = Repo::snapshot_branch(&config, &current_branch);

    assert_eq!(
        None,
        remote_repo
            .resolve_reference_from_short_name(&snapshot_branch)
            .err()
    );
}

#[test]
fn snapshot_remote_config_snapshotdisabled() {
    let temp_dir = tempdir().unwrap();
    let remote_dir = tempdir().unwrap();

    let (repo, remote_repo, mut config) =
        test_repo_with_remote(temp_dir.path(), remote_dir.path());

    config
        .set_bool(
            &format!("remote.{}.snapshotenabled", TEST_REMOTE_NAME),
            false,
        )
        .unwrap();

    let repo = Repo::new(repo);
    repo.snapshot().unwrap();

    let current_branch = repo.current_branch().unwrap();
    let snapshot_branch = Repo::snapshot_branch(&config, &current_branch);

    assert_eq!(
        ErrorCode::NotFound,
        remote_repo
            .resolve_reference_from_short_name(&snapshot_branch)
            .err()
            .unwrap()
            .code()
    );
}

#[test]
fn snapshot_remote_config_snapshotbranch() {
    let temp_dir = tempdir().unwrap();
    let remote_dir = tempdir().unwrap();

    let (repo, remote_repo, mut config) =
        test_repo_with_remote(temp_dir.path(), remote_dir.path());

    let remote_branch = "snapshotremote/test";

    config
        .set_str(
            &format!("remote.{}.snapshotbranch", TEST_REMOTE_NAME),
            remote_branch,
        )
        .unwrap();

    let repo = Repo::new(repo);
    repo.snapshot().unwrap();

    assert_eq!(
        None,
        remote_repo
            .resolve_reference_from_short_name(remote_branch)
            .err()
    );
}

#[test]
fn snapshot_invalid_head() {
    let temp_dir = tempdir().unwrap();

    let (repo, _config) = test_repo_with_files(temp_dir.path());

    commit_all(&repo);

    repo.set_head_detached(repo.head().unwrap().peel_to_commit().unwrap().id())
        .unwrap();

    let repo = Repo::new(repo);

    assert!(matches!(repo.snapshot().err().unwrap(), Error::InvalidHead));
}

#[test]
fn repo_from_path() {
    let temp_dir = tempdir().unwrap();

    let (repo, _config) = test_repo(temp_dir.path());

    commit_all(&repo);

    repo.set_head_detached(repo.head().unwrap().peel_to_commit().unwrap().id())
        .unwrap();

    assert!(Repo::from_path(temp_dir.path().to_str().unwrap()).is_ok());
}

#[test]
fn repo_from_path_fails_outside_a_repository() {
    let temp_dir = tempdir().unwrap();
    let result = Repo::from_path(temp_dir.path().join("missing").to_str().unwrap());
    assert!(matches!(result.err().unwrap(), Error::Git(_)));
}

#[test]
fn snapshot_reports_what_it_did() {
    let temp_dir = tempdir().unwrap();
    let (repo, _config) = test_repo_with_files(temp_dir.path());
    let repo = Repo::new(repo);
    let branch = repo.current_branch().unwrap();

    match repo.snapshot().unwrap() {
        SnapshotOutcome::Committed { reference, commit, pushes } => {
            assert_eq!(reference, format!("refs/heads/snapshot/{}", branch));
            let found = repo.git_repo().find_reference(&reference).unwrap();
            assert_eq!(found.peel_to_commit().unwrap().id().to_string(), commit);
            assert!(pushes.is_empty());
        }
        other => panic!("no commit: {:?}", other),
    }
    assert!(matches!(
        repo.snapshot().unwrap(),
        SnapshotOutcome::NoOp(NoOp::Unchanged)
    ));
}

#[test]
fn snapshot_commits_on_top_of_the_last_snapshot() {
    let temp_dir = tempdir().unwrap();
    let (repo, _config) = test_repo_with_files(temp_dir.path());
    let repo = Repo::new(repo);

    let first = match repo.snapshot().unwrap() {
        SnapshotOutcome::Committed { commit, .. } => commit,
        other => panic!("no commit: {:?}", other),
    };
    NamedTempFile::new_in(temp_dir.path())
        .unwrap()
        .keep()
        .unwrap();
    let (reference, second) = match repo.snapshot().unwrap() {
        SnapshotOutcome::Committed { reference, commit, .. } => (reference, commit),
        other => panic!("no commit: {:?}", other),
    };
    assert_ne!(first, second);
    let tip = repo
        .git_repo()
        .find_reference(&reference)
        .unwrap()
        .peel_to_commit()
        .unwrap();
    assert_eq!(tip.id().to_string(), second);
    assert_eq!(tip.parent_count(), 1);
    assert_eq!(tip.parent_id(0).unwrap().to_string(), first);
    assert_eq!(tip.message().unwrap(), DEFAULT_SNAPSHOT_COMMIT_MESSAGE);
}

#[test]
fn snapshot_uses_the_configured_message() {
    let temp_dir = tempdir().unwrap();
    let (repo, mut config) = test_repo_with_files(temp_dir.path());
    config.set_str("snapshot.snapshotmessage", "Autosave").unwrap();
    let repo = Repo::new(repo);
    let reference = match repo.snapshot().unwrap() {
        SnapshotOutcome::Committed { reference, .. } => reference,
        other => panic!("no commit: {:?}", other),
    };
    let tip = repo
        .git_repo()
        .find_reference(&reference)
        .unwrap()
        .peel_to_commit()
        .unwrap();
    assert_eq!(tip.message().unwrap(), "Autosave");
}

#[test]
fn snapshot_of_an_empty_working_tree_is_a_noop() {
    let temp_dir = tempdir().unwrap();
    let (repo, _config) = test_repo(temp_dir.path());
    let repo = Repo::new(repo);
    assert!(matches!(
        repo.snapshot().unwrap(),
        SnapshotOutcome::NoOp(NoOp::NothingStaged)
    ));
    assert!(!check_snapshot_exists(&repo));
}

#[test]
fn snapshot_disabled_is_a_noop() {
    let temp_dir = tempdir().unwrap();
    let (repo, mut config) = test_repo_with_files(temp_dir.path());
    let repo = Repo::new(repo);
    let branch = repo.current_branch().unwrap();
    config
        .set_bool(&format!("branch.{}.snapshotenabled", branch), false)
        .unwrap();
    assert!(matches!(
        repo.snapshot().unwrap(),
        SnapshotOutcome::NoOp(NoOp::Disabled)
    ));
}

#[test]
fn snapshot_branch_override_names_the_reference() {
    let temp_dir = tempdir().unwrap();
    let (repo, mut config) = test_repo_with_files(temp_dir.path());
    let repo = Repo::new(repo);
    let branch = repo.current_branch().unwrap();
    config
        .set_str(&format!("branch.{}.snapshotbranch", branch), "backup")
        .unwrap();
    match repo.snapshot().unwrap() {
        SnapshotOutcome::Committed { reference, .. } => assert_eq!(reference, "refs/heads/backup"),
        other => panic!("no commit: {:?}", other),
    }
    assert!(repo.git_repo().find_reference("refs/heads/backup").is_ok());
    assert!(repo
        .git_repo()
        .find_reference(&format!("refs/heads/snapshot/{}", branch))
        .is_err());
}

#[test]
fn snapshot_branch_prefers_the_branch_template() {
    let temp_dir = tempdir().unwrap();
    let (_repo, mut config) = test_repo(temp_dir.path());
    assert_eq!(Repo::snapshot_branch(&config, "main"), "snapshot/main");
    config.set_str("snapshot.snapshotbranch", "auto/${BRANCH}").unwrap();
    assert_eq!(Repo::snapshot_branch(&config, "main"), "auto/main");
    config.set_str("branch.main.snapshotbranch", "mine/$BRANCH").unwrap();
    assert_eq!(Repo::snapshot_branch(&config, "main"), "mine/main");
    assert_eq!(Repo::snapshot_branch(&config, "topic"), "auto/topic");
}

#[test]
fn snapshot_reports_each_remote() {
    let temp_dir = tempdir().unwrap();
    let remote_dir = tempdir().unwrap();
    let (repo, _remote_repo, _config) = test_repo_with_remote(temp_dir.path(), remote_dir.path());
    repo.remote("idle", "file:///nowhere/at/all").unwrap();
    repo.remote("broken", "file:///nowhere/at/all").unwrap();
    repo.config()
        .unwrap()
        .set_bool("remote.broken.snapshotenabled", true)
        .unwrap();
    let repo = Repo::new(repo);
    let branch = repo.current_branch().unwrap();

    let pushes = match repo.snapshot().unwrap() {
        SnapshotOutcome::Committed { pushes, .. } => pushes,
        other => panic!("no commit: {:?}", other),
    };
    assert_eq!(pushes.len(), 3);
    for report in &pushes {
        match report.remote.as_deref() {
            Some("test") => match &report.status {
                PushStatus::Pushed { refspec } => assert_eq!(
                    refspec,
                    &format!(
                        "refs/heads/snapshot/{}:refs/heads/snapshot/{}",
                        branch, branch
                    )
                ),
                other => panic!("not pushed: {:?}", other),
            },
            Some("idle") => assert!(matches!(report.status, PushStatus::Skipped)),
            Some("broken") => assert!(matches!(report.status, PushStatus::Failed { .. })),
            other => panic!("unexpected remote {:?}", other),
        }
    }
}

#[test]
fn current_branch_of_a_repository_without_commits() {
    let temp_dir = tempdir().unwrap();
    let (repo, _config) = test_repo(temp_dir.path());
    repo.set_head("refs/heads/fresh").unwrap();
    let repo = Repo::new(repo);
    match repo.head_state() {
        HeadState::Unborn { failure, target } => {
            assert_eq!(failure.code, -9);
            assert_eq!(target.unwrap(), Some("refs/heads/fresh".to_owned()));
        }
        _ => panic!("not unborn"),
    }
    assert_eq!(repo.current_branch().unwrap(), "fresh");
}

#[test]
fn current_branch_after_a_commit() {
    let temp_dir = tempdir().unwrap();
    let (repo, _config) = test_repo_with_files(temp_dir.path());
    repo.set_head("refs/heads/work").unwrap();
    commit_all(&repo);
    let repo = Repo::new(repo);
    assert!(matches!(
        repo.head_state(),
        HeadState::Attached { is_branch: true, is_remote: false, .. }
    ));
    assert_eq!(repo.current_branch().unwrap(), "work");
}

#[test]
fn name_is_the_repository_directory() {
    let temp_dir = tempdir().unwrap();
    let (repo, _config) = test_repo(temp_dir.path());
    assert_eq!(Repo::new(repo).name(), ".git");
}

#[test]
fn is_ignored_follows_the_ignore_rules() {
    let temp_dir = tempdir().unwrap();
    let (repo, _config) = test_repo(temp_dir.path());
    repo.add_ignore_rule("*.log").unwrap();
    let repo = Repo::new(repo);
    assert_eq!(repo.is_ignored("build.log").unwrap(), true);
    assert_eq!(repo.is_ignored("build.rs").unwrap(), false);
}

#[test]
fn branch_from_head_covers_every_state() {
    let attached = |is_branch, is_remote, shorthand: Option<&str>| HeadState::Attached {
        is_branch,
        is_remote,
        shorthand: shorthand.map(|s| s.to_owned()),
    };
    assert_eq!(branch_from_head(attached(true, false, Some("main"))).unwrap(), "main");
    assert!(matches!(
        branch_from_head(attached(false, false, Some("main"))),
        Err(Error::InvalidHead)
    ));
    assert!(matches!(
        branch_from_head(attached(true, true, Some("origin/main"))),
        Err(Error::InvalidHead)
    ));
    assert!(matches!(
        branch_from_head(attached(true, false, None)),
        Err(Error::InvalidHead)
    ));
    let unborn = |target| HeadState::Unborn {
        failure: GitError { code: -9, message: "unborn".to_owned() },
        target,
    };
    assert_eq!(
        branch_from_head(unborn(Ok(Some("refs/heads/main".to_owned())))).unwrap(),
        "main"
    );
    assert!(matches!(
        branch_from_head(unborn(Ok(None))),
        Err(Error::InvalidHead)
    ));
    let failure = GitError { code: -3, message: "missing".to_owned() };
    match branch_from_head(unborn(Err(failure))) {
        Err(Error::Git(e)) => {
            assert_eq!(e.code, -3);
            assert_eq!(e.message, "missing");
        }
        other => panic!("unexpected {:?}", other),
    }
    let failure = GitError { code: -1, message: "corrupt".to_owned() };
    assert!(matches!(
        branch_from_head(HeadState::Unresolved { failure }),
        Err(Error::InvalidHead)
    ));
}

#[test]
fn gate_ends_the_trigger_where_nothing_is_to_do() {
    assert_eq!(gate(Checkpoint::Enabled(false)), Some(NoOp::Disabled));
    assert_eq!(gate(Checkpoint::Enabled(true)), None);
    assert_eq!(gate(Checkpoint::Staged(0)), Some(NoOp::NothingStaged));
    assert_eq!(gate(Checkpoint::Staged(1)), None);
    assert_eq!(gate(Checkpoint::Changed(0)), Some(NoOp::Unchanged));
    assert_eq!(gate(Checkpoint::Changed(7)), None);
}

#[test]
fn plan_push_is_opt_in() {
    let context = [("BRANCH", "main")];
    assert_eq!(plan_push(None, None, "refs/heads/snapshot/main", &context), None);
    assert_eq!(plan_push(Some(false), None, "refs/heads/snapshot/main", &context), None);
    assert_eq!(
        plan_push(Some(false), Some("other".to_owned()), "refs/heads/snapshot/main", &context),
        None
    );
}

#[test]
fn plan_push_names_the_remote_branch() {
    let context = [("BRANCH", "main"), ("HOST", "laptop")];
    assert_eq!(
        plan_push(Some(true), None, "refs/heads/snapshot/main", &context),
        Some("refs/heads/snapshot/main:refs/heads/snapshot/main".to_owned())
    );
    assert_eq!(
        plan_push(
            Some(true),
            Some("backup/${HOST}/${BRANCH}".to_owned()),
            "refs/heads/snapshot/main",
            &context
        ),
        Some("refs/heads/snapshot/main:refs/heads/backup/laptop/main".to_owned())
    );
}

#[test]
fn keys_and_names_are_joined_as_documented() {
    assert_eq!(scoped_key("branch", "main", "snapshotenabled"), "branch.main.snapshotenabled");
    assert_eq!(scoped_key("remote", "origin", "snapshotbranch"), "remote.origin.snapshotbranch");
    assert_eq!(branch_ref_name("snapshot/main"), "refs/heads/snapshot/main");
    assert_eq!(DEFAULT_SNAPSHOT_BRANCH, "snapshot/${BRANCH}");
    assert_eq!(BRANCH_SUB_KEY, "BRANCH");
}

#[test]
fn git_result_carries_the_failure_over() {
    assert_eq!(git_result(Ok::<u8, GitError>(3)).unwrap(), 3);
    match git_result::<u8>(Err(GitError { code: -1, message: "bad".to_owned() })) {
        Err(Error::Git(e)) => assert_eq!((e.code, e.message.as_str()), (-1, "bad")),
        other => panic!("unexpected {:?}", other),
    }
}

#[test]
fn snapshot_branch_for_prefers_the_branch_template() {
    let text = |s: &str| Some(s.to_owned());
    let main = [("BRANCH", "main")];
    let topic = [("BRANCH", "topic"), ("BRANCH", "shadowed")];
    assert_eq!(snapshot_branch_for(None, None, &main), "snapshot/main");
    assert_eq!(snapshot_branch_for(None, text("auto/${BRANCH}"), &main), "auto/main");
    assert_eq!(snapshot_branch_for(text("backup"), text("auto/${BRANCH}"), &main), "backup");
    assert_eq!(snapshot_branch_for(text("mine/$BRANCH"), None, &topic), "mine/topic");
    assert_eq!(
        branch_ref_name(&snapshot_branch_for(text("backup"), None, &main)),
        "refs/heads/backup"
    );
}

#[test]
fn display_name_falls_back_to_unknown() {
    assert_eq!(display_name(Some("repo".to_owned())), "repo");
    assert_eq!(display_name(None), "unknown");
}

#[test]
fn snapshot_snapshot_config_env_expansion() {
    let temp_dir = tempdir().unwrap();
    let (repo, _config) = test_repo_with_files(temp_dir.path());

    let repo = Repo::new(repo).with_environment(vec![("TEST_NAME".to_owned(), "test".to_owned())]);

    let snapshot_branch = "snapshottest/${TEST_NAME}";

    repo.git_repo()
        .config()
        .unwrap()
        .set_str("snapshot.snapshotbranch", snapshot_branch)
        .unwrap();

    repo.snapshot().unwrap();

    assert!(repo
        .git_repo()
        .resolve_reference_from_short_name("snapshottest/test")
        .is_ok());
}

#[test]
fn the_branch_variable_comes_before_the_environment() {
    let temp_dir = tempdir().unwrap();
    let (repo, mut config) = test_repo_with_files(temp_dir.path());
    config.set_str("snapshot.snapshotbranch", "auto/${BRANCH}").unwrap();
    let repo = Repo::new(repo).with_environment(vec![("BRANCH".to_owned(), "other".to_owned())]);
    let branch = repo.current_branch().unwrap();
    match repo.snapshot().unwrap() {
        SnapshotOutcome::Committed { reference, .. } => {
            assert_eq!(reference, format!("refs/heads/auto/{}", branch))
        }
        other => panic!("no commit: {:?}", other),
    }
}

#[test]
fn copy_variables_copies_every_entry() {
    let variables = vec![("A".to_owned(), "1".to_owned()), ("B".to_owned(), "2".to_owned())];
    assert_eq!(copy_variables(&variables), variables);
    assert_eq!(copy_variables(&Vec::new()), Vec::new());
}

#[test]
fn push_status_reports_the_attempt() {
    match push_status("a:b".to_owned(), Ok(())) {
        PushStatus::Pushed { refspec } => assert_eq!(refspec, "a:b"),
        other => panic!("unexpected {:?}", other),
    }
    let failure = GitError { code: -16, message: "denied".to_owned() };
    match push_status("a:b".to_owned(), Err(failure)) {
        PushStatus::Failed { error } => {
            assert_eq!((error.code, error.message.as_str()), (-16, "denied"))
        }
        other => panic!("unexpected {:?}", other),
    }
}

#[test]
fn head_state_of_a_detached_head_is_attached_to_no_branch() {
    let temp_dir = tempdir().unwrap();
    let (repo, _config) = test_repo_with_files(temp_dir.path());
    commit_all(&repo);
    repo.set_head_detached(repo.head().unwrap().peel_to_commit().unwrap().id())
        .unwrap();
    let repo = Repo::new(repo);
    assert!(matches!(
        repo.head_state(),
        HeadState::Attached { is_branch: false, .. }
    ));
}

#[test]
fn from_path_opens_without_an_environment() {
    let temp_dir = tempdir().unwrap();
    let (_repo, mut config) = test_repo_with_files(temp_dir.path());
    config.set_str("snapshot.snapshotbranch", "auto/${TEST_NAME}x").unwrap();
    let repo = Repo::from_path(temp_dir.path().to_str().unwrap()).unwrap();
    match repo.snapshot().unwrap() {
        SnapshotOutcome::Committed { reference, .. } => {
            assert_eq!(reference, "refs/heads/auto/${TEST_NAME}x")
        }
        SnapshotOutcome::NoOp(reason) => panic!("no commit: {:?}", reason),
    }
}

#[test]
fn last_component_is_what_follows_the_last_slash() {
    assert_eq!(last_component("/work/repo/.git/"), Some(".git".to_owned()));
    assert_eq!(last_component("/work/repo/.git"), Some(".git".to_owned()));
    assert_eq!(last_component("/work/repo.git///"), Some("repo.git".to_owned()));
    assert_eq!(last_component("repo"), Some("repo".to_owned()));
    assert_eq!(last_component("/"), None);
    assert_eq!(last_component("///"), None);
    assert_eq!(last_component(""), None);
    assert_eq!(last_component("/caf\u{e9}/d\u{e9}p\u{f4}t/"), Some("d\u{e9}p\u{f4}t".to_owned()));
}

#[test]
fn name_of_a_bare_repository_is_its_directory() {
    let temp_dir = tempdir().unwrap();
    let bare = temp_dir.path().join("project.git");
    let repo = Repository::init_bare(&bare).unwrap();
    assert_eq!(Repo::new(repo).name(), "project.git");
}

#[test]
fn snapshot_branch_name_uses_the_environment() {
    let temp_dir = tempdir().unwrap();
    let (repo, mut config) = test_repo_with_files(temp_dir.path());
    config.set_str("snapshot.snapshotbranch", "auto/${HOST}/${BRANCH}").unwrap();
    let repo = Repo::new(repo).with_environment(vec![("HOST".to_owned(), "laptop".to_owned())]);
    let branch = repo.current_branch().unwrap();
    let name = repo.snapshot_branch_name(&config, &branch);
    assert_eq!(name, format!("auto/laptop/{}", branch));
    match repo.snapshot().unwrap() {
        SnapshotOutcome::Committed { reference, .. } => {
            assert_eq!(reference, format!("refs/heads/{}", name))
        }
        other => panic!("no commit: {:?}", other),
    }
    assert_eq!(
        Repo::snapshot_branch(&config, &branch),
        format!("auto/${{HOST}}/{}", branch)
    );
}
