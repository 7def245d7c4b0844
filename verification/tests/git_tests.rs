use scopetest::git::{
    ChangeSet, Detection, GitAnswer, GitChangeDetector, GitError, GitRequest,
};

fn detector(root: &str) -> GitChangeDetector {
    GitChangeDetector::new(root.to_string(), &GitAnswer::Succeeded(".git".to_string())).unwrap()
}

#[test]
fn test_parse_diff_output() {
    let detector = detector("/repo");

    let output = "M\tsrc/foo.ts\nA\tsrc/bar.ts\nD\tsrc/old.ts\nR100\tsrc/a.ts\tsrc/b.ts";
    let changeset = detector.parse_diff_output(output).unwrap();

    assert_eq!(changeset.modified.len(), 1);
    assert_eq!(changeset.added.len(), 1);
    assert_eq!(changeset.deleted.len(), 1);
    assert_eq!(changeset.renamed.len(), 1);
}

#[test]
fn paths_are_joined_to_the_root() {
    let detector = detector("/repo");
    let output = "M\tsrc/foo.ts\r\nA\t/abs/bar.ts\n\nX\tsrc/x.ts\nM\nR90\tonly-one\nR\ta\tb\tc\nD\tgone.ts\n";
    let changes = detector.parse_diff_output(output).unwrap();
    assert_eq!(changes.modified, vec!["/repo/src/foo.ts"]);
    assert_eq!(changes.added, vec!["/abs/bar.ts"]);
    assert_eq!(changes.deleted, vec!["/repo/gone.ts"]);
    assert_eq!(changes.renamed, vec![("/repo/a".to_string(), "/repo/b".to_string())]);
    assert_eq!(changes.all_changed(), vec!["/repo/src/foo.ts", "/abs/bar.ts", "/repo/a", "/repo/b"]);
    assert!(!changes.is_empty());
}

#[test]
fn a_rename_without_a_second_path_counts_as_nothing() {
    let detector = detector("/repo/");
    let changes = detector.parse_diff_output("R100\tonly").unwrap();
    assert!(changes.is_empty());
    let last = detector.parse_diff_output("M\ta.ts\r").unwrap();
    assert_eq!(last.modified, vec!["/repo/a.ts\r"]);
}

#[test]
fn empty_change_set() {
    let changes = ChangeSet::default();
    assert!(changes.is_empty());
    assert!(changes.all_changed().is_empty());
    let only_deleted = ChangeSet { deleted: vec!["x".to_string()], ..Default::default() };
    assert!(!only_deleted.is_empty());
    assert!(only_deleted.all_changed().is_empty());
}

#[test]
fn not_a_repository() {
    let failed = GitAnswer::Failed("fatal: not a git repository".to_string());
    assert!(matches!(GitChangeDetector::new("/x".to_string(), &failed), Err(GitError::NotARepo)));
    let missing = GitAnswer::NotStarted("no such program".to_string());
    match GitChangeDetector::new("/x".to_string(), &missing) {
        Err(GitError::CommandFailed(why)) => assert_eq!(why, "no such program"),
        _ => panic!("a command that did not start is a failed command"),
    }
    assert_eq!(GitChangeDetector::repository_probe(), vec!["rev-parse", "--git-dir"]);
    assert_eq!(GitError::NotARepo.to_string(), "Not a git repository");
    assert_eq!(GitError::CommandFailed("boom".to_string()).to_string(), "Git command failed: boom");
    assert_eq!(GitError::InvalidRef("dev".to_string()).to_string(), "Invalid base reference: dev");
}

#[test]
fn the_default_base_is_main_where_it_exists() {
    let detector = detector("/repo");
    assert_eq!(detector.default_base_probe().arguments(), vec!["rev-parse", "--verify", "main"]);
    assert_eq!(detector.get_default_base(&GitAnswer::Succeeded("abc123".to_string())), "main");
    assert_eq!(detector.get_default_base(&GitAnswer::Failed("fatal".to_string())), "master");
    assert_eq!(detector.get_default_base(&GitAnswer::NotStarted("no git".to_string())), "master");
}

#[test]
fn a_detection_verifies_the_reference_and_then_compares() {
    let detector = detector("/repo");
    let first = detector.detect_changes("develop");
    assert_eq!(first.arguments(), vec!["rev-parse", "--verify", "develop"]);
    let second = match detector.advance(first, GitAnswer::Succeeded("abc".to_string())) {
        Detection::Ask(next) => next,
        Detection::Done(_) => panic!("the diff is still to be asked for"),
    };
    assert_eq!(second.arguments(), vec!["diff", "--name-status", "develop"]);
    match detector.advance(second, GitAnswer::Succeeded("M\ta.ts\nD\tb.ts\n".to_string())) {
        Detection::Done(Ok(changes)) => {
            assert_eq!(changes.modified, vec!["/repo/a.ts"]);
            assert_eq!(changes.deleted, vec!["/repo/b.ts"]);
        }
        _ => panic!("a listing gives a change set"),
    }
}

#[test]
fn a_detection_since_a_commit_compares_with_the_head() {
    let detector = detector("/repo");
    let first = detector.detect_changes_since("abc123");
    assert_eq!(first.arguments(), vec!["rev-parse", "--verify", "abc123"]);
    match detector.advance(first, GitAnswer::Succeeded(String::new())) {
        Detection::Ask(next) => {
            assert_eq!(next.arguments(), vec!["diff", "--name-status", "abc123..HEAD"])
        }
        Detection::Done(_) => panic!("the diff is still to be asked for"),
    }
}

#[test]
fn what_goes_wrong_with_git_is_told_apart() {
    let detector = detector("/repo");
    match detector.advance(detector.detect_changes("nope"), GitAnswer::Failed("fatal".to_string())) {
        Detection::Done(Err(GitError::InvalidRef(reference))) => assert_eq!(reference, "nope"),
        _ => panic!("an unknown reference is an invalid reference"),
    }
    match detector.advance(detector.detect_changes("x"), GitAnswer::NotStarted("no git".to_string())) {
        Detection::Done(Err(GitError::CommandFailed(why))) => assert_eq!(why, "no git"),
        _ => panic!("a command that did not start is a failed command"),
    }
    let diff = GitRequest::Diff { range: "x".to_string() };
    match detector.advance(diff, GitAnswer::Failed("bad revision".to_string())) {
        Detection::Done(Err(GitError::CommandFailed(wrote))) => assert_eq!(wrote, "bad revision"),
        _ => panic!("a diff that fails is a failed command"),
    }
    let diff = GitRequest::Diff { range: "x".to_string() };
    match detector.advance(diff, GitAnswer::NotStarted("no git".to_string())) {
        Detection::Done(Err(GitError::CommandFailed(why))) => assert_eq!(why, "no git"),
        _ => panic!("a command that did not start is a failed command"),
    }
}
