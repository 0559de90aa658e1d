use branch_forest::forest::AncestryEdge;
use branch_forest::lookup::{
    read_branch_list, read_containing_branches, read_parent_commit, settle, CommandOutput,
    Finding, Query, Reply, RepositoryAccessError,
};

fn ok(stdout: &[u8]) -> Reply {
    Reply::Completed(CommandOutput { success: true, stdout: stdout.to_vec(), stderr: vec![] })
}

fn failed(stderr: &[u8]) -> Reply {
    Reply::Completed(CommandOutput { success: false, stdout: vec![], stderr: stderr.to_vec() })
}

fn strings(list: &[&str]) -> Vec<String> {
    list.iter().map(|s| s.to_string()).collect()
}

#[test]
fn git_arguments_to_list_branches() {
    assert_eq!(
        Query::ListBranches.git_arguments(),
        strings(&["for-each-ref", "refs/heads", "--format=%(refname:short)"])
    );
}

#[test]
fn git_arguments_for_parent_commit() {
    assert_eq!(
        Query::ParentCommit("feature/x".to_string()).git_arguments(),
        strings(&["rev-parse", "feature/x^"])
    );
}

#[test]
fn git_arguments_for_containing_branches() {
    assert_eq!(
        Query::BranchesContaining("1f3c9e".to_string()).git_arguments(),
        strings(&["for-each-ref", "refs/heads", "--contains", "1f3c9e", "--format=%(refname:short)"])
    );
}

#[test]
fn branch_list_is_read_in_order() {
    assert_eq!(read_branch_list(ok(b"main\ndevelop\nfeature/x\n")), Ok(strings(&["main", "develop", "feature/x"])));
    assert_eq!(read_branch_list(ok(b"zeta\nalpha\n")), Ok(strings(&["zeta", "alpha"])));
}

#[test]
fn branch_list_may_be_empty() {
    assert_eq!(read_branch_list(ok(b"")), Ok(vec![]));
    assert_eq!(read_branch_list(ok(b"\n")), Ok(vec![]));
}

#[test]
fn branch_list_of_failed_listing_is_its_error_text() {
    assert_eq!(
        read_branch_list(failed(b"fatal: not a git repository (or any of the parent directories): .git\n")),
        Err(RepositoryAccessError {
            diagnostic: "fatal: not a git repository (or any of the parent directories): .git\n".to_string()
        })
    );
}

#[test]
fn branch_list_of_failed_listing_ignores_its_output() {
    let reply = Reply::Completed(CommandOutput {
        success: false,
        stdout: b"main\n".to_vec(),
        stderr: b"broken".to_vec(),
    });
    assert_eq!(read_branch_list(reply), Err(RepositoryAccessError { diagnostic: "broken".to_string() }));
}

#[test]
fn branch_list_error_text_replaces_bad_bytes() {
    assert_eq!(
        read_branch_list(failed(&[b'a', 0xff, b'b'])),
        Err(RepositoryAccessError { diagnostic: "a\u{FFFD}b".to_string() })
    );
}

#[test]
fn branch_list_of_lookup_that_could_not_run() {
    assert_eq!(
        read_branch_list(Reply::Unavailable("No such file or directory (os error 2)".to_string())),
        Err(RepositoryAccessError { diagnostic: "No such file or directory (os error 2)".to_string() })
    );
}

#[test]
fn branch_list_that_is_not_text_is_turned_down() {
    let result = read_branch_list(ok(&[b'm', 0xff, b'\n']));
    assert_eq!(
        result,
        Err(RepositoryAccessError { diagnostic: "invalid utf-8 sequence of 1 bytes from index 1".to_string() })
    );
}

#[test]
fn branch_list_reads_text_beyond_ascii() {
    assert_eq!(read_branch_list(ok("grün\nmain\n".as_bytes())), Ok(strings(&["grün", "main"])));
}

#[test]
fn parent_commit_is_trimmed() {
    assert_eq!(read_parent_commit(&ok(b"4b825dc642cb6eb9a060e54bf8d69288fbee4904\n")), Ok("4b825dc642cb6eb9a060e54bf8d69288fbee4904".to_string()));
    assert_eq!(read_parent_commit(&ok(b"  abc  ")), Ok("abc".to_string()));
}

#[test]
fn parent_commit_of_empty_output_is_empty() {
    assert_eq!(read_parent_commit(&ok(b"")), Ok(String::new()));
    assert_eq!(read_parent_commit(&ok(b"\n")), Ok(String::new()));
}

#[test]
fn parent_commit_absent_when_lookup_reports_failure() {
    assert_eq!(read_parent_commit(&failed(b"fatal: ambiguous argument 'main^'")), Err(Finding::NoParentCommit));
}

#[test]
fn parent_commit_lookup_that_broke() {
    assert_eq!(read_parent_commit(&Reply::Unavailable("spawn failed".to_string())), Err(Finding::LookupFailure));
    assert_eq!(read_parent_commit(&ok(&[0xc3, 0x28])), Err(Finding::LookupFailure));
}

#[test]
fn containing_branches_are_read_in_order() {
    assert_eq!(read_containing_branches(&ok(b"develop\nmain\n")), Ok(strings(&["develop", "main"])));
    assert_eq!(read_containing_branches(&ok(b"")), Ok(vec![]));
}

#[test]
fn containing_branches_absent_when_lookup_reports_failure() {
    assert_eq!(read_containing_branches(&failed(b"error: malformed object name")), Err(Finding::NoContainingBranch));
}

#[test]
fn containing_branches_lookup_that_broke() {
    assert_eq!(read_containing_branches(&Reply::Unavailable("x".to_string())), Err(Finding::LookupFailure));
    assert_eq!(read_containing_branches(&ok(&[0x80])), Err(Finding::LookupFailure));
}

#[test]
fn settle_picks_first_other_branch() {
    assert_eq!(
        settle("feature/x".to_string(), &ok(b"develop\nfeature/x\nmain\n")),
        (AncestryEdge { branch: "feature/x".to_string(), parent: Some("develop".to_string()) }, Finding::Resolved)
    );
    assert_eq!(
        settle("feature/x".to_string(), &ok(b"feature/x\nmain\ndevelop\n")),
        (AncestryEdge { branch: "feature/x".to_string(), parent: Some("main".to_string()) }, Finding::Resolved)
    );
}

#[test]
fn settle_without_other_branch_is_a_root() {
    assert_eq!(
        settle("orphan".to_string(), &ok(b"orphan\n")),
        (AncestryEdge { branch: "orphan".to_string(), parent: None }, Finding::NoContainingBranch)
    );
    assert_eq!(
        settle("orphan".to_string(), &ok(b"")),
        (AncestryEdge { branch: "orphan".to_string(), parent: None }, Finding::NoContainingBranch)
    );
}

#[test]
fn settle_degrades_to_root_when_lookup_fails() {
    assert_eq!(
        settle("b".to_string(), &failed(b"boom")),
        (AncestryEdge { branch: "b".to_string(), parent: None }, Finding::NoContainingBranch)
    );
    assert_eq!(
        settle("b".to_string(), &Reply::Unavailable("gone".to_string())),
        (AncestryEdge { branch: "b".to_string(), parent: None }, Finding::LookupFailure)
    );
    assert_eq!(
        settle("b".to_string(), &ok(&[0xff, 0xfe])),
        (AncestryEdge { branch: "b".to_string(), parent: None }, Finding::LookupFailure)
    );
}
