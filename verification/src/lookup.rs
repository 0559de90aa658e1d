//! The lookups that resolution asks of a repository, and what it reads from their answers.

use crate::forest::{first_other, root_edge, AncestryEdge, EdgeView, choose_parent};
use crate::text::{
    decode_lossy, decode_text, lossy_text, split_words, trim, trimmed, utf8_error_text, words,
};
use vstd::prelude::*;
use vstd::utf8::{decode_utf8, valid_utf8};

verus! {

/// What a finished lookup left behind: whether it reported success, and its two output streams.
#[derive(Debug, Clone, PartialEq, Eq)]
pub struct CommandOutput {
    pub success: bool,
    pub stdout: Vec<u8>,
    pub stderr: Vec<u8>,
}

/// A finished lookup as plain values.
pub struct OutputView {
    pub success: bool,
    pub stdout: Seq<u8>,
    pub stderr: Seq<u8>,
}

impl View for CommandOutput {
    type V = OutputView;

    open spec fn view(&self) -> OutputView {
        OutputView { success: self.success, stdout: self.stdout@, stderr: self.stderr@ }
    }
}

/// The answer to one lookup.
#[derive(Debug, Clone, PartialEq, Eq)]
pub enum Reply {
    /// The lookup could not be run at all; the text says why.
    Unavailable(String),
    /// The lookup ran to its end.
    Completed(CommandOutput),
}

/// An answer as plain values.
pub enum ReplyView {
    Unavailable(Seq<char>),
    Completed(OutputView),
}

impl View for Reply {
    type V = ReplyView;

    open spec fn view(&self) -> ReplyView {
        match self {
            Reply::Unavailable(why) => ReplyView::Unavailable(why@),
            Reply::Completed(output) => ReplyView::Completed(output@),
        }
    }
}

/// One lookup against the repository.
#[derive(Debug, Clone, PartialEq, Eq)]
pub enum Query {
    /// The names of all local branches.
    ListBranches,
    /// The first parent of the commit at the tip of a branch.
    ParentCommit(String),
    /// The local branches whose history holds a commit.
    BranchesContaining(String),
}

/// A lookup as plain values.
pub enum QueryView {
    ListBranches,
    ParentCommit(Seq<char>),
    BranchesContaining(Seq<char>),
}

impl View for Query {
    type V = QueryView;

    open spec fn view(&self) -> QueryView {
        match self {
            Query::ListBranches => QueryView::ListBranches,
            Query::ParentCommit(branch) => QueryView::ParentCommit(branch@),
            Query::BranchesContaining(commit) => QueryView::BranchesContaining(commit@),
        }
    }
}

/// The arguments with which `git` answers a lookup.
pub open spec fn git_arguments_of(query: QueryView) -> Seq<Seq<char>> {
    match query {
        QueryView::ListBranches => seq![
            "for-each-ref"@,
            "refs/heads"@,
            "--format=%(refname:short)"@,
        ],
        QueryView::ParentCommit(branch) => seq!["rev-parse"@, branch + "^"@],
        QueryView::BranchesContaining(commit) => seq![
            "for-each-ref"@,
            "refs/heads"@,
            "--contains"@,
            commit,
            "--format=%(refname:short)"@,
        ],
    }
}

impl Query {
    /// The arguments to hand to `git`, run inside the repository, to have this lookup answered.
    pub fn git_arguments(&self) -> (r: Vec<String>)
        ensures
            r.deep_view() == git_arguments_of(self@),
    {
        let mut out: Vec<String> = Vec::new();
        match self {
            Query::ListBranches => {
                out.push("for-each-ref".to_owned());
                out.push("refs/heads".to_owned());
                out.push("--format=%(refname:short)".to_owned());
            },
            Query::ParentCommit(branch) => {
                let mut revision = branch.clone();
                revision.append("^");
                out.push("rev-parse".to_owned());
                out.push(revision);
            },
            Query::BranchesContaining(commit) => {
                out.push("for-each-ref".to_owned());
                out.push("refs/heads".to_owned());
                out.push("--contains".to_owned());
                out.push(commit.clone());
                out.push("--format=%(refname:short)".to_owned());
            },
        }
        assert(out.deep_view() =~= git_arguments_of(self@));
        out
    }
}

/// The whole resolution failed: the repository could not be read. Carries the diagnostic
/// text of the lookup that listed the branches.
#[derive(Debug, Clone, PartialEq, Eq)]
pub struct RepositoryAccessError {
    pub diagnostic: String,
}

/// How the edge of one branch was settled.
#[derive(Debug, Clone, Copy, PartialEq, Eq, Structural)]
pub enum Finding {
    /// Another branch holds the parent commit and was chosen as parent.
    Resolved,
    /// The tip of the branch has no parent commit: the lookup for it reported failure.
    NoParentCommit,
    /// No other branch holds the parent commit: the lookup for the branches that hold it
    /// named none but the branch itself, or reported failure.
    NoContainingBranch,
    /// A lookup could not be run, or its output was not text.
    LookupFailure,
}

/// The text of an error stream: its characters where it is well-formed UTF-8.
pub open spec fn diagnostic_text(bytes: Seq<u8>) -> Seq<char> {
    if valid_utf8(bytes) {
        decode_utf8(bytes)
    } else {
        lossy_text(bytes)
    }
}

/// What the answer to `Query::ListBranches` says: the branch names in the order listed, or
/// the diagnostic text with which the whole resolution fails.
pub open spec fn listed_branches(reply: ReplyView) -> Result<Seq<Seq<char>>, Seq<char>> {
    match reply {
        ReplyView::Unavailable(why) => Err(why),
        ReplyView::Completed(output) => if !output.success {
            Err(diagnostic_text(output.stderr))
        } else if !valid_utf8(output.stdout) {
            Err(utf8_error_text(output.stdout))
        } else {
            Ok(words(decode_utf8(output.stdout)))
        },
    }
}

/// What the answer to `Query::ParentCommit` says: the parent commit, or why the branch is a root.
pub open spec fn parent_commit(reply: ReplyView) -> Result<Seq<char>, Finding> {
    match reply {
        ReplyView::Unavailable(_) => Err(Finding::LookupFailure),
        ReplyView::Completed(output) => if !output.success {
            Err(Finding::NoParentCommit)
        } else if !valid_utf8(output.stdout) {
            Err(Finding::LookupFailure)
        } else {
            Ok(trimmed(decode_utf8(output.stdout)))
        },
    }
}

/// What the answer to `Query::BranchesContaining` says: the branches named, in the order of
/// the answer, or why the branch is a root.
pub open spec fn containing_branches(reply: ReplyView) -> Result<Seq<Seq<char>>, Finding> {
    match reply {
        ReplyView::Unavailable(_) => Err(Finding::LookupFailure),
        ReplyView::Completed(output) => if !output.success {
            Err(Finding::NoContainingBranch)
        } else if !valid_utf8(output.stdout) {
            Err(Finding::LookupFailure)
        } else {
            Ok(words(decode_utf8(output.stdout)))
        },
    }
}

/// The edge of `branch` once the branches that contain its parent commit were asked for.
pub open spec fn settled(branch: Seq<char>, reply: ReplyView) -> (EdgeView, Finding) {
    match containing_branches(reply) {
        Err(finding) => (root_edge(branch), finding),
        Ok(names) => match first_other(branch, names) {
            None => (root_edge(branch), Finding::NoContainingBranch),
            Some(parent) => (EdgeView { branch, parent: Some(parent) }, Finding::Resolved),
        },
    }
}

/// Reads the answer to `Query::ListBranches`.
pub fn read_branch_list(reply: Reply) -> (r: Result<Vec<String>, RepositoryAccessError>)
    ensures
        match listed_branches(reply@) {
            Ok(names) => r is Ok && r->Ok_0.deep_view() == names,
            Err(text) => r is Err && r->Err_0.diagnostic@ == text,
        },
{
    match reply {
        Reply::Unavailable(why) => Err(RepositoryAccessError { diagnostic: why }),
        Reply::Completed(output) => {
            if !output.success {
                Err(RepositoryAccessError { diagnostic: decode_lossy(output.stderr.as_slice()) })
            } else {
                match decode_text(output.stdout.as_slice()) {
                    Err(text) => Err(RepositoryAccessError { diagnostic: text }),
                    Ok(text) => Ok(split_words(text)),
                }
            }
        },
    }
}

/// Reads the answer to `Query::ParentCommit`.
pub fn read_parent_commit(reply: &Reply) -> (r: Result<String, Finding>)
    ensures
        match parent_commit(reply@) {
            Ok(commit) => r is Ok && r->Ok_0@ == commit,
            Err(finding) => r is Err && r->Err_0 == finding,
        },
{
    match reply {
        Reply::Unavailable(_) => Err(Finding::LookupFailure),
        Reply::Completed(output) => {
            if !output.success {
                Err(Finding::NoParentCommit)
            } else {
                match decode_text(output.stdout.as_slice()) {
                    Err(_) => Err(Finding::LookupFailure),
                    Ok(text) => Ok(trim(text)),
                }
            }
        },
    }
}

/// Reads the answer to `Query::BranchesContaining`.
pub fn read_containing_branches(reply: &Reply) -> (r: Result<Vec<String>, Finding>)
    ensures
        match containing_branches(reply@) {
            Ok(names) => r is Ok && r->Ok_0.deep_view() == names,
            Err(finding) => r is Err && r->Err_0 == finding,
        },
{
    match reply {
        Reply::Unavailable(_) => Err(Finding::LookupFailure),
        Reply::Completed(output) => {
            if !output.success {
                Err(Finding::NoContainingBranch)
            } else {
                match decode_text(output.stdout.as_slice()) {
                    Err(_) => Err(Finding::LookupFailure),
                    Ok(text) => Ok(split_words(text)),
                }
            }
        },
    }
}

/// Settles the edge of `branch` from the answer to `Query::BranchesContaining`.
pub fn settle(branch: String, reply: &Reply) -> (r: (AncestryEdge, Finding))
    ensures
        (r.0@, r.1) == settled(branch@, reply@),
{
    match read_containing_branches(reply) {
        Err(finding) => (AncestryEdge::root(branch), finding),
        Ok(names) => match choose_parent(&branch, &names) {
            None => (AncestryEdge::root(branch), Finding::NoContainingBranch),
            Some(parent) => (AncestryEdge { branch, parent: Some(parent) }, Finding::Resolved),
        },
    }
}

} // verus!
