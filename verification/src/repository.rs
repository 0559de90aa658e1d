//! A repository as resolution sees it: the answer it gives to each lookup. States what a
//! resolution comes to against a repository that answers alike whenever it is asked.

use crate::forest::{named_by_words, root_edge, EdgeView};
use crate::lookup::{
    containing_branches, listed_branches, parent_commit, settled, Finding, QueryView, ReplyView,
};
use crate::resolver::{
    drive, initial, lemma_settled, lookups_left, step, Awaiting, ProgressView, ResolutionView,
    ResolverView,
};
use crate::text::{is_word, lemma_words_are_words};
use vstd::prelude::*;
use vstd::utf8::decode_utf8;

verus! {

/// A repository as a host of lookups: it answers by the lookup alone, whenever it is asked.
pub open spec fn steady(repo: spec_fn(QueryView) -> ReplyView) -> spec_fn(
    int,
    QueryView,
) -> ReplyView {
    |now: int, query: QueryView| repo(query)
}

/// The edge of `branch` in `repo`, and how it is settled: a root where the parent commit is
/// not to be had, else as the branches that contain the parent commit settle it.
pub open spec fn edge_in(repo: spec_fn(QueryView) -> ReplyView, branch: Seq<char>) -> (
    EdgeView,
    Finding,
) {
    match parent_commit(repo(QueryView::ParentCommit(branch))) {
        Err(finding) => (root_edge(branch), finding),
        Ok(commit) => settled(branch, repo(QueryView::BranchesContaining(commit))),
    }
}

/// The edges of `names` in `repo`, in the order of `names`, with the finding behind each.
pub open spec fn resolution_over(
    repo: spec_fn(QueryView) -> ReplyView,
    names: Seq<Seq<char>>,
) -> ResolutionView {
    ResolutionView {
        edges: Seq::new(names.len(), |i: int| edge_in(repo, names[i]).0),
        findings: Seq::new(names.len(), |i: int| edge_in(repo, names[i]).1),
    }
}

/// What resolution comes to in `repo`: the diagnostic text of a listing that failed, else
/// the edges of the branches listed.
pub open spec fn resolve(repo: spec_fn(QueryView) -> ReplyView) -> Result<
    ResolutionView,
    Seq<char>,
> {
    match listed_branches(repo(QueryView::ListBranches)) {
        Err(text) => Err(text),
        Ok(names) => Ok(resolution_over(repo, names)),
    }
}

/// The lookups that suffice to resolve `repo`: the listing, and two for each branch listed.
pub open spec fn lookups_needed(repo: spec_fn(QueryView) -> ReplyView) -> nat {
    match listed_branches(repo(QueryView::ListBranches)) {
        Err(_) => 1,
        Ok(names) => 1 + 2 * names.len(),
    }
}

/// Whether `repo` and `other` answer the lookups about `branch` alike: the one for its
/// parent commit and, where that names a commit, the one for the branches containing it.
pub open spec fn same_lookups(
    repo: spec_fn(QueryView) -> ReplyView,
    other: spec_fn(QueryView) -> ReplyView,
    branch: Seq<char>,
) -> bool {
    &&& other(QueryView::ParentCommit(branch)) == repo(QueryView::ParentCommit(branch))
    &&& parent_commit(repo(QueryView::ParentCommit(branch))) matches Ok(commit) ==> other(
        QueryView::BranchesContaining(commit),
    ) == repo(QueryView::BranchesContaining(commit))
}

/// Whether a lookup about `branch` fails in `repo`: the one for its parent commit, or the
/// one for the branches that contain that commit.
pub open spec fn lookup_fails(repo: spec_fn(QueryView) -> ReplyView, branch: Seq<char>) -> bool {
    match parent_commit(repo(QueryView::ParentCommit(branch))) {
        Err(_) => true,
        Ok(commit) => containing_branches(repo(QueryView::BranchesContaining(commit))) is Err,
    }
}

proof fn lemma_drive_steady(
    state: ResolverView,
    repo: spec_fn(QueryView) -> ReplyView,
    now: int,
    fuel: nat,
)
    requires
        state.well_formed(),
        state.awaiting != Awaiting::Listing,
        state.edges == resolution_over(repo, state.branches).edges.take(state.edges.len() as int),
        state.findings == resolution_over(repo, state.branches).findings.take(
            state.edges.len() as int,
        ),
        state.awaiting matches Awaiting::Containing(commit) ==> parent_commit(
            repo(QueryView::ParentCommit(state.current())),
        ) == Ok::<Seq<char>, Finding>(commit),
        fuel >= lookups_left(state),
    ensures
        drive(state, steady(repo), now, fuel) == ProgressView::Finished(
            Ok(resolution_over(repo, state.branches)),
        ),
    decreases fuel,
{
    let whole = resolution_over(repo, state.branches);
    let k = state.edges.len() as int;
    let branch = state.current();
    let reply = steady(repo)(now, state.query());
    assert(reply == repo(state.query()));
    match step(state, reply) {
        ProgressView::Pending(next) => {
            if next.awaiting is Parent {
                assert(next.edges =~= whole.edges.take(k + 1));
                assert(next.findings =~= whole.findings.take(k + 1));
            }
            lemma_drive_steady(next, repo, now + 1, (fuel - 1) as nat);
        },
        ProgressView::Finished(Ok(resolution)) => {
            assert(resolution.edges =~= whole.edges);
            assert(resolution.findings =~= whole.findings);
        },
        ProgressView::Finished(Err(_)) => {},
    }
}

/// Against a repository that answers alike whenever it is asked, a resolution given lookups
/// enough ends with what `resolve` says of the repository.
pub proof fn resolution_follows_the_repository(
    repo: spec_fn(QueryView) -> ReplyView,
    now: int,
    fuel: nat,
)
    requires
        fuel >= lookups_needed(repo),
    ensures
        drive(initial(), steady(repo), now, fuel) == ProgressView::Finished(resolve(repo)),
{
    let reply = steady(repo)(now, QueryView::ListBranches);
    assert(reply == repo(QueryView::ListBranches));
    match listed_branches(reply) {
        Err(_) => {},
        Ok(names) => {
            let listed = ResolverView {
                awaiting: Awaiting::Parent,
                branches: names,
                edges: Seq::empty(),
                findings: Seq::empty(),
            };
            let whole = resolution_over(repo, names);
            if names.len() > 0 {
                assert(listed.edges =~= whole.edges.take(0));
                assert(listed.findings =~= whole.findings.take(0));
                lemma_drive_steady(listed, repo, now + 1, (fuel - 1) as nat);
            } else {
                assert(whole.edges =~= Seq::empty());
                assert(whole.findings =~= Seq::empty());
            }
        },
    }
}

/// Resolving an unchanged repository twice gives the same outcome, and so the same text:
/// when it is asked, and how many lookups are granted beyond those needed, is of no account.
pub proof fn resolution_is_repeatable(
    repo: spec_fn(QueryView) -> ReplyView,
    first: int,
    second: int,
    fuel_first: nat,
    fuel_second: nat,
)
    requires
        fuel_first >= lookups_needed(repo),
        fuel_second >= lookups_needed(repo),
    ensures
        drive(initial(), steady(repo), first, fuel_first) == drive(
            initial(),
            steady(repo),
            second,
            fuel_second,
        ),
{
    resolution_follows_the_repository(repo, first, fuel_first);
    resolution_follows_the_repository(repo, second, fuel_second);
}

/// A repository whose listing can be read resolves to one edge for each branch listed, in
/// the order listed; no edge names the branch itself as parent, the names in the edges are
/// words, and an edge has a parent exactly where its finding is `Resolved`.
pub proof fn every_listed_branch_has_its_edge(repo: spec_fn(QueryView) -> ReplyView)
    ensures
        match listed_branches(repo(QueryView::ListBranches)) {
            Err(text) => resolve(repo) == Err::<ResolutionView, Seq<char>>(text),
            Ok(names) => {
                &&& resolve(repo) matches Ok(resolution)
                &&& resolution.edges.len() == names.len()
                &&& resolution.findings.len() == names.len()
                &&& forall|i: int|
                    0 <= i < names.len() ==> {
                        &&& (#[trigger] resolution.edges[i]).branch == names[i]
                        &&& resolution.edges[i].parent != Some(names[i])
                        &&& named_by_words(resolution.edges[i])
                        &&& resolution.edges[i].parent is Some <==> resolution.findings[i]
                            == Finding::Resolved
                    }
            },
        },
{
    if let Ok(names) = listed_branches(repo(QueryView::ListBranches)) {
        let resolution = resolution_over(repo, names);
        let listing = repo(QueryView::ListBranches)->Completed_0;
        lemma_words_are_words(decode_utf8(listing.stdout));
        assert forall|i: int| 0 <= i < names.len() implies {
            &&& (#[trigger] resolution.edges[i]).branch == names[i]
            &&& resolution.edges[i].parent != Some(names[i])
            &&& named_by_words(resolution.edges[i])
            &&& resolution.edges[i].parent is Some <==> resolution.findings[i]
                == Finding::Resolved
        } by {
            assert(is_word(names[i]));
            if let Ok(commit) = parent_commit(repo(QueryView::ParentCommit(names[i]))) {
                lemma_settled(names[i], repo(QueryView::BranchesContaining(commit)));
            }
        }
    }
}

/// A branch whose parent commit is not to be had, because its tip has none or because the
/// lookup broke, is a root, and its finding is the one that the parent lookup gave.
pub proof fn branch_without_parent_commit_is_a_root(
    repo: spec_fn(QueryView) -> ReplyView,
    i: int,
)
    requires
        listed_branches(repo(QueryView::ListBranches)) is Ok,
        0 <= i < listed_branches(repo(QueryView::ListBranches))->Ok_0.len(),
        parent_commit(
            repo(
                QueryView::ParentCommit(listed_branches(repo(QueryView::ListBranches))->Ok_0[i]),
            ),
        ) is Err,
    ensures
        resolve(repo) matches Ok(resolution) && resolution.edges[i].parent is None
            && resolution.edges[i].branch == listed_branches(
            repo(QueryView::ListBranches),
        )->Ok_0[i] && Err::<Seq<char>, Finding>(resolution.findings[i]) == parent_commit(
            repo(
                QueryView::ParentCommit(listed_branches(repo(QueryView::ListBranches))->Ok_0[i]),
            ),
        ),
{
}

/// Where the lookups about one branch fail in `failing`, a repository that otherwise lists
/// the same branches and answers the lookups about every other branch as `repo` does, the
/// resolution still has one edge for each branch; the edge of that branch is a root, and
/// every other edge and finding is as in `repo`.
pub proof fn one_failing_branch_spares_the_rest(
    repo: spec_fn(QueryView) -> ReplyView,
    failing: spec_fn(QueryView) -> ReplyView,
    names: Seq<Seq<char>>,
    k: int,
)
    requires
        listed_branches(repo(QueryView::ListBranches)) == Ok::<Seq<Seq<char>>, Seq<char>>(names),
        failing(QueryView::ListBranches) == repo(QueryView::ListBranches),
        0 <= k < names.len(),
        lookup_fails(failing, names[k]),
        forall|i: int|
            0 <= i < names.len() && i != k ==> same_lookups(repo, failing, #[trigger] names[i]),
    ensures
        resolve(repo) is Ok,
        resolve(failing) is Ok,
        resolve(failing)->Ok_0.edges.len() == names.len(),
        resolve(failing)->Ok_0.edges[k] == root_edge(names[k]),
        resolve(failing)->Ok_0.findings[k] != Finding::Resolved,
        forall|i: int|
            0 <= i < names.len() && i != k ==> {
                &&& #[trigger] resolve(failing)->Ok_0.edges[i] == resolve(repo)->Ok_0.edges[i]
                &&& resolve(failing)->Ok_0.findings[i] == resolve(repo)->Ok_0.findings[i]
            },
{
    assert forall|i: int| 0 <= i < names.len() && i != k implies {
        &&& #[trigger] resolve(failing)->Ok_0.edges[i] == resolve(repo)->Ok_0.edges[i]
        &&& resolve(failing)->Ok_0.findings[i] == resolve(repo)->Ok_0.findings[i]
    } by {
        assert(same_lookups(repo, failing, names[i]));
    }
}

} // verus!
