//! Resolution as a machine: it names the lookup it waits for, takes the answer, and moves on
//! until every branch has its edge.

use crate::forest::{
    edge_line, first_other, lemma_first_other, lines_of, named_by_words, names_in, rendered,
    rendered_text_has_one_line_for_each_edge, root_edge, AncestryEdge, BranchForest, EdgeView,
};
use crate::lookup::{
    containing_branches, listed_branches, parent_commit, read_branch_list, read_parent_commit,
    settle, settled, Finding, Query, QueryView, Reply, ReplyView, RepositoryAccessError,
};
use crate::text::{is_word, lemma_words_are_words, words};
use vstd::prelude::*;
use vstd::utf8::decode_utf8;

verus! {

/// What a resolution in progress waits for.
#[derive(Debug)]
enum Phase {
    /// The list of branches.
    Listing,
    /// The parent commit of the branch in turn.
    Parent,
    /// The branches that contain the parent commit held here.
    Containing(String),
}

/// A resolution in progress.
#[derive(Debug)]
pub struct Resolver {
    phase: Phase,
    branches: Vec<String>,
    edges: Vec<AncestryEdge>,
    findings: Vec<Finding>,
}

/// What a resolution in progress waits for, as plain values.
pub enum Awaiting {
    Listing,
    Parent,
    Containing(Seq<char>),
}

/// A resolution in progress as plain values: the branches listed, and the edges settled so
/// far with the finding behind each. The branch in turn is the first without an edge.
pub struct ResolverView {
    pub awaiting: Awaiting,
    pub branches: Seq<Seq<char>>,
    pub edges: Seq<EdgeView>,
    pub findings: Seq<Finding>,
}

/// A finished resolution: the forest, and for each edge how it was settled.
#[derive(Debug, Clone, PartialEq, Eq)]
pub struct Resolution {
    pub forest: BranchForest,
    pub findings: Vec<Finding>,
}

/// A finished resolution as plain values.
pub struct ResolutionView {
    pub edges: Seq<EdgeView>,
    pub findings: Seq<Finding>,
}

impl View for Resolution {
    type V = ResolutionView;

    open spec fn view(&self) -> ResolutionView {
        ResolutionView { edges: self.forest@, findings: self.findings@ }
    }
}

/// Where a resolution stands after an answer.
#[derive(Debug)]
pub enum Progress {
    /// Another lookup is needed.
    Pending(Resolver),
    /// Every branch has its edge, or the repository could not be read.
    Finished(Result<Resolution, RepositoryAccessError>),
}

/// Where a resolution stands, as plain values; a failure is its diagnostic text.
pub enum ProgressView {
    Pending(ResolverView),
    Finished(Result<ResolutionView, Seq<char>>),
}

impl View for Progress {
    type V = ProgressView;

    open spec fn view(&self) -> ProgressView {
        match self {
            Progress::Pending(resolver) => ProgressView::Pending(resolver@),
            Progress::Finished(Ok(resolution)) => ProgressView::Finished(Ok(resolution@)),
            Progress::Finished(Err(error)) => ProgressView::Finished(Err(error.diagnostic@)),
        }
    }
}

impl ResolverView {
    /// What holds of every resolution in progress: before the listing nothing is known; after
    /// it a branch is in turn, and the edges settled are those of the branches before it.
    pub open spec fn well_formed(self) -> bool {
        &&& self.findings.len() == self.edges.len()
        &&& match self.awaiting {
            Awaiting::Listing => self.branches.len() == 0 && self.edges.len() == 0,
            _ => self.edges.len() < self.branches.len(),
        }
        &&& forall|i: int|
            0 <= i < self.edges.len() ==> (#[trigger] self.edges[i]).branch == self.branches[i]
    }

    /// The branch in turn.
    pub open spec fn current(self) -> Seq<char> {
        self.branches[self.edges.len() as int]
    }

    /// The lookup that the resolution waits for.
    pub open spec fn query(self) -> QueryView {
        match self.awaiting {
            Awaiting::Listing => QueryView::ListBranches,
            Awaiting::Parent => QueryView::ParentCommit(self.current()),
            Awaiting::Containing(commit) => QueryView::BranchesContaining(commit),
        }
    }

    /// The state with the edge of the branch in turn settled.
    pub open spec fn record(self, edge: EdgeView, finding: Finding) -> ResolverView {
        ResolverView {
            awaiting: Awaiting::Parent,
            branches: self.branches,
            edges: self.edges.push(edge),
            findings: self.findings.push(finding),
        }
    }

    /// Where the resolution stands once the state is as given: finished when no branch is
    /// left, else waiting for the parent commit of the next.
    pub open spec fn proceed(self) -> ProgressView {
        if self.edges.len() >= self.branches.len() {
            ProgressView::Finished(
                Ok(ResolutionView { edges: self.edges, findings: self.findings }),
            )
        } else {
            ProgressView::Pending(self)
        }
    }
}

/// A resolution that has not yet asked for anything.
pub open spec fn initial() -> ResolverView {
    ResolverView {
        awaiting: Awaiting::Listing,
        branches: Seq::empty(),
        edges: Seq::empty(),
        findings: Seq::empty(),
    }
}

/// One move of a resolution: from its state and the answer to the lookup it waited for, to
/// where it stands next.
pub open spec fn step(state: ResolverView, reply: ReplyView) -> ProgressView {
    match state.awaiting {
        Awaiting::Listing => match listed_branches(reply) {
            Err(text) => ProgressView::Finished(Err(text)),
            Ok(names) => ResolverView {
                awaiting: Awaiting::Parent,
                branches: names,
                edges: Seq::empty(),
                findings: Seq::empty(),
            }.proceed(),
        },
        Awaiting::Parent => match parent_commit(reply) {
            Err(finding) => state.record(root_edge(state.current()), finding).proceed(),
            Ok(commit) => ProgressView::Pending(
                ResolverView {
                    awaiting: Awaiting::Containing(commit),
                    branches: state.branches,
                    edges: state.edges,
                    findings: state.findings,
                },
            ),
        },
        Awaiting::Containing(_) => {
            let (edge, finding) = settled(state.current(), reply);
            state.record(edge, finding).proceed()
        },
    }
}

/// Where the resolution in `state` stands after at most `fuel` more lookups, each answered
/// by `host`, which is told the time of asking and the lookup; the first is made at `now`.
pub open spec fn drive(
    state: ResolverView,
    host: spec_fn(int, QueryView) -> ReplyView,
    now: int,
    fuel: nat,
) -> ProgressView
    decreases fuel,
{
    if fuel == 0 {
        ProgressView::Pending(state)
    } else {
        match step(state, host(now, state.query())) {
            ProgressView::Pending(next) => drive(next, host, now + 1, (fuel - 1) as nat),
            ProgressView::Finished(outcome) => ProgressView::Finished(outcome),
        }
    }
}

/// The number of lookups that the resolution in `state` can still need: two for each branch
/// without an edge, less the parent lookup of the branch in turn once it is answered.
pub open spec fn lookups_left(state: ResolverView) -> nat {
    match state.awaiting {
        Awaiting::Listing => 1,
        Awaiting::Parent => (2 * (state.branches.len() - state.edges.len())) as nat,
        Awaiting::Containing(_) => (2 * (state.branches.len() - state.edges.len()) - 1) as nat,
    }
}

/// Whether each of `edges` is the edge of the branch at its place in `branches`, with a parent
/// that is another branch, and named by words where the branch is.
pub open spec fn edges_follow(edges: Seq<EdgeView>, branches: Seq<Seq<char>>) -> bool {
    forall|i: int|
        0 <= i < edges.len() ==> {
            &&& i < branches.len()
            &&& (#[trigger] edges[i]).branch == branches[i]
            &&& edges[i].parent != Some(branches[i])
            &&& is_word(branches[i]) ==> named_by_words(edges[i])
        }
}

/// Whether the findings tell roots from branches with a parent.
pub open spec fn findings_match(edges: Seq<EdgeView>, findings: Seq<Finding>) -> bool {
    &&& findings.len() == edges.len()
    &&& forall|i: int|
        0 <= i < edges.len() ==> ((#[trigger] edges[i]).parent is Some <==> findings[i]
            == Finding::Resolved)
}

/// The edge that an answer about containing branches settles is the edge of that branch, its
/// parent is another branch and a word, and the finding says whether there is a parent.
pub proof fn lemma_settled(branch: Seq<char>, reply: ReplyView)
    ensures
        settled(branch, reply).0.branch == branch,
        settled(branch, reply).0.parent != Some(branch),
        settled(branch, reply).0.parent matches Some(parent) ==> is_word(parent),
        settled(branch, reply).0.parent is Some <==> settled(branch, reply).1 == Finding::Resolved,
{
    match containing_branches(reply) {
        Err(_) => {},
        Ok(names) => {
            lemma_first_other(branch, names);
            match first_other(branch, names) {
                None => {},
                Some(parent) => {
                    let output = reply->Completed_0;
                    lemma_words_are_words(decode_utf8(output.stdout));
                },
            }
        },
    }
}

/// One move keeps a resolution well formed and its branches and settled edges in place, adds
/// at most the edge of the branch in turn, and never fails once the branches are listed.
pub proof fn lemma_step(state: ResolverView, reply: ReplyView)
    requires
        state.well_formed(),
        state.awaiting != Awaiting::Listing,
        edges_follow(state.edges, state.branches),
        findings_match(state.edges, state.findings),
    ensures
        match step(state, reply) {
            ProgressView::Pending(next) => {
                &&& next.well_formed()
                &&& next.awaiting != Awaiting::Listing
                &&& next.branches == state.branches
                &&& edges_follow(next.edges, next.branches)
                &&& findings_match(next.edges, next.findings)
                &&& lookups_left(next) < lookups_left(state)
            },
            ProgressView::Finished(Ok(resolution)) => {
                &&& resolution.edges.len() == state.branches.len()
                &&& edges_follow(resolution.edges, state.branches)
                &&& findings_match(resolution.edges, resolution.findings)
            },
            ProgressView::Finished(Err(_)) => false,
        },
{
    let branch = state.current();
    lemma_settled(branch, reply);
    let (edge, finding) = match state.awaiting {
        Awaiting::Containing(_) => settled(branch, reply),
        _ => (root_edge(branch), parent_commit(reply)->Err_0),
    };
    let after = state.record(edge, finding);
    if state.awaiting is Containing || parent_commit(reply) is Err {
        assert forall|i: int| 0 <= i < after.edges.len() implies {
            &&& i < after.branches.len()
            &&& (#[trigger] after.edges[i]).branch == after.branches[i]
            &&& after.edges[i].parent != Some(after.branches[i])
            &&& is_word(after.branches[i]) ==> named_by_words(after.edges[i])
        } by {
            if i < state.edges.len() {
                assert(after.edges[i] == state.edges[i]);
            }
        }
        assert forall|i: int| 0 <= i < after.edges.len() implies ((
        #[trigger] after.edges[i]).parent is Some <==> after.findings[i]
            == Finding::Resolved) by {
            if i < state.edges.len() {
                assert(after.edges[i] == state.edges[i]);
            }
        }
    }
}

/// Where the parent commit of the branch in turn is not to be had, because its tip has none
/// or because the lookup broke, the move settles that branch as a root, whatever came before,
/// and asks nothing more about it.
pub proof fn missing_parent_commit_settles_a_root(state: ResolverView, reply: ReplyView)
    requires
        state.well_formed(),
        state.awaiting == Awaiting::Parent,
        parent_commit(reply) is Err,
    ensures
        match step(state, reply) {
            ProgressView::Pending(next) => next.awaiting == Awaiting::Parent && next.edges
                == state.edges.push(root_edge(state.current())),
            ProgressView::Finished(outcome) => outcome matches Ok(resolution) && resolution.edges
                == state.edges.push(root_edge(state.current())),
        },
{
}

/// Whatever the host answers, a resolution whose branches are listed never fails: it comes
/// to an end within the lookups left, with one edge for each branch, in their order.
pub proof fn lemma_drive(
    state: ResolverView,
    host: spec_fn(int, QueryView) -> ReplyView,
    now: int,
    fuel: nat,
)
    requires
        state.well_formed(),
        state.awaiting != Awaiting::Listing,
        edges_follow(state.edges, state.branches),
        findings_match(state.edges, state.findings),
    ensures
        match drive(state, host, now, fuel) {
            ProgressView::Pending(next) => fuel < lookups_left(state),
            ProgressView::Finished(Ok(resolution)) => {
                &&& resolution.edges.len() == state.branches.len()
                &&& edges_follow(resolution.edges, state.branches)
                &&& findings_match(resolution.edges, resolution.findings)
            },
            ProgressView::Finished(Err(_)) => false,
        },
    decreases fuel,
{
    if fuel > 0 {
        let reply = host(now, state.query());
        lemma_step(state, reply);
        match step(state, reply) {
            ProgressView::Pending(next) => {
                lemma_drive(next, host, now + 1, (fuel - 1) as nat);
            },
            ProgressView::Finished(_) => {},
        }
    }
}

/// Whatever the host answers, a resolution fails only on the listing, and then with what
/// the listing says; otherwise it ends, within one lookup for the listing and two for each
/// branch, with one edge for each branch listed, in the order listed. No edge names the
/// branch itself as parent, the names in the edges are words, and the finding of an edge
/// is `Resolved` exactly where the edge has a parent.
pub proof fn resolution_covers_the_listing(
    host: spec_fn(int, QueryView) -> ReplyView,
    now: int,
    fuel: nat,
)
    ensures
        match (
            listed_branches(host(now, QueryView::ListBranches)),
            drive(initial(), host, now, fuel),
        ) {
            (_, ProgressView::Pending(_)) => fuel == 0 || (listed_branches(
                host(now, QueryView::ListBranches),
            ) matches Ok(names) && fuel < 1 + 2 * names.len()),
            (Err(text), ProgressView::Finished(outcome)) => outcome == Err::<
                ResolutionView,
                Seq<char>,
            >(text),
            (Ok(names), ProgressView::Finished(outcome)) => {
                &&& outcome matches Ok(resolution)
                &&& resolution.edges.len() == names.len()
                &&& resolution.findings.len() == names.len()
                &&& forall|i: int|
                    0 <= i < names.len() ==> {
                        &&& (#[trigger] resolution.edges[i]).branch == names[i]
                        &&& resolution.edges[i].parent != Some(names[i])
                        &&& named_by_words(resolution.edges[i])
                        &&& resolution.edges[i].parent is Some <==> resolution.findings[i]
                            == Finding::Resolved
                    }
            },
        },
{
    if fuel > 0 {
        let reply = host(now, QueryView::ListBranches);
        match listed_branches(reply) {
            Err(_) => {},
            Ok(names) => {
                let listed = ResolverView {
                    awaiting: Awaiting::Parent,
                    branches: names,
                    edges: Seq::empty(),
                    findings: Seq::empty(),
                };
                let output = reply->Completed_0;
                lemma_words_are_words(decode_utf8(output.stdout));
                if names.len() > 0 {
                    lemma_drive(listed, host, now + 1, (fuel - 1) as nat);
                    let end = drive(listed, host, now + 1, (fuel - 1) as nat);
                    assert(drive(initial(), host, now, fuel) == end);
                    if let ProgressView::Finished(Ok(resolution)) = end {
                        assert forall|i: int| 0 <= i < names.len() implies {
                            &&& (#[trigger] resolution.edges[i]).branch == names[i]
                            &&& resolution.edges[i].parent != Some(names[i])
                            &&& named_by_words(resolution.edges[i])
                            &&& resolution.edges[i].parent is Some <==> resolution.findings[i]
                                == Finding::Resolved
                        } by {
                            assert(is_word(names[i]));
                        }
                    }
                }
            },
        }
    }
}

/// Whatever the host answers, the text form of a finished resolution has one line for each
/// branch listed, in the order listed, and no line besides: each line is the branch alone, or
/// the branch, one space and its parent, and reads back as those names. Where no branch is
/// listed the text is empty.
pub proof fn output_has_one_line_for_each_branch(
    host: spec_fn(int, QueryView) -> ReplyView,
    now: int,
    fuel: nat,
)
    ensures
        drive(initial(), host, now, fuel) matches ProgressView::Finished(Ok(resolution)) ==> {
            let text = rendered(resolution.edges);
            &&& listed_branches(host(now, QueryView::ListBranches)) matches Ok(names)
                && resolution.edges.len() == names.len()
            &&& resolution.edges.len() == 0 ==> text == Seq::<char>::empty()
            &&& resolution.edges.len() > 0 ==> lines_of(text).len() == resolution.edges.len()
            &&& forall|i: int|
                0 <= i < resolution.edges.len() ==> {
                    &&& #[trigger] lines_of(text)[i] == edge_line(resolution.edges[i])
                    &&& words(lines_of(text)[i]) == names_in(resolution.edges[i])
                }
        },
{
    resolution_covers_the_listing(host, now, fuel);
    if let ProgressView::Finished(Ok(resolution)) = drive(initial(), host, now, fuel) {
        rendered_text_has_one_line_for_each_edge(resolution.edges);
    }
}

impl View for Resolver {
    type V = ResolverView;

    closed spec fn view(&self) -> ResolverView {
        ResolverView {
            awaiting: match self.phase {
                Phase::Listing => Awaiting::Listing,
                Phase::Parent => Awaiting::Parent,
                Phase::Containing(commit) => Awaiting::Containing(commit@),
            },
            branches: self.branches.deep_view(),
            edges: self.edges.deep_view(),
            findings: self.findings@,
        }
    }
}

impl Resolver {
    #[verifier::type_invariant]
    spec fn sound(self) -> bool {
        self@.well_formed()
    }

    /// A resolution that has not yet asked for anything: it waits for the list of branches.
    pub fn new() -> (r: Resolver)
        ensures
            r@ == initial(),
    {
        let r = Resolver {
            phase: Phase::Listing,
            branches: Vec::new(),
            edges: Vec::new(),
            findings: Vec::new(),
        };
        assert(r@.branches =~= Seq::empty());
        assert(r@.edges =~= Seq::empty());
        r
    }

    /// The lookup whose answer `advance` is to be given next.
    pub fn query(&self) -> (r: Query)
        ensures
            self@.well_formed(),
            r@ == self@.query(),
    {
        proof {
            use_type_invariant(self);
        }
        match &self.phase {
            Phase::Listing => Query::ListBranches,
            Phase::Parent => Query::ParentCommit(self.branches[self.edges.len()].clone()),
            Phase::Containing(commit) => Query::BranchesContaining(commit.clone()),
        }
    }

    /// Takes the answer to the lookup that `query` names and moves on.
    pub fn advance(self, reply: Reply) -> (r: Progress)
        ensures
            self@.well_formed(),
            r@ == step(self@, reply@),
            r@ matches ProgressView::Pending(next) ==> next.well_formed(),
    {
        proof {
            use_type_invariant(&self);
        }
        let ghost before = self@;
        let Resolver { phase, branches, mut edges, mut findings } = self;
        match phase {
            Phase::Listing => match read_branch_list(reply) {
                Err(error) => Progress::Finished(Err(error)),
                Ok(names) => {
                    let edges: Vec<AncestryEdge> = Vec::new();
                    assert(edges.deep_view() =~= Seq::empty());
                    proceed(names, edges, Vec::new())
                },
            },
            Phase::Parent => match read_parent_commit(&reply) {
                Err(finding) => {
                    let edge = AncestryEdge::root(branches[edges.len()].clone());
                    let ghost settled_before = edges.deep_view();
                    edges.push(edge);
                    findings.push(finding);
                    assert(edges.deep_view() =~= settled_before.push(edge@));
                    proceed(branches, edges, findings)
                },
                Ok(commit) => Progress::Pending(
                    Resolver { phase: Phase::Containing(commit), branches, edges, findings },
                ),
            },
            Phase::Containing(_) => {
                let (edge, finding) = settle(branches[edges.len()].clone(), &reply);
                let ghost settled_before = edges.deep_view();
                edges.push(edge);
                findings.push(finding);
                assert(edges.deep_view() =~= settled_before.push(edge@));
                proceed(branches, edges, findings)
            },
        }
    }
}

/// Finishes when every branch has its edge, else waits for the parent commit of the next.
fn proceed(branches: Vec<String>, edges: Vec<AncestryEdge>, findings: Vec<Finding>) -> (r: Progress)
    requires
        edges.len() <= branches.len(),
        findings.len() == edges.len(),
        forall|i: int|
            0 <= i < edges.len() ==> (#[trigger] edges.deep_view()[i]).branch
                == branches.deep_view()[i],
    ensures
        r@ == (ResolverView {
            awaiting: Awaiting::Parent,
            branches: branches.deep_view(),
            edges: edges.deep_view(),
            findings: findings@,
        }).proceed(),
        r@ matches ProgressView::Pending(next) ==> next.well_formed(),
{
    if edges.len() >= branches.len() {
        Progress::Finished(Ok(Resolution { forest: BranchForest { edges }, findings }))
    } else {
        Progress::Pending(Resolver { phase: Phase::Parent, branches, edges, findings })
    }
}

} // verus!
