//! Ancestry edges, the forest they form, and its text form.

use crate::text::{is_space, is_word, lemma_words_concat, lemma_words_of_word, words};
use vstd::prelude::*;

verus! {

/// One branch and the branch it grew from, if any.
#[derive(Debug, Clone, PartialEq, Eq)]
pub struct AncestryEdge {
    pub branch: String,
    pub parent: Option<String>,
}

/// An edge as plain text values.
pub struct EdgeView {
    pub branch: Seq<char>,
    pub parent: Option<Seq<char>>,
}

impl View for AncestryEdge {
    type V = EdgeView;

    open spec fn view(&self) -> EdgeView {
        EdgeView { branch: self.branch@, parent: self.parent.deep_view() }
    }
}

impl DeepView for AncestryEdge {
    type V = EdgeView;

    open spec fn deep_view(&self) -> EdgeView {
        self@
    }
}

/// The edges of every branch, in the order in which the branches were listed.
#[derive(Debug, Clone, PartialEq, Eq)]
pub struct BranchForest {
    pub edges: Vec<AncestryEdge>,
}

impl View for BranchForest {
    type V = Seq<EdgeView>;

    open spec fn view(&self) -> Seq<EdgeView> {
        self.edges.deep_view()
    }
}

/// The edge of a branch without a parent.
pub open spec fn root_edge(branch: Seq<char>) -> EdgeView {
    EdgeView { branch, parent: None }
}

/// The first of `names` that is not `branch` itself.
pub open spec fn first_other(branch: Seq<char>, names: Seq<Seq<char>>) -> Option<Seq<char>>
    decreases names.len(),
{
    if names.len() == 0 {
        None
    } else if names.first() != branch {
        Some(names.first())
    } else {
        first_other(branch, names.drop_first())
    }
}

/// The line that stands for one edge: the branch, then a space and the parent where there is one.
pub open spec fn edge_line(edge: EdgeView) -> Seq<char> {
    match edge.parent {
        None => edge.branch,
        Some(parent) => edge.branch + seq![' '] + parent,
    }
}

/// `lines` with one line feed between each two neighbours.
pub open spec fn join_lines(lines: Seq<Seq<char>>) -> Seq<char>
    decreases lines.len(),
{
    if lines.len() == 0 {
        Seq::empty()
    } else if lines.len() == 1 {
        lines.first()
    } else {
        lines.first() + seq!['\n'] + join_lines(lines.drop_first())
    }
}

/// The text form of a forest: one line per edge, joined by line feeds.
pub open spec fn rendered(edges: Seq<EdgeView>) -> Seq<char> {
    join_lines(edges.map_values(|e: EdgeView| edge_line(e)))
}

/// Adding a line at the end of a text that has lines appends a line feed and the line.
pub proof fn lemma_join_lines_push(lines: Seq<Seq<char>>, line: Seq<char>)
    requires
        lines.len() > 0,
    ensures
        join_lines(lines.push(line)) == join_lines(lines) + seq!['\n'] + line,
    decreases lines.len(),
{
    let longer = lines.push(line);
    assert(longer.first() == lines.first());
    if lines.len() == 1 {
        assert(longer.drop_first() =~= seq![line]);
        assert(join_lines(seq![line]) == line);
    } else {
        assert(longer.drop_first() =~= lines.drop_first().push(line));
        lemma_join_lines_push(lines.drop_first(), line);
        assert(join_lines(longer) =~= join_lines(lines) + seq!['\n'] + line);
    }
}

/// Whether `names[k]` is the first of `names` that is not `branch`.
pub open spec fn is_first_other_at(branch: Seq<char>, names: Seq<Seq<char>>, k: int) -> bool {
    &&& 0 <= k < names.len()
    &&& names[k] != branch
    &&& forall|j: int| 0 <= j < k ==> #[trigger] names[j] == branch
}

/// `first_other` finds nothing exactly when every name is `branch`; what it finds is another
/// branch, one of `names`, and every name before it is `branch`.
pub proof fn lemma_first_other(branch: Seq<char>, names: Seq<Seq<char>>)
    ensures
        match first_other(branch, names) {
            None => forall|i: int| 0 <= i < names.len() ==> #[trigger] names[i] == branch,
            Some(parent) => parent != branch && exists|k: int|
                is_first_other_at(branch, names, k) && #[trigger] names[k] == parent,
        },
    decreases names.len(),
{
    if names.len() == 0 {
    } else if names.first() != branch {
        assert(is_first_other_at(branch, names, 0) && names[0] == names.first());
    } else {
        let rest = names.drop_first();
        lemma_first_other(branch, rest);
        match first_other(branch, rest) {
            None => {
                assert forall|i: int| 0 <= i < names.len() implies #[trigger] names[i]
                    == branch by {
                    if i > 0 {
                        assert(names[i] == rest[i - 1]);
                    }
                }
            },
            Some(parent) => {
                let k = choose|k: int|
                    is_first_other_at(branch, rest, k) && #[trigger] rest[k] == parent;
                assert forall|j: int| 0 <= j < k + 1 implies #[trigger] names[j] == branch by {
                    if j > 0 {
                        assert(names[j] == rest[j - 1]);
                    }
                }
                assert(names[k + 1] == rest[k]);
                assert(is_first_other_at(branch, names, k + 1) && names[k + 1] == parent);
            },
        }
    }
}

/// Whether the names in an edge are words: not empty, and without white space.
pub open spec fn named_by_words(edge: EdgeView) -> bool {
    &&& is_word(edge.branch)
    &&& edge.parent matches Some(parent) ==> is_word(parent)
}

/// The names in an edge: the branch, then the parent where there is one.
pub open spec fn names_in(edge: EdgeView) -> Seq<Seq<char>> {
    match edge.parent {
        None => seq![edge.branch],
        Some(parent) => seq![edge.branch, parent],
    }
}

/// Length of the longest prefix of `s` that holds no line feed.
pub open spec fn line_len(s: Seq<char>) -> nat
    decreases s.len(),
{
    if s.len() == 0 || s.first() == '\n' {
        0
    } else {
        1 + line_len(s.drop_first())
    }
}

/// The lines of `s`: the texts between its line feeds, in order. A text without a line feed
/// is one line.
pub open spec fn lines_of(s: Seq<char>) -> Seq<Seq<char>>
    decreases s.len(),
{
    let n = line_len(s) as int;
    if n >= s.len() {
        seq![s]
    } else {
        seq![s.take(n)] + lines_of(s.skip(n + 1))
    }
}

/// Whether `s` holds no line feed.
pub open spec fn one_line(s: Seq<char>) -> bool {
    forall|i: int| 0 <= i < s.len() ==> #[trigger] s[i] != '\n'
}

/// The first line of `s` ends at `k` when no line feed comes before `k` and the text ends or
/// a line feed stands there.
pub proof fn lemma_line_len_at(s: Seq<char>, k: int)
    requires
        0 <= k <= s.len(),
        one_line(s.take(k)),
        k == s.len() || s[k] == '\n',
    ensures
        line_len(s) == k,
    decreases k,
{
    if k > 0 {
        assert(s.take(k)[0] == s[0]);
        let t = s.drop_first();
        assert forall|i: int| 0 <= i < k - 1 implies #[trigger] t.take(k - 1)[i] != '\n' by {
            assert(t.take(k - 1)[i] == s.take(k)[i + 1]);
        }
        lemma_line_len_at(t, k - 1);
    }
}

/// Splitting what `join_lines` made gives the lines back, where there is at least one line
/// and none of them holds a line feed.
pub proof fn lemma_lines_of_join(lines: Seq<Seq<char>>)
    requires
        lines.len() > 0,
        forall|i: int| 0 <= i < lines.len() ==> one_line(#[trigger] lines[i]),
    ensures
        lines_of(join_lines(lines)) == lines,
    decreases lines.len(),
{
    let head = lines.first();
    let text = join_lines(lines);
    assert(one_line(lines[0]));
    if lines.len() == 1 {
        assert(text.take(text.len() as int) =~= text);
        lemma_line_len_at(text, text.len() as int);
        assert(lines =~= seq![text]);
    } else {
        let rest = lines.drop_first();
        assert forall|i: int| 0 <= i < rest.len() implies one_line(#[trigger] rest[i]) by {
            assert(rest[i] == lines[i + 1]);
        }
        lemma_lines_of_join(rest);
        let n = head.len() as int;
        assert(text == head + seq!['\n'] + join_lines(rest));
        assert(text.take(n) =~= head);
        assert(text[n] == '\n');
        lemma_line_len_at(text, n);
        assert(text.skip(n + 1) =~= join_lines(rest));
        assert(lines =~= seq![head] + rest);
    }
}

/// The line of an edge whose names are words reads back as those names and nothing else,
/// and holds no line feed.
pub proof fn lemma_edge_line_reads_back(edge: EdgeView)
    requires
        named_by_words(edge),
    ensures
        words(edge_line(edge)) == names_in(edge),
        one_line(edge_line(edge)),
{
    let line = edge_line(edge);
    lemma_words_of_word(edge.branch);
    match edge.parent {
        None => {},
        Some(parent) => {
            lemma_words_of_word(parent);
            let tail = seq![' '] + parent;
            assert(is_space(' '));
            assert(tail.first() == ' ');
            assert(tail.drop_first() =~= parent);
            assert(words(tail) == words(parent));
            assert(line =~= edge.branch + tail);
            lemma_words_concat(edge.branch, tail);
            assert(words(line) =~= seq![edge.branch, parent]);
        },
    }
    assert(is_space('\n'));
    assert forall|i: int| 0 <= i < line.len() implies #[trigger] line[i] != '\n' by {
        match edge.parent {
            None => {},
            Some(parent) => {
                if i < edge.branch.len() {
                    assert(line[i] == edge.branch[i]);
                } else if i > edge.branch.len() {
                    assert(line[i] == parent[i - edge.branch.len() - 1]);
                }
            },
        }
    }
}

/// The text form of a forest whose names are words splits at its line feeds into exactly
/// one line for each edge, in order, and no line besides: each line is the branch alone, or
/// the branch, one space and the parent, and reads back as those names. The text form of the
/// empty forest is empty.
pub proof fn rendered_text_has_one_line_for_each_edge(edges: Seq<EdgeView>)
    requires
        forall|i: int| 0 <= i < edges.len() ==> named_by_words(#[trigger] edges[i]),
    ensures
        edges.len() == 0 ==> rendered(edges) == Seq::<char>::empty(),
        edges.len() > 0 ==> lines_of(rendered(edges)).len() == edges.len(),
        forall|i: int|
            0 <= i < edges.len() ==> {
                &&& #[trigger] lines_of(rendered(edges))[i] == edge_line(edges[i])
                &&& words(edge_line(edges[i])) == names_in(edges[i])
            },
{
    let lines = edges.map_values(|e: EdgeView| edge_line(e));
    if edges.len() > 0 {
        assert forall|i: int| 0 <= i < lines.len() implies one_line(#[trigger] lines[i]) by {
            lemma_edge_line_reads_back(edges[i]);
        }
        lemma_lines_of_join(lines);
        assert forall|i: int| 0 <= i < edges.len() implies {
            &&& #[trigger] lines_of(rendered(edges))[i] == edge_line(edges[i])
            &&& words(edge_line(edges[i])) == names_in(edges[i])
        } by {
            lemma_edge_line_reads_back(edges[i]);
            assert(lines[i] == edge_line(edges[i]));
        }
    }
}

/// Picks the parent of `branch` among the branches that contain its parent commit:
/// the first of them that is another branch.
pub fn choose_parent(branch: &String, containing: &Vec<String>) -> (r: Option<String>)
    ensures
        r.deep_view() == first_other(branch@, containing.deep_view()),
{
    let mut at: usize = 0;
    assert(containing.deep_view().skip(0) =~= containing.deep_view());
    while at < containing.len()
        invariant
            at <= containing.len(),
            first_other(branch@, containing.deep_view()) == first_other(
                branch@,
                containing.deep_view().skip(at as int),
            ),
        decreases containing.len() - at,
    {
        let ghost rest = containing.deep_view().skip(at as int);
        assert(rest.first() == containing[at as int]@);
        if containing[at] != *branch {
            return Some(containing[at].clone());
        }
        assert(rest.drop_first() =~= containing.deep_view().skip(at + 1));
        at = at + 1;
    }
    None
}

impl AncestryEdge {
    /// The edge of a branch without a parent.
    pub fn root(branch: String) -> (r: AncestryEdge)
        ensures
            r@ == root_edge(branch@),
    {
        AncestryEdge { branch, parent: None }
    }

    /// The line that stands for this edge.
    pub fn line(&self) -> (r: String)
        ensures
            r@ == edge_line(self@),
    {
        let mut out = self.branch.clone();
        match &self.parent {
            None => {},
            Some(parent) => {
                proof {
                    reveal_strlit(" ");
                }
                out.append(" ");
                out.append(parent.as_str());
                assert(" "@ =~= seq![' ']);
            },
        }
        out
    }
}

impl BranchForest {
    /// The text form of the forest: the lines of its edges, joined by line feeds.
    pub fn render(&self) -> (r: String)
        ensures
            r@ == rendered(self@),
    {
        let ghost lines = self@.map_values(|e: EdgeView| edge_line(e));
        let mut out = String::new();
        let mut at: usize = 0;
        while at < self.edges.len()
            invariant
                at <= self.edges.len(),
                lines == self@.map_values(|e: EdgeView| edge_line(e)),
                out@ == join_lines(lines.take(at as int)),
            decreases self.edges.len() - at,
        {
            let line = self.edges[at].line();
            proof {
                assert(lines[at as int] == line@);
                assert(lines.take(at + 1) =~= lines.take(at as int).push(line@));
                if at > 0 {
                    lemma_join_lines_push(lines.take(at as int), line@);
                }
                reveal_strlit("\n");
                assert("\n"@ =~= seq!['\n']);
            }
            if at > 0 {
                out.append("\n");
            }
            out.append(line.as_str());
            at = at + 1;
        }
        assert(lines.take(at as int) =~= lines);
        out
    }
}

} // verus!
