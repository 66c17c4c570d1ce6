//! Parsing with tree-sitter's Nix grammar into a [`SyntaxTree`].

use vstd::prelude::*;
use vstd::string::*;
use crate::model::{Failure, Span, UpdateFetcherError, UpdateFetcherInput, outcome_view};
use crate::resolve::{lemma_resolved_is_valid, resolve, resolve_call};
use crate::text::is_text_range;
use crate::tree::{NodeView, SyntaxNode, SyntaxTree};
use crate::nix::{
    child, child_count, descendant_at, descendant_count, end_byte, field_name_for_child,
    nix_child_count, nix_descendant_count, nix_end, nix_field, nix_kind, nix_node_at, nix_parses,
    nix_start, node_kind, parent, parse_nix, prev_sibling, root_node, start_byte, NixNode,
};
use vstd::utf8::is_char_boundary;
use crate::update::valid_call;

verus! {

/// Node `j` of a tree under construction is well formed, given the
/// parents recorded for every node found so far.
pub open spec fn built_node(nodes: Seq<SyntaxNode>, parents: Seq<Option<usize>>, src: Seq<u8>, j: int) -> bool {
    let n = nodes[j];
    &&& is_text_range(src, n.span.start as int, n.span.end as int)
    &&& n.parent == parents[j]
    &&& n.first_child > j
    &&& n.first_child + n.child_count <= parents.len()
    &&& forall|k: int|
        0 <= k < n.child_count ==> #[trigger] parents[n.first_child + k] == Some(j as usize)
    &&& match n.parent {
        Some(p) => p < j && SyntaxTree::nested(nodes[p as int].span, n.span),
        None => true,
    }
}

/// The nodes built so far are well formed.
pub open spec fn built(nodes: Seq<SyntaxNode>, parents: Seq<Option<usize>>, src: Seq<u8>) -> bool {
    &&& nodes.len() <= parents.len()
    &&& forall|c: int| 0 <= c < parents.len() ==> (#[trigger] parents[c] matches Some(p) ==> p < c)
    &&& forall|j: int| 0 <= j < nodes.len() ==> #[trigger] built_node(nodes, parents, src, j)
}

proof fn lemma_built_push_parent(nodes: Seq<SyntaxNode>, parents: Seq<Option<usize>>, src: Seq<u8>, p: usize)
    requires
        built(nodes, parents, src),
        p < nodes.len() + 1,
        nodes.len() < parents.len(),
        p < parents.len(),
    ensures
        built(nodes, parents.push(Some(p)), src),
{
    let q = parents.push(Some(p));
    assert forall|j: int| 0 <= j < nodes.len() implies #[trigger] built_node(nodes, q, src, j) by {
        assert(built_node(nodes, parents, src, j));
        let n = nodes[j];
        assert forall|k: int| 0 <= k < n.child_count implies #[trigger] q[n.first_child + k] == Some(j as usize) by {
            assert(parents[n.first_child + k] == Some(j as usize));
        }
    }
    assert forall|c: int| 0 <= c < q.len() implies (#[trigger] q[c] matches Some(pp) ==> pp < c) by {
        if c < parents.len() {
            assert(q[c] == parents[c]);
        }
    }
}

proof fn lemma_built_push_node(nodes: Seq<SyntaxNode>, parents: Seq<Option<usize>>, src: Seq<u8>, n: SyntaxNode)
    requires
        built(nodes, parents, src),
        nodes.len() < parents.len(),
        built_node(nodes.push(n), parents, src, nodes.len() as int),
    ensures
        built(nodes.push(n), parents, src),
{
    let m = nodes.push(n);
    assert forall|j: int| 0 <= j < m.len() implies #[trigger] built_node(m, parents, src, j) by {
        if j < nodes.len() {
            assert(built_node(nodes, parents, src, j));
            let x = nodes[j];
            assert(m[j] == x);
            match x.parent {
                Some(p) => {
                    assert(m[p as int] == nodes[p as int]);
                },
                None => {},
            }
        }
    }
}

proof fn lemma_built_tree(nodes: Seq<SyntaxNode>, parents: Seq<Option<usize>>, src: Seq<u8>, t: SyntaxTree)
    requires
        built(nodes, parents, src),
        nodes.len() == parents.len(),
        t.nodes@ == nodes,
    ensures
        t.wf(src),
{
    assert forall|i: int| 0 <= i < t.len() implies #[trigger] t.node_wf(src, i) by {
        assert(built_node(nodes, parents, src, i));
        let n = nodes[i];
        assert forall|k: int| 0 <= k < n.child_count implies #[trigger] t.parent(t.child(i, k)) == Some(i) by {
            let c = n.first_child + k;
            assert(parents[c] == Some(i as usize));
            assert(built_node(nodes, parents, src, c));
        }
    }
}

/// The nodes expanded so far, and the paths and parents of all nodes found
/// so far, of a breadth-first walk of a tree.
pub struct Frontier {
    pub nodes: Seq<NodeView>,
    pub paths: Seq<Seq<u32>>,
    pub parents: Seq<Option<usize>>,
}

/// The walk before any node is expanded: only the root is found.
pub open spec fn first_frontier() -> Frontier {
    Frontier { nodes: Seq::empty(), paths: seq![Seq::<u32>::empty()], parents: seq![None] }
}

/// Expands the next node of `f`, with its children found; `None` where its
/// range is not a text range of `src` inside its parent's, or where more
/// than `limit` nodes would be found.
pub open spec fn arena_step(src: Seq<u8>, f: Frontier, limit: usize) -> Option<Frontier> {
    let k = f.nodes.len() as int;
    let path = f.paths[k];
    let parent = f.parents[k];
    let start = nix_start(src, path);
    let end = nix_end(src, path);
    let count = nix_child_count(src, path) as int;
    if !(start <= end && end <= src.len() && is_char_boundary(src, start as int)
        && is_char_boundary(src, end as int)) {
        None
    } else if parent is Some && !(f.nodes[parent->Some_0 as int].span.start <= start && end
        <= f.nodes[parent->Some_0 as int].span.end) {
        None
    } else if f.paths.len() + count > limit {
        None
    } else {
        Some(
            Frontier {
                nodes: f.nodes.push(
                    NodeView {
                        kind: nix_kind(src, path),
                        span: Span { start, end },
                        parent,
                        field: match parent {
                            None => None,
                            Some(p) => nix_field(src, f.paths[p as int], path.last()),
                        },
                        first_child: f.paths.len() as usize,
                        child_count: count as usize,
                    },
                ),
                paths: f.paths + Seq::new(count as nat, |i: int| path.push(i as u32)),
                parents: f.parents + Seq::new(count as nat, |i: int| Some(k as usize)),
            },
        )
    }
}

/// The walk from `f` on, with at most `fuel` more expansions.
pub open spec fn arena_run(src: Seq<u8>, f: Frontier, limit: usize, fuel: nat) -> Option<Frontier>
    decreases fuel,
{
    if f.nodes.len() >= f.paths.len() {
        Some(f)
    } else if fuel == 0 {
        None
    } else {
        match arena_step(src, f, limit) {
            None => None,
            Some(g) => arena_run(src, g, limit, (fuel - 1) as nat),
        }
    }
}

/// A finished walk has expanded every node it found.
pub proof fn lemma_run_complete(src: Seq<u8>, f: Frontier, limit: usize, fuel: nat)
    requires
        f.nodes.len() <= f.paths.len(),
        arena_run(src, f, limit, fuel) is Some,
    ensures
        arena_run(src, f, limit, fuel)->Some_0.nodes.len() == arena_run(src, f, limit, fuel)->Some_0.paths.len(),
    decreases fuel,
{
    if f.nodes.len() < f.paths.len() {
        lemma_run_complete(src, arena_step(src, f, limit)->Some_0, limit, (fuel - 1) as nat);
    }
}

/// An index found for a path holds that path.
pub proof fn lemma_path_index(paths: Seq<Seq<u32>>, p: Seq<u32>, k: int)
    requires
        0 <= k,
        path_index_from(paths, p, k) is Some,
    ensures
        k <= path_index_from(paths, p, k)->Some_0 < paths.len(),
        paths[path_index_from(paths, p, k)->Some_0] == p,
    decreases paths.len() - k,
{
    if k < paths.len() && paths[k] != p {
        lemma_path_index(paths, p, k + 1);
    }
}

/// The breadth-first arena of the tree that the Nix grammar yields for
/// `src`, with the path of each node.
pub open spec fn nix_arena(src: Seq<u8>) -> Option<Frontier> {
    if !nix_parses(src) || nix_descendant_count(src) == 0 {
        None
    } else {
        arena_run(src, first_frontier(), nix_descendant_count(src), nix_descendant_count(src) as nat)
    }
}

fn extend_path(p: &Vec<u32>, i: u32) -> (r: Vec<u32>)
    ensures
        r@ == p@.push(i),
{
    let mut r: Vec<u32> = Vec::new();
    let mut k: usize = 0;
    while k < p.len()
        invariant
            k <= p@.len(),
            r@ == p@.subrange(0, k as int),
        decreases p@.len() - k,
    {
        r.push(p[k]);
        k = k + 1;
    }
    assert(r@ =~= p@);
    r.push(i);
    r
}

fn same_path(a: &Vec<u32>, b: &Vec<u32>) -> (r: bool)
    ensures
        r == (a@ == b@),
{
    if a.len() != b.len() {
        return false;
    }
    let mut k: usize = 0;
    while k < a.len()
        invariant
            a@.len() == b@.len(),
            k <= a@.len(),
            forall|m: int| 0 <= m < k ==> a@[m] == b@[m],
        decreases a@.len() - k,
    {
        if a[k] != b[k] {
            return false;
        }
        k = k + 1;
    }
    assert(a@ =~= b@);
    true
}

/// The syntax tree that tree-sitter gives for `source`, with the path of
/// each node; `None` where its answers do not form a tree over `source`.
fn build_tree<'t>(source: &str, root: NixNode<'t>) -> (r: Option<(SyntaxTree, Vec<Vec<u32>>)>)
    requires
        root.source() == source.spec_bytes(),
        root.path() == Seq::<u32>::empty(),
    ensures
        ({
            let src = source.spec_bytes();
            let limit = nix_descendant_count(src);
            let run = if limit == 0 {
                None
            } else {
                arena_run(src, first_frontier(), limit, limit as nat)
            };
            &&& r is Some == run is Some
            &&& r matches Some((t, ps)) ==> {
                let f = run->Some_0;
                &&& t.wf(src)
                &&& t.views() == f.nodes
                &&& ps@.len() == t.len() && f.paths.len() == t.len() && t.len() > 0
                &&& forall|j: int| 0 <= j < t.len() ==> (#[trigger] ps@[j])@ == f.paths[j]
            }
        }),
{
    let ghost src = source.spec_bytes();
    let n_src = source.as_bytes().len();
    let limit = descendant_count(&root);
    if limit == 0 {
        return None;
    }
    let ghost total_run = arena_run(src, first_frontier(), limit, limit as nat);
    let mut pending: Vec<NixNode<'t>> = Vec::new();
    let mut paths: Vec<Vec<u32>> = Vec::new();
    let mut parents: Vec<Option<usize>> = Vec::new();
    let mut slots: Vec<u32> = Vec::new();
    pending.push(root);
    paths.push(Vec::new());
    parents.push(None);
    slots.push(0);
    let mut nodes: Vec<SyntaxNode> = Vec::new();
    let ghost mut gp: Seq<Seq<u32>> = seq![Seq::<u32>::empty()];
    assert(parents@ =~= seq![None]);
    assert(nodes@.map_values(|n: SyntaxNode| n.node_view()) =~= Seq::<NodeView>::empty());
    while nodes.len() < pending.len()
        invariant
            src == source.spec_bytes(),
            n_src == src.len(),
            limit == nix_descendant_count(src),
            limit > 0,
            total_run == arena_run(src, first_frontier(), limit, limit as nat),
            pending@.len() == parents@.len(),
            paths@.len() == parents@.len(),
            gp.len() == parents@.len(),
            slots@.len() == parents@.len(),
            parents@.len() <= limit,
            parents@.len() > 0,
            forall|c: int| 0 <= c < gp.len() ==> (#[trigger] pending@[c]).path() == gp[c]
                && pending@[c].source() == src,
            forall|c: int| 0 <= c < gp.len() ==> (#[trigger] paths@[c])@ == gp[c],
            forall|c: int|
                0 <= c < gp.len() ==> (#[trigger] parents@[c] matches Some(p) ==> gp[c] == gp[p as int].push(slots@[c])),
            built(nodes@, parents@, src),
            total_run == arena_run(
                src,
                Frontier { nodes: nodes@.map_values(|n: SyntaxNode| n.node_view()), paths: gp, parents: parents@ },
                limit,
                (limit - nodes@.len()) as nat,
            ),
        decreases limit - nodes@.len(),
    {
        let k = nodes.len();
        let ghost f = Frontier { nodes: nodes@.map_values(|n: SyntaxNode| n.node_view()), paths: gp, parents: parents@ };
        let node = pending[k];
        let parent = parents[k];
        let start = start_byte(&node);
        let end = end_byte(&node);
        if !(start <= end && end <= n_src && source.is_char_boundary(start) && source.is_char_boundary(
            end,
        )) {
            return None;
        }
        let span = Span { start, end };
        let field = match parent {
            None => None,
            Some(p) => {
                assert(parents@[k as int] matches Some(pp) ==> pp < k);
                let ps = nodes[p].span;
                assert(f.nodes[p as int] == nodes@[p as int].node_view());
                if !(ps.start <= start && end <= ps.end) {
                    return None;
                }
                field_name_for_child(&pending[p], slots[k])
            },
        };
        let count = child_count(&node);
        if count as usize > limit - pending.len() {
            return None;
        }
        let first = pending.len();
        let ghost gp0 = gp;
        let ghost parents0 = parents@;
        let mut i: u32 = 0;
        while i < count
            invariant
                k == nodes@.len(),
                k < first <= parents@.len(),
                first == gp0.len(),
                first + count <= limit,
                parents@.len() == first + i,
                i <= count,
                count == nix_child_count(src, gp0[k as int]),
                node.path() == gp0[k as int],
                node.source() == src,
                pending@.len() == parents@.len(),
                paths@.len() == parents@.len(),
                gp.len() == parents@.len(),
                slots@.len() == parents@.len(),
                parents@.len() <= limit,
                gp == gp0 + Seq::new(i as nat, |m: int| gp0[k as int].push(m as u32)),
                parents@ == parents0 + Seq::new(i as nat, |m: int| Some(k as usize)),
                parents@[k as int] == parent,
                built(nodes@, parents@, src),
                forall|c: int| first <= c < parents@.len() ==> #[trigger] parents@[c] == Some(k),
                forall|c: int| 0 <= c < gp.len() ==> (#[trigger] pending@[c]).path() == gp[c]
                    && pending@[c].source() == src,
                forall|c: int| 0 <= c < gp.len() ==> (#[trigger] paths@[c])@ == gp[c],
                forall|c: int|
                    0 <= c < gp.len() ==> (#[trigger] parents@[c] matches Some(p) ==> gp[c] == gp[p as int].push(slots@[c])),
            decreases count - i,
        {
            let c = match child(&node, i) {
                Some(c) => c,
                None => {
                    return None;
                },
            };
            proof {
                lemma_built_push_parent(nodes@, parents@, src, k);
            }
            let cp = extend_path(&paths[k], i);
            pending.push(c);
            paths.push(cp);
            parents.push(Some(k));
            slots.push(i);
            proof {
                gp = gp.push(gp0[k as int].push(i));
                assert(gp =~= gp0 + Seq::new((i + 1) as nat, |m: int| gp0[k as int].push(m as u32)));
                assert(parents@ =~= parents0 + Seq::new((i + 1) as nat, |m: int| Some(k as usize)));
            }
            i = i + 1;
        }
        let kind = node_kind(&node);
        let made = SyntaxNode { kind, span, parent, field, first_child: first, child_count: pending.len() - first };
        proof {
            let m = nodes@.push(made);
            assert(m[k as int] == made);
            assert forall|kk: int| 0 <= kk < made.child_count implies #[trigger] parents@[made.first_child + kk] == Some(k) by {
                assert(parents@[first + kk] == Some(k));
            }
            match parent {
                Some(p) => {
                    assert(parents@[k as int] matches Some(pp) ==> pp < k);
                    assert(m[p as int] == nodes@[p as int]);
                },
                None => {},
            }
            assert(built_node(m, parents@, src, k as int));
            lemma_built_push_node(nodes@, parents@, src, made);
            let g = arena_step(src, f, limit)->Some_0;
            assert(arena_step(src, f, limit) is Some);
            assert(m.map_values(|n: SyntaxNode| n.node_view()) =~= g.nodes);
            assert(gp =~= g.paths);
            assert(parents@ =~= g.parents);
        }
        nodes.push(made);
    }
    let tree = SyntaxTree { nodes };
    proof {
        lemma_built_tree(tree.nodes@, parents@, src, tree);
        assert(tree.views() == nodes@.map_values(|n: SyntaxNode| n.node_view()));
    }
    Some((tree, paths))
}

/// The position of `n` among its parent's children.
fn index_in_parent<'t>(n: NixNode<'t>) -> (r: u32)
    requires
        n.path().len() > 0,
    ensures
        r == n.path().last(),
{
    let mut s = n;
    let mut idx: u32 = 0;
    loop
        invariant
            n.path().len() > 0,
            idx <= n.path().last(),
            s.path() == n.path().drop_last().push((n.path().last() - idx) as u32),
        decreases n.path().last() - idx,
    {
        match prev_sibling(&s) {
            None => {
                return idx;
            },
            Some(q) => {
                s = q;
                idx = idx + 1;
            },
        }
    }
}

/// The path of `n`, as positions from the root down.
fn path_of<'t>(n: NixNode<'t>) -> (r: Vec<u32>)
    ensures
        r@ == n.path(),
{
    let mut rev: Vec<u32> = Vec::new();
    let mut cur = n;
    loop
        invariant
            rev@.len() <= n.path().len(),
            cur.path() == n.path().subrange(0, n.path().len() - rev@.len()),
            forall|m: int| 0 <= m < rev@.len() ==> rev@[m] == n.path()[n.path().len() - 1 - m],
        ensures
            rev@.len() == n.path().len(),
            forall|m: int| 0 <= m < rev@.len() ==> rev@[m] == n.path()[n.path().len() - 1 - m],
        decreases cur.path().len(),
    {
        match parent(&cur) {
            None => {
                break;
            },
            Some(p) => {
                let i = index_in_parent(cur);
                rev.push(i);
                cur = p;
            },
        }
    }
    let mut r: Vec<u32> = Vec::new();
    let mut k: usize = rev.len();
    while k > 0
        invariant
            k <= rev@.len(),
            rev@.len() == n.path().len(),
            forall|m: int| 0 <= m < rev@.len() ==> rev@[m] == n.path()[n.path().len() - 1 - m],
            r@ == n.path().subrange(0, n.path().len() - k),
        decreases k,
    {
        k = k - 1;
        r.push(rev[k]);
        assert(r@ =~= n.path().subrange(0, n.path().len() - k));
    }
    assert(r@ =~= n.path());
    r
}

/// The first index, from `k` on, at which `paths` holds `p`.
pub open spec fn path_index_from(paths: Seq<Seq<u32>>, p: Seq<u32>, k: int) -> Option<int>
    decreases paths.len() - k,
    when 0 <= k
{
    if k >= paths.len() {
        None
    } else if paths[k] == p {
        Some(k)
    } else {
        path_index_from(paths, p, k + 1)
    }
}

/// The first index at which `paths` holds `p`.
pub open spec fn path_index(paths: Seq<Seq<u32>>, p: Seq<u32>) -> Option<int> {
    path_index_from(paths, p, 0)
}

/// `r` is the error `f`.
pub open spec fn failed_with(r: Result<UpdateFetcherInput, UpdateFetcherError>, f: Failure) -> bool {
    r matches Err(e) && e@ == f
}

/// What preparing an update at `offset` in `src` gives: the call that
/// [`resolve`] finds from the node tree-sitter puts at the offset, in the
/// arena of the tree it yields for `src`.
pub open spec fn prepared(src: Seq<u8>, offset: usize, r: Result<UpdateFetcherInput, UpdateFetcherError>) -> bool {
    match nix_arena(src) {
        None => failed_with(r, Failure::ParseError),
        Some(f) => if offset < f.nodes[0].span.start || offset > f.nodes[0].span.end {
            failed_with(r, Failure::InvalidCursor)
        } else {
            match nix_node_at(src, offset) {
                None => failed_with(r, Failure::InvalidCursor),
                Some(p) => match path_index(f.paths, p) {
                    None => failed_with(r, Failure::InvalidCursor),
                    Some(j) => exists|t: SyntaxTree|
                        #![trigger t.views()]
                        t.views() == f.nodes && t.wf(src) && outcome_view(r) == resolve(t, src, j),
                },
            }
        },
    }
}

/// Parses `source` and resolves the fetcher call around the byte offset
/// `cursor_byte_offset`.
pub fn update_fetcher_prepare(source: &str, cursor_byte_offset: usize) -> (r: Result<
    UpdateFetcherInput,
    UpdateFetcherError,
>)
    ensures
        prepared(source.spec_bytes(), cursor_byte_offset, r),
        r matches Ok(call) ==> valid_call(source.spec_bytes(), call),
{
    let ghost src = source.spec_bytes();
    let parsed = match parse_nix(source) {
        None => {
            return Err(UpdateFetcherError::ParseError);
        },
        Some(t) => t,
    };
    let root = root_node(&parsed);
    let (tree, paths) = match build_tree(source, root) {
        None => {
            return Err(UpdateFetcherError::ParseError);
        },
        Some(built) => built,
    };
    let ghost f = nix_arena(src)->Some_0;
    assert(tree.node_wf(src, 0));
    let top = tree.nodes[0].span;
    assert(f.nodes[0] == tree.nodes@[0].node_view());
    if cursor_byte_offset < top.start || cursor_byte_offset > top.end {
        return Err(UpdateFetcherError::InvalidCursor);
    }
    let at = match descendant_at(&root, cursor_byte_offset) {
        None => {
            return Err(UpdateFetcherError::InvalidCursor);
        },
        Some(n) => n,
    };
    let want = path_of(at);
    let mut j: usize = 0;
    while j < paths.len() && !same_path(&paths[j], &want)
        invariant
            j <= paths@.len(),
            paths@.len() == f.paths.len(),
            forall|m: int| 0 <= m < paths@.len() ==> (#[trigger] paths@[m])@ == f.paths[m],
            path_index(f.paths, want@) == path_index_from(f.paths, want@, j as int),
        decreases paths@.len() - j,
    {
        j = j + 1;
    }
    if j == paths.len() {
        return Err(UpdateFetcherError::InvalidCursor);
    }
    let r = resolve_call(&tree, source, j);
    proof {
        assert(paths@[j as int]@ == f.paths[j as int]);
        if r is Ok {
            lemma_resolved_is_valid(tree, src, j as int);
        }
        assert(tree.views() == f.nodes && tree.wf(src) && outcome_view(r) == resolve(tree, src, j as int));
    }
    r
}

} // verus!
