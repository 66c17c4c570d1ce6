//! What holds of resolution and update across inputs and calls.

use vstd::prelude::*;
use vstd::utf8::*;
use crate::model::{Failure, UpdateFetcher, UpdateFetcherInput};
use crate::resolve::{find_attrset, function_name, known_fetcher, locate_call, node_text, resolve, scan_bindings};
use crate::text::{lemma_text_split, text_of};
use crate::tree::{field_view, SyntaxTree};
use crate::model::{outcome_view, UpdateFetcherError};
use crate::nix::nix_node_at;
use crate::resolve::{lemma_attrset_in_tree, lemma_first_field_is_child, lemma_function_in_tree, lemma_scan_inside};
use crate::syntax::{
    failed_with, first_frontier, lemma_path_index, lemma_run_complete, nix_arena, path_index, prepared,
};
use crate::nix::nix_descendant_count;
use crate::update::{apply_edit, old_hash_of, probe_of, update_made, valid_call};

verus! {

/// Applying an update's edit leaves every character before and after the
/// old hash value as it was in the source.
pub proof fn lemma_edit_keeps_outside(src: Seq<u8>, call: UpdateFetcherInput, new_hash: Seq<char>, u: UpdateFetcher)
    requires
        valid_utf8(src),
        valid_call(src, call),
        update_made(src, call, new_hash, u),
    ensures
        ({
            let out = apply_edit(src, u.modification);
            let whole = decode_utf8(src);
            let p = text_of(src, 0, call.old_hash_attr.start as int).len() as int;
            let q = text_of(src, call.old_hash_attr.start as int, call.old_hash_attr.end as int).len() as int;
            &&& out.subrange(0, p) == whole.subrange(0, p)
            &&& out.subrange(p + new_hash.len() as int, out.len() as int) == whole.subrange(p + q, whole.len() as int)
        }),
{
    let h = call.old_hash_attr;
    is_char_boundary_start_end_of_seq(src);
    lemma_text_split(src, 0, h.start as int, src.len() as int);
    lemma_text_split(src, h.start as int, h.end as int, src.len() as int);
    assert(src.subrange(0, src.len() as int) =~= src);
    let a = text_of(src, 0, h.start as int);
    let m = text_of(src, h.start as int, h.end as int);
    let c = text_of(src, h.end as int, src.len() as int);
    let out = apply_edit(src, u.modification);
    assert(out == a + new_hash + c);
    assert(decode_utf8(src) == a + m + c);
    assert(out.subrange(0, a.len() as int) =~= a);
    assert((a + m + c).subrange(0, a.len() as int) =~= a);
    assert(out.subrange(a.len() + new_hash.len() as int, out.len() as int) =~= c);
    assert((a + m + c).subrange(a.len() + m.len() as int, (a + m + c).len() as int) =~= c);
}

/// The blanked argument handed to the build tool differs from the argument
/// in the source only where the hash value stood: put the old value back in
/// place of the empty string and the source's argument comes out.
pub proof fn lemma_probe_round_trip(src: Seq<u8>, call: UpdateFetcherInput)
    requires
        valid_utf8(src),
        valid_call(src, call),
        old_hash_of(src, call).len() > 0,
    ensures
        ({
            let h = call.old_hash_attr;
            let a = call.argument;
            let before = text_of(src, a.start as int, h.start as int);
            let after = text_of(src, h.end as int, a.end as int);
            &&& probe_of(src, call) == before + "\"\""@ + after
            &&& text_of(src, a.start as int, a.end as int) == before + text_of(
                src,
                h.start as int,
                h.end as int,
            ) + after
        }),
{
    let h = call.old_hash_attr;
    let a = call.argument;
    lemma_text_split(src, a.start as int, h.start as int, a.end as int);
    lemma_text_split(src, h.start as int, h.end as int, a.end as int);
}

/// Resolution depends only on the attribute set that the walk up reaches:
/// every cursor node inside one fetcher argument resolves to the same call.
pub proof fn lemma_same_set_same_call(t: SyntaxTree, src: Seq<u8>, i: int, j: int)
    requires
        t.wf(src),
        0 <= i < t.len(),
        0 <= j < t.len(),
        find_attrset(t, i) is Ok,
        find_attrset(t, i) == find_attrset(t, j),
    ensures
        resolve(t, src, i) == resolve(t, src, j),
{
}

/// Each node passed on the walk up from the cursor resolves to the same call
/// as the cursor node.
pub proof fn lemma_walk_up_same_call(t: SyntaxTree, src: Seq<u8>, i: int)
    requires
        t.wf(src),
        0 <= i < t.len(),
        find_attrset(t, i) is Ok,
        t.kind(i) != "attrset_expression"@,
    ensures
        t.parent(i) matches Some(p) && 0 <= p < i && resolve(t, src, p) == resolve(t, src, i),
{
    assert(t.node_wf(src, i));
}

/// A successful resolution comes from a cursor node inside an attribute set
/// that is applied to a known fetcher.
pub proof fn lemma_success_inside_call(t: SyntaxTree, src: Seq<u8>, i: int)
    requires
        t.wf(src),
        0 <= i < t.len(),
        resolve(t, src, i) is Ok,
    ensures
        find_attrset(t, i) is Ok,
        SyntaxTree::nested(t.node(find_attrset(t, i)->Ok_0).span, t.node(i).span),
        t.parent(find_attrset(t, i)->Ok_0) is Some,
        t.kind(t.parent(find_attrset(t, i)->Ok_0)->Some_0) == "apply_expression"@,
        locate_call(t, src, i) is Ok,
    decreases i,
{
    assert(t.node_wf(src, i));
    if t.kind(i) != "attrset_expression"@ {
        let p = t.parent(i)->Some_0;
        assert(t.node_wf(src, p));
        lemma_walk_up_same_call(t, src, i);
        lemma_success_inside_call(t, src, p);
    }
}

proof fn lemma_scan_without_hash(t: SyntaxTree, src: Seq<u8>, set: int, k: int)
    requires
        0 <= k,
        forall|m: int|
            k <= m < t.node(set).child_count ==> ({
                let b = #[trigger] t.child(set, m);
                &&& t.field_child(b, "attrpath"@) is Some
                &&& node_text(t, src, t.field_child(b, "attrpath"@)->Some_0) != "hash"@
                &&& t.field_child(b, "expression"@) is Some
            }),
    ensures
        scan_bindings(t, src, set, k, None) == Ok::<Option<int>, Failure>(None),
    decreases t.node(set).child_count - k,
{
    if k < t.node(set).child_count {
        let b = t.child(set, k);
        lemma_scan_without_hash(t, src, set, k + 1);
    }
}

/// A call to a known fetcher whose bindings are all well formed and none
/// named `hash` fails for want of a hash attribute.
pub proof fn lemma_missing_hash(t: SyntaxTree, src: Seq<u8>, i: int)
    requires
        locate_call(t, src, i) is Ok,
        t.field_child(locate_call(t, src, i)->Ok_0.0, "argument"@) is Some,
        ({
            let arg = t.field_child(locate_call(t, src, i)->Ok_0.0, "argument"@)->Some_0;
            &&& t.node(arg).child_count >= 2
            &&& forall|m: int|
                0 <= m < t.node(t.child(arg, 1)).child_count ==> ({
                    let b = #[trigger] t.child(t.child(arg, 1), m);
                    &&& t.field_child(b, "attrpath"@) is Some
                    &&& node_text(t, src, t.field_child(b, "attrpath"@)->Some_0) != "hash"@
                    &&& t.field_child(b, "expression"@) is Some
                })
        }),
    ensures
        resolve(t, src, i) == Err::<UpdateFetcherInput, Failure>(Failure::MissingHashAttribute),
{
    let (app, _) = locate_call(t, src, i)->Ok_0;
    let arg = t.field_child(app, "argument"@)->Some_0;
    lemma_scan_without_hash(t, src, t.child(arg, 1), 0);
}

/// A call whose function is named by an identifier other than a known
/// fetcher's fails, and the error carries that name.
pub proof fn lemma_unknown_fetcher(t: SyntaxTree, src: Seq<u8>, i: int)
    requires
        find_attrset(t, i) is Ok,
        t.parent(find_attrset(t, i)->Ok_0) is Some,
        t.kind(t.parent(find_attrset(t, i)->Ok_0)->Some_0) == "apply_expression"@,
        t.field_child(t.parent(find_attrset(t, i)->Ok_0)->Some_0, "function"@) is Some,
        function_name(t, t.field_child(t.parent(find_attrset(t, i)->Ok_0)->Some_0, "function"@)->Some_0) is Ok,
        known_fetcher(
            node_text(
                t,
                src,
                function_name(t, t.field_child(t.parent(find_attrset(t, i)->Ok_0)->Some_0, "function"@)->Some_0)->Ok_0,
            ),
        ) is None,
    ensures
        ({
            let set = find_attrset(t, i)->Ok_0;
            let app = t.parent(set)->Some_0;
            let id = function_name(t, t.field_child(app, "function"@)->Some_0)->Ok_0;
            resolve(t, src, i) == Err::<UpdateFetcherInput, Failure>(
                Failure::InvalidFetcher { fetcher: node_text(t, src, id) },
            )
        }),
{
}

/// Two trees with the same views agree node by node.
proof fn lemma_views_agree(t1: SyntaxTree, t2: SyntaxTree, i: int)
    requires
        t1.views() == t2.views(),
        0 <= i < t1.len(),
    ensures
        t1.len() == t2.len(),
        t1.kind(i) == t2.kind(i),
        t1.parent(i) == t2.parent(i),
        t1.node(i).span == t2.node(i).span,
        t1.node(i).first_child == t2.node(i).first_child,
        t1.node(i).child_count == t2.node(i).child_count,
        field_view(t1.node(i).field) == field_view(t2.node(i).field),
{
    assert(t1.views().len() == t1.len());
    assert(t1.views()[i] == t1.nodes@[i].node_view());
    assert(t2.views()[i] == t2.nodes@[i].node_view());
}

proof fn lemma_views_first_field(t1: SyntaxTree, t2: SyntaxTree, src: Seq<u8>, n: int, name: Seq<char>, k: int)
    requires
        t1.views() == t2.views(),
        t1.wf(src),
        0 <= n < t1.len(),
        0 <= k,
    ensures
        t1.first_field_from(n, name, k) == t2.first_field_from(n, name, k),
    decreases t1.node(n).child_count - k,
{
    lemma_views_agree(t1, t2, n);
    assert(t1.node_wf(src, n));
    if k < t1.node(n).child_count {
        lemma_views_agree(t1, t2, t1.child(n, k));
        lemma_views_first_field(t1, t2, src, n, name, k + 1);
    }
}

proof fn lemma_views_last_field(t1: SyntaxTree, t2: SyntaxTree, src: Seq<u8>, n: int, name: Seq<char>, k: int)
    requires
        t1.views() == t2.views(),
        t1.wf(src),
        0 <= n < t1.len(),
        k <= t1.node(n).child_count,
    ensures
        t1.last_field_before(n, name, k) == t2.last_field_before(n, name, k),
    decreases k,
{
    lemma_views_agree(t1, t2, n);
    assert(t1.node_wf(src, n));
    if k > 0 {
        lemma_views_agree(t1, t2, t1.child(n, k - 1));
        lemma_views_last_field(t1, t2, src, n, name, k - 1);
    }
}

proof fn lemma_views_attrset(t1: SyntaxTree, t2: SyntaxTree, src: Seq<u8>, i: int)
    requires
        t1.views() == t2.views(),
        t1.wf(src),
        0 <= i < t1.len(),
    ensures
        find_attrset(t1, i) == find_attrset(t2, i),
    decreases i,
{
    lemma_views_agree(t1, t2, i);
    assert(t1.node_wf(src, i));
    if let Some(p) = t1.parent(i) {
        lemma_views_agree(t1, t2, p);
        lemma_views_attrset(t1, t2, src, p);
    }
}

proof fn lemma_views_function(t1: SyntaxTree, t2: SyntaxTree, src: Seq<u8>, f: int)
    requires
        t1.views() == t2.views(),
        t1.wf(src),
        0 <= f < t1.len(),
    ensures
        function_name(t1, f) == function_name(t2, f),
    decreases t1.len() - f,
{
    lemma_views_agree(t1, t2, f);
    assert(t1.node_wf(src, f));
    lemma_views_first_field(t1, t2, src, f, "attrpath"@, 0);
    lemma_views_first_field(t1, t2, src, f, "name"@, 0);
    if let Some(path) = t1.field_child(f, "attrpath"@) {
        lemma_first_field_is_child(t1, src, f, "attrpath"@, 0);
        assert(t1.node_wf(src, path));
        lemma_views_last_field(t1, t2, src, path, "attr"@, t1.node(path).child_count as int);
        lemma_views_agree(t1, t2, path);
        if let Some(a) = t1.last_field_child(path, "attr"@) {
            if f < a < t1.len() {
                lemma_views_function(t1, t2, src, a);
            }
        }
    }
    if let Some(n) = t1.field_child(f, "name"@) {
        if f < n < t1.len() {
            lemma_views_function(t1, t2, src, n);
        }
    }
}

proof fn lemma_views_scan(t1: SyntaxTree, t2: SyntaxTree, src: Seq<u8>, set: int, k: int, found: Option<int>)
    requires
        t1.views() == t2.views(),
        t1.wf(src),
        0 <= set < t1.len(),
        0 <= k,
    ensures
        scan_bindings(t1, src, set, k, found) == scan_bindings(t2, src, set, k, found),
    decreases t1.node(set).child_count - k,
{
    lemma_views_agree(t1, t2, set);
    assert(t1.node_wf(src, set));
    if k < t1.node(set).child_count {
        let b = t1.child(set, k);
        assert(t1.parent(b) == Some(set));
        lemma_views_agree(t1, t2, b);
        lemma_views_first_field(t1, t2, src, b, "attrpath"@, 0);
        lemma_views_first_field(t1, t2, src, b, "expression"@, 0);
        if let Some(path) = t1.field_child(b, "attrpath"@) {
            lemma_first_field_is_child(t1, src, b, "attrpath"@, 0);
            lemma_views_agree(t1, t2, path);
            let next = if node_text(t1, src, path) == "hash"@ {
                t1.field_child(b, "expression"@)->Some_0
            } else {
                0
            };
            lemma_views_scan(t1, t2, src, set, k + 1, Some(next));
            lemma_views_scan(t1, t2, src, set, k + 1, found);
        }
    }
}

/// Resolution reads a tree only through its views: trees with the same
/// views resolve every node alike.
pub proof fn lemma_views_same_call(t1: SyntaxTree, t2: SyntaxTree, src: Seq<u8>, i: int)
    requires
        t1.views() == t2.views(),
        t1.wf(src),
        0 <= i < t1.len(),
    ensures
        resolve(t1, src, i) == resolve(t2, src, i),
{
    lemma_views_attrset(t1, t2, src, i);
    if let Ok(set) = find_attrset(t1, i) {
        lemma_attrset_in_tree(t1, src, i);
        lemma_views_agree(t1, t2, set);
        assert(t1.node_wf(src, set));
        if let Some(app) = t1.parent(set) {
            lemma_views_agree(t1, t2, app);
            lemma_views_first_field(t1, t2, src, app, "function"@, 0);
            lemma_views_first_field(t1, t2, src, app, "argument"@, 0);
            if let Some(f) = t1.field_child(app, "function"@) {
                lemma_first_field_is_child(t1, src, app, "function"@, 0);
                lemma_views_function(t1, t2, src, f);
                if let Ok(id) = function_name(t1, f) {
                    lemma_function_in_tree(t1, src, f);
                    lemma_views_agree(t1, t2, id);
                }
            }
            if let Some(arg) = t1.field_child(app, "argument"@) {
                lemma_first_field_is_child(t1, src, app, "argument"@, 0);
                lemma_views_agree(t1, t2, arg);
                assert(t1.node_wf(src, arg));
                if t1.node(arg).child_count >= 2 {
                    let bs = t1.child(arg, 1);
                    lemma_views_scan(t1, t2, src, bs, 0, None);
                    if let Ok(Some(h)) = scan_bindings(t1, src, bs, 0, None) {
                        lemma_scan_inside(t1, src, bs, 0, None);
                        lemma_views_agree(t1, t2, h);
                    }
                }
            }
        }
    }
}

/// Preparing an update at two offsets whose nodes lead up to the same
/// attribute set gives the same call: the result does not depend on where
/// inside one fetcher argument the cursor stands.
#[verifier::rlimit(100)]
pub proof fn lemma_prepare_cursor_stable(
    src: Seq<u8>,
    c1: usize,
    c2: usize,
    r1: Result<UpdateFetcherInput, UpdateFetcherError>,
    r2: Result<UpdateFetcherInput, UpdateFetcherError>,
    t: SyntaxTree,
)
    requires
        prepared(src, c1, r1),
        prepared(src, c2, r2),
        nix_arena(src) is Some,
        t.views() == nix_arena(src)->Some_0.nodes,
        t.wf(src),
        r1 is Ok,
        ({
            let f = nix_arena(src)->Some_0;
            &&& nix_node_at(src, c2) is Some
            &&& c2 >= f.nodes[0].span.start && c2 <= f.nodes[0].span.end
            &&& path_index(f.paths, nix_node_at(src, c2)->Some_0) is Some
            &&& find_attrset(t, path_index(f.paths, nix_node_at(src, c1)->Some_0)->Some_0)
                == find_attrset(t, path_index(f.paths, nix_node_at(src, c2)->Some_0)->Some_0)
        }),
    ensures
        outcome_view(r1) == outcome_view(r2),
{
    let f = nix_arena(src)->Some_0;
    let j1 = path_index(f.paths, nix_node_at(src, c1)->Some_0)->Some_0;
    let j2 = path_index(f.paths, nix_node_at(src, c2)->Some_0)->Some_0;
    assert(!failed_with(r1, Failure::ParseError) && !failed_with(r1, Failure::InvalidCursor));
    assert(nix_node_at(src, c1) is Some);
    assert(path_index(f.paths, nix_node_at(src, c1)->Some_0) is Some);
    assert(exists|x: SyntaxTree| x.views() == f.nodes && x.wf(src) && outcome_view(r1) == resolve(x, src, j1));
    assert(exists|x: SyntaxTree| x.views() == f.nodes && x.wf(src) && outcome_view(r2) == resolve(x, src, j2));
    let t1 = choose|x: SyntaxTree| x.views() == f.nodes && x.wf(src) && outcome_view(r1) == resolve(x, src, j1);
    let t2 = choose|x: SyntaxTree| x.views() == f.nodes && x.wf(src) && outcome_view(r2) == resolve(x, src, j2);
    assert(t.views().len() == t.len());
    lemma_run_complete(src, first_frontier(), nix_descendant_count(src), nix_descendant_count(src) as nat);
    lemma_path_index(f.paths, nix_node_at(src, c1)->Some_0, 0);
    lemma_path_index(f.paths, nix_node_at(src, c2)->Some_0, 0);
    assert(t.views().len() == t.len());
    assert(0 <= j1 < t.len() && 0 <= j2 < t.len());
    lemma_views_same_call(t, t1, src, j1);
    lemma_views_same_call(t, t2, src, j2);
    lemma_same_set_same_call(t, src, j1, j2);
}

} // verus!
