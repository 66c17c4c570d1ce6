//! From the node under the cursor to the fetcher call around it.

use vstd::prelude::*;
use vstd::string::*;
use crate::model::{outcome_view, Failure, Fetcher, Span, UpdateFetcherError, UpdateFetcherInput};
use crate::text::{is_text_range, same_text, slice_str, text_of};
use crate::tree::{field_view, SyntaxTree};
use crate::update::valid_call;

verus! {

/// The kind that the parent of a node of kind `kind` must have on the way
/// up to the enclosing attribute set; `None` for a kind met nowhere there.
pub open spec fn expected_parent(kind: Seq<char>) -> Option<Seq<char>> {
    if kind == "binding_set"@ {
        Some("attrset_expression"@)
    } else if kind == "identifier"@ {
        Some("attrpath"@)
    } else if kind == "attrpath"@ {
        Some("binding"@)
    } else if kind == "binding"@ {
        Some("binding_set"@)
    } else if kind == "="@ {
        Some("binding"@)
    } else if kind == "\""@ {
        Some("string_expression"@)
    } else if kind == "string_expression"@ {
        Some("binding"@)
    } else if kind == "string_fragment"@ {
        Some("string_expression"@)
    } else if kind == ";"@ {
        Some("binding"@)
    } else if kind == "{"@ {
        Some("attrset_expression"@)
    } else if kind == "}"@ {
        Some("attrset_expression"@)
    } else {
        None
    }
}

/// The text that node `n` covers.
pub open spec fn node_text(t: SyntaxTree, src: Seq<u8>, n: int) -> Seq<char> {
    text_of(src, t.node(n).span.start as int, t.node(n).span.end as int)
}

/// The attribute set reached by walking up from node `i`.
pub open spec fn find_attrset(t: SyntaxTree, i: int) -> Result<int, Failure>
    decreases i,
{
    let k = t.kind(i);
    if k == "attrset_expression"@ {
        Ok(i)
    } else {
        match expected_parent(k) {
            None => Err(Failure::InvalidAttrSetInvalidKind { actual: k }),
            Some(pk) => match t.parent(i) {
                None => Err(Failure::InvalidAttrSetNoParent),
                Some(p) => if t.kind(p) != pk {
                    Err(Failure::InvalidAttrSetInvalidKind { actual: t.kind(p) })
                } else if 0 <= p < i {
                    find_attrset(t, p)
                } else {
                    Err(Failure::InvalidAttrSetNoParent)
                },
            },
        }
    }
}

/// The identifier that names the function at node `f`, looking through
/// variable references and attribute selections.
pub open spec fn function_name(t: SyntaxTree, f: int) -> Result<int, Failure>
    decreases t.len() - f,
{
    let k = t.kind(f);
    if k == "select_expression"@ {
        match t.field_child(f, "attrpath"@) {
            None => Err(Failure::InvalidFetcherCall),
            Some(path) => match t.last_field_child(path, "attr"@) {
                None => Err(Failure::InvalidFetcherCall),
                Some(a) => if f < a < t.len() {
                    function_name(t, a)
                } else {
                    Err(Failure::InvalidFetcherCall)
                },
            },
        }
    } else if k == "variable_expression"@ {
        match t.field_child(f, "name"@) {
            None => Err(Failure::InvalidFetcherCall),
            Some(n) => if f < n < t.len() {
                function_name(t, n)
            } else {
                Err(Failure::InvalidFetcherCall)
            },
        }
    } else if k == "identifier"@ {
        Ok(f)
    } else {
        Err(Failure::InvalidAttrSetInvalidKind { actual: k })
    }
}

/// The fetcher that a function name stands for.
pub open spec fn known_fetcher(name: Seq<char>) -> Option<Fetcher> {
    if name == "fetchFromGitHub"@ {
        Some(Fetcher::FetchFromGitHub)
    } else {
        None
    }
}

/// The call that node `i` lies in: the application node and its fetcher.
pub open spec fn locate_call(t: SyntaxTree, src: Seq<u8>, i: int) -> Result<(int, Fetcher), Failure> {
    match find_attrset(t, i) {
        Err(e) => Err(e),
        Ok(set) => match t.parent(set) {
            None => Err(Failure::InvalidAttrSetNoParent),
            Some(app) => if t.kind(app) != "apply_expression"@ {
                Err(Failure::InvalidAttrSetInvalidKind { actual: t.kind(app) })
            } else {
                match t.field_child(app, "function"@) {
                    None => Err(Failure::InvalidFetcherCall),
                    Some(f) => match function_name(t, f) {
                        Err(e) => Err(e),
                        Ok(id) => match known_fetcher(node_text(t, src, id)) {
                            None => Err(Failure::InvalidFetcher { fetcher: node_text(t, src, id) }),
                            Some(fetcher) => Ok((app, fetcher)),
                        },
                    },
                }
            },
        },
    }
}

/// The value node of the last `hash` binding among the children of
/// `set` from the `k`-th on, or `found` if there is none.
pub open spec fn scan_bindings(t: SyntaxTree, src: Seq<u8>, set: int, k: int, found: Option<
    int,
>) -> Result<Option<int>, Failure>
    decreases t.node(set).child_count - k,
    when 0 <= k
{
    if k >= t.node(set).child_count {
        Ok(found)
    } else {
        let b = t.child(set, k);
        match t.field_child(b, "attrpath"@) {
            None => Err(Failure::InvalidAttrMissingChild { missing: "attrpath"@ }),
            Some(path) => match t.field_child(b, "expression"@) {
                None => Err(Failure::InvalidAttrMissingChild { missing: "expression"@ }),
                Some(e) => scan_bindings(
                    t,
                    src,
                    set,
                    k + 1,
                    if node_text(t, src, path) == "hash"@ {
                        Some(e)
                    } else {
                        found
                    },
                ),
            },
        }
    }
}

/// The hash value at `span` can have its first and last byte (its quotes)
/// stripped; a value that cannot is rejected, with its kind, as a node that
/// has no place there.
pub open spec fn strippable(src: Seq<u8>, span: Span) -> bool {
    &&& span.start + 2 <= span.end
    &&& is_text_range(src, span.start + 1, span.end - 1)
}

/// The hash attribute of the call at application node `app`.
pub open spec fn find_hash(t: SyntaxTree, src: Seq<u8>, app: int, fetcher: Fetcher) -> Result<
    UpdateFetcherInput,
    Failure,
> {
    match t.field_child(app, "argument"@) {
        None => Err(Failure::InvalidFetcherCall),
        Some(arg) => if t.node(arg).child_count < 2 {
            Err(Failure::InvalidFetcherCall)
        } else {
            match scan_bindings(t, src, t.child(arg, 1), 0, None) {
                Err(e) => Err(e),
                Ok(None) => Err(Failure::MissingHashAttribute),
                Ok(Some(h)) => if strippable(src, t.node(h).span) {
                    Ok(UpdateFetcherInput { old_hash_attr: t.node(h).span, argument: t.node(arg).span, fetcher })
                } else {
                    Err(Failure::InvalidAttrSetInvalidKind { actual: t.kind(h) })
                },
            }
        },
    }
}

/// The fetcher call that the cursor node `i` lies in.
pub open spec fn resolve(t: SyntaxTree, src: Seq<u8>, i: int) -> Result<UpdateFetcherInput, Failure> {
    match locate_call(t, src, i) {
        Err(e) => Err(e),
        Ok((app, fetcher)) => find_hash(t, src, app, fetcher),
    }
}

/// A child found by its role is a child of the node asked.
pub proof fn lemma_first_field_is_child(t: SyntaxTree, src: Seq<u8>, n: int, name: Seq<char>, k: int)
    requires
        t.wf(src),
        0 <= n < t.len(),
        0 <= k,
        t.first_field_from(n, name, k) is Some,
    ensures
        ({
            let c = t.first_field_from(n, name, k)->Some_0;
            &&& n < c < t.len()
            &&& t.parent(c) == Some(n)
        }),
    decreases t.node(n).child_count - k,
{
    assert(t.node_wf(src, n));
    if k < t.node(n).child_count && field_view(t.node(t.child(n, k)).field) != Some(name) {
        lemma_first_field_is_child(t, src, n, name, k + 1);
    }
}

/// The hash value found by a scan lies within the binding set.
pub proof fn lemma_scan_inside(t: SyntaxTree, src: Seq<u8>, set: int, k: int, found: Option<int>)
    requires
        t.wf(src),
        0 <= set < t.len(),
        0 <= k,
        found matches Some(h0) ==> 0 <= h0 < t.len() && SyntaxTree::nested(t.node(set).span, t.node(h0).span),
        scan_bindings(t, src, set, k, found) matches Ok(Some(_)),
    ensures
        scan_bindings(t, src, set, k, found) matches Ok(Some(h)) && 0 <= h < t.len()
            && SyntaxTree::nested(t.node(set).span, t.node(h).span),
    decreases t.node(set).child_count - k,
{
    assert(t.node_wf(src, set));
    if k < t.node(set).child_count {
        let b = t.child(set, k);
        assert(t.parent(b) == Some(set));
        assert(t.node_wf(src, b));
        let path = t.field_child(b, "attrpath"@);
        let e = t.field_child(b, "expression"@);
        if path is Some && e is Some {
            lemma_first_field_is_child(t, src, b, "expression"@, 0);
            assert(t.node_wf(src, e->Some_0));
            let next = if node_text(t, src, path->Some_0) == "hash"@ {
                e
            } else {
                found
            };
            lemma_scan_inside(t, src, set, k + 1, next);
        }
    }
}

/// The attribute set reached by the walk up is a node of the tree.
pub proof fn lemma_attrset_in_tree(t: SyntaxTree, src: Seq<u8>, i: int)
    requires
        t.wf(src),
        0 <= i < t.len(),
        find_attrset(t, i) is Ok,
    ensures
        0 <= find_attrset(t, i)->Ok_0 < t.len(),
    decreases i,
{
    assert(t.node_wf(src, i));
    if t.kind(i) != "attrset_expression"@ {
        let p = t.parent(i)->Some_0;
        lemma_attrset_in_tree(t, src, p);
    }
}

/// The identifier that names a function is a node of the tree.
pub proof fn lemma_function_in_tree(t: SyntaxTree, src: Seq<u8>, f: int)
    requires
        t.wf(src),
        0 <= f < t.len(),
        function_name(t, f) is Ok,
    ensures
        0 <= function_name(t, f)->Ok_0 < t.len(),
    decreases t.len() - f,
{
    if t.kind(f) == "select_expression"@ {
        let path = t.field_child(f, "attrpath"@)->Some_0;
        let a = t.last_field_child(path, "attr"@)->Some_0;
        lemma_function_in_tree(t, src, a);
    } else if t.kind(f) == "variable_expression"@ {
        let n = t.field_child(f, "name"@)->Some_0;
        lemma_function_in_tree(t, src, n);
    }
}

/// A resolved call delimits, in whole characters, a strippable hash value
/// inside its argument block.
pub proof fn lemma_resolved_is_valid(t: SyntaxTree, src: Seq<u8>, i: int)
    requires
        t.wf(src),
        0 <= i < t.len(),
        resolve(t, src, i) is Ok,
    ensures
        valid_call(src, resolve(t, src, i)->Ok_0),
{
    lemma_attrset_in_tree(t, src, i);
    let set = find_attrset(t, i)->Ok_0;
    assert(t.node_wf(src, set));
    let app = t.parent(set)->Some_0;
    let (_, fetcher) = locate_call(t, src, i)->Ok_0;
    assert(t.node_wf(src, app));
    lemma_first_field_is_child(t, src, app, "argument"@, 0);
    let arg = t.field_child(app, "argument"@)->Some_0;
    assert(t.node_wf(src, arg));
    let bs = t.child(arg, 1);
    assert(t.parent(bs) == Some(arg));
    assert(t.node_wf(src, bs));
    lemma_scan_inside(t, src, bs, 0, None);
    let h = scan_bindings(t, src, bs, 0, None)->Ok_0->Some_0;
    assert(t.node_wf(src, h));
}

fn expected_parent_kind(kind: &str) -> (r: Option<&'static str>)
    ensures
        match r {
            Some(p) => expected_parent(kind@) == Some(p@),
            None => expected_parent(kind@) is None,
        },
{
    if same_text(kind, "binding_set") {
        Some("attrset_expression")
    } else if same_text(kind, "identifier") {
        Some("attrpath")
    } else if same_text(kind, "attrpath") {
        Some("binding")
    } else if same_text(kind, "binding") {
        Some("binding_set")
    } else if same_text(kind, "=") {
        Some("binding")
    } else if same_text(kind, "\"") {
        Some("string_expression")
    } else if same_text(kind, "string_expression") {
        Some("binding")
    } else if same_text(kind, "string_fragment") {
        Some("string_expression")
    } else if same_text(kind, ";") {
        Some("binding")
    } else if same_text(kind, "{") {
        Some("attrset_expression")
    } else if same_text(kind, "}") {
        Some("attrset_expression")
    } else {
        None
    }
}

/// The view of an index result.
pub open spec fn index_view(r: Result<usize, UpdateFetcherError>) -> Result<int, Failure> {
    match r {
        Ok(i) => Ok(i as int),
        Err(e) => Err(e@),
    }
}

fn find_attrset_exec(t: &SyntaxTree, source: &str, i: usize) -> (r: Result<usize, UpdateFetcherError>)
    requires
        t.wf(source.spec_bytes()),
        i < t.len(),
    ensures
        index_view(r) == find_attrset(*t, i as int),
        r matches Ok(a) ==> a < t.len(),
{
    let ghost src = source.spec_bytes();
    let mut cur = i;
    loop
        invariant
            t.wf(src),
            cur < t.len(),
            find_attrset(*t, i as int) == find_attrset(*t, cur as int),
        decreases cur,
    {
        let node = &t.nodes[cur];
        assert(t.node_wf(src, cur as int));
        if same_text(node.kind.as_str(), "attrset_expression") {
            return Ok(cur);
        }
        match expected_parent_kind(node.kind.as_str()) {
            None => {
                return Err(UpdateFetcherError::invalid_attr_set_invalid_kind(node.kind.clone()));
            },
            Some(pk) => match node.parent {
                None => {
                    return Err(UpdateFetcherError::invalid_attrset_no_parent());
                },
                Some(p) => {
                    let pn = &t.nodes[p];
                    if !same_text(pn.kind.as_str(), pk) {
                        return Err(UpdateFetcherError::invalid_attr_set_invalid_kind(pn.kind.clone()));
                    }
                    cur = p;
                },
            },
        }
    }
}

fn function_name_exec(t: &SyntaxTree, source: &str, f: usize) -> (r: Result<usize, UpdateFetcherError>)
    requires
        t.wf(source.spec_bytes()),
        f < t.len(),
    ensures
        index_view(r) == function_name(*t, f as int),
        r matches Ok(a) ==> a < t.len(),
{
    let ghost src = source.spec_bytes();
    let total = t.nodes.len();
    let mut cur = f;
    loop
        invariant
            t.wf(src),
            total == t.len(),
            cur < t.len(),
            function_name(*t, f as int) == function_name(*t, cur as int),
        decreases t.len() - cur,
    {
        let node = &t.nodes[cur];
        assert(t.node_wf(src, cur as int));
        if same_text(node.kind.as_str(), "select_expression") {
            match t.field_child_exec(cur, "attrpath") {
                None => {
                    return Err(UpdateFetcherError::invalid_fetcher_call());
                },
                Some(path) => {
                    assert(t.node_wf(src, path as int));
                    match t.last_field_child_exec(path, "attr") {
                        None => {
                            return Err(UpdateFetcherError::invalid_fetcher_call());
                        },
                        Some(a) => {
                            if !(cur < a) {
                                return Err(UpdateFetcherError::invalid_fetcher_call());
                            }
                            cur = a;
                        },
                    }
                },
            }
        } else if same_text(node.kind.as_str(), "variable_expression") {
            match t.field_child_exec(cur, "name") {
                None => {
                    return Err(UpdateFetcherError::invalid_fetcher_call());
                },
                Some(n) => {
                    if !(cur < n) {
                        return Err(UpdateFetcherError::invalid_fetcher_call());
                    }
                    cur = n;
                },
            }
        } else if same_text(node.kind.as_str(), "identifier") {
            return Ok(cur);
        } else {
            return Err(UpdateFetcherError::invalid_attr_set_invalid_kind(node.kind.clone()));
        }
    }
}

fn node_text_exec<'a>(t: &SyntaxTree, source: &'a str, n: usize) -> (r: &'a str)
    requires
        t.wf(source.spec_bytes()),
        n < t.len(),
    ensures
        r@ == node_text(*t, source.spec_bytes(), n as int),
{
    assert(t.node_wf(source.spec_bytes(), n as int));
    slice_str(source, t.nodes[n].span.start, t.nodes[n].span.end)
}

/// The view of a located call.
pub open spec fn call_view(r: Result<(usize, Fetcher), UpdateFetcherError>) -> Result<(int, Fetcher), Failure> {
    match r {
        Ok((a, f)) => Ok((a as int, f)),
        Err(e) => Err(e@),
    }
}

fn locate_call_exec(t: &SyntaxTree, source: &str, i: usize) -> (r: Result<(usize, Fetcher), UpdateFetcherError>)
    requires
        t.wf(source.spec_bytes()),
        i < t.len(),
    ensures
        call_view(r) == locate_call(*t, source.spec_bytes(), i as int),
        r matches Ok((a, _)) ==> a < t.len(),
{
    let ghost src = source.spec_bytes();
    let set = match find_attrset_exec(t, source, i) {
        Ok(set) => set,
        Err(e) => {
            return Err(e);
        },
    };
    assert(t.node_wf(src, set as int));
    let app = match t.nodes[set].parent {
        None => {
            return Err(UpdateFetcherError::invalid_attrset_no_parent());
        },
        Some(p) => p,
    };
    assert(t.node_wf(src, app as int));
    if !same_text(t.nodes[app].kind.as_str(), "apply_expression") {
        return Err(UpdateFetcherError::invalid_attr_set_invalid_kind(t.nodes[app].kind.clone()));
    }
    let f = match t.field_child_exec(app, "function") {
        None => {
            return Err(UpdateFetcherError::invalid_fetcher_call());
        },
        Some(f) => f,
    };
    let id = match function_name_exec(t, source, f) {
        Ok(id) => id,
        Err(e) => {
            return Err(e);
        },
    };
    let name = node_text_exec(t, source, id);
    if same_text(name, "fetchFromGitHub") {
        Ok((app, Fetcher::FetchFromGitHub))
    } else {
        Err(UpdateFetcherError::InvalidFetcher { fetcher: name.to_owned() })
    }
}

/// The view of a scan result.
pub open spec fn scan_view(r: Result<Option<usize>, UpdateFetcherError>) -> Result<Option<int>, Failure> {
    match r {
        Ok(Some(h)) => Ok(Some(h as int)),
        Ok(None) => Ok(None),
        Err(e) => Err(e@),
    }
}

fn scan_bindings_exec(t: &SyntaxTree, source: &str, set: usize) -> (r: Result<Option<usize>, UpdateFetcherError>)
    requires
        t.wf(source.spec_bytes()),
        set < t.len(),
    ensures
        scan_view(r) == scan_bindings(*t, source.spec_bytes(), set as int, 0, None),
        r matches Ok(Some(h)) ==> h < t.len(),
{
    let ghost src = source.spec_bytes();
    assert(t.node_wf(src, set as int));
    let total = t.nodes.len();
    let node = &t.nodes[set];
    let mut found: Option<usize> = None;
    let mut k: usize = 0;
    while k < node.child_count
        invariant
            src == source.spec_bytes(),
            t.wf(src),
            *node == t.node(set as int),
            total == t.len(),
            node.first_child + node.child_count <= t.len(),
            k <= node.child_count,
            found matches Some(h) ==> h < t.len(),
            scan_bindings(*t, src, set as int, 0, None) == scan_bindings(
                *t,
                src,
                set as int,
                k as int,
                match found {
                    Some(h) => Some(h as int),
                    None => None,
                },
            ),
        decreases node.child_count - k,
    {
        let b = node.first_child + k;
        assert(t.node_wf(src, b as int));
        assert(b as int == t.child(set as int, k as int));
        let path = match t.field_child_exec(b, "attrpath") {
            None => {
                let missing = String::from_str("attrpath");
                return Err(UpdateFetcherError::invalid_attr_missing_child(missing));
            },
            Some(p) => p,
        };
        let e = match t.field_child_exec(b, "expression") {
            None => {
                let missing = String::from_str("expression");
                return Err(UpdateFetcherError::invalid_attr_missing_child(missing));
            },
            Some(e) => e,
        };
        if same_text(node_text_exec(t, source, path), "hash") {
            found = Some(e);
        }
        k = k + 1;
    }
    Ok(found)
}

fn find_hash_exec(t: &SyntaxTree, source: &str, app: usize, fetcher: Fetcher) -> (r: Result<UpdateFetcherInput, UpdateFetcherError>)
    requires
        t.wf(source.spec_bytes()),
        app < t.len(),
    ensures
        outcome_view(r) == find_hash(*t, source.spec_bytes(), app as int, fetcher),
{
    let ghost src = source.spec_bytes();
    let total = t.nodes.len();
    assert(t.node_wf(src, app as int));
    let arg = match t.field_child_exec(app, "argument") {
        None => {
            return Err(UpdateFetcherError::invalid_fetcher_call());
        },
        Some(a) => a,
    };
    assert(t.node_wf(src, arg as int));
    if t.nodes[arg].child_count < 2 {
        return Err(UpdateFetcherError::invalid_fetcher_call());
    }
    let set = t.nodes[arg].first_child + 1;
    let h = match scan_bindings_exec(t, source, set) {
        Err(e) => {
            return Err(e);
        },
        Ok(None) => {
            return Err(UpdateFetcherError::MissingHashAttribute);
        },
        Ok(Some(h)) => h,
    };
    assert(t.node_wf(src, h as int));
    let span = t.nodes[h].span;
    if span.end - span.start >= 2 && source.is_char_boundary(span.start + 1)
        && source.is_char_boundary(span.end - 1) {
        Ok(UpdateFetcherInput { old_hash_attr: span, argument: t.nodes[arg].span, fetcher })
    } else {
        Err(UpdateFetcherError::invalid_attr_set_invalid_kind(t.nodes[h].kind.clone()))
    }
}

/// Resolves the fetcher call around the node at index `cursor` of a tree
/// parsed from `source`.
pub fn resolve_call(tree: &SyntaxTree, source: &str, cursor: usize) -> (r: Result<UpdateFetcherInput, UpdateFetcherError>)
    requires
        tree.wf(source.spec_bytes()),
        cursor < tree.len(),
    ensures
        outcome_view(r) == resolve(*tree, source.spec_bytes(), cursor as int),
{
    match locate_call_exec(tree, source, cursor) {
        Err(e) => Err(e),
        Ok((app, fetcher)) => find_hash_exec(tree, source, app, fetcher),
    }
}

} // verus!
