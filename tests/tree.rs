use nix_transform::{resolve_call, Fetcher, Span, SyntaxNode, SyntaxTree, UpdateFetcherError};

fn node(kind: &str, start: usize, end: usize, parent: Option<usize>, field: Option<&str>, first_child: usize, child_count: usize) -> SyntaxNode {
    SyntaxNode {
        kind: String::from(kind),
        span: Span { start, end },
        parent,
        field: field.map(String::from),
        first_child,
        child_count,
    }
}

// f { hash = "x"; }
// 0123456789012345678
const SOURCE: &str = "f { hash = \"x\"; }";

fn tree(name: &str) -> SyntaxTree {
    SyntaxTree {
        nodes: vec![
            node("apply_expression", 0, 17, None, None, 1, 2),
            node("variable_expression", 0, 1, Some(0), Some("function"), 3, 1),
            node("attrset_expression", 2, 17, Some(0), Some("argument"), 4, 3),
            node(name, 0, 1, Some(1), Some("name"), 7, 0),
            node("{", 2, 3, Some(2), None, 7, 0),
            node("binding_set", 4, 15, Some(2), None, 7, 1),
            node("}", 16, 17, Some(2), None, 8, 0),
            node("binding", 4, 15, Some(5), Some("binding"), 8, 4),
            node("attrpath", 4, 8, Some(7), Some("attrpath"), 12, 1),
            node("=", 9, 10, Some(7), None, 13, 0),
            node("string_expression", 11, 14, Some(7), Some("expression"), 13, 3),
            node(";", 14, 15, Some(7), None, 16, 0),
            node("identifier", 4, 8, Some(8), Some("attr"), 16, 0),
            node("\"", 11, 12, Some(10), None, 16, 0),
            node("string_fragment", 12, 13, Some(10), None, 16, 0),
            node("\"", 13, 14, Some(10), None, 16, 0),
        ],
    }
}

#[test]
fn every_node_inside_the_argument_resolves_alike() {
    let t = tree("identifier");
    let source = SOURCE.replacen("f", "fetchFromGitHub", 1);
    // the hand-made tree covers "f"; widen the function name's span
    let mut t = t;
    let shift = "fetchFromGitHub".len() - 1;
    for n in t.nodes.iter_mut() {
        if n.span.start > 0 {
            n.span.start += shift;
        }
        n.span.end += shift;
    }
    let expected = resolve_call(&t, &source, 12).unwrap();
    assert_eq!(expected.fetcher, Fetcher::FetchFromGitHub);
    assert_eq!(expected.argument, Span { start: 2 + shift, end: 17 + shift });
    assert_eq!(expected.old_hash_attr, Span { start: 11 + shift, end: 14 + shift });
    for cursor in (2..16).filter(|c| *c != 3) {
        assert_eq!(resolve_call(&t, &source, cursor).unwrap(), expected, "node {}", cursor);
    }
}

#[test]
fn unknown_name_in_hand_made_tree() {
    let t = tree("identifier");
    match resolve_call(&t, SOURCE, 12) {
        Err(UpdateFetcherError::InvalidFetcher { fetcher }) => assert_eq!(fetcher, "f"),
        other => panic!("unexpected {:?}", other),
    }
}

#[test]
fn unexpected_name_kind() {
    let t = tree("string_expression");
    match resolve_call(&t, SOURCE, 4) {
        Err(UpdateFetcherError::InvalidAttrSetInvalidKind { actual }) => {
            assert_eq!(actual, "string_expression")
        }
        other => panic!("unexpected {:?}", other),
    }
}

#[test]
fn walk_from_the_application_fails() {
    let t = tree("identifier");
    match resolve_call(&t, SOURCE, 0) {
        Err(UpdateFetcherError::InvalidAttrSetInvalidKind { actual }) => {
            assert_eq!(actual, "apply_expression")
        }
        other => panic!("unexpected {:?}", other),
    }
}
