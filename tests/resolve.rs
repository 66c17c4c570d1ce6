use nix_transform::{update_fetcher_prepare, Fetcher, Span, UpdateFetcherError, UpdateFetcherInput};

fn plain(hash: &str) -> String {
    format!(
        "{{ fetchFromGitHub }}:\n{{\n  src = fetchFromGitHub {{\n    owner = \"a\";\n    repo = \"b\";\n    rev = \"v1\";\n    hash = {};\n  }};\n}}\n",
        hash
    )
}

fn argument_of(source: &str, call: &str) -> Span {
    let start = source.find(call).unwrap() + call.len() - 1;
    let end = source.rfind("};").unwrap() + 1;
    Span { start, end }
}

fn hash_span(source: &str, hash: &str) -> Span {
    let start = source.find(&format!("hash = {}", hash)).unwrap() + "hash = ".len();
    Span { start, end: start + hash.len() }
}

fn check_every_offset(source: &str, call: &str, hash: &str) {
    let argument = argument_of(source, call);
    let expected = UpdateFetcherInput {
        old_hash_attr: hash_span(source, hash),
        argument,
        fetcher: Fetcher::FetchFromGitHub,
    };
    for offset in argument.start + 1..argument.end {
        assert_eq!(update_fetcher_prepare(source, offset).unwrap(), expected, "offset {}", offset);
    }
}

#[test]
fn github_plain_empty_hash() {
    let source = plain("\"\"");
    check_every_offset(&source, "fetchFromGitHub {", "\"\"");
}

#[test]
fn github_plain_invalid_hash() {
    let hash = "\"sha256-0000000000000000000000000000000000000000000=\"";
    let source = plain(hash);
    check_every_offset(&source, "fetchFromGitHub {", hash);
}

#[test]
fn github_attr_empty_hash() {
    let source = plain("\"\"").replace("= fetchFromGitHub {", "= pkgs.fetchFromGitHub {");
    check_every_offset(&source, "pkgs.fetchFromGitHub {", "\"\"");
}

#[test]
fn github_attr_invalid_hash() {
    let hash = "\"sha256-0000000000000000000000000000000000000000000=\"";
    let source = plain(hash).replace("= fetchFromGitHub {", "= lib.pkgs.fetchFromGitHub {");
    check_every_offset(&source, "lib.pkgs.fetchFromGitHub {", hash);
}

#[test]
fn cursor_at_file_start_fails() {
    let source = plain("\"\"");
    match update_fetcher_prepare(&source, 0) {
        Err(UpdateFetcherError::InvalidAttrSetInvalidKind { .. })
        | Err(UpdateFetcherError::InvalidAttrSetNoParent)
        | Err(UpdateFetcherError::InvalidFetcherCall)
        | Err(UpdateFetcherError::InvalidAttrMissingChild { .. })
        | Err(UpdateFetcherError::InvalidCursor) => {}
        other => panic!("unexpected {:?}", other),
    }
}

#[test]
fn cursor_on_function_name_fails() {
    let source = plain("\"\"");
    let offset = source.find("= fetchFromGitHub").unwrap() + 2;
    match update_fetcher_prepare(&source, offset) {
        Err(UpdateFetcherError::InvalidAttrSetInvalidKind { actual }) => {
            assert_eq!(actual, "variable_expression")
        }
        other => panic!("unexpected {:?}", other),
    }
}

#[test]
fn missing_hash_attribute() {
    let source = "{\n  src = fetchFromGitHub {\n    owner = \"a\";\n    repo = \"b\";\n  };\n}\n";
    let offset = source.find("owner").unwrap();
    match update_fetcher_prepare(source, offset) {
        Err(UpdateFetcherError::MissingHashAttribute) => {}
        other => panic!("unexpected {:?}", other),
    }
}

#[test]
fn unsupported_fetcher() {
    let source = "{\n  src = fetchurl {\n    url = \"https://example.org/a.tar.gz\";\n    hash = \"\";\n  };\n}\n";
    let offset = source.find("url =").unwrap();
    match update_fetcher_prepare(source, offset) {
        Err(UpdateFetcherError::InvalidFetcher { fetcher }) => assert_eq!(fetcher, "fetchurl"),
        other => panic!("unexpected {:?}", other),
    }
}

#[test]
fn last_hash_binding_wins() {
    let source = "{\n  src = fetchFromGitHub {\n    hash = \"x\";\n    owner = \"a\";\n    hash = \"yy\";\n  };\n}\n";
    let offset = source.find("owner").unwrap();
    let call = update_fetcher_prepare(source, offset).unwrap();
    let start = source.find("\"yy\"").unwrap();
    assert_eq!(call.old_hash_attr, Span { start, end: start + 4 });
}

#[test]
fn attribute_set_outside_call_fails() {
    let source = "{\n  meta = {\n    hash = \"\";\n  };\n}\n";
    let offset = source.find("hash").unwrap();
    match update_fetcher_prepare(source, offset) {
        Err(UpdateFetcherError::InvalidAttrSetInvalidKind { actual }) => assert_eq!(actual, "binding"),
        other => panic!("unexpected {:?}", other),
    }
}

#[test]
fn unquoted_hash_value_is_rejected() {
    let source = "{\n  src = fetchFromGitHub {\n    owner = \"a\";\n    hash = h;\n  };\n}\n";
    let offset = source.find("owner").unwrap();
    match update_fetcher_prepare(source, offset) {
        Err(UpdateFetcherError::InvalidAttrSetInvalidKind { actual }) => {
            assert_eq!(actual, "variable_expression")
        }
        other => panic!("unexpected {:?}", other),
    }
}

#[test]
fn cursor_beyond_end_is_invalid() {
    let source = plain("\"\"");
    match update_fetcher_prepare(&source, source.len() + 5) {
        Err(UpdateFetcherError::InvalidCursor) => {}
        other => panic!("unexpected {:?}", other),
    }
}

#[test]
fn unparsable_text_still_answers() {
    match update_fetcher_prepare("{ a = ", 3) {
        Err(_) => {}
        Ok(call) => panic!("unexpected {:?}", call),
    }
}
