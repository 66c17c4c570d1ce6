use nix_transform::{
    complete_update, fetcher_expression, hash_from_build_output, old_hash, probe_argument,
    update_fetcher_prepare, Fetcher, InsertInBetween, UpdateFetcherError,
};

const SCENARIO: &str = "{\n  src = fetchFromGitHub { owner = \"a\"; repo = \"b\"; rev = \"v1\"; hash = \"\"; };\n}\n";

fn report(hash: &str) -> String {
    format!(
        "error: hash mismatch in fixed-output derivation:\n         specified: sha256-AAAAAAAAAAAAAAAAAAAAAAAAAAAAAAAAAAAAAAAAAAA=\n            got:    {}\n",
        hash
    )
}

#[test]
fn scenario_empty_hash_update() {
    let open = SCENARIO.find("{ owner").unwrap();
    let close = SCENARIO.find("; };").unwrap() + 3;
    let quotes = SCENARIO.find("\"\";").unwrap();
    for offset in open + 1..close {
        let call = update_fetcher_prepare(SCENARIO, offset).unwrap();
        assert_eq!(call.argument.start, open);
        assert_eq!(call.argument.end, close);
        assert_eq!(call.old_hash_attr.start, quotes);
        assert_eq!(call.old_hash_attr.end, quotes + 2);
        let probe = probe_argument(SCENARIO, call);
        assert_eq!(probe, &SCENARIO[open..close]);
        let update = complete_update(SCENARIO, call, Some(report("sha256-AAAA="))).unwrap();
        assert_eq!(update.modification.prefix_offset, quotes);
        assert_eq!(update.modification.suffix_offset, quotes + 2);
        assert_eq!(update.modification.to_insert, "sha256-AAAA=");
        assert_eq!(update.action.fetcher, Fetcher::FetchFromGitHub);
        assert_eq!(update.action.old_hash, "");
        assert_eq!(update.action.new_hash, "sha256-AAAA=");
    }
}

#[test]
fn edit_keeps_text_outside_hash() {
    let source = SCENARIO.replace("hash = \"\"", "hash = \"sha256-old=\"");
    let offset = source.find("owner").unwrap();
    let call = update_fetcher_prepare(&source, offset).unwrap();
    let update = complete_update(&source, call, Some(report("sha256-new="))).unwrap();
    let out = update.modification.modify(&source);
    let h = call.old_hash_attr;
    assert_eq!(&out[..h.start], &source[..h.start]);
    assert_eq!(&out[h.start + "sha256-new=".len()..], &source[h.end..]);
    assert_eq!(out, source.replace("\"sha256-old=\"", "sha256-new="));
    assert_eq!(update.action.old_hash, "sha256-old=");
}

#[test]
fn probe_blanks_only_the_hash() {
    let source = SCENARIO.replace("hash = \"\"", "hash = \"sha256-old=\"");
    let offset = source.find("repo").unwrap();
    let call = update_fetcher_prepare(&source, offset).unwrap();
    let probe = probe_argument(&source, call);
    assert_eq!(probe, "{ owner = \"a\"; repo = \"b\"; rev = \"v1\"; hash = \"\"; }");
    let a = call.argument;
    let h = call.old_hash_attr;
    let back = probe.replacen("\"\"", &source[h.start..h.end], 1);
    assert_eq!(back, &source[a.start..a.end]);
    assert_eq!(old_hash(&source, call), "sha256-old=");
}

#[test]
fn missing_report_is_a_fetch_failure() {
    let offset = SCENARIO.find("owner").unwrap();
    let call = update_fetcher_prepare(SCENARIO, offset).unwrap();
    assert!(matches!(
        complete_update(SCENARIO, call, None),
        Err(UpdateFetcherError::CouldNotFetchGitHubHash)
    ));
    assert!(matches!(
        complete_update(SCENARIO, call, Some(String::from("error: something else\n"))),
        Err(UpdateFetcherError::CouldNotFetchGitHubHash)
    ));
}

#[test]
fn hash_is_read_from_report() {
    assert_eq!(hash_from_build_output(&report("sha256-xyz=")), Some(String::from("sha256-xyz=")));
    assert_eq!(hash_from_build_output("got:    abc\nrest\ngot:    def\n"), Some(String::from("abc")));
    assert_eq!(hash_from_build_output("got:    \n"), Some(String::new()));
}

#[test]
fn report_without_marker_or_newline_gives_nothing() {
    assert_eq!(hash_from_build_output(""), None);
    assert_eq!(hash_from_build_output("got: abc\n"), None);
    assert_eq!(hash_from_build_output("got:    abc"), None);
}

#[test]
fn expression_names_the_fetcher() {
    assert_eq!(
        fetcher_expression(Fetcher::FetchFromGitHub, "{ owner = \"a\"; hash = \"\"; }"),
        "with import <nixpkgs> {}; fetchFromGitHub { owner = \"a\"; hash = \"\"; }"
    );
}

#[test]
fn modify_splices_text() {
    let edit = InsertInBetween { prefix_offset: 2, to_insert: String::from("XYZ"), suffix_offset: 4 };
    assert_eq!(edit.modify("abcdef"), "abXYZef");
    let empty = InsertInBetween { prefix_offset: 0, to_insert: String::new(), suffix_offset: 0 };
    assert_eq!(empty.modify(""), "");
    let unicode = InsertInBetween { prefix_offset: 2, to_insert: String::from("é"), suffix_offset: 2 };
    assert_eq!(unicode.modify("ab"), "abé");
}

#[test]
fn error_messages() {
    assert_eq!(UpdateFetcherError::ParseError.message(), "Nix parse error");
    assert_eq!(UpdateFetcherError::InvalidCursor.message(), "Invalid cursor position");
    assert_eq!(UpdateFetcherError::MissingHashAttribute.message(), "Missing `hash` attribute");
    assert_eq!(UpdateFetcherError::CouldNotFetchGitHubHash.message(), "Could not fetch hash from GitHub");
    assert_eq!(UpdateFetcherError::invalid_fetcher_call().message(), "Invalid call to fetcher");
    assert_eq!(UpdateFetcherError::invalid_attrset_no_parent().message(), "Attribute set has no parent");
    assert_eq!(
        UpdateFetcherError::InvalidFetcher { fetcher: String::from("fetchurl") }.message(),
        "Invalid fetcher: `fetchurl`"
    );
    assert_eq!(
        UpdateFetcherError::invalid_attr_missing_child(String::from("attrpath")).message(),
        "Attribute set is missing a child: `attrpath`"
    );
    assert_eq!(
        UpdateFetcherError::invalid_attr_set_invalid_kind(String::from("binding")).message(),
        "Attribute set has invalid kind: `binding`"
    );
}
