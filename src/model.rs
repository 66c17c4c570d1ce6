//! The values that resolution and update hand around.

use vstd::prelude::*;
use vstd::string::*;

verus! {

/// A half-open range of byte offsets into a source text.
#[derive(Debug, Clone, Copy, PartialEq, Eq, Structural, Hash)]
pub struct Span {
    pub start: usize,
    pub end: usize,
}

/// The source-fetching functions whose hash can be updated.
#[derive(Debug, Clone, Copy, PartialEq, Eq, Structural, Hash)]
pub enum Fetcher {
    FetchFromGitHub,
}

/// What one update did: which fetcher, and the hash before and after
/// (both without their quotes).
#[derive(Debug, Clone, PartialEq, Eq)]
pub struct FetchAction {
    pub fetcher: Fetcher,
    pub old_hash: String,
    pub new_hash: String,
}

/// An edit: keep `..prefix_offset`, then `to_insert`, then `suffix_offset..`.
#[derive(Debug, Clone, PartialEq, Eq)]
pub struct InsertInBetween {
    pub prefix_offset: usize,
    pub to_insert: String,
    pub suffix_offset: usize,
}

/// The complete result of one update.
#[derive(Debug, Clone, PartialEq, Eq)]
pub struct UpdateFetcher {
    pub modification: InsertInBetween,
    pub action: FetchAction,
}

/// A resolved fetcher call: the span of its `hash` value (quotes
/// included), the span of its whole argument, and the fetcher it names.
#[derive(Debug, Clone, Copy, PartialEq, Eq, Structural, Hash)]
pub struct UpdateFetcherInput {
    pub old_hash_attr: Span,
    pub argument: Span,
    pub fetcher: Fetcher,
}

/// Why an update could not be made.
#[derive(Debug, Clone)]
pub enum UpdateFetcherError {
    InvalidAttrMissingChild { missing: String },
    InvalidAttrSetInvalidKind { actual: String },
    InvalidAttrSetNoParent,
    InvalidFetcherCall,
    InvalidFetcher { fetcher: String },
    InvalidCursor,
    ParseError,
    CouldNotFetchGitHubHash,
    MissingHashAttribute,
}

/// An [`UpdateFetcherError`] with its texts as character sequences.
pub enum Failure {
    InvalidAttrMissingChild { missing: Seq<char> },
    InvalidAttrSetInvalidKind { actual: Seq<char> },
    InvalidAttrSetNoParent,
    InvalidFetcherCall,
    InvalidFetcher { fetcher: Seq<char> },
    InvalidCursor,
    ParseError,
    CouldNotFetchGitHubHash,
    MissingHashAttribute,
}

impl View for UpdateFetcherError {
    type V = Failure;

    open spec fn view(&self) -> Failure {
        match self {
            UpdateFetcherError::InvalidAttrMissingChild { missing } => Failure::InvalidAttrMissingChild {
                missing: missing@,
            },
            UpdateFetcherError::InvalidAttrSetInvalidKind { actual } => Failure::InvalidAttrSetInvalidKind {
                actual: actual@,
            },
            UpdateFetcherError::InvalidAttrSetNoParent => Failure::InvalidAttrSetNoParent,
            UpdateFetcherError::InvalidFetcherCall => Failure::InvalidFetcherCall,
            UpdateFetcherError::InvalidFetcher { fetcher } => Failure::InvalidFetcher {
                fetcher: fetcher@,
            },
            UpdateFetcherError::InvalidCursor => Failure::InvalidCursor,
            UpdateFetcherError::ParseError => Failure::ParseError,
            UpdateFetcherError::CouldNotFetchGitHubHash => Failure::CouldNotFetchGitHubHash,
            UpdateFetcherError::MissingHashAttribute => Failure::MissingHashAttribute,
        }
    }
}

/// The view of a resolution outcome.
pub open spec fn outcome_view<T>(r: Result<T, UpdateFetcherError>) -> Result<T, Failure> {
    match r {
        Ok(v) => Ok(v),
        Err(e) => Err(e@),
    }
}

/// The text that describes `f` to a user.
pub open spec fn failure_message(f: Failure) -> Seq<char> {
    match f {
        Failure::InvalidAttrMissingChild { missing } => "Attribute set is missing a child: `"@ + missing
            + "`"@,
        Failure::InvalidAttrSetInvalidKind { actual } => "Attribute set has invalid kind: `"@
            + actual + "`"@,
        Failure::InvalidAttrSetNoParent => "Attribute set has no parent"@,
        Failure::InvalidFetcherCall => "Invalid call to fetcher"@,
        Failure::InvalidFetcher { fetcher } => "Invalid fetcher: `"@ + fetcher + "`"@,
        Failure::InvalidCursor => "Invalid cursor position"@,
        Failure::ParseError => "Nix parse error"@,
        Failure::CouldNotFetchGitHubHash => "Could not fetch hash from GitHub"@,
        Failure::MissingHashAttribute => "Missing `hash` attribute"@,
    }
}

fn quoted(lead: &str, name: &String) -> (r: String)
    ensures
        r@ == lead@ + name@ + "`"@,
{
    let mut r = String::from_str(lead);
    r.append(name.as_str());
    r.append("`");
    r
}

impl UpdateFetcherError {
    pub fn invalid_attr_missing_child(missing: String) -> (r: UpdateFetcherError)
        ensures
            r@ == (Failure::InvalidAttrMissingChild { missing: missing@ }),
    {
        UpdateFetcherError::InvalidAttrMissingChild { missing }
    }

    pub fn invalid_attr_set_invalid_kind(actual: String) -> (r: UpdateFetcherError)
        ensures
            r@ == (Failure::InvalidAttrSetInvalidKind { actual: actual@ }),
    {
        UpdateFetcherError::InvalidAttrSetInvalidKind { actual }
    }

    pub fn invalid_attrset_no_parent() -> (r: UpdateFetcherError)
        ensures
            r@ == Failure::InvalidAttrSetNoParent,
    {
        UpdateFetcherError::InvalidAttrSetNoParent
    }

    pub fn invalid_fetcher_call() -> (r: UpdateFetcherError)
        ensures
            r@ == Failure::InvalidFetcherCall,
    {
        UpdateFetcherError::InvalidFetcherCall
    }

    /// The text that describes this error to a user.
    pub fn message(&self) -> (r: String)
        ensures
            r@ == failure_message(self@),
    {
        match self {
            UpdateFetcherError::InvalidAttrMissingChild { missing } => quoted(
                "Attribute set is missing a child: `",
                missing,
            ),
            UpdateFetcherError::InvalidAttrSetInvalidKind { actual } => quoted(
                "Attribute set has invalid kind: `",
                actual,
            ),
            UpdateFetcherError::InvalidAttrSetNoParent => String::from_str(
                "Attribute set has no parent",
            ),
            UpdateFetcherError::InvalidFetcherCall => String::from_str("Invalid call to fetcher"),
            UpdateFetcherError::InvalidFetcher { fetcher } => quoted("Invalid fetcher: `", fetcher),
            UpdateFetcherError::InvalidCursor => String::from_str("Invalid cursor position"),
            UpdateFetcherError::ParseError => String::from_str("Nix parse error"),
            UpdateFetcherError::CouldNotFetchGitHubHash => String::from_str(
                "Could not fetch hash from GitHub",
            ),
            UpdateFetcherError::MissingHashAttribute => String::from_str(
                "Missing `hash` attribute",
            ),
        }
    }
}

} // verus!
