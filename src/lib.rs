//! Locates the fetcher call around a cursor in a Nix source file and
//! computes the edit that replaces its `hash` attribute.

pub mod laws;
pub mod model;
pub mod nix;
pub mod resolve;
pub mod syntax;
pub mod text;
pub mod tree;
pub mod update;

pub use model::{
    FetchAction, Fetcher, InsertInBetween, Span, UpdateFetcher, UpdateFetcherError,
    UpdateFetcherInput,
};
pub use resolve::resolve_call;
pub use syntax::update_fetcher_prepare;
pub use tree::{SyntaxNode, SyntaxTree};
pub use update::{
    complete_update, fetcher_expression, finish_update, hash_from_build_output, old_hash,
    probe_argument,
};
