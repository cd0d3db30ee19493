//! Incremental fetch-reconcile-resolve pipeline for a school-portal feed.
//!
//! The library paginates remote listings until a natural stop, reconciles an
//! inbox stream against an outbox stream, deduplicates records against an
//! append-only store, resolves foreign references through a per-run memoizing
//! cache, and commits each newly discovered record exactly once. The remote
//! calls themselves are made by the surrounding application; the library holds
//! every decision the pipeline takes and proves its guarantees.

pub mod config;
pub mod email_text;
pub mod items;
pub mod laws;
pub mod numbers;
pub mod paginate;
pub mod remote;
pub mod report;
pub mod resolve;
pub mod store;
pub mod sync;
pub mod title;

use vstd::prelude::*;

verus! {

/// A fixed placeholder shown when a foreign id cannot be resolved to a name.
pub fn unknown_name() -> (r: String)
    ensures
        r@ == "Nieznany"@,
{
    String::from_str("Nieznany")
}

} // verus!
