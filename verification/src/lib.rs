//! A depth-bounded, cycle-safe crawler for documentation sites.
//!
//! The crawl is a small state machine, [`crawl::Crawl`]: it decides which
//! address to fetch next and what to do with each answer, and leaves the
//! fetching to its caller. What it decides is stated in contracts and proved.
//!
//! - [`input`] reads the depth bound that the operator typed.
//! - [`link`] resolves a reference found on a page to an absolute address.
//! - [`page`] reads a fetched page: its record and its links.
//! - [`text`] joins pieces of text.
//! - [`crawl`] is the machine.
//! - [`traversal`] defines the depth-first walk of a site as mathematics.
//! - [`walk_laws`] proves what holds of every such walk: the depth bound,
//!   that nothing is visited twice, and the order of the records.
//! - [`run_laws`] proves that every run of the machine comes to that walk,
//!   and that it ends.

pub mod crawl;
pub mod input;
pub mod link;
pub mod page;
pub mod run_laws;
pub mod text;
pub mod traversal;
pub mod walk_laws;
