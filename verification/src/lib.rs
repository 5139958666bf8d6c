//! A report core for a code-and-manifest inspection tool.
//!
//! Two independent pipelines are modelled and verified here. The diagnostic
//! pipeline turns machine-readable linter records into a filtered, ordered,
//! render-ready report: records are parsed one line at a time, diagnostics
//! arising in generated code are suppressed by marker rules, the survivors are
//! ordered by source location, and each is reduced to the exact pieces a
//! terminal front end should show. The manifest pipeline checks package
//! metadata for missing recommended fields and flags pinned dependencies whose
//! `branch` query parameter names a version tag that is no longer current.
//!
//! Process invocation, terminal styling, and command dispatch are left to a
//! thin unverified front end; this crate holds the decision logic.

pub mod diagnostics;
pub mod json;
pub mod manifest;
pub mod ordering;
pub mod render;
pub mod staleness;
pub mod suppression;
pub mod text;
