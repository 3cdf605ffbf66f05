//! Design of CRISPR guide RNAs: PAM-anchored candidate search with pattern
//! filters, and an alignment-based scan for off-target sites.

pub mod design;
pub mod dna;
pub mod errors;
pub mod grnas;
pub mod offtarget;
pub mod pattern;

pub use design::GuideDesign;
pub use errors::RuntimeError;
