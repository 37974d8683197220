//! Verified core of a directory-size analyzer: a size-aggregated tree of
//! scanned paths with bounded memory (low-rank children are pruned into a
//! summary bucket while their contribution to the totals is kept), plus the
//! scan statistics counters.

pub mod sums;
pub mod tree;
pub mod scanner;
