//! Set operations over the line sets of two text sources: a deduplicating
//! line-set reader, a three-way set operator (intersection, union,
//! difference), and a newline-joined result formatter, together with the
//! request state that drives one calculation.

pub mod calc;
pub mod laws;
pub mod lineset;
