//! Replaces the plain string literals of a syntax tree by numbered
//! placeholders and keeps the table that leads from each placeholder back to
//! the text it stands for.
//!
//! The literals are numbered from zero in source order. The static text of
//! template strings is no literal and stays. The table is the record of the
//! replaced texts, keyed by the decimal numerals of their positions.

use crate::mapping::{mapping_entries, PlaceholderMapping};
use crate::replacer::StringReplacer;
use crate::tree::Node;
use vstd::prelude::*;

pub mod decimal;
pub mod laws;
pub mod mapping;
pub mod replacer;
pub mod restore;
pub mod table;
pub mod tree;

verus! {

/// Replaces every plain string literal of the tree by its placeholder,
/// counting from zero in source order, and returns the mapping from the
/// placeholders to the texts that the literals stood for.
pub fn substitute(tree: &mut Node) -> (mapping: PlaceholderMapping)
    ensures
        final(tree)@ == old(tree)@.rewritten(0),
        mapping@ == mapping_entries(old(tree)@.originals()),
{
    let mut replacer = StringReplacer::new();
    replacer.visit_mut_node(tree);
    assert(replacer@ =~= old(tree)@.originals());
    PlaceholderMapping::build(replacer.originals())
}

} // verus!
