//! The way back: puts the recorded texts where their placeholders stand.

use crate::decimal::parse_placeholder;
use crate::replacer::texts;
use crate::tree::{lemma_view_of_other, restored_row, views, Node, StrLit};
use vstd::prelude::*;

verus! {

/// Puts one literal back: where it carries a placeholder of the record, it
/// gets the recorded text as its content and loses its remembered spelling.
/// Any other literal is left as it is.
pub fn restore_str(lit: &mut StrLit, record: &Vec<String>)
    ensures
        final(lit)@ == old(lit)@.restored(texts(record@)),
{
    let count: usize = record.len();
    let index = match &lit.value {
        Some(text) => parse_placeholder(text.as_str()),
        None => None,
    };
    match index {
        Some(index) => {
            if index < count {
                lit.value = Some(record[index].clone());
                lit.raw = None;
            }
        },
        None => {},
    }
}

/// Walks a tree and puts each plain string literal in it back from the
/// record.
pub fn restore_node(node: &mut Node, record: &Vec<String>)
    ensures
        final(node)@ == old(node)@.restored(texts(record@)),
    decreases *old(node),
{
    match node {
        Node::Str(lit) => {
            restore_str(lit, record);
        },
        Node::TemplateStatic(_) => {},
        Node::Other { kind: _, children } => {
            proof {
                lemma_view_of_other(*old(node));
            }
            restore_children(children, record);
            proof {
                lemma_view_of_other(*node);
                assert(node@->children =~= old(node)@.restored(texts(record@))->children);
            }
        },
    }
}

/// Walks a row of trees and puts each of them back from the record.
pub fn restore_children(children: &mut Vec<Node>, record: &Vec<String>)
    ensures
        views(final(children)@) == restored_row(views(old(children)@), texts(record@)),
    decreases *old(children),
{
    let mut i: usize = 0;
    while i < children.len()
        invariant
            i <= children@.len(),
            children@.len() == old(children)@.len(),
            forall|j: int| i <= j < children@.len() ==> children@[j] == old(children)@[j],
            forall|j: int|
                0 <= j < i ==> (#[trigger] children@[j])@ == old(children)@[j]@.restored(
                    texts(record@),
                ),
        decreases children@.len() - i,
    {
        restore_node(&mut children[i], record);
        i += 1;
    }
    assert(views(children@) =~= restored_row(views(old(children)@), texts(record@)));
}

} // verus!
