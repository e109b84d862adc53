//! The literal visitor: it walks a tree, puts a placeholder in each plain
//! string literal and records what the literal held.

use crate::decimal::placeholder;
use crate::tree::{
    forest_literals, forest_rewritten, lemma_view_of_other, literal_texts, views, Node, NodeView,
    StrLit, StrLitView,
};
use vstd::prelude::*;

verus! {

/// The texts of a row of strings.
pub open spec fn texts(strings: Seq<String>) -> Seq<Seq<char>> {
    Seq::new(strings.len(), |i: int| strings[i]@)
}

/// The state of one substitution run: the index of the next placeholder and
/// the texts replaced so far, in the order in which they were met.
pub struct StringReplacer {
    counter: usize,
    originals: Vec<String>,
}

impl View for StringReplacer {
    type V = Seq<Seq<char>>;

    /// The record: the text replaced by placeholder `i` at position `i`. The
    /// counter adds nothing to it: it is the length of the record at all times.
    closed spec fn view(&self) -> Seq<Seq<char>> {
        texts(self.originals@)
    }
}

impl StringReplacer {
    #[verifier::type_invariant]
    spec fn counter_is_record_length(self) -> bool {
        self.counter == self.originals@.len()
    }

    /// A replacer that has met no literal yet.
    pub fn new() -> (replacer: Self)
        ensures
            replacer@ == Seq::<Seq<char>>::empty(),
    {
        StringReplacer { counter: 0, originals: Vec::new() }
    }

    /// The index that the next placeholder gets.
    pub fn counter(&self) -> (next: usize)
        ensures
            next == self@.len(),
    {
        proof {
            use_type_invariant(self);
        }
        self.counter
    }

    /// The texts replaced so far, in the order in which they were met.
    pub fn originals(&self) -> (record: &Vec<String>)
        ensures
            texts(record@) == self@,
    {
        &self.originals
    }

    /// Ends the run and hands out the record.
    pub fn into_originals(self) -> (record: Vec<String>)
        ensures
            texts(record@) == self@,
    {
        self.originals
    }

    /// Replaces one plain string literal.
    pub fn visit_mut_str(&mut self, n: &mut StrLit)
        ensures
            final(self)@ == old(self)@.push(old(n)@.text()),
            final(n)@ == StrLitView::placeholder(old(self)@.len()),
    {
        let original = match &n.value {
            Some(text) => text.clone(),
            None => String::new(),
        };
        // The two fields change together: the state is taken out whole and
        // put back whole.
        let mut state = StringReplacer::new();
        std::mem::swap(self, &mut state);
        proof {
            use_type_invariant(&state);
        }
        let StringReplacer { counter, mut originals } = state;
        originals.push(original);
        n.value = Some(placeholder(counter));
        n.raw = None;
        let next: usize = originals.len();
        assert(texts(originals@) =~= old(self)@.push(old(n)@.text()));
        *self = StringReplacer { counter: next, originals };
    }

    /// Walks a tree in source order and replaces each plain string literal in
    /// it.
    pub fn visit_mut_node(&mut self, node: &mut Node)
        ensures
            final(node)@ == old(node)@.rewritten(old(self)@.len()),
            final(self)@ == old(self)@ + old(node)@.originals(),
        decreases *old(node),
    {
        match node {
            Node::Str(lit) => {
                self.visit_mut_str(lit);
                assert(self@ =~= old(self)@ + literal_texts(old(node)@.literals()));
            },
            Node::TemplateStatic(_) => {
                assert(self@ =~= old(self)@ + literal_texts(old(node)@.literals()));
            },
            Node::Other { kind: _, children } => {
                proof {
                    lemma_view_of_other(*old(node));
                }
                self.visit_mut_children(children);
                proof {
                    lemma_view_of_other(*node);
                }
            },
        }
    }

    /// Walks a row of trees from left to right.
    pub fn visit_mut_children(&mut self, children: &mut Vec<Node>)
        ensures
            views(final(children)@) == forest_rewritten(views(old(children)@), old(self)@.len()),
            final(self)@ == old(self)@ + literal_texts(forest_literals(views(old(children)@))),
        decreases *old(children),
    {
        let ghost before = views(old(children)@);
        let ghost start = old(self)@.len();
        let mut i: usize = 0;
        assert(before.take(0) =~= Seq::<NodeView>::empty());
        assert(self@ =~= old(self)@ + literal_texts(forest_literals(before.take(0))));
        while i < children.len()
            invariant
                i <= children@.len(),
                children@.len() == old(children)@.len(),
                before == views(old(children)@),
                start == old(self)@.len(),
                forall|j: int| i <= j < children@.len() ==> children@[j] == old(children)@[j],
                views(children@).take(i as int) == forest_rewritten(before.take(i as int), start),
                self@ == old(self)@ + literal_texts(forest_literals(before.take(i as int))),
            decreases children@.len() - i,
        {
            let ghost row = children@;
            let ghost done = before.take(i as int);
            self.visit_mut_node(&mut children[i]);
            proof {
                let next = before.take(i as int + 1);
                assert(next.drop_last() =~= done);
                assert(next.last() == row[i as int]@);
                assert(views(children@).take(i as int + 1) =~= views(row).take(i as int).push(
                    children@[i as int]@,
                ));
                assert(literal_texts(forest_literals(next)) =~= literal_texts(forest_literals(done))
                    + literal_texts(row[i as int]@.literals()));
            }
            i += 1;
        }
        assert(before.take(i as int) =~= before);
        assert(views(children@).take(i as int) =~= views(children@));
    }
}

} // verus!
