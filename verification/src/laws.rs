//! What holds of every tree and every record: the laws that relate the
//! rewritten tree, the record and the mapping.

use crate::decimal::{
    decimal, is_numeral, lemma_decimal_injective, lemma_numeral_of, numeral_value,
};
use crate::mapping::{lookup, mapping_entries, position_of};
use crate::table::has_key;
use crate::tree::{forest_literals, forest_rewritten, literal_texts, NodeView, StrLitView};
use vstd::prelude::*;

verus! {

/// The placeholders `start`, `start + 1`, ... as literals, `count` of them.
pub open spec fn placeholder_run(start: nat, count: nat) -> Seq<StrLitView> {
    Seq::new(count, |i: int| StrLitView::placeholder((start + i) as nat))
}

/// A row keeps its length when it is rewritten.
pub proof fn lemma_forest_rewritten_len(nodes: Seq<NodeView>, start: nat)
    ensures
        forest_rewritten(nodes, start).len() == nodes.len(),
    decreases nodes.len(),
{
    if nodes.len() > 0 {
        lemma_forest_rewritten_len(nodes.drop_last(), start);
    }
}

/// The literals of a row are those of a front part of it followed by those
/// of the rest.
pub proof fn lemma_forest_literals_split(nodes: Seq<NodeView>, at: int)
    requires
        0 <= at <= nodes.len(),
    ensures
        forest_literals(nodes) == forest_literals(nodes.take(at)) + forest_literals(
            nodes.skip(at),
        ),
    decreases nodes.len(),
{
    if at == nodes.len() {
        assert(nodes.take(at) =~= nodes);
        assert(nodes.skip(at) =~= Seq::<NodeView>::empty());
        assert(forest_literals(nodes) =~= forest_literals(nodes) + Seq::<StrLitView>::empty());
    } else {
        let shorter = nodes.drop_last();
        lemma_forest_literals_split(shorter, at);
        assert(shorter.take(at) =~= nodes.take(at));
        assert(nodes.skip(at).drop_last() =~= shorter.skip(at));
        assert(nodes.skip(at).last() == nodes.last());
        assert(forest_literals(nodes) =~= forest_literals(nodes.take(at)) + forest_literals(
            nodes.skip(at),
        ));
    }
}

/// The literals of a front part of a row that is one tree longer are those of
/// the front part followed by those of that tree.
pub proof fn lemma_forest_literals_next(nodes: Seq<NodeView>, i: int)
    requires
        0 <= i < nodes.len(),
    ensures
        forest_literals(nodes.take(i + 1)) == forest_literals(nodes.take(i)) + nodes[i].literals(),
{
    assert(nodes.take(i + 1).drop_last() =~= nodes.take(i));
}

/// Each tree of a rewritten row is that tree rewritten, counting from where
/// the trees before it stopped.
pub proof fn lemma_forest_rewritten_index(nodes: Seq<NodeView>, start: nat, i: int)
    requires
        0 <= i < nodes.len(),
    ensures
        forest_rewritten(nodes, start).len() == nodes.len(),
        forest_rewritten(nodes, start)[i] == nodes[i].rewritten(
            start + forest_literals(nodes.take(i)).len(),
        ),
    decreases nodes.len(),
{
    lemma_forest_rewritten_len(nodes, start);
    lemma_forest_rewritten_len(nodes.drop_last(), start);
    if i == nodes.len() - 1 {
        assert(nodes.take(i) =~= nodes.drop_last());
    } else {
        lemma_forest_rewritten_index(nodes.drop_last(), start, i);
        assert(nodes.drop_last().take(i) =~= nodes.take(i));
    }
}

/// After the rewriting the literals of a tree are the placeholders from
/// `start` on, one for each literal that the tree had, in source order.
pub proof fn law_literals_become_placeholders(tree: NodeView, start: nat)
    ensures
        tree.rewritten(start).literals() == placeholder_run(start, tree.literals().len()),
    decreases tree,
{
    match tree {
        NodeView::Str(lit) => {
            assert(tree.rewritten(start).literals() =~= placeholder_run(start, 1));
        },
        NodeView::TemplateStatic(_) => {
            assert(tree.rewritten(start).literals() =~= placeholder_run(start, 0));
        },
        NodeView::Other { kind, children } => {
            law_forest_literals_become_placeholders(children, start);
        },
    }
}

/// After the rewriting the literals of a row of trees are the placeholders
/// from `start` on, one for each literal that the row had, in source order.
pub proof fn law_forest_literals_become_placeholders(nodes: Seq<NodeView>, start: nat)
    ensures
        forest_literals(forest_rewritten(nodes, start)) == placeholder_run(
            start,
            forest_literals(nodes).len(),
        ),
    decreases nodes,
{
    if nodes.len() == 0 {
        assert(forest_literals(forest_rewritten(nodes, start)) =~= placeholder_run(start, 0));
    } else {
        let before = nodes.drop_last();
        let passed = forest_literals(before).len();
        let row = forest_rewritten(nodes, start);
        law_forest_literals_become_placeholders(before, start);
        law_literals_become_placeholders(nodes.last(), start + passed);
        assert(row.drop_last() =~= forest_rewritten(before, start));
        assert(row.last() == nodes.last().rewritten(start + passed));
        assert(forest_literals(row) =~= placeholder_run(start, forest_literals(nodes).len()));
    }
}

/// A tree without a plain string literal comes out of the rewriting as it
/// went in, whatever static text it holds, and adds nothing to the record.
pub proof fn law_without_literals_unchanged(tree: NodeView, start: nat)
    requires
        tree.literals().len() == 0,
    ensures
        tree.rewritten(start) == tree,
        tree.originals() == Seq::<Seq<char>>::empty(),
    decreases tree,
{
    assert(tree.originals() =~= Seq::<Seq<char>>::empty());
    match tree {
        NodeView::Str(lit) => {},
        NodeView::TemplateStatic(_) => {},
        NodeView::Other { kind, children } => {
            law_forest_without_literals_unchanged(children, start);
        },
    }
}

/// A row of trees without a plain string literal comes out of the rewriting
/// as it went in.
pub proof fn law_forest_without_literals_unchanged(nodes: Seq<NodeView>, start: nat)
    requires
        forest_literals(nodes).len() == 0,
    ensures
        forest_rewritten(nodes, start) == nodes,
    decreases nodes,
{
    if nodes.len() == 0 {
        assert(forest_rewritten(nodes, start) =~= nodes);
    } else {
        let before = nodes.drop_last();
        law_forest_without_literals_unchanged(before, start);
        law_without_literals_unchanged(nodes.last(), start);
        assert(forest_rewritten(nodes, start) =~= nodes);
    }
}

/// A row of trees of which none holds a plain string literal holds none.
pub proof fn lemma_forest_without_literals(nodes: Seq<NodeView>)
    requires
        forall|i: int| 0 <= i < nodes.len() ==> (#[trigger] nodes[i]).literals().len() == 0,
    ensures
        forest_literals(nodes).len() == 0,
    decreases nodes.len(),
{
    if nodes.len() > 0 {
        let before = nodes.drop_last();
        assert forall|i: int| 0 <= i < before.len() implies (#[trigger] before[i]).literals().len()
            == 0 by {
            assert(before[i] == nodes[i]);
        }
        lemma_forest_without_literals(before);
        assert(nodes.last() == nodes[nodes.len() - 1]);
    }
}

/// Static text is no literal. A template string whose parts are static
/// texts and interpolations without a plain string literal gives no
/// placeholder and comes out of the rewriting as it went in, its static
/// texts with it.
pub proof fn law_template_statics_excluded(kind: Seq<char>, parts: Seq<NodeView>, start: nat)
    requires
        forall|i: int|
            0 <= i < parts.len() ==> (#[trigger] parts[i]) is TemplateStatic
                || parts[i].literals().len() == 0,
    ensures
        (NodeView::Other { kind, children: parts }).literals().len() == 0,
        (NodeView::Other { kind, children: parts }).rewritten(start) == (NodeView::Other {
            kind,
            children: parts,
        }),
{
    let template = NodeView::Other { kind, children: parts };
    assert forall|i: int| 0 <= i < parts.len() implies (#[trigger] parts[i]).literals().len()
        == 0 by {
        if parts[i] is TemplateStatic {
            assert(parts[i].literals() =~= Seq::<StrLitView>::empty());
        }
    }
    lemma_forest_without_literals(parts);
    law_without_literals_unchanged(template, start);
}

/// The rewriting touches nothing but what the plain string literals hold:
/// the shape of the tree, the kinds of its nodes and its static texts stay.
pub proof fn law_shape_kept(tree: NodeView, start: nat)
    ensures
        tree.rewritten(start).blanked() == tree.blanked(),
    decreases tree,
{
    match tree {
        NodeView::Str(lit) => {},
        NodeView::TemplateStatic(_) => {},
        NodeView::Other { kind, children } => {
            let row = forest_rewritten(children, start);
            lemma_forest_rewritten_len(children, start);
            assert forall|i: int| 0 <= i < children.len() implies (#[trigger] row[i]).blanked()
                == children[i].blanked() by {
                lemma_forest_rewritten_index(children, start, i);
                law_shape_kept(children[i], start + forest_literals(children.take(i)).len());
            }
            assert(tree.rewritten(start).blanked()->children =~= tree.blanked()->children);
        },
    }
}

/// A placeholder is put back from the record as the text recorded under its
/// index.
pub proof fn lemma_placeholder_restored(index: nat, record: Seq<Seq<char>>)
    requires
        index < record.len(),
    ensures
        StrLitView::placeholder(index).restored(record) == (StrLitView {
            value: Some(record[index as int]),
            raw: None,
        }),
{
    lemma_numeral_of(decimal(index), index);
}

/// Putting back, from a record that holds the texts of a tree from position
/// `start` on, what the rewriting from `start` replaced gives the tree with
/// its literals settled.
pub proof fn lemma_restored_after_rewritten(tree: NodeView, start: nat, record: Seq<Seq<char>>)
    requires
        start + tree.literals().len() <= record.len(),
        record.subrange(start as int, start + tree.literals().len() as int) == tree.originals(),
    ensures
        tree.rewritten(start).restored(record) == tree.settled(),
    decreases tree,
{
    match tree {
        NodeView::Str(lit) => {
            lemma_placeholder_restored(start, record);
            assert(record[start as int] == tree.originals()[0]);
        },
        NodeView::TemplateStatic(_) => {},
        NodeView::Other { kind, children } => {
            let row = forest_rewritten(children, start);
            lemma_forest_rewritten_len(children, start);
            assert forall|i: int| 0 <= i < children.len() implies (#[trigger] row[i]).restored(
                record,
            ) == children[i].settled() by {
                let passed = forest_literals(children.take(i)).len();
                lemma_forest_rewritten_index(children, start, i);
                lemma_forest_literals_split(children, i + 1);
                lemma_forest_literals_next(children, i);
                let own = children[i].literals().len();
                assert(record.subrange(start + passed as int, start + passed + own as int)
                    =~= children[i].originals()) by {
                    assert forall|j: int| 0 <= j < own implies record[start + passed + j]
                        == #[trigger] children[i].originals()[j] by {
                        assert(record[start + passed + j] == tree.originals()[passed + j]);
                    }
                }
                lemma_restored_after_rewritten(children[i], start + passed, record);
            }
            assert(tree.rewritten(start).restored(record)->children =~= tree.settled()->children);
        },
    }
}

/// Putting back into the rewritten tree, for every placeholder, the text
/// that the record holds for it gives the tree that was rewritten, but for
/// the spelling of its literals: each literal then holds the text that it
/// stood for.
pub proof fn law_round_trip(tree: NodeView)
    ensures
        tree.rewritten(0).restored(tree.originals()) == tree.settled(),
{
    let record = tree.originals();
    assert(record.subrange(0, record.len() as int) =~= record);
    lemma_restored_after_rewritten(tree, 0, record);
}

/// No two entries of a mapping have the same key.
pub proof fn law_mapping_keys_distinct(record: Seq<Seq<char>>, i: int, j: int)
    requires
        0 <= i < record.len(),
        0 <= j < record.len(),
        i != j,
    ensures
        mapping_entries(record)[i].0 != mapping_entries(record)[j].0,
{
    if decimal(i as nat) == decimal(j as nat) {
        lemma_decimal_injective(i as nat, j as nat);
    }
}

/// The keys of a mapping are numerals without leading zeros, and the entries
/// stand in the order of the numbers that their keys write: the key at
/// position `i` writes `i`.
pub proof fn law_mapping_keys_in_order(record: Seq<Seq<char>>, i: int)
    requires
        0 <= i < record.len(),
    ensures
        is_numeral(mapping_entries(record)[i].0),
        numeral_value(mapping_entries(record)[i].0) == i,
{
    lemma_numeral_of(decimal(i as nat), i as nat);
}

/// The keys of a mapping are the numerals of the positions of its record,
/// and no others.
pub proof fn law_mapping_keys(record: Seq<Seq<char>>, key: Seq<char>)
    ensures
        has_key(mapping_entries(record), key) <==> exists|i: nat|
            i < record.len() && key == #[trigger] decimal(i),
{
    let entries = mapping_entries(record);
    if has_key(entries, key) {
        let at = position_of(entries, key);
        assert(key == decimal(at as nat));
    }
    if exists|i: nat| i < record.len() && key == #[trigger] decimal(i) {
        let i = choose|i: nat| i < record.len() && key == #[trigger] decimal(i);
        assert(entries[i as int].0 == key);
    }
}

/// Under the numeral of a position the mapping holds the text at that
/// position of the record.
pub proof fn law_mapping_lookup(record: Seq<Seq<char>>, i: nat)
    requires
        i < record.len(),
    ensures
        lookup(mapping_entries(record), decimal(i)) == Some(record[i as int]),
{
    let entries = mapping_entries(record);
    let key = decimal(i);
    assert(entries[i as int].0 == key);
    assert(has_key(entries, key));
    let at = position_of(entries, key);
    if at != i {
        law_mapping_keys_distinct(record, at, i as int);
    }
}

/// Order preservation. The literals of a tree, taken in source order, come
/// out of the rewriting as the placeholders `0`, `1`, ... in that order, and
/// under the numeral of each index the mapping holds the text that the
/// literal with that index stood for.
pub proof fn law_order_preservation(tree: NodeView, i: nat)
    requires
        i < tree.literals().len(),
    ensures
        tree.rewritten(0).literals().len() == tree.literals().len(),
        tree.rewritten(0).literals()[i as int] == StrLitView::placeholder(i),
        lookup(mapping_entries(tree.originals()), decimal(i)) == Some(
            tree.literals()[i as int].text(),
        ),
{
    law_literals_become_placeholders(tree, 0);
    law_mapping_lookup(tree.originals(), i);
}

/// No two literals of a rewritten tree carry the same placeholder.
pub proof fn law_placeholders_distinct(tree: NodeView, start: nat, i: int, j: int)
    requires
        0 <= i < tree.literals().len(),
        0 <= j < tree.literals().len(),
        i != j,
    ensures
        tree.rewritten(start).literals()[i].value != tree.rewritten(start).literals()[j].value,
{
    law_literals_become_placeholders(tree, start);
    if decimal((start + i) as nat) == decimal((start + j) as nat) {
        lemma_decimal_injective((start + i) as nat, (start + j) as nat);
    }
}

/// Completeness. The mapping has one entry for each plain string literal of
/// the tree: as many entries as literals, and as keys the numerals of their
/// indices and nothing else.
pub proof fn law_completeness(tree: NodeView, key: Seq<char>)
    ensures
        mapping_entries(tree.originals()).len() == tree.literals().len(),
        has_key(mapping_entries(tree.originals()), key) <==> exists|i: nat|
            i < tree.literals().len() && key == #[trigger] decimal(i),
{
    law_mapping_keys(tree.originals(), key);
}

/// A tree without a plain string literal is left as it is, and its mapping
/// is empty.
pub proof fn law_empty_input(tree: NodeView)
    requires
        tree.literals().len() == 0,
    ensures
        tree.rewritten(0) == tree,
        mapping_entries(tree.originals()) == Seq::<(Seq<char>, Seq<char>)>::empty(),
{
    law_without_literals_unchanged(tree, 0);
    assert(mapping_entries(tree.originals()) =~= Seq::<(Seq<char>, Seq<char>)>::empty());
}

/// A plain string literal is replaced wherever it stands: as the last child
/// of a node of any kind it gets the index that follows those of the
/// literals before it, and its text goes to the end of the record.
pub proof fn law_literal_takes_next_index(
    kind: Seq<char>,
    before: Seq<NodeView>,
    lit: StrLitView,
    start: nat,
)
    ensures
        ({
            let node = NodeView::Other { kind, children: before.push(NodeView::Str(lit)) };
            &&& node.rewritten(start)->children.last() == NodeView::Str(
                StrLitView::placeholder(start + forest_literals(before).len()),
            )
            &&& node.originals() == literal_texts(forest_literals(before)).push(lit.text())
        }),
{
    let children = before.push(NodeView::Str(lit));
    let node = NodeView::Other { kind, children };
    assert(children.drop_last() =~= before);
    assert(children.last() == NodeView::Str(lit));
    assert(NodeView::Str(lit).literals() =~= seq![lit]);
    let next = start + forest_literals(before).len();
    assert(NodeView::Str(lit).rewritten(next) == NodeView::Str(StrLitView::placeholder(next)));
    assert(forest_rewritten(children, start).last() == NodeView::Str(lit).rewritten(next));
    assert(forest_literals(children) =~= forest_literals(before).push(lit));
    assert(node.originals() =~= literal_texts(forest_literals(before)).push(lit.text()));
}

/// A run that stops between two trees of a row leaves the trees that it has
/// walked as the whole run would leave them, and its record is the front part
/// of the whole run's record.
pub proof fn law_partial_run(nodes: Seq<NodeView>, start: nat, walked: int)
    requires
        0 <= walked <= nodes.len(),
    ensures
        forest_rewritten(nodes.take(walked), start) == forest_rewritten(nodes, start).take(walked),
        literal_texts(forest_literals(nodes.take(walked))) == literal_texts(
            forest_literals(nodes),
        ).take(forest_literals(nodes.take(walked)).len() as int),
{
    let part = forest_rewritten(nodes.take(walked), start);
    let whole = forest_rewritten(nodes, start);
    lemma_forest_rewritten_len(nodes.take(walked), start);
    lemma_forest_rewritten_len(nodes, start);
    assert forall|i: int| 0 <= i < walked implies part[i] == whole[i] by {
        lemma_forest_rewritten_index(nodes.take(walked), start, i);
        lemma_forest_rewritten_index(nodes, start, i);
        assert(nodes.take(walked).take(i) =~= nodes.take(i));
    }
    assert(part =~= whole.take(walked));
    lemma_forest_literals_split(nodes, walked);
    assert(literal_texts(forest_literals(nodes.take(walked))) =~= literal_texts(
        forest_literals(nodes),
    ).take(forest_literals(nodes.take(walked)).len() as int));
}

} // verus!
