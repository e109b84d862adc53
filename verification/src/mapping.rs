//! The mapping builder: from the record of replaced texts to the table that
//! leads from each placeholder back to its text.

use crate::decimal::{decimal, lemma_decimal_injective, placeholder};
use crate::replacer::texts;
use crate::table::{
    has_key, holds_only_texts, insert_text, pretty_json, table_entries, to_pretty,
};
use vstd::prelude::*;

verus! {

/// The entries of the mapping for a record: entry `i` leads from the decimal
/// numeral of `i` to the text at position `i` of the record.
pub open spec fn mapping_entries(record: Seq<Seq<char>>) -> Seq<(Seq<char>, Seq<char>)> {
    Seq::new(record.len(), |i: int| (decimal(i as nat), record[i]))
}

/// A position at which the entries hold `key`, where they hold it.
pub open spec fn position_of(entries: Seq<(Seq<char>, Seq<char>)>, key: Seq<char>) -> int {
    choose|i: int| 0 <= i < entries.len() && (#[trigger] entries[i]).0 == key
}

/// The text that the entries hold for `key`, if they hold one.
pub open spec fn lookup(entries: Seq<(Seq<char>, Seq<char>)>, key: Seq<char>) -> Option<
    Seq<char>,
> {
    if has_key(entries, key) {
        Some(entries[position_of(entries, key)].1)
    } else {
        None
    }
}

/// The table from placeholder to replaced text, as a JSON object. Every
/// value in it is a string.
pub struct PlaceholderMapping {
    table: serde_json::Map<String, serde_json::Value>,
}

impl View for PlaceholderMapping {
    type V = Seq<(Seq<char>, Seq<char>)>;

    /// The entries in the order in which the table is written out.
    closed spec fn view(&self) -> Seq<(Seq<char>, Seq<char>)> {
        table_entries(self.table)
    }
}

/// The mapping could not be written as JSON text.
#[derive(Debug)]
pub enum MappingError {
    /// The serializer failed; it says why.
    Serialize(serde_json::Error),
}

/// What becomes of the serializer's outcome: its text, or its failure as an
/// error of this library.
pub fn rendered(outcome: Result<String, serde_json::Error>) -> (result: Result<
    String,
    MappingError,
>)
    ensures
        result == match outcome {
            Ok(text) => Ok::<String, MappingError>(text),
            Err(cause) => Err(MappingError::Serialize(cause)),
        },
{
    match outcome {
        Ok(text) => Ok(text),
        Err(cause) => Err(MappingError::Serialize(cause)),
    }
}

impl PlaceholderMapping {
    #[verifier::type_invariant]
    spec fn values_are_texts(self) -> bool {
        holds_only_texts(self.table)
    }

    /// Builds the mapping for a record of replaced texts.
    pub fn build(record: &Vec<String>) -> (mapping: PlaceholderMapping)
        ensures
            mapping@ == mapping_entries(texts(record@)),
    {
        let mut table = serde_json::Map::new();
        let mut i: usize = 0;
        while i < record.len()
            invariant
                i <= record@.len(),
                holds_only_texts(table),
                table_entries(table) == mapping_entries(texts(record@).take(i as int)),
            decreases record@.len() - i,
        {
            let key = placeholder(i);
            proof {
                let entries = table_entries(table);
                assert forall|j: int| 0 <= j < entries.len() implies (#[trigger] entries[j]).0
                    != key@ by {
                    if entries[j].0 == key@ {
                        lemma_decimal_injective(j as nat, i as nat);
                    }
                }
                assert(!has_key(entries, key@));
            }
            insert_text(&mut table, key, record[i].clone());
            assert(table_entries(table) =~= mapping_entries(texts(record@).take(i as int + 1)));
            i += 1;
        }
        assert(texts(record@).take(i as int) =~= texts(record@));
        PlaceholderMapping { table }
    }

    /// The JSON object that holds the entries.
    pub fn table(&self) -> (table: &serde_json::Map<String, serde_json::Value>)
        ensures
            holds_only_texts(*table),
            table_entries(*table) == self@,
    {
        proof {
            use_type_invariant(self);
        }
        &self.table
    }

    /// The mapping as pretty-printed JSON text: one flat object, its entries
    /// in order. A mapping can always be written.
    pub fn to_json(&self) -> (result: Result<String, MappingError>)
        ensures
            result is Ok,
            result matches Ok(text) ==> text@ == pretty_json(self@),
    {
        proof {
            use_type_invariant(self);
        }
        rendered(to_pretty(&self.table))
    }
}

} // verus!
