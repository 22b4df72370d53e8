//! Reading the set payload, and joining each set with the cards printed in it.

use vstd::prelude::*;
use crate::cardinfo::opt_i64;
use crate::json::{Json, json_of, read_json};
use crate::error::ParseError;
use crate::model::{CardSet, CardSetView, views, lemma_views_push};
use crate::set_index::{SetIndex, listed};

verus! {

/// The cards that the index lists for a set of this name; none for a set
/// without a name.
pub open spec fn cards_listed(index: Map<Seq<char>, Seq<u32>>, name: Option<Seq<char>>) -> Seq<
    u32,
> {
    match name {
        Some(n) => listed(index, n),
        None => Seq::empty(),
    }
}

/// The set that a record describes. A member that is missing or of the wrong
/// kind leaves its field empty.
pub open spec fn card_set_of(record: Json, index: Map<Seq<char>, Seq<u32>>) -> CardSetView {
    CardSetView {
        name: record.text_member("set_name"@),
        date: record.text_member("tcg_date"@),
        code: record.text_member("set_code"@),
        card_count: opt_i64(record.integer_member("num_of_cards"@)),
        card_ids: cards_listed(index, record.text_member("set_name"@)),
    }
}

/// What reading a set payload gives: one set per element of the outer array,
/// or the refusal of a payload that is no array.
pub open spec fn card_sets_of(doc: Option<Json>, index: Map<Seq<char>, Seq<u32>>) -> Result<
    Seq<CardSetView>,
    ParseError,
> {
    match doc {
        None => Err(ParseError::Document),
        Some(d) => match d.elements() {
            None => Err(ParseError::Document),
            Some(records) => Ok(
                Seq::new(records.len(), |i: int| card_set_of(records[i], index)),
            ),
        },
    }
}

/// Whether this is the outcome `expected`, taken by view.
pub open spec fn matches_sets(
    out: Result<Vec<CardSet>, ParseError>,
    expected: Result<Seq<CardSetView>, ParseError>,
) -> bool {
    match expected {
        Ok(sets) => out is Ok && views(out->Ok_0@) == sets,
        Err(e) => out == Err::<Vec<CardSet>, ParseError>(e),
    }
}

fn read_card_set(record: &Json, index: &SetIndex) -> (out: CardSet)
    ensures
        out@ == card_set_of(*record, index@),
{
    let name = record.text_field("set_name");
    let card_ids = match &name {
        Some(n) => index.get(n),
        None => Vec::new(),
    };
    CardSet {
        name,
        date: record.text_field("tcg_date"),
        code: record.text_field("set_code"),
        card_count: record.integer_field("num_of_cards"),
        card_ids,
    }
}

/// Reads the sets from a document, which must be an array. Each element
/// gives one set, whatever it holds.
pub fn card_sets_from_json(doc: &Json, index: &SetIndex) -> (out: Result<Vec<CardSet>, ParseError>)
    ensures
        matches_sets(out, card_sets_of(Some(*doc), index@)),
{
    match doc.as_elements() {
        None => Err(ParseError::Document),
        Some(items) => {
            let mut sets: Vec<CardSet> = Vec::new();
            let mut i: usize = 0;
            while i < items.len()
                invariant
                    0 <= i <= items.len(),
                    views(sets@) == Seq::new(
                        i as nat,
                        |k: int| card_set_of(items@[k], index@),
                    ),
                decreases items.len() - i,
            {
                let set = read_card_set(&items[i], index);
                let ghost before = sets@;
                sets.push(set);
                proof {
                    lemma_views_push(before, set);
                    assert(views(sets@) =~= Seq::new(
                        (i + 1) as nat,
                        |k: int| card_set_of(items@[k], index@),
                    ));
                }
                i += 1;
            }
            Ok(sets)
        },
    }
}

/// Reads a set payload against the index built from the card payload.
pub fn parse_card_sets(text: &str, index: &SetIndex) -> (out: Result<Vec<CardSet>, ParseError>)
    ensures
        matches_sets(out, card_sets_of(json_of(text@), index@)),
{
    match read_json(text) {
        None => Err(ParseError::Document),
        Some(doc) => card_sets_from_json(&doc, index),
    }
}

} // verus!
