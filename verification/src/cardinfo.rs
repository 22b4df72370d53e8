//! Reading the card payload: cards, and the sets each card is printed in.

use vstd::prelude::*;
use crate::json::{Json, json_of, read_json};
use crate::error::ParseError;
use crate::model::{Card, CardView, SetContent, SetContentView, views, lemma_views_push};
use crate::set_index::{SetIndex, index_extend};

verus! {

/// An integer as a record holds it.
pub open spec fn opt_i64(v: Option<int>) -> Option<i64> {
    match v {
        Some(n) => Some(n as i64),
        None => None,
    }
}

/// The identifier of a card record: its integer member `id`, where that fits
/// an unsigned 32-bit number.
pub open spec fn card_id_of(record: Json) -> Option<u32> {
    match record.integer_member("id"@) {
        Some(n) => if 0 <= n <= u32::MAX {
            Some(n as u32)
        } else {
            None
        },
        None => None,
    }
}

/// The card that a record describes, given its identifier. A member that is
/// missing or of the wrong kind leaves its field empty.
pub open spec fn card_of(record: Json, id: u32) -> CardView {
    CardView {
        id,
        name: record.text_member("name"@),
        card_type: record.text_member("type"@),
        description: record.text_member("desc"@),
        atk: opt_i64(record.integer_member("atk"@)),
        def: opt_i64(record.integer_member("def"@)),
        level: opt_i64(record.integer_member("level"@)),
        race: record.text_member("race"@),
        attribute: record.text_member("attribute"@),
        archetype: record.text_member("archetype"@),
        pend_scale: opt_i64(record.integer_member("scale"@)),
        link_rating: opt_i64(record.integer_member("linkval"@)),
    }
}

/// The elements of a record's member `card_sets`; none where the member is
/// missing or no array.
pub open spec fn printing_records(record: Json) -> Seq<Json> {
    match record.member("card_sets"@) {
        Some(v) => match v.elements() {
            Some(items) => items,
            None => Seq::empty(),
        },
        None => Seq::empty(),
    }
}

/// One printing of the card `id`.
pub open spec fn printing_of(entry: Json, id: u32) -> SetContentView {
    SetContentView {
        card_id: id,
        set_name: entry.text_member("set_name"@),
        rarity: entry.text_member("set_rarity"@),
    }
}

/// The printings that a card record lists, in order.
pub open spec fn printings_of(record: Json, id: u32) -> Seq<SetContentView> {
    Seq::new(
        printing_records(record).len(),
        |k: int| printing_of(printing_records(record)[k], id),
    )
}

/// The card records of a document: the elements of its member `data`.
pub open spec fn card_records(doc: Json) -> Option<Seq<Json>> {
    match doc.member("data"@) {
        Some(d) => d.elements(),
        None => None,
    }
}

/// The position of the first record from `from` on that has no identifier.
pub open spec fn first_without_id(records: Seq<Json>, from: int) -> Option<int>
    decreases records.len() - from,
{
    if from < 0 || from >= records.len() {
        None
    } else if card_id_of(records[from]) is None {
        Some(from)
    } else {
        first_without_id(records, from + 1)
    }
}

/// The cards of the records, one per record.
pub open spec fn cards_of(records: Seq<Json>) -> Seq<CardView> {
    Seq::new(records.len(), |i: int| card_of(records[i], card_id_of(records[i])->0))
}

/// The printings of the records: those of the first card, then those of the
/// second, and so on.
pub open spec fn contents_of(records: Seq<Json>) -> Seq<SetContentView>
    decreases records.len(),
{
    if records.len() == 0 {
        Seq::empty()
    } else {
        contents_of(records.drop_last()) + printings_of(
            records.last(),
            card_id_of(records.last())->0,
        )
    }
}

/// Whether one of the cards has the identifier `id`.
pub open spec fn has_card(cards: Seq<CardView>, id: u32) -> bool {
    exists|i: int| 0 <= i < cards.len() && (#[trigger] cards[i]).id == id
}

/// Whether every printing names a card that is among `cards`.
pub open spec fn printings_covered(cards: Seq<CardView>, contents: Seq<SetContentView>) -> bool {
    forall|k: int| 0 <= k < contents.len() ==> has_card(cards, (#[trigger] contents[k]).card_id)
}

/// Every printing read from a payload belongs to a card read from the same
/// payload.
pub proof fn lemma_printings_name_their_card(records: Seq<Json>)
    ensures
        printings_covered(cards_of(records), contents_of(records)),
    decreases records.len(),
{
    if records.len() > 0 {
        let front = records.drop_last();
        let last = records.len() - 1;
        lemma_printings_name_their_card(front);
        let cards = cards_of(records);
        let contents = contents_of(records);
        let own = printings_of(records.last(), card_id_of(records.last())->0);
        assert(contents == contents_of(front) + own);
        assert forall|k: int| 0 <= k < contents.len() implies has_card(
            cards,
            (#[trigger] contents[k]).card_id,
        ) by {
            if k < contents_of(front).len() {
                assert(contents[k] == contents_of(front)[k]);
                assert(has_card(cards_of(front), contents_of(front)[k].card_id));
                let i = choose|i: int|
                    0 <= i < cards_of(front).len() && (#[trigger] cards_of(front)[i]).id
                        == contents_of(front)[k].card_id;
                assert(front[i] == records[i]);
                assert(cards[i].id == contents[k].card_id);
            } else {
                assert(contents[k] == own[k - contents_of(front).len()]);
                assert(cards[last].id == contents[k].card_id);
            }
        }
    }
}

/// What reading a card payload gives: the cards and their printings, or the
/// reason for refusing the payload as a whole.
pub open spec fn card_info_of(doc: Option<Json>) -> Result<
    (Seq<CardView>, Seq<SetContentView>),
    ParseError,
> {
    match doc {
        None => Err(ParseError::Document),
        Some(d) => match card_records(d) {
            None => Err(ParseError::Document),
            Some(records) => match first_without_id(records, 0) {
                Some(i) => Err(ParseError::CardId(i as usize)),
                None => Ok((cards_of(records), contents_of(records))),
            },
        },
    }
}

/// The cards of one payload and the printings they list.
#[derive(Debug, Clone, PartialEq, Eq)]
pub struct CardInfo {
    pub cards: Vec<Card>,
    pub set_contents: Vec<SetContent>,
}

impl CardInfo {
    /// Whether this is the outcome `expected`, taken by view.
    pub open spec fn matches_outcome(
        out: Result<CardInfo, ParseError>,
        expected: Result<(Seq<CardView>, Seq<SetContentView>), ParseError>,
    ) -> bool {
        match expected {
            Ok((cards, contents)) => out is Ok && views(out->Ok_0.cards@) == cards && views(
                out->Ok_0.set_contents@,
            ) == contents,
            Err(e) => out == Err::<CardInfo, ParseError>(e),
        }
    }
}

fn read_card_id(record: &Json) -> (out: Option<u32>)
    ensures
        out == card_id_of(*record),
{
    match record.integer_field("id") {
        Some(n) => if 0 <= n && n <= 0xffff_ffff {
            Some(n as u32)
        } else {
            None
        },
        None => None,
    }
}

fn read_card(record: &Json, id: u32) -> (out: Card)
    ensures
        out@ == card_of(*record, id),
{
    Card {
        id,
        name: record.text_field("name"),
        card_type: record.text_field("type"),
        description: record.text_field("desc"),
        atk: record.integer_field("atk"),
        def: record.integer_field("def"),
        level: record.integer_field("level"),
        race: record.text_field("race"),
        attribute: record.text_field("attribute"),
        archetype: record.text_field("archetype"),
        pend_scale: record.integer_field("scale"),
        link_rating: record.integer_field("linkval"),
    }
}

fn read_printings(record: &Json, id: u32, contents: &mut Vec<SetContent>)
    ensures
        views(final(contents)@) == views(old(contents)@) + printings_of(*record, id),
{
    let entries = match record.get("card_sets") {
        Some(v) => v.as_elements(),
        None => None,
    };
    match entries {
        Some(items) => {
            assert(items@ == printing_records(*record));
            let mut k: usize = 0;
            while k < items.len()
                invariant
                    0 <= k <= items.len(),
                    items@ == printing_records(*record),
                    views(contents@) == views(old(contents)@) + printings_of(*record, id).take(
                        k as int,
                    ),
                decreases items.len() - k,
            {
                let entry = SetContent {
                    card_id: id,
                    set_name: items[k].text_field("set_name"),
                    rarity: items[k].text_field("set_rarity"),
                };
                assert(entry@ == printing_of(items@[k as int], id));
                let ghost before = contents@;
                contents.push(entry);
                proof {
                    lemma_views_push(before, entry);
                    let all = printings_of(*record, id);
                    assert(all.take(k + 1) =~= all.take(k as int).push(all[k as int]));
                    assert(views(contents@) =~= views(old(contents)@) + all.take(k + 1));
                }
                k += 1;
            }
            assert(printings_of(*record, id).take(k as int) =~= printings_of(*record, id));
        },
        None => {
            assert(printings_of(*record, id) =~= Seq::empty());
            assert(views(contents@) =~= views(old(contents)@) + printings_of(*record, id));
        },
    }
}

/// Reads the cards and their printings from a document. The document must
/// be an object whose member `data` is an array, and every element must have
/// an identifier; otherwise nothing is returned but the reason.
pub fn card_info_from_json(doc: &Json) -> (out: Result<CardInfo, ParseError>)
    ensures
        CardInfo::matches_outcome(out, card_info_of(Some(*doc))),
{
    let records = match doc.get("data") {
        Some(d) => d.as_elements(),
        None => None,
    };
    match records {
        None => Err(ParseError::Document),
        Some(items) => {
            let mut cards: Vec<Card> = Vec::new();
            let mut contents: Vec<SetContent> = Vec::new();
            let mut i: usize = 0;
            while i < items.len()
                invariant
                    0 <= i <= items.len(),
                    card_records(*doc) == Some(items@),
                    first_without_id(items@, 0) == first_without_id(items@, i as int),
                    views(cards@) == cards_of(items@.take(i as int)),
                    views(contents@) == contents_of(items@.take(i as int)),
                decreases items.len() - i,
            {
                match read_card_id(&items[i]) {
                    None => {
                        return Err(ParseError::CardId(i));
                    },
                    Some(id) => {
                        let card = read_card(&items[i], id);
                        let ghost before = cards@;
                        cards.push(card);
                        read_printings(&items[i], id, &mut contents);
                        proof {
                            lemma_views_push(before, card);
                            assert(items@.take(i + 1).drop_last() =~= items@.take(i as int));
                            assert(items@.take(i + 1).last() == items@[i as int]);
                            assert(views(cards@) =~= cards_of(items@.take(i + 1)));
                        }
                    },
                }
                i += 1;
            }
            proof {
                assert(items@.take(i as int) =~= items@);
            }
            Ok(CardInfo { cards, set_contents: contents })
        },
    }
}

/// Reads a card payload, and on success enters its printings into `index`.
/// A payload that is refused leaves the index as it was.
pub fn parse_card_info(text: &str, index: &mut SetIndex) -> (out: Result<CardInfo, ParseError>)
    ensures
        CardInfo::matches_outcome(out, card_info_of(json_of(text@))),
        match card_info_of(json_of(text@)) {
            Ok((cards, contents)) => final(index)@ == index_extend(old(index)@, contents),
            Err(e) => final(index)@ == old(index)@,
        },
{
    match read_json(text) {
        None => Err(ParseError::Document),
        Some(doc) => {
            let out = card_info_from_json(&doc);
            match &out {
                Ok(info) => {
                    index.extend(&info.set_contents);
                },
                Err(_) => {},
            }
            out
        },
    }
}

} // verus!
