//! The catalog's records and their mathematical views.

use vstd::prelude::*;

verus! {

/// The characters of an optional string.
pub open spec fn opt_text(s: Option<String>) -> Option<Seq<char>> {
    match s {
        Some(t) => Some(t@),
        None => None,
    }
}

/// One card. Everything but the identifier may be absent.
#[derive(Debug, Clone, PartialEq, Eq)]
pub struct Card {
    pub id: u32,
    pub name: Option<String>,
    pub card_type: Option<String>,
    pub description: Option<String>,
    pub atk: Option<i64>,
    pub def: Option<i64>,
    pub level: Option<i64>,
    pub race: Option<String>,
    pub attribute: Option<String>,
    pub archetype: Option<String>,
    pub pend_scale: Option<i64>,
    pub link_rating: Option<i64>,
}

/// What a [`Card`] stands for.
pub ghost struct CardView {
    pub id: u32,
    pub name: Option<Seq<char>>,
    pub card_type: Option<Seq<char>>,
    pub description: Option<Seq<char>>,
    pub atk: Option<i64>,
    pub def: Option<i64>,
    pub level: Option<i64>,
    pub race: Option<Seq<char>>,
    pub attribute: Option<Seq<char>>,
    pub archetype: Option<Seq<char>>,
    pub pend_scale: Option<i64>,
    pub link_rating: Option<i64>,
}

impl View for Card {
    type V = CardView;

    open spec fn view(&self) -> CardView {
        CardView {
            id: self.id,
            name: opt_text(self.name),
            card_type: opt_text(self.card_type),
            description: opt_text(self.description),
            atk: self.atk,
            def: self.def,
            level: self.level,
            race: opt_text(self.race),
            attribute: opt_text(self.attribute),
            archetype: opt_text(self.archetype),
            pend_scale: self.pend_scale,
            link_rating: self.link_rating,
        }
    }
}

/// One printing of a card in a set.
#[derive(Debug, Clone, PartialEq, Eq)]
pub struct SetContent {
    pub card_id: u32,
    pub set_name: Option<String>,
    pub rarity: Option<String>,
}

/// What a [`SetContent`] stands for.
pub ghost struct SetContentView {
    pub card_id: u32,
    pub set_name: Option<Seq<char>>,
    pub rarity: Option<Seq<char>>,
}

impl View for SetContent {
    type V = SetContentView;

    open spec fn view(&self) -> SetContentView {
        SetContentView {
            card_id: self.card_id,
            set_name: opt_text(self.set_name),
            rarity: opt_text(self.rarity),
        }
    }
}

/// One card set, with the identifiers of the cards known to be printed in it.
#[derive(Debug, Clone, PartialEq, Eq)]
pub struct CardSet {
    pub name: Option<String>,
    pub date: Option<String>,
    pub code: Option<String>,
    pub card_count: Option<i64>,
    pub card_ids: Vec<u32>,
}

/// What a [`CardSet`] stands for.
pub ghost struct CardSetView {
    pub name: Option<Seq<char>>,
    pub date: Option<Seq<char>>,
    pub code: Option<Seq<char>>,
    pub card_count: Option<i64>,
    pub card_ids: Seq<u32>,
}

impl View for CardSet {
    type V = CardSetView;

    open spec fn view(&self) -> CardSetView {
        CardSetView {
            name: opt_text(self.name),
            date: opt_text(self.date),
            code: opt_text(self.code),
            card_count: self.card_count,
            card_ids: self.card_ids@,
        }
    }
}

/// One ruling of a ban list: a card and, where the line states one, the tier
/// it is restricted to.
#[derive(Debug, Clone, PartialEq, Eq)]
pub struct BanlistEntry {
    pub card: String,
    pub tier: Option<u32>,
}

/// What a [`BanlistEntry`] stands for.
pub ghost struct BanlistEntryView {
    pub card: Seq<char>,
    pub tier: Option<u32>,
}

impl View for BanlistEntry {
    type V = BanlistEntryView;

    open spec fn view(&self) -> BanlistEntryView {
        BanlistEntryView { card: self.card@, tier: self.tier }
    }
}

/// The views of a sequence of records, one by one.
pub open spec fn views<T: View>(items: Seq<T>) -> Seq<T::V> {
    Seq::new(items.len(), |i: int| items[i]@)
}

/// The views of a sequence with one more record are the views of the
/// sequence with one more view.
pub proof fn lemma_views_push<T: View>(items: Seq<T>, last: T)
    ensures
        views(items.push(last)) == views(items).push(last@),
{
    assert(views(items.push(last)) =~= views(items).push(last@));
}

/// Everything one synchronisation produces.
#[derive(Debug, Clone, PartialEq, Eq)]
pub struct Catalog {
    pub banlists: Vec<BanlistEntry>,
    pub cards: Vec<Card>,
    pub set_contents: Vec<SetContent>,
    pub card_sets: Vec<CardSet>,
}

/// What a [`Catalog`] stands for.
pub ghost struct CatalogView {
    pub banlists: Seq<BanlistEntryView>,
    pub cards: Seq<CardView>,
    pub set_contents: Seq<SetContentView>,
    pub card_sets: Seq<CardSetView>,
}

impl View for Catalog {
    type V = CatalogView;

    open spec fn view(&self) -> CatalogView {
        CatalogView {
            banlists: views(self.banlists@),
            cards: views(self.cards@),
            set_contents: views(self.set_contents@),
            card_sets: views(self.card_sets@),
        }
    }
}

/// The catalog without records.
pub open spec fn empty_catalog() -> CatalogView {
    CatalogView {
        banlists: Seq::empty(),
        cards: Seq::empty(),
        set_contents: Seq::empty(),
        card_sets: Seq::empty(),
    }
}

impl Catalog {
    /// A catalog with no records: what a reader sees before the first
    /// synchronisation.
    pub fn empty() -> (out: Catalog)
        ensures
            out@ == empty_catalog(),
    {
        let out = Catalog {
            banlists: Vec::new(),
            cards: Vec::new(),
            set_contents: Vec::new(),
            card_sets: Vec::new(),
        };
        assert(out@.banlists =~= Seq::empty());
        assert(out@.cards =~= Seq::empty());
        assert(out@.set_contents =~= Seq::empty());
        assert(out@.card_sets =~= Seq::empty());
        out
    }
}

} // verus!
