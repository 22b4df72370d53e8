//! The cache format of a catalog: every record field by field, integers
//! big-endian at fixed width, each string and list behind its length.

use vstd::prelude::*;
use crate::error::DecodeError;
use crate::model::{
    BanlistEntry, BanlistEntryView, Card, CardSet, CardSetView, CardView, Catalog, CatalogView,
    SetContent, SetContentView, views,
};
use crate::wire::{Decoded, Wire, models, lemma_concat_assoc};

verus! {

/// The fields of a ruling in the order in which they are written.
pub type BanlistEntryWire = (String, Option<u32>);

/// The fields of a printing in the order in which they are written.
pub type SetContentWire = (u32, (Option<String>, Option<String>));

/// The fields of a set in the order in which they are written.
pub type CardSetWire = (
    Option<String>,
    (Option<String>, (Option<String>, (Option<i64>, Vec<u32>))),
);

/// Three optional strings in a row.
pub type CardTextWire = (Option<String>, (Option<String>, Option<String>));

/// Three optional integers in a row.
pub type CardStatsWire = (Option<i64>, (Option<i64>, Option<i64>));

/// The fields of a card in the order in which they are written.
pub type CardWire = (
    (u32, CardTextWire),
    (CardStatsWire, (CardTextWire, (Option<i64>, Option<i64>))),
);

/// The lists of a catalog in the order in which they are written.
pub type CatalogWire = (Vec<BanlistEntry>, (Vec<Card>, (Vec<SetContent>, Vec<CardSet>)));

impl Wire for BanlistEntry {
    type Model = BanlistEntryView;

    open spec fn model(&self) -> BanlistEntryView {
        self@
    }

    open spec fn fits(m: BanlistEntryView) -> bool {
        BanlistEntryWire::fits((m.card, m.tier))
    }

    open spec fn encoding(m: BanlistEntryView) -> Seq<u8> {
        BanlistEntryWire::encoding((m.card, m.tier))
    }

    open spec fn decoding(bytes: Seq<u8>) -> Decoded<BanlistEntryView> {
        match BanlistEntryWire::decoding(bytes) {
            Ok((t, rest)) => Ok((BanlistEntryView { card: t.0, tier: t.1 }, rest)),
            Err(e) => Err(e),
        }
    }

    proof fn lemma_roundtrip(m: BanlistEntryView, rest: Seq<u8>) {
        BanlistEntryWire::lemma_roundtrip((m.card, m.tier), rest);
    }

    proof fn lemma_truncated(m: BanlistEntryView, k: int) {
        BanlistEntryWire::lemma_truncated((m.card, m.tier), k);
    }

    fn put(&self, out: &mut Vec<u8>) {
        self.card.put(out);
        self.tier.put(out);
        assert(out@ =~= old(out)@ + Self::encoding(self@));
    }

    fn take(bytes: &[u8], pos: &mut usize) -> (out: Result<BanlistEntry, DecodeError>) {
        match BanlistEntryWire::take(bytes, pos) {
            Ok((card, tier)) => Ok(BanlistEntry { card, tier }),
            Err(e) => Err(e),
        }
    }
}

impl Wire for SetContent {
    type Model = SetContentView;

    open spec fn model(&self) -> SetContentView {
        self@
    }

    open spec fn fits(m: SetContentView) -> bool {
        SetContentWire::fits((m.card_id, (m.set_name, m.rarity)))
    }

    open spec fn encoding(m: SetContentView) -> Seq<u8> {
        SetContentWire::encoding((m.card_id, (m.set_name, m.rarity)))
    }

    open spec fn decoding(bytes: Seq<u8>) -> Decoded<SetContentView> {
        match SetContentWire::decoding(bytes) {
            Ok((t, rest)) => Ok(
                (SetContentView { card_id: t.0, set_name: t.1.0, rarity: t.1.1 }, rest),
            ),
            Err(e) => Err(e),
        }
    }

    proof fn lemma_roundtrip(m: SetContentView, rest: Seq<u8>) {
        SetContentWire::lemma_roundtrip((m.card_id, (m.set_name, m.rarity)), rest);
    }

    proof fn lemma_truncated(m: SetContentView, k: int) {
        SetContentWire::lemma_truncated((m.card_id, (m.set_name, m.rarity)), k);
    }

    fn put(&self, out: &mut Vec<u8>) {
        self.card_id.put(out);
        self.set_name.put(out);
        self.rarity.put(out);
        assert(out@ =~= old(out)@ + Self::encoding(self@));
    }

    fn take(bytes: &[u8], pos: &mut usize) -> (out: Result<SetContent, DecodeError>) {
        match SetContentWire::take(bytes, pos) {
            Ok((card_id, (set_name, rarity))) => Ok(SetContent { card_id, set_name, rarity }),
            Err(e) => Err(e),
        }
    }
}

impl Wire for CardSet {
    type Model = CardSetView;

    open spec fn model(&self) -> CardSetView {
        self@
    }

    open spec fn fits(m: CardSetView) -> bool {
        CardSetWire::fits((m.name, (m.date, (m.code, (m.card_count, m.card_ids)))))
    }

    open spec fn encoding(m: CardSetView) -> Seq<u8> {
        CardSetWire::encoding((m.name, (m.date, (m.code, (m.card_count, m.card_ids)))))
    }

    open spec fn decoding(bytes: Seq<u8>) -> Decoded<CardSetView> {
        match CardSetWire::decoding(bytes) {
            Ok((t, rest)) => Ok(
                (
                    CardSetView {
                        name: t.0,
                        date: t.1.0,
                        code: t.1.1.0,
                        card_count: t.1.1.1.0,
                        card_ids: t.1.1.1.1,
                    },
                    rest,
                ),
            ),
            Err(e) => Err(e),
        }
    }

    proof fn lemma_roundtrip(m: CardSetView, rest: Seq<u8>) {
        CardSetWire::lemma_roundtrip(
            (m.name, (m.date, (m.code, (m.card_count, m.card_ids)))),
            rest,
        );
    }

    proof fn lemma_truncated(m: CardSetView, k: int) {
        CardSetWire::lemma_truncated((m.name, (m.date, (m.code, (m.card_count, m.card_ids)))), k);
    }

    fn put(&self, out: &mut Vec<u8>) {
        self.name.put(out);
        self.date.put(out);
        self.code.put(out);
        self.card_count.put(out);
        self.card_ids.put(out);
        proof {
            assert(models(self.card_ids@) =~= self.card_ids@);
            assert(out@ =~= old(out)@ + Self::encoding(self@));
        }
    }

    fn take(bytes: &[u8], pos: &mut usize) -> (out: Result<CardSet, DecodeError>) {
        match CardSetWire::take(bytes, pos) {
            Ok((name, (date, (code, (card_count, card_ids))))) => {
                assert(models(card_ids@) =~= card_ids@);
                Ok(CardSet { name, date, code, card_count, card_ids })
            },
            Err(e) => Err(e),
        }
    }
}

/// The fields of a card in the order in which they are written.
pub open spec fn card_fields(m: CardView) -> <CardWire as Wire>::Model {
    (
        (m.id, (m.name, (m.card_type, m.description))),
        (
            (m.atk, (m.def, m.level)),
            ((m.race, (m.attribute, m.archetype)), (m.pend_scale, m.link_rating)),
        ),
    )
}

/// The card with the given fields.
pub open spec fn card_with(t: <CardWire as Wire>::Model) -> CardView {
    CardView {
        id: t.0.0,
        name: t.0.1.0,
        card_type: t.0.1.1.0,
        description: t.0.1.1.1,
        atk: t.1.0.0,
        def: t.1.0.1.0,
        level: t.1.0.1.1,
        race: t.1.1.0.0,
        attribute: t.1.1.0.1.0,
        archetype: t.1.1.0.1.1,
        pend_scale: t.1.1.1.0,
        link_rating: t.1.1.1.1,
    }
}

fn put_texts(a: &Option<String>, b: &Option<String>, c: &Option<String>, out: &mut Vec<u8>)
    ensures
        CardTextWire::fits((a.model(), (b.model(), c.model()))),
        final(out)@ == old(out)@ + CardTextWire::encoding((a.model(), (b.model(), c.model()))),
{
    a.put(out);
    b.put(out);
    c.put(out);
    assert(out@ =~= old(out)@ + CardTextWire::encoding((a.model(), (b.model(), c.model()))));
}

fn put_stats_pair(a: &Option<i64>, b: &Option<i64>, out: &mut Vec<u8>)
    ensures
        final(out)@ == old(out)@ + <(Option<i64>, Option<i64>) as Wire>::encoding(
            (a.model(), b.model()),
        ),
{
    a.put(out);
    b.put(out);
    assert(out@ =~= old(out)@ + <(Option<i64>, Option<i64>) as Wire>::encoding(
        (a.model(), b.model()),
    ));
}

fn put_stats(a: &Option<i64>, b: &Option<i64>, c: &Option<i64>, out: &mut Vec<u8>)
    ensures
        final(out)@ == old(out)@ + CardStatsWire::encoding((a.model(), (b.model(), c.model()))),
{
    a.put(out);
    put_stats_pair(b, c, out);
    assert(out@ =~= old(out)@ + CardStatsWire::encoding((a.model(), (b.model(), c.model()))));
}

impl Wire for Card {
    type Model = CardView;

    open spec fn model(&self) -> CardView {
        self@
    }

    open spec fn fits(m: CardView) -> bool {
        CardWire::fits(card_fields(m))
    }

    open spec fn encoding(m: CardView) -> Seq<u8> {
        CardWire::encoding(card_fields(m))
    }

    open spec fn decoding(bytes: Seq<u8>) -> Decoded<CardView> {
        match CardWire::decoding(bytes) {
            Ok((t, rest)) => Ok((card_with(t), rest)),
            Err(e) => Err(e),
        }
    }

    proof fn lemma_roundtrip(m: CardView, rest: Seq<u8>) {
        CardWire::lemma_roundtrip(card_fields(m), rest);
    }

    proof fn lemma_truncated(m: CardView, k: int) {
        CardWire::lemma_truncated(card_fields(m), k);
    }

    fn put(&self, out: &mut Vec<u8>) {
        let ghost fields = card_fields(self@);
        let ghost id = u32::encoding(fields.0.0);
        let ghost texts = CardTextWire::encoding(fields.0.1);
        let ghost stats = CardStatsWire::encoding(fields.1.0);
        let ghost kinds = CardTextWire::encoding(fields.1.1.0);
        let ghost extra = <(Option<i64>, Option<i64>) as Wire>::encoding(fields.1.1.1);
        self.id.put(out);
        put_texts(&self.name, &self.card_type, &self.description, out);
        put_stats(&self.atk, &self.def, &self.level, out);
        put_texts(&self.race, &self.attribute, &self.archetype, out);
        put_stats_pair(&self.pend_scale, &self.link_rating, out);
        proof {
            let start = old(out)@;
            assert(out@ == ((((start + id) + texts) + stats) + kinds) + extra);
            lemma_concat_assoc(start, id, texts);
            lemma_concat_assoc(start + (id + texts), stats, kinds);
            lemma_concat_assoc(start + (id + texts), stats + kinds, extra);
            lemma_concat_assoc(stats, kinds, extra);
            lemma_concat_assoc(start, id + texts, stats + (kinds + extra));
            assert(Self::encoding(self@) == (id + texts) + (stats + (kinds + extra)));
        }
    }

    fn take(bytes: &[u8], pos: &mut usize) -> (out: Result<Card, DecodeError>) {
        match CardWire::take(bytes, pos) {
            Ok(
                (
                    (id, (name, (card_type, description))),
                    ((atk, (def, level)), ((race, (attribute, archetype)), (pend_scale, link_rating))),
                ),
            ) => Ok(
                Card {
                    id,
                    name,
                    card_type,
                    description,
                    atk,
                    def,
                    level,
                    race,
                    attribute,
                    archetype,
                    pend_scale,
                    link_rating,
                },
            ),
            Err(e) => Err(e),
        }
    }
}

/// The lists of a catalog in the order in which they are written.
pub open spec fn catalog_fields(c: CatalogView) -> <CatalogWire as Wire>::Model {
    (c.banlists, (c.cards, (c.set_contents, c.card_sets)))
}

/// Whether every length in the catalog can be written in 64 bits.
pub open spec fn catalog_fits(c: CatalogView) -> bool {
    CatalogWire::fits(catalog_fields(c))
}

/// The bytes of a catalog.
pub open spec fn catalog_bytes(c: CatalogView) -> Seq<u8> {
    CatalogWire::encoding(catalog_fields(c))
}

/// The catalog that bytes hold: the four lists, and nothing after them.
pub open spec fn catalog_of(bytes: Seq<u8>) -> Result<CatalogView, DecodeError> {
    match CatalogWire::decoding(bytes) {
        Ok((t, rest)) => if rest.len() == 0 {
            Ok(
                CatalogView {
                    banlists: t.0,
                    cards: t.1.0,
                    set_contents: t.1.1.0,
                    card_sets: t.1.1.1,
                },
            )
        } else {
            Err(DecodeError::Trailing)
        },
        Err(e) => Err(e),
    }
}

/// Decoding the bytes of a catalog gives the catalog back: every record and
/// every field, empty lists and absent fields included.
pub proof fn lemma_decode_encode(c: CatalogView)
    requires
        catalog_fits(c),
    ensures
        catalog_of(catalog_bytes(c)) == Ok::<CatalogView, DecodeError>(c),
{
    CatalogWire::lemma_roundtrip(catalog_fields(c), Seq::empty());
    assert(catalog_bytes(c) + Seq::<u8>::empty() =~= catalog_bytes(c));
}

/// A cache file that was cut short is refused: no proper front of the bytes
/// of a catalog decodes, each is refused as truncated.
pub proof fn lemma_truncated_is_refused(c: CatalogView, k: int)
    requires
        catalog_fits(c),
        0 <= k < catalog_bytes(c).len(),
    ensures
        catalog_of(catalog_bytes(c).take(k)) == Err::<CatalogView, DecodeError>(
            DecodeError::Truncated,
        ),
{
    CatalogWire::lemma_truncated(catalog_fields(c), k);
}

/// The records of a list stand for their views.
pub proof fn lemma_models_are_views<T: Wire + View<V = <T as Wire>::Model>>(items: Seq<T>)
    requires
        forall|i: int| 0 <= i < items.len() ==> (#[trigger] items[i]).model() == items[i]@,
    ensures
        models(items) == views(items),
{
    assert(models(items) =~= views(items));
}

/// The lists of a catalog stand for the lists of its view.
pub proof fn lemma_catalog_model(catalog: Catalog)
    ensures
        models(catalog.banlists@) == catalog@.banlists,
        models(catalog.cards@) == catalog@.cards,
        models(catalog.set_contents@) == catalog@.set_contents,
        models(catalog.card_sets@) == catalog@.card_sets,
{
    lemma_models_are_views(catalog.banlists@);
    lemma_models_are_views(catalog.cards@);
    lemma_models_are_views(catalog.set_contents@);
    lemma_models_are_views(catalog.card_sets@);
}

/// The bytes of a catalog. The same catalog always gives the same bytes.
pub fn encode(catalog: &Catalog) -> (out: Vec<u8>)
    ensures
        out@ == catalog_bytes(catalog@),
        catalog_fits(catalog@),
{
    let mut out: Vec<u8> = Vec::new();
    let ghost m = catalog_fields(catalog@);
    let ghost ea = <Vec<BanlistEntry> as Wire>::encoding(m.0);
    let ghost eb = <Vec<Card> as Wire>::encoding(m.1.0);
    let ghost ec = <Vec<SetContent> as Wire>::encoding(m.1.1.0);
    let ghost ed = <Vec<CardSet> as Wire>::encoding(m.1.1.1);
    proof {
        lemma_catalog_model(*catalog);
    }
    catalog.banlists.put(&mut out);
    catalog.cards.put(&mut out);
    catalog.set_contents.put(&mut out);
    catalog.card_sets.put(&mut out);
    proof {
        let start = Seq::<u8>::empty();
        assert(out@ == (((start + ea) + eb) + ec) + ed);
        assert(start + ea == ea) by {
            assert(start + ea =~= ea);
        }
        lemma_concat_assoc(ea, eb, ec);
        lemma_concat_assoc(ea, eb + ec, ed);
        lemma_concat_assoc(eb, ec, ed);
        assert(catalog_bytes(catalog@) == ea + (eb + (ec + ed)));
    }
    out
}

/// The catalog that a cache file holds. Bytes that end early, hold a
/// malformed field or go on after the catalog are refused as a whole.
pub fn decode(bytes: &[u8]) -> (out: Result<Catalog, DecodeError>)
    ensures
        match catalog_of(bytes@) {
            Ok(c) => out is Ok && out->Ok_0@ == c,
            Err(e) => out is Err && out->Err_0 == e,
        },
{
    let mut pos: usize = 0;
    proof {
        assert(bytes@.skip(0) == bytes@) by {
            assert(bytes@.skip(0) =~= bytes@);
        }
    }
    match CatalogWire::take(bytes, &mut pos) {
        Ok((banlists, (cards, (set_contents, card_sets)))) => {
            if pos < bytes.len() {
                Err(DecodeError::Trailing)
            } else {
                let catalog = Catalog { banlists, cards, set_contents, card_sets };
                proof {
                    lemma_catalog_model(catalog);
                }
                Ok(catalog)
            }
        },
        Err(e) => Err(e),
    }
}

} // verus!
