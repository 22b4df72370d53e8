//! The catalog that readers see: empty until a cache file or a finished
//! synchronisation fills it, and only ever replaced as a whole.

use vstd::prelude::*;
use crate::cardinfo::CardInfo;
use crate::codec::{catalog_of, decode};
use crate::error::DecodeError;
use crate::model::{BanlistEntry, CardSet, Catalog, CatalogView, empty_catalog, views};

verus! {

/// The holder of the active catalog.
pub struct Cache {
    catalog: Catalog,
}

impl View for Cache {
    type V = CatalogView;

    closed spec fn view(&self) -> CatalogView {
        self.catalog@
    }
}

/// How loading the cache file at start went.
#[derive(Debug, Clone, Copy, PartialEq, Eq, Structural)]
pub enum LoadOutcome {
    /// The file held a catalog, which is now the active one.
    Loaded,
    /// There is no file: nothing was ever synchronised.
    Absent,
    /// The file is corrupt and was left aside.
    Corrupt(DecodeError),
}

/// What loading leaves in the cache, and how it went: a file that decodes
/// replaces the catalog; without a file, or with a corrupt one, the cache
/// stays as it was.
pub open spec fn load_result(before: CatalogView, file: Option<Seq<u8>>) -> (
    CatalogView,
    LoadOutcome,
) {
    match file {
        None => (before, LoadOutcome::Absent),
        Some(bytes) => match catalog_of(bytes) {
            Ok(c) => (c, LoadOutcome::Loaded),
            Err(e) => (before, LoadOutcome::Corrupt(e)),
        },
    }
}

impl Cache {
    /// A cache that holds the empty catalog.
    pub fn new() -> (out: Cache)
        ensures
            out@ == empty_catalog(),
    {
        Cache { catalog: Catalog::empty() }
    }

    /// Puts `catalog` in the place of the active one, all at once.
    pub fn replace(&mut self, catalog: Catalog)
        ensures
            final(self)@ == catalog@,
    {
        self.catalog = catalog;
    }

    /// The active catalog.
    pub fn snapshot(&self) -> (out: &Catalog)
        ensures
            out@ == self@,
    {
        &self.catalog
    }

    /// Fills the cache from the bytes of the cache file, where there is one.
    pub fn load_from_disk(&mut self, file: Option<&[u8]>) -> (out: LoadOutcome)
        ensures
            (final(self)@, out) == load_result(
                old(self)@,
                match file {
                    Some(bytes) => Some(bytes@),
                    None => None,
                },
            ),
    {
        match file {
            None => LoadOutcome::Absent,
            Some(bytes) => match decode(bytes) {
                Ok(catalog) => {
                    self.replace(catalog);
                    LoadOutcome::Loaded
                },
                Err(e) => LoadOutcome::Corrupt(e),
            },
        }
    }
}

/// Replaces the active catalog by the parts of a finished synchronisation.
pub fn update_cache(
    cache: &mut Cache,
    banlists: Vec<BanlistEntry>,
    cardinfo: CardInfo,
    cardsets: Vec<CardSet>,
)
    ensures
        final(cache)@ == (CatalogView {
            banlists: views(banlists@),
            cards: views(cardinfo.cards@),
            set_contents: views(cardinfo.set_contents@),
            card_sets: views(cardsets@),
        }),
{
    cache.replace(
        Catalog {
            banlists,
            cards: cardinfo.cards,
            set_contents: cardinfo.set_contents,
            card_sets: cardsets,
        },
    );
}

} // verus!
