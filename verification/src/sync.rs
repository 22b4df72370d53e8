//! One update attempt, step by step. The caller does the outside work (the
//! copy of the store, the requests, the writes) and reports how each piece
//! went; what to do next is decided here.

use vstd::prelude::*;
use crate::banlist::{banlist_of, parse_banlist};
use crate::cache::Cache;
use crate::cardinfo::{
    card_info_of, card_records, lemma_printings_name_their_card, parse_card_info, printings_covered,
};
use crate::cardsets::{card_sets_of, parse_card_sets};
use crate::codec::{catalog_bytes, encode};
use crate::error::Error;
use crate::json::json_of;
use crate::model::{Catalog, CatalogView, SetContentView, views};
use crate::set_index::{SetIndex, index_extend, lemma_index_extend_members, members};
use crate::store::{Statement, StatementView, plan_store, store_plan};

verus! {

/// How an update attempt ended.
#[derive(Debug, Clone, Copy, PartialEq, Eq, Structural)]
pub enum UpdateStatus {
    /// The new catalog is stored, the version is written, the cache shows it.
    Complete,
    /// Nothing was there to store: the backup could not be made, or a
    /// request failed.
    Failed,
    /// All three payloads arrived, but the catalog was not stored: a payload
    /// was refused or a write failed. The previous state was put back.
    Incomplete,
}

/// What the three requests gave.
#[derive(Debug, PartialEq, Eq)]
pub struct Responses {
    pub banlists: Result<String, Error>,
    pub cardinfo: Result<String, Error>,
    pub cardsets: Result<String, Error>,
}

/// What [`Responses`] stand for.
pub ghost struct ResponsesView {
    pub banlists: Result<Seq<char>, Error>,
    pub cardinfo: Result<Seq<char>, Error>,
    pub cardsets: Result<Seq<char>, Error>,
}

/// The characters of a response, or its failure.
pub open spec fn response_view(r: Result<String, Error>) -> Result<Seq<char>, Error> {
    match r {
        Ok(s) => Ok(s@),
        Err(e) => Err(e),
    }
}

impl View for Responses {
    type V = ResponsesView;

    open spec fn view(&self) -> ResponsesView {
        ResponsesView {
            banlists: response_view(self.banlists),
            cardinfo: response_view(self.cardinfo),
            cardsets: response_view(self.cardsets),
        }
    }
}

/// The catalog that three payloads hold. The ban list gives one ruling for
/// each line that is neither a comment nor blank; the cards are read next,
/// then the sets against the index of the cards' printings. A card or set
/// payload that is refused refuses all three, the cards' before the sets'.
pub open spec fn catalog_of_payloads(
    banlists: Seq<char>,
    cardinfo: Seq<char>,
    cardsets: Seq<char>,
) -> Result<CatalogView, Error> {
    match card_info_of(json_of(cardinfo)) {
        Err(e) => Err(Error::Parse(e)),
        Ok((cards, contents)) => match card_sets_of(
            json_of(cardsets),
            index_extend(Map::empty(), contents),
        ) {
            Err(e) => Err(Error::Parse(e)),
            Ok(sets) => Ok(
                CatalogView {
                    banlists: banlist_of(banlists),
                    cards: cards,
                    set_contents: contents,
                    card_sets: sets,
                },
            ),
        },
    }
}

/// The catalog that three responses hold. A request that failed fails the
/// whole, the ban list's before the cards' before the sets'; no payload is
/// read unless all three arrived.
pub open spec fn catalog_of_responses(r: ResponsesView) -> Result<CatalogView, Error> {
    match r.banlists {
        Err(e) => Err(e),
        Ok(banlists) => match r.cardinfo {
            Err(e) => Err(e),
            Ok(cardinfo) => match r.cardsets {
                Err(e) => Err(e),
                Ok(cardsets) => catalog_of_payloads(banlists, cardinfo, cardsets),
            },
        },
    }
}

/// The cards that a set of this name is given: those that `contents` print
/// in it; none for a set without a name.
pub open spec fn cards_printed_in(contents: Seq<SetContentView>, name: Option<Seq<char>>) -> Seq<
    u32,
> {
    match name {
        Some(n) => members(contents, n),
        None => Seq::empty(),
    }
}

/// A catalog read from payloads is of one piece: every printing belongs to
/// one of its cards, and every set lists exactly the cards that the printings
/// put in a set of its name, in the order of the printings.
pub proof fn lemma_catalog_is_of_one_piece(
    banlists: Seq<char>,
    cardinfo: Seq<char>,
    cardsets: Seq<char>,
)
    requires
        catalog_of_payloads(banlists, cardinfo, cardsets) is Ok,
    ensures
        ({
            let c = catalog_of_payloads(banlists, cardinfo, cardsets)->Ok_0;
            &&& printings_covered(c.cards, c.set_contents)
            &&& forall|i: int|
                0 <= i < c.card_sets.len() ==> (#[trigger] c.card_sets[i]).card_ids
                    == cards_printed_in(c.set_contents, c.card_sets[i].name)
        }),
{
    let c = catalog_of_payloads(banlists, cardinfo, cardsets)->Ok_0;
    let records = card_records(json_of(cardinfo)->0)->0;
    lemma_printings_name_their_card(records);
    let index = index_extend(Map::empty(), c.set_contents);
    assert forall|i: int| 0 <= i < c.card_sets.len() implies (#[trigger] c.card_sets[i]).card_ids
        == cards_printed_in(c.set_contents, c.card_sets[i].name) by {
        match c.card_sets[i].name {
            Some(n) => {
                lemma_index_extend_members(Map::empty(), c.set_contents, n);
                assert(Seq::<u32>::empty() + members(c.set_contents, n) =~= members(
                    c.set_contents,
                    n,
                ));
            },
            None => {},
        }
    }
}

/// Whether all three requests were answered.
pub open spec fn all_arrived(r: ResponsesView) -> bool {
    r.banlists is Ok && r.cardinfo is Ok && r.cardsets is Ok
}

/// How an attempt ends whose responses give no catalog: `Failed` exactly
/// when a request failed, `Incomplete` when all three payloads arrived and
/// one of them was refused.
pub open spec fn failure_status(r: ResponsesView) -> UpdateStatus {
    if all_arrived(r) {
        UpdateStatus::Incomplete
    } else {
        UpdateStatus::Failed
    }
}

/// Whether this is the outcome `expected`, taken by view.
pub open spec fn matches_catalog(
    out: Result<Catalog, Error>,
    expected: Result<CatalogView, Error>,
) -> bool {
    match expected {
        Ok(c) => out is Ok && out->Ok_0@ == c,
        Err(e) => out is Err && out->Err_0 == e,
    }
}

/// Reads the three payloads into one catalog.
pub fn parse_payloads(banlists: &str, cardinfo: &str, cardsets: &str) -> (out: Result<
    Catalog,
    Error,
>)
    ensures
        matches_catalog(out, catalog_of_payloads(banlists@, cardinfo@, cardsets@)),
{
    let rulings = parse_banlist(banlists);
    let mut index = SetIndex::new();
    let info = match parse_card_info(cardinfo, &mut index) {
        Ok(i) => i,
        Err(e) => {
            return Err(Error::Parse(e));
        },
    };
    let sets = match parse_card_sets(cardsets, &index) {
        Ok(s) => s,
        Err(e) => {
            return Err(Error::Parse(e));
        },
    };
    Ok(
        Catalog {
            banlists: rulings,
            cards: info.cards,
            set_contents: info.set_contents,
            card_sets: sets,
        },
    )
}

/// Reads what the three requests gave into one catalog.
pub fn catalog_from_responses(responses: &Responses) -> (out: Result<Catalog, Error>)
    ensures
        matches_catalog(out, catalog_of_responses(responses@)),
{
    match &responses.banlists {
        Err(e) => Err(*e),
        Ok(banlists) => match &responses.cardinfo {
            Err(e) => Err(*e),
            Ok(cardinfo) => match &responses.cardsets {
                Err(e) => Err(*e),
                Ok(cardsets) => parse_payloads(
                    banlists.as_str(),
                    cardinfo.as_str(),
                    cardsets.as_str(),
                ),
            },
        },
    }
}

/// How an attempt ends whose responses give no catalog.
pub fn status_of_failure(responses: &Responses) -> (out: UpdateStatus)
    ensures
        out == failure_status(responses@),
{
    if responses.banlists.is_ok() && responses.cardinfo.is_ok() && responses.cardsets.is_ok() {
        UpdateStatus::Incomplete
    } else {
        UpdateStatus::Failed
    }
}

/// Where an update attempt stands: which report it is waiting for.
#[derive(Debug, Clone, Copy, PartialEq, Eq, Structural)]
pub enum Step {
    /// No attempt is under way.
    Idle,
    /// The store is being copied to the backup.
    BackingUp,
    /// The three payloads are being fetched.
    Fetching,
    /// The new catalog is being written to the store.
    Persisting,
    /// The version file is being written.
    WritingVersion,
    /// The backup is being moved back over the store.
    RollingBack,
    /// The backup is being discarded.
    Committing,
}

/// The two states that a caller can tell apart.
#[derive(Debug, Clone, Copy, PartialEq, Eq, Structural)]
pub enum Phase {
    /// The store matches the version file; an attempt may begin.
    Stable,
    /// An attempt is under way; no other may begin.
    Updating,
}

/// The caller's report on the work it was asked to do.
#[derive(Debug, PartialEq, Eq)]
pub enum Event {
    /// The copy of the store to the backup ended, well or not.
    BackupCreated(bool),
    /// The three requests ended.
    Fetched(Responses),
    /// The writes to the store ended, well or not.
    Persisted(bool),
    /// The write of the version file ended, well or not.
    VersionWritten(bool),
    /// The move of the backup over the store ended, well or not.
    BackupRestored(bool),
    /// The removal of the backup ended, well or not.
    BackupDiscarded(bool),
}

/// What an [`Event`] stands for.
pub ghost enum EventView {
    BackupCreated(bool),
    Fetched(ResponsesView),
    Persisted(bool),
    VersionWritten(bool),
    BackupRestored(bool),
    BackupDiscarded(bool),
}

impl View for Event {
    type V = EventView;

    open spec fn view(&self) -> EventView {
        match self {
            Event::BackupCreated(ok) => EventView::BackupCreated(*ok),
            Event::Fetched(r) => EventView::Fetched(r@),
            Event::Persisted(ok) => EventView::Persisted(*ok),
            Event::VersionWritten(ok) => EventView::VersionWritten(*ok),
            Event::BackupRestored(ok) => EventView::BackupRestored(*ok),
            Event::BackupDiscarded(ok) => EventView::BackupDiscarded(*ok),
        }
    }
}

/// What the caller is to do next.
#[derive(Debug, Clone, PartialEq, Eq)]
pub enum Action {
    /// Nothing: no attempt is under way.
    Idle,
    /// Copy the store to the backup.
    CreateBackup,
    /// Request the three payloads.
    Fetch,
    /// Run the statements against the store and write the cache file.
    Persist { statements: Vec<Statement>, cache: Vec<u8> },
    /// Write the version file.
    WriteVersion(String),
    /// Move the backup over the store.
    RestoreBackup,
    /// Remove the backup.
    DiscardBackup,
    /// The attempt is over.
    Finish(UpdateStatus, Option<Error>),
}

/// What an [`Action`] stands for.
pub ghost enum ActionView {
    Idle,
    CreateBackup,
    Fetch,
    Persist { statements: Seq<StatementView>, cache: Seq<u8> },
    WriteVersion(Seq<char>),
    RestoreBackup,
    DiscardBackup,
    Finish(UpdateStatus, Option<Error>),
}

impl View for Action {
    type V = ActionView;

    open spec fn view(&self) -> ActionView {
        match self {
            Action::Idle => ActionView::Idle,
            Action::CreateBackup => ActionView::CreateBackup,
            Action::Fetch => ActionView::Fetch,
            Action::Persist { statements, cache } => ActionView::Persist {
                statements: views(statements@),
                cache: cache@,
            },
            Action::WriteVersion(token) => ActionView::WriteVersion(token@),
            Action::RestoreBackup => ActionView::RestoreBackup,
            Action::DiscardBackup => ActionView::DiscardBackup,
            Action::Finish(status, error) => ActionView::Finish(*status, *error),
        }
    }
}

/// The state of the coordinator, as contracts see it.
pub ghost struct UpdaterView {
    pub step: Step,
    /// The version that the attempt will write.
    pub token: Seq<char>,
    /// The catalog that was read and is not yet committed.
    pub pending: Option<CatalogView>,
    /// How the last attempt ended, or is about to end.
    pub status: UpdateStatus,
    pub error: Option<Error>,
}

/// The state before any attempt.
pub open spec fn initial_state() -> UpdaterView {
    UpdaterView {
        step: Step::Idle,
        token: Seq::empty(),
        pending: None,
        status: UpdateStatus::Failed,
        error: None,
    }
}

/// The phase that a step belongs to.
pub open spec fn phase_of(step: Step) -> Phase {
    if step == Step::Idle {
        Phase::Stable
    } else {
        Phase::Updating
    }
}

/// Beginning an attempt. Only a stable coordinator begins one: it asks for
/// the backup first. While an attempt is under way nothing changes and
/// nothing is asked.
pub open spec fn begin(s: UpdaterView, token: Seq<char>) -> (UpdaterView, Option<ActionView>) {
    if s.step == Step::Idle {
        (
            UpdaterView {
                step: Step::BackingUp,
                token: token,
                pending: None,
                status: UpdateStatus::Failed,
                error: None,
            },
            Some(ActionView::CreateBackup),
        )
    } else {
        (s, None)
    }
}

/// Giving the attempt up: the backup is to be moved back, and the attempt
/// will end with `status`.
pub open spec fn rollback(s: UpdaterView, status: UpdateStatus, error: Error) -> (
    UpdaterView,
    ActionView,
) {
    (
        UpdaterView {
            step: Step::RollingBack,
            token: s.token,
            pending: None,
            status: status,
            error: Some(error),
        },
        ActionView::RestoreBackup,
    )
}

/// Closing the attempt with success: the backup is to be discarded.
pub open spec fn commit(s: UpdaterView) -> (UpdaterView, ActionView) {
    (
        UpdaterView {
            step: Step::Committing,
            token: s.token,
            pending: None,
            status: UpdateStatus::Complete,
            error: None,
        },
        ActionView::DiscardBackup,
    )
}

/// The attempt is over: the coordinator is stable again.
pub open spec fn finish(s: UpdaterView, status: UpdateStatus, error: Option<Error>) -> (
    UpdaterView,
    ActionView,
) {
    (
        UpdaterView { step: Step::Idle, token: s.token, pending: None, status: status, error: error },
        ActionView::Finish(status, error),
    )
}

/// The next state and the next thing to do, given the report `e`. A report
/// other than the good end of the awaited work counts as that work's failure.
///
/// - A backup that could not be made ends the attempt at once as `Failed`:
///   nothing was written yet, so nothing is put back.
/// - A request that failed gives the attempt up as `Failed`.
/// - A payload that was refused though all three arrived, and a write to the
///   store or to the version file that failed, give it up as `Incomplete`.
/// - The version is written only after the store, and the attempt is
///   committed only after the version.
pub open spec fn next(s: UpdaterView, e: EventView) -> (UpdaterView, ActionView) {
    match s.step {
        Step::Idle => (s, ActionView::Idle),
        Step::BackingUp => if e == EventView::BackupCreated(true) {
            (
                UpdaterView {
                    step: Step::Fetching,
                    token: s.token,
                    pending: None,
                    status: s.status,
                    error: s.error,
                },
                ActionView::Fetch,
            )
        } else {
            finish(s, UpdateStatus::Failed, Some(Error::Io))
        },
        Step::Fetching => match e {
            EventView::Fetched(r) => match catalog_of_responses(r) {
                Ok(c) => (
                    UpdaterView {
                        step: Step::Persisting,
                        token: s.token,
                        pending: Some(c),
                        status: s.status,
                        error: s.error,
                    },
                    ActionView::Persist { statements: store_plan(c), cache: catalog_bytes(c) },
                ),
                Err(err) => rollback(s, failure_status(r), err),
            },
            _ => rollback(s, UpdateStatus::Failed, Error::Network),
        },
        Step::Persisting => if e == EventView::Persisted(true) && s.pending is Some {
            (
                UpdaterView {
                    step: Step::WritingVersion,
                    token: s.token,
                    pending: s.pending,
                    status: s.status,
                    error: s.error,
                },
                ActionView::WriteVersion(s.token),
            )
        } else {
            rollback(s, UpdateStatus::Incomplete, Error::Io)
        },
        Step::WritingVersion => if e == EventView::VersionWritten(true) && s.pending is Some {
            commit(s)
        } else {
            rollback(s, UpdateStatus::Incomplete, Error::Io)
        },
        Step::RollingBack => finish(s, s.status, s.error),
        Step::Committing => finish(s, UpdateStatus::Complete, None),
    }
}

/// What readers see after the report `e`: the catalog that was read, from
/// the moment the attempt is committed; until then, and on every other path,
/// what they saw before.
pub open spec fn cache_after(s: UpdaterView, e: EventView, cache: CatalogView) -> CatalogView {
    if s.step == Step::WritingVersion && e == EventView::VersionWritten(true) && s.pending is Some {
        s.pending->0
    } else {
        cache
    }
}

/// The coordinator of update attempts. At most one attempt is under way.
pub struct Updater {
    step: Step,
    token: String,
    pending: Option<Catalog>,
    status: UpdateStatus,
    error: Option<Error>,
}

impl View for Updater {
    type V = UpdaterView;

    closed spec fn view(&self) -> UpdaterView {
        UpdaterView {
            step: self.step,
            token: self.token@,
            pending: match self.pending {
                Some(c) => Some(c@),
                None => None,
            },
            status: self.status,
            error: self.error,
        }
    }
}

impl Updater {
    /// A coordinator with no attempt under way.
    pub fn new() -> (out: Updater)
        ensures
            out@ == initial_state(),
    {
        Updater {
            step: Step::Idle,
            token: String::new(),
            pending: None,
            status: UpdateStatus::Failed,
            error: None,
        }
    }

    /// Whether an attempt is under way.
    pub fn phase(&self) -> (out: Phase)
        ensures
            out == phase_of(self@.step),
    {
        match self.step {
            Step::Idle => Phase::Stable,
            _ => Phase::Updating,
        }
    }

    /// How the last attempt ended.
    pub fn status(&self) -> (out: UpdateStatus)
        ensures
            out == self@.status,
    {
        self.status
    }

    /// Begins an attempt that will write the version `token`, and asks for
    /// the backup. While an attempt is under way this does nothing and
    /// returns `None`.
    pub fn begin_update(&mut self, token: String) -> (out: Option<Action>)
        ensures
            final(self)@ == begin(old(self)@, token@).0,
            match begin(old(self)@, token@).1 {
                Some(a) => out is Some && out->0@ == a,
                None => out is None,
            },
    {
        match self.step {
            Step::Idle => {
                self.step = Step::BackingUp;
                self.token = token;
                self.pending = None;
                self.status = UpdateStatus::Failed;
                self.error = None;
                Some(Action::CreateBackup)
            },
            _ => None,
        }
    }

    fn do_rollback(&mut self, status: UpdateStatus, error: Error) -> (out: Action)
        ensures
            (final(self)@, out@) == rollback(old(self)@, status, error),
    {
        self.step = Step::RollingBack;
        self.pending = None;
        self.status = status;
        self.error = Some(error);
        Action::RestoreBackup
    }

    fn do_finish(&mut self, status: UpdateStatus, error: Option<Error>) -> (out: Action)
        ensures
            (final(self)@, out@) == finish(old(self)@, status, error),
    {
        self.step = Step::Idle;
        self.pending = None;
        self.status = status;
        self.error = error;
        Action::Finish(status, error)
    }

    /// Takes the report on the work that was asked for and says what to do
    /// next. The cache is replaced when, and only when, the attempt is
    /// committed.
    pub fn step(&mut self, event: Event, cache: &mut Cache) -> (out: Action)
        ensures
            (final(self)@, out@) == next(old(self)@, event@),
            final(cache)@ == cache_after(old(self)@, event@, old(cache)@),
    {
        match self.step {
            Step::Idle => Action::Idle,
            Step::BackingUp => match event {
                Event::BackupCreated(true) => {
                    self.step = Step::Fetching;
                    self.pending = None;
                    Action::Fetch
                },
                _ => self.do_finish(UpdateStatus::Failed, Some(Error::Io)),
            },
            Step::Fetching => match event {
                Event::Fetched(responses) => match catalog_from_responses(&responses) {
                    Ok(catalog) => {
                        let statements = plan_store(&catalog);
                        let bytes = encode(&catalog);
                        self.step = Step::Persisting;
                        self.pending = Some(catalog);
                        Action::Persist { statements, cache: bytes }
                    },
                    Err(e) => {
                        let status = status_of_failure(&responses);
                        self.do_rollback(status, e)
                    },
                },
                _ => self.do_rollback(UpdateStatus::Failed, Error::Network),
            },
            Step::Persisting => match event {
                Event::Persisted(true) => {
                    if self.pending.is_some() {
                        self.step = Step::WritingVersion;
                        Action::WriteVersion(self.token.clone())
                    } else {
                        self.do_rollback(UpdateStatus::Incomplete, Error::Io)
                    }
                },
                _ => self.do_rollback(UpdateStatus::Incomplete, Error::Io),
            },
            Step::WritingVersion => match event {
                Event::VersionWritten(true) => {
                    match self.pending.take() {
                        Some(catalog) => {
                            cache.replace(catalog);
                            self.step = Step::Committing;
                            self.status = UpdateStatus::Complete;
                            self.error = None;
                            Action::DiscardBackup
                        },
                        None => self.do_rollback(UpdateStatus::Incomplete, Error::Io),
                    }
                },
                _ => self.do_rollback(UpdateStatus::Incomplete, Error::Io),
            },
            Step::RollingBack => {
                let status = self.status;
                let error = self.error;
                self.do_finish(status, error)
            },
            Step::Committing => self.do_finish(UpdateStatus::Complete, None),
        }
    }
}

/// The files that an attempt touches, as far as the protocol cares.
pub ghost struct Disk {
    /// The bytes of the store.
    pub store: Seq<u8>,
    /// The bytes of the backup, where there is one.
    pub backup: Option<Seq<u8>>,
    /// The version file, where there is one.
    pub version: Option<Seq<char>>,
}

/// What the awaited work leaves on disk once it is reported as `e`.
/// `written` stands for whatever a write to the store left there, finished
/// or not. A copy that succeeds makes the backup equal to the store; a move
/// of the backup that succeeds makes the store equal to the backup; the
/// version file changes only by a write that succeeds; requests touch
/// nothing.
pub open spec fn disk_after(s: UpdaterView, e: EventView, d: Disk, written: Seq<u8>) -> Disk {
    match s.step {
        Step::Idle => d,
        Step::BackingUp => if e == EventView::BackupCreated(true) {
            Disk { store: d.store, backup: Some(d.store), version: d.version }
        } else {
            Disk { store: d.store, backup: None, version: d.version }
        },
        Step::Fetching => d,
        Step::Persisting => Disk { store: written, backup: d.backup, version: d.version },
        Step::WritingVersion => if e == EventView::VersionWritten(true) {
            Disk { store: d.store, backup: d.backup, version: Some(s.token) }
        } else {
            d
        },
        Step::RollingBack => if e == EventView::BackupRestored(true) && d.backup is Some {
            Disk { store: d.backup->0, backup: None, version: d.version }
        } else {
            d
        },
        Step::Committing => if e == EventView::BackupDiscarded(true) {
            Disk { store: d.store, backup: None, version: d.version }
        } else {
            d
        },
    }
}

/// The state and the disk after a run of reports, each with what its write
/// left in the store.
pub open spec fn run(s: UpdaterView, d: Disk, reports: Seq<(EventView, Seq<u8>)>) -> (
    UpdaterView,
    Disk,
)
    decreases reports.len(),
{
    if reports.len() == 0 {
        (s, d)
    } else {
        run(
            next(s, reports[0].0).0,
            disk_after(s, reports[0].0, d, reports[0].1),
            reports.drop_first(),
        )
    }
}

/// Whether every move of the backup that the run asked for succeeded.
pub open spec fn restores_succeeded(s: UpdaterView, reports: Seq<(EventView, Seq<u8>)>) -> bool
    decreases reports.len(),
{
    if reports.len() == 0 {
        true
    } else {
        (s.step == Step::RollingBack ==> reports[0].0 == EventView::BackupRestored(true))
            && restores_succeeded(next(s, reports[0].0).0, reports.drop_first())
    }
}

/// What holds of the disk at every step of an attempt that began on the
/// disk `d0`.
pub open spec fn attempt_holds(s: UpdaterView, d: Disk, d0: Disk) -> bool {
    match s.step {
        Step::Idle => if s.status == UpdateStatus::Complete {
            d.version == Some(s.token)
        } else {
            d.store == d0.store && d.version == d0.version
        },
        Step::BackingUp => d.store == d0.store && d.version == d0.version,
        Step::Fetching => d.store == d0.store && d.version == d0.version && d.backup == Some(
            d0.store,
        ),
        Step::Persisting => d.version == d0.version && d.backup == Some(d0.store) && s.pending
            is Some,
        Step::WritingVersion => d.version == d0.version && d.backup == Some(d0.store) && s.pending
            is Some,
        Step::RollingBack => d.version == d0.version && d.backup == Some(d0.store) && s.status
            != UpdateStatus::Complete,
        Step::Committing => d.version == Some(s.token) && s.status == UpdateStatus::Complete,
    }
}

/// What holds of the disk at one step of an attempt holds after any run of
/// reports in which every move of the backup that was asked for succeeded.
pub proof fn lemma_attempt_holds(
    s: UpdaterView,
    d: Disk,
    d0: Disk,
    reports: Seq<(EventView, Seq<u8>)>,
)
    requires
        attempt_holds(s, d, d0),
        restores_succeeded(s, reports),
    ensures
        attempt_holds(run(s, d, reports).0, run(s, d, reports).1, d0),
    decreases reports.len(),
{
    if reports.len() > 0 {
        let e = reports[0].0;
        let s1 = next(s, e).0;
        let d1 = disk_after(s, e, d, reports[0].1);
        assert(attempt_holds(s1, d1, d0));
        lemma_attempt_holds(s1, d1, d0, reports.drop_first());
    }
}

/// An attempt that is given up leaves no trace: whatever was reported after
/// the attempt began, and whatever the writes left in the store, once the
/// attempt has ended other than `Complete` and the backup was moved back
/// where that was asked, the store holds, byte for byte, what it held before
/// the attempt, and the version file is what it was.
pub proof fn lemma_rollback_restores(
    s0: UpdaterView,
    token: Seq<char>,
    d0: Disk,
    reports: Seq<(EventView, Seq<u8>)>,
)
    requires
        s0.step == Step::Idle,
        run(begin(s0, token).0, d0, reports).0.step == Step::Idle,
        run(begin(s0, token).0, d0, reports).0.status != UpdateStatus::Complete,
        restores_succeeded(begin(s0, token).0, reports),
    ensures
        run(begin(s0, token).0, d0, reports).1.store == d0.store,
        run(begin(s0, token).0, d0, reports).1.version == d0.version,
{
    lemma_attempt_holds(begin(s0, token).0, d0, d0, reports);
}

/// The version file and the catalog change together or not at all: an
/// attempt that has ended either is `Complete` and wrote its version, or
/// left the version file as it was.
pub proof fn lemma_version_follows_commit(
    s0: UpdaterView,
    token: Seq<char>,
    d0: Disk,
    reports: Seq<(EventView, Seq<u8>)>,
)
    requires
        s0.step == Step::Idle,
        run(begin(s0, token).0, d0, reports).0.step == Step::Idle,
        restores_succeeded(begin(s0, token).0, reports),
    ensures
        run(begin(s0, token).0, d0, reports).1.version == if run(
            begin(s0, token).0,
            d0,
            reports,
        ).0.status == UpdateStatus::Complete {
            Some(token)
        } else {
            d0.version
        },
{
    let s1 = begin(s0, token).0;
    lemma_attempt_holds(s1, d0, d0, reports);
    lemma_token_kept(s1, d0, reports);
}

/// An attempt keeps the version that it began with.
pub proof fn lemma_token_kept(s: UpdaterView, d: Disk, reports: Seq<(EventView, Seq<u8>)>)
    ensures
        run(s, d, reports).0.token == s.token,
    decreases reports.len(),
{
    if reports.len() > 0 {
        lemma_token_kept(
            next(s, reports[0].0).0,
            disk_after(s, reports[0].0, d, reports[0].1),
            reports.drop_first(),
        );
    }
}

/// An attempt begins only from the stable phase and ends only by the report
/// that closes it: a stable coordinator stays stable whatever is reported,
/// and one that is updating turns stable exactly when it says that the
/// attempt is over.
pub proof fn lemma_phases(s: UpdaterView, token: Seq<char>, e: EventView)
    ensures
        phase_of(s.step) == Phase::Stable ==> phase_of(begin(s, token).0.step) == Phase::Updating,
        phase_of(s.step) == Phase::Updating ==> begin(s, token) == (s, None::<ActionView>),
        phase_of(s.step) == Phase::Stable ==> next(s, e) == (s, ActionView::Idle),
        phase_of(s.step) == Phase::Updating ==> (phase_of(next(s, e).0.step) == Phase::Stable
            <==> next(s, e).1 is Finish),
{
}

/// Once the requests have ended, the attempt is given up as `Failed`
/// exactly when one of them failed; where all three payloads arrived, it
/// either goes on to store the catalog or is given up as `Incomplete`.
pub proof fn lemma_failed_is_a_failed_request(s: UpdaterView, r: ResponsesView)
    requires
        s.step == Step::Fetching,
    ensures
        !all_arrived(r) ==> next(s, EventView::Fetched(r)) == rollback(
            s,
            UpdateStatus::Failed,
            catalog_of_responses(r)->Err_0,
        ),
        all_arrived(r) ==> next(s, EventView::Fetched(r)).0.step == Step::Persisting || next(
            s,
            EventView::Fetched(r),
        ).0.status == UpdateStatus::Incomplete,
{
}

/// Readers never see a catalog that was not committed: a report changes
/// what the cache shows only where it commits the attempt.
pub proof fn lemma_cache_changes_only_on_commit(s: UpdaterView, e: EventView, cache: CatalogView)
    ensures
        next(s, e).0.step != Step::Committing ==> cache_after(s, e, cache) == cache,
        next(s, e).0.step == Step::Committing ==> s.pending == Some(cache_after(s, e, cache)),
{
}

} // verus!
