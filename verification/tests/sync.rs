use ygo_destiny::cache::{update_cache, Cache, LoadOutcome};
use ygo_destiny::cardinfo::CardInfo;
use ygo_destiny::codec::{decode, encode};
use ygo_destiny::error::{DecodeError, Error, ParseError};
use ygo_destiny::model::{BanlistEntry, Card, CardSet, Catalog};
use ygo_destiny::sync::{
    catalog_from_responses, parse_payloads, status_of_failure, Action, Event, Phase, Responses,
    UpdateStatus, Updater,
};

const CARDS: &str = "{\"data\":[{\"id\":1,\"name\":\"X\",\"type\":\"Monster\",\"card_sets\":[{\"set_name\":\"SET1\",\"set_rarity\":\"Common\"}]}]}";
const SETS: &str = "[{\"set_name\":\"SET1\",\"set_code\":\"S1\",\"num_of_cards\":1,\"tcg_date\":\"2001-01-01\"}]";
const BANS: &str = "#comment\nCardA 1\n";

fn good() -> Responses {
    Responses {
        banlists: Ok(BANS.to_string()),
        cardinfo: Ok(CARDS.to_string()),
        cardsets: Ok(SETS.to_string()),
    }
}

fn old_catalog() -> Catalog {
    Catalog {
        banlists: vec![BanlistEntry { card: "Old".to_string(), tier: Some(2) }],
        cards: vec![],
        set_contents: vec![],
        card_sets: vec![],
    }
}

fn is_action(action: &Action, name: &str) -> bool {
    match action {
        Action::Idle => name == "idle",
        Action::CreateBackup => name == "backup",
        Action::Fetch => name == "fetch",
        Action::Persist { .. } => name == "persist",
        Action::WriteVersion(_) => name == "version",
        Action::RestoreBackup => name == "restore",
        Action::DiscardBackup => name == "discard",
        Action::Finish(_, _) => name == "finish",
    }
}

fn finished(action: &Action) -> (UpdateStatus, Option<Error>) {
    match action {
        Action::Finish(status, error) => (*status, *error),
        _ => panic!("the attempt has not ended"),
    }
}

#[test]
fn payloads_become_one_catalog() {
    let catalog = parse_payloads(BANS, CARDS, SETS).unwrap();
    assert_eq!(catalog.banlists.len(), 1);
    assert_eq!(catalog.banlists[0].card, "CardA");
    assert_eq!(catalog.cards.len(), 1);
    assert_eq!(catalog.set_contents.len(), 1);
    assert_eq!(catalog.card_sets.len(), 1);
    assert_eq!(catalog.card_sets[0].card_ids, vec![1]);
    assert_eq!(catalog.card_sets[0].card_count, Some(1));
}

#[test]
fn first_failure_decides() {
    let mut r = good();
    r.cardsets = Err(Error::Network);
    r.cardinfo = Ok("{}".to_string());
    assert_eq!(catalog_from_responses(&r).err(), Some(Error::Network));
    let mut r = good();
    r.banlists = Err(Error::Io);
    r.cardinfo = Err(Error::Network);
    assert_eq!(catalog_from_responses(&r).err(), Some(Error::Io));
    assert_eq!(
        parse_payloads("CardA #1", "nothing", SETS).err(),
        Some(Error::Parse(ParseError::Document))
    );
    assert_eq!(parse_payloads(BANS, "{}", "{}").err(), Some(Error::Parse(ParseError::Document)));
    assert_eq!(
        parse_payloads(BANS, "{\"data\":[{}]}", SETS).err(),
        Some(Error::Parse(ParseError::CardId(0)))
    );
    assert_eq!(parse_payloads(BANS, CARDS, "3").err(), Some(Error::Parse(ParseError::Document)));
}

#[test]
fn successful_update_runs_to_commit() {
    let mut cache = Cache::new();
    cache.replace(old_catalog());
    let mut updater = Updater::new();
    assert_eq!(updater.phase(), Phase::Stable);
    let first = updater.begin_update("1.2.3".to_string()).unwrap();
    assert!(is_action(&first, "backup"));
    assert_eq!(updater.phase(), Phase::Updating);
    assert!(is_action(&updater.step(Event::BackupCreated(true), &mut cache), "fetch"));
    let persist = updater.step(Event::Fetched(good()), &mut cache);
    match &persist {
        Action::Persist { statements, cache: bytes } => {
            assert_eq!(statements.len(), 9);
            let stored = decode(bytes).unwrap();
            assert_eq!(stored.cards[0].id, 1);
            assert_eq!(*bytes, encode(&parse_payloads(BANS, CARDS, SETS).unwrap()));
        }
        _ => panic!("the catalog was not handed out for storing"),
    }
    assert_eq!(cache.snapshot().banlists[0].card, "Old");
    match updater.step(Event::Persisted(true), &mut cache) {
        Action::WriteVersion(token) => assert_eq!(token, "1.2.3"),
        _ => panic!("the version was not handed out for writing"),
    }
    assert_eq!(cache.snapshot().banlists[0].card, "Old");
    assert!(is_action(&updater.step(Event::VersionWritten(true), &mut cache), "discard"));
    assert_eq!(cache.snapshot().banlists[0].card, "CardA");
    assert_eq!(cache.snapshot().cards.len(), 1);
    let end = updater.step(Event::BackupDiscarded(true), &mut cache);
    assert_eq!(finished(&end), (UpdateStatus::Complete, None));
    assert_eq!(updater.phase(), Phase::Stable);
    assert_eq!(updater.status(), UpdateStatus::Complete);
    assert!(is_action(&updater.step(Event::Persisted(true), &mut cache), "idle"));
}

#[test]
fn failed_card_fetch_leaves_everything_as_it_was() {
    let mut cache = Cache::new();
    cache.replace(old_catalog());
    let mut updater = Updater::new();
    updater.begin_update("2".to_string()).unwrap();
    updater.step(Event::BackupCreated(true), &mut cache);
    let mut responses = good();
    responses.cardinfo = Err(Error::Network);
    let action = updater.step(Event::Fetched(responses), &mut cache);
    assert!(is_action(&action, "restore"));
    let end = updater.step(Event::BackupRestored(true), &mut cache);
    assert_eq!(finished(&end), (UpdateStatus::Failed, Some(Error::Network)));
    assert_eq!(updater.phase(), Phase::Stable);
    assert_eq!(cache.snapshot().banlists.len(), 1);
    assert_eq!(cache.snapshot().banlists[0].card, "Old");
    assert_eq!(cache.snapshot().cards.len(), 0);
}

#[test]
fn failed_backup_ends_before_any_write() {
    let mut cache = Cache::new();
    let mut updater = Updater::new();
    updater.begin_update("2".to_string()).unwrap();
    let end = updater.step(Event::BackupCreated(false), &mut cache);
    assert_eq!(finished(&end), (UpdateStatus::Failed, Some(Error::Io)));
    assert_eq!(updater.phase(), Phase::Stable);
}

#[test]
fn failed_writes_are_rolled_back_as_incomplete() {
    let mut cache = Cache::new();
    let mut updater = Updater::new();
    updater.begin_update("2".to_string()).unwrap();
    updater.step(Event::BackupCreated(true), &mut cache);
    updater.step(Event::Fetched(good()), &mut cache);
    assert!(is_action(&updater.step(Event::Persisted(false), &mut cache), "restore"));
    let end = updater.step(Event::BackupRestored(true), &mut cache);
    assert_eq!(finished(&end), (UpdateStatus::Incomplete, Some(Error::Io)));
    assert!(cache.snapshot().cards.is_empty());

    updater.begin_update("2".to_string()).unwrap();
    updater.step(Event::BackupCreated(true), &mut cache);
    updater.step(Event::Fetched(good()), &mut cache);
    updater.step(Event::Persisted(true), &mut cache);
    assert!(is_action(&updater.step(Event::VersionWritten(false), &mut cache), "restore"));
    let end = updater.step(Event::BackupRestored(false), &mut cache);
    assert_eq!(finished(&end), (UpdateStatus::Incomplete, Some(Error::Io)));
    assert!(cache.snapshot().cards.is_empty());
    assert_eq!(updater.status(), UpdateStatus::Incomplete);
}

#[test]
fn refused_payload_is_rolled_back_as_incomplete() {
    let mut cache = Cache::new();
    let mut updater = Updater::new();
    updater.begin_update("2".to_string()).unwrap();
    updater.step(Event::BackupCreated(true), &mut cache);
    let mut responses = good();
    responses.cardsets = Ok("{}".to_string());
    assert_eq!(status_of_failure(&responses), UpdateStatus::Incomplete);
    assert!(is_action(&updater.step(Event::Fetched(responses), &mut cache), "restore"));
    let end = updater.step(Event::BackupRestored(true), &mut cache);
    assert_eq!(
        finished(&end),
        (UpdateStatus::Incomplete, Some(Error::Parse(ParseError::Document)))
    );
    assert!(cache.snapshot().cards.is_empty());
}

#[test]
fn failed_request_beside_a_refused_payload_is_failed() {
    let mut cache = Cache::new();
    let mut updater = Updater::new();
    updater.begin_update("2".to_string()).unwrap();
    updater.step(Event::BackupCreated(true), &mut cache);
    let mut responses = good();
    responses.cardinfo = Ok("{}".to_string());
    responses.cardsets = Err(Error::Network);
    assert_eq!(status_of_failure(&responses), UpdateStatus::Failed);
    updater.step(Event::Fetched(responses), &mut cache);
    let end = updater.step(Event::BackupRestored(true), &mut cache);
    assert_eq!(finished(&end), (UpdateStatus::Failed, Some(Error::Network)));
}

#[test]
fn marker_inside_a_ruling_does_not_stop_the_update() {
    let mut cache = Cache::new();
    let mut updater = Updater::new();
    updater.begin_update("2".to_string()).unwrap();
    updater.step(Event::BackupCreated(true), &mut cache);
    let mut responses = good();
    responses.banlists = Ok("#head\nCardA #1\nCardB 2\n".to_string());
    assert!(is_action(&updater.step(Event::Fetched(responses), &mut cache), "persist"));
    updater.step(Event::Persisted(true), &mut cache);
    updater.step(Event::VersionWritten(true), &mut cache);
    let end = updater.step(Event::BackupDiscarded(true), &mut cache);
    assert_eq!(finished(&end), (UpdateStatus::Complete, None));
    assert_eq!(cache.snapshot().banlists.len(), 2);
    assert_eq!(cache.snapshot().banlists[0].card, "CardA #1");
    assert_eq!(cache.snapshot().banlists[0].tier, None);
    assert_eq!(cache.snapshot().banlists[1].tier, Some(2));
}

#[test]
fn only_one_attempt_at_a_time() {
    let mut cache = Cache::new();
    let mut updater = Updater::new();
    assert!(updater.begin_update("1".to_string()).is_some());
    assert!(updater.begin_update("2".to_string()).is_none());
    updater.step(Event::BackupCreated(true), &mut cache);
    assert!(updater.begin_update("3".to_string()).is_none());
    updater.step(Event::Fetched(good()), &mut cache);
    updater.step(Event::Persisted(true), &mut cache);
    match updater.step(Event::Persisted(true), &mut cache) {
        Action::RestoreBackup => {}
        _ => panic!("a report out of turn must give the attempt up"),
    }
    updater.step(Event::BackupRestored(true), &mut cache);
    assert!(updater.begin_update("4".to_string()).is_some());
}

#[test]
fn cache_loads_a_file_or_stays_empty() {
    let mut cache = Cache::new();
    assert!(cache.snapshot().banlists.is_empty());
    assert_eq!(cache.load_from_disk(None), LoadOutcome::Absent);
    assert!(cache.snapshot().banlists.is_empty());
    assert_eq!(cache.load_from_disk(Some(&[1, 2, 3])), LoadOutcome::Corrupt(DecodeError::Truncated));
    assert!(cache.snapshot().banlists.is_empty());
    let bytes = encode(&old_catalog());
    assert_eq!(cache.load_from_disk(Some(&bytes)), LoadOutcome::Loaded);
    assert_eq!(cache.snapshot().banlists[0].card, "Old");
    assert_eq!(cache.snapshot().banlists[0].tier, Some(2));
    assert_eq!(cache.load_from_disk(Some(&bytes[1..])), LoadOutcome::Corrupt(DecodeError::Truncated));
    assert_eq!(cache.snapshot().banlists[0].card, "Old");
}

#[test]
fn update_cache_replaces_every_part() {
    let mut cache = Cache::new();
    cache.replace(old_catalog());
    let card = Card {
        id: 3,
        name: None,
        card_type: None,
        description: None,
        atk: None,
        def: None,
        level: None,
        race: None,
        attribute: None,
        archetype: None,
        pend_scale: None,
        link_rating: None,
    };
    let set = CardSet { name: None, date: None, code: None, card_count: None, card_ids: vec![] };
    update_cache(&mut cache, vec![], CardInfo { cards: vec![card], set_contents: vec![] }, vec![set]);
    assert!(cache.snapshot().banlists.is_empty());
    assert_eq!(cache.snapshot().cards[0].id, 3);
    assert_eq!(cache.snapshot().card_sets.len(), 1);
}
