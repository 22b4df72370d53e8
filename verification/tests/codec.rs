use ygo_destiny::codec::{decode, encode};
use ygo_destiny::error::DecodeError;
use ygo_destiny::model::{BanlistEntry, Card, CardSet, Catalog, SetContent};

fn sample_card(id: u32) -> Card {
    Card {
        id,
        name: Some("Dark Magician".to_string()),
        card_type: Some("Normal Monster".to_string()),
        description: None,
        atk: Some(2500),
        def: Some(-1),
        level: Some(i64::MIN),
        race: Some("Spellcaster".to_string()),
        attribute: Some("DARK".to_string()),
        archetype: None,
        pend_scale: None,
        link_rating: Some(i64::MAX),
    }
}

fn sample_catalog() -> Catalog {
    Catalog {
        banlists: vec![BanlistEntry { card: "Pot of Greed".to_string(), tier: Some(0) }],
        cards: vec![sample_card(46986414), sample_card(u32::MAX)],
        set_contents: vec![SetContent {
            card_id: 46986414,
            set_name: Some("Légende".to_string()),
            rarity: None,
        }],
        card_sets: vec![CardSet {
            name: Some("Légende".to_string()),
            date: Some("2002-03-08".to_string()),
            code: Some("LOB".to_string()),
            card_count: Some(126),
            card_ids: vec![46986414, 7],
        }],
    }
}

#[test]
fn roundtrip_gives_the_catalog_back() {
    let catalog = sample_catalog();
    let bytes = encode(&catalog);
    assert_eq!(decode(&bytes), Ok(sample_catalog()));
    assert_eq!(encode(&decode(&bytes).unwrap()), bytes);
    let back = decode(&bytes).unwrap();
    assert_eq!(back.cards[1].id, u32::MAX);
    assert_eq!(back.cards[0].level, Some(i64::MIN));
    assert_eq!(back.cards[0].link_rating, Some(i64::MAX));
    assert_eq!(back.set_contents[0].set_name.as_deref(), Some("Légende"));
    assert_eq!(back.card_sets[0].card_ids, vec![46986414, 7]);
}

#[test]
fn roundtrip_keeps_absent_fields_and_empty_strings() {
    let card = Card {
        id: 0,
        name: Some(String::new()),
        card_type: None,
        description: Some("line\nbreak \u{1F600}".to_string()),
        atk: Some(0),
        def: None,
        level: None,
        race: None,
        attribute: None,
        archetype: None,
        pend_scale: None,
        link_rating: None,
    };
    let catalog = Catalog {
        banlists: vec![BanlistEntry { card: String::new(), tier: Some(u32::MAX) }, BanlistEntry { card: "x #1".to_string(), tier: None }],
        cards: vec![card],
        set_contents: vec![],
        card_sets: vec![CardSet {
            name: None,
            date: None,
            code: None,
            card_count: None,
            card_ids: vec![u32::MAX, 0],
        }],
    };
    assert_eq!(decode(&encode(&catalog)), Ok(catalog));
}

#[test]
fn empty_catalog_is_four_empty_lists() {
    let bytes = encode(&Catalog::empty());
    assert_eq!(bytes, vec![0u8; 32]);
    assert_eq!(decode(&bytes), Ok(Catalog::empty()));
}

#[test]
fn encoding_is_big_endian_and_fixed_width() {
    let catalog = Catalog {
        banlists: vec![BanlistEntry { card: "Ab".to_string(), tier: Some(0x01020304) }],
        cards: vec![],
        set_contents: vec![SetContent { card_id: 5, set_name: None, rarity: Some("é".to_string()) }],
        card_sets: vec![CardSet {
            name: None,
            date: None,
            code: None,
            card_count: Some(-2),
            card_ids: vec![],
        }],
    };
    let mut expected: Vec<u8> = Vec::new();
    expected.extend_from_slice(&[0, 0, 0, 0, 0, 0, 0, 1]);
    expected.extend_from_slice(&[0, 0, 0, 0, 0, 0, 0, 2, b'A', b'b']);
    expected.extend_from_slice(&[1, 1, 2, 3, 4]);
    expected.extend_from_slice(&[0, 0, 0, 0, 0, 0, 0, 0]);
    expected.extend_from_slice(&[0, 0, 0, 0, 0, 0, 0, 1]);
    expected.extend_from_slice(&[0, 0, 0, 5, 0, 1]);
    expected.extend_from_slice(&[0, 0, 0, 0, 0, 0, 0, 2, 0xc3, 0xa9]);
    expected.extend_from_slice(&[0, 0, 0, 0, 0, 0, 0, 1]);
    expected.extend_from_slice(&[0, 0, 0, 1]);
    expected.extend_from_slice(&[0xff, 0xff, 0xff, 0xff, 0xff, 0xff, 0xff, 0xfe]);
    expected.extend_from_slice(&[0, 0, 0, 0, 0, 0, 0, 0]);
    assert_eq!(encode(&catalog), expected);
}

#[test]
fn truncated_bytes_are_refused() {
    let bytes = encode(&sample_catalog());
    for cut in 0..bytes.len() {
        assert_eq!(decode(&bytes[..cut]).err(), Some(DecodeError::Truncated));
    }
}

#[test]
fn trailing_bytes_are_refused() {
    let mut bytes = encode(&sample_catalog());
    bytes.push(0);
    assert_eq!(decode(&bytes).err(), Some(DecodeError::Trailing));
}

#[test]
fn bad_marker_and_bad_text_are_refused() {
    let catalog = Catalog {
        banlists: vec![],
        cards: vec![],
        set_contents: vec![SetContent { card_id: 5, set_name: None, rarity: Some("A".to_string()) }],
        card_sets: vec![],
    };
    let bytes = encode(&catalog);
    let marker = 8 + 8 + 8 + 4;
    assert_eq!(bytes[marker], 0);
    let mut bad_marker = bytes.clone();
    bad_marker[marker] = 2;
    assert_eq!(decode(&bad_marker).err(), Some(DecodeError::BadTag));
    let letter = marker + 1 + 1 + 8;
    assert_eq!(bytes[letter], b'A');
    let mut bad_text = bytes.clone();
    bad_text[letter] = 0xff;
    assert_eq!(decode(&bad_text).err(), Some(DecodeError::BadText));
}
