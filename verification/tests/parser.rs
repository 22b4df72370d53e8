use ygo_destiny::cardinfo::{card_info_from_json, parse_card_info};
use ygo_destiny::cardsets::{card_sets_from_json, parse_card_sets};
use ygo_destiny::error::ParseError;
use ygo_destiny::json::Json;
use ygo_destiny::set_index::SetIndex;

fn text(s: &str) -> Json {
    Json::Text(s.to_string())
}

fn number(s: &str) -> Json {
    Json::Number(s.to_string())
}

fn object(members: Vec<(&str, Json)>) -> Json {
    Json::Object(members.into_iter().map(|(k, v)| (k.to_string(), v)).collect())
}

#[test]
fn card_payload_gives_card_and_set_content() {
    let payload = "{\"data\":[{\"id\":1,\"name\":\"X\",\"type\":\"Monster\",\"card_sets\":[{\"set_name\":\"SET1\",\"set_rarity\":\"Common\"}]}]}";
    let mut index = SetIndex::new();
    let info = parse_card_info(payload, &mut index).unwrap();
    assert_eq!(info.cards.len(), 1);
    assert_eq!(info.cards[0].id, 1);
    assert_eq!(info.cards[0].name.as_deref(), Some("X"));
    assert_eq!(info.cards[0].card_type.as_deref(), Some("Monster"));
    assert_eq!(info.cards[0].description, None);
    assert_eq!(info.cards[0].atk, None);
    assert_eq!(info.set_contents.len(), 1);
    assert_eq!(info.set_contents[0].card_id, 1);
    assert_eq!(info.set_contents[0].set_name.as_deref(), Some("SET1"));
    assert_eq!(info.set_contents[0].rarity.as_deref(), Some("Common"));
    assert_eq!(index.get(&"SET1".to_string()), vec![1]);
    assert_eq!(index.get(&"SET2".to_string()), Vec::<u32>::new());
}

#[test]
fn card_fields_are_read_by_name() {
    let payload = "{\"data\":[{\"id\":89631139,\"name\":\"Blue-Eyes\",\"type\":\"Normal Monster\",\"desc\":\"A dragon.\",\"atk\":3000,\"def\":2500,\"level\":8,\"race\":\"Dragon\",\"attribute\":\"LIGHT\",\"archetype\":\"Blue-Eyes\",\"scale\":-3,\"linkval\":1.5}]}";
    let mut index = SetIndex::new();
    let info = parse_card_info(payload, &mut index).unwrap();
    let card = &info.cards[0];
    assert_eq!(card.id, 89631139);
    assert_eq!(card.description.as_deref(), Some("A dragon."));
    assert_eq!(card.atk, Some(3000));
    assert_eq!(card.def, Some(2500));
    assert_eq!(card.level, Some(8));
    assert_eq!(card.race.as_deref(), Some("Dragon"));
    assert_eq!(card.attribute.as_deref(), Some("LIGHT"));
    assert_eq!(card.archetype.as_deref(), Some("Blue-Eyes"));
    assert_eq!(card.pend_scale, Some(-3));
    assert_eq!(card.link_rating, None);
    assert!(info.set_contents.is_empty());
}

#[test]
fn card_payload_of_wrong_shape_is_refused() {
    let mut index = SetIndex::new();
    index.insert(&"KEEP".to_string(), 9);
    assert_eq!(parse_card_info("not json", &mut index).err(), Some(ParseError::Document));
    assert_eq!(parse_card_info("[]", &mut index).err(), Some(ParseError::Document));
    assert_eq!(parse_card_info("{\"data\":3}", &mut index).err(), Some(ParseError::Document));
    assert_eq!(
        parse_card_info(
            "{\"data\":[{\"id\":1,\"card_sets\":[{\"set_name\":\"A\"}]},{\"id\":\"2\"}]}",
            &mut index
        )
        .err(),
        Some(ParseError::CardId(1))
    );
    assert_eq!(
        parse_card_info("{\"data\":[{\"id\":4294967296}]}", &mut index).err(),
        Some(ParseError::CardId(0))
    );
    assert_eq!(index.get(&"A".to_string()), Vec::<u32>::new());
    assert_eq!(index.get(&"KEEP".to_string()), vec![9]);
}

#[test]
fn index_lists_cards_by_set_in_payload_order() {
    let payload = "{\"data\":[{\"id\":3,\"card_sets\":[{\"set_name\":\"A\"},{\"set_name\":\"B\"},{\"set_rarity\":\"Rare\"}]},{\"id\":1,\"card_sets\":[{\"set_name\":\"A\"}]},{\"id\":2,\"card_sets\":\"none\"}]}";
    let mut index = SetIndex::new();
    let info = parse_card_info(payload, &mut index).unwrap();
    assert_eq!(info.cards.len(), 3);
    assert_eq!(info.set_contents.len(), 4);
    assert_eq!(info.set_contents[2].card_id, 3);
    assert_eq!(info.set_contents[2].set_name, None);
    assert_eq!(info.set_contents[2].rarity.as_deref(), Some("Rare"));
    assert_eq!(index.get(&"A".to_string()), vec![3, 1]);
    assert_eq!(index.get(&"B".to_string()), vec![3]);
}

#[test]
fn set_payload_gives_one_set_per_element() {
    let mut index = SetIndex::new();
    index.insert(&"Alpha".to_string(), 7);
    index.insert(&"Alpha".to_string(), 5);
    let payload = "[{\"set_name\":\"Alpha\",\"set_code\":\"ALP\",\"num_of_cards\":2,\"tcg_date\":\"2020-01-02\"},{\"set_name\":12,\"num_of_cards\":\"many\"},17]";
    let sets = parse_card_sets(payload, &index).unwrap();
    assert_eq!(sets.len(), 3);
    assert_eq!(sets[0].name.as_deref(), Some("Alpha"));
    assert_eq!(sets[0].code.as_deref(), Some("ALP"));
    assert_eq!(sets[0].date.as_deref(), Some("2020-01-02"));
    assert_eq!(sets[0].card_count, Some(2));
    assert_eq!(sets[0].card_ids, vec![7, 5]);
    assert_eq!(sets[1].name, None);
    assert_eq!(sets[1].card_count, None);
    assert!(sets[1].card_ids.is_empty());
    assert_eq!(sets[2].name, None);
    assert_eq!(sets[2].date, None);
    assert_eq!(sets[2].code, None);
}

#[test]
fn set_payload_that_is_no_array_is_refused() {
    let index = SetIndex::new();
    assert_eq!(parse_card_sets("{\"a\":1}", &index).err(), Some(ParseError::Document));
    assert_eq!(parse_card_sets("[1,", &index).err(), Some(ParseError::Document));
    assert_eq!(parse_card_sets("[]", &index).unwrap().len(), 0);
}

#[test]
fn documents_built_by_hand_are_read_alike() {
    let doc = object(vec![(
        "data",
        Json::Array(vec![object(vec![
            ("id", number("12")),
            ("name", text("First")),
            ("name", text("Second")),
            ("atk", number("-9223372036854775808")),
            ("def", number("9223372036854775808")),
            ("level", number("1e3")),
            ("card_sets", Json::Array(vec![Json::Null, object(vec![("set_name", text("S"))])])),
        ])]),
    )]);
    let info = card_info_from_json(&doc).unwrap();
    assert_eq!(info.cards[0].id, 12);
    assert_eq!(info.cards[0].name.as_deref(), Some("First"));
    assert_eq!(info.cards[0].atk, Some(i64::MIN));
    assert_eq!(info.cards[0].def, None);
    assert_eq!(info.cards[0].level, None);
    assert_eq!(info.set_contents.len(), 2);
    assert_eq!(info.set_contents[0].set_name, None);
    assert_eq!(info.set_contents[1].set_name.as_deref(), Some("S"));
    let sets = card_sets_from_json(&Json::Array(vec![Json::Bool(true)]), &SetIndex::new()).unwrap();
    assert_eq!(sets.len(), 1);
    assert_eq!(sets[0].name, None);
    assert_eq!(card_sets_from_json(&Json::Null, &SetIndex::new()).err(), Some(ParseError::Document));
}

#[test]
fn escapes_and_numbers_are_read_as_json() {
    let payload = "{\"data\":[{\"id\":7,\"name\":\"a\\u00e9\\n\",\"atk\":-0,\"def\":18446744073709551615,\"level\":2.0,\"scale\":-12,\"id\":8}] , \"extra\":null}";
    let mut index = SetIndex::new();
    let info = parse_card_info(payload, &mut index).unwrap();
    assert_eq!(info.cards[0].id, 8);
    assert_eq!(info.cards[0].name.as_deref(), Some("a\u{e9}\n"));
    assert_eq!(info.cards[0].atk, None);
    assert_eq!(info.cards[0].def, None);
    assert_eq!(info.cards[0].level, None);
    assert_eq!(info.cards[0].pend_scale, Some(-12));
    assert_eq!(parse_card_info("{\"data\":[]} x", &mut index).err(), Some(ParseError::Document));
    assert_eq!(parse_card_info("{'data':[]}", &mut index).err(), Some(ParseError::Document));
    assert_eq!(parse_card_info("", &mut index).err(), Some(ParseError::Document));
}
