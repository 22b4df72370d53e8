use ygo_destiny::model::{Card, CardSet, Catalog, SetContent};
use ygo_destiny::store::{
    create_statement, drop_statement, insert_text, plan_store, SqlValue, Statement, Table,
};

fn show(value: &SqlValue) -> String {
    match value {
        SqlValue::Null => "NULL".to_string(),
        SqlValue::Integer(n) => format!("{}", n),
        SqlValue::Text(s) => format!("'{}'", s),
    }
}

fn row(statement: &Statement) -> Vec<String> {
    statement.params.iter().map(show).collect()
}

#[test]
fn statements_name_their_table() {
    assert_eq!(drop_statement(Table::Sets).sql, "DROP TABLE IF EXISTS sets");
    assert_eq!(drop_statement(Table::Cards).sql, "DROP TABLE IF EXISTS cards");
    assert_eq!(drop_statement(Table::SetContents).sql, "DROP TABLE IF EXISTS set_contents");
    assert_eq!(
        create_statement(Table::Sets).sql,
        "CREATE TABLE sets (name TEXT PRIMARY KEY, date TEXT, code TEXT, cards INTEGER)"
    );
    assert_eq!(
        create_statement(Table::SetContents).sql,
        "CREATE TABLE set_contents (card_id INTEGER REFERENCES cards(id), set_name TEXT, rarity TEXT)"
    );
    assert_eq!(
        create_statement(Table::Cards).sql,
        "CREATE TABLE cards (id INTEGER PRIMARY KEY, name TEXT, card_type TEXT, description TEXT, atk INTEGER, def INTEGER, level INTEGER, type TEXT, attribute TEXT, archetype TEXT, pend_scale INTEGER, link_rating INTEGER)"
    );
    assert!(drop_statement(Table::Sets).params.is_empty());
    assert!(create_statement(Table::Cards).params.is_empty());
}

#[test]
fn insert_has_one_placeholder_per_column() {
    assert_eq!(insert_text(Table::Sets), "INSERT INTO sets VALUES (?, ?, ?, ?)");
    assert_eq!(insert_text(Table::SetContents), "INSERT INTO set_contents VALUES (?, ?, ?)");
    assert_eq!(
        insert_text(Table::Cards),
        "INSERT INTO cards VALUES (?, ?, ?, ?, ?, ?, ?, ?, ?, ?, ?, ?)"
    );
}

#[test]
fn empty_catalog_still_replaces_every_table() {
    let plan = plan_store(&Catalog::empty());
    let texts: Vec<&str> = plan.iter().map(|s| s.sql.as_str()).collect();
    assert_eq!(
        texts,
        vec![
            "DROP TABLE IF EXISTS sets",
            "CREATE TABLE sets (name TEXT PRIMARY KEY, date TEXT, code TEXT, cards INTEGER)",
            "DROP TABLE IF EXISTS cards",
            "CREATE TABLE cards (id INTEGER PRIMARY KEY, name TEXT, card_type TEXT, description TEXT, atk INTEGER, def INTEGER, level INTEGER, type TEXT, attribute TEXT, archetype TEXT, pend_scale INTEGER, link_rating INTEGER)",
            "DROP TABLE IF EXISTS set_contents",
            "CREATE TABLE set_contents (card_id INTEGER REFERENCES cards(id), set_name TEXT, rarity TEXT)",
        ]
    );
}

#[test]
fn rows_carry_the_records_as_parameters() {
    let catalog = Catalog {
        banlists: vec![],
        cards: vec![Card {
            id: 4,
            name: Some("O'Neill".to_string()),
            card_type: Some("Spell Card".to_string()),
            description: None,
            atk: Some(100),
            def: None,
            level: Some(3),
            race: Some("Quick-Play".to_string()),
            attribute: None,
            archetype: Some("None".to_string()),
            pend_scale: Some(-1),
            link_rating: None,
        }],
        set_contents: vec![
            SetContent { card_id: 4, set_name: Some("S".to_string()), rarity: None },
            SetContent { card_id: 4, set_name: None, rarity: Some("Rare".to_string()) },
        ],
        card_sets: vec![CardSet {
            name: Some("S".to_string()),
            date: None,
            code: Some("SS".to_string()),
            card_count: Some(1),
            card_ids: vec![4],
        }],
    };
    let plan = plan_store(&catalog);
    assert_eq!(plan.len(), 10);
    assert_eq!(plan[2].sql, "INSERT INTO sets VALUES (?, ?, ?, ?)");
    assert_eq!(row(&plan[2]), vec!["'S'", "NULL", "'SS'", "1"]);
    assert_eq!(plan[3].sql, "DROP TABLE IF EXISTS cards");
    assert_eq!(plan[5].sql, "INSERT INTO cards VALUES (?, ?, ?, ?, ?, ?, ?, ?, ?, ?, ?, ?)");
    assert_eq!(
        row(&plan[5]),
        vec![
            "4",
            "'O'Neill'",
            "'Spell Card'",
            "NULL",
            "100",
            "NULL",
            "3",
            "'Quick-Play'",
            "NULL",
            "'None'",
            "-1",
            "NULL"
        ]
    );
    assert_eq!(plan[6].sql, "DROP TABLE IF EXISTS set_contents");
    assert_eq!(row(&plan[8]), vec!["4", "'S'", "NULL"]);
    assert_eq!(row(&plan[9]), vec!["4", "NULL", "'Rare'"]);
}
