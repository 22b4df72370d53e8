//! The relational form of a catalog: three tables, replaced as a whole by a
//! plan of statements whose values travel as parameters, never as text
//! spliced into the statement.

use vstd::prelude::*;
use vstd::string::StringExecFns;
use crate::model::{
    Card, CardSet, CardSetView, CardView, Catalog, CatalogView, SetContent, SetContentView,
    opt_text, views, lemma_views_push,
};

verus! {

/// The tables of the store.
#[derive(Debug, Clone, Copy, PartialEq, Eq, Structural)]
pub enum Table {
    Sets,
    Cards,
    SetContents,
}

/// One value bound to a statement.
#[derive(Debug, Clone, PartialEq, Eq)]
pub enum SqlValue {
    Null,
    Integer(i64),
    Text(String),
}

/// What a [`SqlValue`] stands for.
pub ghost enum SqlValueView {
    Null,
    Integer(i64),
    Text(Seq<char>),
}

impl View for SqlValue {
    type V = SqlValueView;

    open spec fn view(&self) -> SqlValueView {
        match self {
            SqlValue::Null => SqlValueView::Null,
            SqlValue::Integer(n) => SqlValueView::Integer(*n),
            SqlValue::Text(s) => SqlValueView::Text(s@),
        }
    }
}

/// One statement and the values bound to its placeholders, in order.
#[derive(Debug, Clone, PartialEq, Eq)]
pub struct Statement {
    pub sql: String,
    pub params: Vec<SqlValue>,
}

/// What a [`Statement`] stands for.
pub ghost struct StatementView {
    pub sql: Seq<char>,
    pub params: Seq<SqlValueView>,
}

impl View for Statement {
    type V = StatementView;

    open spec fn view(&self) -> StatementView {
        StatementView { sql: self.sql@, params: Seq::new(self.params@.len(), |i: int| self.params@[i]@) }
    }
}

/// The name of a table.
pub open spec fn table_name(table: Table) -> Seq<char> {
    match table {
        Table::Sets => "sets"@,
        Table::Cards => "cards"@,
        Table::SetContents => "set_contents"@,
    }
}

/// The statement that removes a table if it is there.
pub open spec fn drop_sql(table: Table) -> Seq<char> {
    "DROP TABLE IF EXISTS "@ + table_name(table)
}

/// The columns of a table with their types, as the statement that creates
/// the table lists them.
pub open spec fn column_definitions(table: Table) -> Seq<char> {
    match table {
        Table::Sets => "name TEXT PRIMARY KEY, date TEXT, code TEXT, cards INTEGER"@,
        Table::Cards =>
            "id INTEGER PRIMARY KEY, name TEXT, card_type TEXT, description TEXT, atk INTEGER, def INTEGER, level INTEGER, type TEXT, attribute TEXT, archetype TEXT, pend_scale INTEGER, link_rating INTEGER"@,
        Table::SetContents => "card_id INTEGER REFERENCES cards(id), set_name TEXT, rarity TEXT"@,
    }
}

/// The statement that creates a table.
pub open spec fn create_sql(table: Table) -> Seq<char> {
    "CREATE TABLE "@ + table_name(table) + " ("@ + column_definitions(table) + ")"@
}

/// How many columns a table has.
pub open spec fn column_count(table: Table) -> nat {
    match table {
        Table::Sets => 4,
        Table::Cards => 12,
        Table::SetContents => 3,
    }
}

/// `n` placeholders, with a comma and a blank between two of them.
pub open spec fn placeholders(n: nat) -> Seq<char>
    decreases n,
{
    if n == 0 {
        Seq::empty()
    } else if n == 1 {
        "?"@
    } else {
        placeholders((n - 1) as nat) + ", ?"@
    }
}

/// The statement that inserts one row into a table, one placeholder per
/// column.
pub open spec fn insert_sql(table: Table) -> Seq<char> {
    "INSERT INTO "@ + table_name(table) + " VALUES ("@ + placeholders(column_count(table))
        + ")"@
}

/// An optional string as a bound value.
pub open spec fn text_value(s: Option<Seq<char>>) -> SqlValueView {
    match s {
        Some(t) => SqlValueView::Text(t),
        None => SqlValueView::Null,
    }
}

/// An optional integer as a bound value.
pub open spec fn integer_value(n: Option<i64>) -> SqlValueView {
    match n {
        Some(v) => SqlValueView::Integer(v),
        None => SqlValueView::Null,
    }
}

/// The row of a set.
pub open spec fn set_row(s: CardSetView) -> Seq<SqlValueView> {
    seq![text_value(s.name), text_value(s.date), text_value(s.code), integer_value(s.card_count)]
}

/// The row of a card.
pub open spec fn card_row(c: CardView) -> Seq<SqlValueView> {
    seq![
        SqlValueView::Integer(c.id as i64),
        text_value(c.name),
        text_value(c.card_type),
        text_value(c.description),
        integer_value(c.atk),
        integer_value(c.def),
        integer_value(c.level),
        text_value(c.race),
        text_value(c.attribute),
        text_value(c.archetype),
        integer_value(c.pend_scale),
        integer_value(c.link_rating),
    ]
}

/// The row of a printing.
pub open spec fn content_row(p: SetContentView) -> Seq<SqlValueView> {
    seq![SqlValueView::Integer(p.card_id as i64), text_value(p.set_name), text_value(p.rarity)]
}

/// Replacing a table: drop it, create it, insert the rows in order.
pub open spec fn table_plan(table: Table, rows: Seq<Seq<SqlValueView>>) -> Seq<StatementView> {
    seq![
        StatementView { sql: drop_sql(table), params: Seq::empty() },
        StatementView { sql: create_sql(table), params: Seq::empty() },
    ] + Seq::new(rows.len(), |i: int| StatementView { sql: insert_sql(table), params: rows[i] })
}

/// Replacing the store: the sets, then the cards, then the printings.
pub open spec fn store_plan(c: CatalogView) -> Seq<StatementView> {
    table_plan(Table::Sets, Seq::new(c.card_sets.len(), |i: int| set_row(c.card_sets[i])))
        + table_plan(Table::Cards, Seq::new(c.cards.len(), |i: int| card_row(c.cards[i])))
        + table_plan(
        Table::SetContents,
        Seq::new(c.set_contents.len(), |i: int| content_row(c.set_contents[i])),
    )
}

fn table_name_of(table: Table) -> (out: &'static str)
    ensures
        out@ == table_name(table),
{
    match table {
        Table::Sets => "sets",
        Table::Cards => "cards",
        Table::SetContents => "set_contents",
    }
}

/// The statement that removes a table if it is there.
pub fn drop_statement(table: Table) -> (out: Statement)
    ensures
        out@ == (StatementView { sql: drop_sql(table), params: Seq::empty() }),
{
    let mut sql = String::from_str("DROP TABLE IF EXISTS ");
    sql.append(table_name_of(table));
    let out = Statement { sql, params: Vec::new() };
    assert(out@.params =~= Seq::empty());
    out
}

/// The statement that creates a table.
pub fn create_statement(table: Table) -> (out: Statement)
    ensures
        out@ == (StatementView { sql: create_sql(table), params: Seq::empty() }),
{
    let mut sql = String::from_str("CREATE TABLE ");
    sql.append(table_name_of(table));
    sql.append(" (");
    sql.append(
        match table {
            Table::Sets => "name TEXT PRIMARY KEY, date TEXT, code TEXT, cards INTEGER",
            Table::Cards =>
                "id INTEGER PRIMARY KEY, name TEXT, card_type TEXT, description TEXT, atk INTEGER, def INTEGER, level INTEGER, type TEXT, attribute TEXT, archetype TEXT, pend_scale INTEGER, link_rating INTEGER",
            Table::SetContents =>
                "card_id INTEGER REFERENCES cards(id), set_name TEXT, rarity TEXT",
        },
    );
    sql.append(")");
    let out = Statement { sql, params: Vec::new() };
    assert(out@.params =~= Seq::empty());
    out
}

/// The text of the statement that inserts one row into a table.
pub fn insert_text(table: Table) -> (out: String)
    ensures
        out@ == insert_sql(table),
{
    let count: usize = match table {
        Table::Sets => 4,
        Table::Cards => 12,
        Table::SetContents => 3,
    };
    let mut marks = String::from_str("?");
    let mut n: usize = 1;
    while n < count
        invariant
            1 <= n <= count,
            marks@ == placeholders(n as nat),
        decreases count - n,
    {
        marks.append(", ?");
        n += 1;
    }
    let mut sql = String::from_str("INSERT INTO ");
    sql.append(table_name_of(table));
    sql.append(" VALUES (");
    sql.append(marks.as_str());
    sql.append(")");
    sql
}

fn text_param(s: &Option<String>) -> (out: SqlValue)
    ensures
        out@ == text_value(opt_text(*s)),
{
    match s {
        Some(t) => SqlValue::Text(t.clone()),
        None => SqlValue::Null,
    }
}

fn integer_param(n: &Option<i64>) -> (out: SqlValue)
    ensures
        out@ == integer_value(*n),
{
    match n {
        Some(v) => SqlValue::Integer(*v),
        None => SqlValue::Null,
    }
}

fn set_params(s: &CardSet) -> (out: Vec<SqlValue>)
    ensures
        Seq::new(out@.len(), |i: int| out@[i]@) == set_row(s@),
{
    let mut out: Vec<SqlValue> = Vec::new();
    out.push(text_param(&s.name));
    out.push(text_param(&s.date));
    out.push(text_param(&s.code));
    out.push(integer_param(&s.card_count));
    assert(Seq::new(out@.len(), |i: int| out@[i]@) =~= set_row(s@));
    out
}

fn card_params(c: &Card) -> (out: Vec<SqlValue>)
    ensures
        Seq::new(out@.len(), |i: int| out@[i]@) == card_row(c@),
{
    let mut out: Vec<SqlValue> = Vec::new();
    out.push(SqlValue::Integer(c.id as i64));
    out.push(text_param(&c.name));
    out.push(text_param(&c.card_type));
    out.push(text_param(&c.description));
    out.push(integer_param(&c.atk));
    out.push(integer_param(&c.def));
    out.push(integer_param(&c.level));
    out.push(text_param(&c.race));
    out.push(text_param(&c.attribute));
    out.push(text_param(&c.archetype));
    out.push(integer_param(&c.pend_scale));
    out.push(integer_param(&c.link_rating));
    assert(Seq::new(out@.len(), |i: int| out@[i]@) =~= card_row(c@));
    out
}

fn content_params(p: &SetContent) -> (out: Vec<SqlValue>)
    ensures
        Seq::new(out@.len(), |i: int| out@[i]@) == content_row(p@),
{
    let mut out: Vec<SqlValue> = Vec::new();
    out.push(SqlValue::Integer(p.card_id as i64));
    out.push(text_param(&p.set_name));
    out.push(text_param(&p.rarity));
    assert(Seq::new(out@.len(), |i: int| out@[i]@) =~= content_row(p@));
    out
}

/// The statements that replace the set table.
pub fn plan_sets(sets: &Vec<CardSet>) -> (out: Vec<Statement>)
    ensures
        views(out@) == table_plan(
            Table::Sets,
            Seq::new(sets@.len(), |i: int| set_row(sets@[i]@)),
        ),
{
    let mut out: Vec<Statement> = Vec::new();
    out.push(drop_statement(Table::Sets));
    out.push(create_statement(Table::Sets));
    let mut i: usize = 0;
    assert(views(out@) =~= table_plan(Table::Sets, Seq::empty()));
    while i < sets.len()
        invariant
            0 <= i <= sets.len(),
            views(out@) == table_plan(
                Table::Sets,
                Seq::new(i as nat, |k: int| set_row(sets@[k]@)),
            ),
        decreases sets.len() - i,
    {
        let statement = Statement { sql: insert_text(Table::Sets), params: set_params(&sets[i]) };
        let ghost before = out@;
        out.push(statement);
        proof {
            lemma_views_push(before, statement);
            assert(views(out@) =~= table_plan(
                Table::Sets,
                Seq::new((i + 1) as nat, |k: int| set_row(sets@[k]@)),
            ));
        }
        i += 1;
    }
    out
}

/// The statements that replace the card table.
pub fn plan_cards(cards: &Vec<Card>) -> (out: Vec<Statement>)
    ensures
        views(out@) == table_plan(
            Table::Cards,
            Seq::new(cards@.len(), |i: int| card_row(cards@[i]@)),
        ),
{
    let mut out: Vec<Statement> = Vec::new();
    out.push(drop_statement(Table::Cards));
    out.push(create_statement(Table::Cards));
    let mut i: usize = 0;
    assert(views(out@) =~= table_plan(Table::Cards, Seq::empty()));
    while i < cards.len()
        invariant
            0 <= i <= cards.len(),
            views(out@) == table_plan(
                Table::Cards,
                Seq::new(i as nat, |k: int| card_row(cards@[k]@)),
            ),
        decreases cards.len() - i,
    {
        let statement = Statement {
            sql: insert_text(Table::Cards),
            params: card_params(&cards[i]),
        };
        let ghost before = out@;
        out.push(statement);
        proof {
            lemma_views_push(before, statement);
            assert(views(out@) =~= table_plan(
                Table::Cards,
                Seq::new((i + 1) as nat, |k: int| card_row(cards@[k]@)),
            ));
        }
        i += 1;
    }
    out
}

/// The statements that replace the table of printings.
pub fn plan_contents(contents: &Vec<SetContent>) -> (out: Vec<Statement>)
    ensures
        views(out@) == table_plan(
            Table::SetContents,
            Seq::new(contents@.len(), |i: int| content_row(contents@[i]@)),
        ),
{
    let mut out: Vec<Statement> = Vec::new();
    out.push(drop_statement(Table::SetContents));
    out.push(create_statement(Table::SetContents));
    let mut i: usize = 0;
    assert(views(out@) =~= table_plan(Table::SetContents, Seq::empty()));
    while i < contents.len()
        invariant
            0 <= i <= contents.len(),
            views(out@) == table_plan(
                Table::SetContents,
                Seq::new(i as nat, |k: int| content_row(contents@[k]@)),
            ),
        decreases contents.len() - i,
    {
        let statement = Statement {
            sql: insert_text(Table::SetContents),
            params: content_params(&contents[i]),
        };
        let ghost before = out@;
        out.push(statement);
        proof {
            lemma_views_push(before, statement);
            assert(views(out@) =~= table_plan(
                Table::SetContents,
                Seq::new((i + 1) as nat, |k: int| content_row(contents@[k]@)),
            ));
        }
        i += 1;
    }
    out
}

/// The statements that replace the whole store with a catalog: each table is
/// dropped, created anew and filled from the catalog's records, the sets
/// first, then the cards, then the printings.
pub fn plan_store(catalog: &Catalog) -> (out: Vec<Statement>)
    ensures
        views(out@) == store_plan(catalog@),
{
    let mut out = plan_sets(&catalog.card_sets);
    let mut cards = plan_cards(&catalog.cards);
    let mut contents = plan_contents(&catalog.set_contents);
    let ghost a = out@;
    let ghost b = cards@;
    let ghost c = contents@;
    out.append(&mut cards);
    out.append(&mut contents);
    proof {
        assert(out@ == a + b + c);
        assert(views(a + b + c) =~= views(a) + views(b) + views(c));
        let v = catalog@;
        assert(Seq::new(catalog.card_sets@.len(), |i: int| set_row(catalog.card_sets@[i]@))
            =~= Seq::new(v.card_sets.len(), |i: int| set_row(v.card_sets[i])));
        assert(Seq::new(catalog.cards@.len(), |i: int| card_row(catalog.cards@[i]@)) =~= Seq::new(
            v.cards.len(),
            |i: int| card_row(v.cards[i]),
        ));
        assert(Seq::new(
            catalog.set_contents@.len(),
            |i: int| content_row(catalog.set_contents@[i]@),
        ) =~= Seq::new(v.set_contents.len(), |i: int| content_row(v.set_contents[i])));
    }
    out
}

} // verus!
