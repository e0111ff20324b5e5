//! Tables as JSON text: an object with a plain value and a list of objects of plain
//! values.
use serde_json::Value;
use vstd::prelude::*;

verus! {

/// A plain value.
#[derive(Debug, PartialEq, Eq)]
pub enum Scalar {
    Null,
    Number(u64),
    Text(String),
    /// Anything else.
    Other,
}

/// A table: a plain value at its head, and a list of rows where there is one. What
/// is no object in the list is a row without members.
#[derive(Debug, PartialEq, Eq)]
pub struct Table {
    pub head: Scalar,
    pub rows: Option<Vec<Option<Vec<(String, Scalar)>>>>,
}

#[verifier::ext_equal]
pub enum ScalarView {
    Null,
    Number(u64),
    Text(Seq<char>),
    Other,
}

#[verifier::ext_equal]
pub struct TableView {
    pub head: ScalarView,
    pub rows: Option<Seq<Option<Map<Seq<char>, ScalarView>>>>,
}

impl View for Scalar {
    type V = ScalarView;

    open spec fn view(&self) -> ScalarView {
        match self {
            Scalar::Null => ScalarView::Null,
            Scalar::Number(n) => ScalarView::Number(*n),
            Scalar::Text(s) => ScalarView::Text(s@),
            Scalar::Other => ScalarView::Other,
        }
    }
}

/// The members of an object by name; the last one counts where a name is repeated.
pub open spec fn row_view(members: Seq<(String, Scalar)>) -> Map<Seq<char>, ScalarView>
    decreases members.len(),
{
    if members.len() == 0 {
        Map::empty()
    } else {
        row_view(members.drop_last()).insert(members.last().0@, members.last().1@)
    }
}

pub open spec fn row_option(row: Option<Vec<(String, Scalar)>>) -> Option<
    Map<Seq<char>, ScalarView>,
> {
    match row {
        Some(members) => Some(row_view(members@)),
        None => None,
    }
}

pub open spec fn rows_view(rows: Seq<Option<Vec<(String, Scalar)>>>) -> Seq<
    Option<Map<Seq<char>, ScalarView>>,
> {
    rows.map_values(|row: Option<Vec<(String, Scalar)>>| row_option(row))
}

impl View for Table {
    type V = TableView;

    open spec fn view(&self) -> TableView {
        TableView {
            head: self.head@,
            rows: match self.rows {
                Some(rows) => Some(rows_view(rows@)),
                None => None,
            },
        }
    }
}

/// Whether a value is null, a number or text.
pub open spec fn plain(scalar: ScalarView) -> bool {
    !(scalar is Other)
}

pub open spec fn plain_row(row: Map<Seq<char>, ScalarView>) -> bool {
    forall|key: Seq<char>| #[trigger] row.contains_key(key) ==> plain(row[key])
}

/// Whether a table holds only what can be written and read back.
pub open spec fn plain_table(table: TableView) -> bool {
    &&& plain(table.head)
    &&& table.rows matches Some(rows) && forall|i: int|
        0 <= i < rows.len() ==> (#[trigger] rows[i] matches Some(row) && plain_row(row))
}

/// Whether no name is repeated among the members of an object.
pub open spec fn named_once(members: Seq<(String, Scalar)>) -> bool {
    forall|i: int, j: int|
        0 <= i < j < members.len() ==> (#[trigger] members[i]).0@ != (#[trigger] members[j]).0@
}

pub open spec fn row_named_once(row: Option<Vec<(String, Scalar)>>) -> bool {
    row matches Some(members) ==> named_once(members@)
}

/// Whether no row of a table repeats a name.
pub open spec fn table_named_once(table: Table) -> bool {
    table.rows matches Some(rows) ==> forall|i: int|
        0 <= i < rows@.len() ==> row_named_once(#[trigger] rows@[i])
}

/// What was read of JSON text.
pub open spec fn parsed(r: Result<Table, String>) -> Result<TableView, Seq<char>> {
    match r {
        Ok(table) => Ok(table@),
        Err(message) => Err(message@),
    }
}

/// A text that holds this table.
pub open spec fn holds(table: TableView) -> Result<TableView, Seq<char>> {
    Ok(table)
}

/// What JSON text holds under two names, a plain value and a list of rows, or an
/// error with its message.
pub uninterp spec fn json_table(text: Seq<char>, head: Seq<char>, rows: Seq<char>) -> Result<
    TableView,
    Seq<char>,
>;

/// The JSON text of a table under two names.
pub uninterp spec fn json_printed(table: TableView, head: Seq<char>, rows: Seq<char>) -> Seq<char>;

/// `serde_json::from_str` to a `Value`, of which the members with two names are
/// taken as they are: text, numbers that are 64-bit unsigned integers, nulls, and
/// a list. The result is a function of the text and the names.
#[verifier::external_body]
fn from_json(text: &str, head: &str, rows: &str) -> (r: Result<Table, String>)
    ensures
        parsed(r) == json_table(text@, head@, rows@),
{
    let one = |v: &Value| match v {
        Value::Null => Scalar::Null,
        Value::String(s) => Scalar::Text(s.clone()),
        v => v.as_u64().map_or(Scalar::Other, Scalar::Number),
    };
    let row = |v: &Value| v.as_object().map(|o| o.iter().map(|(k, v)| (k.clone(), one(v))).collect());
    let value: Value = serde_json::from_str(text).map_err(|e| e.to_string())?;
    let list = value[rows].as_array().map(|a| a.iter().map(row).collect());
    Ok(Table { head: one(&value[head]), rows: list })
}

/// `serde_json::to_string_pretty` of an object with two members, in which no row
/// repeats a name. The text is a function of the table and the names, and `from_str`
/// reads the table back from it.
#[verifier::external_body]
fn to_json(table: &Table, head: &str, rows: &str) -> (r: String)
    requires
        plain_table(table@),
        table_named_once(*table),
        head@ != rows@,
    ensures
        r@ == json_printed(table@, head@, rows@),
        json_table(r@, head@, rows@) == holds(table@),
{
    let one = |s: &Scalar| match s {
        Scalar::Number(n) => Value::from(*n),
        Scalar::Text(s) => Value::from(s.as_str()),
        Scalar::Null | Scalar::Other => Value::Null,
    };
    let row = |r: &Option<Vec<(String, Scalar)>>| -> Value {
        r.iter().flatten().map(|(k, s)| (k.as_str(), one(s))).collect()
    };
    let list: Value = table.rows.iter().flatten().map(row).collect();
    let value: Value = [(head, one(&table.head)), (rows, list)].into_iter().collect();
    serde_json::to_string_pretty(&value).expect("a value of text keys is always JSON")
}

/// The table that JSON text holds.
pub fn parse(text: &str, head: &str, rows: &str) -> (r: Result<Table, String>)
    ensures
        parsed(r) == json_table(text@, head@, rows@),
{
    from_json(text, head, rows)
}

/// The JSON text of a table.
pub fn print(table: &Table, head: &str, rows: &str) -> (r: String)
    requires
        plain_table(table@),
        table_named_once(*table),
        head@ != rows@,
    ensures
        r@ == json_printed(table@, head@, rows@),
        json_table(r@, head@, rows@) == holds(table@),
{
    to_json(table, head, rows)
}

} // verus!
