use vstd::prelude::*;
use vstd::string::*;
use crate::writer::{RowInsert, cell_model};

verus! {

/// Removes the translation-unit table of an earlier run.
pub const DROP_UNITS_TABLE: &'static str = "DROP TABLE IF EXISTS translation_units";

/// Creates the translation-unit table; language columns are added later.
pub const CREATE_UNITS_TABLE: &'static str =
    "CREATE TABLE IF NOT EXISTS translation_units (id INTEGER PRIMARY KEY, document_id INTEGER, sequential_number NUMBER)";

/// Creates the document table.
pub const CREATE_DOCUMENTS_TABLE: &'static str =
    "CREATE TABLE IF NOT EXISTS documents (id INTEGER PRIMARY KEY, name TEXT)";

/// Inserts a document row; the parameters are its id and its name.
pub const INSERT_DOCUMENT: &'static str = "INSERT INTO documents (id, name) VALUES (?, ?)";

/// `n` comma-separated placeholders: `?`, `?,?`, `?,?,?`, ...
pub open spec fn placeholders(n: nat) -> Seq<char>
    decreases n,
{
    if n <= 1 {
        "?"@
    } else {
        placeholders((n - 1) as nat) + ",?"@
    }
}

/// Names joined with commas.
pub open spec fn joined(names: Seq<Seq<char>>) -> Seq<char>
    decreases names.len(),
{
    if names.len() == 0 {
        Seq::empty()
    } else if names.len() == 1 {
        names[0]
    } else {
        joined(names.drop_last()) + ","@ + names.last()
    }
}

/// A comma-separated run of `count` placeholders.
pub fn repeat_vars(count: usize) -> (r: String)
    requires
        count > 0,
    ensures
        r@ == placeholders(count as nat),
{
    let mut r = String::from_str("?");
    let mut i: usize = 1;
    while i < count
        invariant
            1 <= i <= count,
            r@ == placeholders(i as nat),
        decreases count - i,
    {
        r.append(",?");
        i = i + 1;
    }
    r
}

/// The statement that adds a language column.
pub fn add_column_statement(column: &String) -> (r: String)
    ensures
        r@ == "ALTER TABLE translation_units ADD COLUMN "@ + column@,
{
    let mut r = String::from_str("ALTER TABLE translation_units ADD COLUMN ");
    r.append(column.as_str());
    r
}

/// The columns a row insert fills: its language columns, then the sequence
/// number and the document id.
pub open spec fn insert_columns(row: RowInsert) -> Seq<Seq<char>> {
    row.model().cells.map_values(|c: (Seq<char>, Seq<char>)| c.0) + seq!["sequential_number"@, "document_id"@]
}

/// The statement that inserts a row; its parameters are the row's texts in
/// order, then the sequence number and the document id.
pub fn insert_statement(row: &RowInsert) -> (r: String)
    requires
        row.cells@.len() + 2 <= usize::MAX,
    ensures
        r@ == "INSERT INTO translation_units ("@ + joined(insert_columns(*row)) + ") VALUES ("@
            + placeholders(insert_columns(*row).len()) + ");"@,
{
    let ghost cols = insert_columns(*row);
    let ghost cm = row.cells@.map_values(|c: (String, String)| cell_model(c));
    let mut names = String::new();
    let mut i: usize = 0;
    while i < row.cells.len()
        invariant
            i <= row.cells@.len(),
            cols == insert_columns(*row),
            cm == row.cells@.map_values(|c: (String, String)| cell_model(c)),
            cols.len() == row.cells@.len() + 2,
            names@ == joined(cols.subrange(0, i as int)),
        decreases row.cells@.len() - i,
    {
        assert(cols[i as int] == row.cells@[i as int].0@);
        assert(cols.subrange(0, i + 1).drop_last() =~= cols.subrange(0, i as int));
        if i > 0 {
            names.append(",");
        }
        names.append(row.cells[i].0.as_str());
        proof {
            if i == 0 {
                assert(names@ =~= joined(cols.subrange(0, 1)));
            } else {
                assert(names@ =~= joined(cols.subrange(0, i + 1)));
            }
        }
        i = i + 1;
    }
    let n = row.cells.len();
    assert(cols.subrange(0, n + 1).drop_last() =~= cols.subrange(0, n as int));
    assert(cols.subrange(0, n + 2).drop_last() =~= cols.subrange(0, n + 1));
    assert(cols.subrange(0, n + 2) =~= cols);
    if n > 0 {
        names.append(",");
    }
    names.append("sequential_number");
    proof {
        assert(cols[n as int] == "sequential_number"@);
        if n == 0 {
            assert(names@ =~= joined(cols.subrange(0, 1)));
        } else {
            assert(names@ =~= joined(cols.subrange(0, n + 1)));
        }
    }
    names.append(",");
    names.append("document_id");
    proof {
        assert(cols[n + 1] == "document_id"@);
        assert(cols.drop_last() =~= cols.subrange(0, n + 1));
        assert(names@ =~= joined(cols));
    }
    let mut r = String::from_str("INSERT INTO translation_units (");
    r.append(names.as_str());
    r.append(") VALUES (");
    let vars = repeat_vars(n + 2);
    r.append(vars.as_str());
    r.append(");");
    proof {
        assert(r@ =~= "INSERT INTO translation_units ("@ + joined(cols) + ") VALUES ("@ + placeholders(cols.len()) + ");"@);
    }
    r
}

} // verus!
