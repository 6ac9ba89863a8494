//! Data rows: ordered maps from column names to values.
use indexmap::IndexMap;
use vstd::prelude::*;

verus! {

/// `indexmap::IndexMap`, carried through as it is.
#[verifier::external_type_specification]
#[verifier::external_body]
#[verifier::reject_recursive_types(K)]
#[verifier::reject_recursive_types(V)]
#[verifier::reject_recursive_types(S)]
pub struct ExIndexMap<K, V, S>(indexmap::IndexMap<K, V, S>);

/// One data row: column name to value.
pub type Row = IndexMap<String, String>;

/// The columns of a row with their values, in order.
pub uninterp spec fn cells(row: IndexMap<String, String>) -> Seq<(Seq<char>, Seq<char>)>;

/// The position of the first column with the given name at or after `from`.
pub open spec fn column(cells: Seq<(Seq<char>, Seq<char>)>, name: Seq<char>, from: int) -> Option<
    int,
>
    decreases cells.len() - from,
{
    if from < 0 || from >= cells.len() {
        None
    } else if cells[from].0 == name {
        Some(from)
    } else {
        column(cells, name, from + 1)
    }
}

/// The value in a column.
pub open spec fn cell(cells: Seq<(Seq<char>, Seq<char>)>, name: Seq<char>) -> Option<Seq<char>> {
    match column(cells, name, 0) {
        Some(i) => Some(cells[i].1),
        None => None,
    }
}

/// The cells with a value set in a column: in its place when the column is
/// there, at the end when it is new.
pub open spec fn with_cell(
    cells: Seq<(Seq<char>, Seq<char>)>,
    name: Seq<char>,
    value: Seq<char>,
) -> Seq<(Seq<char>, Seq<char>)> {
    match column(cells, name, 0) {
        Some(i) => cells.update(i, (name, value)),
        None => cells.push((name, value)),
    }
}

/// `IndexMap::new`: no cells.
#[verifier::external_body]
pub(crate) fn row_new() -> (row: Row)
    ensures
        cells(row) == Seq::<(Seq<char>, Seq<char>)>::empty(),
{
    IndexMap::new()
}

/// `IndexMap::insert`: a known key keeps its place and gets the new value, a new
/// key goes to the end.
#[verifier::external_body]
pub(crate) fn row_insert(row: &mut Row, name: String, value: String)
    ensures
        cells(*final(row)) == with_cell(cells(*old(row)), name@, value@),
{
    row.insert(name, value);
}

/// `IndexMap::get`: the value under the key, when it is there.
#[verifier::external_body]
pub(crate) fn row_get<'a>(row: &'a Row, name: &str) -> (r: Option<&'a String>)
    ensures
        match r {
            Some(v) => cell(cells(*row), name@) == Some(v@),
            None => cell(cells(*row), name@) is None,
        },
{
    row.get(name)
}

/// `IndexMap::clone`: the same cells in the same order.
#[verifier::external_body]
pub(crate) fn row_clone(row: &Row) -> (r: Row)
    ensures
        cells(r) == cells(*row),
{
    row.clone()
}

/// `IndexMap::iter`: every key with its value, in order.
#[verifier::external_body]
pub(crate) fn row_entries(row: &Row) -> (r: Vec<(String, String)>)
    ensures
        r.deep_view() == cells(*row),
{
    row.iter().map(|(k, v)| (k.clone(), v.clone())).collect()
}

/// The columns of a row all have different names.
pub open spec fn distinct_columns(cells: Seq<(Seq<char>, Seq<char>)>) -> bool {
    forall|i: int, j: int|
        0 <= i < j < cells.len() ==> (#[trigger] cells[i]).0 != (#[trigger] cells[j]).0
}

proof fn lemma_column(cells: Seq<(Seq<char>, Seq<char>)>, name: Seq<char>, from: int)
    requires
        0 <= from,
    ensures
        match column(cells, name, from) {
            Some(i) => from <= i < cells.len() && cells[i].0 == name && forall|k: int|
                from <= k < i ==> (#[trigger] cells[k]).0 != name,
            None => forall|k: int| from <= k < cells.len() ==> (#[trigger] cells[k]).0 != name,
        },
    decreases cells.len() - from,
{
    if from < cells.len() && cells[from].0 != name {
        lemma_column(cells, name, from + 1);
    }
}

/// Setting a cell keeps the columns' names different.
pub proof fn with_cell_keeps_columns_distinct(
    cells: Seq<(Seq<char>, Seq<char>)>,
    name: Seq<char>,
    value: Seq<char>,
)
    requires
        distinct_columns(cells),
    ensures
        distinct_columns(with_cell(cells, name, value)),
{
    lemma_column(cells, name, 0);
}

/// What was set in a column is read back from it, and the other columns keep
/// their values.
pub proof fn cell_reads_what_was_set(
    cells: Seq<(Seq<char>, Seq<char>)>,
    name: Seq<char>,
    value: Seq<char>,
    other: Seq<char>,
)
    ensures
        cell(with_cell(cells, name, value), name) == Some(value),
        other != name ==> cell(with_cell(cells, name, value), other) == cell(cells, other),
{
    let after = with_cell(cells, name, value);
    lemma_column(cells, name, 0);
    lemma_column(after, name, 0);
    lemma_column(cells, other, 0);
    lemma_column(after, other, 0);
    if let Some(i) = column(cells, name, 0) {
        assert(after[i].0 == name);
        assert(forall|k: int| 0 <= k < cells.len() ==> (#[trigger] after[k]).0 == cells[k].0);
        if let Some(k) = column(after, name, 0) {
            assert(cells[k].0 == name);
        }
    } else {
        assert(after.last().0 == name);
        assert(after[cells.len() as int].0 == name);
        assert(forall|k: int| 0 <= k < cells.len() ==> (#[trigger] after[k]) == cells[k]);
        if let Some(k) = column(after, name, 0) {
            if k < cells.len() {
                assert(cells[k].0 == name);
            }
        }
    }
    if other != name {
        if let Some(k) = column(cells, other, 0) {
            assert(after[k].0 == other);
        }
        if let Some(k) = column(after, other, 0) {
            assert(k < cells.len());
            assert(cells[k].0 == other);
        }
    }
}

} // verus!
