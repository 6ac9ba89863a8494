//! Data parameterization: CSV, JSON, inline and plugin-backed sources of rows,
//! with cursors shared by all virtual users or kept by each, and a choice of
//! what happens at the end of the data.
use crate::json::{self, Json, JsonView};
use crate::rows::{self, cells, with_cell, Row};
use crate::text;
use vstd::prelude::*;

verus! {

/// Whether all virtual users share one cursor or each keeps its own.
#[derive(Clone, Copy, Debug, PartialEq, Eq, Structural)]
pub enum DataMode {
    Shared,
    PerVu,
}

/// What happens behind the last row.
#[derive(Clone, Copy, Debug, PartialEq, Eq, Structural)]
pub enum OnEof {
    Recycle,
    Stop,
}

/// In what order rows are taken.
#[derive(Clone, Copy, Debug, PartialEq, Eq, Structural)]
pub enum PickStrategy {
    Sequential,
    Random,
    Shuffle,
}

/// A data source as a plan writes it. For a source in a file `raw` is what
/// reading the file gave: its bytes, or the message of why it could not be read.
#[derive(Debug)]
pub enum DataSource {
    Csv {
        raw: Result<Vec<u8>, String>,
        mode: DataMode,
        on_eof: OnEof,
        pick: PickStrategy,
        delimiter: Option<char>,
        has_header: bool,
    },
    Json { raw: Result<Vec<u8>, String>, mode: DataMode, on_eof: OnEof, pick: PickStrategy },
    Inline {
        rows: Vec<Vec<(String, Json)>>,
        mode: DataMode,
        on_eof: OnEof,
        pick: PickStrategy,
    },
    Plugin { source: String, config: Json },
}

/// Who asks for a row; only plugin-backed sources look at it.
#[derive(Clone, Copy)]
pub struct RowIdentity<'a> {
    pub vu: u64,
    /// Counted from 0.
    pub iteration: u64,
    pub scenario: &'a str,
    pub request: Option<&'a str>,
}

/// Everything that a plugin is told when it is asked for a row.
pub struct PluginRowCtx<'a> {
    pub source: &'a str,
    pub vu: u64,
    pub iteration: u64,
    /// How many rows this virtual user has asked of this source before.
    pub seq: u64,
    pub scenario: &'a str,
    pub request: Option<&'a str>,
    /// The wall clock, in milliseconds.
    pub ts_ms: u64,
}

/// What a plugin answers when it is asked for a row.
pub enum PluginRowResult {
    Row(Row),
    Exhausted,
}

/// A plugin that generates rows on demand.
pub trait DataSourcePlugin {
    /// What holds of a plugin that was set up with the configurations; a plugin may
    /// say what that is.
    open spec fn ready(&self, source_configs: Seq<(Seq<char>, JsonView)>) -> bool {
        true
    }

    /// A mark by which a plugin is told apart from others, if it chooses one.
    open spec fn mark(&self) -> int {
        0
    }

    /// With which messages a plugin can refuse to be set up with the configurations; a
    /// plugin may say which.
    open spec fn can_refuse(
        &self,
        source_configs: Seq<(Seq<char>, JsonView)>,
        message: Seq<char>,
    ) -> bool {
        true
    }

    /// Which replies a plugin can give when it is told this; a plugin may say which.
    open spec fn can_answer(
        &self,
        ctx: PluginRowCtx<'_>,
        reply: Result<PluginRowResult, String>,
    ) -> bool {
        true
    }

    /// Sets the plugin up before the first row is asked for, with the
    /// configuration of every source that it backs.
    fn init(&mut self, source_configs: &Vec<(String, Json)>) -> (r: Result<(), String>)
        ensures
            final(self).mark() == old(self).mark(),
            r is Ok ==> final(self).ready(json::member_meanings(source_configs@)),
            r is Err ==> old(self).can_refuse(
                json::member_meanings(source_configs@),
                r->Err_0@,
            ),
    ;

    /// Generates one row.
    fn next_row(&self, ctx: &PluginRowCtx<'_>) -> (r: Result<PluginRowResult, String>)
        ensures
            self.can_answer(*ctx, r),
    ;
}

/// A plugin under the name by which sources refer to it.
pub struct LoadedPlugin {
    pub name: String,
    pub plugin: Box<dyn DataSourcePlugin>,
}

/// Why the data sources could not be loaded.
#[derive(Debug)]
pub enum EngineError {
    Data { source_name: String, message: String },
}

impl EngineError {
    /// The source or plugin at fault, and the message.
    pub open spec fn about(&self) -> (Seq<char>, Seq<char>) {
        match self {
            EngineError::Data { source_name, message } => (source_name@, message@),
        }
    }
}

/// A source that is exhausted: the virtual user should retire.
#[derive(Debug)]
pub struct EndOfData(pub String);

/// Why there is no next row.
#[derive(Debug)]
pub enum NextRowError {
    UnknownSource(String),
    Exhausted(EndOfData),
    Plugin { source_name: String, message: String },
}

/// Why there is no next row, as text.
pub enum NextRowErrorView {
    UnknownSource(Seq<char>),
    Exhausted(Seq<char>),
    Plugin(Seq<char>, Seq<char>),
}

impl View for NextRowError {
    type V = NextRowErrorView;

    open spec fn view(&self) -> NextRowErrorView {
        match self {
            NextRowError::UnknownSource(s) => NextRowErrorView::UnknownSource(s@),
            NextRowError::Exhausted(e) => NextRowErrorView::Exhausted(e.0@),
            NextRowError::Plugin { source_name, message } => NextRowErrorView::Plugin(
                source_name@,
                message@,
            ),
        }
    }
}

impl NextRowError {
    /// The message shown for the error.
    pub fn message(&self) -> (out: String)
        ensures
            out@ == match self@ {
                NextRowErrorView::UnknownSource(s) => "unknown data source `"@ + s + "`"@,
                NextRowErrorView::Exhausted(s) => "data source `"@ + s + "` is exhausted"@,
                NextRowErrorView::Plugin(s, m) => "data source `"@ + s + "`: plugin error: "@ + m,
            },
    {
        match self {
            NextRowError::UnknownSource(s) => {
                let mut out = "unknown data source `".to_owned();
                out.append(s.as_str());
                out.append("`");
                out
            },
            NextRowError::Exhausted(e) => {
                let mut out = "data source `".to_owned();
                out.append(e.0.as_str());
                out.append("` is exhausted");
                out
            },
            NextRowError::Plugin { source_name, message } => {
                let mut out = "data source `".to_owned();
                out.append(source_name.as_str());
                out.append("`: plugin error: ");
                out.append(message.as_str());
                out
            },
        }
    }
}

/// The cells of each row.
pub open spec fn all_cells(rows: Seq<Row>) -> Seq<Seq<(Seq<char>, Seq<char>)>> {
    Seq::new(rows.len(), |i: int| cells(rows[i]))
}

/// The first `n` name and value pairs set one after the other, so that the last
/// value given for a name counts.
pub open spec fn cells_of(pairs: Seq<(Seq<char>, Seq<char>)>, n: int) -> Seq<
    (Seq<char>, Seq<char>),
>
    decreases n,
{
    if n <= 0 {
        Seq::empty()
    } else {
        with_cell(cells_of(pairs, n - 1), pairs[n - 1].0, pairs[n - 1].1)
    }
}

/// Setting pairs one after the other never names a column twice.
pub proof fn cells_have_distinct_columns(pairs: Seq<(Seq<char>, Seq<char>)>, n: int)
    ensures
        rows::distinct_columns(cells_of(pairs, n)),
    decreases n,
{
    if n > 0 {
        cells_have_distinct_columns(pairs, n - 1);
        rows::with_cell_keeps_columns_distinct(
            cells_of(pairs, n - 1),
            pairs[n - 1].0,
            pairs[n - 1].1,
        );
    }
}

/// What a JSON value looks like in a cell: a text itself, the compact JSON of
/// everything else.
pub open spec fn cell_text(v: JsonView) -> Seq<char> {
    match v {
        JsonView::Text(s) => s,
        _ => json::compact(v),
    }
}

/// Renders a JSON value for a cell.
pub fn json_to_string(v: &Json) -> (out: String)
    ensures
        out@ == cell_text(v@),
{
    match v {
        Json::Text(s) => s.clone(),
        _ => json::print(v),
    }
}

/// The members of an object as name and value pairs.
pub open spec fn member_pairs(members: Seq<(Seq<char>, JsonView)>) -> Seq<(Seq<char>, Seq<char>)> {
    Seq::new(members.len(), |i: int| (members[i].0, cell_text(members[i].1)))
}

fn row_of_members(members: &Vec<(String, Json)>) -> (row: Row)
    ensures
        cells(row) == cells_of(
            member_pairs(json::member_meanings(members@)),
            members@.len() as int,
        ),
{
    let mut row = rows::row_new();
    let ghost pairs = member_pairs(json::member_meanings(members@));
    let mut i: usize = 0;
    while i < members.len()
        invariant
            i <= members@.len(),
            pairs == member_pairs(json::member_meanings(members@)),
            cells(row) == cells_of(pairs, i as int),
        decreases members@.len() - i,
    {
        let value = json_to_string(&members[i].1);
        rows::row_insert(&mut row, members[i].0.clone(), value);
        i += 1;
    }
    row
}

/// The column that the field at position `i` belongs to: the header there, or
/// `col` and the position.
pub open spec fn column_name(headers: Seq<Seq<char>>, i: int) -> Seq<char> {
    if 0 <= i < headers.len() {
        headers[i]
    } else {
        "col"@ + text::decimal(i as nat)
    }
}

/// The fields of a record with their columns.
pub open spec fn record_pairs(headers: Seq<Seq<char>>, record: Seq<Seq<char>>) -> Seq<
    (Seq<char>, Seq<char>),
> {
    Seq::new(record.len(), |i: int| (column_name(headers, i), record[i]))
}

fn row_of_record(headers: &Vec<String>, record: &Vec<String>) -> (row: Row)
    ensures
        cells(row) == cells_of(
            record_pairs(headers.deep_view(), record.deep_view()),
            record@.len() as int,
        ),
{
    let mut row = rows::row_new();
    let ghost pairs = record_pairs(headers.deep_view(), record.deep_view());
    let mut i: usize = 0;
    while i < record.len()
        invariant
            i <= record@.len(),
            pairs == record_pairs(headers.deep_view(), record.deep_view()),
            cells(row) == cells_of(pairs, i as int),
        decreases record@.len() - i,
    {
        let name = if i < headers.len() {
            proof {
                assert(headers.deep_view()[i as int] == headers@[i as int]@);
            }
            headers[i].clone()
        } else {
            let n = text::usize_text(i);
            text::join("col", n.as_str())
        };
        proof {
            assert(record.deep_view()[i as int] == record@[i as int]@);
        }
        rows::row_insert(&mut row, name, record[i].clone());
        i += 1;
    }
    row
}

/// The header record that `csv::Reader::headers` reads, or the error's message.
pub uninterp spec fn csv_headers(raw: Seq<u8>, delimiter: u8) -> Result<Seq<Seq<char>>, Seq<char>>;

/// The records that `csv::Reader::records` yields, or the message of the first
/// error.
pub uninterp spec fn csv_records(raw: Seq<u8>, delimiter: u8, has_header: bool) -> Result<
    Seq<Seq<Seq<char>>>,
    Seq<char>,
>;

/// `csv::Reader::headers` of a reader with a header record; the format and the
/// messages are only named.
#[verifier::external_body]
fn read_csv_headers(raw: &[u8], delimiter: u8) -> (r: Result<Vec<String>, String>)
    ensures
        match r {
            Ok(h) => csv_headers(raw@, delimiter) == Ok::<Seq<Seq<char>>, Seq<char>>(h.deep_view()),
            Err(e) => csv_headers(raw@, delimiter) == Err::<Seq<Seq<char>>, Seq<char>>(e@),
        },
{
    let mut reader = csv::ReaderBuilder::new().has_headers(true).delimiter(delimiter).from_reader(raw);
    match reader.headers() {
        Ok(record) => Ok(record.iter().map(|f| f.to_string()).collect()),
        Err(e) => Err(e.to_string()),
    }
}

/// `csv::Reader::records`; the format and the messages are only named.
#[verifier::external_body]
fn read_csv_records(raw: &[u8], delimiter: u8, has_header: bool) -> (r: Result<
    Vec<Vec<String>>,
    String,
>)
    ensures
        match r {
            Ok(all) => csv_records(raw@, delimiter, has_header) == Ok::<
                Seq<Seq<Seq<char>>>,
                Seq<char>,
            >(all.deep_view()),
            Err(e) => csv_records(raw@, delimiter, has_header) == Err::<
                Seq<Seq<Seq<char>>>,
                Seq<char>,
            >(e@),
        },
{
    let mut reader = csv::ReaderBuilder::new().has_headers(has_header).delimiter(delimiter).from_reader(raw);
    let all: Result<Vec<Vec<String>>, csv::Error> = reader.records().map(
        |r| r.map(|record| record.iter().map(|f| f.to_string()).collect()),
    ).collect();
    all.map_err(|e| e.to_string())
}

/// The byte that separates fields: the given character cut to a byte, or a
/// comma.
pub open spec fn separator(delimiter: Option<char>) -> u8 {
    match delimiter {
        Some(c) => ((c as u32) % 256) as u8,
        None => 44,
    }
}

/// The rows of records.
pub open spec fn record_rows(headers: Seq<Seq<char>>, records: Seq<Seq<Seq<char>>>) -> Seq<
    Seq<(Seq<char>, Seq<char>)>,
> {
    Seq::new(
        records.len(),
        |i: int| cells_of(record_pairs(headers, records[i]), records[i].len() as int),
    )
}

/// The rows of a CSV file, or the message of why there are none.
pub open spec fn csv_rows(raw: Seq<u8>, delimiter: Option<char>, has_header: bool) -> Result<
    Seq<Seq<(Seq<char>, Seq<char>)>>,
    Seq<char>,
> {
    let headers = if has_header {
        csv_headers(raw, separator(delimiter))
    } else {
        Ok(Seq::empty())
    };
    match headers {
        Err(e) => Err(e),
        Ok(h) => match csv_records(raw, separator(delimiter), has_header) {
            Err(e) => Err(e),
            Ok(records) => if records.len() == 0 {
                Err("CSV has no data rows"@)
            } else {
                Ok(record_rows(h, records))
            },
        },
    }
}

/// The rows of the first `n` items of an array, which all have to be objects.
pub open spec fn object_rows(items: Seq<JsonView>, n: int) -> Option<
    Seq<Seq<(Seq<char>, Seq<char>)>>,
>
    decreases n,
{
    if n <= 0 {
        Some(Seq::empty())
    } else {
        match (object_rows(items, n - 1), items[n - 1]) {
            (Some(before), JsonView::Object(members)) => Some(
                before.push(cells_of(member_pairs(members), members.len() as int)),
            ),
            _ => None,
        }
    }
}

/// The rows of a JSON file, or the message of why there are none.
pub open spec fn json_rows(raw: Seq<u8>) -> Result<Seq<Seq<(Seq<char>, Seq<char>)>>, Seq<char>> {
    match json::parsed_bytes(raw) {
        Err(e) => Err("invalid JSON: "@ + e),
        Ok(JsonView::Array(items)) => match object_rows(items, items.len() as int) {
            None => Err("each JSON data row must be an object"@),
            Some(rows) => if rows.len() == 0 {
                Err("JSON data source is empty"@)
            } else {
                Ok(rows)
            },
        },
        Ok(_) => Err("JSON data source must be an array of objects"@),
    }
}

/// The rows of an inline source, or the message of why there are none.
pub open spec fn inline_rows(rows: Seq<Vec<(String, Json)>>) -> Result<
    Seq<Seq<(Seq<char>, Seq<char>)>>,
    Seq<char>,
> {
    if rows.len() == 0 {
        Err("inline data has no rows"@)
    } else {
        Ok(
            Seq::new(
                rows.len(),
                |i: int|
                    cells_of(
                        member_pairs(json::member_meanings(rows[i]@)),
                        rows[i]@.len() as int,
                    ),
            ),
        )
    }
}

/// How the rows of a source are handed out.
#[derive(Clone, Copy, Debug, PartialEq, Eq, Structural)]
pub struct Policy {
    pub mode: DataMode,
    pub on_eof: OnEof,
    pub pick: PickStrategy,
}

/// What a source hands out.
pub enum FeedView {
    /// Rows held in memory, and how they are handed out.
    Memory(Seq<Seq<(Seq<char>, Seq<char>)>>, Policy),
    /// Rows that the plugin at this position generates.
    Plugin(int),
}

impl DataSource {
    /// The rows that the source holds, or the message of why there are none; a
    /// plugin-backed source holds none.
    pub open spec fn rows(&self) -> Result<Seq<Seq<(Seq<char>, Seq<char>)>>, Seq<char>> {
        match self {
            DataSource::Csv { raw, delimiter, has_header, .. } => match raw {
                Ok(bytes) => csv_rows(bytes@, *delimiter, *has_header),
                Err(e) => Err(e@),
            },
            DataSource::Json { raw, .. } => match raw {
                Ok(bytes) => json_rows(bytes@),
                Err(e) => Err(e@),
            },
            DataSource::Inline { rows, .. } => inline_rows(rows@),
            DataSource::Plugin { .. } => Ok(Seq::empty()),
        }
    }

    /// How the source's rows are handed out.
    pub open spec fn policy(&self) -> Policy {
        match self {
            DataSource::Csv { mode, on_eof, pick, .. } => Policy {
                mode: *mode,
                on_eof: *on_eof,
                pick: *pick,
            },
            DataSource::Json { mode, on_eof, pick, .. } => Policy {
                mode: *mode,
                on_eof: *on_eof,
                pick: *pick,
            },
            DataSource::Inline { mode, on_eof, pick, .. } => Policy {
                mode: *mode,
                on_eof: *on_eof,
                pick: *pick,
            },
            DataSource::Plugin { .. } => Policy {
                mode: DataMode::Shared,
                on_eof: OnEof::Recycle,
                pick: PickStrategy::Sequential,
            },
        }
    }
}

pub(crate) fn load_csv(raw: &Vec<u8>, delimiter: Option<char>, has_header: bool) -> (r: Result<
    Vec<Row>,
    String,
>)
    ensures
        match r {
            Ok(rows) => csv_rows(raw@, delimiter, has_header) is Ok && all_cells(rows@)
                == csv_rows(raw@, delimiter, has_header)->Ok_0 && rows@.len() > 0,
            Err(e) => csv_rows(raw@, delimiter, has_header) is Err && e@ == csv_rows(
                raw@,
                delimiter,
                has_header,
            )->Err_0,
        },
{
    let d: u8 = match delimiter {
        Some(c) => ((c as u32) % 256) as u8,
        None => 44,
    };
    let headers: Vec<String> = if has_header {
        match read_csv_headers(raw.as_slice(), d) {
            Ok(h) => h,
            Err(e) => {
                return Err(e);
            },
        }
    } else {
        Vec::new()
    };
    let ghost h = headers.deep_view();
    proof {
        if !has_header {
            assert(h =~= Seq::<Seq<char>>::empty());
        }
    }
    let records = match read_csv_records(raw.as_slice(), d, has_header) {
        Ok(all) => all,
        Err(e) => {
            return Err(e);
        },
    };
    if records.len() == 0 {
        return Err("CSV has no data rows".to_owned());
    }
    let ghost wanted = record_rows(h, records.deep_view());
    let mut out: Vec<Row> = Vec::new();
    let mut i: usize = 0;
    while i < records.len()
        invariant
            i <= records@.len(),
            out@.len() == i,
            h == headers.deep_view(),
            wanted == record_rows(h, records.deep_view()),
            forall|k: int| 0 <= k < i ==> cells(#[trigger] out@[k]) == wanted[k],
        decreases records@.len() - i,
    {
        proof {
            assert(records.deep_view()[i as int] == records@[i as int].deep_view());
        }
        out.push(row_of_record(&headers, &records[i]));
        i += 1;
    }
    proof {
        assert(all_cells(out@) =~= wanted);
    }
    Ok(out)
}

proof fn lemma_object_rows(items: Seq<JsonView>, k: int, n: int)
    requires
        0 <= k <= n,
    ensures
        object_rows(items, k) is None ==> object_rows(items, n) is None,
        object_rows(items, n) is Some ==> object_rows(items, n)->Some_0.len() == n,
    decreases n,
{
    if k < n {
        lemma_object_rows(items, k, n - 1);
    } else if n > 0 {
        lemma_object_rows(items, k - 1, n - 1);
    }
}

pub(crate) fn load_json(raw: &Vec<u8>) -> (r: Result<Vec<Row>, String>)
    ensures
        match r {
            Ok(rows) => json_rows(raw@) is Ok && all_cells(rows@) == json_rows(raw@)->Ok_0
                && rows@.len() > 0,
            Err(e) => json_rows(raw@) is Err && e@ == json_rows(raw@)->Err_0,
        },
{
    broadcast use json::group_json;

    let document = match json::parse_bytes(raw.as_slice()) {
        Ok(j) => j,
        Err(e) => {
            return Err(text::join("invalid JSON: ", e.as_str()));
        },
    };
    let items = match document.as_array() {
        Some(items) => items,
        None => {
            return Err("JSON data source must be an array of objects".to_owned());
        },
    };
    let ghost views = json::meanings(items@);
    let mut out: Vec<Row> = Vec::new();
    let mut i: usize = 0;
    proof {
        assert(all_cells(out@) =~= Seq::<Seq<(Seq<char>, Seq<char>)>>::empty());
    }
    while i < items.len()
        invariant
            i <= items@.len(),
            document@ == JsonView::Array(views),
            json::parsed_bytes(raw@) == Ok::<JsonView, Seq<char>>(document@),
            views == json::meanings(items@),
            object_rows(views, i as int) == Some(all_cells(out@)),
        decreases items@.len() - i,
    {
        match items[i].as_object() {
            None => {
                proof {
                    lemma_object_rows(views, i + 1, views.len() as int);
                }
                return Err("each JSON data row must be an object".to_owned());
            },
            Some(members) => {
                let ghost before = all_cells(out@);
                let row = row_of_members(members);
                out.push(row);
                proof {
                    assert(all_cells(out@) =~= before.push(cells(row)));
                }
            },
        }
        i += 1;
    }
    proof {
        lemma_object_rows(views, 0, views.len() as int);
    }
    if out.len() == 0 {
        return Err("JSON data source is empty".to_owned());
    }
    Ok(out)
}

pub(crate) fn load_inline(source: &Vec<Vec<(String, Json)>>) -> (r: Result<Vec<Row>, String>)
    ensures
        match r {
            Ok(rows) => inline_rows(source@) is Ok && all_cells(rows@) == inline_rows(
                source@,
            )->Ok_0 && rows@.len() > 0,
            Err(e) => inline_rows(source@) is Err && e@ == inline_rows(source@)->Err_0,
        },
{
    if source.len() == 0 {
        return Err("inline data has no rows".to_owned());
    }
    let ghost wanted = inline_rows(source@)->Ok_0;
    let mut out: Vec<Row> = Vec::new();
    let mut i: usize = 0;
    while i < source.len()
        invariant
            i <= source@.len(),
            source@.len() > 0,
            out@.len() == i,
            wanted == inline_rows(source@)->Ok_0,
            forall|k: int| 0 <= k < i ==> cells(#[trigger] out@[k]) == wanted[k],
        decreases source@.len() - i,
    {
        out.push(row_of_members(&source[i]));
        i += 1;
    }
    proof {
        assert(all_cells(out@) =~= wanted);
    }
    Ok(out)
}

/// The sources that one plugin backs, with their configuration.
pub struct PluginGroup {
    pub plugin: String,
    pub configs: Vec<(String, Json)>,
}

/// A plugin's name and the sources it backs, with their configuration.
pub type GroupView = (Seq<char>, Seq<(Seq<char>, JsonView)>);

/// What groups of sources say.
pub open spec fn group_views(groups: Seq<PluginGroup>) -> Seq<GroupView> {
    Seq::new(groups.len(), |i: int| (groups[i].plugin@, json::member_meanings(groups[i].configs@)))
}

/// The position of the first group of the plugin at or after `from`.
pub open spec fn group_index(groups: Seq<GroupView>, plugin: Seq<char>, from: int) -> Option<int>
    decreases groups.len() - from,
{
    if from < 0 || from >= groups.len() {
        None
    } else if groups[from].0 == plugin {
        Some(from)
    } else {
        group_index(groups, plugin, from + 1)
    }
}

/// Members with a value under a key: in its place when the key is there, at the
/// end when it is new.
pub open spec fn with_member(
    members: Seq<(Seq<char>, JsonView)>,
    key: Seq<char>,
    value: JsonView,
) -> Seq<(Seq<char>, JsonView)> {
    match json::key_index(members, key, 0) {
        Some(i) => members.update(i, (key, value)),
        None => members.push((key, value)),
    }
}

/// The first `n` sources' plugin groups: one for each plugin, in the order in
/// which the plugins are first named, with every source that it backs.
pub open spec fn grouped(sources: Seq<(String, DataSource)>, n: int) -> Seq<GroupView>
    decreases n,
{
    if n <= 0 {
        Seq::empty()
    } else {
        let before = grouped(sources, n - 1);
        match sources[n - 1].1 {
            DataSource::Plugin { source, config } => match group_index(before, source@, 0) {
                Some(g) => before.update(
                    g,
                    (before[g].0, with_member(before[g].1, sources[n - 1].0@, config@)),
                ),
                None => before.push((source@, seq![(sources[n - 1].0@, config@)])),
            },
            _ => before,
        }
    }
}

fn find_group(groups: &Vec<PluginGroup>, plugin: &str) -> (r: Option<usize>)
    ensures
        match r {
            Some(i) => i < groups@.len() && group_index(group_views(groups@), plugin@, 0) == Some(
                i as int,
            ),
            None => group_index(group_views(groups@), plugin@, 0) is None,
        },
{
    let ghost views = group_views(groups@);
    let mut i: usize = 0;
    while i < groups.len()
        invariant
            i <= groups@.len(),
            views == group_views(groups@),
            group_index(views, plugin@, 0) == group_index(views, plugin@, i as int),
        decreases groups@.len() - i,
    {
        if text::same(groups[i].plugin.as_str(), plugin) {
            return Some(i);
        }
        i += 1;
    }
    None
}

fn put_member(members: &mut Vec<(String, Json)>, key: &str, value: Json)
    ensures
        json::member_meanings(final(members)@) == with_member(
            json::member_meanings(old(members)@),
            key@,
            value@,
        ),
{
    let ghost before = json::member_meanings(members@);
    match json::position(members, key) {
        Some(i) => {
            members[i] = (key.to_owned(), value);
            proof {
                assert(json::member_meanings(members@) =~= before.update(i as int, (key@, value@)));
            }
        },
        None => {
            members.push((key.to_owned(), value));
            proof {
                assert(json::member_meanings(members@) =~= before.push((key@, value@)));
            }
        },
    }
}

/// Groups the plugin-backed sources by plugin, so that each plugin is set up
/// once with all of its sources.
pub fn plugin_groups(sources: &Vec<(String, DataSource)>) -> (groups: Vec<PluginGroup>)
    ensures
        group_views(groups@) == grouped(sources@, sources@.len() as int),
{
    let mut groups: Vec<PluginGroup> = Vec::new();
    let mut i: usize = 0;
    proof {
        assert(group_views(groups@) =~= Seq::<GroupView>::empty());
    }
    while i < sources.len()
        invariant
            i <= sources@.len(),
            group_views(groups@) == grouped(sources@, i as int),
        decreases sources@.len() - i,
    {
        if let DataSource::Plugin { source, config } = &sources[i].1 {
            let ghost before = group_views(groups@);
            let copy = json::copy(config);
            match find_group(&groups, source.as_str()) {
                Some(g) => {
                    put_member(&mut groups[g].configs, sources[i].0.as_str(), copy);
                    proof {
                        assert(group_views(groups@) =~= before.update(
                            g as int,
                            (
                                before[g as int].0,
                                with_member(before[g as int].1, sources@[i as int].0@, config@),
                            ),
                        ));
                    }
                },
                None => {
                    let mut configs: Vec<(String, Json)> = Vec::new();
                    configs.push((sources[i].0.clone(), copy));
                    proof {
                        assert(json::member_meanings(configs@) =~= seq![
                            (sources@[i as int].0@, config@),
                        ]);
                    }
                    groups.push(PluginGroup { plugin: source.clone(), configs });
                    proof {
                        assert(group_views(groups@) =~= before.push(
                            (source@, seq![(sources@[i as int].0@, config@)]),
                        ));
                    }
                },
            }
        }
        i += 1;
    }
    groups
}

/// Whether a plugin of the given name is loaded.
pub open spec fn loaded_plugin(
    plugins: Seq<LoadedPlugin>,
    name: Seq<char>,
) -> bool {
    exists|i: int| 0 <= i < plugins.len() && (#[trigger] plugins[i]).name@ == name
}

/// The error for a plugin that is not loaded.
pub open spec fn missing_plugin(name: Seq<char>) -> (Seq<char>, Seq<char>) {
    (
        name,
        "plugin `"@ + name
            + "` is not loaded or does not provide the data_source capability"@,
    )
}

fn find_plugin(plugins: &Vec<LoadedPlugin>, name: &str) -> (r: Option<usize>)
    ensures
        match r {
            Some(i) => i < plugins@.len() && plugins@[i as int].name@ == name@,
            None => !loaded_plugin(plugins@, name@),
        },
{
    let mut i: usize = 0;
    while i < plugins.len()
        invariant
            i <= plugins@.len(),
            forall|k: int| 0 <= k < i ==> (#[trigger] plugins@[k]).name@ != name@,
        decreases plugins@.len() - i,
    {
        if text::same(plugins[i].name.as_str(), name) {
            return Some(i);
        }
        i += 1;
    }
    None
}

/// Whether no two groups name the same plugin.
pub open spec fn distinct_groups(groups: Seq<GroupView>) -> bool {
    forall|i: int, j: int|
        0 <= i < j < groups.len() ==> (#[trigger] groups[i]).0 != (#[trigger] groups[j]).0
}

proof fn lemma_group_index(groups: Seq<GroupView>, plugin: Seq<char>, from: int)
    requires
        0 <= from,
    ensures
        match group_index(groups, plugin, from) {
            Some(i) => from <= i < groups.len() && groups[i].0 == plugin,
            None => forall|k: int| from <= k < groups.len() ==> (#[trigger] groups[k]).0 != plugin,
        },
    decreases groups.len() - from,
{
    if from < groups.len() && groups[from].0 != plugin {
        lemma_group_index(groups, plugin, from + 1);
    }
}

/// Each plugin is set up at most once, and every plugin-backed source has its
/// plugin's group.
pub proof fn grouping_is_complete(sources: Seq<(String, DataSource)>, n: int)
    requires
        0 <= n <= sources.len(),
    ensures
        distinct_groups(grouped(sources, n)),
        forall|k: int|
            0 <= k < n && (#[trigger] sources[k]).1 is Plugin ==> group_index(
                grouped(sources, n),
                sources[k].1->Plugin_source@,
                0,
            ) is Some,
    decreases n,
{
    if n > 0 {
        grouping_is_complete(sources, n - 1);
        let before = grouped(sources, n - 1);
        let after = grouped(sources, n);
        if let DataSource::Plugin { source, config } = sources[n - 1].1 {
            lemma_group_index(before, source@, 0);
            assert forall|k: int| 0 <= k < n && (#[trigger] sources[k]).1 is Plugin implies group_index(
                after,
                sources[k].1->Plugin_source@,
                0,
            ) is Some by {
                let wanted = sources[k].1->Plugin_source@;
                lemma_group_index(after, wanted, 0);
                if k < n - 1 {
                    lemma_group_index(before, wanted, 0);
                    let g = group_index(before, wanted, 0)->Some_0;
                    assert(after[g].0 == wanted);
                } else {
                    match group_index(before, source@, 0) {
                        Some(g) => {
                            assert(after[g].0 == wanted);
                        },
                        None => {
                            assert(after[before.len() as int].0 == wanted);
                        },
                    }
                }
            }
        }
    }
}

/// Whether each plugin is the one that its group names, set up with the configuration
/// of every source that the group lists.
pub open spec fn all_ready(plugins: Seq<LoadedPlugin>, groups: Seq<GroupView>) -> bool {
    plugins.len() == groups.len() && forall|g: int|
        0 <= g < groups.len() ==> (#[trigger] plugins[g]).name@ == groups[g].0
            && plugins[g].plugin.ready(groups[g].1)
}

/// Whether a plugin is one of those given, under the same name.
pub open spec fn is_given(given: Seq<LoadedPlugin>, p: LoadedPlugin) -> bool {
    exists|i: int|
        0 <= i < given.len() && (#[trigger] given[i]).name@ == p.name@ && given[i].plugin.mark()
            == p.plugin.mark()
}

/// Whether each plugin is one of those given.
pub open spec fn all_given(given: Seq<LoadedPlugin>, plugins: Seq<LoadedPlugin>) -> bool {
    forall|g: int| 0 <= g < plugins.len() ==> is_given(given, #[trigger] plugins[g])
}

/// Whether the plugins of all groups are among those given and let themselves be set up.
pub open spec fn can_be_set_up(given: Seq<LoadedPlugin>, groups: Seq<GroupView>) -> bool {
    exists|plugins: Seq<LoadedPlugin>|
        all_ready(plugins, groups) && #[trigger] all_given(given, plugins)
}

/// Whether a given plugin of the group's name refuses to be set up with a message.
pub open spec fn refused(
    given: Seq<LoadedPlugin>,
    group: GroupView,
    message: Seq<char>,
) -> bool {
    exists|i: int|
        0 <= i < given.len() && (#[trigger] given[i]).name@ == group.0
            && given[i].plugin.can_refuse(group.1, message)
}

/// Whether setting up the plugin of one of the groups fails with an error: it is not
/// among those given, or it refuses. The plugins of the groups before it are given.
pub open spec fn setup_fails(
    given: Seq<LoadedPlugin>,
    groups: Seq<GroupView>,
    error: (Seq<char>, Seq<char>),
) -> bool {
    exists|g: int|
        #![trigger groups[g]]
        0 <= g < groups.len() && error.0 == groups[g].0 && (forall|k: int|
            0 <= k < g ==> loaded_plugin(given, (#[trigger] groups[k]).0)) && if loaded_plugin(
            given,
            groups[g].0,
        ) {
            refused(given, groups[g], error.1)
        } else {
            error == missing_plugin(groups[g].0)
        }
}

/// Sets up the plugin of each group, in order, with the group's configuration.
/// A plugin that is not loaded, or that refuses to be set up, ends it.
pub fn init_plugins(
    groups: &Vec<PluginGroup>,
    plugins: Vec<LoadedPlugin>,
) -> (r: Result<Vec<LoadedPlugin>, EngineError>)
    requires
        distinct_groups(group_views(groups@)),
    ensures
        match r {
            Ok(v) => v@.len() == groups@.len() && (forall|g: int|
                0 <= g < groups@.len() ==> loaded_plugin(plugins@, (#[trigger] groups@[g]).plugin@))
                && all_ready(v@, group_views(groups@)) && all_given(plugins@, v@),
            Err(e) => setup_fails(plugins@, group_views(groups@), e.about()),
        },
{
    let ghost given = plugins@;
    let ghost views = group_views(groups@);
    let mut pool = plugins;
    let mut out: Vec<LoadedPlugin> = Vec::new();
    let mut g: usize = 0;
    while g < groups.len()
        invariant
            g <= groups@.len(),
            out@.len() == g,
            given == plugins@,
            views == group_views(groups@),
            distinct_groups(views),
            forall|k: int|
                0 <= k < g ==> (#[trigger] out@[k]).name@ == views[k].0 && out@[k].plugin.ready(
                    views[k].1,
                ),
            forall|k: int| 0 <= k < g ==> loaded_plugin(given, (#[trigger] groups@[k]).plugin@),
            all_given(given, out@),
            forall|i: int| 0 <= i < pool@.len() ==> given.contains(#[trigger] pool@[i]),
            forall|i: int|
                #![trigger given[i]]
                0 <= i < given.len() && (forall|k: int|
                    0 <= k < g ==> (#[trigger] groups@[k]).plugin@ != given[i].name@)
                    ==> loaded_plugin(pool@, given[i].name@),
        decreases groups@.len() - g,
    {
        let name = &groups[g].plugin;
        proof {
            assert forall|k: int| 0 <= k < g implies (#[trigger] groups@[k]).plugin@ != name@ by {
                assert(views[k].0 != views[g as int].0);
            }
        }
        match find_plugin(&pool, name.as_str()) {
            None => {
                proof {
                    if loaded_plugin(given, name@) {
                        let i = choose|i: int| 0 <= i < given.len() && (#[trigger] given[i]).name@ == name@;
                        assert(loaded_plugin(pool@, given[i].name@));
                    }
                }
                let mut message = "plugin `".to_owned();
                message.append(name.as_str());
                message.append(
                    "` is not loaded or does not provide the data_source capability",
                );
                let e = EngineError::Data { source_name: name.clone(), message };
                proof {
                    assert(e.about() == missing_plugin(views[g as int].0));
                    assert forall|k: int| 0 <= k < g implies loaded_plugin(
                        given,
                        (#[trigger] views[k]).0,
                    ) by {
                        assert(loaded_plugin(given, groups@[k].plugin@));
                    }
                }
                return Err(e);
            },
            Some(i) => {
                let ghost before = pool@;
                let mut chosen = pool.remove(i);
                let ghost at = choose|at: int| 0 <= at < given.len() && given[at] == chosen;
                proof {
                    assert(given.contains(before[i as int]));
                    assert(given[at] == chosen);
                    assert(loaded_plugin(given, name@));
                    assert forall|k: int| 0 <= k < pool@.len() implies given.contains(
                        #[trigger] pool@[k],
                    ) by {
                        if k < i {
                            assert(pool@[k] == before[k]);
                        } else {
                            assert(pool@[k] == before[k + 1]);
                        }
                    }
                    assert forall|j: int|
                        #![trigger given[j]]
                        0 <= j < given.len() && (forall|k: int|
                            0 <= k < g + 1 ==> (#[trigger] groups@[k]).plugin@ != given[j].name@) implies loaded_plugin(
                        pool@,
                        given[j].name@,
                    ) by {
                        assert(groups@[g as int].plugin@ != given[j].name@);
                        let m = choose|m: int|
                            0 <= m < before.len() && (#[trigger] before[m]).name@ == given[j].name@;
                        assert(m != i);
                        if m < i {
                            assert(pool@[m] == before[m]);
                        } else {
                            assert(pool@[m - 1] == before[m]);
                        }
                    }
                }
                match chosen.plugin.init(&groups[g].configs) {
                    Ok(_) => {},
                    Err(message) => {
                        let e = EngineError::Data { source_name: name.clone(), message };
                        proof {
                            assert(refused(given, views[g as int], message@));
                            assert forall|k: int| 0 <= k < g implies loaded_plugin(
                                given,
                                (#[trigger] views[k]).0,
                            ) by {
                                assert(loaded_plugin(given, groups@[k].plugin@));
                            }
                        }
                        return Err(e);
                    },
                }
                proof {
                    assert(is_given(given, chosen));
                }
                out.push(chosen);
            },
        }
        g += 1;
    }
    Ok(out)
}

/// Each pair sets the column it names, over earlier pairs of that name, and no other.
pub proof fn pairs_set_their_columns(pairs: Seq<(Seq<char>, Seq<char>)>, n: int, name: Seq<char>)
    requires
        0 < n <= pairs.len(),
    ensures
        cells_of(pairs, 0).len() == 0,
        pairs[n - 1].0 == name ==> rows::cell(cells_of(pairs, n), name) == Some(pairs[n - 1].1),
        pairs[n - 1].0 != name ==> rows::cell(cells_of(pairs, n), name) == rows::cell(
            cells_of(pairs, n - 1),
            name,
        ),
{
    rows::cell_reads_what_was_set(
        cells_of(pairs, n - 1),
        pairs[n - 1].0,
        pairs[n - 1].1,
        name,
    );
}

proof fn lemma_last_pair_stays(
    pairs: Seq<(Seq<char>, Seq<char>)>,
    n: int,
    k: int,
)
    requires
        0 <= k < n <= pairs.len(),
        forall|j: int| k < j < n ==> (#[trigger] pairs[j]).0 != pairs[k].0,
    ensures
        rows::cell(cells_of(pairs, n), pairs[k].0) == Some(pairs[k].1),
    decreases n,
{
    pairs_set_their_columns(pairs, n, pairs[k].0);
    if k < n - 1 {
        assert(pairs[n - 1].0 != pairs[k].0);
        lemma_last_pair_stays(pairs, n - 1, k);
    }
}

/// The values of a record stand in the columns that the header names, one for one, and
/// those past the header in columns that go by their number.
pub proof fn a_record_fills_its_columns(headers: Seq<Seq<char>>, record: Seq<Seq<char>>, k: int)
    requires
        0 <= k < record.len(),
    ensures
        k < headers.len() && record.len() <= headers.len() && headers.no_duplicates() ==> rows::cell(
            cells_of(record_pairs(headers, record), record.len() as int),
            headers[k],
        ) == Some(record[k]),
        k >= headers.len() ==> column_name(headers, k) == seq!['c', 'o', 'l'] + text::decimal(
            k as nat,
        ),
        record_pairs(headers, record)[k] == (column_name(headers, k), record[k]),
{
    reveal_strlit("col");
    assert("col"@ =~= seq!['c', 'o', 'l']);
    if k < headers.len() && record.len() <= headers.len() && headers.no_duplicates() {
        let pairs = record_pairs(headers, record);
        assert forall|j: int| k < j < record.len() implies (#[trigger] pairs[j]).0
            != pairs[k].0 by {
            assert(headers[j] != headers[k]);
        }
        lemma_last_pair_stays(pairs, record.len() as int, k);
    }
}

/// A table has one row for each record, in their order, with the first line as header
/// where there is one; it is refused without records and where reading fails.
pub proof fn tables_have_a_row_for_each_record(
    raw: Seq<u8>,
    delimiter: Option<char>,
    has_header: bool,
    headers: Seq<Seq<char>>,
    records: Seq<Seq<Seq<char>>>,
    k: int,
)
    requires
        has_header ==> csv_headers(raw, separator(delimiter)) == Ok::<Seq<Seq<char>>, Seq<char>>(
            headers,
        ),
        !has_header ==> headers.len() == 0,
        csv_records(raw, separator(delimiter), has_header) == Ok::<
            Seq<Seq<Seq<char>>>,
            Seq<char>,
        >(records),
    ensures
        csv_rows(raw, delimiter, has_header) is Err <==> records.len() == 0,
        records.len() > 0 ==> csv_rows(raw, delimiter, has_header)->Ok_0.len() == records.len(),
        0 <= k < records.len() ==> csv_rows(raw, delimiter, has_header)->Ok_0[k] == cells_of(
            record_pairs(headers, records[k]),
            records[k].len() as int,
        ),
{
    if !has_header {
        assert(headers =~= Seq::empty());
    }
}

/// Values are separated by commas unless another character is named.
pub proof fn commas_separate_unless_told(c: char)
    ensures
        separator(None) == ',' as u8,
        (c as u32) < 256 ==> separator(Some(c)) as u32 == c as u32,
{
}

/// A table in JSON has one row for each object, in their order: each member in the
/// column of its key, texts as they are and everything else written out. It is refused
/// when it is no list, when it is empty and when one of its items is no object.
pub proof fn objects_become_rows(raw: Seq<u8>, items: Seq<JsonView>, k: int)
    requires
        json::parsed_bytes(raw) == Ok::<JsonView, Seq<char>>(JsonView::Array(items)),
    ensures
        json_rows(raw) is Ok <==> items.len() > 0 && forall|i: int|
            0 <= i < items.len() ==> (#[trigger] items[i]) is Object,
        json_rows(raw) is Ok ==> json_rows(raw)->Ok_0.len() == items.len(),
        json_rows(raw) is Ok && 0 <= k < items.len() ==> json_rows(raw)->Ok_0[k] == cells_of(
            member_pairs(items[k]->Object_0),
            items[k]->Object_0.len() as int,
        ),
{
    lemma_rows_of_objects(items, items.len() as int);
}

proof fn lemma_rows_of_objects(items: Seq<JsonView>, n: int)
    requires
        0 <= n <= items.len(),
    ensures
        match object_rows(items, n) {
            Some(rows) => rows.len() == n && forall|i: int|
                0 <= i < n ==> (#[trigger] items[i]) is Object && rows[i] == cells_of(
                    member_pairs(items[i]->Object_0),
                    items[i]->Object_0.len() as int,
                ),
            None => exists|i: int| 0 <= i < n && !((#[trigger] items[i]) is Object),
        },
    decreases n,
{
    if n > 0 {
        lemma_rows_of_objects(items, n - 1);
    }
}

/// What a member puts into its column: a text as it is, everything else as JSON.
pub proof fn members_are_written_into_columns(
    members: Seq<(Seq<char>, JsonView)>,
    k: int,
    s: Seq<char>,
)
    requires
        0 <= k < members.len(),
    ensures
        member_pairs(members).len() == members.len(),
        member_pairs(members)[k].0 == members[k].0,
        members[k].1 == JsonView::Text(s) ==> member_pairs(members)[k].1 == s,
        !(members[k].1 is Text) ==> member_pairs(members)[k].1 == json::compact(members[k].1),
{
}

/// Rows written into the plan are the rows of the source, in their order; a source
/// without any is refused.
pub proof fn inline_rows_are_as_written(rows: Seq<Vec<(String, Json)>>, k: int)
    ensures
        inline_rows(rows) is Err <==> rows.len() == 0,
        rows.len() > 0 ==> inline_rows(rows)->Ok_0.len() == rows.len(),
        0 <= k < rows.len() ==> inline_rows(rows)->Ok_0[k] == cells_of(
            member_pairs(json::member_meanings(rows[k]@)),
            rows[k]@.len() as int,
        ),
{
}

/// A source is read by its kind, and one that cannot be read fails with the reason.
pub proof fn sources_are_read_by_their_kind(source: DataSource)
    ensures
        source is Csv && source->Csv_raw is Ok ==> source.rows() == csv_rows(
            source->Csv_raw->Ok_0@,
            source->delimiter,
            source->has_header,
        ),
        source is Csv && source->Csv_raw is Err ==> source.rows() is Err && source.rows()->Err_0
            == source->Csv_raw->Err_0@,
        source is Json && source->Json_raw is Ok ==> source.rows() == json_rows(
            source->Json_raw->Ok_0@,
        ),
        source is Json && source->Json_raw is Err ==> source.rows() is Err && source.rows()->Err_0
            == source->Json_raw->Err_0@,
        source is Inline ==> source.rows() == inline_rows(source->rows@),
        source is Csv ==> source.policy().mode == source->Csv_mode && source.policy().on_eof
            == source->Csv_on_eof && source.policy().pick == source->Csv_pick,
        source is Json ==> source.policy().mode == source->Json_mode && source.policy().on_eof
            == source->Json_on_eof && source.policy().pick == source->Json_pick,
        source is Inline ==> source.policy().mode == source->Inline_mode && source.policy().on_eof
            == source->Inline_on_eof && source.policy().pick == source->Inline_pick,
{
}

/// A source that a plugin provides is listed with its configuration under that plugin,
/// beside the others of the plugin; other sources are listed nowhere.
pub proof fn sources_are_listed_under_their_plugin(
    sources: Seq<(String, DataSource)>,
    n: int,
    plugin: Seq<char>,
    key: Seq<char>,
)
    requires
        0 < n <= sources.len(),
    ensures
        grouped(sources, 0).len() == 0,
        !(sources[n - 1].1 is Plugin) ==> grouped(sources, n) == grouped(sources, n - 1),
        sources[n - 1].1 is Plugin && sources[n - 1].1->Plugin_source@ == plugin
            ==> json::member(configs_of(grouped(sources, n), plugin), sources[n - 1].0@) == Some(
            sources[n - 1].1->config@,
        ),
        sources[n - 1].1 is Plugin && sources[n - 1].1->Plugin_source@ == plugin && key
            != sources[n - 1].0@ ==> json::member(configs_of(grouped(sources, n), plugin), key)
            == json::member(configs_of(grouped(sources, n - 1), plugin), key),
        sources[n - 1].1 is Plugin && sources[n - 1].1->Plugin_source@ != plugin ==> configs_of(
            grouped(sources, n),
            plugin,
        ) == configs_of(grouped(sources, n - 1), plugin),
{
    let before = grouped(sources, n - 1);
    let after = grouped(sources, n);
    grouping_is_complete(sources, n - 1);
    grouping_is_complete(sources, n);
    lemma_group_index(before, plugin, 0);
    lemma_group_index(after, plugin, 0);
    if sources[n - 1].1 is Plugin {
        let own = sources[n - 1].1->Plugin_source@;
        let name = sources[n - 1].0@;
        let config = sources[n - 1].1->config@;
        lemma_group_index(before, own, 0);
        match group_index(before, own, 0) {
            Some(g) => {
                assert(after[g].0 == own);
                lemma_set_member(before[g].1, name, config, name);
                lemma_set_member(before[g].1, name, config, key);
                if own != plugin {
                    if let Some(h) = group_index(before, plugin, 0) {
                        assert(after[h] == before[h]);
                    }
                    if let Some(h) = group_index(after, plugin, 0) {
                        assert(after[h] == before[h]);
                    }
                }
            },
            None => {
                let last = before.len() as int;
                assert(after[last] == (own, seq![(name, config)]));
                lemma_set_member(Seq::empty(), name, config, name);
                lemma_set_member(Seq::empty(), name, config, key);
                json::lemma_key_index(Seq::<(Seq<char>, JsonView)>::empty(), name, 0);
                assert(Seq::empty().push((name, config)) =~= seq![(name, config)]);
                if own != plugin {
                    if let Some(h) = group_index(before, plugin, 0) {
                        assert(after[h] == before[h]);
                    }
                    if let Some(h) = group_index(after, plugin, 0) {
                        assert(h != last);
                        assert(after[h] == before[h]);
                    }
                }
            },
        }
    }
}

/// The configurations of a plugin's sources, by the names of the sources.
pub open spec fn configs_of(groups: Seq<GroupView>, plugin: Seq<char>) -> Seq<
    (Seq<char>, JsonView),
> {
    match group_index(groups, plugin, 0) {
        Some(g) => groups[g].1,
        None => Seq::empty(),
    }
}

proof fn lemma_set_member(
    members: Seq<(Seq<char>, JsonView)>,
    name: Seq<char>,
    value: JsonView,
    key: Seq<char>,
)
    ensures
        json::member(with_member(members, name, value), key) == if key == name {
            Some(value)
        } else {
            json::member(members, key)
        },
{
    let after = with_member(members, name, value);
    json::lemma_key_index(members, name, 0);
    json::lemma_key_index(members, key, 0);
    json::lemma_key_index(after, key, 0);
    if let Some(i) = json::key_index(members, name, 0) {
        assert(forall|k: int| 0 <= k < members.len() ==> (#[trigger] after[k]).0 == members[k].0);
        assert(after[i] == (name, value));
        if let Some(k) = json::key_index(after, key, 0) {
            assert(members[k].0 == key);
        }
        if let Some(k) = json::key_index(members, key, 0) {
            assert(after[k].0 == key);
        }
    } else {
        assert(after[members.len() as int] == (name, value));
        assert(forall|k: int| 0 <= k < members.len() ==> (#[trigger] after[k]) == members[k]);
        if let Some(k) = json::key_index(members, key, 0) {
            assert(after[k].0 == key);
        }
        if let Some(k) = json::key_index(after, key, 0) {
            if k < members.len() {
                assert(members[k].0 == key);
            }
        }
    }
}

} // verus!
