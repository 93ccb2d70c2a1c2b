//! The JSON output of an execution: its metadata and its result sets.  Writing
//! the file (serialization, locking, atomic rename) happens at the edge of the
//! program; this module builds the document that is written.

use vstd::prelude::*;
use crate::database::{cell_doc, concat_text, ColumnInfo, JsonValue, QueryResults, ResultSet, ResultSetBuilder};
use crate::json_doc::{keys_unique, member_views, members_map, object_insert, JsonDoc, JsonDocView};
use crate::trusted::{io_error_text, io_text_reported, json_error_text, json_error_text_reported};

verus! {

/// Errors of writing the JSON output.
#[derive(Debug)]
pub enum JsonWriterError {
    /// A file system error.
    IoError(std::io::Error),
    /// Serializing the document failed.
    SerializationError(serde_json::Error),
    /// The file lock could not be taken.
    LockError(String),
    /// The atomic replacement of the output file failed.
    AtomicWriteError(String),
}

impl From<std::io::Error> for JsonWriterError {
    fn from(e: std::io::Error) -> (r: Self) {
        JsonWriterError::IoError(e)
    }
}

impl vstd::std_specs::convert::FromSpecImpl<std::io::Error> for JsonWriterError {
    open spec fn obeys_from_spec() -> bool {
        true
    }

    open spec fn from_spec(e: std::io::Error) -> Self {
        JsonWriterError::IoError(e)
    }
}

impl From<serde_json::Error> for JsonWriterError {
    fn from(e: serde_json::Error) -> (r: Self) {
        JsonWriterError::SerializationError(e)
    }
}

impl vstd::std_specs::convert::FromSpecImpl<serde_json::Error> for JsonWriterError {
    open spec fn obeys_from_spec() -> bool {
        true
    }

    open spec fn from_spec(e: serde_json::Error) -> Self {
        JsonWriterError::SerializationError(e)
    }
}

/// `t` is the display text of `e`: a prefix naming the kind of error followed
/// by its detail (for file system and serialization errors, a text the
/// underlying error gave).
pub open spec fn json_writer_error_text(e: JsonWriterError, t: Seq<char>) -> bool {
    match e {
        JsonWriterError::IoError(e) => exists|d: Seq<char>| io_text_reported(e, d) && t == "IO 错误: "@ + d,
        JsonWriterError::SerializationError(e) => exists|d: Seq<char>|
            json_error_text_reported(e, d) && t == "序列化错误: "@ + d,
        JsonWriterError::LockError(s) => t == "获取文件锁失败: "@ + s@,
        JsonWriterError::AtomicWriteError(s) => t == "原子写入失败: "@ + s@,
    }
}

impl JsonWriterError {
    /// The display text of the error.
    pub fn to_string(&self) -> (r: String)
        ensures
            json_writer_error_text(*self, r@),
    {
        match self {
            JsonWriterError::IoError(e) => {
                let detail = io_error_text(e);
                let r = concat_text("IO 错误: ", detail.as_str());
                assert(io_text_reported(*e, detail@) && r@ == "IO 错误: "@ + detail@);
                r
            },
            JsonWriterError::SerializationError(e) => {
                let detail = json_error_text(e);
                let r = concat_text("序列化错误: ", detail.as_str());
                assert(json_error_text_reported(*e, detail@) && r@ == "序列化错误: "@ + detail@);
                r
            },
            JsonWriterError::LockError(s) => concat_text("获取文件锁失败: ", s.as_str()),
            JsonWriterError::AtomicWriteError(s) => concat_text("原子写入失败: ", s.as_str()),
        }
    }
}

/// A UTC instant: seconds since the Unix epoch and the nanoseconds within
/// the second.
#[derive(Debug, Clone, Copy, PartialEq, Eq)]
pub struct Timestamp {
    pub seconds: i64,
    pub nanos: u32,
}

/// Execution metadata of an output document.
#[derive(Debug, Clone)]
pub struct JsonMetadata {
    /// When the document was produced.
    pub execution_time: Timestamp,
    /// The MySQL server version.
    pub mysql_version: Option<String>,
    /// Number of result sets.
    pub total_result_sets: usize,
    /// The SQL file executed.
    pub source_file: String,
    /// How long the execution took, in milliseconds.
    pub execution_duration_ms: u64,
    /// Rows affected, over all result sets.
    pub total_affected_rows: u64,
    /// Rows written, over all result sets.
    pub total_rows: usize,
}

/// Column metadata in an output document.
#[derive(Debug, Clone)]
pub struct JsonColumnInfo {
    /// Column name.
    pub name: String,
    /// MySQL data type.
    pub data_type: String,
}

/// A result set in an output document.
#[derive(Debug)]
pub struct JsonResultSet {
    /// Position of the result set, from 0.
    pub index: usize,
    /// Column metadata.
    pub columns: Vec<JsonColumnInfo>,
    /// The rows, each an object from column name to cell.
    pub rows: Vec<Vec<(String, JsonDoc)>>,
    /// Number of rows written.
    pub row_count: usize,
    /// Rows affected by the statement.
    pub affected_rows: u64,
    /// Whether rows were dropped at the streaming threshold.
    pub truncated: bool,
    /// Rows delivered before truncation; present only when truncated.
    pub total_rows: Option<usize>,
}

/// A complete output document.
#[derive(Debug)]
pub struct JsonOutput {
    /// Execution metadata.
    pub metadata: JsonMetadata,
    /// The result sets.
    pub result_sets: Vec<JsonResultSet>,
}

/// Turns query results into output documents.
pub struct JsonWriter;

/// The cells of a row paired with their column names, in column order: one
/// per column that the row has a cell for.
pub open spec fn row_pairs(row: Seq<JsonValue>, columns: Seq<ColumnInfo>) -> Seq<(Seq<char>, JsonDocView)> {
    let n = if row.len() < columns.len() { row.len() } else { columns.len() };
    Seq::new(n, |i: int| (columns[i].name@, cell_doc(row[i]@)))
}

/// The object for a row: from column name to cell, where a later column with
/// the same name replaces an earlier one.
pub open spec fn row_object(row: Seq<JsonValue>, columns: Seq<ColumnInfo>) -> Map<Seq<char>, JsonDocView> {
    members_map(row_pairs(row, columns))
}

/// `members` are the members of the object for `row`: each name once.
pub open spec fn is_row_object(members: Seq<(String, JsonDoc)>, row: Seq<JsonValue>, columns: Seq<ColumnInfo>) -> bool {
    &&& keys_unique(member_views(members))
    &&& members_map(member_views(members)) == row_object(row, columns)
}

/// Every byte string in the result set fits in memory.
pub open spec fn result_set_bytes_fit(rs: ResultSet) -> bool {
    forall|i: int, j: int|
        0 <= i < rs.rows@.len() && 0 <= j < rs.rows@[i]@.len() ==> (#[trigger] rs.rows@[i]@[j]).bytes_fit()
}

/// `out` is the output form of the result set `rs` at position `index`.
pub open spec fn converted_result_set(index: usize, rs: ResultSet, out: JsonResultSet) -> bool {
    &&& out.index == index
    &&& out.columns@.len() == rs.columns@.len()
    &&& forall|k: int|
        0 <= k < rs.columns@.len() ==> (#[trigger] out.columns@[k]).name@ == rs.columns@[k].name@
            && out.columns@[k].data_type@ == rs.columns@[k].column_type@
    &&& out.rows@.len() == rs.rows@.len()
    &&& forall|i: int|
        0 <= i < rs.rows@.len() ==> is_row_object((#[trigger] out.rows@[i])@, rs.rows@[i]@, rs.columns@)
    &&& out.row_count == rs.rows@.len()
    &&& out.affected_rows == rs.affected_rows
    &&& out.truncated == rs.truncated
    &&& out.total_rows == if rs.truncated { Some(rs.total_rows) } else { None }
}

/// The results can be written: their byte strings fit in memory and their
/// totals fit the integer types of the metadata.
pub open spec fn output_fits(results: QueryResults) -> bool {
    &&& forall|i: int| 0 <= i < results.result_sets@.len() ==> result_set_bytes_fit(#[trigger] results.result_sets@[i])
    &&& sum_affected(results.result_sets@) <= u64::MAX
    &&& sum_rows(results.result_sets@) <= usize::MAX
}

/// `r` is the output document for `results`: every result set converted at
/// its position, and metadata naming the source file, the execution's
/// duration, the server version, the number of result sets and the totals of
/// affected and kept rows.
pub open spec fn is_output_for(results: QueryResults, source_file: Seq<char>, execution_duration_ms: u64, r: JsonOutput) -> bool {
    &&& r.result_sets@.len() == results.result_sets@.len()
    &&& forall|i: int|
        0 <= i < results.result_sets@.len() ==> converted_result_set(
            i as usize,
            results.result_sets@[i],
            #[trigger] r.result_sets@[i],
        )
    &&& r.metadata.mysql_version == results.mysql_version
    &&& r.metadata.total_result_sets == results.result_sets@.len()
    &&& r.metadata.source_file@ == source_file
    &&& r.metadata.execution_duration_ms == execution_duration_ms
    &&& r.metadata.total_affected_rows == sum_affected(results.result_sets@)
    &&& r.metadata.total_rows == sum_rows(results.result_sets@)
}

/// Sum of the affected rows of the result sets.
pub open spec fn sum_affected(sets: Seq<ResultSet>) -> nat
    decreases sets.len(),
{
    if sets.len() == 0 {
        0
    } else {
        sum_affected(sets.drop_last()) + (sets.last().affected_rows as nat)
    }
}

/// Sum of the numbers of rows kept in the result sets.
pub open spec fn sum_rows(sets: Seq<ResultSet>) -> nat
    decreases sets.len(),
{
    if sets.len() == 0 {
        0
    } else {
        sum_rows(sets.drop_last()) + sets.last().rows@.len()
    }
}

impl JsonWriter {
    fn convert_row(row: &Vec<JsonValue>, columns: &Vec<ColumnInfo>) -> (r: Vec<(String, JsonDoc)>)
        requires
            forall|j: int| 0 <= j < row@.len() ==> (#[trigger] row@[j]).bytes_fit(),
        ensures
            is_row_object(r@, row@, columns@),
    {
        let ghost pairs = row_pairs(row@, columns@);
        let mut members: Vec<(String, JsonDoc)> = Vec::new();
        let n = if row.len() < columns.len() { row.len() } else { columns.len() };
        let mut idx: usize = 0;
        assert(pairs.take(0) =~= Seq::<(Seq<char>, JsonDocView)>::empty());
        assert(member_views(members@) =~= Seq::<(Seq<char>, JsonDocView)>::empty());
        while idx < n
            invariant
                n == pairs.len(),
                n <= row@.len(),
                n <= columns@.len(),
                pairs == row_pairs(row@, columns@),
                forall|j: int| 0 <= j < row@.len() ==> (#[trigger] row@[j]).bytes_fit(),
                idx <= n,
                keys_unique(member_views(members@)),
                members_map(member_views(members@)) == members_map(pairs.take(idx as int)),
            decreases n - idx,
        {
            let name = columns[idx].name.clone();
            let doc = row[idx].to_serde_value();
            object_insert(&mut members, name, doc);
            assert(pairs.take(idx + 1).drop_last() =~= pairs.take(idx as int));
            idx = idx + 1;
        }
        assert(pairs.take(n as int) =~= pairs);
        members
    }

    /// The output form of the result set `rs` at position `index`: column
    /// names and types, each row as an object from column name to cell, and the
    /// total row count when the result set was truncated.
    pub fn convert_result_set(index: usize, rs: &ResultSet) -> (r: JsonResultSet)
        requires
            result_set_bytes_fit(*rs),
        ensures
            converted_result_set(index, *rs, r),
    {
        let mut columns: Vec<JsonColumnInfo> = Vec::new();
        let nc = rs.columns.len();
        let mut k: usize = 0;
        while k < nc
            invariant
                nc == rs.columns@.len(),
                k <= nc,
                columns@.len() == k,
                forall|m: int|
                    0 <= m < k ==> (#[trigger] columns@[m]).name@ == rs.columns@[m].name@
                        && columns@[m].data_type@ == rs.columns@[m].column_type@,
            decreases nc - k,
        {
            columns.push(JsonColumnInfo {
                name: rs.columns[k].name.clone(),
                data_type: rs.columns[k].column_type.clone(),
            });
            k = k + 1;
        }
        let mut rows: Vec<Vec<(String, JsonDoc)>> = Vec::new();
        let nr = rs.rows.len();
        let mut i: usize = 0;
        while i < nr
            invariant
                nr == rs.rows@.len(),
                result_set_bytes_fit(*rs),
                i <= nr,
                rows@.len() == i,
                forall|m: int| 0 <= m < i ==> is_row_object((#[trigger] rows@[m])@, rs.rows@[m]@, rs.columns@),
            decreases nr - i,
        {
            assert forall|j: int| 0 <= j < rs.rows@[i as int]@.len() implies (#[trigger] rs.rows@[i as int]@[j]).bytes_fit() by {
            }
            rows.push(Self::convert_row(&rs.rows[i], &rs.columns));
            i = i + 1;
        }
        let row_count = rows.len();
        JsonResultSet {
            index,
            columns,
            rows,
            row_count,
            affected_rows: rs.affected_rows,
            truncated: rs.truncated,
            total_rows: if rs.truncated { Some(rs.total_rows) } else { None },
        }
    }

    /// The output document for `results`, stamped with `execution_time`:
    /// every result set converted at its position, and metadata with the
    /// totals of affected and kept rows.
    pub fn convert_to_json_output(
        results: &QueryResults,
        source_file: &str,
        execution_duration_ms: u64,
        execution_time: Timestamp,
    ) -> (r: JsonOutput)
        requires
            output_fits(*results),
        ensures
            is_output_for(*results, source_file@, execution_duration_ms, r),
            r.metadata.execution_time == execution_time,
    {
        let sets = &results.result_sets;
        let n = sets.len();
        let mut result_sets: Vec<JsonResultSet> = Vec::new();
        let mut total_affected_rows: u64 = 0;
        let mut total_rows: usize = 0;
        let mut i: usize = 0;
        assert(sets@.take(0) =~= Seq::<ResultSet>::empty());
        while i < n
            invariant
                n == sets@.len(),
                sets@ == results.result_sets@,
                forall|m: int| 0 <= m < sets@.len() ==> result_set_bytes_fit(#[trigger] sets@[m]),
                sum_affected(sets@) <= u64::MAX,
                sum_rows(sets@) <= usize::MAX,
                i <= n,
                result_sets@.len() == i,
                forall|m: int| 0 <= m < i ==> converted_result_set(m as usize, sets@[m], #[trigger] result_sets@[m]),
                total_affected_rows == sum_affected(sets@.take(i as int)),
                total_rows == sum_rows(sets@.take(i as int)),
            decreases n - i,
        {
            let converted = Self::convert_result_set(i, &sets[i]);
            proof {
                assert(sets@.take(i + 1).drop_last() =~= sets@.take(i as int));
                lemma_sums_prefix(sets@, i + 1);
            }
            total_affected_rows = total_affected_rows + converted.affected_rows;
            total_rows = total_rows + converted.row_count;
            result_sets.push(converted);
            i = i + 1;
        }
        assert(sets@.take(n as int) =~= sets@);
        let total_result_sets = result_sets.len();
        JsonOutput {
            metadata: JsonMetadata {
                execution_time,
                mysql_version: results.mysql_version.clone(),
                total_result_sets,
                source_file: source_file.to_string(),
                execution_duration_ms,
                total_affected_rows,
                total_rows,
            },
            result_sets,
        }
    }
}

/// Law across collection and output: for a result set finished by a
/// well-formed builder that received `n` rows under threshold `t`, the output
/// holds `min(n, t)` rows, is marked truncated exactly when `n > t`, and then
/// reports `n` as the total.
pub proof fn lemma_output_counts(b: ResultSetBuilder, rs: ResultSet, index: usize, out: JsonResultSet)
    requires
        b.wf(),
        rs.rows@ == b.kept(),
        rs.truncated == b.is_truncated(),
        rs.total_rows == b.received().len(),
        converted_result_set(index, rs, out),
    ensures
        out.row_count == if b.received().len() < b.threshold() { b.received().len() as int } else { b.threshold() as int },
        out.truncated == (b.received().len() > b.threshold()),
        out.total_rows == if b.received().len() > b.threshold() { Some(b.received().len() as usize) } else { None },
{
    crate::database::lemma_builder_keeps_prefix(b);
}

/// Law of row objects: the object for a row has the name of each column that
/// the row has a cell for as a key, and no other key; a name maps to the cell
/// of the last such column bearing it.
pub proof fn lemma_row_object(row: Seq<JsonValue>, columns: Seq<ColumnInfo>, key: Seq<char>, k: int)
    ensures
        row_object(row, columns).contains_key(key) <==> exists|j: int|
            0 <= j < row.len() && j < columns.len() && (#[trigger] columns[j]).name@ == key,
        0 <= k < row.len() && k < columns.len() && (forall|j: int|
            k < j < row.len() && j < columns.len() ==> (#[trigger] columns[j]).name@ != columns[k].name@)
            ==> row_object(row, columns)[columns[k].name@] == cell_doc(row[k]@),
{
    let pairs = row_pairs(row, columns);
    crate::json_doc::lemma_members_map_keys(pairs, key);
    if exists|j: int| 0 <= j < row.len() && j < columns.len() && (#[trigger] columns[j]).name@ == key {
        let j = choose|j: int| 0 <= j < row.len() && j < columns.len() && (#[trigger] columns[j]).name@ == key;
        assert(pairs[j].0 == key);
    }
    if exists|j: int| 0 <= j < pairs.len() && (#[trigger] pairs[j]).0 == key {
        let j = choose|j: int| 0 <= j < pairs.len() && (#[trigger] pairs[j]).0 == key;
        assert(columns[j].name@ == key);
    }
    if 0 <= k < row.len() && k < columns.len() && (forall|j: int|
        k < j < row.len() && j < columns.len() ==> (#[trigger] columns[j]).name@ != columns[k].name@) {
        assert forall|j: int| k < j < pairs.len() implies (#[trigger] pairs[j]).0 != pairs[k].0 by {
            assert(columns[j].name@ != columns[k].name@);
        }
        crate::json_doc::lemma_members_map_value(pairs, k);
    }
}

/// Law of the metadata totals: there is nothing to add up over no result
/// sets, and each result set adds its affected rows and its kept rows to the
/// totals, whether or not it holds rows.
pub proof fn lemma_totals(sets: Seq<ResultSet>, rs: ResultSet)
    ensures
        sum_affected(Seq::<ResultSet>::empty()) == 0,
        sum_rows(Seq::<ResultSet>::empty()) == 0,
        sum_affected(sets.push(rs)) == sum_affected(sets) + rs.affected_rows,
        sum_rows(sets.push(rs)) == sum_rows(sets) + rs.rows@.len(),
{
    assert(sets.push(rs).drop_last() =~= sets);
}

/// The sums over a prefix are at most the sums over the whole sequence.
proof fn lemma_sums_prefix(sets: Seq<ResultSet>, k: int)
    requires
        0 <= k <= sets.len(),
    ensures
        sum_affected(sets.take(k)) <= sum_affected(sets),
        sum_rows(sets.take(k)) <= sum_rows(sets),
    decreases sets.len(),
{
    if k < sets.len() {
        assert(sets.drop_last().take(k) =~= sets.take(k));
        lemma_sums_prefix(sets.drop_last(), k);
    } else {
        assert(sets.take(k) =~= sets);
    }
}

} // verus!
