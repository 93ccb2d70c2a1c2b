//! Values read from MySQL and their conversion into the library's JSON cells.
//!
//! The connection pool and the query loop run at the edge of the program; this
//! module holds what they decide: how a column value becomes a `JsonValue`,
//! how a cell is rendered as JSON, how rows are collected under the streaming
//! threshold, and how a driver error message is classified.

use vstd::prelude::*;
use vstd::utf8::{decode_utf8, valid_utf8};
use crate::json_doc::{item_views, json_array, json_object, json_string, member, member_views, JsonDoc, JsonDocView};
use crate::text::{
    contains_str, dec_digits, dec_padded, has_substring, push_decimal, push_decimal_padded, split_char, split_on,
};
use crate::text_values::{
    all_digits, digits_value, is_digit, is_numeral, json_number_syntax, lemma_append_zeros, lemma_digits_value_bound,
    clock_text_parts, lemma_number_syntax, lemma_numeral_round_trip, lemma_split_pieces, pow10, seconds_text_parts, zeros,
    date_text_parts, datetime_text_parts, integer_text, is_number_text, number_text, read_date, read_datetime,
    read_integer, read_time, time_text_parts, IntegerText,
};
use crate::trusted::{
    base64_encode, base64_standard, json_text_is_valid, json_text_parses, mysql_error_text, mysql_text_reported, push_char, utf8_to_string,
};

verus! {

/// Largest number of rows kept in memory per result set before the rest are
/// only counted.
pub const STREAMING_THRESHOLD: usize = 10000;

/// Column metadata of a result set.
#[derive(Debug, Clone)]
pub struct ColumnInfo {
    /// Column name.
    pub name: String,
    /// Column type name.
    pub column_type: String,
    /// Whether the column is an ENUM.
    pub is_enum: bool,
    /// Whether the column is a SET.
    pub is_set: bool,
    /// Whether the column holds binary data.
    pub is_binary: bool,
    /// Whether the column is of type JSON.
    pub is_json: bool,
    /// Whether the column is of type GEOMETRY.
    pub is_geometry: bool,
}

/// A value as the MySQL driver delivers it.  Floating-point values are given by
/// the bit pattern of their `f64` (a FLOAT is widened to `f64` first).
#[derive(Debug, Clone, PartialEq)]
pub enum Value {
    NULL,
    Bytes(Vec<u8>),
    Int(i64),
    UInt(u64),
    Float(u64),
    Double(u64),
    /// year, month, day, hour, minute, second, microsecond
    Date(u16, u8, u8, u8, u8, u8, u32),
    /// negative, days, hours, minutes, seconds, microseconds
    Time(bool, u32, u8, u8, u8, u32),
}

/// The mathematical content of a `Value`.
pub enum ValueView {
    NULL,
    Bytes(Seq<u8>),
    Int(i64),
    UInt(u64),
    Float(u64),
    Double(u64),
    Date(u16, u8, u8, u8, u8, u8, u32),
    Time(bool, u32, u8, u8, u8, u32),
}

impl View for Value {
    type V = ValueView;

    open spec fn view(&self) -> ValueView {
        match self {
            Value::NULL => ValueView::NULL,
            Value::Bytes(b) => ValueView::Bytes(b@),
            Value::Int(i) => ValueView::Int(*i),
            Value::UInt(u) => ValueView::UInt(*u),
            Value::Float(f) => ValueView::Float(*f),
            Value::Double(d) => ValueView::Double(*d),
            Value::Date(y, mo, d, h, mi, s, us) => ValueView::Date(*y, *mo, *d, *h, *mi, *s, *us),
            Value::Time(n, d, h, mi, s, us) => ValueView::Time(*n, *d, *h, *mi, *s, *us),
        }
    }
}

/// The coordinates of a WKB point, as the bit patterns of their `f64`s; it is
/// rendered as the WKT text `POINT(x y)`.
#[derive(Debug, Clone, Copy, PartialEq, Eq)]
pub struct WktPoint {
    pub x: u64,
    pub y: u64,
}

/// A column value converted for JSON output.
#[derive(Debug, Clone)]
pub enum JsonValue {
    Null,
    Bool(bool),
    Int(i64),
    UInt(u64),
    /// A floating-point number, given by the bit pattern of its `f64`.
    Float(u64),
    /// A DECIMAL or floating-point number as the server wrote it, in JSON
    /// number syntax.
    Decimal(String),
    String(String),
    Bytes(Vec<u8>),
    Date(String),
    Time(String),
    DateTime(String),
    /// The value of an ENUM column.
    Enum(String),
    /// The members of a SET column.
    SetValues(Vec<String>),
    /// The text of a JSON column; it is known to parse as JSON.
    Json(String),
    /// A GEOMETRY value: its WKB in base64 and, for a point, its WKT.
    Geometry { wkb_base64: String, wkt: Option<WktPoint> },
}

/// The mathematical content of a `JsonValue`.
pub enum JsonValueView {
    Null,
    Bool(bool),
    Int(i64),
    UInt(u64),
    Float(u64),
    Decimal(Seq<char>),
    Str(Seq<char>),
    Bytes(Seq<u8>),
    Date(Seq<char>),
    Time(Seq<char>),
    DateTime(Seq<char>),
    Enum(Seq<char>),
    Members(Seq<Seq<char>>),
    Json(Seq<char>),
    Geometry { wkb_base64: Seq<char>, wkt: Option<WktPoint> },
}

pub open spec fn string_views(v: Seq<String>) -> Seq<Seq<char>> {
    v.map_values(|s: String| s@)
}

impl View for JsonValue {
    type V = JsonValueView;

    open spec fn view(&self) -> JsonValueView {
        match self {
            JsonValue::Null => JsonValueView::Null,
            JsonValue::Bool(b) => JsonValueView::Bool(*b),
            JsonValue::Int(i) => JsonValueView::Int(*i),
            JsonValue::UInt(u) => JsonValueView::UInt(*u),
            JsonValue::Float(f) => JsonValueView::Float(*f),
            JsonValue::Decimal(t) => JsonValueView::Decimal(t@),
            JsonValue::String(s) => JsonValueView::Str(s@),
            JsonValue::Bytes(b) => JsonValueView::Bytes(b@),
            JsonValue::Date(s) => JsonValueView::Date(s@),
            JsonValue::Time(s) => JsonValueView::Time(s@),
            JsonValue::DateTime(s) => JsonValueView::DateTime(s@),
            JsonValue::Enum(s) => JsonValueView::Enum(s@),
            JsonValue::SetValues(v) => JsonValueView::Members(string_views(v@)),
            JsonValue::Json(s) => JsonValueView::Json(s@),
            JsonValue::Geometry { wkb_base64, wkt } => JsonValueView::Geometry {
                wkb_base64: wkb_base64@,
                wkt: *wkt,
            },
        }
    }
}

} // verus!

verus! {

// ---------------------------------------------------------------------------
// Rendering of dates and times

/// `{:04}-{:02}-{:02}` of a date.
pub open spec fn date_text(year: u16, month: u8, day: u8) -> Seq<char> {
    dec_padded(year as nat, 4).push('-') + dec_padded(month as nat, 2).push('-') + dec_padded(day as nat, 2)
}

/// `{:02}:{:02}:{:02}.{:06}` of a time of day or duration.
pub open spec fn clock_text(hours: nat, minutes: u8, seconds: u8, micros: u32) -> Seq<char> {
    dec_padded(hours, 2).push(':') + dec_padded(minutes as nat, 2).push(':') + dec_padded(seconds as nat, 2).push('.')
        + dec_padded(micros as nat, 6)
}

/// `{:04}-{:02}-{:02} {:02}:{:02}:{:02}.{:06}` of a date with a time of day.
pub open spec fn datetime_text(year: u16, month: u8, day: u8, hour: u8, minute: u8, second: u8, micros: u32) -> Seq<char> {
    date_text(year, month, day).push(' ') + clock_text(hour as nat, minute, second, micros)
}

/// A duration as `[-]hh:mm:ss.ffffff`, the days folded into the hours.
pub open spec fn time_text(negative: bool, days: u32, hours: u8, minutes: u8, seconds: u8, micros: u32) -> Seq<char> {
    (if negative { seq!['-'] } else { Seq::<char>::empty() }) + clock_text((days * 24 + hours) as nat, minutes, seconds, micros)
}

/// A duration as `[-]hh:mm:ss.ffffff` from its total hours.
pub open spec fn duration_text(negative: bool, hours: nat, minutes: u8, seconds: u8, micros: u32) -> Seq<char> {
    (if negative { seq!['-'] } else { Seq::<char>::empty() }) + clock_text(hours, minutes, seconds, micros)
}

// ---------------------------------------------------------------------------
// Column kinds

/// What a column's type says about the text of its values.
#[derive(Debug, Clone, Copy, PartialEq, Eq, Structural)]
pub enum ColumnKind {
    /// Integer types (TINYINT to BIGINT, YEAR).
    Integer,
    /// DECIMAL, FLOAT and DOUBLE.
    Number,
    /// DATE.
    Date,
    /// DATETIME and TIMESTAMP.
    DateTime,
    /// TIME.
    Time,
    /// Any other type.
    Other,
}

/// The kind of a column by its type name, as the driver names types
/// (`MYSQL_TYPE_LONG`) or as SQL does (`INT`).
pub open spec fn column_kind(t: Seq<char>) -> ColumnKind {
    if t == "MYSQL_TYPE_TINY"@ || t == "MYSQL_TYPE_SHORT"@ || t == "MYSQL_TYPE_LONG"@ || t == "MYSQL_TYPE_LONGLONG"@
        || t == "MYSQL_TYPE_INT24"@ || t == "MYSQL_TYPE_YEAR"@ || t == "TINYINT"@ || t == "SMALLINT"@
        || t == "MEDIUMINT"@ || t == "INT"@ || t == "INTEGER"@ || t == "BIGINT"@ || t == "YEAR"@
        || t == "INT UNSIGNED"@ || t == "BIGINT UNSIGNED"@ {
        ColumnKind::Integer
    } else if t == "MYSQL_TYPE_DECIMAL"@ || t == "MYSQL_TYPE_NEWDECIMAL"@ || t == "MYSQL_TYPE_FLOAT"@
        || t == "MYSQL_TYPE_DOUBLE"@ || t == "DECIMAL"@ || t == "NUMERIC"@ || t == "FLOAT"@ || t == "DOUBLE"@
        || t == "REAL"@ {
        ColumnKind::Number
    } else if t == "MYSQL_TYPE_DATE"@ || t == "MYSQL_TYPE_NEWDATE"@ || t == "DATE"@ {
        ColumnKind::Date
    } else if t == "MYSQL_TYPE_DATETIME"@ || t == "MYSQL_TYPE_DATETIME2"@ || t == "MYSQL_TYPE_TIMESTAMP"@
        || t == "MYSQL_TYPE_TIMESTAMP2"@ || t == "DATETIME"@ || t == "TIMESTAMP"@ {
        ColumnKind::DateTime
    } else if t == "MYSQL_TYPE_TIME"@ || t == "MYSQL_TYPE_TIME2"@ || t == "TIME"@ {
        ColumnKind::Time
    } else {
        ColumnKind::Other
    }
}

/// The integer types: TINYINT to BIGINT and YEAR, as the driver names them
/// and as SQL does.
pub open spec fn integer_type_names() -> Seq<Seq<char>> {
    seq![
        "MYSQL_TYPE_TINY"@,
        "MYSQL_TYPE_SHORT"@,
        "MYSQL_TYPE_LONG"@,
        "MYSQL_TYPE_LONGLONG"@,
        "MYSQL_TYPE_INT24"@,
        "MYSQL_TYPE_YEAR"@,
        "TINYINT"@,
        "SMALLINT"@,
        "MEDIUMINT"@,
        "INT"@,
        "INTEGER"@,
        "BIGINT"@,
        "YEAR"@,
        "INT UNSIGNED"@,
        "BIGINT UNSIGNED"@,
    ]
}

/// The DECIMAL and floating-point types, as the driver names them and as SQL
/// does.
pub open spec fn number_type_names() -> Seq<Seq<char>> {
    seq![
        "MYSQL_TYPE_DECIMAL"@,
        "MYSQL_TYPE_NEWDECIMAL"@,
        "MYSQL_TYPE_FLOAT"@,
        "MYSQL_TYPE_DOUBLE"@,
        "DECIMAL"@,
        "NUMERIC"@,
        "FLOAT"@,
        "DOUBLE"@,
        "REAL"@,
    ]
}

/// The DATE types.
pub open spec fn date_type_names() -> Seq<Seq<char>> {
    seq![
        "MYSQL_TYPE_DATE"@,
        "MYSQL_TYPE_NEWDATE"@,
        "DATE"@,
    ]
}

/// The DATETIME and TIMESTAMP types.
pub open spec fn datetime_type_names() -> Seq<Seq<char>> {
    seq![
        "MYSQL_TYPE_DATETIME"@,
        "MYSQL_TYPE_DATETIME2"@,
        "MYSQL_TYPE_TIMESTAMP"@,
        "MYSQL_TYPE_TIMESTAMP2"@,
        "DATETIME"@,
        "TIMESTAMP"@,
    ]
}

/// The TIME types.
pub open spec fn time_type_names() -> Seq<Seq<char>> {
    seq![
        "MYSQL_TYPE_TIME"@,
        "MYSQL_TYPE_TIME2"@,
        "TIME"@,
    ]
}

/// Law of column kinds: every integer type is read as an integer, every
/// DECIMAL or floating-point type as a number, and the date, date-time and
/// time types as such.
pub proof fn lemma_column_kinds(t: Seq<char>)
    ensures
        integer_type_names().contains(t) ==> column_kind(t) == ColumnKind::Integer,
        number_type_names().contains(t) ==> column_kind(t) == ColumnKind::Number,
        date_type_names().contains(t) ==> column_kind(t) == ColumnKind::Date,
        datetime_type_names().contains(t) ==> column_kind(t) == ColumnKind::DateTime,
        time_type_names().contains(t) ==> column_kind(t) == ColumnKind::Time,
{
    reveal_strlit("MYSQL_TYPE_TINY");
    reveal_strlit("MYSQL_TYPE_SHORT");
    reveal_strlit("MYSQL_TYPE_LONG");
    reveal_strlit("MYSQL_TYPE_LONGLONG");
    reveal_strlit("MYSQL_TYPE_INT24");
    reveal_strlit("MYSQL_TYPE_YEAR");
    reveal_strlit("TINYINT");
    reveal_strlit("SMALLINT");
    reveal_strlit("MEDIUMINT");
    reveal_strlit("INT");
    reveal_strlit("INTEGER");
    reveal_strlit("BIGINT");
    reveal_strlit("YEAR");
    reveal_strlit("INT UNSIGNED");
    reveal_strlit("BIGINT UNSIGNED");
    reveal_strlit("MYSQL_TYPE_DECIMAL");
    reveal_strlit("MYSQL_TYPE_NEWDECIMAL");
    reveal_strlit("MYSQL_TYPE_FLOAT");
    reveal_strlit("MYSQL_TYPE_DOUBLE");
    reveal_strlit("DECIMAL");
    reveal_strlit("NUMERIC");
    reveal_strlit("FLOAT");
    reveal_strlit("DOUBLE");
    reveal_strlit("REAL");
    reveal_strlit("MYSQL_TYPE_DATE");
    reveal_strlit("MYSQL_TYPE_NEWDATE");
    reveal_strlit("DATE");
    reveal_strlit("MYSQL_TYPE_DATETIME");
    reveal_strlit("MYSQL_TYPE_DATETIME2");
    reveal_strlit("MYSQL_TYPE_TIMESTAMP");
    reveal_strlit("MYSQL_TYPE_TIMESTAMP2");
    reveal_strlit("DATETIME");
    reveal_strlit("TIMESTAMP");
    reveal_strlit("MYSQL_TYPE_TIME");
    reveal_strlit("MYSQL_TYPE_TIME2");
    reveal_strlit("TIME");
    if integer_type_names().contains(t) {

        let i = choose|i: int| 0 <= i < integer_type_names().len() && integer_type_names()[i] == t;
        assert(integer_type_names()[i] == t);
    }
    if number_type_names().contains(t) {
        assert("MYSQL_TYPE_FLOAT"@[11] != "MYSQL_TYPE_SHORT"@[11]);
        assert("MYSQL_TYPE_FLOAT"@[11] != "MYSQL_TYPE_INT24"@[11]);
        assert("DECIMAL"@[0] != "TINYINT"@[0]);
        assert("DECIMAL"@[0] != "INTEGER"@[0]);
        assert("NUMERIC"@[0] != "TINYINT"@[0]);
        assert("NUMERIC"@[0] != "INTEGER"@[0]);
        assert("DOUBLE"@[0] != "BIGINT"@[0]);
        assert("REAL"@[0] != "YEAR"@[0]);
        let i = choose|i: int| 0 <= i < number_type_names().len() && number_type_names()[i] == t;
        assert(number_type_names()[i] == t);
    }
    if date_type_names().contains(t) {
        assert("MYSQL_TYPE_DATE"@[11] != "MYSQL_TYPE_TINY"@[11]);
        assert("MYSQL_TYPE_DATE"@[11] != "MYSQL_TYPE_LONG"@[11]);
        assert("MYSQL_TYPE_DATE"@[11] != "MYSQL_TYPE_YEAR"@[11]);
        assert("MYSQL_TYPE_DATE"@[0] != "BIGINT UNSIGNED"@[0]);
        assert("MYSQL_TYPE_NEWDATE"@[11] != "MYSQL_TYPE_DECIMAL"@[11]);
        assert("DATE"@[0] != "YEAR"@[0]);
        assert("DATE"@[0] != "REAL"@[0]);
        let i = choose|i: int| 0 <= i < date_type_names().len() && date_type_names()[i] == t;
        assert(date_type_names()[i] == t);
    }
    if datetime_type_names().contains(t) {
        assert("MYSQL_TYPE_DATETIME"@[11] != "MYSQL_TYPE_LONGLONG"@[11]);
        assert("MYSQL_TYPE_TIMESTAMP2"@[11] != "MYSQL_TYPE_NEWDECIMAL"@[11]);
        assert("DATETIME"@[0] != "SMALLINT"@[0]);
        assert("TIMESTAMP"@[0] != "MEDIUMINT"@[0]);
        let i = choose|i: int| 0 <= i < datetime_type_names().len() && datetime_type_names()[i] == t;
        assert(datetime_type_names()[i] == t);
    }
    if time_type_names().contains(t) {
        assert("MYSQL_TYPE_TIME"@[13] != "MYSQL_TYPE_TINY"@[13]);
        assert("MYSQL_TYPE_TIME"@[11] != "MYSQL_TYPE_LONG"@[11]);
        assert("MYSQL_TYPE_TIME"@[11] != "MYSQL_TYPE_YEAR"@[11]);
        assert("MYSQL_TYPE_TIME"@[0] != "BIGINT UNSIGNED"@[0]);
        assert("MYSQL_TYPE_TIME"@[11] != "MYSQL_TYPE_DATE"@[11]);
        assert("MYSQL_TYPE_TIME2"@[11] != "MYSQL_TYPE_SHORT"@[11]);
        assert("MYSQL_TYPE_TIME2"@[11] != "MYSQL_TYPE_INT24"@[11]);
        assert("MYSQL_TYPE_TIME2"@[11] != "MYSQL_TYPE_FLOAT"@[11]);
        assert("TIME"@[0] != "YEAR"@[0]);
        assert("TIME"@[0] != "REAL"@[0]);
        assert("TIME"@[0] != "DATE"@[0]);
        let i = choose|i: int| 0 <= i < time_type_names().len() && time_type_names()[i] == t;
        assert(time_type_names()[i] == t);
    }
}

/// Law of typed text cells: over the text protocol, whatever the column's
/// binary flag, a value in a column of an integer type that is a numeral
/// (after an optional minus sign) fitting an `i64` becomes that integer, and a
/// value in a column of a DECIMAL or floating-point type that is in JSON
/// number syntax (a plain numeral such as `42` included) becomes a number with
/// that text.
pub proof fn lemma_text_cells(b: Seq<u8>, col: ColumnInfo)
    requires
        valid_utf8(b),
        !col.is_json,
        !col.is_enum,
        !col.is_set,
        !col.is_geometry,
    ensures
        integer_type_names().contains(col.column_type@) && is_numeral(decode_utf8(b)) && digits_value(decode_utf8(b))
            <= i64::MAX ==> bytes_cell(b, col) == JsonValueView::Int(digits_value(decode_utf8(b)) as i64),
        integer_type_names().contains(col.column_type@) && decode_utf8(b).len() > 0 && decode_utf8(b)[0] == '-'
            && is_numeral(decode_utf8(b).skip(1)) && digits_value(decode_utf8(b).skip(1)) <= 9223372036854775808
            ==> bytes_cell(b, col) == JsonValueView::Int((-(digits_value(decode_utf8(b).skip(1)) as int)) as i64),
        number_type_names().contains(col.column_type@) && json_number_syntax(decode_utf8(b)) ==> bytes_cell(b, col)
            == JsonValueView::Decimal(decode_utf8(b)),
        date_type_names().contains(col.column_type@) && date_text_parts(decode_utf8(b)) is Some ==> bytes_cell(b, col)
            == JsonValueView::Date(decode_utf8(b)),
        datetime_type_names().contains(col.column_type@) && datetime_text_parts(decode_utf8(b)) is Some
            && decode_utf8(b).len() == 19 ==> bytes_cell(b, col) == JsonValueView::DateTime(
            decode_utf8(b) + (seq!['.'] + zeros(6)),
        ),
{
    let t = decode_utf8(b);
    lemma_column_kinds(col.column_type@);
    lemma_number_syntax(t);
    if date_text_parts(t) is Some {
        lemma_date_text(t);
    }
    if datetime_text_parts(t) is Some {
        lemma_datetime_text(t);
    }
    if is_numeral(t) {
        assert(is_digit(t[0]));
    }
}

/// A two-digit field renders back as itself.
proof fn lemma_two_digits(q: Seq<char>)
    requires
        q.len() == 2,
        all_digits(q),
    ensures
        digits_value(q) < 100,
        dec_padded((digits_value(q) as u8) as nat, 2) == q,
{
    lemma_digits_value_bound(q);
    reveal_with_fuel(pow10, 3);
    lemma_numeral_round_trip(q);
}

/// The date parts of `YYYY-MM-DD` render back as the same text.
proof fn lemma_date_round_trip(t: Seq<char>)
    requires
        date_text_parts(t) is Some,
    ensures
        t.len() == 10,
        ({
            let (y, m, d) = date_text_parts(t)->0;
            date_text(y as u16, m as u8, d as u8) == t
        }),
{
    let p = split_on(t, '-');
    lemma_split_pieces(t, '-');
    lemma_digits_value_bound(p[0]);
    reveal_with_fuel(pow10, 5);
    lemma_numeral_round_trip(p[0]);
    lemma_two_digits(p[1]);
    lemma_two_digits(p[2]);
    let (y, m, d) = date_text_parts(t)->0;
    assert((y as u16) as nat == y);
    assert(date_text(y as u16, m as u8, d as u8) =~= t);
}

/// Law of date text: a DATE value written `YYYY-MM-DD` comes back exactly as
/// the server sent it.
pub proof fn lemma_date_text(t: Seq<char>)
    requires
        date_text_parts(t) is Some,
    ensures
        typed_cell(ColumnKind::Date, t) == Some(JsonValueView::Date(t)),
{
    lemma_date_round_trip(t);
}

/// The seconds field `SS` or `SS.f` of a time renders back as itself with its
/// fraction padded to six digits.
proof fn lemma_seconds_round_trip(q: Seq<char>)
    requires
        seconds_text_parts(q) is Some,
    ensures
        ({
            let (sec, us) = seconds_text_parts(q)->0;
            &&& us < 1000000
            &&& dec_padded((sec as u8) as nat, 2).push('.') + dec_padded((us as u32) as nat, 6) == q + if q.len()
                == 2 {
                seq!['.'] + zeros(6)
            } else {
                zeros((9 - q.len()) as nat)
            }
        }),
{
    let (sec, us) = seconds_text_parts(q)->0;
    reveal_with_fuel(pow10, 7);
    if q.len() == 2 {
        lemma_two_digits(q);
        assert(dec_digits(0) == seq!['0']);
        assert(dec_padded(0, 6) =~= zeros(6));
        assert(dec_padded((sec as u8) as nat, 2).push('.') + dec_padded((us as u32) as nat, 6) =~= q + (seq!['.'] + zeros(6)));
    } else {
        let ss = q.take(2);
        let f = q.skip(3);
        let z = (9 - q.len()) as nat;
        lemma_two_digits(ss);
        lemma_append_zeros(f, z);
        let g = f + zeros(z);
        assert(g.len() == 6);
        lemma_numeral_round_trip(g);
        lemma_digits_value_bound(g);
        assert(us == digits_value(g));
        assert(us < 1000000);
        assert((us as u32) as nat == us);
        assert(q =~= ss.push('.') + f);
        assert(dec_padded((sec as u8) as nat, 2).push('.') + dec_padded((us as u32) as nat, 6) =~= q + zeros(z));
    }
}

/// Law of date-time text: a DATETIME or TIMESTAMP value written
/// `YYYY-MM-DD HH:MM:SS` comes back with `.000000` added, and one with a
/// fraction of one to six digits comes back with the fraction padded with
/// zeros to six digits.
pub proof fn lemma_datetime_text(t: Seq<char>)
    requires
        datetime_text_parts(t) is Some,
    ensures
        t.len() == 19 ==> typed_cell(ColumnKind::DateTime, t) == Some(
            JsonValueView::DateTime(t + (seq!['.'] + zeros(6))),
        ),
        t.len() != 19 ==> typed_cell(ColumnKind::DateTime, t) == Some(
            JsonValueView::DateTime(t + zeros((26 - t.len()) as nat)),
        ),
{
    let halves = split_on(t, ' ');
    lemma_split_pieces(t, ' ');
    let h0 = halves[0];
    let h1 = halves[1];
    lemma_date_round_trip(h0);
    let q = split_on(h1, ':');
    lemma_split_pieces(h1, ':');
    lemma_two_digits(q[0]);
    lemma_two_digits(q[1]);
    lemma_seconds_round_trip(q[2]);
    let (y, mo, d, h, mi, sec, us) = datetime_text_parts(t)->0;
    let (sec2, us2) = seconds_text_parts(q[2])->0;
    assert(clock_text_parts(h1) == Some((digits_value(q[0]), digits_value(q[1]), sec2, us2)));
    assert(h == digits_value(q[0]) && mi == digits_value(q[1]) && sec == sec2 && us == us2);
    let pad = if q[2].len() == 2 { seq!['.'] + zeros(6) } else { zeros((9 - q[2].len()) as nat) };
    let a = dec_padded((h as u8) as nat, 2).push(':');
    let b = dec_padded((mi as u8) as nat, 2).push(':');
    let c = dec_padded((sec as u8) as nat, 2).push('.');
    let e = dec_padded((us as u32) as nat, 6);
    assert(c + e == q[2] + pad);
    assert(a == q[0].push(':'));
    assert(b == q[1].push(':'));
    assert(clock_text((h as u8) as nat, mi as u8, sec as u8, us as u32) == a + b + c + e);
    assert(a + b + c + e =~= (a + b) + (c + e));
    assert(clock_text((h as u8) as nat, mi as u8, sec as u8, us as u32) =~= h1 + pad);
    assert(date_text(y as u16, mo as u8, d as u8) == h0);
    assert(datetime_text(y as u16, mo as u8, d as u8, h as u8, mi as u8, sec as u8, us as u32) =~= t + pad);
}

/// The duration text without its sign.
pub open spec fn unsigned_part(t: Seq<char>) -> Seq<char> {
    if t.len() > 0 && t[0] == '-' {
        t.skip(1)
    } else {
        t
    }
}

/// Law of time text: a TIME value written `[-]HH:MM:SS` or `[-]HHH:MM:SS`,
/// the hours of two digits or of three not starting with `0` (MySQL's range
/// runs from -838:59:59 to 838:59:59), comes back with `.000000` added, and
/// one with a fraction of one to six digits comes back with the fraction
/// padded with zeros to six digits.
pub proof fn lemma_time_text(t: Seq<char>, k: int)
    requires
        time_text_parts(t) is Some,
        k == 2 || (k == 3 && unsigned_part(t)[0] != '0'),
        unsigned_part(t).len() > k,
        unsigned_part(t)[k] == ':',
    ensures
        unsigned_part(t).len() == k + 6 ==> typed_cell(ColumnKind::Time, t) == Some(
            JsonValueView::Time(t + (seq!['.'] + zeros(6))),
        ),
        unsigned_part(t).len() != k + 6 ==> typed_cell(ColumnKind::Time, t) == Some(
            JsonValueView::Time(t + zeros((13 + k - unsigned_part(t).len()) as nat)),
        ),
{
    let u = unsigned_part(t);
    let neg = t.len() > 0 && t[0] == '-';
    let q = split_on(u, ':');
    lemma_split_pieces(u, ':');
    let q0 = q[0];
    assert(all_digits(q0) && q0.len() > 0);
    assert(u == q0.push(':') + q[1].push(':') + q[2]);
    assert(q[1].len() == 2 && all_digits(q[1]));
    if q0.len() > k {
        assert(u[k] == q0[k]);
        assert(is_digit(q0[k]));
    }
    if q0.len() < k {
        assert(u[q0.len() as int + 1] == q[1][0]);
        assert(u[q0.len() as int + 2] == q[1][1]);
        assert(is_digit(q[1][0]) && is_digit(q[1][1]));
    }
    assert(q0.len() == k);
    // the hours render back as written
    lemma_numeral_round_trip(q0);
    let hv = digits_value(q0);
    if k == 3 {
        let x = dec_digits(hv);
        if x.len() < 3 {
            assert(dec_padded(hv, 3) == Seq::new((3 - x.len()) as nat, |i: int| '0') + x);
            assert(dec_padded(hv, 3)[0] == '0');
            assert(u[0] == q0[0]);
        }
        assert(dec_padded(hv, 2) == q0);
    }
    assert(dec_padded(hv, 2) == q0);
    lemma_two_digits(q[1]);
    lemma_seconds_round_trip(q[2]);
    let (sec, us) = seconds_text_parts(q[2])->0;
    let (n2, h, mi, sec3, us3) = time_text_parts(t)->0;
    assert(n2 == neg && h == hv && mi == digits_value(q[1]) && sec3 == sec && us3 == us);
    let pad = if q[2].len() == 2 { seq!['.'] + zeros(6) } else { zeros((9 - q[2].len()) as nat) };
    let a = dec_padded(h, 2).push(':');
    let b = dec_padded((mi as u8) as nat, 2).push(':');
    let c = dec_padded((sec as u8) as nat, 2).push('.');
    let e = dec_padded((us as u32) as nat, 6);
    assert(clock_text(h, mi as u8, sec as u8, us as u32) == a + b + c + e);
    assert(a + b + c + e =~= (a + b) + (c + e));
    assert(clock_text(h, mi as u8, sec as u8, us as u32) =~= u + pad);
    if neg {
        assert(t =~= seq!['-'] + u);
    } else {
        assert(t == u);
    }
    assert(duration_text(neg, h, mi as u8, sec as u8, us as u32) =~= t + pad);
}

fn text_is(t: &str, name: &str) -> (r: bool)
    ensures
        r == (t@ == name@),
{
    t.to_string() == name.to_string()
}

/// The kind of a column by its type name.
pub fn column_kind_of(t: &str) -> (r: ColumnKind)
    ensures
        r == column_kind(t@),
{
    if text_is(t, "MYSQL_TYPE_TINY") || text_is(t, "MYSQL_TYPE_SHORT") || text_is(t, "MYSQL_TYPE_LONG")
        || text_is(t, "MYSQL_TYPE_LONGLONG") || text_is(t, "MYSQL_TYPE_INT24") || text_is(t, "MYSQL_TYPE_YEAR")
        || text_is(t, "TINYINT") || text_is(t, "SMALLINT") || text_is(t, "MEDIUMINT") || text_is(t, "INT")
        || text_is(t, "INTEGER") || text_is(t, "BIGINT") || text_is(t, "YEAR") || text_is(t, "INT UNSIGNED")
        || text_is(t, "BIGINT UNSIGNED") {
        ColumnKind::Integer
    } else if text_is(t, "MYSQL_TYPE_DECIMAL") || text_is(t, "MYSQL_TYPE_NEWDECIMAL") || text_is(t, "MYSQL_TYPE_FLOAT")
        || text_is(t, "MYSQL_TYPE_DOUBLE") || text_is(t, "DECIMAL") || text_is(t, "NUMERIC") || text_is(t, "FLOAT")
        || text_is(t, "DOUBLE") || text_is(t, "REAL") {
        ColumnKind::Number
    } else if text_is(t, "MYSQL_TYPE_DATE") || text_is(t, "MYSQL_TYPE_NEWDATE") || text_is(t, "DATE") {
        ColumnKind::Date
    } else if text_is(t, "MYSQL_TYPE_DATETIME") || text_is(t, "MYSQL_TYPE_DATETIME2") || text_is(t, "MYSQL_TYPE_TIMESTAMP")
        || text_is(t, "MYSQL_TYPE_TIMESTAMP2") || text_is(t, "DATETIME") || text_is(t, "TIMESTAMP") {
        ColumnKind::DateTime
    } else if text_is(t, "MYSQL_TYPE_TIME") || text_is(t, "MYSQL_TYPE_TIME2") || text_is(t, "TIME") {
        ColumnKind::Time
    } else {
        ColumnKind::Other
    }
}

/// The cell for the text of a value of a column of kind `kind`, when the
/// text reads as that kind: integers as numbers (signed when they fit an
/// `i64`), DECIMAL and floating-point text as a number, dates and times
/// rendered with their fraction padded to six digits.  `None`: the text does
/// not read as that kind.
pub open spec fn typed_cell(kind: ColumnKind, text: Seq<char>) -> Option<JsonValueView> {
    match kind {
        ColumnKind::Integer => match integer_text(text) {
            Some(IntegerText::Signed(v)) => Some(JsonValueView::Int(v)),
            Some(IntegerText::Unsigned(v)) => Some(JsonValueView::UInt(v)),
            None => None,
        },
        ColumnKind::Number => if number_text(text) {
            Some(JsonValueView::Decimal(text))
        } else {
            None
        },
        ColumnKind::Date => match date_text_parts(text) {
            Some((y, m, d)) => Some(JsonValueView::Date(date_text(y as u16, m as u8, d as u8))),
            None => None,
        },
        ColumnKind::DateTime => match datetime_text_parts(text) {
            Some((y, mo, d, h, mi, s, us)) => Some(
                JsonValueView::DateTime(datetime_text(y as u16, mo as u8, d as u8, h as u8, mi as u8, s as u8, us as u32)),
            ),
            None => None,
        },
        ColumnKind::Time => match time_text_parts(text) {
            Some((neg, h, mi, s, us)) => Some(JsonValueView::Time(duration_text(neg, h, mi as u8, s as u8, us as u32))),
            None => None,
        },
        ColumnKind::Other => None,
    }
}

/// The members of a SET value: none for the empty text, else the pieces between commas.
pub open spec fn set_members(text: Seq<char>) -> Seq<Seq<char>> {
    if text.len() == 0 {
        Seq::<Seq<char>>::empty()
    } else {
        split_on(text, ',')
    }
}

// ---------------------------------------------------------------------------
// WKB points

/// Little-endian unsigned integer of `n` bytes starting at `at`.
pub open spec fn uint_le(b: Seq<u8>, at: int, n: nat) -> nat
    decreases n,
{
    if n == 0 {
        0
    } else {
        (b[at] as nat) + 256 * uint_le(b, at + 1, (n - 1) as nat)
    }
}

/// Big-endian unsigned integer of `n` bytes starting at `at`.
pub open spec fn uint_be(b: Seq<u8>, at: int, n: nat) -> nat
    decreases n,
{
    if n == 0 {
        0
    } else {
        (b[at + n - 1] as nat) + 256 * uint_be(b, at, (n - 1) as nat)
    }
}

/// Unsigned integer of `n` bytes at `at`, little-endian when the WKB byte-order
/// byte is 1 and big-endian otherwise.
pub open spec fn wkb_uint(b: Seq<u8>, at: int, n: nat) -> nat {
    if b[0] == 1 {
        uint_le(b, at, n)
    } else {
        uint_be(b, at, n)
    }
}

/// The point a WKB value encodes: byte order (1 byte), geometry type (4 bytes,
/// 1 = point), then x and y (8 bytes each).  Anything shorter than 21 bytes or
/// of another type has no point.
pub open spec fn wkb_point(wkb: Seq<u8>) -> Option<WktPoint> {
    if wkb.len() < 21 {
        None
    } else if wkb_uint(wkb, 1, 4) == 1 {
        Some(WktPoint { x: wkb_uint(wkb, 5, 8) as u64, y: wkb_uint(wkb, 13, 8) as u64 })
    } else {
        None
    }
}

// ---------------------------------------------------------------------------
// Conversion of a column value

/// How the bytes of a column value are read, by the column's kind.
pub open spec fn bytes_cell(b: Seq<u8>, col: ColumnInfo) -> JsonValueView {
    let text = decode_utf8(b);
    if col.is_json {
        if !valid_utf8(b) {
            JsonValueView::Bytes(b)
        } else if json_text_parses(text) {
            JsonValueView::Json(text)
        } else {
            JsonValueView::Str(text)
        }
    } else if col.is_enum {
        if valid_utf8(b) { JsonValueView::Enum(text) } else { JsonValueView::Bytes(b) }
    } else if col.is_set {
        if valid_utf8(b) { JsonValueView::Members(set_members(text)) } else { JsonValueView::Bytes(b) }
    } else if col.is_geometry {
        JsonValueView::Geometry { wkb_base64: base64_standard(b), wkt: wkb_point(b) }
    } else if valid_utf8(b) && typed_cell(column_kind(col.column_type@), text) is Some {
        typed_cell(column_kind(col.column_type@), text)->0
    } else if col.is_binary {
        JsonValueView::Bytes(b)
    } else {
        if valid_utf8(b) { JsonValueView::Str(text) } else { JsonValueView::Bytes(b) }
    }
}

/// The JSON cell for a column value (`None`: the row has no such column).
pub open spec fn converted_value(value: Option<ValueView>, col: ColumnInfo) -> JsonValueView {
    match value {
        None => JsonValueView::Null,
        Some(ValueView::NULL) => JsonValueView::Null,
        Some(ValueView::Bytes(b)) => bytes_cell(b, col),
        Some(ValueView::Int(i)) => JsonValueView::Int(i),
        Some(ValueView::UInt(u)) => JsonValueView::UInt(u),
        Some(ValueView::Float(f)) => JsonValueView::Float(f),
        Some(ValueView::Double(d)) => JsonValueView::Float(d),
        Some(ValueView::Date(y, mo, d, h, mi, s, us)) => if h == 0 && mi == 0 && s == 0 && us == 0 && column_kind(
            col.column_type@,
        ) != ColumnKind::DateTime {
            JsonValueView::Date(date_text(y, mo, d))
        } else {
            JsonValueView::DateTime(datetime_text(y, mo, d, h, mi, s, us))
        },
        Some(ValueView::Time(n, d, h, mi, s, us)) => JsonValueView::Time(time_text(n, d, h, mi, s, us)),
    }
}

/// The view of an optional value.
pub open spec fn value_view(value: Option<Value>) -> Option<ValueView> {
    match value {
        Some(v) => Some(v@),
        None => None,
    }
}

/// Byte strings are no longer than `isize::MAX`, as every allocation is.
pub open spec fn bytes_fit(value: Option<Value>) -> bool {
    value matches Some(Value::Bytes(b)) ==> b@.len() <= isize::MAX
}

fn push_date(out: &mut String, year: u16, month: u8, day: u8)
    ensures
        final(out)@ == old(out)@ + date_text(year, month, day),
{
    let ghost start = out@;
    push_decimal_padded(out, year as u64, 4);
    push_char(out, '-');
    push_decimal_padded(out, month as u64, 2);
    push_char(out, '-');
    push_decimal_padded(out, day as u64, 2);
    assert(out@ =~= start + date_text(year, month, day));
}

fn push_clock(out: &mut String, hours: u64, minutes: u8, seconds: u8, micros: u32)
    ensures
        final(out)@ == old(out)@ + clock_text(hours as nat, minutes, seconds, micros),
{
    let ghost start = out@;
    push_decimal_padded(out, hours, 2);
    push_char(out, ':');
    push_decimal_padded(out, minutes as u64, 2);
    push_char(out, ':');
    push_decimal_padded(out, seconds as u64, 2);
    push_char(out, '.');
    push_decimal_padded(out, micros as u64, 6);
    assert(out@ =~= start + clock_text(hours as nat, minutes, seconds, micros));
}

fn set_values(text: &String) -> (r: Vec<String>)
    ensures
        string_views(r@) == set_members(text@),
{
    if text.as_str().is_empty() {
        let r: Vec<String> = Vec::new();
        assert(string_views(r@) =~= set_members(text@));
        r
    } else {
        let r = split_char(text.as_str(), ',');
        assert(string_views(r@) =~= set_members(text@));
        r
    }
}

fn convert_bytes(b: Vec<u8>, col: &ColumnInfo) -> (r: JsonValue)
    requires
        b@.len() <= isize::MAX,
    ensures
        r@ == bytes_cell(b@, *col),
{
    if col.is_json {
        match utf8_to_string(b.as_slice()) {
            Some(s) => {
                let parses = json_text_is_valid(s.as_str());
                json_column_cell(s, parses)
            },
            None => JsonValue::Bytes(b),
        }
    } else if col.is_enum {
        match utf8_to_string(b.as_slice()) {
            Some(s) => JsonValue::Enum(s),
            None => JsonValue::Bytes(b),
        }
    } else if col.is_set {
        match utf8_to_string(b.as_slice()) {
            Some(s) => JsonValue::SetValues(set_values(&s)),
            None => JsonValue::Bytes(b),
        }
    } else if col.is_geometry {
        let wkb_base64 = base64_encode(b.as_slice());
        geometry_cell(wkb_base64, b.as_slice())
    } else {
        match utf8_to_string(b.as_slice()) {
            Some(s) => match typed_text_cell(column_kind_of(col.column_type.as_str()), &s) {
                Some(v) => v,
                None => if col.is_binary {
                    JsonValue::Bytes(b)
                } else {
                    JsonValue::String(s)
                },
            },
            None => JsonValue::Bytes(b),
        }
    }
}

/// The cell for the text of a JSON column, given whether the text parses as
/// JSON: the JSON value when it does, else the text as a string.
pub fn json_column_cell(text: String, parses: bool) -> (r: JsonValue)
    ensures
        parses ==> r@ == JsonValueView::Json(text@),
        !parses ==> r@ == JsonValueView::Str(text@),
{
    if parses {
        JsonValue::Json(text)
    } else {
        JsonValue::String(text)
    }
}

/// The cell for a GEOMETRY value `wkb`, given the base64 text of its bytes:
/// that text, and the point the WKB encodes, if it encodes one.
pub fn geometry_cell(wkb_base64: String, wkb: &[u8]) -> (r: JsonValue)
    ensures
        r@ == (JsonValueView::Geometry { wkb_base64: wkb_base64@, wkt: wkb_point(wkb@) }),
{
    let wkt = try_wkb_to_wkt(wkb);
    JsonValue::Geometry { wkb_base64, wkt }
}

/// The cell for `text` read as a value of kind `kind`, if it reads so.
fn typed_text_cell(kind: ColumnKind, text: &String) -> (r: Option<JsonValue>)
    ensures
        match r {
            Some(v) => typed_cell(kind, text@) == Some(v@),
            None => typed_cell(kind, text@) is None,
        },
{
    match kind {
        ColumnKind::Integer => match read_integer(text.as_str()) {
            Some(IntegerText::Signed(v)) => Some(JsonValue::Int(v)),
            Some(IntegerText::Unsigned(v)) => Some(JsonValue::UInt(v)),
            None => None,
        },
        ColumnKind::Number => if is_number_text(text.as_str()) {
            Some(JsonValue::Decimal(text.clone()))
        } else {
            None
        },
        ColumnKind::Date => match read_date(text) {
            Some((y, m, d)) => {
                let mut out = String::new();
                push_date(&mut out, y as u16, m as u8, d as u8);
                assert(out@ =~= date_text(y as u16, m as u8, d as u8));
                Some(JsonValue::Date(out))
            },
            None => None,
        },
        ColumnKind::DateTime => match read_datetime(text) {
            Some((y, mo, d, h, mi, s, us)) => {
                let mut out = String::new();
                push_date(&mut out, y as u16, mo as u8, d as u8);
                push_char(&mut out, ' ');
                push_clock(&mut out, (h as u8) as u64, mi as u8, s as u8, us as u32);
                assert(out@ =~= datetime_text(y as u16, mo as u8, d as u8, h as u8, mi as u8, s as u8, us as u32));
                Some(JsonValue::DateTime(out))
            },
            None => None,
        },
        ColumnKind::Time => match read_time(text) {
            Some((neg, h, mi, s, us)) => {
                let mut out = String::new();
                if neg {
                    push_char(&mut out, '-');
                }
                push_clock(&mut out, h, mi as u8, s as u8, us as u32);
                assert(out@ =~= duration_text(neg, h as nat, mi as u8, s as u8, us as u32));
                Some(JsonValue::Time(out))
            },
            None => None,
        },
        ColumnKind::Other => None,
    }
}

/// Converts a column value into its JSON cell, by the column's kind: JSON
/// columns keep their text when it parses, ENUM and SET columns become their
/// member(s), GEOMETRY becomes base64 WKB plus the WKT point, dates and times
/// are rendered as text, and bytes that are not UTF-8 stay bytes.
pub fn convert_mysql_value_to_json(value: Option<Value>, col_info: &ColumnInfo) -> (r: JsonValue)
    requires
        bytes_fit(value),
    ensures
        r@ == converted_value(value_view(value), *col_info),
{
    match value {
        None => JsonValue::Null,
        Some(Value::NULL) => JsonValue::Null,
        Some(Value::Bytes(b)) => convert_bytes(b, col_info),
        Some(Value::Int(i)) => JsonValue::Int(i),
        Some(Value::UInt(u)) => JsonValue::UInt(u),
        Some(Value::Float(f)) => JsonValue::Float(f),
        Some(Value::Double(d)) => JsonValue::Float(d),
        Some(Value::Date(year, month, day, hour, min, sec, micro)) => {
            let mut text = String::new();
            push_date(&mut text, year, month, day);
            if hour == 0 && min == 0 && sec == 0 && micro == 0 && column_kind_of(col_info.column_type.as_str())
                != ColumnKind::DateTime {
                assert(text@ =~= date_text(year, month, day));
                JsonValue::Date(text)
            } else {
                push_char(&mut text, ' ');
                push_clock(&mut text, hour as u64, min, sec, micro);
                assert(text@ =~= datetime_text(year, month, day, hour, min, sec, micro));
                JsonValue::DateTime(text)
            }
        },
        Some(Value::Time(negative, days, hours, minutes, seconds, micro)) => {
            let mut text = String::new();
            if negative {
                push_char(&mut text, '-');
            }
            let total_hours: u64 = (days as u64) * 24 + (hours as u64);
            push_clock(&mut text, total_hours, minutes, seconds, micro);
            assert(text@ =~= time_text(negative, days, hours, minutes, seconds, micro));
            JsonValue::Time(text)
        },
    }
}

fn read_uint_le(b: &[u8], at: usize, n: usize) -> (r: u64)
    requires
        n <= 8,
        at + n <= b.len(),
    ensures
        r == uint_le(b@, at as int, n as nat),
    decreases n,
{
    if n == 0 {
        0
    } else {
        let rest = read_uint_le(b, at + 1, n - 1);
        proof {
            lemma_uint_le_bound(b@, at as int + 1, (n - 1) as nat);
            lemma_pow256_bound((n - 1) as nat);
        }
        (b[at] as u64) + 256 * rest
    }
}

fn read_uint_be(b: &[u8], at: usize, n: usize) -> (r: u64)
    requires
        n <= 8,
        at + n <= b.len(),
    ensures
        r == uint_be(b@, at as int, n as nat),
    decreases n,
{
    if n == 0 {
        0
    } else {
        let rest = read_uint_be(b, at, n - 1);
        proof {
            lemma_uint_be_bound(b@, at as int, (n - 1) as nat);
            lemma_pow256_bound((n - 1) as nat);
        }
        (b[at + n - 1] as u64) + 256 * rest
    }
}

proof fn lemma_uint_le_bound(b: Seq<u8>, at: int, n: nat)
    requires
        n <= 7,
    ensures
        uint_le(b, at, n) < pow256(n),
    decreases n,
{
    if n > 0 {
        lemma_uint_le_bound(b, at + 1, (n - 1) as nat);
    }
}

proof fn lemma_uint_be_bound(b: Seq<u8>, at: int, n: nat)
    requires
        n <= 7,
    ensures
        uint_be(b, at, n) < pow256(n),
    decreases n,
{
    if n > 0 {
        lemma_uint_be_bound(b, at, (n - 1) as nat);
    }
}

proof fn lemma_pow256_bound(n: nat)
    requires
        n <= 7,
    ensures
        pow256(n) <= 72057594037927936,
{
    assert(pow256(0) == 1);
    assert(pow256(1) == 256);
    assert(pow256(2) == 65536);
    assert(pow256(3) == 16777216);
    assert(pow256(4) == 4294967296);
    assert(pow256(5) == 1099511627776);
    assert(pow256(6) == 281474976710656);
    assert(pow256(7) == 72057594037927936);
}

spec fn pow256(n: nat) -> nat
    decreases n,
{
    if n == 0 { 1 } else { 256 * pow256((n - 1) as nat) }
}

fn read_wkb_uint(b: &[u8], at: usize, n: usize) -> (r: u64)
    requires
        n <= 8,
        1 <= b.len(),
        at + n <= b.len(),
    ensures
        r == wkb_uint(b@, at as int, n as nat),
{
    if b[0] == 1 {
        read_uint_le(b, at, n)
    } else {
        read_uint_be(b, at, n)
    }
}

/// The WKT point of a WKB value, when it encodes a point.
pub fn try_wkb_to_wkt(wkb: &[u8]) -> (r: Option<WktPoint>)
    ensures
        r == wkb_point(wkb@),
{
    if wkb.len() < 21 {
        return None;
    }
    let geom_type = read_wkb_uint(wkb, 1, 4);
    if geom_type == 1 {
        let x = read_wkb_uint(wkb, 5, 8);
        let y = read_wkb_uint(wkb, 13, 8);
        Some(WktPoint { x, y })
    } else {
        None
    }
}

} // verus!

verus! {

// ---------------------------------------------------------------------------
// JSON rendering of a cell

/// The IEEE 754 binary64 value with these bits is NaN or infinite (its
/// exponent field is all ones).
pub open spec fn f64_bits_nonfinite(bits: u64) -> bool {
    (bits >> 52u64) & 0x7ffu64 == 0x7ffu64
}

/// An object `{"_type": tag, ...rest}`.
pub open spec fn tagged(tag: Seq<char>, rest: Seq<(Seq<char>, JsonDocView)>) -> JsonDocView {
    JsonDocView::Object(seq![("_type"@, JsonDocView::Str(tag))] + rest)
}

/// The JSON document for a cell: numbers and text as themselves (a NaN or
/// infinite float as null), bytes as base64 text, and ENUM, SET, JSON and
/// GEOMETRY values as objects tagged with `_type`.
pub open spec fn cell_doc(v: JsonValueView) -> JsonDocView {
    match v {
        JsonValueView::Null => JsonDocView::Null,
        JsonValueView::Bool(b) => JsonDocView::Bool(b),
        JsonValueView::Int(i) => JsonDocView::Int(i),
        JsonValueView::UInt(u) => JsonDocView::UInt(u),
        JsonValueView::Float(f) => if f64_bits_nonfinite(f) {
            JsonDocView::Null
        } else {
            JsonDocView::Float(f)
        },
        JsonValueView::Decimal(t) => JsonDocView::Number(t),
        JsonValueView::Str(s) => JsonDocView::Str(s),
        JsonValueView::Bytes(b) => JsonDocView::Str(base64_standard(b)),
        JsonValueView::Date(s) => JsonDocView::Str(s),
        JsonValueView::Time(s) => JsonDocView::Str(s),
        JsonValueView::DateTime(s) => JsonDocView::Str(s),
        JsonValueView::Enum(e) => tagged("enum"@, seq![("value"@, JsonDocView::Str(e))]),
        JsonValueView::Members(vs) => tagged(
            "set"@,
            seq![("values"@, JsonDocView::Array(vs.map_values(|s: Seq<char>| JsonDocView::Str(s))))],
        ),
        JsonValueView::Json(t) => tagged("json"@, seq![("value"@, JsonDocView::RawJson(t))]),
        JsonValueView::Geometry { wkb_base64, wkt } => tagged(
            "geometry"@,
            seq![
                ("wkb_base64"@, JsonDocView::Str(wkb_base64)),
                (
                    "wkt"@,
                    match wkt {
                        Some(p) => JsonDocView::WktPoint(p.x, p.y),
                        None => JsonDocView::Null,
                    },
                ),
            ],
        ),
    }
}

/// Law of float rendering: a float renders as null exactly when the 11-bit
/// exponent field of its IEEE 754 encoding (the bits above the 52 fraction
/// bits) is all ones, that is, when it is NaN or an infinity; every other
/// value, zero, negative zero and subnormals included, renders as itself.
pub proof fn lemma_float_cell(bits: u64)
    ensures
        f64_bits_nonfinite(bits) <==> (bits / 0x10000000000000u64) % 0x800u64 == 0x7ffu64,
        (bits / 0x10000000000000u64) % 0x800u64 != 0x7ffu64 ==> cell_doc(JsonValueView::Float(bits))
            == JsonDocView::Float(bits),
        (bits / 0x10000000000000u64) % 0x800u64 == 0x7ffu64 ==> cell_doc(JsonValueView::Float(bits))
            == JsonDocView::Null,
{
    assert((bits >> 52u64) & 0x7ffu64 == (bits / 0x10000000000000u64) % 0x800u64) by (bit_vector);
}

impl JsonValue {
    /// Byte strings held are no longer than `isize::MAX`, as every allocation is.
    pub open spec fn bytes_fit(&self) -> bool {
        self matches JsonValue::Bytes(b) ==> b@.len() <= isize::MAX
    }

    /// The JSON document for this cell.
    pub fn to_serde_value(&self) -> (r: JsonDoc)
        requires
            self.bytes_fit(),
        ensures
            r@ == cell_doc(self@),
    {
        match self {
            JsonValue::Null => JsonDoc::Null,
            JsonValue::Bool(b) => JsonDoc::Bool(*b),
            JsonValue::Int(i) => JsonDoc::Int(*i),
            JsonValue::UInt(u) => JsonDoc::UInt(*u),
            JsonValue::Float(f) => {
                if (*f >> 52u64) & 0x7ffu64 == 0x7ffu64 {
                    JsonDoc::Null
                } else {
                    JsonDoc::Float(*f)
                }
            },
            JsonValue::Decimal(t) => JsonDoc::Number(t.clone()),
            JsonValue::String(s) => json_string(s.as_str()),
            JsonValue::Bytes(b) => JsonDoc::String(base64_encode(b.as_slice())),
            JsonValue::Date(d) => json_string(d.as_str()),
            JsonValue::Time(t) => json_string(t.as_str()),
            JsonValue::DateTime(dt) => json_string(dt.as_str()),
            JsonValue::Enum(e) => {
                let members = vec![member("_type", json_string("enum")), member("value", json_string(e.as_str()))];
                assert(member_views(members@) =~= seq![("_type"@, JsonDocView::Str("enum"@))] + seq![("value"@, JsonDocView::Str(e@))]);
                json_object(members)
            },
            JsonValue::SetValues(vals) => {
                let mut items: Vec<JsonDoc> = Vec::new();
                let n = vals.len();
                let mut i: usize = 0;
                while i < n
                    invariant
                        n == vals.len(),
                        i <= n,
                        items@.len() == i,
                        forall|k: int| 0 <= k < i ==> (#[trigger] items@[k])@ == JsonDocView::Str(vals@[k]@),
                    decreases n - i,
                {
                    items.push(json_string(vals[i].as_str()));
                    i = i + 1;
                }
                let ghost expected = string_views(vals@).map_values(|s: Seq<char>| JsonDocView::Str(s));
                assert(item_views(items@) =~= expected);
                let arr = json_array(items);
                let members = vec![member("_type", json_string("set")), member("values", arr)];
                assert(member_views(members@) =~= seq![("_type"@, JsonDocView::Str("set"@))] + seq![("values"@, JsonDocView::Array(expected))]);
                json_object(members)
            },
            JsonValue::Json(text) => {
                let members = vec![member("_type", json_string("json")), member("value", JsonDoc::RawJson(text.clone()))];
                assert(member_views(members@) =~= seq![("_type"@, JsonDocView::Str("json"@))] + seq![("value"@, JsonDocView::RawJson(text@))]);
                json_object(members)
            },
            JsonValue::Geometry { wkb_base64, wkt } => {
                let wkt_doc = match wkt {
                    Some(p) => JsonDoc::WktPoint(p.x, p.y),
                    None => JsonDoc::Null,
                };
                let members = vec![
                    member("_type", json_string("geometry")),
                    member("wkb_base64", json_string(wkb_base64.as_str())),
                    member("wkt", wkt_doc),
                ];
                assert(member_views(members@) =~= seq![("_type"@, JsonDocView::Str("geometry"@))] + seq![
                    ("wkb_base64"@, JsonDocView::Str(wkb_base64@)),
                    ("wkt"@, match wkt { Some(p) => JsonDocView::WktPoint(p.x, p.y), None => JsonDocView::Null }),
                ]);
                json_object(members)
            },
        }
    }
}

} // verus!

verus! {

// ---------------------------------------------------------------------------
// Result sets

/// One result set of a query.
#[derive(Debug, Clone)]
pub struct ResultSet {
    /// Column metadata.
    pub columns: Vec<ColumnInfo>,
    /// The rows kept (at most the streaming threshold many).
    pub rows: Vec<Vec<JsonValue>>,
    /// Rows affected by the statement.
    pub affected_rows: u64,
    /// Whether rows were dropped because the streaming threshold was reached.
    pub truncated: bool,
    /// Rows the result set delivered; larger than `rows.len()` when truncated.
    pub total_rows: usize,
}

/// All result sets of one execution.
#[derive(Debug, Clone)]
pub struct QueryResults {
    /// The result sets, in the order the server sent them.
    pub result_sets: Vec<ResultSet>,
    /// The server's version, when it could be read.
    pub mysql_version: Option<String>,
}

impl QueryResults {
    /// No result sets and no version.
    pub fn new() -> (r: Self)
        ensures
            r.result_sets@.len() == 0,
            r.mysql_version is None,
    {
        QueryResults { result_sets: Vec::new(), mysql_version: None }
    }
}

impl Default for QueryResults {
    fn default() -> (r: Self)
        ensures
            r.result_sets@.len() == 0,
            r.mysql_version is None,
    {
        Self::new()
    }
}

/// The views of the values of a row.
pub open spec fn row_view(row: Seq<Option<Value>>) -> Seq<Option<ValueView>> {
    row.map_values(|v: Option<Value>| value_view(v))
}

/// `out` is the conversion of the row `input` under `columns`: one cell per
/// column, a column without a value in the row giving null.
pub open spec fn row_converted(input: Seq<Option<ValueView>>, columns: Seq<ColumnInfo>, out: Seq<JsonValue>) -> bool {
    &&& out.len() == columns.len()
    &&& forall|j: int|
        0 <= j < columns.len() ==> (#[trigger] out[j])@ == converted_value(
            if j < input.len() { input[j] } else { None },
            columns[j],
        )
}

/// Every byte string of the row fits in memory.
pub open spec fn row_bytes_fit(row: Seq<Option<Value>>) -> bool {
    forall|j: int| 0 <= j < row.len() ==> bytes_fit(#[trigger] row[j])
}

/// Converts one row under `columns`.
pub fn convert_row(row: Vec<Option<Value>>, columns: &Vec<ColumnInfo>) -> (r: Vec<JsonValue>)
    requires
        row_bytes_fit(row@),
    ensures
        row_converted(row_view(row@), columns@, r@),
{
    let ghost input = row@;
    let ncols = columns.len();
    let mut out: Vec<JsonValue> = Vec::new();
    for v in it: row.into_iter()
        invariant
            ncols == columns.len(),
            it.seq() == input,
            row_bytes_fit(input),
            out@.len() == if it.index() < ncols { it.index() as int } else { ncols as int },
            forall|j: int|
                0 <= j < out@.len() ==> (#[trigger] out@[j])@ == converted_value(value_view(input[j]), columns@[j]),
    {
        if out.len() < ncols {
            let k = out.len();
            let cell = convert_mysql_value_to_json(v, &columns[k]);
            out.push(cell);
        }
    }
    while out.len() < ncols
        invariant
            ncols == columns.len(),
            out@.len() <= ncols,
            out@.len() < ncols ==> input.len() <= out@.len(),
            forall|j: int|
                0 <= j < out@.len() ==> (#[trigger] out@[j])@ == converted_value(
                    if j < input.len() { value_view(input[j]) } else { None },
                    columns@[j],
                ),
        decreases ncols - out.len(),
    {
        let k = out.len();
        out.push(convert_mysql_value_to_json(None, &columns[k]));
    }
    assert forall|j: int| 0 <= j < columns@.len() implies (#[trigger] out@[j])@ == converted_value(
        if j < row_view(input).len() { row_view(input)[j] } else { None },
        columns@[j],
    ) by {
        if j < input.len() {
            assert(row_view(input)[j] == value_view(input[j]));
        }
    }
    out
}

} // verus!

verus! {

/// Collects the rows of one result set as the driver streams them: the first
/// `streaming_threshold` rows are converted and kept, later ones are only
/// counted and mark the result set as truncated.
pub struct ResultSetBuilder {
    columns: Vec<ColumnInfo>,
    affected_rows: u64,
    streaming_threshold: usize,
    rows: Vec<Vec<JsonValue>>,
    rows_seen: usize,
    truncated: bool,
    /// The rows received so far.
    received: Ghost<Seq<Seq<Option<ValueView>>>>,
}

impl ResultSetBuilder {
    /// Column metadata.
    pub closed spec fn columns(&self) -> Seq<ColumnInfo> {
        self.columns@
    }

    /// Rows affected by the statement.
    pub closed spec fn affected(&self) -> u64 {
        self.affected_rows
    }

    /// Most rows kept.
    pub closed spec fn threshold(&self) -> usize {
        self.streaming_threshold
    }

    /// The rows received so far, in order.
    pub closed spec fn received(&self) -> Seq<Seq<Option<ValueView>>> {
        self.received@
    }

    /// The rows kept so far.
    pub closed spec fn kept(&self) -> Seq<Vec<JsonValue>> {
        self.rows@
    }

    /// Whether rows have been dropped.
    pub closed spec fn is_truncated(&self) -> bool {
        self.truncated
    }

    /// The builder's invariant: the kept rows are the conversions of the first
    /// `min(received, threshold)` rows received, and the result set is
    /// truncated exactly when more rows than the threshold were received.
    pub closed spec fn wf(&self) -> bool {
        &&& self.rows_seen as int == self.received@.len()
        &&& self.rows@.len() == if self.received@.len() < self.streaming_threshold {
            self.received@.len() as int
        } else {
            self.streaming_threshold as int
        }
        &&& self.truncated == (self.received@.len() > self.streaming_threshold)
        &&& forall|i: int|
            0 <= i < self.rows@.len() ==> row_converted(
                self.received@[i],
                self.columns@,
                (#[trigger] self.rows@[i])@,
            )
    }

    /// A builder that has received no rows.
    pub fn new(columns: Vec<ColumnInfo>, affected_rows: u64, streaming_threshold: usize) -> (r: Self)
        ensures
            r.wf(),
            r.columns() == columns@,
            r.affected() == affected_rows,
            r.threshold() == streaming_threshold,
            r.received().len() == 0,
    {
        ResultSetBuilder {
            columns,
            affected_rows,
            streaming_threshold,
            rows: Vec::new(),
            rows_seen: 0,
            truncated: false,
            received: Ghost(Seq::empty()),
        }
    }

    /// How many rows have been received.
    pub fn rows_seen(&self) -> (r: usize)
        requires
            self.wf(),
        ensures
            r == self.received().len(),
    {
        self.rows_seen
    }

    /// Takes the next row of the result set: it is converted and kept while
    /// fewer than `threshold` rows are kept, and otherwise dropped.
    pub fn accept_row(&mut self, row: Vec<Option<Value>>)
        requires
            old(self).wf(),
            old(self).received().len() < usize::MAX,
            row_bytes_fit(row@),
        ensures
            final(self).wf(),
            final(self).columns() == old(self).columns(),
            final(self).affected() == old(self).affected(),
            final(self).threshold() == old(self).threshold(),
            final(self).received() == old(self).received().push(row_view(row@)),
            old(self).kept().len() < old(self).threshold() ==> final(self).kept().len() == old(self).kept().len() + 1
                && final(self).kept().take(old(self).kept().len() as int) == old(self).kept()
                && row_converted(row_view(row@), old(self).columns(), final(self).kept().last()@),
            old(self).kept().len() >= old(self).threshold() ==> final(self).kept() == old(self).kept()
                && final(self).is_truncated(),
    {
        let ghost row_v = row_view(row@);
        let ghost old_rows = self.rows@;
        if self.rows.len() >= self.streaming_threshold {
            self.truncated = true;
        } else {
            let converted = convert_row(row, &self.columns);
            self.rows.push(converted);
            assert(self.rows@.take(old_rows.len() as int) =~= old_rows);
        }
        self.rows_seen = self.rows_seen + 1;
        self.received = Ghost(self.received@.push(row_v));
        assert forall|i: int| 0 <= i < self.rows@.len() implies row_converted(
            self.received@[i],
            self.columns@,
            (#[trigger] self.rows@[i])@,
        ) by {
            if i < old_rows.len() {
                assert(self.rows@[i] == old_rows[i]);
            }
        }
    }

    /// The result set: the kept rows, with the number of rows received as its
    /// total.
    pub fn finish(self) -> (r: ResultSet)
        requires
            self.wf(),
        ensures
            r.columns@ == self.columns(),
            r.rows@ == self.kept(),
            r.affected_rows == self.affected(),
            r.truncated == self.is_truncated(),
            r.total_rows == self.received().len(),
    {
        ResultSet {
            columns: self.columns,
            rows: self.rows,
            affected_rows: self.affected_rows,
            truncated: self.truncated,
            total_rows: self.rows_seen,
        }
    }
}

/// Law of the streaming threshold: a well-formed builder keeps
/// `min(received, threshold)` rows, each the conversion of the row received at
/// the same position, and is truncated exactly when it received more rows than
/// the threshold.
pub proof fn lemma_builder_keeps_prefix(b: ResultSetBuilder)
    requires
        b.wf(),
    ensures
        b.kept().len() == if b.received().len() < b.threshold() { b.received().len() as int } else { b.threshold() as int },
        b.is_truncated() == (b.received().len() > b.threshold()),
        forall|i: int| 0 <= i < b.kept().len() ==> row_converted(b.received()[i], b.columns(), (#[trigger] b.kept()[i])@),
{
}

} // verus!

verus! {

// ---------------------------------------------------------------------------
// Errors

/// Errors of database operations.
#[derive(Debug, Clone)]
pub enum DatabaseError {
    /// The connection could not be established.
    ConnectionError(String),
    /// The query failed.
    QueryError(String),
    /// The connection pool failed.
    PoolError(String),
    /// Access was denied for lack of privileges.
    AccessDenied(String),
    /// The query ran longer than this many seconds.
    Timeout(u64),
}

/// The message names an access-denied condition (MySQL errors 1044, 1045,
/// 1142, 1143 and 1227, or the words "access denied").
pub open spec fn is_access_denied_message(m: Seq<char>) -> bool {
    ||| has_substring(m, "Access denied"@)
    ||| has_substring(m, "access denied"@)
    ||| has_substring(m, "1044"@)
    ||| has_substring(m, "1045"@)
    ||| has_substring(m, "1142"@)
    ||| has_substring(m, "1143"@)
    ||| has_substring(m, "1227"@)
}

/// The message names a timeout.
pub open spec fn is_timeout_message(m: Seq<char>) -> bool {
    has_substring(m, "timed out"@) || has_substring(m, "timeout"@)
}

/// The display text of a database error.
pub open spec fn database_error_text(e: DatabaseError) -> Seq<char> {
    match e {
        DatabaseError::ConnectionError(s) => "连接错误: "@ + s@,
        DatabaseError::QueryError(s) => "查询执行错误: "@ + s@,
        DatabaseError::PoolError(s) => "连接池错误: "@ + s@,
        DatabaseError::AccessDenied(s) => "访问被拒绝: "@ + s@,
        DatabaseError::Timeout(n) => "查询超时: 超过 "@ + dec_digits(n as nat) + " 秒"@,
    }
}

/// `prefix` followed by `rest`.
pub fn concat_text(prefix: &str, rest: &str) -> (r: String)
    ensures
        r@ == prefix@ + rest@,
{
    let mut r = prefix.to_string();
    r.append(rest);
    r
}

/// `r` is the error a driver error with message `m` becomes: access-denied
/// conditions first, then timeouts (reported without a duration), else a
/// query error carrying the message.
pub open spec fn classified(m: Seq<char>, r: DatabaseError) -> bool {
    if is_access_denied_message(m) {
        r matches DatabaseError::AccessDenied(s) && s@ == m
    } else if is_timeout_message(m) {
        r matches DatabaseError::Timeout(n) && n == 0
    } else {
        r matches DatabaseError::QueryError(s) && s@ == m
    }
}

/// The markers of MySQL's privilege errors: the words "access denied" (in
/// either case of the first letter) and the error codes 1044 (access denied
/// to a database), 1045 (access denied for a user), 1142 (command denied on a
/// table), 1143 (command denied on a column) and 1227 (a privilege missing).
pub open spec fn privilege_error_markers() -> Seq<Seq<char>> {
    seq!["Access denied"@, "access denied"@, "1044"@, "1045"@, "1142"@, "1143"@, "1227"@]
}

/// The message carries one of the privilege-error markers.
pub open spec fn has_privilege_marker(m: Seq<char>) -> bool {
    exists|i: int| 0 <= i < privilege_error_markers().len() && has_substring(m, #[trigger] privilege_error_markers()[i])
}

/// Law of error classification: a driver message carrying a privilege-error
/// marker is access denied, with the message; one without such a marker that
/// mentions a timeout ("timed out" or "timeout") is a timeout; any other is a
/// query error with the message.
pub proof fn lemma_classification(m: Seq<char>, r: DatabaseError)
    requires
        classified(m, r),
    ensures
        has_privilege_marker(m) ==> (r matches DatabaseError::AccessDenied(s) && s@ == m),
        !has_privilege_marker(m) && (has_substring(m, "timed out"@) || has_substring(m, "timeout"@)) ==> (r matches DatabaseError::Timeout(n) && n == 0),
        !has_privilege_marker(m) && !has_substring(m, "timed out"@) && !has_substring(m, "timeout"@) ==> (r matches DatabaseError::QueryError(s) && s@ == m),
{
    let k = privilege_error_markers();
    if has_privilege_marker(m) {
        let i = choose|i: int| 0 <= i < k.len() && has_substring(m, #[trigger] k[i]);
        assert(is_access_denied_message(m));
    } else {
        assert(has_substring(m, "Access denied"@) ==> has_substring(m, k[0]));
        assert(has_substring(m, "access denied"@) ==> has_substring(m, k[1]));
        assert(has_substring(m, "1044"@) ==> has_substring(m, k[2]));
        assert(has_substring(m, "1045"@) ==> has_substring(m, k[3]));
        assert(has_substring(m, "1142"@) ==> has_substring(m, k[4]));
        assert(has_substring(m, "1143"@) ==> has_substring(m, k[5]));
        assert(has_substring(m, "1227"@) ==> has_substring(m, k[6]));
        assert(!is_access_denied_message(m));
    }
}

impl DatabaseError {
    /// Classifies a driver error by its message: access-denied conditions
    /// first, then timeouts (reported without a duration), else a query error
    /// carrying the message.
    pub fn from_error_message(err_str: String) -> (r: DatabaseError)
        ensures
            classified(err_str@, r),
    {
        let m = err_str.as_str();
        if contains_str(m, "Access denied") || contains_str(m, "access denied") || contains_str(m, "1044")
            || contains_str(m, "1045") || contains_str(m, "1142") || contains_str(m, "1143") || contains_str(m, "1227") {
            DatabaseError::AccessDenied(err_str)
        } else if contains_str(m, "timed out") || contains_str(m, "timeout") {
            DatabaseError::Timeout(0)
        } else {
            DatabaseError::QueryError(err_str)
        }
    }

    /// The error a driver error becomes, classified by the driver error's
    /// message text.  That text comes from the driver (and through it from
    /// the server or the operating system), so the result is the
    /// classification of a text that the error gave.
    pub fn from_mysql_error(err: &mysql::Error) -> (r: DatabaseError)
        ensures
            exists|m: Seq<char>| mysql_text_reported(*err, m) && classified(m, r),
    {
        let text = mysql_error_text(err);
        let r = DatabaseError::from_error_message(text);
        assert(mysql_text_reported(*err, text@) && classified(text@, r));
        r
    }

    /// The display text of the error.
    pub fn to_string(&self) -> (r: String)
        ensures
            r@ == database_error_text(*self),
    {
        match self {
            DatabaseError::ConnectionError(s) => concat_text("连接错误: ", s.as_str()),
            DatabaseError::QueryError(s) => concat_text("查询执行错误: ", s.as_str()),
            DatabaseError::PoolError(s) => concat_text("连接池错误: ", s.as_str()),
            DatabaseError::AccessDenied(s) => concat_text("访问被拒绝: ", s.as_str()),
            DatabaseError::Timeout(n) => {
                let mut r = "查询超时: 超过 ".to_string();
                push_decimal(&mut r, *n);
                r.append(" 秒");
                r
            },
        }
    }
}

} // verus!
