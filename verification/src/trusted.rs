//! Calls into std and outside crates whose contracts are trusted rather than
//! proved.  Each item says, in its doc comment, what it claims of the called
//! function.

use vstd::prelude::*;
use vstd::utf8::{decode_utf8, valid_utf8};
use crate::text::split_on;

verus! {

/// `std::io::Error`, carried through opaquely.
#[verifier::external_type_specification]
#[verifier::external_body]
pub struct ExIoError(std::io::Error);

/// `serde_json::Error`, carried through opaquely.
#[verifier::external_type_specification]
#[verifier::external_body]
pub struct ExSerdeJsonError(serde_json::Error);

/// `mysql::Error`, carried through opaquely.
#[verifier::external_type_specification]
#[verifier::external_body]
pub struct ExMysqlError(mysql::Error);

/// `text` is a `Display` text that `mysql::Error` gave for `e`.  It is a
/// relation, not a function: nothing says which text comes, nor that two
/// calls give the same one.
pub uninterp spec fn mysql_text_reported(e: mysql::Error, text: Seq<char>) -> bool;

/// The `Display` text of a `mysql::Error`.  It wraps the text of the inner
/// error, which may be the server's message or the operating system's, so
/// the contract only ties the text to the error it was asked of.
#[verifier::external_body]
pub fn mysql_error_text(e: &mysql::Error) -> (r: String)
    ensures
        mysql_text_reported(*e, r@),
{
    e.to_string()
}

/// `String::push` from std: appends the given char to the end of the string.
#[verifier::external_body]
pub fn push_char(s: &mut String, c: char)
    ensures
        final(s)@ == old(s)@.push(c),
{
    s.push(c);
}

/// `std::str::from_utf8`: succeeds exactly on valid UTF-8 and then yields the
/// decoded characters (here copied into an owned `String`).
#[verifier::external_body]
pub fn utf8_to_string(bytes: &[u8]) -> (r: Option<String>)
    ensures
        r is Some <==> valid_utf8(bytes@),
        r matches Some(s) ==> s@ == decode_utf8(bytes@),
{
    match std::str::from_utf8(bytes) {
        Ok(s) => Some(s.to_string()),
        Err(_) => None,
    }
}

/// What `base64::engine::general_purpose::STANDARD.encode` returns for the
/// given bytes (RFC 4648 standard alphabet, with `=` padding).
pub uninterp spec fn base64_standard(bytes: Seq<u8>) -> Seq<char>;

/// `base64::Engine::encode` with the `STANDARD` engine.  The claim is only that
/// the result is a function of the input bytes; the crate panics when the
/// encoded length overflows `usize`, which the length bound rules out.
#[verifier::external_body]
pub fn base64_encode(bytes: &[u8]) -> (r: String)
    requires
        bytes@.len() <= isize::MAX,
    ensures
        r@ == base64_standard(bytes@),
{
    base64::Engine::encode(&base64::engine::general_purpose::STANDARD, bytes)
}

/// Whether `serde_json::from_str::<serde_json::Value>` accepts the text.
pub uninterp spec fn json_text_parses(text: Seq<char>) -> bool;

/// `serde_json::from_str` into `serde_json::Value`; only whether it succeeds
/// is reported, and that is a function of the text.
#[verifier::external_body]
pub fn json_text_is_valid(text: &str) -> (r: bool)
    ensures
        r == json_text_parses(text@),
{
    serde_json::from_str::<serde_json::Value>(text).is_ok()
}

/// A path component that `Path` reads as a name: not empty, and neither `.`
/// nor `..`.
pub open spec fn plain_component(c: Seq<char>) -> bool {
    c.len() > 0 && c != seq!['.'] && c != seq!['.', '.']
}

/// Plain components joined by single slashes, as in `reports/daily.sql`.
pub open spec fn plain_relative(s: Seq<char>) -> bool {
    forall|k: int| 0 <= k < split_on(s, '/').len() ==> plain_component(#[trigger] split_on(s, '/')[k])
}

/// A path of plain components, relative, absolute (`/data/sql`) or starting
/// with `./`.
pub open spec fn plain_path(p: Seq<char>) -> bool {
    ||| plain_relative(p)
    ||| (p.len() > 0 && p[0] == '/' && plain_relative(p.skip(1)))
    ||| (p.len() > 1 && p[0] == '.' && p[1] == '/' && plain_relative(p.skip(2)))
}

/// `path` is `stem`, a dot and `ext`, the extension of its file name: `ext`
/// is not empty and holds no dot or slash, and `stem` is not empty and does
/// not end with a slash.
pub open spec fn splits_at_extension(path: Seq<char>, stem: Seq<char>, ext: Seq<char>) -> bool {
    &&& path == stem + seq!['.'] + ext
    &&& ext.len() > 0 && !ext.contains('.') && !ext.contains('/')
    &&& stem.len() > 0 && stem.last() != '/'
}

/// What `Path::strip_prefix` gives for `path` and `base`, as a string
/// (`None` when `base` is not a prefix of `path` component-wise).
pub uninterp spec fn path_strip_prefix_result(path: Seq<char>, base: Seq<char>) -> Option<Seq<char>>;

/// `std::path::Path::strip_prefix`, its result turned back into a `String`.
/// Beyond naming the result, the contract states what the documentation
/// shows for plain paths: when `path` is `base`, a slash and a relative path
/// `rest`, the result is `rest` (the path that, joined onto `base`, gives
/// `path`).
#[verifier::external_body]
pub fn path_strip_prefix(path: &str, base: &str) -> (r: Option<String>)
    ensures
        r matches Some(s) ==> path_strip_prefix_result(path@, base@) == Some(s@),
        r is None ==> path_strip_prefix_result(path@, base@) is None,
        forall|rest: Seq<char>|
            plain_path(base@) && #[trigger] plain_relative(rest) && path@ == base@ + seq!['/'] + rest
                ==> r is Some && r->0@ == rest,
{
    match std::path::Path::new(path).strip_prefix(base) {
        Ok(p) => Some(p.to_string_lossy().into_owned()),
        Err(_) => None,
    }
}

/// What `Path::with_extension` gives for `path` and `ext`, as a string.
pub uninterp spec fn path_with_extension_result(path: Seq<char>, ext: Seq<char>) -> Seq<char>;

/// `std::path::Path::with_extension`, its result turned into a `String`.
/// Newer std versions panic on an extension holding a path separator, which
/// the `requires` rules out.  Beyond naming the result, the contract states
/// what the documentation of `set_extension` and `extension` gives: when the
/// file name has an extension (the part after its final dot), that part is
/// replaced by `ext` and the rest of the path stays.
#[verifier::external_body]
pub fn path_with_extension(path: &str, ext: &str) -> (r: String)
    requires
        !ext@.contains('/'),
    ensures
        r@ == path_with_extension_result(path@, ext@),
        forall|stem: Seq<char>, old_ext: Seq<char>|
            #[trigger] splits_at_extension(path@, stem, old_ext) && ext@.len() > 0 ==> r@ == stem + seq!['.'] + ext@,
{
    std::path::Path::new(path).with_extension(ext).to_string_lossy().into_owned()
}

/// What `Path::extension` gives for `path`, as a string.
pub uninterp spec fn path_extension_result(path: Seq<char>) -> Option<Seq<char>>;

/// `std::path::Path::extension`, the extension turned into a `String`.
/// Beyond naming the result, the contract states what the documentation
/// gives: the extension is the part of the file name after its final dot,
/// and a path without any dot has none.
#[verifier::external_body]
pub fn path_extension(path: &str) -> (r: Option<String>)
    ensures
        r matches Some(s) ==> path_extension_result(path@) == Some(s@),
        r is None ==> path_extension_result(path@) is None,
        forall|stem: Seq<char>, ext: Seq<char>|
            #[trigger] splits_at_extension(path@, stem, ext) ==> r is Some && r->0@ == ext,
        !path@.contains('.') ==> r is None,
{
    match std::path::Path::new(path).extension() {
        Some(e) => Some(e.to_string_lossy().into_owned()),
        None => None,
    }
}

/// The file system answered `answer` when asked whether something exists at
/// `path`.  A relation: nothing says which answer comes, nor that two calls
/// agree.
pub uninterp spec fn exists_reported(path: Seq<char>, answer: bool) -> bool;

/// `std::path::Path::exists`: asks the file system, so the contract only ties
/// the answer to the path it was asked of.
#[verifier::external_body]
pub fn path_exists(path: &str) -> (r: bool)
    ensures
        exists_reported(path@, r),
{
    std::path::Path::new(path).exists()
}

/// The file system answered `answer` when asked whether a directory is at
/// `path`.  A relation: nothing says which answer comes, nor that two calls
/// agree.
pub uninterp spec fn dir_reported(path: Seq<char>, answer: bool) -> bool;

/// `std::path::Path::is_dir`: asks the file system whether a directory is
/// there, so the contract only ties the answer to the path it was asked of.
#[verifier::external_body]
pub fn path_is_dir(path: &str) -> (r: bool)
    ensures
        dir_reported(path@, r),
{
    std::path::Path::new(path).is_dir()
}

/// `text` is a `Display` text that `std::io::Error` gave for `e`.  A
/// relation: nothing says which text comes, nor that two calls agree.
pub uninterp spec fn io_text_reported(e: std::io::Error, text: Seq<char>) -> bool;

/// The `Display` text of a `std::io::Error`; it comes from the operating
/// system, so the contract only ties the text to the error it was asked of.
#[verifier::external_body]
pub fn io_error_text(e: &std::io::Error) -> (r: String)
    ensures
        io_text_reported(*e, r@),
{
    e.to_string()
}

/// `text` is a `Display` text that `serde_json::Error` gave for `e`.  A
/// relation: nothing says which text comes.
pub uninterp spec fn json_error_text_reported(e: serde_json::Error, text: Seq<char>) -> bool;

/// The `Display` text of a `serde_json::Error`; the contract only ties the
/// text to the error it was asked of.
#[verifier::external_body]
pub fn json_error_text(e: &serde_json::Error) -> (r: String)
    ensures
        json_error_text_reported(*e, r@),
{
    e.to_string()
}

} // verus!
