//! SQL files found under the scan directory.  Walking the directory tree is
//! done at the edge of the program; this module decides which of the files
//! found are SQL files and where their JSON output goes.

use vstd::prelude::*;
use crate::database::concat_text;
use crate::text::{eq_ignore_ascii_case, eq_ignore_case};
use crate::trusted::{
    dir_reported, exists_reported, io_error_text, io_text_reported, path_exists, path_extension, path_is_dir, path_extension_result, path_strip_prefix,
    path_strip_prefix_result, path_with_extension, path_with_extension_result, plain_path, plain_relative,
    splits_at_extension,
};

verus! {

/// `p` is a prefix of `s`.
pub open spec fn starts_with(s: Seq<char>, p: Seq<char>) -> bool {
    p.len() <= s.len() && s.subrange(0, p.len() as int) == p
}

/// Errors of scanning.
#[derive(Debug)]
pub enum ScannerError {
    /// The scan directory does not exist.
    DirectoryNotFound(String),
    /// A file system error.
    IoError(std::io::Error),
    /// An SQL file could not be read.
    ReadError(String),
}

impl From<std::io::Error> for ScannerError {
    fn from(e: std::io::Error) -> (r: Self) {
        ScannerError::IoError(e)
    }
}

impl vstd::std_specs::convert::FromSpecImpl<std::io::Error> for ScannerError {
    open spec fn obeys_from_spec() -> bool {
        true
    }

    open spec fn from_spec(e: std::io::Error) -> Self {
        ScannerError::IoError(e)
    }
}

/// `t` is the display text of `e`: a prefix naming the kind of error followed
/// by its detail (for a file system error, a text the error gave).
pub open spec fn scanner_error_text(e: ScannerError, t: Seq<char>) -> bool {
    match e {
        ScannerError::DirectoryNotFound(s) => t == "目录未找到: "@ + s@,
        ScannerError::IoError(e) => exists|d: Seq<char>| io_text_reported(e, d) && t == "IO 错误: "@ + d,
        ScannerError::ReadError(s) => t == "读取 SQL 文件失败: "@ + s@,
    }
}

impl ScannerError {
    /// The display text of the error.
    pub fn to_string(&self) -> (r: String)
        ensures
            scanner_error_text(*self, r@),
    {
        match self {
            ScannerError::DirectoryNotFound(s) => concat_text("目录未找到: ", s.as_str()),
            ScannerError::IoError(e) => {
                let detail = io_error_text(e);
                let r = concat_text("IO 错误: ", detail.as_str());
                assert(io_text_reported(*e, detail@) && r@ == "IO 错误: "@ + detail@);
                r
            },
            ScannerError::ReadError(s) => concat_text("读取 SQL 文件失败: ", s.as_str()),
        }
    }
}

/// The path of `absolute` relative to `base`, or `absolute` itself when
/// `base` is not a prefix of it.
pub open spec fn relative_path_of(absolute: Seq<char>, base: Seq<char>) -> Seq<char> {
    match path_strip_prefix_result(absolute, base) {
        Some(r) => r,
        None => absolute,
    }
}

/// Where the JSON output of the SQL file at `absolute` goes: the same path
/// with the extension `json`.
pub open spec fn json_path_of(absolute: Seq<char>) -> Seq<char> {
    path_with_extension_result(absolute, "json"@)
}

/// A discovered SQL file.
#[derive(Debug, Clone)]
pub struct SqlFile {
    /// Full path of the SQL file.
    pub absolute_path: String,
    /// Path relative to the scan directory.
    pub relative_path: String,
    /// Path the JSON output is written to.
    pub json_path: String,
}

impl SqlFile {
    /// The SQL file at `absolute_path`, found under `base_dir`.
    pub fn new(absolute_path: String, base_dir: &str) -> (r: SqlFile)
        ensures
            r.absolute_path@ == absolute_path@,
            r.relative_path@ == relative_path_of(absolute_path@, base_dir@),
            r.json_path@ == json_path_of(absolute_path@),
            forall|rest: Seq<char>|
                plain_path(base_dir@) && #[trigger] plain_relative(rest) && absolute_path@ == base_dir@ + seq!['/'] + rest
                    ==> r.relative_path@ == rest,
            forall|stem: Seq<char>, ext: Seq<char>|
                #[trigger] splits_at_extension(absolute_path@, stem, ext) ==> r.json_path@ == stem + seq!['.', 'j', 's', 'o', 'n'],
    {
        let relative_path = match path_strip_prefix(absolute_path.as_str(), base_dir) {
            Some(r) => r,
            None => absolute_path.clone(),
        };
        proof {
            reveal_strlit("json");
        }
        let json_path = path_with_extension(absolute_path.as_str(), "json");
        assert(seq!['.'] + "json"@ =~= seq!['.', 'j', 's', 'o', 'n']);
        assert forall|stem: Seq<char>, ext: Seq<char>|
            #[trigger] splits_at_extension(absolute_path@, stem, ext) implies json_path@ == stem + seq!['.', 'j', 's', 'o', 'n'] by {
            assert(stem + seq!['.'] + "json"@ =~= stem + seq!['.', 'j', 's', 'o', 'n']);
        }
        SqlFile { absolute_path, relative_path, json_path }
    }

    /// Whether the JSON output file exists.  The answer comes from the file
    /// system, asked about the output path.
    pub fn json_exists(&self) -> (r: bool)
        ensures
            exists_reported(self.json_path@, r),
    {
        path_exists(self.json_path.as_str())
    }
}

/// The file at `path` has the extension `sql`, in any letter case.
pub open spec fn is_sql_path(path: Seq<char>) -> bool {
    match path_extension_result(path) {
        Some(ext) => eq_ignore_ascii_case(ext, "sql"@),
        None => false,
    }
}

/// The SQL paths among `paths`, in order.
pub open spec fn sql_paths(paths: Seq<Seq<char>>) -> Seq<Seq<char>>
    decreases paths.len(),
{
    if paths.len() == 0 {
        Seq::<Seq<char>>::empty()
    } else if is_sql_path(paths.last()) {
        sql_paths(paths.drop_last()).push(paths.last())
    } else {
        sql_paths(paths.drop_last())
    }
}

/// `f` is the SQL file found at `absolute` under `base`.
pub open spec fn is_sql_file_for(f: SqlFile, absolute: Seq<char>, base: Seq<char>) -> bool {
    &&& f.absolute_path@ == absolute
    &&& f.relative_path@ == relative_path_of(absolute, base)
    &&& f.json_path@ == json_path_of(absolute)
}

/// Scans a directory tree for SQL files.
#[derive(Debug)]
pub struct Scanner {
    base_directory: String,
}

impl Scanner {
    /// The directory scanned.
    pub closed spec fn base(&self) -> Seq<char> {
        self.base_directory@
    }

    /// A scanner for `base_directory`, which must be a directory.  Whether it
    /// is one is asked of the file system; the scanner is made exactly when
    /// the answer is yes (see `for_directory`).
    pub fn new(base_directory: &str) -> (r: Result<Scanner, ScannerError>)
        ensures
            dir_reported(base_directory@, r is Ok),
            r matches Ok(s) ==> s.base() == base_directory@,
            r matches Err(e) ==> (e matches ScannerError::DirectoryNotFound(p) && p@ == base_directory@),
    {
        let is_directory = path_is_dir(base_directory);
        Self::for_directory(base_directory, is_directory)
    }

    /// A scanner for `base_directory`, given whether a directory is there:
    /// the scanner when there is one, else the error naming the path.
    pub fn for_directory(base_directory: &str, is_directory: bool) -> (r: Result<Scanner, ScannerError>)
        ensures
            is_directory <==> r is Ok,
            r matches Ok(s) ==> s.base() == base_directory@,
            r matches Err(e) ==> (e matches ScannerError::DirectoryNotFound(p) && p@ == base_directory@),
    {
        if !is_directory {
            return Err(ScannerError::DirectoryNotFound(base_directory.to_string()));
        }
        Ok(Scanner { base_directory: base_directory.to_string() })
    }

    /// The directory scanned.
    pub fn base_directory(&self) -> (r: &str)
        ensures
            r@ == self.base(),
    {
        self.base_directory.as_str()
    }

    /// Whether `path` names an SQL file (extension `sql`, any case).
    pub fn is_sql_file(path: &str) -> (r: bool)
        ensures
            r == is_sql_path(path@),
            forall|stem: Seq<char>, ext: Seq<char>|
                #[trigger] splits_at_extension(path@, stem, ext) ==> r == eq_ignore_ascii_case(ext, seq!['s', 'q', 'l']),
            !path@.contains('.') ==> !r,
    {
        proof {
            reveal_strlit("sql");
            assert("sql"@ =~= seq!['s', 'q', 'l']);
        }
        match path_extension(path) {
            Some(ext) => eq_ignore_case(ext.as_str(), "sql"),
            None => false,
        }
    }

    /// The SQL files among the files found under the scan directory, in the
    /// order found.
    pub fn collect_sql_files(&self, paths: &Vec<String>) -> (r: Vec<SqlFile>)
        ensures
            r@.len() == sql_paths(paths@.map_values(|p: String| p@)).len(),
            forall|i: int|
                0 <= i < r@.len() ==> is_sql_file_for(
                    #[trigger] r@[i],
                    sql_paths(paths@.map_values(|p: String| p@))[i],
                    self.base(),
                ),
    {
        let ghost views = paths@.map_values(|p: String| p@);
        let mut files: Vec<SqlFile> = Vec::new();
        let n = paths.len();
        let mut i: usize = 0;
        assert(views.take(0) =~= Seq::<Seq<char>>::empty());
        while i < n
            invariant
                n == paths@.len(),
                views == paths@.map_values(|p: String| p@),
                i <= n,
                files@.len() == sql_paths(views.take(i as int)).len(),
                forall|k: int|
                    0 <= k < files@.len() ==> is_sql_file_for(
                        #[trigger] files@[k],
                        sql_paths(views.take(i as int))[k],
                        self.base(),
                    ),
            decreases n - i,
        {
            let path = &paths[i];
            let ghost before = views.take(i as int);
            assert(views.take(i + 1).drop_last() =~= before);
            assert(views.take(i + 1).last() == path@);
            if Self::is_sql_file(path.as_str()) {
                let f = SqlFile::new(path.clone(), self.base_directory.as_str());
                files.push(f);
            }
            i = i + 1;
        }
        assert(views.take(n as int) =~= views);
        files
    }
}

} // verus!
