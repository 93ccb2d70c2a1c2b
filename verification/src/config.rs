//! Application configuration: database connection settings and execution
//! parameters.  Reading the TOML file happens at the edge of the program; this
//! module holds the configuration itself, its defaults and its lookups.

use vstd::prelude::*;

verus! {

/// Database connection settings.
#[derive(Debug, Clone)]
pub struct DatabaseConfig {
    /// MySQL host name or IP address.
    pub host: String,
    /// MySQL port.
    pub port: u16,
    /// User name.
    pub username: String,
    /// Password.
    pub password: String,
    /// Database to connect to.
    pub database: String,
    /// Connection pool size.
    pub pool_size: u32,
    /// Query timeout in seconds.
    pub timeout_seconds: u64,
}

/// Pool size when the configuration names none.
pub fn default_pool_size() -> (r: u32)
    ensures
        r == 10,
{
    10
}

/// Query timeout in seconds when the configuration names none.
pub fn default_timeout() -> (r: u64)
    ensures
        r == 300,
{
    300
}

/// Most files processed at once when the configuration names none.
pub fn default_max_concurrent() -> (r: usize)
    ensures
        r == 4,
{
    4
}

/// How SQL files are executed.
#[derive(Debug, Clone)]
pub struct ExecutionConfig {
    /// Directory scanned for SQL files.
    pub scan_directory: String,
    /// Most files processed at once.
    pub max_concurrent_files: usize,
    /// Execution interval in minutes per file, keyed by the file's path
    /// relative to the scan directory; each path occurs at most once.
    pub file_intervals: Vec<(String, u64)>,
}

/// The application configuration.
#[derive(Debug, Clone)]
pub struct Config {
    /// Database connection settings.
    pub database: DatabaseConfig,
    /// Execution settings.
    pub execution: ExecutionConfig,
}

/// The interval configured for `key`: the value of the first entry with that
/// key, if any.
pub open spec fn interval_lookup(entries: Seq<(String, u64)>, key: Seq<char>) -> Option<u64>
    decreases entries.len(),
{
    if entries.len() == 0 {
        None
    } else if entries[0].0@ == key {
        Some(entries[0].1)
    } else {
        interval_lookup(entries.drop_first(), key)
    }
}

/// No path is configured twice.
pub open spec fn keys_distinct(entries: Seq<(String, u64)>) -> bool {
    forall|i: int, j: int| 0 <= i < j < entries.len() ==> (#[trigger] entries[i]).0@ != (#[trigger] entries[j]).0@
}

impl Config {
    /// Each configured path occurs once.
    pub open spec fn wf(&self) -> bool {
        keys_distinct(self.execution.file_intervals@)
    }

    /// The interval (in minutes) configured for the file at `relative_path`;
    /// `None` when none is configured, in which case the file always runs.
    pub fn get_interval_for_file(&self, relative_path: &str) -> (r: Option<u64>)
        ensures
            r == interval_lookup(self.execution.file_intervals@, relative_path@),
    {
        let entries = &self.execution.file_intervals;
        let key = relative_path.to_string();
        let n = entries.len();
        let mut i: usize = 0;
        assert(entries@.skip(0) =~= entries@);
        while i < n
            invariant
                n == entries@.len(),
                entries@ == self.execution.file_intervals@,
                key@ == relative_path@,
                i <= n,
                interval_lookup(entries@, relative_path@) == interval_lookup(entries@.skip(i as int), relative_path@),
            decreases n - i,
        {
            assert(entries@.skip(i as int).drop_first() =~= entries@.skip(i + 1));
            if entries[i].0 == key {
                assert(entries@.skip(i as int)[0] == entries@[i as int]);
                return Some(entries[i].1);
            }
            i = i + 1;
        }
        None
    }

    /// The configuration written when none exists yet.
    pub fn default_config() -> (r: Config)
        ensures
            r.database.host@ == "localhost"@,
            r.database.port == 3306,
            r.database.username@ == "root"@,
            r.database.password@ == "password"@,
            r.database.database@ == "test"@,
            r.database.pool_size == 10,
            r.database.timeout_seconds == 300,
            r.execution.scan_directory@ == "./sql"@,
            r.execution.max_concurrent_files == 4,
            r.execution.file_intervals@.len() == 0,
            r.wf(),
    {
        Config {
            database: DatabaseConfig {
                host: "localhost".to_string(),
                port: 3306,
                username: "root".to_string(),
                password: "password".to_string(),
                database: "test".to_string(),
                pool_size: 10,
                timeout_seconds: 300,
            },
            execution: ExecutionConfig {
                scan_directory: "./sql".to_string(),
                max_concurrent_files: 4,
                file_intervals: Vec::new(),
            },
        }
    }
}

/// Law of the interval table: when no path is configured twice, looking up a
/// configured path gives its configured interval, and a path that is not
/// configured gives none.
pub proof fn lemma_interval_lookup(entries: Seq<(String, u64)>, key: Seq<char>)
    requires
        keys_distinct(entries),
    ensures
        forall|i: int| 0 <= i < entries.len() && (#[trigger] entries[i]).0@ == key ==> interval_lookup(entries, key) == Some(entries[i].1),
        (forall|i: int| 0 <= i < entries.len() ==> (#[trigger] entries[i]).0@ != key) ==> interval_lookup(entries, key) is None,
    decreases entries.len(),
{
    if entries.len() > 0 {
        let rest = entries.drop_first();
        assert(keys_distinct(rest)) by {
            assert forall|i: int, j: int| 0 <= i < j < rest.len() implies (#[trigger] rest[i]).0@ != (#[trigger] rest[j]).0@ by {
                assert(rest[i] == entries[i + 1]);
                assert(rest[j] == entries[j + 1]);
            }
        }
        lemma_interval_lookup(rest, key);
        assert forall|i: int| 0 <= i < entries.len() && (#[trigger] entries[i]).0@ == key implies interval_lookup(entries, key) == Some(entries[i].1) by {
            if i > 0 {
                assert(rest[i - 1] == entries[i]);
                assert(entries[0].0@ != key);
            }
        }
        if forall|i: int| 0 <= i < entries.len() ==> (#[trigger] entries[i]).0@ != key {
            assert forall|i: int| 0 <= i < rest.len() implies (#[trigger] rest[i]).0@ != key by {
                assert(rest[i] == entries[i + 1]);
            }
        }
    }
}

} // verus!
