//! The per-file decisions of an execution run: whether a file is skipped
//! because its output is recent enough, what result a processed file reports,
//! and the summary of a run.  Scanning, running queries and writing files
//! happen at the edge of the program.

use vstd::prelude::*;
use crate::config::{interval_lookup, Config};
use crate::database::{concat_text, database_error_text, DatabaseError};
use crate::json_writer::JsonWriterError;
use crate::json_writer::json_writer_error_text;
use crate::scanner::{scanner_error_text, starts_with, ScannerError, SqlFile};

verus! {

/// Errors of an execution run.
#[derive(Debug)]
pub enum ExecutorError {
    /// Scanning failed.
    ScannerError(ScannerError),
    /// A database operation failed.
    DatabaseError(DatabaseError),
    /// Writing the JSON output failed.
    JsonWriterError(JsonWriterError),
    /// The configuration is unusable.
    ConfigError(String),
}

impl From<ScannerError> for ExecutorError {
    fn from(e: ScannerError) -> (r: Self) {
        ExecutorError::ScannerError(e)
    }
}

impl vstd::std_specs::convert::FromSpecImpl<ScannerError> for ExecutorError {
    open spec fn obeys_from_spec() -> bool {
        true
    }

    open spec fn from_spec(e: ScannerError) -> Self {
        ExecutorError::ScannerError(e)
    }
}

impl From<DatabaseError> for ExecutorError {
    fn from(e: DatabaseError) -> (r: Self) {
        ExecutorError::DatabaseError(e)
    }
}

impl vstd::std_specs::convert::FromSpecImpl<DatabaseError> for ExecutorError {
    open spec fn obeys_from_spec() -> bool {
        true
    }

    open spec fn from_spec(e: DatabaseError) -> Self {
        ExecutorError::DatabaseError(e)
    }
}

impl From<JsonWriterError> for ExecutorError {
    fn from(e: JsonWriterError) -> (r: Self) {
        ExecutorError::JsonWriterError(e)
    }
}

impl vstd::std_specs::convert::FromSpecImpl<JsonWriterError> for ExecutorError {
    open spec fn obeys_from_spec() -> bool {
        true
    }

    open spec fn from_spec(e: JsonWriterError) -> Self {
        ExecutorError::JsonWriterError(e)
    }
}

/// `t` is the display text of `e`: a prefix naming the kind of error,
/// followed by the display text of the cause.
pub open spec fn executor_error_text(e: ExecutorError, t: Seq<char>) -> bool {
    match e {
        ExecutorError::ScannerError(c) => starts_with(t, "扫描器错误: "@) && scanner_error_text(
            c,
            t.skip("扫描器错误: "@.len() as int),
        ),
        ExecutorError::DatabaseError(c) => t == "数据库错误: "@ + database_error_text(c),
        ExecutorError::JsonWriterError(c) => starts_with(t, "JSON 写入器错误: "@) && json_writer_error_text(
            c,
            t.skip("JSON 写入器错误: "@.len() as int),
        ),
        ExecutorError::ConfigError(s) => t == "配置错误: "@ + s@,
    }
}

impl ExecutorError {
    /// The display text of the error: a prefix naming the kind of error,
    /// followed by the display text of the cause.
    pub fn to_string(&self) -> (r: String)
        ensures
            executor_error_text(*self, r@),
    {
        match self {
            ExecutorError::ScannerError(e) => {
                let detail = e.to_string();
                let r = concat_text("扫描器错误: ", detail.as_str());
                assert(r@.subrange(0, "扫描器错误: "@.len() as int) =~= "扫描器错误: "@);
                assert(r@.skip("扫描器错误: "@.len() as int) =~= detail@);
                r
            },
            ExecutorError::DatabaseError(e) => {
                let detail = e.to_string();
                concat_text("数据库错误: ", detail.as_str())
            },
            ExecutorError::JsonWriterError(e) => {
                let detail = e.to_string();
                let r = concat_text("JSON 写入器错误: ", detail.as_str());
                assert(r@.subrange(0, "JSON 写入器错误: "@.len() as int) =~= "JSON 写入器错误: "@);
                assert(r@.skip("JSON 写入器错误: "@.len() as int) =~= detail@);
                r
            },
            ExecutorError::ConfigError(s) => concat_text("配置错误: ", s.as_str()),
        }
    }
}

/// What processing one SQL file came to.
#[derive(Debug, Clone)]
pub struct ExecutionResult {
    /// Path of the SQL file relative to the scan directory.
    pub file_path: String,
    /// Whether processing completed without error.
    pub success: bool,
    /// The error's text when processing failed.
    pub error_message: Option<String>,
    /// Processing time in milliseconds.
    pub execution_time_ms: u64,
    /// Whether the JSON output was rewritten.
    pub json_updated: bool,
}

/// A file is skipped when its JSON output exists, an interval is configured
/// for it, and the output was written less than that many minutes ago.
pub open spec fn skip_decision(json_exists: bool, interval_minutes: Option<u64>, elapsed_secs: Option<u64>) -> bool {
    &&& json_exists
    &&& interval_minutes is Some
    &&& elapsed_secs is Some
    &&& (elapsed_secs->0 as int) < (interval_minutes->0 as int) * 60
}

/// Whether `sql_file` is skipped this run.  `json_exists` tells whether its
/// JSON output exists, and `elapsed_secs` how many whole seconds ago that
/// output was last modified (`None` when that cannot be told, or the
/// modification time lies in the future).
pub fn should_skip_file(config: &Config, sql_file: &SqlFile, json_exists: bool, elapsed_secs: Option<u64>) -> (r: bool)
    ensures
        r == skip_decision(
            json_exists,
            interval_lookup(config.execution.file_intervals@, sql_file.relative_path@),
            elapsed_secs,
        ),
{
    if !json_exists {
        return false;
    }
    let interval_minutes = match config.get_interval_for_file(sql_file.relative_path.as_str()) {
        Some(interval) => interval,
        None => return false,
    };
    let elapsed = match elapsed_secs {
        Some(secs) => secs,
        None => return false,
    };
    (elapsed as u128) < (interval_minutes as u128) * 60
}

/// The result reported for a processed file.  A skipped file succeeds without
/// updating its output and reports `elapsed_ms`; otherwise a successful run
/// reports its own execution time and whether the output was updated, and a
/// failed one reports the error's text and `elapsed_ms`.
pub fn build_execution_result(
    file_path: String,
    elapsed_ms: u64,
    result: Result<(u64, bool), ExecutorError>,
    skipped: bool,
) -> (r: ExecutionResult)
    ensures
        r.file_path@ == file_path@,
        skipped ==> r.success && r.error_message is None && r.execution_time_ms == elapsed_ms && !r.json_updated,
        !skipped ==> match result {
            Ok((time_ms, updated)) => r.success && r.error_message is None && r.execution_time_ms == time_ms
                && r.json_updated == updated,
            Err(e) => !r.success && r.execution_time_ms == elapsed_ms && !r.json_updated
                && (r.error_message matches Some(m) && executor_error_text(e, m@)),
        },
{
    if skipped {
        return ExecutionResult {
            file_path,
            success: true,
            error_message: None,
            execution_time_ms: elapsed_ms,
            json_updated: false,
        };
    }
    match result {
        Ok((execution_time_ms, json_updated)) => ExecutionResult {
            file_path,
            success: true,
            error_message: None,
            execution_time_ms,
            json_updated,
        },
        Err(e) => ExecutionResult {
            file_path,
            success: false,
            error_message: Some(e.to_string()),
            execution_time_ms: elapsed_ms,
            json_updated: false,
        },
    }
}

/// Counts over the results of a run.
#[derive(Debug, Clone, Copy, PartialEq, Eq)]
pub struct ExecutionSummary {
    /// Files processed.
    pub total: usize,
    /// Files processed without error.
    pub succeeded: usize,
    /// Files whose processing failed.
    pub failed: usize,
    /// Files whose JSON output was rewritten.
    pub json_updated: usize,
}

/// Number of successful results.
pub open spec fn count_succeeded(rs: Seq<ExecutionResult>) -> nat
    decreases rs.len(),
{
    if rs.len() == 0 {
        0
    } else {
        count_succeeded(rs.drop_last()) + if rs.last().success { 1nat } else { 0nat }
    }
}

/// Number of results whose output was rewritten.
pub open spec fn count_updated(rs: Seq<ExecutionResult>) -> nat
    decreases rs.len(),
{
    if rs.len() == 0 {
        0
    } else {
        count_updated(rs.drop_last()) + if rs.last().json_updated { 1nat } else { 0nat }
    }
}

proof fn lemma_counts_bounded(rs: Seq<ExecutionResult>)
    ensures
        count_succeeded(rs) <= rs.len(),
        count_updated(rs) <= rs.len(),
    decreases rs.len(),
{
    if rs.len() > 0 {
        lemma_counts_bounded(rs.drop_last());
    }
}

impl ExecutionSummary {
    /// The counts over `results`; every result is counted as succeeded or
    /// failed.
    pub fn of(results: &Vec<ExecutionResult>) -> (r: ExecutionSummary)
        ensures
            r.total == results@.len(),
            r.succeeded == count_succeeded(results@),
            r.failed == results@.len() - count_succeeded(results@),
            r.json_updated == count_updated(results@),
    {
        let n = results.len();
        let mut succeeded: usize = 0;
        let mut updated: usize = 0;
        let mut i: usize = 0;
        assert(results@.take(0) =~= Seq::<ExecutionResult>::empty());
        while i < n
            invariant
                n == results@.len(),
                i <= n,
                succeeded == count_succeeded(results@.take(i as int)),
                updated == count_updated(results@.take(i as int)),
            decreases n - i,
        {
            proof {
                assert(results@.take(i + 1).drop_last() =~= results@.take(i as int));
                lemma_counts_bounded(results@.take(i + 1));
            }
            if results[i].success {
                succeeded = succeeded + 1;
            }
            if results[i].json_updated {
                updated = updated + 1;
            }
            i = i + 1;
        }
        assert(results@.take(n as int) =~= results@);
        proof {
            lemma_counts_bounded(results@);
        }
        ExecutionSummary { total: n, succeeded, failed: n - succeeded, json_updated: updated }
    }
}

/// The configuration file used when none is named.
pub const DEFAULT_CONFIG_FILE: &'static str = "config/config.toml";

/// The configuration file to use: the first command-line argument if given,
/// else the value of the environment variable naming one, else
/// `config/config.toml`.
pub fn choose_config_path(argument: Option<String>, environment: Option<String>) -> (r: String)
    ensures
        argument matches Some(a) ==> r@ == a@,
        argument is None ==> (environment matches Some(e) ==> r@ == e@),
        argument is None && environment is None ==> r@ == DEFAULT_CONFIG_FILE@,
{
    match argument {
        Some(a) => a,
        None => match environment {
            Some(e) => e,
            None => DEFAULT_CONFIG_FILE.to_string(),
        },
    }
}

} // verus!

verus! {

/// Where the processing of one SQL file stands.
#[derive(Debug, Clone, Copy, PartialEq, Eq)]
pub enum ProcessPhase {
    /// Nothing has been looked at yet.
    AwaitStart,
    /// The SQL file is being read.
    AwaitContent,
    /// The SQL is being executed.
    AwaitExecution,
    /// The results are being written; the execution took this many milliseconds.
    AwaitWrite { execution_time_ms: u64 },
    /// A result has been reported.
    Done,
}

/// What the outside work of a processing step came to.
#[derive(Debug)]
pub enum ProcessEvent {
    /// Processing begins: whether the JSON output exists and how many whole
    /// seconds ago it was last modified (`None` when that cannot be told).
    Started { json_exists: bool, elapsed_secs: Option<u64> },
    /// The SQL file was read, or could not be.
    ContentRead(Result<(), ScannerError>),
    /// The SQL ran (taking this many milliseconds), or failed.
    Executed(Result<u64, DatabaseError>),
    /// The JSON output was written, or could not be.
    Written(Result<(), JsonWriterError>),
}

/// The outside work to do next.
#[derive(Debug)]
pub enum ProcessAction {
    /// Read the SQL file.
    ReadContent,
    /// Execute the SQL that was read.
    ExecuteSql,
    /// Write the results of the execution to the JSON output.
    WriteJson,
    /// Processing is over with this result.
    Finished(ExecutionResult),
}

/// The event that `phase` waits for.
pub open spec fn expects(phase: ProcessPhase, event: ProcessEvent) -> bool {
    match phase {
        ProcessPhase::AwaitStart => event is Started,
        ProcessPhase::AwaitContent => event is ContentRead,
        ProcessPhase::AwaitExecution => event is Executed,
        ProcessPhase::AwaitWrite { .. } => event is Written,
        ProcessPhase::Done => false,
    }
}

/// What a processing step does: on start, finish at once (successfully,
/// without writing) when the file is skipped, else read it; after a
/// successful read, execute; after a successful execution, write; after a
/// successful write, finish successfully with the output updated and the
/// execution's own duration; after any failure, finish unsuccessfully with
/// the error's text, without touching the output.
pub open spec fn step_outcome(
    phase: ProcessPhase,
    file: SqlFile,
    config: Config,
    event: ProcessEvent,
    elapsed_ms: u64,
    next: ProcessPhase,
    action: ProcessAction,
) -> bool {
    match event {
        ProcessEvent::Started { json_exists, elapsed_secs } => if skip_decision(
            json_exists,
            interval_lookup(config.execution.file_intervals@, file.relative_path@),
            elapsed_secs,
        ) {
            next == ProcessPhase::Done && (action matches ProcessAction::Finished(r)
                && r.file_path@ == file.relative_path@ && r.success && !r.json_updated
                && r.error_message is None && r.execution_time_ms == elapsed_ms)
        } else {
            next == ProcessPhase::AwaitContent && action is ReadContent
        },
        ProcessEvent::ContentRead(Ok(())) => next == ProcessPhase::AwaitExecution && action is ExecuteSql,
        ProcessEvent::Executed(Ok(ms)) => next == (ProcessPhase::AwaitWrite { execution_time_ms: ms })
            && action is WriteJson,
        ProcessEvent::Written(Ok(())) => next == ProcessPhase::Done && (action matches ProcessAction::Finished(r)
            && r.file_path@ == file.relative_path@ && r.success && r.json_updated
            && r.error_message is None && r.execution_time_ms == phase->execution_time_ms),
        ProcessEvent::ContentRead(Err(e)) => next == ProcessPhase::Done && failed_with(
            action,
            file,
            ExecutorError::ScannerError(e),
            elapsed_ms,
        ),
        ProcessEvent::Executed(Err(e)) => next == ProcessPhase::Done && failed_with(
            action,
            file,
            ExecutorError::DatabaseError(e),
            elapsed_ms,
        ),
        ProcessEvent::Written(Err(e)) => next == ProcessPhase::Done && failed_with(
            action,
            file,
            ExecutorError::JsonWriterError(e),
            elapsed_ms,
        ),
    }
}

/// `action` finishes the processing of `file` as failed with `error`: the
/// output is not updated and the result carries the error's text.
pub open spec fn failed_with(action: ProcessAction, file: SqlFile, error: ExecutorError, elapsed_ms: u64) -> bool {
    action matches ProcessAction::Finished(r) && r.file_path@ == file.relative_path@ && !r.success && !r.json_updated
        && r.execution_time_ms == elapsed_ms && (r.error_message matches Some(m) && executor_error_text(error, m@))
}

/// The decisions of processing one SQL file: skip it when its output is
/// recent enough, otherwise read, execute and write, stopping at the first
/// failure so that the existing JSON output is left as it is.
#[derive(Debug)]
pub struct FileProcess {
    file: SqlFile,
    phase: ProcessPhase,
}

impl FileProcess {
    /// The file being processed.
    pub closed spec fn file(&self) -> SqlFile {
        self.file
    }

    /// Where processing stands.
    pub closed spec fn phase(&self) -> ProcessPhase {
        self.phase
    }

    /// Processing of `file`, not begun.
    pub fn new(file: SqlFile) -> (r: Self)
        ensures
            r.file() == file,
            r.phase() == ProcessPhase::AwaitStart,
    {
        FileProcess { file, phase: ProcessPhase::AwaitStart }
    }

    /// Where processing stands.
    pub fn current_phase(&self) -> (r: ProcessPhase)
        ensures
            r == self.phase(),
    {
        self.phase
    }

    /// Takes the outcome of the last piece of outside work and says what to
    /// do next.  `elapsed_ms` is the time spent on the file so far.
    pub fn step(&mut self, config: &Config, event: ProcessEvent, elapsed_ms: u64) -> (action: ProcessAction)
        requires
            expects(old(self).phase(), event),
        ensures
            final(self).file() == old(self).file(),
            step_outcome(old(self).phase(), old(self).file(), *config, event, elapsed_ms, final(self).phase(), action),
    {
        let file_path = self.file.relative_path.clone();
        match event {
            ProcessEvent::Started { json_exists, elapsed_secs } => {
                if should_skip_file(config, &self.file, json_exists, elapsed_secs) {
                    self.phase = ProcessPhase::Done;
                    ProcessAction::Finished(build_execution_result(file_path, elapsed_ms, Ok((0, false)), true))
                } else {
                    self.phase = ProcessPhase::AwaitContent;
                    ProcessAction::ReadContent
                }
            },
            ProcessEvent::ContentRead(Ok(())) => {
                self.phase = ProcessPhase::AwaitExecution;
                ProcessAction::ExecuteSql
            },
            ProcessEvent::ContentRead(Err(e)) => {
                self.phase = ProcessPhase::Done;
                ProcessAction::Finished(build_execution_result(file_path, elapsed_ms, Err(ExecutorError::ScannerError(e)), false))
            },
            ProcessEvent::Executed(Ok(ms)) => {
                self.phase = ProcessPhase::AwaitWrite { execution_time_ms: ms };
                ProcessAction::WriteJson
            },
            ProcessEvent::Executed(Err(e)) => {
                self.phase = ProcessPhase::Done;
                ProcessAction::Finished(build_execution_result(file_path, elapsed_ms, Err(ExecutorError::DatabaseError(e)), false))
            },
            ProcessEvent::Written(Ok(())) => {
                let ms = match self.phase {
                    ProcessPhase::AwaitWrite { execution_time_ms } => execution_time_ms,
                    _ => 0,
                };
                self.phase = ProcessPhase::Done;
                ProcessAction::Finished(build_execution_result(file_path, elapsed_ms, Ok((ms, true)), false))
            },
            ProcessEvent::Written(Err(e)) => {
                self.phase = ProcessPhase::Done;
                ProcessAction::Finished(build_execution_result(file_path, elapsed_ms, Err(ExecutorError::JsonWriterError(e)), false))
            },
        }
    }
}

/// Law of failure handling: the output is written only right after a
/// successful execution, and a result reports an updated output only when
/// that write succeeded; every failure finishes without updating the output.
pub proof fn lemma_output_written_only_after_success(
    phase: ProcessPhase,
    file: SqlFile,
    config: Config,
    event: ProcessEvent,
    elapsed_ms: u64,
    next: ProcessPhase,
    action: ProcessAction,
)
    requires
        expects(phase, event),
        step_outcome(phase, file, config, event, elapsed_ms, next, action),
    ensures
        action is WriteJson ==> (event matches ProcessEvent::Executed(res) && res is Ok),
        (action matches ProcessAction::Finished(r) && r.json_updated) ==> (event matches ProcessEvent::Written(res) && res is Ok),
        (event matches ProcessEvent::ContentRead(res) && res is Err) ==> (action matches ProcessAction::Finished(r) && !r.success && !r.json_updated),
        (event matches ProcessEvent::Executed(res) && res is Err) ==> (action matches ProcessAction::Finished(r) && !r.success && !r.json_updated),
        (event matches ProcessEvent::Written(res) && res is Err) ==> (action matches ProcessAction::Finished(r) && !r.success && !r.json_updated),
{
}

} // verus!
