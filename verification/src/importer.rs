//! Incremental import of session logs: where to resume reading a file,
//! when to start it over, the state stored after a read, and the report of
//! a scan.
use vstd::prelude::*;
use crate::domain::{copy_opt_string, LocalSessionView};
use crate::parser::{opt_text, ParseContext, ParsedFile, PARSER_VERSION};
use crate::text::decimal_string;

verus! {

/// What a scan did: files seen, usage events newly stored, lines that
/// could not be read, and the last error met.
#[derive(Debug, Clone, PartialEq)]
pub struct ImportReport {
    pub scanned_files: i64,
    pub imported_events: i64,
    pub skipped_lines: i64,
    pub last_error: Option<String>,
}

impl Default for ImportReport {
    fn default() -> (r: Self)
        ensures
            r.scanned_files == 0,
            r.imported_events == 0,
            r.skipped_lines == 0,
            r.last_error is None,
    {
        ImportReport { scanned_files: 0, imported_events: 0, skipped_lines: 0, last_error: None }
    }
}

/// How far a session log has been imported, in which generation (a new
/// generation starts whenever the file was replaced or truncated), and the
/// parse context at that point.
#[derive(Debug, Clone, PartialEq)]
pub struct SourceFileState {
    pub path: String,
    pub generation: i64,
    pub file_identity: Option<String>,
    pub byte_offset: i64,
    pub observed_size: i64,
    pub modified_at: i64,
    pub parser_version: i64,
    pub session_id: Option<String>,
    pub current_model: Option<String>,
    pub last_error: Option<String>,
}

/// What to do with a file.
#[derive(Debug, Clone, PartialEq)]
pub enum ImportPlan {
    /// Nothing new since the last import.
    UpToDate,
    /// Read from `offset` with `context`, storing under `generation`.
    Read { offset: i64, generation: i64, context: ParseContext },
}

/// The file is no longer the one imported before: it shrank below what was
/// read, or its identity changed (where both identities are known).
pub open spec fn was_reset(previous: Option<SourceFileState>, size: int, identity: Option<Seq<char>>) -> bool {
    match previous {
        Some(p) => size < p.byte_offset || (p.file_identity is Some && identity is Some
            && opt_text(p.file_identity) != identity),
        None => false,
    }
}

/// The file was imported by a parser of another version.
pub open spec fn parser_changed(previous: Option<SourceFileState>) -> bool {
    match previous {
        Some(p) => p.parser_version != PARSER_VERSION,
        None => false,
    }
}

/// Whether the import goes on where the previous one stopped.
pub open spec fn resumes(previous: Option<SourceFileState>, size: int, identity: Option<Seq<char>>) -> bool {
    previous is Some && !was_reset(previous, size, identity) && !parser_changed(previous)
}

/// The plan for a file of `size` bytes, as (offset, generation, session,
/// model), or `None` when it is up to date.
pub open spec fn plan_spec(previous: Option<SourceFileState>, size: int, identity: Option<Seq<char>>) -> Option<
    (int, int, Option<Seq<char>>, Option<Seq<char>>),
> {
    let reset = was_reset(previous, size, identity);
    let resume = resumes(previous, size, identity);
    let generation = match previous {
        Some(p) => p.generation + if reset { 1int } else { 0int },
        None => 0,
    };
    let offset = if resume {
        previous->0.byte_offset as int
    } else {
        0
    };
    if offset == size && !reset && !parser_changed(previous) {
        None
    } else if resume {
        Some(
            (
                offset,
                generation,
                opt_text(previous->0.session_id),
                opt_text(previous->0.current_model),
            ),
        )
    } else {
        Some((offset, generation, None, None))
    }
}

pub open spec fn plan_view(p: ImportPlan) -> Option<(int, int, Option<Seq<char>>, Option<Seq<char>>)> {
    match p {
        ImportPlan::UpToDate => None,
        ImportPlan::Read { offset, generation, context } => Some(
            (
                offset as int,
                generation as int,
                opt_text(context.session_id),
                opt_text(context.current_model),
            ),
        ),
    }
}

fn same_identity(a: &Option<String>, b: &Option<String>) -> (r: bool)
    ensures
        r == (opt_text(*a) == opt_text(*b)),
{
    match (a, b) {
        (Some(x), Some(y)) => *x == *y,
        (None, None) => true,
        _ => false,
    }
}

/// Where to read a file of `size` bytes whose identity is `identity`,
/// given its state after the previous import: from the start when it was
/// replaced or truncated (in a new generation) or read by another parser
/// version, else from where the previous import stopped, with its context;
/// nothing when that is the end of the file.
pub fn plan_import(previous: &Option<SourceFileState>, size: i64, identity: &Option<String>) -> (r:
    ImportPlan)
    requires
        was_reset(*previous, size as int, opt_text(*identity)) ==> previous->0.generation
            < i64::MAX,
    ensures
        plan_view(r) == plan_spec(*previous, size as int, opt_text(*identity)),
{
    let reset = match previous {
        Some(p) => size < p.byte_offset || (p.file_identity.is_some() && identity.is_some()
            && !same_identity(&p.file_identity, identity)),
        None => false,
    };
    let changed = match previous {
        Some(p) => p.parser_version != PARSER_VERSION,
        None => false,
    };
    let generation = match previous {
        Some(p) => p.generation + if reset {
            1
        } else {
            0
        },
        None => 0,
    };
    let resume = previous.is_some() && !reset && !changed;
    let offset = match previous {
        Some(p) => if resume {
            p.byte_offset
        } else {
            0
        },
        None => 0,
    };
    if offset == size && !reset && !changed {
        return ImportPlan::UpToDate;
    }
    let context = match previous {
        Some(p) => if resume {
            ParseContext {
                session_id: copy_opt_string(&p.session_id),
                current_model: copy_opt_string(&p.current_model),
            }
        } else {
            ParseContext { session_id: None, current_model: None }
        },
        None => ParseContext { session_id: None, current_model: None },
    };
    ImportPlan::Read { offset, generation, context }
}

/// The state stored after reading `path` (of `size` bytes, modified at
/// `modified_at`) under `generation`: read up to `parsed.next_offset`, with
/// the context the read ended in, by this parser version.
pub fn state_after_read(
    path: String,
    generation: i64,
    identity: Option<String>,
    size: i64,
    modified_at: i64,
    parsed: &ParsedFile,
) -> (r: SourceFileState)
    requires
        parsed.next_offset <= i64::MAX,
    ensures
        r.path == path,
        r.generation == generation,
        r.file_identity == identity,
        r.byte_offset == parsed.next_offset,
        r.observed_size == size,
        r.modified_at == modified_at,
        r.parser_version == PARSER_VERSION,
        r.session_id == parsed.current_session_id,
        r.current_model == parsed.current_model,
        r.last_error is None,
{
    SourceFileState {
        path,
        generation,
        file_identity: identity,
        byte_offset: parsed.next_offset as i64,
        observed_size: size,
        modified_at,
        parser_version: PARSER_VERSION,
        session_id: copy_opt_string(&parsed.current_session_id),
        current_model: copy_opt_string(&parsed.current_model),
        last_error: None,
    }
}

/// Importing a file again that has not changed since an import read all of
/// it does nothing more.
pub proof fn lemma_unchanged_file_is_up_to_date(state: SourceFileState, size: int, identity: Option<Seq<char>>)
    requires
        state.byte_offset == size,
        state.parser_version == PARSER_VERSION,
        opt_text(state.file_identity) == identity,
    ensures
        plan_spec(Some(state), size, identity) is None,
{
}

/// A file that shrank below what was read is read again from the start, in
/// a new generation, without the old context.
pub proof fn lemma_truncation_starts_new_generation(state: SourceFileState, size: int, identity: Option<Seq<char>>)
    requires
        size < state.byte_offset,
    ensures
        plan_spec(Some(state), size, identity) == Some(
            (0int, state.generation + 1, None::<Seq<char>>, None::<Seq<char>>),
        ),
{
}

/// A file imported by another parser version is read again from the start,
/// in the same generation when it was not replaced.
pub proof fn lemma_parser_change_replays(state: SourceFileState, size: int, identity: Option<Seq<char>>)
    requires
        state.parser_version != PARSER_VERSION,
        size >= state.byte_offset,
        state.file_identity is None || identity is None || opt_text(state.file_identity) == identity,
    ensures
        plan_spec(Some(state), size, identity) == Some(
            (0int, state.generation as int, None::<Seq<char>>, None::<Seq<char>>),
        ),
{
}

/// A file that grew past what was read is read on from there, with the
/// context the previous read ended in.
pub proof fn lemma_growth_resumes(state: SourceFileState, size: int, identity: Option<Seq<char>>)
    requires
        size > state.byte_offset,
        state.parser_version == PARSER_VERSION,
        state.file_identity is None || identity is None || opt_text(state.file_identity) == identity,
    ensures
        plan_spec(Some(state), size, identity) == Some(
            (
                state.byte_offset as int,
                state.generation as int,
                opt_text(state.session_id),
                opt_text(state.current_model),
            ),
        ),
{
}

/// The report of one file whose import read `parsed` and stored `inserted`
/// new events.
pub fn file_report(inserted: i64, parsed: &ParsedFile) -> (r: ImportReport)
    ensures
        r.scanned_files == 1,
        r.imported_events == inserted,
        r.skipped_lines == parsed.skipped_lines,
        r.last_error is None,
{
    ImportReport {
        scanned_files: 1,
        imported_events: inserted,
        skipped_lines: parsed.skipped_lines,
        last_error: None,
    }
}

/// Adds the outcome of one file to a scan's report: its counts when it was
/// imported, else its error as the last error.
pub fn add_file_outcome(report: &mut ImportReport, outcome: Result<ImportReport, String>)
    requires
        outcome matches Ok(f) ==> {
            &&& i64::MIN <= old(report).imported_events + f.imported_events <= i64::MAX
            &&& i64::MIN <= old(report).skipped_lines + f.skipped_lines <= i64::MAX
        },
    ensures
        final(report).scanned_files == old(report).scanned_files,
        match outcome {
            Ok(f) => final(report).imported_events == old(report).imported_events + f.imported_events
                && final(report).skipped_lines == old(report).skipped_lines + f.skipped_lines
                && final(report).last_error == old(report).last_error,
            Err(e) => final(report).imported_events == old(report).imported_events
                && final(report).skipped_lines == old(report).skipped_lines
                && final(report).last_error == Some(e),
        },
{
    match outcome {
        Ok(f) => {
            report.imported_events = report.imported_events + f.imported_events;
            report.skipped_lines = report.skipped_lines + f.skipped_lines;
        },
        Err(e) => {
            report.last_error = Some(e);
        },
    }
}

/// A scan's report, started with the number of files found.
pub fn scan_report(file_count: usize) -> (r: ImportReport)
    requires
        file_count <= i64::MAX,
    ensures
        r.scanned_files == file_count,
        r.imported_events == 0,
        r.skipped_lines == 0,
        r.last_error is None,
{
    ImportReport {
        scanned_files: file_count as i64,
        imported_events: 0,
        skipped_lines: 0,
        last_error: None,
    }
}

/// The view published after a scan at `now`: the sessions read from the
/// store, with the scan's counts and error as diagnostics.
pub fn apply_scan_report(view: &mut LocalSessionView, report: ImportReport, now: i64)
    ensures
        final(view).sessions == old(view).sessions,
        final(view).monthly_summary == old(view).monthly_summary,
        final(view).diagnostics.scanned_files == report.scanned_files,
        final(view).diagnostics.skipped_lines == report.skipped_lines,
        final(view).diagnostics.last_imported_at == Some(now),
        final(view).diagnostics.last_error == report.last_error,
{
    view.diagnostics.scanned_files = report.scanned_files;
    view.diagnostics.skipped_lines = report.skipped_lines;
    view.diagnostics.last_imported_at = Some(now);
    view.diagnostics.last_error = report.last_error;
}

/// Nanoseconds since the Unix epoch as `i64`: saturated at `i64::MAX`, and
/// 0 when unknown (a time before the epoch or none at all).
pub open spec fn nanos_value(nanos: Option<u128>) -> int {
    match nanos {
        Some(n) => if n > i64::MAX {
            i64::MAX as int
        } else {
            n as int
        },
        None => 0,
    }
}

/// A file time as stored, from its nanoseconds since the Unix epoch (none
/// for a time before the epoch or an unknown time): saturated at
/// `i64::MAX`, and 0 when unknown.
pub fn system_time_nanos(since_epoch: Option<u128>) -> (r: i64)
    ensures
        r == nanos_value(since_epoch),
{
    match since_epoch {
        Some(n) => if n > i64::MAX as u128 {
            i64::MAX
        } else {
            n as i64
        },
        None => 0,
    }
}

/// The identity of a file: its creation time in nanoseconds where the
/// platform gives one, else its canonical path.
pub fn identity_from(created_nanos: i64, canonical_path: Option<String>) -> (r: Option<String>)
    ensures
        created_nanos > 0 ==> opt_text(r) == Some(crate::text::decimal(created_nanos as int)),
        created_nanos <= 0 ==> r == canonical_path,
{
    if created_nanos > 0 {
        Some(decimal_string(created_nanos as i128))
    } else {
        canonical_path
    }
}

/// What the session service's loop is woken by.
#[derive(Debug, Clone, Copy, PartialEq, Eq, Structural)]
pub enum ScanEvent {
    /// The scan interval elapsed.
    Timer,
    /// The settings changed (`closed`: their sender is gone).
    SettingsChanged { closed: bool },
    /// The file watcher reported a change.
    FilesChanged,
    /// The file watcher's channel closed.
    WatcherClosed,
    /// The shutdown signal changed (`closed`: its sender is gone).
    Shutdown { closed: bool, requested: bool },
}

#[derive(Debug, Clone, Copy, PartialEq, Eq, Structural)]
pub enum ScanAction {
    /// Scan now.
    Rescan,
    /// Let the burst of file changes settle, drain it, then scan.
    SettleThenRescan,
    /// Go on waiting (with the interval of the current settings).
    Wait,
    Stop,
}

pub open spec fn scan_step_spec(event: ScanEvent) -> ScanAction {
    match event {
        ScanEvent::Timer => ScanAction::Rescan,
        ScanEvent::SettingsChanged { closed } => if closed {
            ScanAction::Stop
        } else {
            ScanAction::Wait
        },
        ScanEvent::FilesChanged => ScanAction::SettleThenRescan,
        ScanEvent::WatcherClosed => ScanAction::Wait,
        ScanEvent::Shutdown { closed, requested } => if closed || requested {
            ScanAction::Stop
        } else {
            ScanAction::Wait
        },
    }
}

/// What the session service does on an event: scan when the interval
/// elapses, settle then scan on file changes, pick up new settings, and
/// stop when the settings or shutdown channels close or shutdown is asked.
pub fn scan_step(event: ScanEvent) -> (r: ScanAction)
    ensures
        r == scan_step_spec(event),
{
    match event {
        ScanEvent::Timer => ScanAction::Rescan,
        ScanEvent::SettingsChanged { closed } => if closed {
            ScanAction::Stop
        } else {
            ScanAction::Wait
        },
        ScanEvent::FilesChanged => ScanAction::SettleThenRescan,
        ScanEvent::WatcherClosed => ScanAction::Wait,
        ScanEvent::Shutdown { closed, requested } => if closed || requested {
            ScanAction::Stop
        } else {
            ScanAction::Wait
        },
    }
}

} // verus!
