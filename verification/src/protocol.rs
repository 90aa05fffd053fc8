//! The messages between the window, the job launcher and the workers: what a
//! worker reports for a picture, how the window's progress display reads the
//! reports, and how a command from the window is read.
use vstd::prelude::*;
use crate::text::{views, split_seq, join_seq, pieces_avoid, split_str, join_strs, str_eq};
use crate::number::{decimal, spec_parse_u32, spec_parse_i32, parse_u32, parse_i32, u32_to_decimal};
use crate::counters::{Counters, count_step};
use crate::params::{ResizeParameter, staticstr};
use crate::{cmds_sep, files_sep, cmds_joinsign, files_joinsign};

verus! {

// ---------------------------------------------------------------------------
// Worker reports
// ---------------------------------------------------------------------------

/// The report that a picture was processed: `working`, the processed tally, the file name.
pub open spec fn working_message(count: u32, file_name: Seq<char>) -> Seq<char> {
    join_seq(seq!["working"@, decimal(count as nat), file_name], cmds_sep())
}

/// The report that a picture failed: `err`, the failed tally, the path, what went wrong.
pub open spec fn err_message(fails: u32, path: Seq<char>, text: Seq<char>) -> Seq<char> {
    join_seq(seq!["err"@, decimal(fails as nat), path, text], cmds_sep())
}

/// The report that a job is finished: `done` and the time it took.
pub open spec fn done_message(elapsed: Seq<char>) -> Seq<char> {
    join_seq(seq!["done"@, elapsed], cmds_sep())
}

/// How processing one picture ended.
pub enum TaskOutcome {
    /// Loaded, resized and saved.
    Saved,
    /// Loaded and resized, but not saved.
    SaveFailed,
    /// Not loaded; the loader's message.
    LoadFailed(String),
}

/// What a failure report says went wrong.
pub open spec fn failure_text(o: TaskOutcome) -> Seq<char> {
    match o {
        TaskOutcome::Saved => Seq::empty(),
        TaskOutcome::SaveFailed => "save failure."@,
        TaskOutcome::LoadFailed(t) => t@,
    }
}

fn push_str_field(v: &mut Vec<String>, s: &str)
    ensures
        views(final(v)@) == views(old(v)@).push(s@),
{
    let ghost before = v@;
    v.push(s.to_owned());
    assert(views(v@) =~= views(before).push(s@));
}

fn push_string_field(v: &mut Vec<String>, s: String)
    ensures
        views(final(v)@) == views(old(v)@).push(s@),
{
    let ghost before = v@;
    v.push(s);
    assert(views(v@) =~= views(before).push(s@));
}

/// The report that a picture was processed.
pub fn compose_working(count: u32, file_name: &str) -> (r: String)
    ensures
        r@ == working_message(count, file_name@),
{
    let mut v: Vec<String> = Vec::new();
    push_str_field(&mut v, "working");
    push_string_field(&mut v, u32_to_decimal(count));
    push_str_field(&mut v, file_name);
    assert(views(v@) =~= seq!["working"@, decimal(count as nat), file_name@]);
    join_strs(&v, cmds_joinsign())
}

/// The report that a picture failed.
pub fn compose_err(fails: u32, path: &str, text: &str) -> (r: String)
    ensures
        r@ == err_message(fails, path@, text@),
{
    let mut v: Vec<String> = Vec::new();
    push_str_field(&mut v, "err");
    push_string_field(&mut v, u32_to_decimal(fails));
    push_str_field(&mut v, path);
    push_str_field(&mut v, text);
    assert(views(v@) =~= seq!["err"@, decimal(fails as nat), path@, text@]);
    join_strs(&v, cmds_joinsign())
}

/// The report that a job is finished, with the time it took as written by the caller.
pub fn compose_done(elapsed: &str) -> (r: String)
    ensures
        r@ == done_message(elapsed@),
{
    let mut v: Vec<String> = Vec::new();
    push_str_field(&mut v, "done");
    push_str_field(&mut v, elapsed);
    assert(views(v@) =~= seq!["done"@, elapsed@]);
    join_strs(&v, cmds_joinsign())
}

/// Counts the end of one picture and gives the reports a worker sends for it:
/// on success, the processed tally goes up by one and one `working` report
/// carries it; on failure, the failed tally goes up by one, an `err` report
/// carries it, and a `working` report carries the unchanged processed tally.
pub fn task_report(counters: &mut Counters, path: &str, file_name: &str, outcome: &TaskOutcome) -> (r: Vec<String>)
    requires
        outcome is Saved ==> old(counters).processed < u32::MAX,
        !(outcome is Saved) ==> old(counters).failed < u32::MAX,
    ensures
        match outcome {
            TaskOutcome::Saved => {
                &&& *final(counters) == count_step(*old(counters), "COUNT"@).0
                &&& final(counters).processed == old(counters).processed + 1
                &&& final(counters).failed == old(counters).failed
                &&& views(r@) == seq![working_message(final(counters).processed, file_name@)]
            },
            _ => {
                &&& *final(counters) == count_step(*old(counters), "FAILS"@).0
                &&& final(counters).processed == old(counters).processed
                &&& final(counters).failed == old(counters).failed + 1
                &&& views(r@) == seq![
                    err_message(final(counters).failed, path@, failure_text(*outcome)),
                    working_message(final(counters).processed, file_name@),
                ]
            },
        },
{
    proof {
        crate::counters::lemma_words_distinct();
    }
    let mut msgs: Vec<String> = Vec::new();
    match outcome {
        TaskOutcome::Saved => {
            let c = counters.count("COUNT");
            push_string_field(&mut msgs, compose_working(c, file_name));
        },
        TaskOutcome::SaveFailed => {
            let f = counters.count("FAILS");
            proof {
                reveal_strlit("save failure.");
            }
            push_string_field(&mut msgs, compose_err(f, path, "save failure."));
            let c = counters.count("GET");
            push_string_field(&mut msgs, compose_working(c, file_name));
        },
        TaskOutcome::LoadFailed(text) => {
            let f = counters.count("FAILS");
            push_string_field(&mut msgs, compose_err(f, path, text.as_str()));
            let c = counters.count("GET");
            push_string_field(&mut msgs, compose_working(c, file_name));
        },
    }
    msgs
}

// ---------------------------------------------------------------------------
// The window's progress display
// ---------------------------------------------------------------------------

/// The fields of a message.
pub open spec fn message_fields(msg: Seq<char>) -> Seq<Seq<char>> {
    split_seq(msg, cmds_sep())
}

/// The display is brought up to date when a failure or the end of a job is
/// reported, or when more than 150 ms went by since it last was.
pub open spec fn renews(msg: Seq<char>, since_ms: u128) -> bool {
    let f = message_fields(msg);
    f[0] == "err"@ || f[0] == "done"@ || since_ms > 150
}

/// The message has the fields that the display reads for it.
pub open spec fn message_readable(msg: Seq<char>, since_ms: u128) -> bool {
    let f = message_fields(msg);
    &&& f[0] == "working"@ ==> f.len() >= 2 && spec_parse_u32(f[1]) is Some && (renews(
        msg,
        since_ms,
    ) ==> f.len() >= 3)
    &&& f[0] == "err"@ ==> f.len() >= 4 && spec_parse_u32(f[1]) is Some
    &&& f[0] == "done"@ ==> f.len() >= 2
}

/// Whether the display can read a message (see `message_readable`).
pub fn readable_message(msg: &str, since_ms: u128) -> (r: bool)
    ensures
        r == message_readable(msg@, since_ms),
{
    proof {
        lemma_message_words_distinct();
    }
    let f = split_str(msg, cmds_joinsign());
    let ghost fs = message_fields(msg@);
    assert(views(f@) == fs);
    assert(f@[0]@ == fs[0]);
    let first = f[0].as_str();
    let is_err = str_eq(first, "err");
    let is_done = str_eq(first, "done");
    let renew = is_err || is_done || since_ms > 150;
    if str_eq(first, "working") {
        if f.len() < 2 {
            return false;
        }
        assert(f@[1]@ == fs[1]);
        parse_u32(f[1].as_str()).is_some() && (!renew || f.len() >= 3)
    } else if is_err {
        if f.len() < 4 {
            return false;
        }
        assert(f@[1]@ == fs[1]);
        parse_u32(f[1].as_str()).is_some()
    } else if is_done {
        f.len() >= 2
    } else {
        true
    }
}

/// What the display shows after a message.
#[derive(PartialEq, Eq, Structural, Copy, Clone, Debug)]
pub struct ProgressMonitor {
    pub works_done: u32,
    pub failures: u32,
}

/// The larger of two tallies.
pub open spec fn larger(a: u32, b: u32) -> u32 {
    if a > b {
        a
    } else {
        b
    }
}

/// The display's tallies after a message: `reset` clears them; `working` and
/// `err` raise the processed or the failed tally to the one reported, if larger.
pub open spec fn monitor_next(m: ProgressMonitor, msg: Seq<char>) -> ProgressMonitor {
    let f = message_fields(msg);
    if f[0] == "reset"@ {
        ProgressMonitor { works_done: 0, failures: 0 }
    } else if f[0] == "working"@ {
        ProgressMonitor { works_done: larger(spec_parse_u32(f[1]).unwrap(), m.works_done), ..m }
    } else if f[0] == "err"@ {
        ProgressMonitor { failures: larger(spec_parse_u32(f[1]).unwrap(), m.failures), ..m }
    } else {
        m
    }
}

/// The text shown for a failure.
pub open spec fn failure_note(path: Seq<char>, text: Seq<char>) -> Seq<char> {
    "\nErr\n"@ + path + "\n"@ + text
}

/// What the display is to show.
pub enum UiUpdate {
    /// The name of the picture just processed, and the processed tally.
    Working { file_name: String, done: u32 },
    /// The failed tally, and a note on the failure.
    Failure { failures: u32, text: String },
    /// The time the job took, and the failed tally. The processed tally is read
    /// afresh from the job's counters.
    Done { elapsed: String, failures: u32 },
}

/// The words a message can start with differ from one another.
proof fn lemma_message_words_distinct()
    ensures
        "reset"@ != "working"@,
        "reset"@ != "err"@,
        "reset"@ != "done"@,
        "working"@ != "err"@,
        "working"@ != "done"@,
        "err"@ != "done"@,
{
    reveal_strlit("reset");
    reveal_strlit("working");
    reveal_strlit("err");
    reveal_strlit("done");
    assert("reset"@.len() == 5);
    assert("working"@.len() == 7);
    assert("err"@.len() == 3);
    assert("done"@.len() == 4);
}

impl ProgressMonitor {
    /// Nothing processed, nothing failed.
    pub fn new() -> (r: ProgressMonitor)
        ensures
            r == (ProgressMonitor { works_done: 0, failures: 0 }),
    {
        ProgressMonitor { works_done: 0, failures: 0 }
    }

    /// Takes in one message, `since_ms` milliseconds after the display was last
    /// brought up to date by the clock. Answers what to show, if anything, and
    /// whether the clock starts again.
    pub fn on_message(&mut self, msg: &str, since_ms: u128) -> (r: (Option<UiUpdate>, bool))
        requires
            message_readable(msg@, since_ms),
        ensures
            *final(self) == monitor_next(*old(self), msg@),
            r.1 == (since_ms > 150),
            ({
                let f = message_fields(msg@);
                match r.0 {
                    None => !(renews(msg@, since_ms) && (f[0] == "working"@ || f[0] == "err"@
                        || f[0] == "done"@)),
                    Some(UiUpdate::Working { file_name, done }) => {
                        &&& renews(msg@, since_ms)
                        &&& f[0] == "working"@
                        &&& file_name@ == f[2]
                        &&& done == final(self).works_done
                    },
                    Some(UiUpdate::Failure { failures, text }) => {
                        &&& f[0] == "err"@
                        &&& failures == final(self).failures
                        &&& text@ == failure_note(f[2], f[3])
                    },
                    Some(UiUpdate::Done { elapsed, failures }) => {
                        &&& f[0] == "done"@
                        &&& elapsed@ == f[1]
                        &&& failures == final(self).failures
                    },
                }
            }),
    {
        proof {
            lemma_message_words_distinct();
        }
        let f = split_str(msg, cmds_joinsign());
        let ghost fs = message_fields(msg@);
        assert(views(f@) == fs);
        assert(f@[0]@ == fs[0]);
        let by_clock = since_ms > 150;
        let first = f[0].as_str();
        if str_eq(first, "reset") {
            self.works_done = 0;
            self.failures = 0;
            (None, by_clock)
        } else if str_eq(first, "working") {
            assert(f@[1]@ == fs[1]);
            let n = parse_u32(f[1].as_str()).unwrap();
            if n > self.works_done {
                self.works_done = n;
            }
            if by_clock {
                assert(f@[2]@ == fs[2]);
                let name = f[2].clone();
                (Some(UiUpdate::Working { file_name: name, done: self.works_done }), by_clock)
            } else {
                (None, by_clock)
            }
        } else if str_eq(first, "err") {
            assert(f@[1]@ == fs[1]);
            assert(f@[2]@ == fs[2]);
            assert(f@[3]@ == fs[3]);
            let n = parse_u32(f[1].as_str()).unwrap();
            if n > self.failures {
                self.failures = n;
            }
            let mut text = String::new();
            proof {
                reveal_strlit("\nErr\n");
                reveal_strlit("\n");
            }
            text.append("\nErr\n");
            text.append(f[2].as_str());
            text.append("\n");
            text.append(f[3].as_str());
            (Some(UiUpdate::Failure { failures: self.failures, text }), by_clock)
        } else if str_eq(first, "done") {
            assert(f@[1]@ == fs[1]);
            let elapsed = f[1].clone();
            (Some(UiUpdate::Done { elapsed, failures: self.failures }), by_clock)
        } else {
            (None, by_clock)
        }
    }
}

/// The words a message starts with hold no character of the separator, nor do
/// the digits of a tally.
proof fn lemma_report_fields_avoid(n: u32)
    ensures
        !"working"@.contains('\u{1F021}'),
        !"err"@.contains('\u{1F021}'),
        !"done"@.contains('\u{1F021}'),
        !decimal(n as nat).contains('\u{1F021}'),
{
    reveal_strlit("working");
    reveal_strlit("err");
    reveal_strlit("done");
    crate::number::lemma_decimal_digits(n as nat);
    assert forall|i: int| 0 <= i < decimal(n as nat).len() implies decimal(n as nat)[i]
        != '\u{1F021}' by {
        assert(crate::number::is_digit(decimal(n as nat)[i]));
    }
}

/// A `working` report, read by the display, raises the processed tally to the
/// one reported (when the file name holds no separator character).
pub proof fn law_working_report_read_back(m: ProgressMonitor, count: u32, file_name: Seq<char>, since_ms: u128)
    requires
        !file_name.contains('\u{1F021}'),
    ensures
        message_fields(working_message(count, file_name)) == seq![
            "working"@,
            decimal(count as nat),
            file_name,
        ],
        message_readable(working_message(count, file_name), since_ms),
        monitor_next(m, working_message(count, file_name)) == (ProgressMonitor {
            works_done: larger(count, m.works_done),
            failures: m.failures,
        }),
{
    let parts = seq!["working"@, decimal(count as nat), file_name];
    lemma_report_fields_avoid(count);
    lemma_message_words_distinct();
    assert(pieces_avoid(parts, cmds_sep())) by {
        assert forall|k: int, c: int| 0 <= k < parts.len() && 0 <= c < cmds_sep().len() implies !(
        #[trigger] parts[k]).contains(#[trigger] cmds_sep()[c]) by {
            assert(cmds_sep()[c] == '\u{1F021}');
        }
    }
    crate::text::law_split_of_join(parts, cmds_sep());
    crate::number::law_parse_of_decimal(count);
}

/// An `err` report, read by the display, raises the failed tally to the one
/// reported (when the path and the text hold no separator character).
pub proof fn law_err_report_read_back(m: ProgressMonitor, fails: u32, path: Seq<char>, text: Seq<char>, since_ms: u128)
    requires
        !path.contains('\u{1F021}'),
        !text.contains('\u{1F021}'),
    ensures
        message_fields(err_message(fails, path, text)) == seq!["err"@, decimal(fails as nat), path, text],
        message_readable(err_message(fails, path, text), since_ms),
        monitor_next(m, err_message(fails, path, text)) == (ProgressMonitor {
            works_done: m.works_done,
            failures: larger(fails, m.failures),
        }),
{
    let parts = seq!["err"@, decimal(fails as nat), path, text];
    lemma_report_fields_avoid(fails);
    lemma_message_words_distinct();
    assert(pieces_avoid(parts, cmds_sep())) by {
        assert forall|k: int, c: int| 0 <= k < parts.len() && 0 <= c < cmds_sep().len() implies !(
        #[trigger] parts[k]).contains(#[trigger] cmds_sep()[c]) by {
            assert(cmds_sep()[c] == '\u{1F021}');
        }
    }
    crate::text::law_split_of_join(parts, cmds_sep());
    crate::number::law_parse_of_decimal(fails);
}

/// A `done` report, read by the display, is readable at any time, brings the
/// display up to date, and leaves its tallies as they were (when the elapsed
/// text holds no separator character).
pub proof fn law_done_report_read_back(m: ProgressMonitor, elapsed: Seq<char>, since_ms: u128)
    requires
        !elapsed.contains('\u{1F021}'),
    ensures
        message_fields(done_message(elapsed)) == seq!["done"@, elapsed],
        message_readable(done_message(elapsed), since_ms),
        renews(done_message(elapsed), since_ms),
        monitor_next(m, done_message(elapsed)) == m,
{
    let parts = seq!["done"@, elapsed];
    lemma_report_fields_avoid(0);
    lemma_message_words_distinct();
    assert(pieces_avoid(parts, cmds_sep())) by {
        assert forall|k: int, c: int| 0 <= k < parts.len() && 0 <= c < cmds_sep().len() implies !(
        #[trigger] parts[k]).contains(#[trigger] cmds_sep()[c]) by {
            assert(cmds_sep()[c] == '\u{1F021}');
        }
    }
    crate::text::law_split_of_join(parts, cmds_sep());
}

/// The display's tallies never go down, but for a `reset` message, which
/// clears them.
pub proof fn law_monitor_tallies_only_grow(m: ProgressMonitor, msg: Seq<char>)
    ensures
        message_fields(msg)[0] == "reset"@ ==> monitor_next(m, msg) == (ProgressMonitor {
            works_done: 0,
            failures: 0,
        }),
        message_fields(msg)[0] != "reset"@ ==> monitor_next(m, msg).works_done >= m.works_done
            && monitor_next(m, msg).failures >= m.failures,
{
}

// ---------------------------------------------------------------------------
// Commands from the window
// ---------------------------------------------------------------------------

/// A command from the window.
pub enum UiCommand {
    /// Pick several pictures.
    OpenMulti,
    /// Pick a folder; whether to look into its subfolders, if the command says.
    OpenFolder { subfolders: Option<bool> },
    /// Count the pictures of a folder.
    CheckFolder { include_subfolder: bool, folder: String },
    /// Pick the folder to save into.
    SelectExportFolder,
    /// Resize these files with these parameters.
    Resize { files: Vec<String>, paras: ResizeParameter },
    /// A command the window does not send; nothing to do.
    Unknown,
}

/// The fields of a resize command give numbers where numbers are due.
pub open spec fn resize_args_ok(a: Seq<Seq<char>>) -> bool {
    &&& a.len() >= 12
    &&& spec_parse_u32(a[6]) is Some
    &&& spec_parse_u32(a[7]) is Some
    &&& spec_parse_u32(a[8]) is Some
    &&& spec_parse_u32(a[9]) is Some
    &&& spec_parse_i32(a[10]) is Some
}

/// The parameters that the fields of a resize command give: the fields in
/// order are the command, the file list, the source folder, the export folder,
/// the format, the mode, width, height, largest side, percentage, quality, and
/// whether not to enlarge (anything but `false` counts as yes).
pub open spec fn paras_from_args(p: ResizeParameter, a: Seq<Seq<char>>) -> bool {
    &&& p.sourcefolder@ == a[2]
    &&& p.exportfolder@ == a[3]
    &&& p.format@ == a[4]
    &&& p.mode@ == a[5]
    &&& p.width == spec_parse_u32(a[6]).unwrap()
    &&& p.height == spec_parse_u32(a[7]).unwrap()
    &&& p.maxsize == spec_parse_u32(a[8]).unwrap()
    &&& p.percentage == spec_parse_u32(a[9]).unwrap()
    &&& p.quality == spec_parse_i32(a[10]).unwrap()
    &&& p.donotenlager == (a[11] != "false"@)
}

/// The command lacks fields that it needs before anything is shown: a
/// `checkFolder` without its folder, or a `resize` whose fields do not all read.
pub open spec fn command_broken(a: Seq<Seq<char>>) -> bool {
    ||| a[0] == "checkFolder"@ && a.len() < 3
    ||| a[0] == "resize"@ && !resize_args_ok(a)
}

/// A command is broken exactly when it is a `checkFolder` with fewer than
/// three fields, or a `resize` with fewer than twelve fields or whose width,
/// height, largest side or percentage (fields 6 to 9) do not read as `u32`
/// or whose quality (field 10) does not read as `i32`; the values read are
/// not bounded any further.
pub proof fn law_broken_commands(a: Seq<Seq<char>>)
    ensures
        command_broken(a) <==> (a[0] == "checkFolder"@ && a.len() < 3) || (a[0] == "resize"@ && !(
        a.len() >= 12 && spec_parse_u32(a[6]) is Some && spec_parse_u32(a[7]) is Some
            && spec_parse_u32(a[8]) is Some && spec_parse_u32(a[9]) is Some && spec_parse_i32(
            a[10],
        ) is Some)),
{
}

/// The parameters a resize command gives are the fields read in place:
/// source and export folders, format and mode as written, the four sizes as
/// `u32`, the quality as `i32`, and "do not enlarge" unless the last field
/// is exactly `false`.
pub proof fn law_resize_fields(p: ResizeParameter, a: Seq<Seq<char>>)
    requires
        paras_from_args(p, a),
        a.len() >= 12,
    ensures
        p.sourcefolder@ == a[2] && p.exportfolder@ == a[3] && p.format@ == a[4] && p.mode@ == a[5],
        Some(p.width) == spec_parse_u32(a[6]) || spec_parse_u32(a[6]) is None,
        Some(p.height) == spec_parse_u32(a[7]) || spec_parse_u32(a[7]) is None,
        Some(p.maxsize) == spec_parse_u32(a[8]) || spec_parse_u32(a[8]) is None,
        Some(p.percentage) == spec_parse_u32(a[9]) || spec_parse_u32(a[9]) is None,
        Some(p.quality) == spec_parse_i32(a[10]) || spec_parse_i32(a[10]) is None,
        a[11] == "false"@ ==> !p.donotenlager,
        a[11] != "false"@ ==> p.donotenlager,
{
}

proof fn lemma_command_words_distinct()
    ensures
        "openMulti"@ != "openFolder"@,
        "openMulti"@ != "checkFolder"@,
        "openMulti"@ != "selectExportFolder"@,
        "openMulti"@ != "resize"@,
        "openFolder"@ != "checkFolder"@,
        "openFolder"@ != "selectExportFolder"@,
        "openFolder"@ != "resize"@,
        "checkFolder"@ != "selectExportFolder"@,
        "checkFolder"@ != "resize"@,
        "selectExportFolder"@ != "resize"@,
{
    reveal_strlit("openMulti");
    reveal_strlit("openFolder");
    reveal_strlit("checkFolder");
    reveal_strlit("selectExportFolder");
    reveal_strlit("resize");
    assert("openMulti"@.len() == 9);
    assert("openFolder"@.len() == 10);
    assert("checkFolder"@.len() == 11);
    assert("selectExportFolder"@.len() == 18);
    assert("resize"@.len() == 6);
}

/// Reads a command from the window. Answers `None` exactly where the command
/// lacks fields that it needs (see `command_broken`).
pub fn parse_command(arg: &str) -> (r: Option<UiCommand>)
    ensures
        ({
            let a = split_seq(arg@, cmds_sep());
            &&& r is None <==> command_broken(a)
            &&& a[0] == "openMulti"@ ==> r == Some(UiCommand::OpenMulti)
            &&& a[0] == "openFolder"@ ==> r == Some(
                UiCommand::OpenFolder {
                    subfolders: if a.len() >= 2 {
                        Some(a[1] == "includeSubfolder"@)
                    } else {
                        None
                    },
                },
            )
            &&& a[0] == "checkFolder"@ && a.len() >= 3 ==> (r matches Some(
                UiCommand::CheckFolder { include_subfolder, folder },
            ) && include_subfolder == (a[1] == "includeSubfolder"@) && folder@ == a[2])
            &&& a[0] == "selectExportFolder"@ ==> r == Some(UiCommand::SelectExportFolder)
            &&& a[0] == "resize"@ && resize_args_ok(a) ==> (r matches Some(
                UiCommand::Resize { files, paras },
            ) && views(files@) == split_seq(a[1], files_sep()) && paras_from_args(paras, a))
            &&& !(a[0] == "openMulti"@ || a[0] == "openFolder"@ || a[0] == "checkFolder"@ || a[0]
                == "selectExportFolder"@ || a[0] == "resize"@) ==> r == Some(UiCommand::Unknown)
        }),
{
    proof {
        lemma_command_words_distinct();
        reveal_strlit("includeSubfolder");
        reveal_strlit("false");
    }
    let args = split_str(arg, cmds_joinsign());
    let ghost a = split_seq(arg@, cmds_sep());
    assert(views(args@) == a);
    assert(args@[0]@ == a[0]);
    let first = args[0].as_str();
    if str_eq(first, "openMulti") {
        Some(UiCommand::OpenMulti)
    } else if str_eq(first, "openFolder") {
        if args.len() >= 2 {
            assert(args@[1]@ == a[1]);
            Some(UiCommand::OpenFolder { subfolders: Some(str_eq(args[1].as_str(), "includeSubfolder")) })
        } else {
            Some(UiCommand::OpenFolder { subfolders: None })
        }
    } else if str_eq(first, "checkFolder") {
        if args.len() < 3 {
            None
        } else {
            assert(args@[1]@ == a[1]);
            assert(args@[2]@ == a[2]);
            let include_subfolder = str_eq(args[1].as_str(), "includeSubfolder");
            Some(UiCommand::CheckFolder { include_subfolder, folder: args[2].clone() })
        }
    } else if str_eq(first, "selectExportFolder") {
        Some(UiCommand::SelectExportFolder)
    } else if str_eq(first, "resize") {
        if args.len() < 12 {
            return None;
        }
        assert forall|k: int| 0 <= k < 12 implies args@[k]@ == a[k] by {}
        let donotenlager = !str_eq(args[11].as_str(), "false");
        let width = parse_u32(args[6].as_str());
        let height = parse_u32(args[7].as_str());
        let maxsize = parse_u32(args[8].as_str());
        let percentage = parse_u32(args[9].as_str());
        let quality = parse_i32(args[10].as_str());
        if width.is_none() || height.is_none() || maxsize.is_none() || percentage.is_none()
            || quality.is_none() {
            return None;
        }
        let paras = ResizeParameter {
            sourcefolder: staticstr(args[2].as_str()),
            exportfolder: staticstr(args[3].as_str()),
            format: staticstr(args[4].as_str()),
            mode: staticstr(args[5].as_str()),
            width: width.unwrap(),
            height: height.unwrap(),
            maxsize: maxsize.unwrap(),
            percentage: percentage.unwrap(),
            quality: quality.unwrap(),
            donotenlager,
        };
        let files = split_str(args[1].as_str(), files_joinsign());
        Some(UiCommand::Resize { files, paras })
    } else {
        Some(UiCommand::Unknown)
    }
}

/// A file list as the window keeps it: the paths joined by `FILES_JOINSIGN`.
pub fn file_list_string(files: &Vec<String>) -> (r: String)
    ensures
        r@ == join_seq(views(files@), files_sep()),
{
    join_strs(files, files_joinsign())
}

/// A file list written by `file_list_string` and read back by a resize command
/// gives the same paths, when no path holds a character of `FILES_JOINSIGN`.
pub proof fn law_file_list_round_trip(files: Seq<Seq<char>>)
    requires
        files.len() >= 1,
        forall|k: int| 0 <= k < files.len() ==> !(#[trigger] files[k]).contains('\u{1F005}'),
    ensures
        split_seq(join_seq(files, files_sep()), files_sep()) == files,
{
    assert(pieces_avoid(files, files_sep())) by {
        assert forall|k: int, c: int| 0 <= k < files.len() && 0 <= c < files_sep().len() implies !(
        #[trigger] files[k]).contains(#[trigger] files_sep()[c]) by {
            assert(files_sep()[c] == '\u{1F005}');
        }
    }
    crate::text::law_split_of_join(files, files_sep());
}

} // verus!
