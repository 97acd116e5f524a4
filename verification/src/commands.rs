//! The decisions behind each subcommand: argument checks, what to write where,
//! and the text to tell the user. Reading and writing files and printing are
//! left to the caller.
use vstd::prelude::*;

use crate::error::RecallErrors;
use crate::models::{clock_instant, opt_text, Command};
use crate::shell::{
    hook_installed_in, hook_script, hook_script_text, install_hook, installed_text, is_hook_installed,
    remove_hook, removed_text, Shell,
};
use crate::text::{decimal, u64_to_string};

verus! {

// ── helpers ─────────────────────────────────────────────────────────────────

/// `parts.join(sep)`.
pub open spec fn join_with(parts: Seq<Seq<char>>, sep: Seq<char>) -> Seq<char>
    decreases parts.len(),
{
    if parts.len() == 0 {
        Seq::<char>::empty()
    } else if parts.len() == 1 {
        parts[0]
    } else {
        join_with(parts.drop_last(), sep) + sep + parts.last()
    }
}

pub open spec fn string_views(v: Seq<String>) -> Seq<Seq<char>> {
    Seq::new(v.len(), |i: int| v[i]@)
}

/// `parts.join(sep)` over strings.
pub fn join_strings(parts: &Vec<String>, sep: &str) -> (r: String)
    ensures
        r@ == join_with(string_views(parts@), sep@),
{
    let mut r = String::new();
    let mut i: usize = 0;
    proof {
        assert(string_views(parts@).take(0) =~= Seq::<Seq<char>>::empty());
    }
    while i < parts.len()
        invariant
            i <= parts@.len(),
            r@ == join_with(string_views(parts@).take(i as int), sep@),
        decreases parts@.len() - i,
    {
        let ghost t = string_views(parts@).take(i + 1);
        proof {
            assert(t.drop_last() == string_views(parts@).take(i as int));
            assert(t.last() == parts@[i as int]@);
        }
        if i > 0 {
            r.append(sep);
        }
        r.append(parts[i].as_str());
        proof {
            if i == 0 {
                assert(t.len() == 1);
                assert(r@ =~= t[0]);
            }
        }
        i = i + 1;
    }
    proof {
        assert(string_views(parts@).take(parts@.len() as int) == string_views(parts@));
    }
    r
}

/// "command" or "commands", by count.
pub open spec fn commands_word(n: int) -> Seq<char> {
    if n == 1 { "command"@ } else { "commands"@ }
}

fn commands_word_str(n: u64) -> (r: &'static str)
    ensures
        r@ == commands_word(n as int),
{
    if n == 1 { "command" } else { "commands" }
}

// ── export ──────────────────────────────────────────────────────────────────

/// The export formats Recall writes.
pub open spec fn is_export_format(f: Seq<char>) -> bool {
    f == "json"@ || f == "csv"@ || f == "text"@
}

/// Checks that `format` is one of the supported export formats: `json`,
/// `csv` or `text`; anything else is an `InvalidFormat` error naming it.
pub fn validate_format(format: &str) -> (r: Result<(), RecallErrors>)
    ensures
        is_export_format(format@) ==> r is Ok,
        !is_export_format(format@) ==> (r matches Err(RecallErrors::InvalidFormat { input }) && input@ == format@),
{
    let f = format.to_owned();
    let json = "json".to_owned();
    let csv = "csv".to_owned();
    let text = "text".to_owned();
    if f == json || f == csv || f == text {
        Ok(())
    } else {
        Err(RecallErrors::InvalidFormat { input: f })
    }
}

/// The CSV header row.
pub open spec fn csv_header_fields() -> Seq<Seq<char>> {
    seq!["id"@, "command"@, "timestamp"@, "session_id"@, "cwd"@, "exit_code"@, "shell"@, "hostname"@]
}

/// The CSV header row: the columns of a command, without its metadata.
pub fn csv_header() -> (r: Vec<String>)
    ensures
        string_views(r@) == csv_header_fields(),
{
    let mut v: Vec<String> = Vec::new();
    v.push("id".to_owned());
    v.push("command".to_owned());
    v.push("timestamp".to_owned());
    v.push("session_id".to_owned());
    v.push("cwd".to_owned());
    v.push("exit_code".to_owned());
    v.push("shell".to_owned());
    v.push("hostname".to_owned());
    proof {
        assert(string_views(v@) =~= csv_header_fields());
    }
    v
}

pub open spec fn text_or_empty(o: Option<Seq<char>>) -> Seq<char> {
    match o {
        Some(s) => s,
        None => Seq::<char>::empty(),
    }
}

fn or_empty(o: &Option<String>) -> (r: String)
    ensures
        r@ == text_or_empty(opt_text(*o)),
{
    match o {
        Some(s) => s.clone(),
        None => String::new(),
    }
}

/// The CSV fields of a command, in header order: absent optional fields are
/// empty, the timestamp is its RFC 3339 text.
pub open spec fn csv_record_fields(c: Command) -> Seq<Seq<char>> {
    seq![
        decimal(c.id as int),
        c.command@,
        crate::models::rfc3339_text(c.timestamp.unix_secs(), c.timestamp.unix_nanos()),
        text_or_empty(opt_text(c.session_id)),
        text_or_empty(opt_text(c.cwd)),
        decimal(c.exit_code as int),
        text_or_empty(opt_text(c.shell)),
        text_or_empty(opt_text(c.hostname)),
    ]
}

/// The value a command holds in the column named `name`: its id and exit code
/// in decimal, its timestamp as RFC 3339 text, its text fields as they are
/// (empty when absent); empty for a name that is no column.
pub open spec fn column_value(c: Command, name: Seq<char>) -> Seq<char> {
    if name == "id"@ {
        decimal(c.id as int)
    } else if name == "command"@ {
        c.command@
    } else if name == "timestamp"@ {
        crate::models::rfc3339_text(c.timestamp.unix_secs(), c.timestamp.unix_nanos())
    } else if name == "session_id"@ {
        text_or_empty(opt_text(c.session_id))
    } else if name == "cwd"@ {
        text_or_empty(opt_text(c.cwd))
    } else if name == "exit_code"@ {
        decimal(c.exit_code as int)
    } else if name == "shell"@ {
        text_or_empty(opt_text(c.shell))
    } else if name == "hostname"@ {
        text_or_empty(opt_text(c.hostname))
    } else {
        Seq::<char>::empty()
    }
}

/// Every CSV record lines up with the header: it has one field per column,
/// and the field under each column is the command's value for the column
/// that the header names there.
pub proof fn law_csv_columns_line_up(c: Command)
    ensures
        csv_record_fields(c).len() == csv_header_fields().len(),
        forall|i: int| 0 <= i < csv_header_fields().len() ==>
            #[trigger] csv_record_fields(c)[i] == column_value(c, csv_header_fields()[i]),
{
    reveal_strlit("id");
    reveal_strlit("command");
    reveal_strlit("timestamp");
    reveal_strlit("session_id");
    reveal_strlit("cwd");
    reveal_strlit("exit_code");
    reveal_strlit("shell");
    reveal_strlit("hostname");
    let h = csv_header_fields();
    assert(h[0] == "id"@ && h[1] == "command"@ && h[2] == "timestamp"@ && h[3] == "session_id"@);
    assert(h[4] == "cwd"@ && h[5] == "exit_code"@ && h[6] == "shell"@ && h[7] == "hostname"@);
    // The names are told apart by their first two characters.
    assert(forall|a: int, b: int| 0 <= a < b < 8 ==> (h[a][0] != h[b][0] || h[a][1] != h[b][1]));
    assert(forall|a: int, b: int| 0 <= a < b < 8 ==> h[a] != h[b]);
}

/// The CSV record for one command.
pub fn csv_record(c: &Command) -> (r: Vec<String>)
    ensures
        string_views(r@) == csv_record_fields(*c),
{
    let mut v: Vec<String> = Vec::new();
    v.push(crate::text::i64_to_string(c.id));
    v.push(c.command.clone());
    v.push(c.timestamp.to_rfc3339());
    v.push(or_empty(&c.session_id));
    v.push(or_empty(&c.cwd));
    v.push(crate::text::i64_to_string(c.exit_code as i64));
    v.push(or_empty(&c.shell));
    v.push(or_empty(&c.hostname));
    proof {
        assert(string_views(v@) =~= csv_record_fields(*c));
    }
    v
}

/// `[time]  cwd  command` and a newline: one line of the plain-text export.
pub open spec fn text_export_line(time: Seq<char>, cwd: Seq<char>, command: Seq<char>) -> Seq<char> {
    "["@ + time + "]  "@ + cwd + "  "@ + command + "\n"@
}

/// One line of the plain-text export, given the working directory as it is
/// displayed.
pub fn export_text_line(c: &Command, cwd: &str) -> (r: String)
    ensures
        r@ == text_export_line(
            crate::models::formatted_instant(c.timestamp.unix_secs(), c.timestamp.unix_nanos(), crate::models::TIME_PATTERN@),
            cwd@,
            c.command@,
        ),
{
    let mut s = String::new();
    s.append("[");
    let t = c.timestamp.display();
    s.append(t.as_str());
    s.append("]  ");
    s.append(cwd);
    s.append("  ");
    s.append(c.command.as_str());
    s.append("\n");
    s
}

/// The plain-text export of `cs`: one line per command, in order, each with
/// its working directory displayed against the home directory `home`.
pub open spec fn text_export(cs: Seq<Command>, home: Option<Seq<char>>) -> Seq<char>
    decreases cs.len(),
{
    if cs.len() == 0 {
        Seq::<char>::empty()
    } else {
        let c = cs.last();
        text_export(cs.drop_last(), home) + text_export_line(
            crate::models::formatted_instant(c.timestamp.unix_secs(), c.timestamp.unix_nanos(), crate::models::TIME_PATTERN@),
            crate::models::display_cwd_text(opt_text(c.cwd), home),
            c.command@,
        )
    }
}

/// The plain-text export of `commands`, given the home directory as text.
pub fn export_text(commands: &[Command], home: &Option<String>) -> (r: String)
    ensures
        r@ == text_export(commands@, opt_text(*home)),
{
    let mut out = String::new();
    let mut i: usize = 0;
    proof {
        assert(commands@.take(0) =~= Seq::<Command>::empty());
    }
    while i < commands.len()
        invariant
            i <= commands@.len(),
            out@ == text_export(commands@.take(i as int), opt_text(*home)),
        decreases commands@.len() - i,
    {
        let c = &commands[i];
        let cwd = c.display_cwd_with_home(home);
        let line = export_text_line(c, cwd.as_str());
        out.append(line.as_str());
        proof {
            let p = commands@.take(i + 1);
            assert(p.drop_last() == commands@.take(i as int));
            assert(p.last() == commands@[i as int]);
        }
        i = i + 1;
    }
    proof {
        assert(commands@.take(commands@.len() as int) == commands@);
    }
    out
}

/// The message after writing an export to a file.
pub open spec fn export_done_text(count: int, path: Seq<char>, format: Seq<char>) -> Seq<char> {
    "✓ Exported "@ + decimal(count) + " "@ + commands_word(count) + " to "@ + path + " ("@ + format + ")"@
}

pub fn export_done_message(count: u64, path: &str, format: &str) -> (r: String)
    ensures
        r@ == export_done_text(count as int, path@, format@),
{
    let mut s = String::new();
    s.append("✓ Exported ");
    let n = u64_to_string(count);
    s.append(n.as_str());
    s.append(" ");
    s.append(commands_word_str(count));
    s.append(" to ");
    s.append(path);
    s.append(" (");
    s.append(format);
    s.append(")");
    s
}

// ── history ─────────────────────────────────────────────────────────────────

/// The active filters, described in order: session, directory, failed commands.
pub open spec fn filter_descriptions(session: Option<Seq<char>>, cwd: Option<Seq<char>>, errors: bool) -> Seq<Seq<char>> {
    (if session is Some { seq!["session \""@ + session->0 + "\""@] } else { Seq::<Seq<char>>::empty() })
        + (if cwd is Some { seq!["directory \""@ + cwd->0 + "\""@] } else { Seq::<Seq<char>>::empty() })
        + (if errors { seq!["failed commands"@] } else { Seq::<Seq<char>>::empty() })
}

/// Why a history query found nothing: an empty database when no filter was
/// active, otherwise the filters that matched nothing.
pub open spec fn empty_reason_text(session: Option<Seq<char>>, cwd: Option<Seq<char>>, errors: bool) -> Seq<char> {
    let f = filter_descriptions(session, cwd, errors);
    if f.len() == 0 {
        "No commands logged yet. Run 'recall hook' to start automatic logging."@
    } else {
        "No commands found for "@ + join_with(f, ", "@) + "."@
    }
}

pub open spec fn opt_str_view(o: Option<&str>) -> Option<Seq<char>> {
    match o {
        Some(s) => Some(s@),
        None => None,
    }
}

/// Builds a human-readable explanation for why a history query returned no
/// results, based on which filters were active.
pub fn build_empty_reason(session: Option<&str>, cwd: Option<&str>, errors: bool) -> (r: String)
    ensures
        r@ == empty_reason_text(opt_str_view(session), opt_str_view(cwd), errors),
{
    let mut filters: Vec<String> = Vec::new();
    if let Some(s) = session {
        let mut d = String::new();
        d.append("session \"");
        d.append(s);
        d.append("\"");
        filters.push(d);
    }
    let ghost f1 = string_views(filters@);
    if let Some(c) = cwd {
        let mut d = String::new();
        d.append("directory \"");
        d.append(c);
        d.append("\"");
        filters.push(d);
    }
    let ghost f2 = string_views(filters@);
    if errors {
        filters.push("failed commands".to_owned());
    }
    proof {
        let s = opt_str_view(session);
        let c = opt_str_view(cwd);
        assert(f1 =~= (if s is Some { seq!["session \""@ + s->0 + "\""@] } else { Seq::<Seq<char>>::empty() }));
        assert(f2 =~= f1 + (if c is Some { seq!["directory \""@ + c->0 + "\""@] } else { Seq::<Seq<char>>::empty() }));
        assert(string_views(filters@) =~= filter_descriptions(s, c, errors));
    }
    if filters.len() == 0 {
        "No commands logged yet. Run 'recall hook' to start automatic logging.".to_owned()
    } else {
        let mut r = "No commands found for ".to_owned();
        let joined = join_strings(&filters, ", ");
        r.append(joined.as_str());
        r.append(".");
        r
    }
}

// ── search ──────────────────────────────────────────────────────────────────

pub open spec fn no_results_text(query: Seq<char>) -> Seq<char> {
    "No results found for \""@ + query + "\"."@
}

pub fn no_results_message(query: &str) -> (r: String)
    ensures
        r@ == no_results_text(query@),
{
    let mut s = "No results found for \"".to_owned();
    s.append(query);
    s.append("\".");
    s
}

/// The header above search results: `  Found <n> result(s) for "<query>"`.
pub open spec fn found_header_text(count: int, query: Seq<char>) -> Seq<char> {
    "  Found "@ + decimal(count) + " "@ + (if count == 1 { "result"@ } else { "results"@ }) + " for \""@
        + query + "\""@
}

pub fn found_header(count: u64, query: &str) -> (r: String)
    ensures
        r@ == found_header_text(count as int, query@),
{
    let mut s = "  Found ".to_owned();
    let n = u64_to_string(count);
    s.append(n.as_str());
    s.append(" ");
    if count == 1 {
        s.append("result");
    } else {
        s.append("results");
    }
    s.append(" for \"");
    s.append(query);
    s.append("\"");
    s
}

// ── clean ───────────────────────────────────────────────────────────────────

/// Checks the clean arguments: `--all` with a date bound is an error; with
/// neither there is nothing to do (`Ok(false)`); otherwise `Ok(true)`.
pub fn check_clean_args(from: Option<&str>, to: Option<&str>, all: bool) -> (r: Result<bool, RecallErrors>)
    ensures
        all && (from is Some || to is Some) ==> r matches Err(RecallErrors::ConflictingCleanFlags),
        !all && from is None && to is None ==> r == Ok::<bool, RecallErrors>(false),
        (all && from is None && to is None) || (!all && (from is Some || to is Some)) ==> r == Ok::<bool, RecallErrors>(true),
{
    if all && (from.is_some() || to.is_some()) {
        return Err(RecallErrors::ConflictingCleanFlags);
    }
    if !all && from.is_none() && to.is_none() {
        return Ok(false);
    }
    Ok(true)
}

/// What to tell the user after a clean: the would-be count on a dry run, that
/// nothing matched, or how many commands were deleted.
pub open spec fn clean_outcome_text(count: int, dry_run: bool) -> Seq<char> {
    if dry_run {
        "Would delete "@ + decimal(count) + " "@ + commands_word(count) + ". Run without --dry-run to confirm."@
    } else if count == 0 {
        "No commands matched. Nothing was deleted."@
    } else {
        "✓ Deleted "@ + decimal(count) + " "@ + commands_word(count) + "."@
    }
}

pub fn clean_outcome(count: u64, dry_run: bool) -> (r: String)
    ensures
        r@ == clean_outcome_text(count as int, dry_run),
{
    if dry_run {
        let mut s = "Would delete ".to_owned();
        let n = u64_to_string(count);
        s.append(n.as_str());
        s.append(" ");
        s.append(commands_word_str(count));
        s.append(". Run without --dry-run to confirm.");
        s
    } else if count == 0 {
        "No commands matched. Nothing was deleted.".to_owned()
    } else {
        let mut s = "✓ Deleted ".to_owned();
        let n = u64_to_string(count);
        s.append(n.as_str());
        s.append(" ");
        s.append(commands_word_str(count));
        s.append(".");
        s
    }
}

// ── undo ────────────────────────────────────────────────────────────────────

pub open spec fn removed_message_text(command: Seq<char>, when: Seq<char>) -> Seq<char> {
    "✓ Removed: "@ + command + " (logged "@ + when + ")"@
}

/// `✓ Removed: <command> (logged <when>)`.
pub fn removed_message(c: &Command, when: &str) -> (r: String)
    ensures
        r@ == removed_message_text(c.command@, when@),
{
    let mut s = "✓ Removed: ".to_owned();
    s.append(c.command.as_str());
    s.append(" (logged ");
    s.append(when);
    s.append(")");
    s
}

// ── log ─────────────────────────────────────────────────────────────────────

/// Wraps `hostname::get`: the machine's host name, `None` when it cannot be
/// read or is not valid Unicode. It depends on the machine, so nothing is
/// stated of it.
#[verifier::external_body]
fn machine_hostname() -> (r: Option<String>) {
    hostname::get().ok().and_then(|h| h.into_string().ok())
}

/// The host name to record: the one read, or `unknown` when none could be.
pub fn hostname_or_unknown(read: Option<String>) -> (r: String)
    ensures
        read matches Some(h) ==> r@ == h@,
        read is None ==> r@ == "unknown"@,
{
    match read {
        Some(h) => h,
        None => "unknown".to_owned(),
    }
}

/// The entry `recall log` stores: the given fields, logged now, on this
/// machine (`unknown` when its name cannot be read). Its timestamp is the
/// instant of the system clock reading taken during the call. The id is left
/// at zero; the database assigns the real one.
pub fn log_entry(
    command: String,
    session: Option<String>,
    cwd: Option<String>,
    exit_code: i32,
    shell: Option<String>,
    metadata: Option<String>,
) -> (c: Command)
    ensures
        c.id == 0,
        c.command@ == command@,
        opt_text(c.session_id) == opt_text(session),
        opt_text(c.cwd) == opt_text(cwd),
        c.exit_code == exit_code,
        opt_text(c.shell) == opt_text(shell),
        opt_text(c.metadata) == opt_text(metadata),
        c.hostname is Some,
        c.timestamp.clock_reading() matches Some(rd) && c.timestamp.unix_secs() == clock_instant(rd).0
            && c.timestamp.unix_nanos() == clock_instant(rd).1,
{
    let hostname = hostname_or_unknown(machine_hostname());
    Command {
        id: 0,
        command,
        timestamp: crate::models::Timestamp::now(),
        session_id: session,
        cwd,
        exit_code,
        shell,
        hostname: Some(hostname),
        metadata,
    }
}

// ── hook / unhook ───────────────────────────────────────────────────────────

/// The command that reloads the shell's config, for the shells that have one.
pub open spec fn source_command_text(shell: Shell) -> Option<Seq<char>> {
    match shell {
        Shell::Bash => Some("source ~/.bashrc"@),
        Shell::Zsh => Some("source ~/.zshrc"@),
        _ => None,
    }
}

pub fn source_command(shell: &Shell) -> (r: Option<&'static str>)
    ensures
        r matches Some(t) ==> source_command_text(*shell) == Some(t@),
        r is None ==> source_command_text(*shell) is None,
{
    match shell {
        Shell::Bash => Some("source ~/.bashrc"),
        Shell::Zsh => Some("source ~/.zshrc"),
        _ => None,
    }
}

/// How to start using a newly installed hook, by shell.
pub open spec fn hook_hint_text(shell: Shell) -> Seq<char> {
    match shell {
        Shell::Bash => "  Restart your shell or run:  source ~/.bashrc"@,
        Shell::Zsh => "  Restart your shell or run:  source ~/.zshrc"@,
        Shell::Fish => "  Open a new Fish session to apply changes."@,
        Shell::PowerShell => "  Restart PowerShell to apply changes."@,
    }
}

pub fn hook_hint(shell: &Shell) -> (r: &'static str)
    ensures
        r@ == hook_hint_text(*shell),
{
    match shell {
        Shell::Bash => "  Restart your shell or run:  source ~/.bashrc",
        Shell::Zsh => "  Restart your shell or run:  source ~/.zshrc",
        Shell::Fish => "  Open a new Fish session to apply changes.",
        Shell::PowerShell => "  Restart PowerShell to apply changes.",
    }
}

/// What `recall hook` writes: whether to back up the existing file first, and
/// the new content of the config file.
#[derive(Debug)]
pub struct HookWrite {
    pub backup: bool,
    pub content: String,
}

/// Decides what `recall hook` writes, given the config file's current content
/// (`None` when it does not exist) and its path for messages. A file that
/// already holds the hook is an error; an existing file is backed up first.
pub fn plan_hook(existing: Option<&str>, shell: &Shell, config_path: &str) -> (r: Result<HookWrite, RecallErrors>)
    ensures
        ({
            let c = match opt_str_view(existing) {
                Some(t) => t,
                None => Seq::<char>::empty(),
            };
            &&& hook_installed_in(c) ==> (r matches Err(RecallErrors::HookAlreadyInstalled(p)) && p@ == config_path@)
            &&& !hook_installed_in(c) ==> (r matches Ok(w) && w.backup == existing is Some
                && w.content@ == installed_text(c, hook_script_text(*shell)))
        }),
{
    let content: &str = match existing {
        Some(t) => t,
        None => "",
    };
    proof {
        if existing is None {
            reveal_strlit("");
            assert(content@ =~= Seq::<char>::empty());
        }
    }
    if is_hook_installed(content) {
        return Err(RecallErrors::HookAlreadyInstalled(config_path.to_owned()));
    }
    let updated = install_hook(content, hook_script(shell));
    Ok(HookWrite { backup: existing.is_some(), content: updated })
}

/// What `recall unhook` does with a config file that exists.
#[derive(Debug)]
pub enum UnhookStep {
    /// The hook is not in the file: change nothing.
    NotInstalled,
    /// Back up the file, then delete it (fish keeps the hook in a file of its own).
    BackupThenDelete,
    /// Back up the file, then replace its content.
    BackupThenWrite(String),
}

/// Decides what `recall unhook` does with the config file's content.
pub fn plan_unhook(existing: &str, shell: &Shell) -> (r: UnhookStep)
    ensures
        !hook_installed_in(existing@) ==> r is NotInstalled,
        hook_installed_in(existing@) && *shell == Shell::Fish ==> r is BackupThenDelete,
        hook_installed_in(existing@) && *shell != Shell::Fish ==> (r matches UnhookStep::BackupThenWrite(c) && c@ == removed_text(existing@)),
{
    if !is_hook_installed(existing) {
        return UnhookStep::NotInstalled;
    }
    match shell {
        Shell::Fish => UnhookStep::BackupThenDelete,
        _ => UnhookStep::BackupThenWrite(remove_hook(existing)),
    }
}

} // verus!
