//! Shells, their hook scripts, and the editing of shell config files.
//!
//! A hook is installed by appending a block delimited by [`HOOK_START`] and
//! [`HOOK_END`] marker lines to the shell's config file, and removed by
//! dropping every line from a start marker to the next end marker.
use vstd::prelude::*;

use crate::error::RecallErrors;
use crate::platform::{home_dir, join_onto, BuiltPath};
use crate::text::{
    all_ws, chars_of, contains_chars, contains_seq, has_no_cr, has_no_crlf, has_no_nl, is_ws,
    join_lines, join_vec, lemma_join_extend_last, lemma_join_push_empty, lemma_join_ws_lines,
    lemma_lines_trim_end, lemma_normalize_concat, lemma_normalize_last, lemma_trim_end_empty_iff,
    cr_paired, lacks, lemma_join_no_cr, lemma_normalize_paired, lemma_scan_lines_lack, lemma_scan_lines_no_cr,
    lemma_trim_lacks, lemma_scan_no_nl,
    lemma_scan_join_lines, lemma_scan_lines_no_nl, lemma_scan_normalize, lemma_scan_ws_suffix,
    lemma_trim_end_last, lemma_trim_end_split, lemma_trim_end_ws_tail, lemma_trim_strip_cr,
    same_trimmed, strip_cr,
    lemma_normalize_no_cr, lemma_scan_concat, lemma_scan_ends_nl, lemma_scan_fresh,
    lemma_scan_one_line, lemma_scan_single, lemma_scan_text_then_nl, lemma_split_lines_nonempty,
    lemma_trim_end_ws_suffix, normalize_newlines, normalize_vec, push_all, scan,
    split_lines, split_lines_vec, starts_with, string_of, sub_chars, trim, trim_bounds, trim_end,
    trim_end_len, trim_start, trimmed_equals, views,
};

verus! {

/// The marker line written at the start of the hook block.
pub const HOOK_START: &'static str = "# >>> recall hook start >>>";

/// The marker line written at the end of the hook block.
pub const HOOK_END: &'static str = "# <<< recall hook end <<<";

/// The hook for bash: a `PROMPT_COMMAND` function that logs the last history entry.
pub const BASH_HOOK: &'static str = r#"# >>> recall hook start >>>
# Recall: log every command run in this shell.
__recall_precmd() {
    local exit_code=$?
    local cmd
    cmd=$(HISTTIMEFORMAT= builtin history 1 | sed -e 's/^ *[0-9]* *//')
    if [ -n "$cmd" ] && [ "$cmd" != "$__recall_last_cmd" ]; then
        __recall_last_cmd="$cmd"
        (recall log "$cmd" --exit-code "$exit_code" --cwd "$(pwd)" --shell bash --session "$$" >/dev/null 2>&1 &)
    fi
    return $exit_code
}
case ";${PROMPT_COMMAND};" in
    *";__recall_precmd;"*) ;;
    *) PROMPT_COMMAND="__recall_precmd${PROMPT_COMMAND:+;$PROMPT_COMMAND}" ;;
esac
# <<< recall hook end <<<
"#;

/// The hook for zsh: `preexec`/`precmd` functions registered with `add-zsh-hook`.
pub const ZSH_HOOK: &'static str = r#"# >>> recall hook start >>>
# Recall: log every command run in this shell.
autoload -Uz add-zsh-hook
__recall_preexec() {
    __recall_cmd="$1"
}
__recall_precmd() {
    local exit_code=$?
    if [[ -n "$__recall_cmd" ]]; then
        (recall log "$__recall_cmd" --exit-code "$exit_code" --cwd "$(pwd)" --shell zsh --session "$$" >/dev/null 2>&1 &)
        __recall_cmd=""
    fi
}
add-zsh-hook preexec __recall_preexec
add-zsh-hook precmd __recall_precmd
# <<< recall hook end <<<
"#;

/// The hook for fish: a handler for the `fish_postexec` event.
pub const FISH_HOOK: &'static str = r#"# >>> recall hook start >>>
# Recall: log every command run in this shell.
function __recall_postexec --on-event fish_postexec
    set -l exit_code $status
    if test -n "$argv[1]"
        recall log "$argv[1]" --exit-code $exit_code --cwd (pwd) --shell fish --session $fish_pid >/dev/null 2>&1 &
        disown 2>/dev/null
    end
end
# <<< recall hook end <<<
"#;

/// The hook for PowerShell: a wrapped `prompt` function that logs the last history item.
pub const POWERSHELL_HOOK: &'static str = r#"# >>> recall hook start >>>
# Recall: log every command run in this shell.
$global:__RecallLastCmd = $null
$global:__RecallOriginalPrompt = $function:prompt
function global:prompt {
    $exitCode = if ($?) { 0 } else { if ($LASTEXITCODE) { $LASTEXITCODE } else { 1 } }
    $last = Get-History -Count 1
    if ($last -and $last.Id -ne $global:__RecallLastCmd) {
        $global:__RecallLastCmd = $last.Id
        Start-Process -NoNewWindow -FilePath "recall" -ArgumentList @("log", $last.CommandLine, "--exit-code", "$exitCode", "--cwd", (Get-Location).Path, "--shell", "powershell", "--session", "$PID") | Out-Null
    }
    & $global:__RecallOriginalPrompt
}
# <<< recall hook end <<<
"#;

// ── Shell ───────────────────────────────────────────────────────────────────

/// The shells Recall knows how to install a hook into.
#[derive(Debug, Clone, Copy, PartialEq, Eq, Structural)]
pub enum Shell {
    Bash,
    Zsh,
    Fish,
    PowerShell,
}

pub open spec fn shell_name(shell: Shell) -> Seq<char> {
    match shell {
        Shell::Bash => "bash"@,
        Shell::Zsh => "zsh"@,
        Shell::Fish => "fish"@,
        Shell::PowerShell => "powershell"@,
    }
}

pub open spec fn hook_script_text(shell: Shell) -> Seq<char> {
    match shell {
        Shell::Bash => BASH_HOOK@,
        Shell::Zsh => ZSH_HOOK@,
        Shell::Fish => FISH_HOOK@,
        Shell::PowerShell => POWERSHELL_HOOK@,
    }
}

impl Shell {
    /// The shell's name as the user sees it (its `Display` form).
    pub fn name(&self) -> (s: &'static str)
        ensures
            s@ == shell_name(*self),
    {
        match self {
            Shell::Bash => "bash",
            Shell::Zsh => "zsh",
            Shell::Fish => "fish",
            Shell::PowerShell => "powershell",
        }
    }
}

/// Returns the raw hook script for the given shell; the script carries the
/// start and end markers itself.
pub fn hook_script(shell: &Shell) -> (s: &'static str)
    ensures
        s@ == hook_script_text(*shell),
        hook_body_closed(s@),
{
    proof {
        lemma_shipped_scripts_closed(*shell);
    }
    match shell {
        Shell::Bash => BASH_HOOK,
        Shell::Zsh => ZSH_HOOK,
        Shell::Fish => FISH_HOOK,
        Shell::PowerShell => POWERSHELL_HOOK,
    }
}

// ── detection ───────────────────────────────────────────────────────────────

/// The shell that `$SHELL` (when it is set to valid Unicode) and the presence
/// of `$PSModulePath` identify: bash, zsh and fish by name in `$SHELL`, in that
/// order, and otherwise PowerShell when `$PSModulePath` is set.
pub open spec fn detected_shell(shell_var: Option<Seq<char>>, ps_module_path_set: bool) -> Option<Shell> {
    if shell_var is Some && contains_seq(shell_var->0, "bash"@) {
        Some(Shell::Bash)
    } else if shell_var is Some && contains_seq(shell_var->0, "zsh"@) {
        Some(Shell::Zsh)
    } else if shell_var is Some && contains_seq(shell_var->0, "fish"@) {
        Some(Shell::Fish)
    } else if ps_module_path_set {
        Some(Shell::PowerShell)
    } else {
        None
    }
}

pub open spec fn opt_view(o: Option<String>) -> Option<Seq<char>> {
    match o {
        Some(s) => Some(s@),
        None => None,
    }
}

/// Detects the running shell from the value of `$SHELL` and from whether
/// `$PSModulePath` is set.
pub fn detect(shell_var: Option<String>, ps_module_path_set: bool) -> (r: Result<Shell, RecallErrors>)
    ensures
        detected_shell(opt_view(shell_var), ps_module_path_set) matches Some(s) ==> r == Ok::<Shell, RecallErrors>(s),
        detected_shell(opt_view(shell_var), ps_module_path_set) is None ==> r matches Err(RecallErrors::UnknownShell),
{
    if let Some(value) = &shell_var {
        let v = chars_of(value.as_str());
        let bash = chars_of("bash");
        if contains_chars(v.as_slice(), bash.as_slice()) {
            return Ok(Shell::Bash);
        }
        let zsh = chars_of("zsh");
        if contains_chars(v.as_slice(), zsh.as_slice()) {
            return Ok(Shell::Zsh);
        }
        let fish = chars_of("fish");
        if contains_chars(v.as_slice(), fish.as_slice()) {
            return Ok(Shell::Fish);
        }
    }
    if ps_module_path_set {
        return Ok(Shell::PowerShell);
    }
    Err(RecallErrors::UnknownShell)
}

// ── config file location ────────────────────────────────────────────────────

pub open spec fn config_segments(shell: Shell, windows: bool) -> Seq<Seq<char>> {
    match shell {
        Shell::Bash => seq![".bashrc"@],
        Shell::Zsh => seq![".zshrc"@],
        Shell::Fish => seq![".config"@, "fish"@, "conf.d"@, "recall.fish"@],
        Shell::PowerShell => if windows {
            seq!["Documents"@, "PowerShell"@, "Microsoft.PowerShell_profile.ps1"@]
        } else {
            seq![".config"@, "powershell"@, "Microsoft.PowerShell_profile.ps1"@]
        },
    }
}

pub open spec fn str_views(v: Seq<&'static str>) -> Seq<Seq<char>> {
    Seq::new(v.len(), |i: int| v[i]@)
}

/// The location of the config file that Recall edits for `shell`, as the path
/// components to join, in order, onto the home directory.
///
/// Fish gets a dedicated drop-in file under `conf.d`; PowerShell's profile
/// lives under `Documents` on Windows and under `.config` elsewhere.
pub fn config_path_segments(shell: &Shell, windows: bool) -> (v: Vec<&'static str>)
    ensures
        str_views(v@) == config_segments(*shell, windows),
{
    let mut v: Vec<&'static str> = Vec::new();
    match shell {
        Shell::Bash => {
            v.push(".bashrc");
        },
        Shell::Zsh => {
            v.push(".zshrc");
        },
        Shell::Fish => {
            v.push(".config");
            v.push("fish");
            v.push("conf.d");
            v.push("recall.fish");
        },
        Shell::PowerShell => {
            if windows {
                v.push("Documents");
                v.push("PowerShell");
            } else {
                v.push(".config");
                v.push("powershell");
            }
            v.push("Microsoft.PowerShell_profile.ps1");
        },
    }
    proof {
        assert(str_views(v@) =~= config_segments(*shell, windows));
    }
    v
}

/// The config file that Recall edits for `shell`: the components of
/// [`config_path_segments`] joined onto the home directory. Fails with
/// `NoHomeDir` only, when the home directory cannot be determined.
///
/// On success the path is one built from the home directory by joining
/// exactly the components of `config_segments(*shell, windows)`; which home
/// directory that is depends on the environment and is not stated.
pub fn config_path(shell: &Shell, windows: bool) -> (r: Result<std::path::PathBuf, RecallErrors>)
    ensures
        r is Err ==> r matches Err(RecallErrors::NoHomeDir),
        r matches Ok(p) ==> exists|b: BuiltPath|
            #[trigger] b.value() == p && b.joined() == config_segments(*shell, windows),
{
    match config_path_under(home_dir(), shell, windows) {
        Ok(b) => {
            let ghost built = b;
            let p = b.into_path();
            proof {
                assert(built.value() == p);
            }
            Ok(p)
        },
        Err(e) => Err(e),
    }
}

/// Each shell has a config file of its own: on a given platform no two
/// shells are given the same path components.
pub proof fn law_config_files_differ(a: Shell, b: Shell, windows: bool)
    ensures
        config_segments(a, windows) == config_segments(b, windows) ==> a == b,
{
    reveal_strlit(".bashrc");
    reveal_strlit(".zshrc");
    reveal_strlit(".config");
    reveal_strlit("Documents");
    reveal_strlit("fish");
    reveal_strlit("powershell");
    if config_segments(a, windows) == config_segments(b, windows) && a != b {
        let sa = config_segments(a, windows);
        let sb = config_segments(b, windows);
        assert(sa.len() == sb.len());
        assert(sa[0] == sb[0]);
        assert(sa[0][1] == sb[0][1]);
        if sa.len() == 4 || sa.len() == 3 {
            assert(sa[1] == sb[1]);
            assert(sa[1][0] == sb[1][0]);
        }
    }
}

/// The config file for `shell` under the given home directory: the home
/// directory with the components of [`config_path_segments`] joined onto it,
/// in order, and `NoHomeDir` exactly when there is no home directory.
pub fn config_path_under(home: Option<std::path::PathBuf>, shell: &Shell, windows: bool) -> (r: Result<BuiltPath, RecallErrors>)
    ensures
        home is None <==> r is Err,
        r is Err ==> r matches Err(RecallErrors::NoHomeDir),
        r matches Ok(p) ==> p.base() == home->0 && p.joined() == config_segments(*shell, windows),
{
    let mut path = match home {
        Some(h) => BuiltPath::from_base(h),
        None => return Err(RecallErrors::NoHomeDir),
    };
    let segments = config_path_segments(shell, windows);
    let mut i: usize = 0;
    proof {
        assert(str_views(segments@).take(0) =~= Seq::<Seq<char>>::empty());
    }
    while i < segments.len()
        invariant
            i <= segments@.len(),
            path.base() == home->0,
            path.joined() == str_views(segments@).take(i as int),
            str_views(segments@) == config_segments(*shell, windows),
        decreases segments@.len() - i,
    {
        path = join_onto(path, segments[i]);
        proof {
            assert(str_views(segments@).take(i + 1) =~= str_views(segments@).take(i as int).push(segments@[i as int]@));
        }
        i = i + 1;
    }
    proof {
        assert(str_views(segments@).take(segments@.len() as int) =~= str_views(segments@));
    }
    Ok(path)
}

// ── the hook block ──────────────────────────────────────────────────────────

/// Whether the hook block's start marker occurs anywhere in `content`.
pub open spec fn hook_installed_in(content: Seq<char>) -> bool {
    contains_seq(content, HOOK_START@)
}

/// What goes between existing content and the hook block: one blank line.
pub open spec fn block_separator(content: Seq<char>) -> Seq<char> {
    if content.len() > 0 && content.last() == '\n' {
        seq!['\n']
    } else {
        seq!['\n', '\n']
    }
}

/// `content` with the hook block for `script` appended.
pub open spec fn installed_text(content: Seq<char>, script: Seq<char>) -> Seq<char> {
    content + block_separator(content) + HOOK_START@ + seq!['\n'] + trim(script) + seq!['\n']
        + HOOK_END@ + seq!['\n']
}

/// Whether a line is a start or end marker (surrounding whitespace ignored).
pub open spec fn is_marker_line(l: Seq<char>) -> bool {
    trim(l) == HOOK_START@ || trim(l) == HOOK_END@
}

/// One line of the block filter: the kept lines and whether we are inside a block.
pub open spec fn marker_step(p: (Seq<Seq<char>>, bool), l: Seq<char>) -> (Seq<Seq<char>>, bool) {
    if trim(l) == HOOK_START@ {
        (p.0, true)
    } else if trim(l) == HOOK_END@ {
        (p.0, false)
    } else if !p.1 {
        (p.0.push(l), false)
    } else {
        p
    }
}

pub open spec fn marker_filter_from(st: (Seq<Seq<char>>, bool), ls: Seq<Seq<char>>) -> (Seq<Seq<char>>, bool)
    decreases ls.len(),
{
    if ls.len() == 0 {
        st
    } else {
        marker_step(marker_filter_from(st, ls.drop_last()), ls.last())
    }
}

/// The lines of `content` (line endings normalised) that lie outside every hook block.
pub open spec fn kept_lines(content: Seq<char>) -> Seq<Seq<char>> {
    marker_filter_from((seq![], false), split_lines(normalize_newlines(content))).0
}

/// Text with its trailing whitespace replaced by a single newline (or nothing, if
/// nothing else is left).
pub open spec fn tidy_end(t: Seq<char>) -> Seq<char> {
    let e = trim_end(t);
    if e.len() == 0 {
        seq![]
    } else {
        e.push('\n')
    }
}

/// `content` with every hook block removed and trailing blank lines cleaned up.
pub open spec fn removed_text(content: Seq<char>) -> Seq<char> {
    tidy_end(join_lines(kept_lines(content)))
}

/// No line of `content` is a marker line.
pub open spec fn has_no_marker_lines(content: Seq<char>) -> bool {
    let ls = split_lines(normalize_newlines(content));
    forall|i: int| 0 <= i < ls.len() ==> !is_marker_line(#[trigger] ls[i])
}

/// The lines of the script's body that a reader already inside a hook block
/// would keep: those after an end marker and before the next start marker.
pub open spec fn body_kept_lines(script: Seq<char>) -> Seq<Seq<char>> {
    marker_filter_from((seq![], true), body_lines(script)).0
}

/// The script's body closes its hook block only at its end: read from inside
/// the block, it keeps nothing but blank lines.
pub open spec fn hook_body_closed(script: Seq<char>) -> bool {
    let k = body_kept_lines(script);
    forall|i: int| 0 <= i < k.len() ==> all_ws(#[trigger] k[i])
}

/// Whether the script's body, read from inside a hook block, keeps nothing but
/// blank lines: the condition under which removing an installed block removes
/// all of it.
pub fn hook_body_is_closed(script: &str) -> (b: bool)
    ensures
        b == hook_body_closed(script@),
{
    let sc = chars_of(script);
    let (s, e) = trim_bounds(sc.as_slice());
    let body = sub_chars(sc.as_slice(), s, e);
    let norm = normalize_vec(body.as_slice());
    if norm.len() == 0 {
        proof {
            lemma_marker_facts();
            lemma_filter_single((seq![], true), Seq::<char>::empty());
            assert(body_lines(script@) == seq![Seq::<char>::empty()]);
            assert(body_kept_lines(script@).len() == 0);
        }
        return true;
    }
    let lines = split_lines_vec(norm.as_slice());
    let kept = drop_hook_blocks(&lines, true);
    proof {
        assert(body_lines(script@) == views(lines@));
        assert(views(kept@) == body_kept_lines(script@));
    }
    let n = kept.len();
    let mut i: usize = 0;
    while i < n
        invariant
            n == kept@.len(),
            i <= n,
            views(kept@) == body_kept_lines(script@),
            forall|j: int| 0 <= j < i ==> all_ws(#[trigger] views(kept@)[j]),
        decreases n - i,
    {
        let t = trim_end_len(kept[i].as_slice());
        proof {
            assert(views(kept@)[i as int] == kept@[i as int]@);
            lemma_trim_end_empty_iff(kept@[i as int]@);
        }
        if t != 0 {
            return false;
        }
        i = i + 1;
    }
    true
}

/// Returns `true` if the hook's start marker is present anywhere in `content`.
pub fn is_hook_installed(content: &str) -> (b: bool)
    ensures
        b == hook_installed_in(content@),
{
    let c = chars_of(content);
    let m = chars_of(HOOK_START);
    contains_chars(c.as_slice(), m.as_slice())
}

/// Appends the hook block to `content`: a blank line, the start marker, the
/// trimmed script, the end marker, and a final newline.
pub fn install_hook(content: &str, script: &str) -> (r: String)
    ensures
        r@ == installed_text(content@, script@),
{
    let c = chars_of(content);
    let sc = chars_of(script);
    let (b, e) = trim_bounds(sc.as_slice());
    let body = sub_chars(sc.as_slice(), b, e);
    let start = chars_of(HOOK_START);
    let end = chars_of(HOOK_END);
    let mut out: Vec<char> = Vec::new();
    push_all(&mut out, c.as_slice());
    let cl = c.len();
    if cl > 0 && c[cl - 1] == '\n' {
        out.push('\n');
    } else {
        out.push('\n');
        out.push('\n');
    }
    proof {
        assert(out@ =~= content@ + block_separator(content@));
    }
    push_all(&mut out, start.as_slice());
    out.push('\n');
    push_all(&mut out, body.as_slice());
    out.push('\n');
    push_all(&mut out, end.as_slice());
    out.push('\n');
    proof {
        assert(out@ =~= installed_text(content@, script@));
    }
    string_of(out.as_slice())
}

/// The lines outside every hook block, reading from inside a block when
/// `inside` is set.
fn drop_hook_blocks(lines: &Vec<Vec<char>>, inside: bool) -> (r: Vec<Vec<char>>)
    ensures
        views(r@) == marker_filter_from((seq![], inside), views(lines@)).0,
{
    let start = chars_of(HOOK_START);
    let end = chars_of(HOOK_END);
    let mut kept: Vec<Vec<char>> = Vec::new();
    let ghost inside0 = inside;
    let mut inside = inside;
    let mut i: usize = 0;
    let n = lines.len();
    proof {
        assert(views(lines@).take(0) =~= Seq::<Seq<char>>::empty());
        assert(views(kept@) =~= Seq::<Seq<char>>::empty());
    }
    while i < n
        invariant
            n == lines@.len(),
            i <= n,
            start@ == HOOK_START@,
            end@ == HOOK_END@,
            marker_filter_from((seq![], inside0), views(lines@).take(i as int)) == (views(kept@), inside),
        decreases n - i,
    {
        let line = &lines[i];
        proof {
            assert(views(lines@).take(i + 1).drop_last() == views(lines@).take(i as int));
            assert(views(lines@).take(i + 1).last() == line@);
        }
        if trimmed_equals(line.as_slice(), start.as_slice()) {
            inside = true;
        } else if trimmed_equals(line.as_slice(), end.as_slice()) {
            inside = false;
        } else if !inside {
            let copy = sub_chars(line.as_slice(), 0, line.len());
            proof {
                assert(copy@ == line@.subrange(0, line@.len() as int));
                assert(copy@ =~= line@);
            }
            let ghost before = views(kept@);
            kept.push(copy);
            proof {
                assert(views(kept@) =~= before.push(line@));
            }
        }
        i = i + 1;
    }
    proof {
        assert(views(lines@).take(n as int) == views(lines@));
    }
    kept
}

/// Removes every hook block (the lines from a start marker through the next end
/// marker) from `content`. Line endings are normalised to LF first; trailing
/// blank lines are cleaned up and a single trailing newline restored, and an
/// empty result stays empty.
pub fn remove_hook(content: &str) -> (r: String)
    ensures
        r@ == removed_text(content@),
{
    let c = chars_of(content);
    let norm = normalize_vec(c.as_slice());
    let lines = split_lines_vec(norm.as_slice());
    let kept = drop_hook_blocks(&lines, false);
    let joined = join_vec(&kept);
    let e = trim_end_len(joined.as_slice());
    if e == 0 {
        proof {
            assert(trim_end(join_lines(kept_lines(content@))).len() == 0);
        }
        return string_of(Vec::<char>::new().as_slice());
    }
    let mut out = sub_chars(joined.as_slice(), 0, e);
    out.push('\n');
    proof {
        assert(joined@.subrange(0, e as int) == joined@.take(e as int));
    }
    string_of(out.as_slice())
}

// ── laws ────────────────────────────────────────────────────────────────────

pub proof fn lemma_marker_facts()
    ensures
        HOOK_START@.len() > 0,
        HOOK_END@.len() > 0,
        has_no_nl(HOOK_START@),
        has_no_cr(HOOK_START@),
        has_no_nl(HOOK_END@),
        has_no_cr(HOOK_END@),
        HOOK_START@.last() != '\r',
        HOOK_END@.last() != '\r',
        trim(HOOK_START@) == HOOK_START@,
        trim(HOOK_END@) == HOOK_END@,
        HOOK_START@ != HOOK_END@,
        !is_marker_line(Seq::<char>::empty()),
        !is_ws(HOOK_END@.last()),
        HOOK_END@.len() > 2 && HOOK_END@[2] == '<',
{
    reveal_strlit("# >>> recall hook start >>>");
    reveal_strlit("# <<< recall hook end <<<");
    let s = HOOK_START@;
    let e = HOOK_END@;
    assert(!is_ws(s.last()));
    assert(!is_ws(s[0]));
    assert(!is_ws(e.last()));
    assert(!is_ws(e[0]));
    assert(trim_end(s) == s);
    assert(trim_end(e) == e);
    assert(trim_start(s) == s);
    assert(trim_start(e) == e);
    assert(s[2] != e[2]);
    assert(trim_end(Seq::<char>::empty()) == Seq::<char>::empty());
    assert(trim_start(Seq::<char>::empty()) == Seq::<char>::empty());
}

pub proof fn lemma_filter_concat(st: (Seq<Seq<char>>, bool), x: Seq<Seq<char>>, y: Seq<Seq<char>>)
    ensures
        marker_filter_from(st, x + y) == marker_filter_from(marker_filter_from(st, x), y),
    decreases y.len(),
{
    if y.len() == 0 {
        assert(x + y == x);
    } else {
        assert((x + y).drop_last() == x + y.drop_last());
        assert((x + y).last() == y.last());
        lemma_filter_concat(st, x, y.drop_last());
    }
}

/// Outside a block, lines that are not markers are all kept.
pub proof fn lemma_filter_plain(k: Seq<Seq<char>>, ls: Seq<Seq<char>>)
    requires
        forall|i: int| 0 <= i < ls.len() ==> !is_marker_line(#[trigger] ls[i]),
    ensures
        marker_filter_from((k, false), ls) == (k + ls, false),
    decreases ls.len(),
{
    if ls.len() == 0 {
        assert(k + ls == k);
    } else {
        let p = ls.drop_last();
        assert forall|i: int| 0 <= i < p.len() implies !is_marker_line(#[trigger] p[i]) by {
            assert(p[i] == ls[i]);
        }
        lemma_filter_plain(k, p);
        assert(!is_marker_line(ls[ls.len() - 1]));
        assert((k + p).push(ls.last()) == k + ls);
    }
}

/// The lines of the installed hook block, after the separator.
pub open spec fn body_lines(script: Seq<char>) -> Seq<Seq<char>> {
    let b = normalize_newlines(trim(script));
    if b.len() == 0 {
        seq![Seq::<char>::empty()]
    } else {
        split_lines(b)
    }
}

/// Scanning the hook block (start marker, body, end marker, each ending in a
/// newline) gives its lines and leaves no partial line.
proof fn lemma_scan_block(script: Seq<char>)
    ensures
        scan(HOOK_START@ + seq!['\n'] + normalize_newlines(trim(script)) + seq!['\n'] + (HOOK_END@
            + seq!['\n'])) == (seq![HOOK_START@] + body_lines(script) + seq![HOOK_END@], Seq::<
            char,
        >::empty()),
{
    lemma_marker_facts();
    let st = HOOK_START@;
    let en = HOOK_END@;
    let t = trim(script);
    let b = normalize_newlines(t);
    let nl = seq!['\n'];
    let tail = en + nl;
    lemma_scan_one_line(st);
    lemma_scan_one_line(en);
    let z = st + nl + b + nl + tail;
    assert(z =~= (st + nl) + ((b + nl) + tail));
    lemma_scan_concat((seq![], seq![]), st + nl, (b + nl) + tail);
    lemma_scan_fresh(seq![st], (b + nl) + tail);
    lemma_scan_concat((seq![], seq![]), b + nl, tail);
    let bl = body_lines(script);
    if b.len() == 0 {
        assert(b + nl =~= nl);
        lemma_scan_single((seq![], seq![]), '\n');
        assert(scan(nl) == (seq![Seq::<char>::empty()], Seq::<char>::empty()));
        lemma_scan_fresh(seq![Seq::<char>::empty()], tail);
        assert(scan((b + nl) + tail) == (seq![Seq::<char>::empty()] + seq![en], Seq::<char>::empty()));
        assert(bl == seq![Seq::<char>::empty()]);
        assert(seq![st] + (bl + seq![en]) =~= seq![st] + bl + seq![en]);
    } else {
        assert(t.len() > 0);
        lemma_trim_last(script);
        lemma_normalize_last(t);
        assert(b.last() == t.last());
        lemma_scan_text_then_nl(b);
        lemma_scan_fresh(split_lines(b), tail);
        assert(scan((b + nl) + tail) == (split_lines(b) + seq![en], Seq::<char>::empty()));
        assert(bl == split_lines(b));
        assert(seq![st] + (bl + seq![en]) =~= seq![st] + bl + seq![en]);
    }
}

/// A non-empty trimmed text ends with a character that is not whitespace.
pub proof fn lemma_trim_last(s: Seq<char>)
    ensures
        trim(s).len() > 0 ==> !is_ws(trim(s).last()),
        trim(s).len() > 0 ==> trim(s).last() != '\n' && trim(s).last() != '\r',
{
    lemma_trim_end_last(s);
    lemma_trim_start_keeps_last(trim_end(s));
}

proof fn lemma_trim_start_keeps_last(s: Seq<char>)
    ensures
        trim_start(s).len() > 0 ==> trim_start(s).last() == s.last(),
    decreases s.len(),
{
    if s.len() > 0 && is_ws(s[0]) {
        lemma_trim_start_keeps_last(s.drop_first());
    }
}

/// Scanning the content and the separator leaves the content's lines and a blank
/// line (two blank lines for empty content), with no partial line.
proof fn lemma_scan_content_sep(content: Seq<char>)
    requires
        content.len() == 0 || content.last() != '\r',
    ensures
        scan(normalize_newlines(content) + block_separator(content)) == (content_lines_then_blank(
            content,
        ), Seq::<char>::empty()),
{
    let nl = seq!['\n'];
    let a = normalize_newlines(content);
    let sep = block_separator(content);
    if content.len() == 0 {
        assert(a.len() == 0);
        assert(a + sep =~= nl + nl);
        lemma_scan_concat((seq![], seq![]), nl, nl);
        lemma_scan_single((seq![], seq![]), '\n');
        lemma_scan_single((seq![Seq::<char>::empty()], seq![]), '\n');
        assert(seq![Seq::<char>::empty()].push(Seq::<char>::empty()) =~= seq![
            Seq::<char>::empty(),
            Seq::<char>::empty(),
        ]);
    } else if content.last() == '\n' {
        lemma_normalize_last(content);
        lemma_scan_ends_nl(a);
        assert(sep == nl);
        lemma_scan_concat((seq![], seq![]), a, nl);
        lemma_scan_single(scan(a), '\n');
    } else {
        lemma_normalize_last(content);
        lemma_scan_text_then_nl(a);
        assert(a + sep =~= (a + nl) + nl);
        lemma_scan_concat((seq![], seq![]), a + nl, nl);
        lemma_scan_single(scan(a + nl), '\n');
    }
}

pub open spec fn content_lines_then_blank(content: Seq<char>) -> Seq<Seq<char>> {
    if content.len() == 0 {
        seq![Seq::<char>::empty(), Seq::<char>::empty()]
    } else {
        split_lines(normalize_newlines(content)).push(Seq::<char>::empty())
    }
}

pub proof fn lemma_filter_single(st: (Seq<Seq<char>>, bool), l: Seq<char>)
    ensures
        marker_filter_from(st, seq![l]) == marker_step(st, l),
{
    assert(seq![l].drop_last().len() == 0);
    assert(marker_filter_from(st, seq![l].drop_last()) == st);
    assert(seq![l].last() == l);
}

/// Law: after installing, the hook is detected.
pub proof fn law_install_then_installed(content: Seq<char>, script: Seq<char>)
    ensures
        hook_installed_in(installed_text(content, script)),
{
    let x = installed_text(content, script);
    let i: int = (content.len() + block_separator(content).len()) as int;
    assert(x.subrange(i, i + HOOK_START@.len()) =~= HOOK_START@);
}

/// Law: installing keeps the existing content as a prefix and ends the text with a newline.
pub proof fn law_install_appends(content: Seq<char>, script: Seq<char>)
    ensures
        starts_with(installed_text(content, script), content),
        installed_text(content, script).last() == '\n',
{
    let x = installed_text(content, script);
    assert(x.subrange(0, content.len() as int) =~= content);
}

/// The lines that removing hook blocks keeps from `ls`.
pub open spec fn kept_from(ls: Seq<Seq<char>>) -> Seq<Seq<char>> {
    marker_filter_from((seq![], false), ls).0
}

/// Text whose trailing whitespace is the same tidies the same way.
proof fn lemma_tidy_end_trim(a: Seq<char>, b: Seq<char>)
    requires
        trim_end(a) == trim_end(b),
    ensures
        tidy_end(a) == tidy_end(b),
{
}

/// Filtering from a state with lines already kept only appends to them.
pub proof fn lemma_filter_prefix(k: Seq<Seq<char>>, inside: bool, ls: Seq<Seq<char>>)
    ensures
        marker_filter_from((k, inside), ls) == (k + marker_filter_from((seq![], inside), ls).0,
            marker_filter_from((seq![], inside), ls).1),
    decreases ls.len(),
{
    if ls.len() == 0 {
        assert(k + Seq::<Seq<char>>::empty() == k);
    } else {
        lemma_filter_prefix(k, inside, ls.drop_last());
        let q = marker_filter_from((seq![], inside), ls.drop_last());
        assert((k + q.0).push(ls.last()) == k + q.0.push(ls.last()));
    }
}

/// A blank line after the others changes the removed text only by trailing whitespace.
proof fn lemma_kept_blank(ls: Seq<Seq<char>>)
    ensures
        trim_end(join_lines(kept_from(ls.push(seq![])))) == trim_end(join_lines(kept_from(ls))),
{
    lemma_marker_facts();
    let e = Seq::<char>::empty();
    assert(ls.push(e).drop_last() == ls);
    assert(ls.push(e).last() == e);
    let p = marker_filter_from((seq![], false), ls);
    if !p.1 {
        let k = p.0;
        if k.len() == 0 {
            assert(k.push(e).len() == 1);
            assert(join_lines(k.push(e)) == e);
        } else {
            lemma_join_push_empty(k);
            assert(join_lines(k) + seq!['\n'] == join_lines(k).push('\n'));
            lemma_trim_end_ws_suffix(join_lines(k), '\n');
        }
    }
}

/// An installed hook block whose body is closed changes the removed text only by
/// trailing whitespace.
proof fn lemma_kept_block(ls: Seq<Seq<char>>, script: Seq<char>)
    requires
        hook_body_closed(script),
    ensures
        trim_end(join_lines(kept_from(ls + (seq![HOOK_START@] + body_lines(script) + seq![HOOK_END@]))))
            == trim_end(join_lines(kept_from(ls))),
{
    lemma_marker_facts();
    let st = HOOK_START@;
    let en = HOOK_END@;
    let bl = body_lines(script);
    let f0 = (Seq::<Seq<char>>::empty(), false);
    assert(ls + (seq![st] + bl + seq![en]) == ls + seq![st] + bl + seq![en]);
    lemma_filter_concat(f0, ls + seq![st] + bl, seq![en]);
    lemma_filter_concat(f0, ls + seq![st], bl);
    lemma_filter_concat(f0, ls, seq![st]);
    let k = kept_from(ls);
    let p = marker_filter_from(f0, ls);
    lemma_filter_single(p, st);
    assert(marker_filter_from(f0, ls + seq![st]) == (k, true));
    lemma_filter_prefix(k, true, bl);
    let kb = body_kept_lines(script);
    let q = marker_filter_from((k, true), bl);
    assert(q.0 == k + kb);
    lemma_filter_single(q, en);
    assert(kept_from(ls + seq![st] + bl + seq![en]) == k + kb);
    lemma_join_ws_lines(k, kb);
}

/// Replacing the last line by one that differs only in trailing whitespace
/// changes the removed text only by trailing whitespace.
proof fn lemma_kept_last_ws(d: Seq<Seq<char>>, l1: Seq<char>, z: Seq<char>)
    requires
        all_ws(z),
        trim(l1) == trim(l1 + z),
    ensures
        trim_end(join_lines(kept_from(d.push(l1)))) == trim_end(join_lines(kept_from(d.push(l1 + z)))),
{
    let l2 = l1 + z;
    assert(d.push(l1).drop_last() == d);
    assert(d.push(l2).drop_last() == d);
    assert(d.push(l1).last() == l1);
    assert(d.push(l2).last() == l2);
    let p = marker_filter_from((seq![], false), d);
    if trim(l1) != HOOK_START@ && trim(l1) != HOOK_END@ && !p.1 {
        lemma_join_extend_last(p.0, l1, z);
        lemma_trim_end_ws_tail(join_lines(p.0.push(l1)), z);
    }
}

/// The blocks of text in the installed file, normalised: the content with its
/// separator, then the hook block.
proof fn lemma_block_normalized(script: Seq<char>)
    ensures
        normalize_newlines(HOOK_START@ + seq!['\n'] + trim(script) + seq!['\n'] + HOOK_END@ + seq![
            '\n',
        ]) == HOOK_START@ + seq!['\n'] + normalize_newlines(trim(script)) + seq!['\n'] + (HOOK_END@
            + seq!['\n']),
{
    lemma_marker_facts();
    let st = HOOK_START@;
    let en = HOOK_END@;
    let nl = seq!['\n'];
    let t = trim(script);
    let head = st + nl;
    let rest = nl + en + nl;
    assert(st + nl + t + nl + en + nl =~= head + (t + rest));
    assert(has_no_cr(head));
    lemma_normalize_no_cr(head);
    assert(head.last() == '\n');
    lemma_normalize_concat(head, t + rest);
    lemma_trim_last(script);
    lemma_normalize_concat(t, rest);
    assert(has_no_cr(rest));
    lemma_normalize_no_cr(rest);
    assert(head + (normalize_newlines(t) + rest) =~= st + nl + normalize_newlines(t) + nl + (en
        + nl));
}

/// The lines of installed text: those of the content with its separator, then
/// the hook block.
proof fn lemma_installed_lines(content: Seq<char>, script: Seq<char>)
    ensures
        scan(normalize_newlines(content + block_separator(content))).1.len() == 0,
        split_lines(normalize_newlines(installed_text(content, script))) == split_lines(
            normalize_newlines(content + block_separator(content)),
        ) + (seq![HOOK_START@] + body_lines(script) + seq![HOOK_END@]),
{
    let p = content + block_separator(content);
    let raw = HOOK_START@ + seq!['\n'] + trim(script) + seq!['\n'] + HOOK_END@ + seq!['\n'];
    let blk = HOOK_START@ + seq!['\n'] + normalize_newlines(trim(script)) + seq!['\n'] + (HOOK_END@
        + seq!['\n']);
    assert(installed_text(content, script) =~= p + raw);
    assert(p.last() == '\n');
    lemma_normalize_concat(p, raw);
    lemma_block_normalized(script);
    let a = normalize_newlines(p);
    lemma_normalize_last(p);
    lemma_scan_ends_nl(a);
    lemma_scan_concat((seq![], seq![]), a, blk);
    lemma_scan_block(script);
    lemma_scan_fresh(scan(a).0, blk);
}

/// The content with its separator keeps, up to trailing whitespace, what the
/// content alone keeps.
proof fn lemma_content_sep_kept(content: Seq<char>)
    ensures
        trim_end(join_lines(kept_from(split_lines(normalize_newlines(content + block_separator(
            content,
        )))))) == trim_end(join_lines(kept_from(split_lines(normalize_newlines(content))))),
{
    let sep = block_separator(content);
    let e = Seq::<char>::empty();
    let lc = split_lines(normalize_newlines(content));
    if content.len() == 0 {
        assert(content + sep =~= sep);
        assert(has_no_cr(sep));
        lemma_normalize_no_cr(sep);
        lemma_scan_content_sep(content);
        assert(normalize_newlines(content).len() == 0);
        assert(normalize_newlines(content) + sep =~= sep);
        assert(lc.len() == 0);
        assert(seq![e, e] == lc.push(e).push(e));
        lemma_kept_blank(lc.push(e));
        lemma_kept_blank(lc);
    } else if content.last() != '\r' {
        assert(has_no_cr(sep));
        lemma_normalize_no_cr(sep);
        lemma_normalize_concat(content, sep);
        lemma_scan_content_sep(content);
        assert(split_lines(normalize_newlines(content) + sep) == lc.push(e));
        lemma_kept_blank(lc);
    } else {
        let c0 = content.drop_last();
        let cr = seq!['\r'];
        let tail = seq!['\r', '\n', '\n'];
        assert(sep == seq!['\n', '\n']);
        assert(content == c0 + cr);
        assert(content + sep =~= c0 + tail);
        lemma_normalize_concat(c0, tail);
        lemma_normalize_concat(c0, cr);
        assert(tail[0] == '\r' && tail[1] == '\n');
        assert(tail.skip(2) =~= seq!['\n']);
        assert(normalize_newlines(tail) == seq!['\n'] + normalize_newlines(seq!['\n']));
        assert(seq!['\n'].skip(1) =~= e);
        assert(normalize_newlines(seq!['\n']) == seq!['\n'] + normalize_newlines(e));
        assert(normalize_newlines(tail) =~= seq!['\n', '\n']);
        assert(cr.skip(1) =~= e);
        assert(normalize_newlines(cr) == seq![cr[0]] + normalize_newlines(e));
        assert(normalize_newlines(cr) =~= cr);
        let a0 = normalize_newlines(c0);
        let (d, cur) = scan(a0);
        // with the separator: the partial line ends at the CRLF, then a blank line
        lemma_scan_concat((seq![], seq![]), a0, seq!['\n', '\n']);
        assert(seq!['\n', '\n'] == seq!['\n'] + seq!['\n']);
        lemma_scan_concat((d, cur), seq!['\n'], seq!['\n']);
        lemma_scan_single((d, cur), '\n');
        let l1 = strip_cr(cur);
        lemma_scan_single((d.push(l1), e), '\n');
        assert(strip_cr(e) == e);
        let dd = d.push(l1).push(e);
        assert(split_lines(a0 + seq!['\n', '\n']) == dd);
        // alone: the partial line keeps its CR
        lemma_scan_concat((seq![], seq![]), a0, cr);
        lemma_scan_single((d, cur), '\r');
        let l2 = cur.push('\r');
        assert(lc == d.push(l2));
        let z = if cur.len() > 0 && cur.last() == '\r' { seq!['\r', '\r'] } else { seq!['\r'] };
        assert(l2 =~= l1 + z);
        assert(all_ws(z));
        lemma_trim_end_ws_tail(l1, z);
        lemma_kept_blank(d.push(l1));
        lemma_kept_last_ws(d, l1, z);
    }
}

/// No line that scanning has found, nor the unfinished one, is a marker line.
pub open spec fn scan_clear(p: (Seq<Seq<char>>, Seq<char>)) -> bool {
    &&& forall|i: int| 0 <= i < p.0.len() ==> !is_marker_line(#[trigger] p.0[i])
    &&& !is_marker_line(p.1)
}

/// Lines that trim the same way are marker lines alike.
proof fn lemma_same_trimmed_clear(a: Seq<Seq<char>>, b: Seq<Seq<char>>)
    requires
        same_trimmed(a, b),
        forall|i: int| 0 <= i < b.len() ==> !is_marker_line(#[trigger] b[i]),
    ensures
        forall|i: int| 0 <= i < a.len() ==> !is_marker_line(#[trigger] a[i]),
{
    assert forall|i: int| 0 <= i < a.len() implies !is_marker_line(#[trigger] a[i]) by {
        assert(trim(a[i]) == trim(b[i]));
        assert(!is_marker_line(b[i]));
    }
}

/// Removing hook blocks keeps only lines that are not markers, and keeps them
/// whole: a kept line holds no newline when none of the lines read did.
proof fn lemma_filter_lines(st: (Seq<Seq<char>>, bool), ls: Seq<Seq<char>>)
    requires
        forall|i: int| 0 <= i < st.0.len() ==> has_no_nl(#[trigger] st.0[i]) && !is_marker_line(st.0[i]),
        forall|i: int| 0 <= i < ls.len() ==> has_no_nl(#[trigger] ls[i]),
    ensures
        ({
            let k = marker_filter_from(st, ls).0;
            forall|i: int| 0 <= i < k.len() ==> has_no_nl(#[trigger] k[i]) && !is_marker_line(k[i])
        }),
    decreases ls.len(),
{
    if ls.len() > 0 {
        let p = ls.drop_last();
        assert forall|i: int| 0 <= i < p.len() implies has_no_nl(#[trigger] p[i]) by {
            assert(p[i] == ls[i]);
        }
        lemma_filter_lines(st, p);
        let q = marker_filter_from(st, p);
        let l = ls.last();
        assert(has_no_nl(ls[ls.len() - 1]));
        if !is_marker_line(l) && !q.1 {
            assert forall|i: int| 0 <= i < q.0.push(l).len() implies has_no_nl(#[trigger] q.0.push(l)[i])
                && !is_marker_line(q.0.push(l)[i]) by {
                if i < q.0.len() {
                    assert(q.0.push(l)[i] == q.0[i]);
                }
            }
        }
    }
}

/// Law: removing hook blocks leaves no marker line behind, whatever the content.
pub proof fn law_remove_leaves_no_marker_line(content: Seq<char>)
    ensures
        has_no_marker_lines(removed_text(content)),
{
    lemma_marker_facts();
    let e = Seq::<char>::empty();
    let n = normalize_newlines(content);
    lemma_scan_lines_no_nl(n);
    let ls = split_lines(n);
    assert forall|i: int| 0 <= i < ls.len() implies has_no_nl(#[trigger] ls[i]) by {
        if i < scan(n).0.len() {
            assert(ls[i] == scan(n).0[i]);
        }
    }
    lemma_filter_lines((seq![], false), ls);
    let k = kept_lines(content);
    let j = join_lines(k);
    let t = trim_end(j);
    let r = removed_text(content);
    if t.len() == 0 {
        assert(r == e);
        assert(normalize_newlines(e) == e);
        assert(scan(e) == (Seq::<Seq<char>>::empty(), e));
    } else {
        // the joined lines scan back to non-marker lines
        assert(k.len() > 0) by {
            if k.len() == 0 {
                assert(j == e);
                assert(trim_end(e) == e);
            }
        }
        lemma_scan_join_lines(k);
        assert forall|i: int| 0 <= i < k.drop_last().len() implies !is_marker_line(#[trigger] k.drop_last()[i]) by {
            assert(k.drop_last()[i] == k[i]);
        }
        lemma_same_trimmed_clear(scan(j).0, k.drop_last());
        assert(!is_marker_line(k[k.len() - 1]));
        assert(scan_clear(scan(j)));
        // trimming the end keeps them so
        lemma_trim_end_split(j);
        let w = j.skip(t.len() as int);
        lemma_scan_ws_suffix(t, w);
        let (dt, ct) = scan(t);
        let (ds, cs) = scan(t + w);
        assert(t + w == j);
        assert forall|i: int| 0 <= i < dt.len() implies !is_marker_line(#[trigger] dt[i]) by {
            assert(ds[i] == dt[i]);
            assert(!is_marker_line(ds[i]));
        }
        if ds.len() > dt.len() {
            assert(!is_marker_line(ds[dt.len() as int]));
        }
        assert(!is_marker_line(ct));
        // the final newline finishes the last line
        assert(r == t.push('\n'));
        assert(t.push('\n') == t + seq!['\n']);
        lemma_scan_concat((seq![], seq![]), t, seq!['\n']);
        lemma_scan_single((dt, ct), '\n');
        lemma_trim_strip_cr(ct);
        assert(scan(r) == (dt.push(strip_cr(ct)), e));
        assert forall|i: int| 0 <= i < dt.push(strip_cr(ct)).len() implies !is_marker_line(
            #[trigger] dt.push(strip_cr(ct))[i],
        ) by {
            if i < dt.len() {
                assert(dt.push(strip_cr(ct))[i] == dt[i]);
            }
        }
        assert(scan_clear(scan(r)));
        // normalising changes lines only by trailing whitespace
        lemma_scan_normalize(r);
        let nr = normalize_newlines(r);
        lemma_same_trimmed_clear(scan(nr).0, scan(r).0);
        let lr = split_lines(nr);
        assert forall|i: int| 0 <= i < lr.len() implies !is_marker_line(#[trigger] lr[i]) by {
            if i < scan(nr).0.len() {
                assert(lr[i] == scan(nr).0[i]);
            }
        }
    }
}

/// Law: removing hook blocks a second time changes nothing, unless the first
/// removal left a CRLF line ending (which the second one would normalise).
pub proof fn law_remove_idempotent(content: Seq<char>)
    requires
        has_no_crlf(removed_text(content)),
    ensures
        removed_text(removed_text(content)) == removed_text(content),
{
    let r = removed_text(content);
    law_remove_leaves_no_marker_line(content);
    lemma_trim_end_split(r);
    let tr = trim_end(r);
    assert(has_no_crlf(tr)) by {
        assert forall|i: int| 0 <= i && i + 1 < tr.len() implies !(#[trigger] tr[i] == '\r' && tr[i + 1] == '\n') by {
            assert(tr[i] == r[i] && tr[i + 1] == r[i + 1]);
        }
    }
    law_remove_without_hook(r);
    let j = join_lines(kept_lines(content));
    let t = trim_end(j);
    if t.len() > 0 {
        lemma_trim_end_last(j);
        assert(r == t.push('\n'));
        lemma_trim_end_ws_suffix(t, '\n');
        assert(trim_end(t) == t);
    } else {
        assert(r == Seq::<char>::empty());
        assert(trim_end(r) == r);
    }
}

/// Removing hook blocks keeps only lines it read: with no `\r` in any line
/// read, none is in a kept line.
proof fn lemma_filter_no_cr(st: (Seq<Seq<char>>, bool), ls: Seq<Seq<char>>)
    requires
        forall|i: int| 0 <= i < st.0.len() ==> has_no_cr(#[trigger] st.0[i]),
        forall|i: int| 0 <= i < ls.len() ==> has_no_cr(#[trigger] ls[i]),
    ensures
        ({
            let k = marker_filter_from(st, ls).0;
            forall|i: int| 0 <= i < k.len() ==> has_no_cr(#[trigger] k[i])
        }),
    decreases ls.len(),
{
    if ls.len() > 0 {
        let p = ls.drop_last();
        assert forall|i: int| 0 <= i < p.len() implies has_no_cr(#[trigger] p[i]) by {
            assert(p[i] == ls[i]);
        }
        lemma_filter_no_cr(st, p);
        let q = marker_filter_from(st, p);
        let l = ls.last();
        assert(has_no_cr(ls[ls.len() - 1]));
        assert forall|i: int| 0 <= i < q.0.push(l).len() implies has_no_cr(#[trigger] q.0.push(l)[i]) by {
            if i < q.0.len() {
                assert(q.0.push(l)[i] == q.0[i]);
            }
        }
    }
}

/// Law: when every `\r` in the content begins a CRLF, removing hook blocks a
/// second time changes nothing.
pub proof fn law_remove_idempotent_when_cr_paired(content: Seq<char>)
    requires
        cr_paired(content),
    ensures
        removed_text(removed_text(content)) == removed_text(content),
{
    let n = normalize_newlines(content);
    lemma_normalize_paired(content);
    lemma_scan_lines_no_cr(n);
    let ls = split_lines(n);
    assert forall|i: int| 0 <= i < ls.len() implies has_no_cr(#[trigger] ls[i]) by {
        if i < scan(n).0.len() {
            assert(ls[i] == scan(n).0[i]);
        }
    }
    lemma_filter_no_cr((seq![], false), ls);
    let k = kept_lines(content);
    lemma_join_no_cr(k);
    let j = join_lines(k);
    let t = trim_end(j);
    lemma_trim_end_split(j);
    let r = removed_text(content);
    assert(has_no_cr(r)) by {
        if t.len() > 0 {
            assert(r == t.push('\n'));
            assert forall|i: int| 0 <= i < r.len() implies r[i] != '\r' by {
                if i < t.len() {
                    assert(r[i] == t[i]);
                    assert(t[i] == j[i]);
                }
            }
        }
    }
    assert(has_no_crlf(r)) by {
        assert forall|i: int| 0 <= i && i + 1 < r.len() implies !(#[trigger] r[i] == '\r' && r[i + 1] == '\n') by {
            assert(r[i] != '\r');
        }
    }
    law_remove_idempotent(content);
}

/// No line of the trimmed script, other than its last, is the end marker.
pub open spec fn end_marker_only_last(script: Seq<char>) -> bool {
    let ls = split_lines(trim(script));
    forall|i: int| 0 <= i < ls.len() - 1 ==> trim(#[trigger] ls[i]) != HOOK_END@
}

/// Inside a block, and with no end marker among the lines, nothing is kept.
proof fn lemma_filter_inside(k: Seq<Seq<char>>, ls: Seq<Seq<char>>)
    requires
        forall|i: int| 0 <= i < ls.len() ==> trim(#[trigger] ls[i]) != HOOK_END@,
    ensures
        marker_filter_from((k, true), ls) == (k, true),
    decreases ls.len(),
{
    if ls.len() > 0 {
        let p = ls.drop_last();
        assert forall|i: int| 0 <= i < p.len() implies trim(#[trigger] p[i]) != HOOK_END@ by {
            assert(p[i] == ls[i]);
        }
        lemma_filter_inside(k, p);
        assert(trim(ls[ls.len() - 1]) != HOOK_END@);
    }
}

/// A script whose end marker, if any, is its last line closes its block only
/// at its end.
pub proof fn lemma_end_marker_only_last_closed(script: Seq<char>)
    requires
        end_marker_only_last(script),
    ensures
        hook_body_closed(script),
{
    lemma_marker_facts();
    let t = trim(script);
    let b = normalize_newlines(t);
    let e = Seq::<char>::empty();
    if b.len() == 0 {
        assert(body_lines(script) == seq![e]);
        lemma_filter_single((seq![], true), e);
    } else {
        lemma_scan_normalize(t);
        let lb = split_lines(b);
        let lt = split_lines(t);
        let (db, cb) = scan(b);
        let (dt, ct) = scan(t);
        assert(lb.len() == lt.len());
        assert forall|i: int| 0 <= i < lb.len() - 1 implies trim(#[trigger] lb[i]) != HOOK_END@ by {
            if i < db.len() {
                assert(lb[i] == db[i]);
                assert(lt[i] == dt[i]);
                assert(trim(db[i]) == trim(dt[i]));
            } else {
                assert(lb[i] == cb);
                assert(lt[i] == ct);
            }
            assert(trim(lt[i]) != HOOK_END@);
        }
        assert(body_lines(script) == lb);
        if lb.len() > 0 {
            let p = lb.drop_last();
            assert forall|i: int| 0 <= i < p.len() implies trim(#[trigger] p[i]) != HOOK_END@ by {
                assert(p[i] == lb[i]);
            }
            lemma_filter_inside(seq![], p);
            assert(lb == p.push(lb.last()));
            lemma_filter_concat((seq![], true), p, seq![lb.last()]);
            lemma_filter_single((seq![], true), lb.last());
            assert(p + seq![lb.last()] == lb);
        }
    }
    assert(body_kept_lines(script).len() == 0);
}

/// Law: installing a script whose end marker, if any, is its last line, and
/// then removing the hook, gives what removing gives for the content alone.
pub proof fn law_remove_undoes_install_end_last(content: Seq<char>, script: Seq<char>)
    requires
        end_marker_only_last(script),
    ensures
        removed_text(installed_text(content, script)) == removed_text(content),
{
    lemma_end_marker_only_last_closed(script);
    law_remove_undoes_install(content, script);
}

/// A script made of a part without `<`, a newline, the end marker and a final
/// newline has the end marker only as its last line.
proof fn lemma_marker_shape(script: Seq<char>)
    requires
        script.len() > HOOK_END@.len() + 2,
        script.last() == '\n',
        !is_ws(script[0]),
        script.subrange(script.len() - HOOK_END@.len() - 2, script.len() - 1) == seq!['\n'] + HOOK_END@,
        lacks(script.take(script.len() - HOOK_END@.len() - 2), '<'),
    ensures
        end_marker_only_last(script),
{
    lemma_marker_facts();
    let en = HOOK_END@;
    let n = en.len();
    let t = script.drop_last();
    let nl = seq!['\n'];
    // the trimmed script is the script without its final newline
    assert(script.drop_last() == t);
    assert(is_ws('\n'));
    assert(t.last() == en.last()) by {
        assert(t.last() == script[script.len() - 2]);
        assert(script.subrange(script.len() - n - 2, script.len() - 1)[n as int] == script[script.len() - 2]);
        assert((nl + en)[n as int] == en[n - 1]);
    }
    assert(trim_end(script) == trim_end(t));
    assert(trim_end(t) == t);
    assert(t[0] == script[0]);
    assert(trim_start(t) == t);
    assert(trim(script) == t);
    // the last line is the end marker, after the lines of the first part
    let x = script.take(script.len() - n - 2);
    assert(t =~= x + nl + en) by {
        assert forall|i: int| 0 <= i < t.len() implies t[i] == (x + nl + en)[i] by {
            if i >= x.len() {
                assert(script.subrange(script.len() - n - 2, script.len() - 1)[i - x.len()] == script[i]);
            }
        }
    }
    lemma_scan_concat((seq![], seq![]), x + nl, en);
    lemma_scan_concat((seq![], seq![]), x, nl);
    let (d, c) = scan(x);
    lemma_scan_single((d, c), '\n');
    let dd = d.push(strip_cr(c));
    lemma_scan_no_nl(dd, seq![], en);
    assert(Seq::<char>::empty() + en == en);
    let ls = split_lines(t);
    assert(ls == dd.push(en));
    lemma_scan_lines_lack(x, '<');
    assert(lacks(strip_cr(c), '<')) by {
        assert forall|k: int| 0 <= k < strip_cr(c).len() implies #[trigger] strip_cr(c)[k] != '<' by {
            assert(strip_cr(c)[k] == c[k]);
        }
    }
    assert forall|i: int| 0 <= i < ls.len() - 1 implies trim(#[trigger] ls[i]) != HOOK_END@ by {
        assert(ls[i] == dd[i]);
        if i < d.len() {
            assert(dd[i] == d[i]);
        }
        assert(lacks(ls[i], '<'));
        lemma_trim_lacks(ls[i], '<');
        if trim(ls[i]) == en {
            assert(trim(ls[i])[2] == '<');
        }
    }
}

/// The facts about a shipped script that its text shows: it ends in a newline,
/// starts with no whitespace, ends with the end marker on a line of its own,
/// and has no `<` before it.
proof fn lemma_script_shape(script: Seq<char>)
    requires
        script.len() > HOOK_END@.len() + 2,
        script.last() == '\n',
        !is_ws(script[0]),
        script.subrange(script.len() - HOOK_END@.len() - 2, script.len() - 1) =~= seq!['\n'] + HOOK_END@,
        lacks(script.take(script.len() - HOOK_END@.len() - 2), '<'),
    ensures
        hook_body_closed(script),
{
    lemma_marker_shape(script);
    lemma_end_marker_only_last_closed(script);
}

/// The hook scripts Recall ships close their block only at their end, so
/// removing an installed one removes all of it.
pub proof fn lemma_shipped_scripts_closed(shell: Shell)
    ensures
        hook_body_closed(hook_script_text(shell)),
{
    reveal_strlit("# <<< recall hook end <<<");
    match shell {
        Shell::Bash => {
            reveal_strlit(r#"# >>> recall hook start >>>
# Recall: log every command run in this shell.
__recall_precmd() {
    local exit_code=$?
    local cmd
    cmd=$(HISTTIMEFORMAT= builtin history 1 | sed -e 's/^ *[0-9]* *//')
    if [ -n "$cmd" ] && [ "$cmd" != "$__recall_last_cmd" ]; then
        __recall_last_cmd="$cmd"
        (recall log "$cmd" --exit-code "$exit_code" --cwd "$(pwd)" --shell bash --session "$$" >/dev/null 2>&1 &)
    fi
    return $exit_code
}
case ";${PROMPT_COMMAND};" in
    *";__recall_precmd;"*) ;;
    *) PROMPT_COMMAND="__recall_precmd${PROMPT_COMMAND:+;$PROMPT_COMMAND}" ;;
esac
# <<< recall hook end <<<
"#);
            lemma_script_shape(BASH_HOOK@);
        },
        Shell::Zsh => {
            reveal_strlit(r#"# >>> recall hook start >>>
# Recall: log every command run in this shell.
autoload -Uz add-zsh-hook
__recall_preexec() {
    __recall_cmd="$1"
}
__recall_precmd() {
    local exit_code=$?
    if [[ -n "$__recall_cmd" ]]; then
        (recall log "$__recall_cmd" --exit-code "$exit_code" --cwd "$(pwd)" --shell zsh --session "$$" >/dev/null 2>&1 &)
        __recall_cmd=""
    fi
}
add-zsh-hook preexec __recall_preexec
add-zsh-hook precmd __recall_precmd
# <<< recall hook end <<<
"#);
            lemma_script_shape(ZSH_HOOK@);
        },
        Shell::Fish => {
            reveal_strlit(r#"# >>> recall hook start >>>
# Recall: log every command run in this shell.
function __recall_postexec --on-event fish_postexec
    set -l exit_code $status
    if test -n "$argv[1]"
        recall log "$argv[1]" --exit-code $exit_code --cwd (pwd) --shell fish --session $fish_pid >/dev/null 2>&1 &
        disown 2>/dev/null
    end
end
# <<< recall hook end <<<
"#);
            lemma_script_shape(FISH_HOOK@);
        },
        Shell::PowerShell => {
            reveal_strlit(r#"# >>> recall hook start >>>
# Recall: log every command run in this shell.
$global:__RecallLastCmd = $null
$global:__RecallOriginalPrompt = $function:prompt
function global:prompt {
    $exitCode = if ($?) { 0 } else { if ($LASTEXITCODE) { $LASTEXITCODE } else { 1 } }
    $last = Get-History -Count 1
    if ($last -and $last.Id -ne $global:__RecallLastCmd) {
        $global:__RecallLastCmd = $last.Id
        Start-Process -NoNewWindow -FilePath "recall" -ArgumentList @("log", $last.CommandLine, "--exit-code", "$exitCode", "--cwd", (Get-Location).Path, "--shell", "powershell", "--session", "$PID") | Out-Null
    }
    & $global:__RecallOriginalPrompt
}
# <<< recall hook end <<<
"#);
            lemma_script_shape(POWERSHELL_HOOK@);
        },
    }
}

/// Law: for every shell, installing Recall's own hook script and then
/// removing the hook gives what removing gives for the content alone.
pub proof fn law_shipped_hook_removable(content: Seq<char>, shell: Shell)
    ensures
        removed_text(installed_text(content, hook_script_text(shell))) == removed_text(content),
{
    lemma_shipped_scripts_closed(shell);
    law_remove_undoes_install(content, hook_script_text(shell));
}

/// Law: removing the hook undoes installing it: whatever the content, the text
/// after install and remove is the text that remove gives for the content alone,
/// provided the script's body closes its block only at its end.
pub proof fn law_remove_undoes_install(content: Seq<char>, script: Seq<char>)
    requires
        hook_body_closed(script),
    ensures
        removed_text(installed_text(content, script)) == removed_text(content),
{
    lemma_installed_lines(content, script);
    let d = split_lines(normalize_newlines(content + block_separator(content)));
    lemma_kept_block(d, script);
    lemma_content_sep_kept(content);
    lemma_tidy_end_trim(join_lines(kept_lines(installed_text(content, script))), join_lines(
        kept_lines(content),
    ));
}

/// Law: removing from content that holds no marker line, and no CRLF before its
/// trailing whitespace, returns the content itself trimmed to a single trailing
/// newline.
pub proof fn law_remove_without_hook(content: Seq<char>)
    requires
        has_no_marker_lines(content),
        has_no_crlf(trim_end(content)),
    ensures
        removed_text(content) == tidy_end(content),
{
    let ls = split_lines(normalize_newlines(content));
    lemma_filter_plain(seq![], ls);
    assert(Seq::<Seq<char>>::empty() + ls == ls);
    lemma_lines_trim_end(content);
}

/// Law: installing into content that has no hook, then removing, leaves no hook
/// behind and gives back the content trimmed to a single trailing newline.
pub proof fn law_install_remove_roundtrip(content: Seq<char>, script: Seq<char>)
    requires
        has_no_marker_lines(content),
        has_no_crlf(trim_end(content)),
        !hook_installed_in(content),
        hook_body_closed(script),
    ensures
        removed_text(installed_text(content, script)) == tidy_end(content),
        !hook_installed_in(removed_text(installed_text(content, script))),
{
    law_remove_undoes_install(content, script);
    law_remove_without_hook(content);
    lemma_marker_facts();
    let t = trim_end(content);
    lemma_trim_end_prefix(content);
    let r = tidy_end(content);
    if r.len() > 0 {
        let m = HOOK_START@;
        if contains_seq(r, m) {
            let i = choose|i: int| 0 <= i && i + m.len() <= r.len() && #[trigger] r.subrange(i, i + m.len()) == m;
            if i + m.len() <= t.len() {
                assert(content.subrange(i, i + m.len()) == r.subrange(i, i + m.len()));
            } else {
                assert(r.subrange(i, i + m.len())[m.len() - 1] == '\n');
                assert(m[m.len() - 1] == '\n');
            }
        }
    }
}

/// `trim_end(s)` is a prefix of `s`.
pub proof fn lemma_trim_end_prefix(s: Seq<char>)
    ensures
        trim_end(s).len() <= s.len(),
        trim_end(s) == s.subrange(0, trim_end(s).len() as int),
    decreases s.len(),
{
    if s.len() > 0 && is_ws(s.last()) {
        lemma_trim_end_prefix(s.drop_last());
        assert(s.drop_last().subrange(0, trim_end(s).len() as int) == s.subrange(0, trim_end(s).len() as int));
    } else {
        assert(s.subrange(0, s.len() as int) == s);
    }
}

} // verus!
