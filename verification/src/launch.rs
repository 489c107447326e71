//! How Codex is started: the command lines for each platform, Windows
//! argument quoting, the macOS quit command, and the launch record types.

use vstd::prelude::*;
use crate::clock;
use crate::json::{self, Json};
use crate::text;

verus! {

#[derive(Debug, Clone, PartialEq, Eq)]
pub enum CodexLaunch {
    Process {
        command: Vec<String>,
        wait_strategy: ProcessWaitStrategy,
        macos_cleanup_policy: Option<MacosCleanupPolicy>,
    },
    PackagedActivation {
        app_user_model_id: String,
        arguments: String,
        process_id: Option<u32>,
    },
}

#[derive(Debug, Clone, Copy, PartialEq, Eq, Structural)]
pub enum ProcessWaitStrategy {
    TrackedChild,
    ExternalWaitCommand,
}

#[derive(Debug, Clone, Copy, PartialEq, Eq, Structural)]
pub enum MacosCleanupPolicy {
    QuitIfNotPreviouslyRunning,
    SkipQuitBecauseAlreadyRunning,
}

#[derive(Debug, Clone, Copy, PartialEq, Eq, Structural)]
pub enum WindowsProcessControlStrategy {
    NativeWindowsApi,
}

/// How Codex processes are waited for and terminated on Windows.
pub fn windows_process_control_strategy() -> (s: WindowsProcessControlStrategy)
    ensures
        s == WindowsProcessControlStrategy::NativeWindowsApi,
{
    WindowsProcessControlStrategy::NativeWindowsApi
}

impl CodexLaunch {
    /// The process id of a packaged activation, when one is known.
    pub fn process_id(&self) -> (r: Option<u32>)
        ensures
            r == (match self {
                CodexLaunch::PackagedActivation { process_id, .. } => *process_id,
                CodexLaunch::Process { .. } => None,
            }),
    {
        match self {
            CodexLaunch::PackagedActivation { process_id, .. } => *process_id,
            CodexLaunch::Process { .. } => None,
        }
    }
}

/// The ports and app directory a launch starts from.
#[derive(Debug, Clone)]
pub struct LaunchOptions {
    pub app_dir: Option<String>,
    pub debug_port: u16,
    pub helper_port: u16,
}

pub const DEFAULT_DEBUG_PORT: u16 = 9229;

pub const DEFAULT_HELPER_PORT: u16 = 57321;

impl Default for LaunchOptions {
    fn default() -> (o: Self)
        ensures
            o.app_dir is None,
            o.debug_port == DEFAULT_DEBUG_PORT,
            o.helper_port == DEFAULT_HELPER_PORT,
    {
        LaunchOptions { app_dir: None, debug_port: DEFAULT_DEBUG_PORT, helper_port: DEFAULT_HELPER_PORT }
    }
}

/// The status record written after a launch attempt.
#[derive(Debug, Clone)]
pub struct LaunchStatus {
    pub status: String,
    pub message: String,
    pub started_at_ms: u64,
    pub debug_port: Option<u16>,
    pub helper_port: Option<u16>,
    pub codex_app: Option<String>,
}

/// A status record for the given ports and app directory, stamped `now_ms`.
pub fn launch_status_at(
    status: &str,
    message: &str,
    debug_port: u16,
    helper_port: u16,
    app_dir: &str,
    now_ms: u64,
) -> (r: LaunchStatus)
    ensures
        r.status@ == status@,
        r.message@ == message@,
        r.started_at_ms == now_ms,
        r.debug_port == Some(debug_port),
        r.helper_port == Some(helper_port),
        r.codex_app matches Some(a) && a@ == app_dir@,
{
    let s = text::chars_of(status);
    let m = text::chars_of(message);
    let a = text::chars_of(app_dir);
    LaunchStatus {
        status: text::string_from_chars(s.as_slice()),
        message: text::string_from_chars(m.as_slice()),
        started_at_ms: now_ms,
        debug_port: Some(debug_port),
        helper_port: Some(helper_port),
        codex_app: Some(text::string_from_chars(a.as_slice())),
    }
}

/// A status record for the given ports and app directory, stamped with the
/// clock's current time in milliseconds.
pub fn launch_status(status: &str, message: &str, debug_port: u16, helper_port: u16, app_dir: &str) -> (r: LaunchStatus)
    ensures
        r.status@ == status@,
        r.message@ == message@,
        r.debug_port == Some(debug_port),
        r.helper_port == Some(helper_port),
        r.codex_app matches Some(a) && a@ == app_dir@,
{
    launch_status_at(status, message, debug_port, helper_port, app_dir, clock::now_ms())
}

// ───────────────────────── command lines ─────────────────────────

/// The views of a sequence of strings.
pub open spec fn views(v: Seq<String>) -> Seq<Seq<char>> {
    v.map_values(|s: String| s@)
}

/// The two debugging flags that every Codex command line starts with.
pub open spec fn debug_flags(debug_port: u16) -> Seq<Seq<char>> {
    seq![
        "--remote-debugging-port="@ + text::decimal(debug_port as nat),
        "--remote-allow-origins=http://127.0.0.1:"@ + text::decimal(debug_port as nat),
    ]
}

fn string_of(v: &Vec<char>) -> (s: String)
    ensures
        s@ == v@,
{
    text::string_from_chars(v.as_slice())
}

fn literal(s: &str) -> (r: String)
    ensures
        r@ == s@,
{
    let v = text::chars_of(s);
    string_of(&v)
}

fn prefixed_port(prefix: &str, port: u16) -> (r: String)
    ensures
        r@ == prefix@ + text::decimal(port as nat),
{
    let mut v = text::chars_of(prefix);
    let d = text::decimal_chars(port as u64);
    text::push_all(&mut v, d.as_slice());
    string_of(&v)
}

fn extend_strings(v: &mut Vec<String>, extra: &[String])
    ensures
        views(final(v)@) == views(old(v)@) + views(extra@),
{
    let mut i: usize = 0;
    while i < extra.len()
        invariant
            i <= extra.len(),
            v@ == old(v)@ + extra@.take(i as int),
        decreases extra.len() - i,
    {
        let s = extra[i].clone();
        v.push(s);
        i = i + 1;
        assert(v@ =~= old(v)@ + extra@.take(i as int));
    }
    assert(extra@.take(extra.len() as int) =~= extra@);
    assert(views(v@) =~= views(old(v)@) + views(extra@));
}

/// The Codex arguments: the two debugging flags for `debug_port`, then the
/// caller's extra arguments in order.
pub fn build_codex_arguments(debug_port: u16, extra_args: &[String]) -> (args: Vec<String>)
    ensures
        views(args@) == debug_flags(debug_port) + views(extra_args@),
{
    let mut args: Vec<String> = Vec::new();
    args.push(prefixed_port("--remote-debugging-port=", debug_port));
    args.push(prefixed_port("--remote-allow-origins=http://127.0.0.1:", debug_port));
    assert(views(args@) =~= debug_flags(debug_port));
    extend_strings(&mut args, extra_args);
    args
}

/// The full command: the Codex executable, then `build_codex_arguments`.
pub fn build_codex_command(executable: &str, debug_port: u16, extra_args: &[String]) -> (command: Vec<String>)
    ensures
        views(command@) == seq![executable@] + debug_flags(debug_port) + views(extra_args@),
{
    let mut command: Vec<String> = Vec::new();
    command.push(literal(executable));
    let args = build_codex_arguments(debug_port, extra_args);
    assert(views(command@) =~= seq![executable@]);
    extend_strings(&mut command, args.as_slice());
    command
}

/// The macOS command: `open -W -a <app_dir> --args` and the Codex arguments.
pub fn build_macos_open_command(app_dir: &str, debug_port: u16, extra_args: &[String]) -> (command: Vec<String>)
    ensures
        views(command@) == seq!["open"@, "-W"@, "-a"@, app_dir@, "--args"@] + debug_flags(debug_port)
            + views(extra_args@),
{
    let mut command: Vec<String> = Vec::new();
    command.push(literal("open"));
    command.push(literal("-W"));
    command.push(literal("-a"));
    command.push(literal(app_dir));
    command.push(literal("--args"));
    assert(views(command@) =~= seq!["open"@, "-W"@, "-a"@, app_dir@, "--args"@]);
    let args = build_codex_arguments(debug_port, extra_args);
    extend_strings(&mut command, args.as_slice());
    command
}

/// The packaged (Windows Store) activation for an app whose user model id is
/// known; `None` when it is not.
pub fn build_packaged_activation(
    app_user_model_id: Option<String>,
    debug_port: u16,
    extra_args: &[String],
) -> (r: Option<CodexLaunch>)
    ensures
        app_user_model_id is None ==> r is None,
        app_user_model_id matches Some(id) ==> (r matches Some(CodexLaunch::PackagedActivation {
            app_user_model_id: a, arguments, process_id }) && a@ == id@ && process_id is None
            && arguments@ == command_line_spec(debug_flags(debug_port) + views(extra_args@))),
{
    match app_user_model_id {
        None => None,
        Some(id) => {
            let args = build_codex_arguments(debug_port, extra_args);
            let arguments = command_line_arguments(args.as_slice());
            Some(CodexLaunch::PackagedActivation { app_user_model_id: id, arguments, process_id: None })
        },
    }
}

// ───────────────────────── Windows quoting ─────────────────────────

pub open spec fn backslashes(n: nat) -> Seq<char> {
    Seq::new(n, |i: int| '\\')
}

/// Whether an argument holds a space, a tab or a double quote.
pub open spec fn has_special(s: Seq<char>) -> bool {
    exists|i: int| 0 <= i < s.len() && (s[i] == ' ' || s[i] == '\t' || s[i] == '"')
}

/// The quoted text so far and the run of backslashes not yet written, after
/// reading `s` inside quotes.
pub open spec fn quote_fold(s: Seq<char>) -> (Seq<char>, nat)
    decreases s.len(),
{
    if s.len() == 0 {
        (seq!['"'], 0)
    } else {
        let prev = quote_fold(s.drop_last());
        let c = s.last();
        if c == '\\' {
            (prev.0, prev.1 + 1)
        } else if c == '"' {
            (prev.0 + backslashes(2 * prev.1 + 1) + seq!['"'], 0)
        } else {
            (prev.0 + backslashes(prev.1) + seq![c], 0)
        }
    }
}

/// One argument as the Windows command-line parser expects it: unchanged when
/// it is non-empty and holds no space, tab or quote; otherwise wrapped in
/// quotes, each quote escaped with a backslash, and each run of backslashes
/// before a quote (or before the closing quote) doubled.
pub open spec fn quote_windows_argument_spec(s: Seq<char>) -> Seq<char> {
    if s.len() > 0 && !has_special(s) {
        s
    } else {
        let f = quote_fold(s);
        f.0 + backslashes(2 * f.1) + seq!['"']
    }
}

/// The arguments, each quoted, joined by single spaces.
pub open spec fn command_line_spec(args: Seq<Seq<char>>) -> Seq<char>
    decreases args.len(),
{
    if args.len() == 0 {
        Seq::<char>::empty()
    } else if args.len() == 1 {
        quote_windows_argument_spec(args[0])
    } else {
        command_line_spec(args.drop_last()) + seq![' '] + quote_windows_argument_spec(args.last())
    }
}

fn push_backslashes(v: &mut Vec<char>, n: usize)
    ensures
        final(v)@ == old(v)@ + backslashes(n as nat),
{
    let mut i: usize = 0;
    while i < n
        invariant
            i <= n,
            v@ == old(v)@ + backslashes(i as nat),
        decreases n - i,
    {
        v.push('\\');
        i = i + 1;
        assert(v@ =~= old(v)@ + backslashes(i as nat));
    }
}

fn quote_chars(s: &[char]) -> (r: Vec<char>)
    ensures
        r@ == quote_windows_argument_spec(s@),
{
    let mut special = false;
    let mut k: usize = 0;
    while k < s.len()
        invariant
            k <= s.len(),
            special == exists|i: int| 0 <= i < k && (s@[i] == ' ' || s@[i] == '\t' || s@[i] == '"'),
        decreases s.len() - k,
    {
        if s[k] == ' ' || s[k] == '\t' || s[k] == '"' {
            special = true;
        }
        k = k + 1;
    }
    if s.len() > 0 && !special {
        let mut r: Vec<char> = Vec::new();
        text::push_all(&mut r, s);
        return r;
    }
    let mut out: Vec<char> = Vec::new();
    out.push('"');
    let mut run: usize = 0;
    let mut i: usize = 0;
    assert(s@.take(0) =~= Seq::<char>::empty());
    while i < s.len()
        invariant
            i <= s.len(),
            (out@, run as nat) == quote_fold(s@.take(i as int)),
            run <= i,
        decreases s.len() - i,
    {
        assert(s@.take(i + 1).drop_last() =~= s@.take(i as int));
        let c = s[i];
        if c == '\\' {
            run = run + 1;
        } else if c == '"' {
            push_backslashes(&mut out, run);
            push_backslashes(&mut out, run);
            out.push('\\');
            out.push('"');
            assert(backslashes(run as nat) + backslashes(run as nat) + seq!['\\'] =~= backslashes(2 * run as nat + 1));
            run = 0;
        } else {
            push_backslashes(&mut out, run);
            out.push(c);
            run = 0;
        }
        i = i + 1;
        assert(out@ =~= quote_fold(s@.take(i as int)).0);
    }
    assert(s@.take(s.len() as int) =~= s@);
    push_backslashes(&mut out, run);
    push_backslashes(&mut out, run);
    out.push('"');
    assert(backslashes(run as nat) + backslashes(run as nat) =~= backslashes(2 * run as nat));
    out
}

/// One argument quoted for a Windows command line.
pub fn quote_windows_argument(arg: &str) -> (r: String)
    ensures
        r@ == quote_windows_argument_spec(arg@),
{
    let chars = text::chars_of(arg);
    let q = quote_chars(chars.as_slice());
    string_of(&q)
}

/// The arguments quoted for Windows and joined by single spaces.
pub fn command_line_arguments(args: &[String]) -> (r: String)
    ensures
        r@ == command_line_spec(views(args@)),
{
    let mut out: Vec<char> = Vec::new();
    let mut i: usize = 0;
    while i < args.len()
        invariant
            i <= args.len(),
            out@ == command_line_spec(views(args@.take(i as int))),
        decreases args.len() - i,
    {
        let ghost prev = views(args@.take(i as int));
        assert(views(args@.take(i + 1)).drop_last() =~= prev);
        assert(views(args@.take(i + 1)).last() == args@[i as int]@);
        let a = text::chars_of(args[i].as_str());
        let q = quote_chars(a.as_slice());
        if i > 0 {
            out.push(' ');
        }
        text::push_all(&mut out, q.as_slice());
        i = i + 1;
        assert(out@ =~= command_line_spec(views(args@.take(i as int))));
    }
    assert(args@.take(args.len() as int) =~= args@);
    string_of(&out)
}

// ───────────────────────── macOS ─────────────────────────

/// The last path component of `path` without its extension, as
/// `std::path::Path::file_stem` gives it.
pub uninterp spec fn path_file_stem(path: Seq<char>) -> Option<Seq<char>>;

/// `std::path::Path::file_stem` of a path given as text; the stem of a path
/// that is valid UTF-8 is valid UTF-8 too, so the conversion back to a string
/// loses nothing. The result is named, not described.
#[verifier::external_body]
fn file_stem(path: &str) -> (r: Option<String>)
    ensures
        r matches Some(s) ==> path_file_stem(path@) == Some(s@),
        r is None ==> path_file_stem(path@) is None,
{
    std::path::Path::new(path).file_stem().and_then(|stem| stem.to_str()).map(|stem| stem.to_string())
}

/// The application name that AppleScript addresses: the app directory's file
/// stem, or `Codex` when it has none.
pub open spec fn macos_app_name(app_dir: Seq<char>) -> Seq<char> {
    match path_file_stem(app_dir) {
        Some(stem) => stem,
        None => "Codex"@,
    }
}

/// The command that quits the app, unless the policy keeps an app that was
/// already running.
pub fn build_macos_cleanup_command(app_dir: &str, policy: MacosCleanupPolicy) -> (r: Option<Vec<String>>)
    ensures
        policy == MacosCleanupPolicy::SkipQuitBecauseAlreadyRunning ==> r is None,
        policy == MacosCleanupPolicy::QuitIfNotPreviouslyRunning ==> (r matches Some(cmd) && views(cmd@) == seq![
            "osascript"@,
            "-e"@,
            "tell application \""@ + text::escape_quotes(macos_app_name(app_dir@)) + "\" to quit"@,
        ]),
{
    if policy == MacosCleanupPolicy::SkipQuitBecauseAlreadyRunning {
        return None;
    }
    let name: Vec<char> = match file_stem(app_dir) {
        Some(stem) => text::chars_of(stem.as_str()),
        None => text::chars_of("Codex"),
    };
    let escaped = text::escape_quote_chars(name.as_slice());
    let mut script = text::chars_of("tell application \"");
    text::push_all(&mut script, escaped.as_slice());
    let tail = text::chars_of("\" to quit");
    text::push_all(&mut script, tail.as_slice());
    let mut cmd: Vec<String> = Vec::new();
    cmd.push(literal("osascript"));
    cmd.push(literal("-e"));
    cmd.push(string_of(&script));
    assert(views(cmd@) =~= seq![
        "osascript"@,
        "-e"@,
        "tell application \""@ + text::escape_quotes(macos_app_name(app_dir@)) + "\" to quit"@,
    ]);
    Some(cmd)
}

/// The element after the first `-a` of a command, if there is one.
pub open spec fn open_app_dir(cmd: Seq<Seq<char>>) -> Option<Seq<char>>
    decreases cmd.len(),
{
    if cmd.len() == 0 {
        None
    } else if cmd[0] == "-a"@ {
        if cmd.len() > 1 {
            Some(cmd[1])
        } else {
            None
        }
    } else {
        open_app_dir(cmd.skip(1))
    }
}

/// The app directory of an `open ... -a <app_dir> ...` command: the element
/// after the first `-a`, if there is one.
pub fn macos_app_dir_from_open_command(command: &[String]) -> (r: Option<String>)
    ensures
        r matches Some(s) ==> open_app_dir(views(command@)) == Some(s@),
        r is None ==> open_app_dir(views(command@)) is None,
{
    let flag = literal("-a");
    let ghost cmd = views(command@);
    let mut i: usize = 0;
    assert(cmd.skip(0) =~= cmd);
    while i < command.len()
        invariant
            i <= command.len(),
            flag@ == "-a"@,
            cmd == views(command@),
            cmd.len() == command@.len(),
            open_app_dir(cmd) == open_app_dir(cmd.skip(i as int)),
        decreases command.len() - i,
    {
        assert(cmd.skip(i as int)[0] == command@[i as int]@);
        if command[i] == flag {
            if i + 1 < command.len() {
                assert(cmd.skip(i as int)[1] == command@[i + 1]@);
                return Some(command[i + 1].clone());
            }
            return None;
        }
        assert(cmd.skip(i as int).skip(1) =~= cmd.skip(i + 1));
        i = i + 1;
    }
    None
}

/// The AppleScript that quits the app in `app_dir`.
pub open spec fn cleanup_script(app_dir: Seq<char>) -> Seq<char> {
    "tell application \""@ + text::escape_quotes(macos_app_name(app_dir)) + "\" to quit"@
}

/// What stopping Codex takes.
#[derive(Debug)]
pub struct TerminationPlan {
    /// Kill the child process that was started.
    pub kill_child: bool,
    /// Then run this command, which quits the macOS app.
    pub cleanup_command: Option<Vec<String>>,
    /// Terminate the packaged app's process with this id.
    pub terminate_process_id: Option<u32>,
}

/// How a launched Codex is stopped: a started process is killed, and a
/// macOS app opened with `open -W` is then quitted by AppleScript unless the
/// policy keeps an app that was already running; a packaged app is stopped
/// by its process id when one is known.
pub fn termination_plan(launch: &CodexLaunch) -> (p: TerminationPlan)
    ensures
        match *launch {
            CodexLaunch::Process { command, wait_strategy, macos_cleanup_policy } => {
                &&& p.kill_child
                &&& p.terminate_process_id is None
                &&& if wait_strategy == ProcessWaitStrategy::ExternalWaitCommand && open_app_dir(views(command@)) is Some
                    && macos_cleanup_policy == Some(MacosCleanupPolicy::QuitIfNotPreviouslyRunning) {
                    p.cleanup_command matches Some(c) && views(c@) == seq![
                        "osascript"@,
                        "-e"@,
                        cleanup_script(open_app_dir(views(command@))->0),
                    ]
                } else {
                    p.cleanup_command is None
                }
            },
            CodexLaunch::PackagedActivation { process_id, .. } => {
                &&& !p.kill_child
                &&& p.cleanup_command is None
                &&& p.terminate_process_id == process_id
            },
        },
{
    match launch {
        CodexLaunch::Process { command, wait_strategy, macos_cleanup_policy } => {
            let mut cleanup: Option<Vec<String>> = None;
            if *wait_strategy == ProcessWaitStrategy::ExternalWaitCommand {
                match (macos_app_dir_from_open_command(command.as_slice()), *macos_cleanup_policy) {
                    (Some(app_dir), Some(policy)) => {
                        cleanup = build_macos_cleanup_command(app_dir.as_str(), policy);
                    },
                    _ => {},
                }
            }
            TerminationPlan { kill_child: true, cleanup_command: cleanup, terminate_process_id: None }
        },
        CodexLaunch::PackagedActivation { process_id, .. } => {
            TerminationPlan { kill_child: false, cleanup_command: None, terminate_process_id: *process_id }
        },
    }
}

/// What to do when Codex is launched as a macOS app: reuse a running copy
/// that already listens for the debugger (and leave it running afterwards);
/// otherwise quit any running copy first (`true`) when it is running without
/// the debugger, and quit the app on cleanup.
pub fn plan_macos_launch(already_running: bool, cdp_available: bool) -> (r: (MacosCleanupPolicy, bool))
    ensures
        r.0 == (if already_running && cdp_available {
            MacosCleanupPolicy::SkipQuitBecauseAlreadyRunning
        } else {
            MacosCleanupPolicy::QuitIfNotPreviouslyRunning
        }),
        r.1 == (already_running && !cdp_available),
{
    if already_running {
        if cdp_available {
            (MacosCleanupPolicy::SkipQuitBecauseAlreadyRunning, false)
        } else {
            (MacosCleanupPolicy::QuitIfNotPreviouslyRunning, true)
        }
    } else {
        (MacosCleanupPolicy::QuitIfNotPreviouslyRunning, false)
    }
}

// ───────────────────────── the launch sequence ─────────────────────────

/// The settings a launch follows.
#[derive(Debug, Clone, Copy)]
pub struct LaunchFlags {
    pub provider_sync_enabled: bool,
    pub enhancements_enabled: bool,
    pub protocol_proxy_enabled: bool,
}

/// What the launcher does next. Every step reports back whether it
/// succeeded; for `EnsureInjection`, success means the page took the script.
#[derive(Debug, Clone, Copy, PartialEq, Eq, Structural)]
pub enum LaunchAction {
    RunProviderSync,
    StartHelper { port: u16 },
    ApplyRelayProfile,
    LaunchCodex,
    EnsureInjection,
    StartBridgeWatchdog,
    /// Save and announce `running_degraded`: Codex runs, enhancements wait for the page.
    ReportDegraded,
    /// Save and announce `running`.
    ReportRunning,
    /// The launch succeeded.
    Finish,
    /// The launch failed: stop the helper and/or Codex as told, then save and
    /// announce `failed`.
    Fail { shutdown_helper: bool, terminate_codex: bool },
}

/// The launch in progress.
#[derive(Debug, Clone, Copy)]
pub struct LaunchMachine {
    pub flags: LaunchFlags,
    pub helper_port: u16,
    pub awaiting: LaunchAction,
    pub helper_started: bool,
    pub launched: bool,
    pub keep_launched_on_error: bool,
}

pub open spec fn uses_helper(f: LaunchFlags) -> bool {
    f.enhancements_enabled || f.protocol_proxy_enabled
}

/// The step after the provider sync.
pub open spec fn after_sync(m: LaunchMachine) -> LaunchMachine {
    if uses_helper(m.flags) {
        LaunchMachine { awaiting: LaunchAction::StartHelper { port: m.helper_port }, ..m }
    } else {
        LaunchMachine { awaiting: LaunchAction::ApplyRelayProfile, ..m }
    }
}

/// The failure step: stop the helper if it was started, and Codex if it was
/// launched and not kept for a pending injection.
pub open spec fn failed(m: LaunchMachine) -> LaunchMachine {
    LaunchMachine {
        awaiting: LaunchAction::Fail {
            shutdown_helper: m.helper_started,
            terminate_codex: m.launched && !m.keep_launched_on_error,
        },
        ..m
    }
}

/// The machine after the awaited step reported `ok`.
pub open spec fn transition(m: LaunchMachine, ok: bool) -> LaunchMachine {
    match m.awaiting {
        LaunchAction::RunProviderSync => if ok { after_sync(m) } else { failed(m) },
        LaunchAction::StartHelper { .. } => if ok {
            LaunchMachine { awaiting: LaunchAction::ApplyRelayProfile, helper_started: true, ..m }
        } else {
            failed(m)
        },
        LaunchAction::ApplyRelayProfile => if ok {
            LaunchMachine { awaiting: LaunchAction::LaunchCodex, ..m }
        } else {
            failed(m)
        },
        LaunchAction::LaunchCodex => if ok {
            LaunchMachine {
                awaiting: if m.flags.enhancements_enabled {
                    LaunchAction::EnsureInjection
                } else {
                    LaunchAction::ReportRunning
                },
                launched: true,
                keep_launched_on_error: true,
                ..m
            }
        } else {
            failed(m)
        },
        LaunchAction::EnsureInjection => if ok {
            LaunchMachine { awaiting: LaunchAction::StartBridgeWatchdog, keep_launched_on_error: false, ..m }
        } else {
            LaunchMachine { awaiting: LaunchAction::ReportDegraded, ..m }
        },
        LaunchAction::StartBridgeWatchdog => if ok {
            LaunchMachine { awaiting: LaunchAction::ReportRunning, ..m }
        } else {
            failed(m)
        },
        LaunchAction::ReportDegraded => if ok {
            LaunchMachine { awaiting: LaunchAction::Finish, ..m }
        } else {
            failed(m)
        },
        LaunchAction::ReportRunning => if ok {
            LaunchMachine { awaiting: LaunchAction::Finish, ..m }
        } else {
            failed(m)
        },
        LaunchAction::Finish => m,
        LaunchAction::Fail { .. } => m,
    }
}

impl LaunchMachine {
    /// What every reachable state satisfies: the helper is started only when
    /// enhancements or the protocol proxy need it; Codex is kept on error
    /// only once launched; a launched Codex is given up on error only after
    /// its page took the script.
    pub open spec fn wf(&self) -> bool {
        &&& self.helper_started ==> uses_helper(self.flags)
        &&& self.keep_launched_on_error ==> self.launched
        &&& (self.launched && !self.keep_launched_on_error) ==> self.flags.enhancements_enabled
            && (self.awaiting == LaunchAction::StartBridgeWatchdog
                || self.awaiting == LaunchAction::ReportRunning
                || self.awaiting == LaunchAction::Finish
                || self.awaiting matches LaunchAction::Fail { .. })
        &&& !self.launched ==> (self.awaiting != LaunchAction::EnsureInjection
            && self.awaiting != LaunchAction::StartBridgeWatchdog
            && self.awaiting != LaunchAction::ReportDegraded
            && self.awaiting != LaunchAction::ReportRunning
            && self.awaiting != LaunchAction::Finish)
        &&& self.awaiting matches LaunchAction::StartHelper { port } ==> port == self.helper_port && uses_helper(self.flags)
        &&& self.awaiting == LaunchAction::ReportDegraded ==> self.keep_launched_on_error
        &&& self.awaiting == LaunchAction::EnsureInjection ==> self.flags.enhancements_enabled
            && self.keep_launched_on_error
    }

    /// A launch with these settings. The helper listens on the protocol proxy's
    /// port when the proxy is on, otherwise on the selected helper port. The
    /// first step is the provider sync when it is enabled.
    pub fn start(flags: LaunchFlags, selected_helper_port: u16, proxy_port: u16) -> (m: LaunchMachine)
        ensures
            m.wf(),
            m.flags == flags,
            m.helper_port == if flags.protocol_proxy_enabled { proxy_port } else { selected_helper_port },
            !m.helper_started && !m.launched && !m.keep_launched_on_error,
            flags.provider_sync_enabled ==> m.awaiting == LaunchAction::RunProviderSync,
            !flags.provider_sync_enabled ==> m.awaiting == after_sync(m).awaiting,
            !flags.provider_sync_enabled ==> m.awaiting == (if flags.enhancements_enabled || flags.protocol_proxy_enabled {
                LaunchAction::StartHelper { port: m.helper_port }
            } else {
                LaunchAction::ApplyRelayProfile
            }),
    {
        let helper_port = if flags.protocol_proxy_enabled { proxy_port } else { selected_helper_port };
        let m = LaunchMachine {
            flags,
            helper_port,
            awaiting: LaunchAction::RunProviderSync,
            helper_started: false,
            launched: false,
            keep_launched_on_error: false,
        };
        if flags.provider_sync_enabled {
            m
        } else {
            m.next_after_sync()
        }
    }

    fn next_after_sync(self) -> (m: LaunchMachine)
        ensures
            m == after_sync(self),
    {
        if self.flags.enhancements_enabled || self.flags.protocol_proxy_enabled {
            LaunchMachine { awaiting: LaunchAction::StartHelper { port: self.helper_port }, ..self }
        } else {
            LaunchMachine { awaiting: LaunchAction::ApplyRelayProfile, ..self }
        }
    }

    fn fail(self) -> (m: LaunchMachine)
        ensures
            m == failed(self),
    {
        LaunchMachine {
            awaiting: LaunchAction::Fail {
                shutdown_helper: self.helper_started,
                terminate_codex: self.launched && !self.keep_launched_on_error,
            },
            ..self
        }
    }

    /// Moves on after the awaited step reported whether it succeeded.
    pub fn step(&mut self, ok: bool)
        requires
            old(self).wf(),
        ensures
            final(self).wf(),
            *final(self) == transition(*old(self), ok),
    {
        let m = *self;
        let next = match m.awaiting {
            LaunchAction::RunProviderSync => if ok { m.next_after_sync() } else { m.fail() },
            LaunchAction::StartHelper { .. } => if ok {
                LaunchMachine { awaiting: LaunchAction::ApplyRelayProfile, helper_started: true, ..m }
            } else {
                m.fail()
            },
            LaunchAction::ApplyRelayProfile => if ok {
                LaunchMachine { awaiting: LaunchAction::LaunchCodex, ..m }
            } else {
                m.fail()
            },
            LaunchAction::LaunchCodex => if ok {
                LaunchMachine {
                    awaiting: if m.flags.enhancements_enabled {
                        LaunchAction::EnsureInjection
                    } else {
                        LaunchAction::ReportRunning
                    },
                    launched: true,
                    keep_launched_on_error: true,
                    ..m
                }
            } else {
                m.fail()
            },
            LaunchAction::EnsureInjection => if ok {
                LaunchMachine { awaiting: LaunchAction::StartBridgeWatchdog, keep_launched_on_error: false, ..m }
            } else {
                LaunchMachine { awaiting: LaunchAction::ReportDegraded, ..m }
            },
            LaunchAction::StartBridgeWatchdog => if ok {
                LaunchMachine { awaiting: LaunchAction::ReportRunning, ..m }
            } else {
                m.fail()
            },
            LaunchAction::ReportDegraded => if ok {
                LaunchMachine { awaiting: LaunchAction::Finish, ..m }
            } else {
                m.fail()
            },
            LaunchAction::ReportRunning => if ok {
                LaunchMachine { awaiting: LaunchAction::Finish, ..m }
            } else {
                m.fail()
            },
            LaunchAction::Finish => m,
            LaunchAction::Fail { .. } => m,
        };
        *self = next;
    }
}

/// A failed launch stops the helper exactly when it had been started, and
/// stops Codex only when it had been launched and its page had taken the
/// script (a Codex still waiting for injection is left running).
pub proof fn lemma_failure_cleanup(m: LaunchMachine, ok: bool)
    requires
        m.wf(),
        transition(m, ok).awaiting matches LaunchAction::Fail { .. },
        !(m.awaiting matches LaunchAction::Fail { .. }),
    ensures
        transition(m, ok).awaiting matches LaunchAction::Fail { shutdown_helper, terminate_codex }
            && shutdown_helper == m.helper_started
            && (terminate_codex ==> m.launched && m.flags.enhancements_enabled
                && m.awaiting != LaunchAction::EnsureInjection),
{
}

/// The helper is only ever started for a launch that needs it.
pub proof fn lemma_helper_only_when_needed(m: LaunchMachine, ok: bool)
    requires
        m.wf(),
    ensures
        transition(m, ok).helper_started ==> uses_helper(m.flags),
        transition(m, ok).awaiting matches LaunchAction::StartHelper { port } ==> port == m.helper_port,
{
}

/// Once the provider sync succeeds, the launch starts the helper (on the
/// launch's helper port) exactly when enhancements or the protocol proxy are
/// on, and otherwise goes straight to the relay profile; the helper is then
/// not yet running.
pub proof fn lemma_sync_then_helper(m: LaunchMachine)
    requires
        m.awaiting == LaunchAction::RunProviderSync,
    ensures
        (m.flags.enhancements_enabled || m.flags.protocol_proxy_enabled) ==> transition(m, true).awaiting
            == (LaunchAction::StartHelper { port: m.helper_port }),
        !(m.flags.enhancements_enabled || m.flags.protocol_proxy_enabled) ==> transition(m, true).awaiting
            == LaunchAction::ApplyRelayProfile,
        transition(m, true).helper_started == m.helper_started,
        transition(m, true).launched == m.launched,
{
}

/// A launch whose steps all succeed has its helper running before Codex is
/// launched exactly when enhancements or the protocol proxy are on.
pub proof fn lemma_helper_running_before_codex(m: LaunchMachine)
    requires
        m.awaiting == LaunchAction::RunProviderSync,
        !m.helper_started,
    ensures
        ({
            let m1 = transition(m, true);
            let before_launch = if m1.awaiting matches LaunchAction::StartHelper { .. } {
                transition(transition(m1, true), true)
            } else {
                transition(m1, true)
            };
            &&& before_launch.awaiting == LaunchAction::LaunchCodex
            &&& before_launch.helper_started == (m.flags.enhancements_enabled || m.flags.protocol_proxy_enabled)
        }),
{
}

/// Once Codex is launched, the page is injected next when enhancements are
/// on, and the launch is reported running otherwise; a failed launch of
/// Codex is cleaned up without stopping a Codex that never started.
pub proof fn lemma_launch_then_inject(m: LaunchMachine)
    requires
        m.awaiting == LaunchAction::LaunchCodex,
    ensures
        transition(m, true).launched,
        m.flags.enhancements_enabled ==> transition(m, true).awaiting == LaunchAction::EnsureInjection,
        !m.flags.enhancements_enabled ==> transition(m, true).awaiting == LaunchAction::ReportRunning,
        transition(m, false).awaiting == (LaunchAction::Fail {
            shutdown_helper: m.helper_started,
            terminate_codex: m.launched && !m.keep_launched_on_error,
        }),
{
}

// ───────────────────────── reading a quoted argument back ─────────────────────────

/// Where the Windows command-line parser stands within one argument: the
/// text read so far, the backslashes not yet resolved, whether it is inside
/// quotes, and whether an unquoted space or tab has ended the argument.
pub struct ArgvState {
    pub out: Seq<char>,
    pub pending: nat,
    pub quoted: bool,
    pub ended: bool,
}

/// One character of an argument as `CommandLineToArgvW` reads it: a run of
/// backslashes counts literally unless a quote follows, where every two
/// backslashes give one and an odd one out escapes the quote; an unescaped
/// quote opens or closes a quoted part; outside quotes a space or tab ends
/// the argument.
pub open spec fn argv_step(st: ArgvState, c: char) -> ArgvState {
    if st.ended {
        st
    } else if c == '\\' {
        ArgvState { pending: st.pending + 1, ..st }
    } else if c == '"' {
        if st.pending % 2 == 0 {
            ArgvState { out: st.out + backslashes(st.pending / 2), pending: 0, quoted: !st.quoted, ended: false }
        } else {
            ArgvState { out: st.out + backslashes(st.pending / 2) + seq!['"'], pending: 0, ..st }
        }
    } else if (c == ' ' || c == '\t') && !st.quoted {
        ArgvState { out: st.out + backslashes(st.pending), pending: 0, ended: true, ..st }
    } else {
        ArgvState { out: st.out + backslashes(st.pending) + seq![c], pending: 0, ..st }
    }
}

pub open spec fn argv_read(s: Seq<char>) -> ArgvState
    decreases s.len(),
{
    if s.len() == 0 {
        ArgvState { out: Seq::empty(), pending: 0, quoted: false, ended: false }
    } else {
        argv_step(argv_read(s.drop_last()), s.last())
    }
}

/// The argument the parser reads from `s`, or `None` where an unquoted
/// space or tab splits `s` into more than one.
pub open spec fn windows_argument(s: Seq<char>) -> Option<Seq<char>> {
    let st = argv_read(s);
    if st.ended {
        None
    } else {
        Some(st.out + backslashes(st.pending))
    }
}

proof fn lemma_argv_push(s: Seq<char>, c: char)
    ensures
        argv_read(s.push(c)) == argv_step(argv_read(s), c),
{
    assert(s.push(c).drop_last() =~= s);
}

proof fn lemma_backslashes_push(n: nat)
    ensures
        backslashes(n + 1) == backslashes(n).push('\\'),
        backslashes(n) + backslashes(1) == backslashes(n + 1),
{
    assert(backslashes(n + 1) =~= backslashes(n).push('\\'));
    assert(backslashes(n) + backslashes(1) =~= backslashes(n + 1));
}

/// Reading `n` backslashes only counts them.
proof fn lemma_argv_backslashes(x: Seq<char>, n: nat)
    requires
        !argv_read(x).ended,
    ensures
        argv_read(x + backslashes(n)) == (ArgvState { pending: argv_read(x).pending + n, ..argv_read(x) }),
    decreases n,
{
    if n == 0 {
        assert(x + backslashes(0) =~= x);
    } else {
        let m = (n - 1) as nat;
        lemma_argv_backslashes(x, m);
        lemma_backslashes_push(m);
        assert(x + backslashes(n) =~= (x + backslashes(m)).push('\\'));
        lemma_argv_push(x + backslashes(m), '\\');
    }
}

/// An argument without spaces, tabs or quotes reads back as itself.
proof fn lemma_argv_plain(s: Seq<char>)
    requires
        forall|i: int| 0 <= i < s.len() ==> s[i] != ' ' && s[i] != '\t' && s[i] != '"',
    ensures
        !argv_read(s).ended,
        !argv_read(s).quoted,
        argv_read(s).out + backslashes(argv_read(s).pending) == s,
    decreases s.len(),
{
    if s.len() > 0 {
        let p = s.drop_last();
        lemma_argv_plain(p);
        lemma_argv_push(p, s.last());
        let st = argv_read(p);
        lemma_backslashes_push(st.pending);
        assert(p.push(s.last()) =~= s);
        if s.last() == '\\' {
            assert(st.out + backslashes(st.pending + 1) =~= (st.out + backslashes(st.pending)).push('\\'));
        } else {
            assert(st.out + backslashes(st.pending) + seq![s.last()] + backslashes(0) =~= (st.out + backslashes(
                st.pending,
            )).push(s.last()));
        }
    } else {
        assert(Seq::<char>::empty() + backslashes(0) =~= Seq::<char>::empty());
    }
}

/// Inside the quotes that `quote_windows_argument` opens, what has been
/// written of an argument reads back as the argument less its last run of
/// backslashes, which are still held back.
proof fn lemma_argv_quoted(s: Seq<char>)
    ensures
        ({
            let st = argv_read(quote_fold(s).0);
            &&& !st.ended
            &&& st.quoted
            &&& st.pending == 0
            &&& st.out + backslashes(quote_fold(s).1) == s
        }),
    decreases s.len(),
{
    if s.len() == 0 {
        lemma_argv_push(Seq::empty(), '"');
        assert(seq!['"'] =~= Seq::<char>::empty().push('"'));
        assert(Seq::<char>::empty() + backslashes(0) =~= Seq::<char>::empty());
        assert(Seq::<char>::empty() + backslashes(0) + backslashes(0) =~= s);
    } else {
        let p = s.drop_last();
        let c = s.last();
        lemma_argv_quoted(p);
        let fp = quote_fold(p);
        let st = argv_read(fp.0);
        let k = fp.1;
        assert(p.push(c) =~= s);
        if c == '\\' {
            lemma_backslashes_push(k);
            assert(st.out + backslashes(k + 1) =~= (st.out + backslashes(k)).push('\\'));
        } else if c == '"' {
            lemma_argv_backslashes(fp.0, 2 * k + 1);
            let x = fp.0 + backslashes(2 * k + 1);
            lemma_argv_push(x, '"');
            assert(fp.0 + backslashes(2 * k + 1) + seq!['"'] =~= x.push('"'));
            assert((2 * k + 1) / 2 == k);
            assert(st.out + backslashes(k) + seq!['"'] + backslashes(0) =~= (st.out + backslashes(k)).push('"'));
        } else {
            lemma_argv_backslashes(fp.0, k);
            let x = fp.0 + backslashes(k);
            lemma_argv_push(x, c);
            assert(fp.0 + backslashes(k) + seq![c] =~= x.push(c));
            assert(st.out + backslashes(k) + seq![c] + backslashes(0) =~= (st.out + backslashes(k)).push(c));
        }
    }
}

/// The Windows command-line parser reads a quoted argument back as the
/// argument that was quoted, as one argument.
pub proof fn lemma_quoting_reads_back(s: Seq<char>)
    ensures
        windows_argument(quote_windows_argument_spec(s)) == Some(s),
{
    if s.len() > 0 && !has_special(s) {
        lemma_argv_plain(s);
    } else {
        let f = quote_fold(s);
        lemma_argv_quoted(s);
        let st = argv_read(f.0);
        lemma_argv_backslashes(f.0, 2 * f.1);
        let x = f.0 + backslashes(2 * f.1);
        lemma_argv_push(x, '"');
        assert(f.0 + backslashes(2 * f.1) + seq!['"'] =~= x.push('"'));
        assert((2 * f.1) / 2 == f.1);
        assert(st.out + backslashes(f.1) + backslashes(0) =~= st.out + backslashes(f.1));
    }
}

// ───────────────────────── the bridge and the single instance ─────────────────────────

/// Whether a CDP `Runtime.evaluate` reply says `true`: its
/// `result.result.value` is the boolean `true`.
pub open spec fn evaluate_result_true(reply: Json) -> bool {
    match json::json_get(reply, "result"@) {
        Some(outer) => match json::json_get(outer, "result"@) {
            Some(inner) => match json::json_get(inner, "value"@) {
                Some(v) => json::json_as_bool(v) == Some(true),
                None => false,
            },
            None => false,
        },
        None => false,
    }
}

/// Reads the answer of the bridge health check from a `Runtime.evaluate` reply.
pub fn runtime_evaluate_result_is_true(reply: &Json) -> (b: bool)
    ensures
        b == evaluate_result_true(*reply),
{
    let key = literal("result");
    let value = literal("value");
    match reply.get(&key) {
        Some(outer) => match outer.get(&key) {
            Some(inner) => match inner.get(&value) {
                Some(v) => match v.as_bool() {
                    Some(b) => b,
                    None => false,
                },
                None => false,
            },
            None => false,
        },
        None => false,
    }
}

/// Why the manager could not take its single-instance guard.
#[derive(Debug, Clone, Copy, PartialEq, Eq, Structural)]
pub enum GuardError {
    /// The guard port is taken.
    AddrInUse,
    /// The fallback lock file is held.
    WouldBlock,
    /// Anything else.
    Other,
}

/// What the manager does when it cannot take the guard.
#[derive(Debug, Clone, Copy, PartialEq, Eq, Structural)]
pub enum GuardFallback {
    /// Another manager runs: do not start.
    AlreadyRunning,
    /// Start anyway, holding a listener on a port the system picks.
    EphemeralListener,
}

/// A taken port or a held lock means another manager is running; any other
/// failure falls back to a listener on a system-chosen port.
pub fn guard_fallback(error: GuardError) -> (r: GuardFallback)
    ensures
        r == (if error == GuardError::Other { GuardFallback::EphemeralListener } else { GuardFallback::AlreadyRunning }),
{
    match error {
        GuardError::AddrInUse => GuardFallback::AlreadyRunning,
        GuardError::WouldBlock => GuardFallback::AlreadyRunning,
        GuardError::Other => GuardFallback::EphemeralListener,
    }
}

// ───────────────────────── starting the helper ─────────────────────────

/// What binding the helper's port gave.
#[derive(Debug, Clone, Copy, PartialEq, Eq, Structural)]
pub enum BindOutcome {
    /// The port is ours.
    Bound,
    /// Something already listens on it.
    AddrInUse,
    /// Binding failed otherwise.
    OtherError,
}

/// What the launcher does about the helper.
#[derive(Debug, Clone, Copy, PartialEq, Eq, Structural)]
pub enum HelperStart {
    /// Serve the helper on the bound port.
    Serve,
    /// A helper already answers on the port: use it and start none.
    ReuseRunning,
    /// Another program holds the port: fail.
    FailPortTaken,
    /// Binding failed otherwise: fail with that error.
    FailBind,
}

/// The decision of `helper_start_decision`.
pub open spec fn helper_start_spec(bind: BindOutcome, probe_status: Option<u16>) -> HelperStart {
    match bind {
        BindOutcome::Bound => HelperStart::Serve,
        BindOutcome::OtherError => HelperStart::FailBind,
        BindOutcome::AddrInUse => match probe_status {
            Some(status) => if 200 <= status && status < 300 {
                HelperStart::ReuseRunning
            } else {
                HelperStart::FailPortTaken
            },
            None => HelperStart::FailPortTaken,
        },
    }
}

/// Whether to serve, reuse or fail when the helper starts: a bound port is
/// served; when the port is taken, `probe_status` is the status of a
/// `GET /backend/status` to it (`None` where the request failed), and a
/// success status (2xx) means a helper already runs there; any other bind
/// failure fails.
pub fn helper_start_decision(bind: BindOutcome, probe_status: Option<u16>) -> (d: HelperStart)
    ensures
        d == helper_start_spec(bind, probe_status),
{
    match bind {
        BindOutcome::Bound => HelperStart::Serve,
        BindOutcome::OtherError => HelperStart::FailBind,
        BindOutcome::AddrInUse => match probe_status {
            Some(status) => if 200 <= status && status < 300 {
                HelperStart::ReuseRunning
            } else {
                HelperStart::FailPortTaken
            },
            None => HelperStart::FailPortTaken,
        },
    }
}

/// The message when another program holds the helper port.
pub fn helper_port_taken_message(helper_port: u16) -> (m: String)
    ensures
        m@ == "failed to bind helper runtime on 127.0.0.1:"@ + text::decimal(helper_port as nat)
            + " (port in use by another process)"@,
{
    let mut v = text::chars_of("failed to bind helper runtime on 127.0.0.1:");
    let d = text::decimal_chars(helper_port as u64);
    text::push_all(&mut v, d.as_slice());
    let tail = text::chars_of(" (port in use by another process)");
    text::push_all(&mut v, tail.as_slice());
    string_of(&v)
}

// ───────────────────────── the bridge watchdog ─────────────────────────

/// Whether the watchdog injects the bridge again, from its health check:
/// `Some(healthy)` where the check answered, `None` where it failed. Only a
/// bridge that answered healthy is left alone.
pub fn bridge_needs_reinjection(health: Option<bool>) -> (b: bool)
    ensures
        b == !(health == Some(true)),
{
    match health {
        Some(healthy) => !healthy,
        None => true,
    }
}

} // verus!
