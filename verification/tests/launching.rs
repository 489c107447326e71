use ucodex_core::json::Json;
use ucodex_core::launch::{
    guard_fallback, runtime_evaluate_result_is_true, termination_plan, GuardError, GuardFallback, ProcessWaitStrategy,
    build_codex_arguments, build_codex_command, build_macos_cleanup_command, build_macos_open_command,
    build_packaged_activation, command_line_arguments, launch_status, launch_status_at,
    macos_app_dir_from_open_command, plan_macos_launch, quote_windows_argument, windows_process_control_strategy,
    CodexLaunch, LaunchAction, LaunchFlags, LaunchMachine, LaunchOptions, MacosCleanupPolicy,
    WindowsProcessControlStrategy, DEFAULT_DEBUG_PORT, DEFAULT_HELPER_PORT,
    helper_start_decision, helper_port_taken_message, BindOutcome, HelperStart, bridge_needs_reinjection,
};

fn strings(v: &[&str]) -> Vec<String> {
    v.iter().map(|s| s.to_string()).collect()
}

#[test]
fn codex_arguments_start_with_debug_flags() {
    let args = build_codex_arguments(9229, &strings(&["--foo"]));
    assert_eq!(
        args,
        strings(&["--remote-debugging-port=9229", "--remote-allow-origins=http://127.0.0.1:9229", "--foo"])
    );
    let cmd = build_codex_command("/bin/codex", 1, &[]);
    assert_eq!(cmd, strings(&["/bin/codex", "--remote-debugging-port=1", "--remote-allow-origins=http://127.0.0.1:1"]));
}

#[test]
fn macos_open_command_and_app_dir() {
    let cmd = build_macos_open_command("/Applications/Codex.app", 9229, &[]);
    assert_eq!(cmd[..5], strings(&["open", "-W", "-a", "/Applications/Codex.app", "--args"])[..]);
    assert_eq!(macos_app_dir_from_open_command(&cmd), Some("/Applications/Codex.app".to_string()));
    assert_eq!(macos_app_dir_from_open_command(&strings(&["open", "-a"])), None);
    assert_eq!(macos_app_dir_from_open_command(&strings(&["open"])), None);
}

#[test]
fn macos_cleanup_quits_by_app_name() {
    let cmd = build_macos_cleanup_command("/Applications/Codex Beta.app", MacosCleanupPolicy::QuitIfNotPreviouslyRunning);
    assert_eq!(cmd, Some(strings(&["osascript", "-e", "tell application \"Codex Beta\" to quit"])));
    let cmd = build_macos_cleanup_command("/x/My\"App.app", MacosCleanupPolicy::QuitIfNotPreviouslyRunning);
    assert_eq!(cmd, Some(strings(&["osascript", "-e", "tell application \"My\\\"App\" to quit"])));
    assert_eq!(build_macos_cleanup_command("/x/A.app", MacosCleanupPolicy::SkipQuitBecauseAlreadyRunning), None);
}

#[test]
fn macos_launch_plan() {
    assert_eq!(plan_macos_launch(true, true), (MacosCleanupPolicy::SkipQuitBecauseAlreadyRunning, false));
    assert_eq!(plan_macos_launch(true, false), (MacosCleanupPolicy::QuitIfNotPreviouslyRunning, true));
    assert_eq!(plan_macos_launch(false, false), (MacosCleanupPolicy::QuitIfNotPreviouslyRunning, false));
}

#[test]
fn windows_quoting() {
    assert_eq!(quote_windows_argument("plain"), "plain");
    assert_eq!(quote_windows_argument(""), "\"\"");
    assert_eq!(quote_windows_argument("a b"), "\"a b\"");
    assert_eq!(quote_windows_argument("say \"hi\""), "\"say \\\"hi\\\"\"");
    assert_eq!(quote_windows_argument("C:\\dir with space\\"), "\"C:\\dir with space\\\\\"");
    assert_eq!(quote_windows_argument("a\\\\\"b"), "\"a\\\\\\\\\\\"b\"");
    assert_eq!(command_line_arguments(&strings(&["x", "y z"])), "x \"y z\"");
    assert_eq!(command_line_arguments(&[]), "");
}

#[test]
fn packaged_activation() {
    assert!(build_packaged_activation(None, 9229, &[]).is_none());
    let launch = build_packaged_activation(Some("App!Id".to_string()), 2, &[]).unwrap();
    match &launch {
        CodexLaunch::PackagedActivation { app_user_model_id, arguments, process_id } => {
            assert_eq!(app_user_model_id, "App!Id");
            assert_eq!(arguments, "--remote-debugging-port=2 --remote-allow-origins=http://127.0.0.1:2");
            assert_eq!(*process_id, None);
        },
        _ => panic!("packaged activation"),
    }
    assert_eq!(launch.process_id(), None);
    assert_eq!(windows_process_control_strategy(), WindowsProcessControlStrategy::NativeWindowsApi);
}

#[test]
fn status_records() {
    let s = launch_status_at("running", "ok", 9229, 57321, "/app", 42);
    assert_eq!(s.status, "running");
    assert_eq!(s.started_at_ms, 42);
    assert_eq!(s.debug_port, Some(9229));
    assert_eq!(s.codex_app, Some("/app".to_string()));
    let s = launch_status("failed", "no", 1, 2, "/b");
    assert_eq!(s.helper_port, Some(2));
    let o = LaunchOptions::default();
    assert_eq!((o.debug_port, o.helper_port), (DEFAULT_DEBUG_PORT, DEFAULT_HELPER_PORT));
    assert!(o.app_dir.is_none());
}

fn flags(sync: bool, enh: bool, proxy: bool) -> LaunchFlags {
    LaunchFlags { provider_sync_enabled: sync, enhancements_enabled: enh, protocol_proxy_enabled: proxy }
}

#[test]
fn full_launch_with_enhancements() {
    let mut m = LaunchMachine::start(flags(true, true, false), 57321, 18080);
    assert_eq!(m.awaiting, LaunchAction::RunProviderSync);
    m.step(true);
    assert_eq!(m.awaiting, LaunchAction::StartHelper { port: 57321 });
    m.step(true);
    assert_eq!(m.awaiting, LaunchAction::ApplyRelayProfile);
    m.step(true);
    assert_eq!(m.awaiting, LaunchAction::LaunchCodex);
    m.step(true);
    assert_eq!(m.awaiting, LaunchAction::EnsureInjection);
    m.step(true);
    assert_eq!(m.awaiting, LaunchAction::StartBridgeWatchdog);
    m.step(true);
    assert_eq!(m.awaiting, LaunchAction::ReportRunning);
    m.step(true);
    assert_eq!(m.awaiting, LaunchAction::Finish);
}

#[test]
fn injection_failure_degrades_and_keeps_codex() {
    let mut m = LaunchMachine::start(flags(false, true, true), 57321, 18080);
    assert_eq!(m.helper_port, 18080);
    while m.awaiting != LaunchAction::EnsureInjection {
        m.step(true);
    }
    m.step(false);
    assert_eq!(m.awaiting, LaunchAction::ReportDegraded);
    m.step(false);
    assert_eq!(m.awaiting, LaunchAction::Fail { shutdown_helper: true, terminate_codex: false });
}

#[test]
fn launch_failure_stops_the_helper() {
    let mut m = LaunchMachine::start(flags(false, true, false), 57321, 18080);
    while m.awaiting != LaunchAction::LaunchCodex {
        m.step(true);
    }
    m.step(false);
    assert_eq!(m.awaiting, LaunchAction::Fail { shutdown_helper: true, terminate_codex: false });
}

#[test]
fn no_helper_without_enhancements_or_proxy() {
    let mut m = LaunchMachine::start(flags(true, false, false), 57321, 18080);
    m.step(true);
    assert_eq!(m.awaiting, LaunchAction::ApplyRelayProfile);
    m.step(true);
    m.step(true);
    assert_eq!(m.awaiting, LaunchAction::ReportRunning);
    m.step(false);
    assert_eq!(m.awaiting, LaunchAction::Fail { shutdown_helper: false, terminate_codex: false });
}

fn object(members: Vec<(&str, Json)>) -> Json {
    Json::Object(members.into_iter().map(|(k, v)| (k.to_string(), v)).collect())
}

#[test]
fn evaluate_reply_true_only_for_boolean_true() {
    let reply = |v: Json| object(vec![("result", object(vec![("result", object(vec![("value", v)]))]))]);
    assert!(runtime_evaluate_result_is_true(&reply(Json::Bool(true))));
    assert!(!runtime_evaluate_result_is_true(&reply(Json::Bool(false))));
    assert!(!runtime_evaluate_result_is_true(&reply(Json::String("true".to_string()))));
    assert!(!runtime_evaluate_result_is_true(&object(vec![("result", object(vec![]))])));
    assert!(!runtime_evaluate_result_is_true(&Json::Null));
}

#[test]
fn single_instance_guard_fallbacks() {
    assert_eq!(guard_fallback(GuardError::AddrInUse), GuardFallback::AlreadyRunning);
    assert_eq!(guard_fallback(GuardError::WouldBlock), GuardFallback::AlreadyRunning);
    assert_eq!(guard_fallback(GuardError::Other), GuardFallback::EphemeralListener);
}

#[test]
fn termination_plans() {
    let open = CodexLaunch::Process {
        command: build_macos_open_command("/Applications/Codex.app", 9229, &[]),
        wait_strategy: ProcessWaitStrategy::ExternalWaitCommand,
        macos_cleanup_policy: Some(MacosCleanupPolicy::QuitIfNotPreviouslyRunning),
    };
    let plan = termination_plan(&open);
    assert!(plan.kill_child);
    assert_eq!(plan.cleanup_command, Some(strings(&["osascript", "-e", "tell application \"Codex\" to quit"])));
    assert_eq!(plan.terminate_process_id, None);

    let kept = CodexLaunch::Process {
        command: build_macos_open_command("/Applications/Codex.app", 9229, &[]),
        wait_strategy: ProcessWaitStrategy::ExternalWaitCommand,
        macos_cleanup_policy: Some(MacosCleanupPolicy::SkipQuitBecauseAlreadyRunning),
    };
    assert_eq!(termination_plan(&kept).cleanup_command, None);

    let child = CodexLaunch::Process {
        command: strings(&["/bin/codex"]),
        wait_strategy: ProcessWaitStrategy::TrackedChild,
        macos_cleanup_policy: None,
    };
    let plan = termination_plan(&child);
    assert!(plan.kill_child && plan.cleanup_command.is_none());

    let packaged = CodexLaunch::PackagedActivation {
        app_user_model_id: "Id".to_string(),
        arguments: String::new(),
        process_id: Some(42),
    };
    let plan = termination_plan(&packaged);
    assert!(!plan.kill_child);
    assert_eq!(plan.terminate_process_id, Some(42));
}

#[test]
fn helper_serves_when_port_is_free() {
    assert_eq!(helper_start_decision(BindOutcome::Bound, None), HelperStart::Serve);
    assert_eq!(helper_start_decision(BindOutcome::Bound, Some(500)), HelperStart::Serve);
}

#[test]
fn helper_reuses_running_helper_on_success_probe() {
    assert_eq!(helper_start_decision(BindOutcome::AddrInUse, Some(200)), HelperStart::ReuseRunning);
    assert_eq!(helper_start_decision(BindOutcome::AddrInUse, Some(204)), HelperStart::ReuseRunning);
    assert_eq!(helper_start_decision(BindOutcome::AddrInUse, Some(299)), HelperStart::ReuseRunning);
}

#[test]
fn helper_port_taken_by_other_program() {
    assert_eq!(helper_start_decision(BindOutcome::AddrInUse, Some(300)), HelperStart::FailPortTaken);
    assert_eq!(helper_start_decision(BindOutcome::AddrInUse, Some(404)), HelperStart::FailPortTaken);
    assert_eq!(helper_start_decision(BindOutcome::AddrInUse, Some(199)), HelperStart::FailPortTaken);
    assert_eq!(helper_start_decision(BindOutcome::AddrInUse, None), HelperStart::FailPortTaken);
    assert_eq!(
        helper_port_taken_message(17321),
        "failed to bind helper runtime on 127.0.0.1:17321 (port in use by another process)"
    );
}

#[test]
fn helper_other_bind_error_fails() {
    assert_eq!(helper_start_decision(BindOutcome::OtherError, Some(200)), HelperStart::FailBind);
    assert_eq!(helper_start_decision(BindOutcome::OtherError, None), HelperStart::FailBind);
}

#[test]
fn bridge_reinjected_unless_healthy() {
    assert!(!bridge_needs_reinjection(Some(true)));
    assert!(bridge_needs_reinjection(Some(false)));
    assert!(bridge_needs_reinjection(None));
}
