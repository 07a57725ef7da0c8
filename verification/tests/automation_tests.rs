//! Tests of automation plans: time tokens, plan validation, the commander
//! line protocol and the run state machine.
use rust_and_vulkan::ecss_automation::{
    commander_reply_check, is_commander_command, normalize_commander_name, verification_failure,
    verification_plan,
    replace_unquoted_token, resolve_dynamic_value, toml_text_json, resolve_dynamic_value_at,
    AutomationConfig, AutomationEngine, AutomationError, ExecutionStats, CommandDefinition, CommanderUdpConfig,
    RunAction, RunEvent, RunPhase, RunState,
};
use rust_and_vulkan::error::YamcsTcError;
use rust_and_vulkan::json::JsonValue;
use rust_and_vulkan::yamcs_client::YamcsConfig;

fn obj(members: Vec<(&str, JsonValue)>) -> JsonValue {
    JsonValue::Object(members.into_iter().map(|(k, v)| (k.to_string(), v)).collect())
}

fn s(text: &str) -> JsonValue {
    JsonValue::Str(text.to_string())
}

fn plan(commands: Vec<CommandDefinition>, yamcs: Option<YamcsConfig>) -> AutomationConfig {
    AutomationConfig {
        yamcs,
        commander_udp: CommanderUdpConfig::default(),
        commands,
        timeout_ms: 0,
        stop_on_error: true,
        repeat_count: 0,
        dry_run_all_first: false,
    }
}

fn yamcs_config() -> YamcsConfig {
    YamcsConfig {
        base_url: "http://localhost:8090/".to_string(),
        instance: "myproject".to_string(),
        processor: "realtime".to_string(),
        username: "guest".to_string(),
        password: "guest".to_string(),
        origin: "rust-automation".to_string(),
    }
}

#[test]
fn replace_unquoted_time_token_in_toml() {
    let input = "Time = get_current_time()\nLiteral = \"get_current_time()\"\n";
    let out = replace_unquoted_token(input, "get_current_time()", "123");
    assert!(out.contains("Time = 123"));
    assert!(out.contains("Literal = \"get_current_time()\""));
}

#[test]
fn resolve_dynamic_time_string_to_number() {
    let input = obj(vec![
        ("Time", s("get_current_time()")),
        ("Nested", obj(vec![("Other", JsonValue::PosInt(1))])),
    ]);
    let out = resolve_dynamic_value(&input).expect("resolution should succeed");
    assert!(matches!(out.get("Time"), Some(JsonValue::PosInt(_)) | Some(JsonValue::NegInt(_))));
    let other = out.get("Nested").and_then(|n| n.get("Other"));
    assert!(matches!(other, Some(JsonValue::PosInt(1))));
}

#[test]
fn commander_only_config_without_yamcs_is_valid() {
    let mut cfg = plan(vec![CommandDefinition::new("HPC_SEND")], None);
    cfg.commander_udp = CommanderUdpConfig { host: "127.0.0.1".to_string(), port: 8092, timeout_ms: 600 };
    assert!(AutomationEngine::new(cfg).is_ok());
}

#[test]
fn non_commander_without_yamcs_fails_validation() {
    let cfg = plan(vec![CommandDefinition::new("PUS_17_1")], None);
    let err = match AutomationEngine::new(cfg) {
        Ok(_) => panic!("should fail without yamcs"),
        Err(e) => e,
    };
    assert!(err
        .message()
        .contains("yamcs configuration is required for non-commander commands"));
}

// ---------------------------------------------------------------------------
// Token replacement
// ---------------------------------------------------------------------------

#[test]
fn replace_keeps_escaped_quote_inside_string() {
    let input = "a = \"x \\\" tok\" tok";
    let out = replace_unquoted_token(input, "tok", "9");
    assert_eq!(out, "a = \"x \\\" tok\" 9");
}

#[test]
fn replace_every_unquoted_occurrence() {
    let out = replace_unquoted_token("tok tok \"tok\" tok", "tok", "N");
    assert_eq!(out, "N N \"tok\" N");
}

#[test]
fn replace_token_by_itself_is_identity() {
    let input = "T = get_current_time() \"get_current_time()\"";
    assert_eq!(replace_unquoted_token(input, "get_current_time()", "get_current_time()"), input);
}

#[test]
fn replace_without_token_is_identity() {
    let input = "plain = \"text\" and more";
    assert_eq!(replace_unquoted_token(input, "get_current_time()", "1"), input);
}

#[test]
fn replace_handles_non_ascii_text() {
    let out = replace_unquoted_token("é=tok, \"tøk\"", "tok", "1");
    assert_eq!(out, "é=1, \"tøk\"");
}

// ---------------------------------------------------------------------------
// Dynamic values
// ---------------------------------------------------------------------------

#[test]
fn resolve_at_replaces_tokens_with_whitespace_everywhere() {
    let input = obj(vec![
        ("A", s("  get_current_time() ")),
        ("B", JsonValue::Array(vec![s("get_current_time()"), s("x")])),
        ("C", s("get_current_time() later")),
    ]);
    let out = resolve_dynamic_value_at(&input, 1_700_000_000);
    assert!(matches!(out.get("A"), Some(JsonValue::PosInt(1_700_000_000))));
    let b = out.get("B").and_then(|b| b.as_array()).unwrap();
    assert!(matches!(b[0], JsonValue::PosInt(1_700_000_000)));
    assert!(matches!(&b[1], JsonValue::Str(t) if t == "x"));
    assert!(matches!(out.get("C"), Some(JsonValue::Str(t)) if t == "get_current_time() later"));
}

#[test]
fn resolve_at_negative_time_is_negative_number() {
    let out = resolve_dynamic_value_at(&s("get_current_time()"), -5);
    assert!(matches!(out, JsonValue::NegInt(-5)));
}

#[test]
fn resolve_without_token_returns_same_value() {
    let input = obj(vec![("N", JsonValue::PosInt(3)), ("S", s("text"))]);
    let out = resolve_dynamic_value(&input).unwrap();
    assert!(matches!(out.get("N"), Some(JsonValue::PosInt(3))));
    assert!(matches!(out.get("S"), Some(JsonValue::Str(t)) if t == "text"));
}

// ---------------------------------------------------------------------------
// Commander names and lines
// ---------------------------------------------------------------------------

#[test]
fn commander_names_and_aliases() {
    assert_eq!(normalize_commander_name(" COMMAND_FTP_LIST "), Some("FTP_LIST"));
    assert_eq!(normalize_commander_name("DELETE_ALL"), Some("DELETE_ALL"));
    assert_eq!(normalize_commander_name("PUS_17_1"), None);
    assert!(is_commander_command("HPC_SEND"));
    assert!(!is_commander_command("hpc_send"));
}

fn commander_engine() -> AutomationEngine {
    AutomationEngine::new(plan(vec![CommandDefinition::new("HPC_SEND")], None)).unwrap()
}

#[test]
fn commander_line_ftp_list_uses_path_or_arg0() {
    let engine = commander_engine();
    let cmd = CommandDefinition::new("FTP_LIST");
    let line = engine.build_commander_line(&cmd, &obj(vec![("path", s(" /logs "))])).unwrap();
    assert_eq!(line, "FTP_LIST /logs");
    let line = engine.build_commander_line(&cmd, &obj(vec![("path", s("  ")), ("Arg0", s("/hk"))])).unwrap();
    assert_eq!(line, "FTP_LIST /hk");
    let err = engine.build_commander_line(&cmd, &obj(vec![])).unwrap_err();
    assert!(matches!(err, AutomationError::ValidationError(m) if m == "FTP_LIST requires args.path (or args.Arg0)"));
}

#[test]
fn commander_line_ftp_download_needs_both_paths() {
    let engine = commander_engine();
    let cmd = CommandDefinition::new("COMMAND_FTP_DOWNLOAD");
    let line = engine
        .build_commander_line(&cmd, &obj(vec![("Arg0", s("/a")), ("local", s("b"))]))
        .unwrap();
    assert_eq!(line, "FTP_DOWNLOAD /a b");
    let err = engine.build_commander_line(&cmd, &obj(vec![("remote", s("/a"))])).unwrap_err();
    assert!(matches!(err, AutomationError::ValidationError(m) if m == "FTP_DOWNLOAD requires args.local (or args.Arg1)"));
}

#[test]
fn commander_line_other_commands() {
    let engine = commander_engine();
    let hpc = engine.build_commander_line(&CommandDefinition::new("HPC_SEND"), &obj(vec![])).unwrap();
    assert_eq!(hpc, "HPC_SEND");
    let del = engine
        .build_commander_line(&CommandDefinition::new("DELETE_FILE"), &obj(vec![("path", s("/f"))]))
        .unwrap();
    assert_eq!(del, "DELETE_FILE /f");
    let all = engine
        .build_commander_line(&CommandDefinition::new("DELETE_ALL"), &obj(vec![("prefix", s("hk_"))]))
        .unwrap();
    assert_eq!(all, "DELETE_ALL hk_");
    let err = engine.build_commander_line(&CommandDefinition::new("PUS_17_1"), &obj(vec![])).unwrap_err();
    assert!(matches!(err, AutomationError::ValidationError(m) if m == "unsupported commander command: PUS_17_1"));
}

#[test]
fn commander_reply_error_is_rejection() {
    assert!(commander_reply_check("HPC_SEND", "QUEUED seq=1 cmd=2").is_ok());
    let err = commander_reply_check("HPC_SEND", "ERROR busy").unwrap_err();
    assert_eq!(err.message(), "execution error: commander rejected 'HPC_SEND': ERROR busy");
}

#[test]
fn commander_target_and_timeout() {
    let mut cfg = plan(vec![CommandDefinition::new("HPC_SEND")], None);
    cfg.commander_udp = CommanderUdpConfig { host: "10.0.0.2".to_string(), port: 9000, timeout_ms: 0 };
    let engine = AutomationEngine::new(cfg).unwrap();
    assert_eq!(engine.commander_target(), "10.0.0.2:9000");
    assert_eq!(engine.commander_timeout_ms(), 1);
}

// ---------------------------------------------------------------------------
// Validation
// ---------------------------------------------------------------------------

#[test]
fn empty_plan_is_rejected() {
    let err = AutomationEngine::new(plan(vec![], None)).err().unwrap();
    assert!(matches!(err, AutomationError::ConfigError(m) if m == "no commands defined in configuration"));
}

#[test]
fn invalid_yamcs_config_is_reported() {
    let mut y = yamcs_config();
    y.instance = "   ".to_string();
    let err = AutomationEngine::new(plan(vec![CommandDefinition::new("PUS_17_1")], Some(y))).err().unwrap();
    assert!(matches!(err, AutomationError::ConfigError(m) if m == "configuration error: instance cannot be empty"));
}

#[test]
fn yamcs_plan_builds_client() {
    let engine = AutomationEngine::new(plan(vec![CommandDefinition::new("PUS_17_1")], Some(yamcs_config()))).unwrap();
    let client = engine.client().unwrap();
    let c = client.config();
    assert_eq!(c.base_url, "http://localhost:8090/");
    assert_eq!(c.username, "guest");
    assert_eq!(c.password, "guest");
    assert_eq!(c.origin, "rust-automation");
}

#[test]
fn command_validation_errors() {
    let blank = CommandDefinition::new("  ");
    assert!(matches!(blank.validate(), Err(AutomationError::ValidationError(m)) if m == "command name cannot be empty"));
    let bad_args = CommandDefinition::new("X").with_args(JsonValue::PosInt(1));
    assert!(matches!(bad_args.validate(), Err(AutomationError::ValidationError(m)) if m == "command args must be a JSON object"));
    let no_poll = CommandDefinition::new("X").verify_packet("P").with_verify_poll_interval(0);
    assert!(matches!(no_poll.validate(), Err(AutomationError::ValidationError(m)) if m == "verify_poll_interval_ms must be > 0 when packet verification is enabled"));
    let no_limit = CommandDefinition::new("X").verify_packet("P").with_verify_packet_limit(0);
    assert!(matches!(no_limit.validate(), Err(AutomationError::ValidationError(m)) if m == "verify_packet_limit must be > 0 when packet verification is enabled"));
    assert!(CommandDefinition::new("X").with_verify_poll_interval(0).validate().is_ok());
}

#[test]
fn plan_duration_and_count() {
    let cfg = plan(
        vec![
            CommandDefinition::new("HPC_SEND").with_delay(100),
            CommandDefinition::new("HPC_SEND").with_delay(250),
        ],
        None,
    );
    assert!(cfg.estimated_duration_fits());
    assert_eq!(cfg.estimated_duration_ms(), 350);
    assert_eq!(cfg.command_count(), 2);
    let huge = plan(
        vec![
            CommandDefinition::new("HPC_SEND").with_delay(u64::MAX),
            CommandDefinition::new("HPC_SEND").with_delay(1),
        ],
        None,
    );
    assert!(!huge.estimated_duration_fits());
}

#[test]
fn error_conversion_keeps_kinds() {
    let e = AutomationError::from_tc_error(YamcsTcError::Validation("v".to_string()));
    assert!(matches!(e, AutomationError::ValidationError(m) if m == "v"));
    let e = AutomationError::from_tc_error(YamcsTcError::Command("c".to_string()));
    assert!(matches!(e, AutomationError::NetworkError(m) if m == "command error: c"));
}

// ---------------------------------------------------------------------------
// The run state machine
// ---------------------------------------------------------------------------

fn step(state: &mut RunState, cfg: &AutomationConfig, e: RunEvent) -> RunAction {
    state.step(cfg, e)
}

#[test]
fn run_retries_then_fails_and_stops() {
    let cfg = plan(vec![CommandDefinition::new("HPC_SEND").with_retry(1).with_delay(5)], None);
    let mut st = RunState::new();
    assert_eq!(step(&mut st, &cfg, RunEvent::Begin), RunAction::Start { index: 1, total: 1, cmd: 0 });
    assert_eq!(step(&mut st, &cfg, RunEvent::Checked(0)), RunAction::Attempt { cmd: 0, delay_ms: 5 });
    assert_eq!(step(&mut st, &cfg, RunEvent::Attempted(false)), RunAction::Retry { cmd: 0, pause_ms: 250 });
    assert_eq!(
        step(&mut st, &cfg, RunEvent::Attempted(false)),
        RunAction::Failed { index: 1, total: 1, cmd: 0, stop: true }
    );
    assert_eq!(st.phase, RunPhase::Done);
    assert_eq!(st.failed, 1);
}

#[test]
fn run_repeats_plan_in_order() {
    let mut cfg = plan(vec![CommandDefinition::new("HPC_SEND"), CommandDefinition::new("DELETE_ALL")], None);
    cfg.repeat_count = 2;
    let mut st = RunState::new();
    let mut starts = Vec::new();
    let mut action = step(&mut st, &cfg, RunEvent::Begin);
    loop {
        match action {
            RunAction::Start { index, total, cmd } => {
                assert_eq!(total, 4);
                starts.push((index, cmd));
                action = step(&mut st, &cfg, RunEvent::Checked(1));
            }
            RunAction::Attempt { .. } => action = step(&mut st, &cfg, RunEvent::Attempted(true)),
            RunAction::Succeeded { .. } => action = step(&mut st, &cfg, RunEvent::Reported),
            RunAction::Finish => break,
            other => panic!("unexpected {other:?}"),
        }
    }
    assert_eq!(starts, vec![(1, 0), (2, 1), (3, 0), (4, 1)]);
    assert_eq!(st.successful, 4);
}

#[test]
fn run_times_out_when_budget_spent() {
    let mut cfg = plan(vec![CommandDefinition::new("HPC_SEND")], None);
    cfg.timeout_ms = 10;
    let mut st = RunState::new();
    step(&mut st, &cfg, RunEvent::Begin);
    assert_eq!(step(&mut st, &cfg, RunEvent::Checked(11)), RunAction::TimedOut);
    let mut st = RunState::new();
    step(&mut st, &cfg, RunEvent::Begin);
    assert_eq!(step(&mut st, &cfg, RunEvent::Checked(10)), RunAction::Attempt { cmd: 0, delay_ms: 0 });
}

#[test]
fn run_continues_after_failure_without_stop() {
    let mut cfg = plan(vec![CommandDefinition::new("HPC_SEND"), CommandDefinition::new("HPC_SEND")], None);
    cfg.stop_on_error = false;
    let mut st = RunState::new();
    step(&mut st, &cfg, RunEvent::Begin);
    step(&mut st, &cfg, RunEvent::Checked(0));
    assert_eq!(
        step(&mut st, &cfg, RunEvent::Attempted(false)),
        RunAction::Failed { index: 1, total: 2, cmd: 0, stop: false }
    );
    assert_eq!(step(&mut st, &cfg, RunEvent::Reported), RunAction::Start { index: 2, total: 2, cmd: 1 });
}

#[test]
fn step_builders_and_verification_plan() {
    let cmd = CommandDefinition::new("PUS_17_1");
    assert_eq!(cmd.verify_timeout_ms, 5_000);
    assert_eq!(cmd.verify_poll_interval_ms, 500);
    assert_eq!(cmd.verify_packet_limit, 10);
    assert!(verification_plan(&cmd).is_none());
    let cmd = CommandDefinition::new("PUS_17_1")
        .with_description("ping")
        .verify_packet("PUS_17_2")
        .verify_packet_exact(true)
        .with_verify_timeout(0)
        .with_verify_poll_interval(200)
        .with_verify_packet_limit(0)
        .with_dry_run_first(true);
    assert_eq!(cmd.description, "ping");
    assert!(cmd.dry_run_first);
    let v = verification_plan(&cmd).unwrap();
    assert_eq!(v.packet, "PUS_17_2");
    assert!(v.exact);
    assert_eq!((v.limit, v.timeout_ms, v.poll_ms), (1, 1, 200));
    let e = verification_failure("PUS_17_2", &cmd);
    assert!(matches!(e, AutomationError::VerificationError(ref m) if m == "expected packet 'PUS_17_2' was not observed within 0 ms"));
    assert_eq!(e.message(), "verification error: expected packet 'PUS_17_2' was not observed within 0 ms");
}

#[test]
fn dry_run_wanted_by_step_or_plan() {
    let mut cfg = plan(vec![CommandDefinition::new("HPC_SEND")], None);
    cfg.dry_run_all_first = true;
    let engine = AutomationEngine::new(cfg).unwrap();
    assert!(engine.dry_run_wanted(&CommandDefinition::new("X")));
    let engine = AutomationEngine::new(plan(vec![CommandDefinition::new("HPC_SEND")], None)).unwrap();
    assert!(!engine.dry_run_wanted(&CommandDefinition::new("X")));
    assert!(engine.dry_run_wanted(&CommandDefinition::new("X").with_dry_run_first(true)));
    assert!(engine.client().is_none());
}

#[test]
fn commander_alias_builds_canonical_line() {
    let engine = commander_engine();
    let cmd = CommandDefinition::new("COMMAND_FTP_LIST");
    let line = engine.build_commander_line(&cmd, &obj(vec![("path", s("/hk"))])).unwrap();
    assert_eq!(line, "FTP_LIST /hk");
    assert_eq!(engine.commander_target(), "127.0.0.1:8092");
}

#[test]
fn toml_text_becomes_json_or_fails() {
    let j = toml_text_json("a = 1\nb = \"x\"").unwrap();
    let v: serde_json::Value = serde_json::from_str(&j).unwrap();
    assert_eq!(v["a"], 1);
    assert_eq!(v["b"], "x");
    assert!(matches!(toml_text_json("a = = 1"), Err(AutomationError::TomlError(_))));
}

#[test]
fn stats_record_one_time_per_command() {
    let mut stats = ExecutionStats::default();
    stats.record_success("A".to_string(), 5);
    stats.record_success("B".to_string(), 7);
    stats.record_success("A".to_string(), 9);
    stats.record_failure();
    assert_eq!(stats.successful, 3);
    assert_eq!(stats.failed, 1);
    assert_eq!(stats.command_times, vec![("A".to_string(), 9), ("B".to_string(), 7)]);
}
