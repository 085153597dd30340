use quota_dial::rpc::{route_message, IncomingMessage, MessageRoute, RpcFailure};
use quota_dial::domain::TokenBreakdown;
use quota_dial::importer::{
    add_file_outcome, identity_from, plan_import, scan_report, scan_step, ImportPlan,
    ImportReport, ScanAction, ScanEvent, SourceFileState,
};
use quota_dial::launcher::{
    codex_candidates, launch_failure_message, newest_extensions_first, push_unique,
    unique_candidates, CandidateSources,
};
use quota_dial::parser::{
    fold_log_lines, frame_lines, generated_title, title_text, LogLine, LogPayload, LogRecord,
    ParseContext, TokenUsage, UsageField, PARSER_VERSION,
};
use quota_dial::pricing::PriceCatalog;

fn payload() -> LogPayload {
    LogPayload {
        timestamp: None,
        id: None,
        cwd: None,
        parent_thread_id: None,
        model: None,
        payload_type: None,
        last_usage: UsageField::Absent,
        cumulative_total: None,
    }
}

fn meta_line(offset: u64, id: &str, parent: Option<&str>) -> LogLine {
    let mut p = payload();
    p.id = Some(id.into());
    p.cwd = Some("/work/quota".into());
    p.parent_thread_id = parent.map(|s| s.to_string());
    p.timestamp = Some("2026-07-29T08:00:00Z".into());
    LogLine {
        offset,
        record: Some(LogRecord { kind: Some("session_meta".into()), timestamp: None, payload: p }),
    }
}

fn model_line(offset: u64, model: &str) -> LogLine {
    let mut p = payload();
    p.model = Some(model.into());
    LogLine {
        offset,
        record: Some(LogRecord {
            kind: Some("turn_context".into()),
            timestamp: Some("2026-07-29T08:01:00Z".into()),
            payload: p,
        }),
    }
}

fn usage_line(offset: u64, input: i64, output: i64, cumulative: Option<i64>) -> LogLine {
    let mut p = payload();
    p.payload_type = Some("token_count".into());
    p.last_usage = UsageField::Present(TokenUsage {
        input_tokens: input,
        cached_input_tokens: 0,
        output_tokens: output,
        reasoning_output_tokens: -3,
        total_tokens: input + output,
    });
    p.cumulative_total = cumulative;
    LogLine {
        offset,
        record: Some(LogRecord {
            kind: Some("event_msg".into()),
            timestamp: Some("2026-07-29T08:02:00Z".into()),
            payload: p,
        }),
    }
}

#[test]
fn frames_complete_lines_and_leaves_the_partial_tail() {
    let bytes = b"{\"a\":1}\r\n  \n\xff\xfe\n{\"b\":2}\n{\"c\"".to_vec();
    let framing = frame_lines(&bytes, 100);
    assert_eq!(framing.lines.len(), 3);
    assert_eq!(framing.lines[0].offset, 100);
    assert_eq!(framing.lines[0].text.as_deref(), Some("{\"a\":1}"));
    assert_eq!(framing.lines[1].offset, 112);
    assert_eq!(framing.lines[1].text, None);
    assert_eq!(framing.lines[2].offset, 115);
    assert_eq!(framing.lines[2].text.as_deref(), Some("{\"b\":2}"));
    assert_eq!(framing.next_offset, 123);
}

#[test]
fn reads_usage_with_the_model_in_effect_and_the_parent_session() {
    let lines = vec![
        meta_line(0, "child-1", Some("root-1")),
        model_line(10, "gpt-5.6-codex"),
        usage_line(20, 300, 40, Some(1_200)),
    ];
    let parsed = fold_log_lines(&lines, 30, "child.jsonl", &ParseContext::default());
    let metadata = parsed.metadata.as_ref().unwrap();
    assert_eq!(metadata.parent_session_id.as_deref(), Some("root-1"));
    assert_eq!(metadata.model.as_deref(), Some("gpt-5.6-codex"));
    assert!(metadata.title.starts_with("quota · "));
    assert_eq!(parsed.events.len(), 1);
    assert_eq!(parsed.events[0].tokens.input_tokens, 300);
    assert_eq!(parsed.events[0].tokens.reasoning_output_tokens, 0);
    assert_eq!(parsed.events[0].model.as_deref(), Some("gpt-5.6-codex"));
    assert_eq!(parsed.events[0].session_id, "child-1");
    assert_eq!(parsed.events[0].source_offset, 20);
    assert_eq!(parsed.events[0].fingerprint.len(), 64);
    assert_eq!(parsed.next_offset, 30);
    assert_eq!(parsed.skipped_lines, 0);
    assert_eq!(parsed.current_session_id.as_deref(), Some("child-1"));
}

#[test]
fn skips_unreadable_lines_and_usage_without_a_session() {
    let lines = vec![
        LogLine { offset: 0, record: None },
        usage_line(10, 1, 1, None),
        meta_line(20, "s", None),
        usage_line(30, 5, 5, None),
    ];
    let parsed = fold_log_lines(&lines, 40, "s.jsonl", &ParseContext::default());
    assert_eq!(parsed.skipped_lines, 2);
    assert_eq!(parsed.events.len(), 1);
}

#[test]
fn a_resumed_read_uses_the_saved_session_and_model() {
    let context = ParseContext { session_id: Some("s".into()), current_model: Some("gpt-5.5".into()) };
    let parsed = fold_log_lines(&vec![usage_line(50, 7, 1, None)], 60, "s.jsonl", &context);
    assert!(parsed.metadata.is_none());
    assert_eq!(parsed.events[0].session_id, "s");
    assert_eq!(parsed.events[0].model.as_deref(), Some("gpt-5.5"));
}

#[test]
fn the_same_usage_line_always_has_the_same_fingerprint() {
    let lines = vec![meta_line(0, "s", None), usage_line(10, 3, 4, Some(99))];
    let first = fold_log_lines(&lines, 20, "a.jsonl", &ParseContext::default());
    let second = fold_log_lines(&lines, 20, "b.jsonl", &ParseContext::default());
    assert_eq!(first.events[0].fingerprint, second.events[0].fingerprint);
    let other = fold_log_lines(
        &vec![meta_line(0, "s", None), usage_line(10, 3, 4, Some(100))],
        20,
        "a.jsonl",
        &ParseContext::default(),
    );
    assert_ne!(first.events[0].fingerprint, other.events[0].fingerprint);
}

#[test]
fn titles_fall_back_to_the_product_name() {
    assert_eq!(title_text(None, Some("7月29日".into())), "Codex · 7月29日");
    assert_eq!(title_text(Some("".into()), None), "Codex · 未知日期");
    assert_eq!(title_text(Some("repo".into()), Some("1月2日".into())), "repo · 1月2日");
    assert!(generated_title(&Some("/tmp/demo".into()), 1_785_283_200).starts_with("demo · "));
}

fn state(byte_offset: i64, parser_version: i64, identity: Option<&str>) -> SourceFileState {
    SourceFileState {
        path: "/s.jsonl".into(),
        generation: 3,
        file_identity: identity.map(|s| s.to_string()),
        byte_offset,
        observed_size: byte_offset,
        modified_at: 0,
        parser_version,
        session_id: Some("s".into()),
        current_model: Some("gpt-5.5".into()),
        last_error: None,
    }
}

#[test]
fn an_unchanged_file_is_up_to_date() {
    let previous = Some(state(500, PARSER_VERSION, Some("1")));
    assert_eq!(plan_import(&previous, 500, &Some("1".into())), ImportPlan::UpToDate);
}

#[test]
fn an_appended_file_resumes_with_its_context() {
    let previous = Some(state(500, PARSER_VERSION, Some("1")));
    match plan_import(&previous, 800, &Some("1".into())) {
        ImportPlan::Read { offset, generation, context } => {
            assert_eq!(offset, 500);
            assert_eq!(generation, 3);
            assert_eq!(context.session_id.as_deref(), Some("s"));
        }
        ImportPlan::UpToDate => panic!("expected a read"),
    }
}

#[test]
fn a_truncated_or_replaced_file_starts_a_new_generation() {
    let previous = Some(state(500, PARSER_VERSION, Some("1")));
    assert_eq!(
        plan_import(&previous, 100, &Some("1".into())),
        ImportPlan::Read { offset: 0, generation: 4, context: ParseContext::default() }
    );
    assert_eq!(
        plan_import(&previous, 900, &Some("2".into())),
        ImportPlan::Read { offset: 0, generation: 4, context: ParseContext::default() }
    );
}

#[test]
fn a_parser_version_change_replays_from_the_start() {
    let previous = Some(state(500, PARSER_VERSION - 1, None));
    assert_eq!(
        plan_import(&previous, 500, &None),
        ImportPlan::Read { offset: 0, generation: 3, context: ParseContext::default() }
    );
    assert_eq!(
        plan_import(&None, 10, &None),
        ImportPlan::Read { offset: 0, generation: 0, context: ParseContext::default() }
    );
}

#[test]
fn scan_reports_add_up_and_keep_the_last_error() {
    let mut report = scan_report(3);
    add_file_outcome(
        &mut report,
        Ok(ImportReport { scanned_files: 1, imported_events: 4, skipped_lines: 1, last_error: None }),
    );
    add_file_outcome(&mut report, Err("b.jsonl: denied".into()));
    add_file_outcome(
        &mut report,
        Ok(ImportReport { scanned_files: 1, imported_events: 2, skipped_lines: 0, last_error: None }),
    );
    assert_eq!(report.scanned_files, 3);
    assert_eq!(report.imported_events, 6);
    assert_eq!(report.skipped_lines, 1);
    assert_eq!(report.last_error.as_deref(), Some("b.jsonl: denied"));
}

#[test]
fn file_times_and_identities_are_stored_as_text_and_saturated_nanoseconds() {
    assert_eq!(quota_dial::importer::system_time_nanos(None), 0);
    assert_eq!(quota_dial::importer::system_time_nanos(Some(5)), 5);
    assert_eq!(quota_dial::importer::system_time_nanos(Some(u128::MAX)), i64::MAX);
    assert_eq!(identity_from(1_234, Some("/x".into())).as_deref(), Some("1234"));
    assert_eq!(identity_from(0, Some("/x".into())).as_deref(), Some("/x"));
}

#[test]
fn the_session_service_scans_on_timers_and_settles_file_bursts() {
    assert_eq!(scan_step(ScanEvent::Timer), ScanAction::Rescan);
    assert_eq!(scan_step(ScanEvent::FilesChanged), ScanAction::SettleThenRescan);
    assert_eq!(scan_step(ScanEvent::SettingsChanged { closed: true }), ScanAction::Stop);
    assert_eq!(scan_step(ScanEvent::SettingsChanged { closed: false }), ScanAction::Wait);
}

#[test]
fn prices_input_cached_input_and_output_separately() {
    let prices = PriceCatalog::built_in();
    let tokens = TokenBreakdown {
        input_tokens: 1_000_000,
        cached_input_tokens: 500_000,
        output_tokens: 200_000,
        reasoning_output_tokens: 50_000,
    };
    let cost = prices.estimate("gpt-5.6-sol", 1_785_283_200, &tokens).unwrap();
    assert_eq!(cost, 8_750_000_000_000);
}

#[test]
fn prices_gpt_5_5_at_the_standard_short_context_rate() {
    let tokens = TokenBreakdown {
        input_tokens: 1_000_000,
        cached_input_tokens: 500_000,
        output_tokens: 200_000,
        reasoning_output_tokens: 0,
    };
    let cost = PriceCatalog::built_in().estimate("gpt-5.5", 1_785_283_200, &tokens).unwrap();
    assert_eq!(cost, 8_750_000_000_000);
}

#[test]
fn unknown_models_return_no_cost() {
    assert_eq!(
        PriceCatalog::built_in().estimate("future-unknown-model", 1_785_283_200, &TokenBreakdown::default()),
        None
    );
}

#[test]
fn candidate_list_deduplicates_exact_paths() {
    let mut candidates = Vec::new();
    push_unique(&mut candidates, "codex".to_string());
    push_unique(&mut candidates, "codex".to_string());
    assert_eq!(candidates, vec!["codex".to_string()]);
}

#[test]
fn candidates_keep_order_without_empties_or_repeats() {
    let wanted: Vec<String> = vec!["/a/codex".into(), "".into(), "codex".into(), "/a/codex".into(), "codex.exe".into()];
    assert_eq!(unique_candidates(&wanted), vec!["/a/codex".to_string(), "codex".into(), "codex.exe".into()]);
}

#[test]
fn bundled_codex_comes_from_the_newest_extension_first() {
    let names: Vec<String> = vec![
        "openai.chatgpt-26.700.1-win32-x64".into(),
        "unrelated.extension-1.0.0".into(),
        "openai.chatgpt-26.721.9-win32-x64".into(),
    ];
    assert_eq!(
        newest_extensions_first(&names),
        vec!["openai.chatgpt-26.721.9-win32-x64".to_string(), "openai.chatgpt-26.700.1-win32-x64".into()]
    );
}

#[test]
fn launch_failure_names_the_last_error_and_the_override() {
    assert_eq!(
        launch_failure_message(Some("codex: not found".into())),
        "Codex CLI was not found or could not start app-server. Last error: codex: not found. Set QUOTADIAL_CODEX_PATH to a working codex executable."
    );
    assert_eq!(
        launch_failure_message(None),
        "Codex CLI was not found or could not start app-server. Set QUOTADIAL_CODEX_PATH to a working codex executable."
    );
}

#[test]
fn app_server_replies_and_notifications_are_routed() {
    let reply = route_message(IncomingMessage {
        id: Some(7),
        method: None,
        has_error: true,
        error_code: Some(-32600),
        error_message: None,
    });
    assert_eq!(
        reply,
        MessageRoute::Reply {
            id: 7,
            failure: Some(RpcFailure { code: Some(-32600), message: "unknown app-server error".into() }),
        }
    );
    let note = route_message(IncomingMessage {
        id: None,
        method: Some("account/rateLimits/updated".into()),
        has_error: false,
        error_code: None,
        error_message: None,
    });
    assert_eq!(note, MessageRoute::Notify { method: "account/rateLimits/updated".into() });
    let other = route_message(IncomingMessage {
        id: None,
        method: None,
        has_error: false,
        error_code: None,
        error_message: None,
    });
    assert_eq!(other, MessageRoute::Drop);
}

#[test]
fn timestamps_are_read_as_unix_seconds() {
    let lines = vec![meta_line(0, "s", None), usage_line(10, 1, 1, None)];
    let parsed = fold_log_lines(&lines, 20, "s.jsonl", &ParseContext::default());
    let metadata = parsed.metadata.unwrap();
    assert_eq!(metadata.started_at, 1_785_312_000);
    assert_eq!(metadata.last_active_at, 1_785_312_120);
    assert_eq!(parsed.events[0].occurred_at, 1_785_312_120);
}

#[test]
fn a_read_resumed_from_saved_state_matches_one_whole_read() {
    let lines = vec![
        meta_line(0, "s", None),
        model_line(10, "gpt-5.5"),
        usage_line(20, 3, 4, Some(7)),
        LogLine { offset: 30, record: None },
        model_line(40, "gpt-5.4"),
        usage_line(50, 5, 6, Some(18)),
    ];
    let whole = fold_log_lines(&lines, 60, "s.jsonl", &ParseContext::default());
    let first = fold_log_lines(&lines[..3].to_vec(), 30, "s.jsonl", &ParseContext::default());
    let context = ParseContext {
        session_id: first.current_session_id.clone(),
        current_model: first.current_model.clone(),
    };
    let second = fold_log_lines(&lines[3..].to_vec(), 60, "s.jsonl", &context);
    let mut resumed = first.events.clone();
    resumed.extend(second.events.clone());
    assert_eq!(whole.events, resumed);
    assert_eq!(whole.skipped_lines, first.skipped_lines + second.skipped_lines);
    assert_eq!(whole.current_model, second.current_model);
    assert_eq!(whole.current_session_id, second.current_session_id);
}


#[test]
fn a_line_still_being_written_is_left_for_later() {
    let framing = frame_lines(&b"{\"type\":\"event_msg\"".to_vec(), 700);
    assert!(framing.lines.is_empty());
    assert_eq!(framing.next_offset, 700);
}

#[test]
fn parses_last_usage_and_subagent_parent_without_message_text() {
    let lines = vec![
        meta_line(0, "child-1", Some("root-1")),
        model_line(10, "gpt-5.6-codex"),
        usage_line(20, 300, 40, Some(1_200)),
    ];
    let parsed = fold_log_lines(&lines, 30, "child.jsonl", &ParseContext::default());
    assert_eq!(parsed.metadata.as_ref().unwrap().parent_session_id.as_deref(), Some("root-1"));
    assert_eq!(parsed.events.len(), 1);
    assert_eq!(parsed.events[0].tokens.input_tokens, 300);
    assert_eq!(parsed.events[0].model.as_deref(), Some("gpt-5.6-codex"));
    assert!(parsed.events[0].fingerprint.chars().all(|c| c.is_ascii_hexdigit() && !c.is_ascii_uppercase()));
}

#[test]
fn skips_a_bad_line_and_continues_at_the_next_complete_line() {
    let bytes = b"meta\nnot json at all\nusage\n".to_vec();
    let framing = frame_lines(&bytes, 0);
    let lines: Vec<LogLine> = framing
        .lines
        .iter()
        .map(|line| match line.text.as_deref() {
            Some("meta") => meta_line(line.offset, "s", None),
            Some("usage") => usage_line(line.offset, 5, 5, None),
            _ => LogLine { offset: line.offset, record: None },
        })
        .collect();
    let parsed = fold_log_lines(&lines, framing.next_offset, "malformed.jsonl", &ParseContext::default());
    assert_eq!(parsed.skipped_lines, 1);
    assert_eq!(parsed.events.len(), 1);
    assert_eq!(parsed.events[0].source_offset, 21);
}

/// A session log on disk and the store of an importer, kept in memory: the
/// fingerprints stored and the states of the file's generations.
struct Store {
    fingerprints: std::collections::HashSet<String>,
    states: Vec<SourceFileState>,
}

/// The records the test logs' lines stand for.
fn record_of(offset: u64, text: Option<&str>) -> LogLine {
    match text {
        Some("meta") => meta_line(offset, "root", None),
        Some("model") => model_line(offset, "gpt-5.5"),
        Some(t) if t.starts_with("usage ") => {
            let n: Vec<i64> = t[6..].split(' ').map(|part| part.parse().unwrap()).collect();
            usage_line(offset, n[0], n[1], Some(n[2]))
        }
        _ => LogLine { offset, record: None },
    }
}

fn import(store: &mut Store, bytes: &[u8], identity: &str) -> i64 {
    let previous = store.states.last().cloned();
    let size = bytes.len() as i64;
    let identity = Some(identity.to_string());
    match plan_import(&previous, size, &identity) {
        ImportPlan::UpToDate => 0,
        ImportPlan::Read { offset, generation, context } => {
            let framing = frame_lines(&bytes[offset as usize..].to_vec(), offset as u64);
            let lines: Vec<LogLine> =
                framing.lines.iter().map(|line| record_of(line.offset, line.text.as_deref())).collect();
            let parsed = fold_log_lines(&lines, framing.next_offset, "/root.jsonl", &context);
            let inserted =
                parsed.events.iter().filter(|event| store.fingerprints.insert(event.fingerprint.clone())).count();
            let state = quota_dial::importer::state_after_read(
                "/root.jsonl".into(),
                generation,
                identity,
                size,
                0,
                &parsed,
            );
            match store.states.iter().position(|s| s.generation == generation) {
                Some(i) => store.states[i] = state,
                None => store.states.push(state),
            }
            inserted as i64
        }
    }
}

const ROOT_LOG: &[u8] = b"meta\nmodel\nusage 100 20 120\n";

#[test]
fn importing_the_same_file_twice_does_not_duplicate_usage() {
    let mut store = Store { fingerprints: Default::default(), states: vec![] };
    import(&mut store, ROOT_LOG, "1");
    import(&mut store, ROOT_LOG, "1");
    assert_eq!(store.fingerprints.len(), 1);
}

#[test]
fn parser_version_change_replays_a_complete_file() {
    let mut store = Store { fingerprints: Default::default(), states: vec![] };
    import(&mut store, ROOT_LOG, "1");
    store.states[0].parser_version = PARSER_VERSION - 1;
    import(&mut store, ROOT_LOG, "1");
    assert_eq!(store.states.last().unwrap().parser_version, PARSER_VERSION);
    assert_eq!(store.fingerprints.len(), 1);
}

#[test]
fn appending_a_complete_line_imports_only_the_new_event() {
    let mut store = Store { fingerprints: Default::default(), states: vec![] };
    import(&mut store, ROOT_LOG, "1");
    let mut grown = ROOT_LOG.to_vec();
    grown.extend_from_slice(b"usage 200 40 1440\n");
    assert_eq!(import(&mut store, &grown, "1"), 1);
    assert_eq!(store.fingerprints.len(), 2);
}

#[test]
fn truncation_starts_a_new_generation_but_replay_stays_idempotent() {
    let mut store = Store { fingerprints: Default::default(), states: vec![] };
    import(&mut store, ROOT_LOG, "1");
    import(&mut store, b"", "1");
    import(&mut store, ROOT_LOG, "1");
    assert_eq!(store.fingerprints.len(), 1);
    assert_eq!(store.states.len(), 2);
}

#[test]
fn falls_back_to_legacy_rate_limit_bucket() {
    let legacy = quota_dial::domain::RateLimitBucket {
        limit_id: "codex".into(),
        limit_name: None,
        primary: None,
        secondary: None,
        rate_limit_reached_type: None,
        plan_type: None,
    };
    let result = quota_dial::domain::RateLimitsResult {
        rate_limits: Some(legacy),
        by_limit_id: vec![],
        reset_credits: None,
    };
    let buckets = result.buckets();
    assert_eq!(buckets.len(), 1);
    assert_eq!(buckets[0].0, "codex");
    assert_eq!(buckets[0].1.limit_id, "codex");
}

#[test]
fn the_same_bytes_read_from_another_offset_give_the_same_events() {
    let bytes = b"meta\nusage 3 4 99\n".to_vec();
    let read = |start: u64, path: &str| {
        let framing = frame_lines(&bytes, start);
        let lines: Vec<LogLine> =
            framing.lines.iter().map(|line| record_of(line.offset, line.text.as_deref())).collect();
        fold_log_lines(&lines, framing.next_offset, path, &ParseContext::default())
    };
    let first = read(0, "/sessions/a.jsonl");
    let moved = read(4_096, "/archived_sessions/a.jsonl");
    assert_eq!(first.events.len(), moved.events.len());
    assert_eq!(first.events[0].fingerprint, moved.events[0].fingerprint);
    assert_eq!(first.events[0].tokens, moved.events[0].tokens);
    assert_eq!(moved.events[0].source_offset, 4_096 + 5);
    assert_eq!(first.skipped_lines, moved.skipped_lines);
}

#[test]
fn the_last_generation_still_resumes_when_nothing_was_replaced() {
    let mut previous = state(500, PARSER_VERSION, Some("1"));
    previous.generation = i64::MAX;
    match plan_import(&Some(previous), 800, &Some("1".into())) {
        ImportPlan::Read { offset, generation, .. } => {
            assert_eq!(offset, 500);
            assert_eq!(generation, i64::MAX);
        }
        ImportPlan::UpToDate => panic!("expected a read"),
    }
}

fn sources() -> CandidateSources {
    CandidateSources {
        quotadial_path: None,
        monitor_path: None,
        local_app_data: None,
        app_data: None,
        user_profile: None,
        home: None,
        windows: false,
        macos: false,
        extension_executables: Vec::new(),
    }
}

#[test]
fn codex_search_starts_with_the_configured_paths_then_path() {
    let s = CandidateSources {
        quotadial_path: Some("/opt/codex".into()),
        monitor_path: Some("/opt/codex".into()),
        home: Some("/home/u".into()),
        ..sources()
    };
    assert_eq!(codex_candidates(&s), vec!["/opt/codex".to_string(), "codex".to_string()]);
    let empty = CandidateSources { quotadial_path: Some(String::new()), ..sources() };
    assert_eq!(codex_candidates(&empty), vec!["codex".to_string()]);
}

#[test]
fn codex_search_on_macos_tries_the_app_bundle_then_home() {
    let s = CandidateSources {
        monitor_path: Some("/usr/local/bin/codex".into()),
        home: Some("/Users/u".into()),
        macos: true,
        ..sources()
    };
    assert_eq!(
        codex_candidates(&s),
        vec![
            "/usr/local/bin/codex".to_string(),
            "codex".to_string(),
            "/Applications/ChatGPT.app/Contents/Resources/codex".to_string(),
            "/Users/u/.local/bin/codex".to_string(),
        ]
    );
}

#[test]
fn codex_search_on_windows_tries_shims_then_extensions() {
    let s = CandidateSources {
        local_app_data: Some("/l".into()),
        app_data: Some("/a".into()),
        user_profile: Some("/p".into()),
        windows: true,
        extension_executables: vec!["/p/ext2/codex.exe".into(), "codex.exe".into()],
        ..sources()
    };
    assert_eq!(
        codex_candidates(&s),
        vec![
            "codex".to_string(),
            "codex.exe".to_string(),
            "codex.cmd".to_string(),
            "/l/Microsoft/WindowsApps/codex.exe".to_string(),
            "/a/npm/codex.cmd".to_string(),
            "/p/.local/bin/codex.exe".to_string(),
            "/p/ext2/codex.exe".to_string(),
        ]
    );
}

#[test]
fn titles_have_a_date_exactly_within_chronos_range() {
    assert!(!generated_title(&None, -8_334_601_228_800).ends_with("未知日期"));
    assert_eq!(generated_title(&None, -8_334_601_228_801), "Codex · 未知日期");
    assert!(!generated_title(&None, 8_210_266_876_799).ends_with("未知日期"));
    assert_eq!(generated_title(&None, 8_210_266_876_800), "Codex · 未知日期");
    assert_eq!(generated_title(&None, i64::MIN), "Codex · 未知日期");
}
