use zeptoclaw::config::BrowserConfig;
use zeptoclaw::deps::{DepKind, HealthCheck};
use zeptoclaw::error::ZeptoError;
use zeptoclaw::tools::browser::{
    check_final_url, check_url, exit_result, make_request, read_request, BrowserAction,
    BrowserEvent, BrowserRun, BrowserTool, ProcessReport, Request, Stage, ENGINE_CHROME,
    ENGINE_LIGHTPANDA,
};
use zeptoclaw::tools::web::parse_url;
use zeptoclaw::tools::{ToolCategory, ToolOutput};

fn make_tool(engine: &str) -> BrowserTool {
    BrowserTool::new(&BrowserConfig {
        enabled: true,
        engine: engine.to_string(),
        executable_path: None,
        timeout_secs: 30,
    })
}

fn json(text: &str) -> serde_json::Value {
    serde_json::from_str(text).unwrap()
}

fn message(error: ZeptoError) -> String {
    error.message().to_string()
}

fn blocked() -> ZeptoError {
    ZeptoError::SecurityViolation("blocked".to_string())
}

fn failed(text: &str) -> ZeptoError {
    ZeptoError::Tool(text.to_string())
}

fn start(tool: &mut BrowserTool, args: &str) -> (BrowserRun, BrowserAction) {
    tool.start(&json(args)).unwrap()
}

/// The command, the arguments and the engine of a command to run.
fn command(action: BrowserAction) -> (String, Vec<String>, String) {
    match action {
        BrowserAction::Run { command, args, engine } => (command, args, engine),
        other => panic!("expected a command, got {other:?}"),
    }
}

fn result(action: BrowserAction) -> Result<ToolOutput, ZeptoError> {
    match action {
        BrowserAction::Finish(result) => result,
        other => panic!("expected the end, got {other:?}"),
    }
}

/// Lets the checks of a URL pass.
fn pass_checks(tool: &mut BrowserTool, run: BrowserRun) -> (BrowserRun, BrowserAction) {
    let (run, action) = run.step(tool, BrowserEvent::Target(Ok(())));
    assert!(matches!(action, BrowserAction::ResolveHost(_)));
    run.step(tool, BrowserEvent::Resolved(Ok(())))
}

/// Whether a URL is refused: before any check, or because the check of targets,
/// which is the caller's, refuses it. The refusal is handed in here; what this
/// shows is that the check is asked for first and that its refusal ends the run.
fn refused(url: &str) -> bool {
    let mut tool = make_tool(ENGINE_LIGHTPANDA);
    let args = format!("{{\"command\": \"open\", \"args\": \"{url}\"}}");
    match tool.start(&json(&args)) {
        Err(_) => true,
        Ok((run, action)) => {
            assert!(matches!(action, BrowserAction::CheckTarget(_)));
            let (_, action) = run.step(&mut tool, BrowserEvent::Target(Err(blocked())));
            result(action).is_err()
        }
    }
}

#[test]
fn test_check_url_blocks_localhost() {
    assert!(refused("http://localhost"));
    assert!(refused("http://localhost:8080"));
    assert!(refused("http://127.0.0.1"));
}

#[test]
fn test_check_url_blocks_private_networks() {
    assert!(refused("http://192.168.1.1"));
    assert!(refused("http://10.0.0.1"));
    assert!(refused("http://172.16.0.1"));
}

#[test]
fn test_check_url_allows_public() {
    assert!(check_url("https://example.com", parse_url("https://example.com")).is_ok());
    assert!(check_url("https://google.com", parse_url("https://google.com")).is_ok());
}

#[test]
fn test_check_url_rejects_non_http() {
    assert!(refused("ftp://example.com"));
    assert!(refused("file:///etc/passwd"));
}

#[test]
fn test_check_url_rejects_invalid() {
    let error = check_url("not a url", parse_url("not a url")).unwrap_err();
    assert_eq!(message(error), "Invalid URL 'not a url': relative URL without a base");
    let error = check_url("x", Err("no".to_string())).unwrap_err();
    assert_eq!(message(error), "Invalid URL 'x': no");
}

#[test]
fn test_default_engine_is_preserved() {
    let tool = make_tool(ENGINE_LIGHTPANDA);
    assert_eq!(tool.default_engine, ENGINE_LIGHTPANDA);
}

#[test]
fn test_engine_override_sets_active_engine() {
    let mut tool = make_tool(ENGINE_LIGHTPANDA);
    assert_eq!(tool.get_active_engine(), ENGINE_LIGHTPANDA);

    tool.set_active_engine(ENGINE_CHROME);
    assert_eq!(tool.get_active_engine(), ENGINE_CHROME);
}

#[test]
fn test_close_resets_active_engine() {
    let mut tool = make_tool(ENGINE_LIGHTPANDA);

    tool.set_active_engine(ENGINE_CHROME);
    assert_eq!(tool.get_active_engine(), ENGINE_CHROME);

    let (run, action) = start(&mut tool, r#"{"command": "close"}"#);
    assert_eq!(command(action), ("close".to_string(), vec![], ENGINE_CHROME.to_string()));
    let (_, action) = run.step(&mut tool, BrowserEvent::Ran(Ok("closed".to_string())));
    assert_eq!(tool.get_active_engine(), ENGINE_LIGHTPANDA);
    let output = result(action).unwrap();
    assert_eq!(output.for_llm, "closed");
    assert_eq!(output.for_user, None);

    let default_engine = tool.default_engine.clone();
    tool.set_active_engine(&default_engine);
    assert_eq!(tool.get_active_engine(), ENGINE_LIGHTPANDA);
}

#[test]
fn a_close_that_fails_leaves_the_engine() {
    let mut tool = make_tool(ENGINE_LIGHTPANDA);
    tool.set_active_engine(ENGINE_CHROME);
    let (run, _) = start(&mut tool, r#"{"command": "close", "engine": "lightpanda"}"#);
    let (_, action) = run.step(&mut tool, BrowserEvent::Ran(Err(failed("no"))));
    assert_eq!(tool.get_active_engine(), ENGINE_CHROME);
    assert_eq!(message(result(action).unwrap_err()), "no");
}

#[test]
fn test_summarize_open() {
    let summary = BrowserTool::summarize_for_user("open", "https://example.com");
    assert_eq!(summary, Some("Browsing https://example.com".to_string()));
    let summary = BrowserTool::summarize_for_user("open", "  https://example.com  now");
    assert_eq!(summary, Some("Browsing https://example.com".to_string()));
    assert_eq!(BrowserTool::summarize_for_user("open", "  "), Some("Browsing   ".to_string()));
}

#[test]
fn test_summarize_screenshot() {
    let summary = BrowserTool::summarize_for_user("screenshot", "");
    assert_eq!(summary, Some("Screenshot captured".to_string()));
}

#[test]
fn test_summarize_other_commands_are_silent() {
    assert!(BrowserTool::summarize_for_user("click", "@e1").is_none());
    assert!(BrowserTool::summarize_for_user("snapshot", "").is_none());
    assert!(BrowserTool::summarize_for_user("fill", "@e5 hello").is_none());
    assert!(BrowserTool::summarize_for_user("scroll", "down").is_none());
    assert!(BrowserTool::summarize_for_user("close", "").is_none());
}

#[test]
fn test_parameters_include_engine() {
    let tool = make_tool(ENGINE_LIGHTPANDA);
    let params = tool.parameters();
    let engine_prop = &params["properties"]["engine"];
    assert_eq!(engine_prop["type"], "string");
    let enum_values = engine_prop["enum"].as_array().unwrap();
    assert_eq!(enum_values.len(), 2);
    assert!(enum_values.iter().any(|v| v == ENGINE_LIGHTPANDA));
    assert!(enum_values.iter().any(|v| v == ENGINE_CHROME));
}

#[test]
fn parameters_are_this_schema() {
    let expected = json(
        r#"{
            "type": "object",
            "properties": {
                "command": {
                    "type": "string",
                    "description": "The agent-browser command to run (e.g. open, snapshot, click, fill, find, get, scroll, back, screenshot, wait, close)"
                },
                "args": {
                    "type": "string",
                    "description": "Arguments for the command (e.g. a URL for open, a ref like @e1 for click, 'text hello' for find)"
                },
                "engine": {
                    "type": "string",
                    "enum": ["lightpanda", "chrome"],
                    "description": "Browser engine override. Use 'chrome' for full rendering fidelity when requested by the user."
                }
            },
            "required": ["command"]
        }"#,
    );
    assert_eq!(make_tool(ENGINE_CHROME).parameters(), expected);
}

#[test]
fn metadata() {
    let tool = make_tool(ENGINE_CHROME);
    assert_eq!(tool.name(), "browser");
    assert_eq!(tool.compact_description(), "Browse web");
    assert_eq!(tool.category(), ToolCategory::Shell);
    assert!(tool.description().starts_with("Browse the web: fetch page content"));
    assert!(tool.description().ends_with("Falls back to Chrome automatically if lightpanda fails."));
    assert!(!tool.description().contains("  "));
    assert_eq!(tool.executable, "agent-browser");
    let other = BrowserTool::new(&BrowserConfig {
        enabled: true,
        engine: "chrome".to_string(),
        executable_path: Some("/opt/ab".to_string()),
        timeout_secs: 5,
    });
    assert_eq!(other.executable, "/opt/ab");
    assert_eq!(other.timeout_secs, 5);
}

#[test]
fn needs_two_programs() {
    let deps = make_tool(ENGINE_CHROME).dependencies();
    assert_eq!(deps.len(), 2);
    assert_eq!(deps[0].name, "agent-browser");
    assert!(matches!(
        &deps[0].kind,
        DepKind::NpmPackage { package, version, entry_point }
            if package == "agent-browser" && version == "latest" && entry_point == "agent-browser"
    ));
    assert_eq!(deps[1].name, "lightpanda");
    assert!(matches!(
        &deps[1].kind,
        DepKind::Binary { repo, asset_pattern, version }
            if repo == "lightpanda-io/browser"
                && asset_pattern == "lightpanda-{arch}-{os}"
                && version == "nightly"
    ));
    let HealthCheck::Command { command } = &deps[1].health_check;
    assert_eq!(command, "lightpanda --version");
    assert!(deps.iter().all(|d| d.env.is_empty() && d.args.is_empty()));
}

// --- Running the program ---

#[test]
fn invocation_names_the_engine() {
    let tool = make_tool(ENGINE_CHROME);
    let call = tool.invocation("fill", &vec!["@e1".to_string(), "a b".to_string()], "lightpanda");
    assert_eq!(call.program, "agent-browser");
    assert_eq!(call.args, vec!["fill", "@e1", "a b"]);
    assert_eq!(
        call.env,
        vec![
            ("AGENT_BROWSER_ENGINE".to_string(), "lightpanda".to_string()),
            ("LIGHTPANDA_DISABLE_TELEMETRY".to_string(), "true".to_string()),
        ]
    );
}

#[test]
fn process_reports_become_results() {
    let tool = make_tool(ENGINE_CHROME);
    assert_eq!(
        message(tool.command_result("open", ProcessReport::NotFound).unwrap_err()),
        "'agent-browser' not found. Install it with:\n  \
         npm install -g agent-browser   # or: brew install agent-browser\n  \
         agent-browser install           # downloads Chrome\n\
         For LightPanda (optional, faster): see https://agent-browser.dev/engines/lightpanda"
    );
    assert_eq!(
        message(tool.command_result("open", ProcessReport::Failed("x".to_string())).unwrap_err()),
        "Failed to run agent-browser: x"
    );
    assert_eq!(
        message(tool.command_result("get", ProcessReport::TimedOut).unwrap_err()),
        "Browser command 'get' timed out after 30s"
    );
    let exited = |success: bool, stdout: &[u8], stderr: &[u8]| {
        tool.command_result(
            "get",
            ProcessReport::Exited { success, stdout: stdout.to_vec(), stderr: stderr.to_vec() },
        )
    };
    assert_eq!(exited(true, "né\n".as_bytes(), b"warning").unwrap(), "né\n");
    assert_eq!(exited(true, b"a\xffb", b"").unwrap(), "a\u{fffd}b");
    assert_eq!(
        message(exited(false, b"out", b" \n").unwrap_err()),
        "agent-browser get failed: "
    );
    assert_eq!(
        message(exited(false, b" out ", b"").unwrap_err()),
        "agent-browser get failed: out"
    );
    assert_eq!(
        message(exit_result("x", false, "o".to_string(), " e ".to_string()).unwrap_err()),
        "agent-browser x failed: e"
    );
    assert_eq!(exit_result("x", true, " o ".to_string(), "e".to_string()).unwrap(), " o ");
}

// --- Requests ---

#[test]
fn a_command_is_needed() {
    for args in ["{}", r#"{"command": 3}"#, "[]", "null"] {
        let mut tool = make_tool(ENGINE_CHROME);
        let error = tool.start(&json(args)).unwrap_err();
        assert!(matches!(&error, ZeptoError::Tool(m) if m == "Missing 'command' argument"));
    }
    let request = read_request(&json(r#"{"command": "get", "args": "url", "engine": 1}"#)).unwrap();
    assert_eq!(request.command, "get");
    assert_eq!(request.args, "url");
    assert_eq!(request.engine, None);
    let request = make_request(Some("back".to_string()), None, Some("chrome".to_string())).unwrap();
    assert_eq!(request.args, "");
    assert_eq!(request.engine, Some("chrome".to_string()));
}

#[test]
fn opening_needs_a_url() {
    let mut tool = make_tool(ENGINE_CHROME);
    let error = tool.start(&json(r#"{"command": "open"}"#)).unwrap_err();
    assert_eq!(message(error), "'open' command requires a URL argument");
    let error = tool.start(&json(r#"{"command": "open", "args": "  "}"#)).unwrap_err();
    assert_eq!(message(error), "Invalid URL '  ': relative URL without a base");
}

#[test]
fn other_commands_are_checked_where_they_hold_a_url() {
    let mut tool = make_tool(ENGINE_CHROME);
    let (run, action) =
        start(&mut tool, r#"{"command": "tab", "args": "new HTTPS://a https://b.example http://c"}"#);
    match action {
        BrowserAction::CheckTarget(url) => {
            assert_eq!(url.raw, "https://b.example");
            assert_eq!(url.scheme, "https");
            assert_eq!(url.text, "https://b.example/");
        }
        other => panic!("expected a check, got {other:?}"),
    }
    let (run, action) = pass_checks(&mut tool, run);
    match action {
        BrowserAction::CheckTarget(url) => {
            assert_eq!(url.raw, "http://c");
            assert_eq!(url.text, "http://c/");
        }
        other => panic!("expected a check, got {other:?}"),
    }
    let (_, action) = pass_checks(&mut tool, run);
    assert_eq!(
        command(action).1,
        vec!["new", "HTTPS://a", "https://b.example", "http://c"]
    );
    let (_, action) = start(&mut tool, r#"{"command": "click", "args": "@e1"}"#);
    assert_eq!(
        command(action),
        ("click".to_string(), vec!["@e1".to_string()], ENGINE_CHROME.to_string())
    );
}

#[test]
fn a_later_url_that_fails_stops_the_command() {
    let two = r#"{"command": "tab", "args": "new https://a.example http://127.0.0.1"}"#;
    let mut tool = make_tool(ENGINE_CHROME);

    let (run, _) = start(&mut tool, two);
    let (run, action) = pass_checks(&mut tool, run);
    assert!(matches!(action, BrowserAction::CheckTarget(url) if url.raw == "http://127.0.0.1"));
    let (_, action) = run.step(&mut tool, BrowserEvent::Target(Err(blocked())));
    assert!(matches!(result(action), Err(ZeptoError::SecurityViolation(text)) if text == "blocked"));

    let (run, _) = start(&mut tool, two);
    let (run, _) = pass_checks(&mut tool, run);
    let (run, action) = run.step(&mut tool, BrowserEvent::Target(Ok(())));
    assert!(matches!(action, BrowserAction::ResolveHost(url) if url.raw == "http://127.0.0.1"));
    let (_, action) = run.step(&mut tool, BrowserEvent::Resolved(Err(failed("no address"))));
    assert_eq!(message(result(action).unwrap_err()), "no address");

    let (run, _) = start(&mut tool, r#"{"command": "tab", "args": "https://a.example http://"}"#);
    let (run, action) = pass_checks(&mut tool, run);
    assert_eq!(message(result(action).unwrap_err()), "Invalid URL 'http://': empty host");
    assert!(matches!(run.stage, Stage::Finished));
}

#[test]
fn opening_checks_its_first_word_only() {
    let mut tool = make_tool(ENGINE_CHROME);
    let (run, action) =
        start(&mut tool, r#"{"command": "open", "args": "https://a.example http://b.example"}"#);
    assert!(matches!(action, BrowserAction::CheckTarget(url) if url.raw == "https://a.example"));
    let (_, action) = pass_checks(&mut tool, run);
    assert_eq!(command(action).1, vec!["https://a.example", "http://b.example"]);
}

#[test]
fn arguments_are_split_by_command() {
    let cases: Vec<(&str, &str, Vec<&str>)> = vec![
        ("snapshot", "", vec![]),
        ("find", " text   hello\\tyou ", vec!["text", "hello", "you"]),
        ("fill", "@e1  hello  world ", vec!["@e1", "hello  world "]),
        ("type", "@e1", vec!["@e1"]),
        ("type", " @e1 x", vec!["", "@e1 x"]),
        ("keyboard", "type hello world", vec!["type", "hello world"]),
        ("eval", " 1 + 1 ", vec![" 1 + 1 "]),
        ("click", "   ", vec![]),
    ];
    for (name, args, expected) in cases {
        let mut tool = make_tool(ENGINE_CHROME);
        let text = format!("{{\"command\": \"{name}\", \"args\": \"{args}\"}}");
        let (_, action) = start(&mut tool, &text);
        assert_eq!(command(action).1, expected, "{name} {args}");
    }
}

// --- Runs ---

#[test]
fn a_page_that_opens_is_checked_again() {
    let mut tool = make_tool(ENGINE_LIGHTPANDA);
    let (run, _) =
        start(&mut tool, r#"{"command": "open", "args": "https://example.com x"}"#);
    let (run, action) = pass_checks(&mut tool, run);
    assert_eq!(
        command(action),
        (
            "open".to_string(),
            vec!["https://example.com".to_string(), "x".to_string()],
            ENGINE_LIGHTPANDA.to_string()
        )
    );
    let (run, action) = run.step(&mut tool, BrowserEvent::Ran(Ok("page".to_string())));
    assert_eq!(
        command(action),
        ("get".to_string(), vec!["url".to_string()], ENGINE_LIGHTPANDA.to_string())
    );
    let (run, action) =
        run.step(&mut tool, BrowserEvent::Ran(Ok(" https://example.com/end\n".to_string())));
    match action {
        BrowserAction::CheckHost(url) => assert_eq!(url.text, "https://example.com/end"),
        other => panic!("expected a check, got {other:?}"),
    }
    let (run, action) = run.step(&mut tool, BrowserEvent::Host(false));
    assert!(matches!(run.stage, Stage::Finished));
    let output = result(action).unwrap();
    assert_eq!(output.for_llm, "page");
    assert_eq!(output.for_user, Some("Browsing https://example.com".to_string()));
}

#[test]
fn a_page_without_a_url_is_fine() {
    let mut tool = make_tool(ENGINE_CHROME);
    let (run, _) = start(&mut tool, r#"{"command": "open", "args": "https://example.com"}"#);
    let (run, _) = pass_checks(&mut tool, run);
    let (run, _) = run.step(&mut tool, BrowserEvent::Ran(Ok("page".to_string())));
    let (_, action) = run.step(&mut tool, BrowserEvent::Ran(Ok(" \n".to_string())));
    assert_eq!(result(action).unwrap().for_llm, "page");
}

#[test]
fn a_page_astray_is_closed_and_refused() {
    for (url, expected) in [
        ("http://10.0.0.1/x", "Navigation redirected to blocked host: http://10.0.0.1/x"),
        ("about blank", "Navigation resulted in unparseable URL: about blank"),
    ] {
        let mut tool = make_tool(ENGINE_CHROME);
        let (run, _) = start(&mut tool, r#"{"command": "open", "args": "https://example.com"}"#);
        let (run, _) = pass_checks(&mut tool, run);
        let (run, _) = run.step(&mut tool, BrowserEvent::Ran(Ok("page".to_string())));
        let (run, action) = run.step(&mut tool, BrowserEvent::Ran(Ok(url.to_string())));
        let (run, action) = match action {
            BrowserAction::CheckHost(_) => run.step(&mut tool, BrowserEvent::Host(true)),
            action => (run, action),
        };
        assert_eq!(command(action), ("close".to_string(), vec![], ENGINE_CHROME.to_string()));
        let (_, action) = run.step(&mut tool, BrowserEvent::Ran(Err(failed("stuck"))));
        match result(action) {
            Err(ZeptoError::SecurityViolation(m)) => assert_eq!(m, expected),
            other => panic!("expected a refusal, got {other:?}"),
        }
    }
}

#[test]
fn the_final_url_is_judged_by_what_parsing_it_gave() {
    let request = || Request { command: "open".to_string(), args: "u".to_string(), engine: None };
    let (run, action) = check_final_url(
        request(),
        "e".to_string(),
        "o".to_string(),
        "u".to_string(),
        Err("bad".to_string()),
    );
    assert!(matches!(run.stage, Stage::Abort(_)));
    assert_eq!(command(action).2, "e");
    let (run, action) = check_final_url(
        request(),
        "e".to_string(),
        "o".to_string(),
        "http://a/".to_string(),
        parse_url("http://a/"),
    );
    assert!(matches!(run.stage, Stage::FinalHost { .. }));
    assert!(matches!(action, BrowserAction::CheckHost(_)));
    let (_, action) = check_final_url(
        request(),
        "e".to_string(),
        "o".to_string(),
        String::new(),
        Err("bad".to_string()),
    );
    assert_eq!(result(action).unwrap().for_llm, "o");
}

#[test]
fn nothing_runs_after_a_refused_check() {
    let mut tool = make_tool(ENGINE_CHROME);
    let (run, _) = start(&mut tool, r#"{"command": "open", "args": "http://metadata.example"}"#);
    let (run, action) = run.step(&mut tool, BrowserEvent::Target(Ok(())));
    assert!(matches!(action, BrowserAction::ResolveHost(_)));
    let (run, action) = run.step(&mut tool, BrowserEvent::Resolved(Err(blocked())));
    assert!(matches!(run.stage, Stage::Finished));
    assert!(matches!(result(action), Err(ZeptoError::SecurityViolation(_))));
}

#[test]
fn chrome_takes_over_for_navigation() {
    let mut tool = make_tool(ENGINE_LIGHTPANDA);
    let (run, _) = start(&mut tool, r#"{"command": "open", "args": "https://example.com"}"#);
    let (run, _) = pass_checks(&mut tool, run);
    let (run, action) = run.step(&mut tool, BrowserEvent::Ran(Err(failed("crash"))));
    assert_eq!(
        command(action),
        (
            "open".to_string(),
            vec!["https://example.com".to_string()],
            ENGINE_CHROME.to_string()
        )
    );
    assert_eq!(tool.get_active_engine(), ENGINE_LIGHTPANDA);
    let (run, action) = run.step(&mut tool, BrowserEvent::Ran(Ok("page".to_string())));
    assert_eq!(tool.get_active_engine(), ENGINE_CHROME);
    assert_eq!(command(action).2, ENGINE_CHROME);
    let (_, action) = run.step(&mut tool, BrowserEvent::Ran(Ok(String::new())));
    assert_eq!(result(action).unwrap().for_llm, "page");
}

#[test]
fn both_failures_are_told() {
    let mut tool = make_tool(ENGINE_LIGHTPANDA);
    let (run, _) = start(&mut tool, r#"{"command": "open", "args": "https://example.com"}"#);
    let (run, _) = pass_checks(&mut tool, run);
    let (run, _) = run.step(&mut tool, BrowserEvent::Ran(Err(failed("a"))));
    let (_, action) = run.step(&mut tool, BrowserEvent::Ran(Err(failed("b"))));
    assert_eq!(
        message(result(action).unwrap_err()),
        "Both engines failed. Lightpanda: a. Chrome: b"
    );
    assert_eq!(tool.get_active_engine(), ENGINE_LIGHTPANDA);
}

#[test]
fn nothing_else_falls_back() {
    let mut tool = make_tool(ENGINE_LIGHTPANDA);
    let (run, _) = start(&mut tool, r#"{"command": "snapshot"}"#);
    let (_, action) = run.step(&mut tool, BrowserEvent::Ran(Err(failed("a"))));
    assert_eq!(message(result(action).unwrap_err()), "a");

    let mut tool = make_tool(ENGINE_CHROME);
    let (run, _) = start(&mut tool, r#"{"command": "open", "args": "https://example.com"}"#);
    let (run, _) = pass_checks(&mut tool, run);
    let (_, action) = run.step(&mut tool, BrowserEvent::Ran(Err(failed("a"))));
    assert_eq!(message(result(action).unwrap_err()), "a");
}

#[test]
fn an_engine_that_is_asked_for_stays() {
    let mut tool = make_tool(ENGINE_LIGHTPANDA);
    let (run, action) = start(&mut tool, r#"{"command": "snapshot", "engine": "chrome"}"#);
    assert_eq!(command(action).2, ENGINE_CHROME);
    assert_eq!(tool.get_active_engine(), ENGINE_CHROME);
    let (_, action) = run.step(&mut tool, BrowserEvent::Ran(Ok("tree".to_string())));
    let output = result(action).unwrap();
    assert_eq!(output.for_llm, "tree");
    assert_eq!(output.for_user, None);
    let (_, action) = start(&mut tool, r#"{"command": "back"}"#);
    assert_eq!(command(action).2, ENGINE_CHROME);
}

#[test]
fn a_url_that_cannot_be_told_fails() {
    let mut tool = make_tool(ENGINE_CHROME);
    let (run, _) = start(&mut tool, r#"{"command": "open", "args": "https://example.com"}"#);
    let (run, _) = pass_checks(&mut tool, run);
    let (run, _) = run.step(&mut tool, BrowserEvent::Ran(Ok("page".to_string())));
    let (_, action) = run.step(&mut tool, BrowserEvent::Ran(Err(failed("gone"))));
    assert_eq!(message(result(action).unwrap_err()), "gone");
}
