use zeptoclaw::bus::MediaType;
use zeptoclaw::error::ZeptoError;
use zeptoclaw::tools::screenshot::{
    admit_page, clamp_dimension, clamp_timeout, make_options, normal_form,
    normalize_redirect_tracking_url, report_inline, report_saved, target_of_request,
    track_document_redirect, track_normalized, validate_browser_request_target_basic,
    validate_browser_request_url, Failure, PausedRequest, ScreenshotAction, ScreenshotEvent,
    ScreenshotRun, SeenUrls, Stage, WebScreenshotTool, DEFAULT_HEIGHT, DEFAULT_TIMEOUT_SECS,
    DEFAULT_WIDTH, MAX_DIMENSION, MAX_SCREENSHOT_REDIRECT_HOPS, MAX_TIMEOUT_SECS, MIN_DIMENSION,
};
use zeptoclaw::tools::web::{parse_url, web_scheme};
use zeptoclaw::tools::{ToolCategory, ToolOutput};

fn json(text: &str) -> serde_json::Value {
    serde_json::from_str(text).unwrap()
}

fn start(args: &str) -> Result<(ScreenshotRun, ScreenshotAction), ZeptoError> {
    WebScreenshotTool::new().start(&json(args))
}

fn error(result: Result<(ScreenshotRun, ScreenshotAction), ZeptoError>) -> String {
    match result {
        Ok(_) => panic!("expected an error"),
        Err(e) => e.message().to_string(),
    }
}

fn result(action: ScreenshotAction) -> Result<ToolOutput, ZeptoError> {
    match action {
        ScreenshotAction::Finish(result) => result,
        other => panic!("expected the end, got {other:?}"),
    }
}

fn denied() -> ZeptoError {
    ZeptoError::SecurityViolation("denied".to_string())
}

/// A run that is capturing.
fn capturing(args: &str) -> ScreenshotRun {
    let (run, _) = start(args).unwrap();
    let (run, _) = run.step(ScreenshotEvent::Host(false));
    let (run, _) = run.step(ScreenshotEvent::Resolved(Ok(())));
    let (run, _) = run.step(ScreenshotEvent::Launched(Some("main".to_string())));
    run
}

fn request(url: &str) -> PausedRequest {
    PausedRequest {
        url: url.to_string(),
        frame: "main".to_string(),
        is_redirect: false,
        is_document: true,
    }
}

fn redirect(url: &str) -> PausedRequest {
    PausedRequest { is_redirect: true, ..request(url) }
}

/// Lets a request through.
fn pass(run: ScreenshotRun, request: PausedRequest) -> ScreenshotRun {
    let (run, action) = run.step(ScreenshotEvent::Paused(request));
    assert!(matches!(action, ScreenshotAction::CheckHost(_)));
    let (run, action) = run.step(ScreenshotEvent::Host(false));
    assert!(matches!(action, ScreenshotAction::ResolveHost(_)));
    let (run, action) = run.step(ScreenshotEvent::Resolved(Ok(())));
    assert!(matches!(action, ScreenshotAction::Continue));
    let (run, action) = run.step(ScreenshotEvent::Continued(Ok(())));
    assert!(matches!(action, ScreenshotAction::Wait));
    run
}

/// What a refused request makes the run end with.
fn refusal(run: ScreenshotRun, action: ScreenshotAction) -> String {
    assert!(matches!(action, ScreenshotAction::Deny));
    let (run, action) = run.step(ScreenshotEvent::Denied);
    assert!(matches!(run.stage, Stage::Finished));
    match result(action) {
        Err(ZeptoError::SecurityViolation(m)) => m,
        other => panic!("expected a refusal, got {other:?}"),
    }
}

// ---- Metadata ----

#[test]
fn test_tool_name() {
    let tool = WebScreenshotTool::new();
    assert_eq!(tool.name(), "web_screenshot");
}

#[test]
fn test_tool_description() {
    let tool = WebScreenshotTool::new();
    assert!(tool.description().contains("screenshot"));
    assert!(!tool.description().is_empty());
}

#[test]
fn test_compact_description() {
    let tool = WebScreenshotTool::new();
    assert_eq!(tool.compact_description(), "Screenshot URL");
    assert!(tool.compact_description().len() < tool.description().len());
}

#[test]
fn test_parameters_schema() {
    let tool = WebScreenshotTool::new();
    let params = tool.parameters();

    assert_eq!(params["type"], "object");
    assert!(params["properties"]["url"].is_object());
    assert!(params["properties"]["output_path"].is_object());
    assert!(params["properties"]["timeout_secs"].is_object());
    assert!(params["properties"]["width"].is_object());
    assert!(params["properties"]["height"].is_object());

    let required = params["required"].as_array().expect("required should be array");
    assert!(required.iter().any(|v| v.as_str() == Some("url")));
}

#[test]
fn test_parameters_url_field_type() {
    let tool = WebScreenshotTool::new();
    let params = tool.parameters();
    assert_eq!(params["properties"]["url"]["type"], "string");
}

#[test]
fn schema_is_this() {
    let expected = json(
        r#"{
            "type": "object",
            "properties": {
                "url": {
                    "type": "string",
                    "description": "The URL to capture a screenshot of (http/https only)"
                },
                "output_path": {
                    "type": "string",
                    "description": "File path to save the screenshot PNG. If omitted, returns base64-encoded data."
                },
                "timeout_secs": {
                    "type": "integer",
                    "description": "Page load timeout in seconds (default: 30, max: 120)",
                    "minimum": 1,
                    "maximum": 120
                },
                "width": {
                    "type": "integer",
                    "description": "Viewport width in pixels (default: 1280)",
                    "minimum": 100,
                    "maximum": 3840
                },
                "height": {
                    "type": "integer",
                    "description": "Viewport height in pixels (default: 720)",
                    "minimum": 100,
                    "maximum": 3840
                }
            },
            "required": ["url"]
        }"#,
    );
    let tool = WebScreenshotTool::default();
    assert_eq!(tool.parameters(), expected);
    assert_eq!(tool.category(), ToolCategory::FilesystemWrite);
}

#[test]
fn test_default_constructor() {
    let tool = WebScreenshotTool;
    assert_eq!(tool.name(), "web_screenshot");
}

// ---- URLs ----

#[test]
fn test_missing_url_parameter() {
    let err = error(start("{}"));
    assert!(
        err.contains("Missing") || err.contains("url"),
        "Expected missing URL error, got: {}",
        err
    );
}

#[test]
fn test_empty_url_parameter() {
    let err = error(start(r#"{"url": ""}"#));
    assert!(
        err.contains("Missing") || err.contains("empty"),
        "Expected empty URL error, got: {}",
        err
    );
}

#[test]
fn test_whitespace_only_url() {
    assert!(start(r#"{"url": "   "}"#).is_err());
}

#[test]
fn test_invalid_url_format() {
    let err = error(start(r#"{"url": "not-a-valid-url"}"#));
    assert!(err.contains("Invalid URL"), "Expected URL parse error, got: {}", err);
    assert_eq!(err, "Invalid URL 'not-a-valid-url': relative URL without a base");
}

#[test]
fn test_non_http_scheme_rejected() {
    let err = error(start(r#"{"url": "ftp://example.com/file.txt"}"#));
    assert!(err.contains("Only http/https"), "Expected scheme error, got: {}", err);
    assert_eq!(err, "Only http/https URLs are allowed, got 'ftp'");
}

#[test]
fn test_file_scheme_rejected() {
    let err = error(start(r#"{"url": "file:///etc/passwd"}"#));
    assert!(err.contains("Only http/https"), "Expected scheme error, got: {}", err);
}

/// What a URL on a blocked host makes the run end with. That the host is blocked
/// is handed in here, since the check of hosts is the caller's; what this shows is
/// that it is asked for first and that its answer ends the run.
fn on_blocked_host(url: &str) -> String {
    let (run, action) = start(&format!("{{\"url\": \"{url}\"}}")).unwrap();
    match action {
        ScreenshotAction::CheckHost(page) => assert_eq!(page.raw, url),
        other => panic!("expected a check, got {other:?}"),
    }
    let (_, action) = run.step(ScreenshotEvent::Host(true));
    match result(action) {
        Err(ZeptoError::SecurityViolation(m)) => m,
        other => panic!("expected a refusal, got {other:?}"),
    }
}

#[test]
fn test_ssrf_localhost_blocked() {
    let err = on_blocked_host("http://localhost:8080/admin");
    assert!(
        err.contains("Blocked") || err.contains("local") || err.contains("private"),
        "Expected SSRF block error, got: {}",
        err
    );
}

#[test]
fn test_ssrf_private_ip_blocked() {
    let err = on_blocked_host("http://192.168.1.1/router");
    assert!(
        err.contains("Blocked") || err.contains("local") || err.contains("private"),
        "Expected SSRF block error, got: {}",
        err
    );
}

#[test]
fn test_ssrf_loopback_blocked() {
    assert_eq!(
        on_blocked_host("http://127.0.0.1:9090/"),
        "Blocked URL host (local or private network)"
    );
}

#[test]
fn test_ssrf_metadata_endpoint_blocked() {
    on_blocked_host("http://169.254.169.254/latest/meta-data/");
}

#[test]
fn test_ssrf_internal_ten_network_blocked() {
    on_blocked_host("http://10.0.0.1/internal");
}

#[test]
fn test_ssrf_dot_local_blocked() {
    on_blocked_host("http://internal.local/data");
}

#[test]
fn an_entry_that_resolves_astray_is_refused() {
    let (run, _) = start(r#"{"url": "http://rebind.example"}"#).unwrap();
    let (run, action) = run.step(ScreenshotEvent::Host(false));
    assert!(matches!(action, ScreenshotAction::ResolveHost(_)));
    let (_, action) = run.step(ScreenshotEvent::Resolved(Err(denied())));
    assert_eq!(result(action).unwrap_err().message(), "denied");
}

#[test]
fn test_validate_browser_request_target_basic_blocks_private_host() {
    let private_target = parse_url("http://127.0.0.1:8080/admin").unwrap();
    let result = validate_browser_request_target_basic(&private_target, true);

    assert!(matches!(result, Err(ZeptoError::SecurityViolation(_))));
    match result {
        Err(ZeptoError::SecurityViolation(msg)) => {
            assert!(msg.contains("blocked (local or private network)"));
            assert!(msg.ends_with(": http://127.0.0.1:8080/admin"));
        }
        other => panic!("expected SecurityViolation, got {other:?}"),
    }
}

#[test]
fn test_validate_browser_request_target_basic_blocks_non_http_scheme() {
    let ftp_target = parse_url("ftp://example.com/file").unwrap();
    let result = validate_browser_request_target_basic(&ftp_target, false);

    assert!(matches!(result, Err(ZeptoError::SecurityViolation(_))));
    match result {
        Err(ZeptoError::SecurityViolation(msg)) => {
            assert!(msg.contains("scheme is blocked"));
        }
        other => panic!("expected SecurityViolation, got {other:?}"),
    }
}

#[test]
fn test_validate_browser_request_url_blocks_private_host() {
    let result = validate_browser_request_url("http://192.168.1.10/admin", true, Ok(()));
    assert!(result.is_err());
}

#[test]
fn browser_requests_are_validated_in_order() {
    assert!(validate_browser_request_url("https://example.com", false, Ok(())).is_ok());
    let message = |r: Result<(), ZeptoError>| r.unwrap_err().message().to_string();
    assert_eq!(
        message(validate_browser_request_url("x y", true, Err(denied()))),
        "Blocked browser request with invalid URL 'x y': relative URL without a base"
    );
    assert_eq!(
        message(validate_browser_request_url("data:text/plain,x", true, Err(denied()))),
        "Redirect/browser request scheme is blocked: data"
    );
    assert_eq!(message(validate_browser_request_url("http://a", false, Err(denied()))), "denied");
    assert_eq!(
        target_of_request("u", Err("why".to_string())).unwrap_err().message(),
        "Blocked browser request with invalid URL 'u': why"
    );
}

#[test]
fn test_track_document_redirect_exceeds_hop_limit() {
    let mut redirect_hops = MAX_SCREENSHOT_REDIRECT_HOPS;
    let mut seen_urls = SeenUrls::new();
    seen_urls.insert("https://example.com/".to_string());

    let result =
        track_document_redirect(&mut redirect_hops, &mut seen_urls, "https://example.com/next");

    assert!(matches!(result, Err(ZeptoError::SecurityViolation(_))));
    match result {
        Err(ZeptoError::SecurityViolation(msg)) => {
            assert!(msg.contains("Exceeded maximum redirect hops"));
            assert_eq!(msg, "Exceeded maximum redirect hops (5)");
        }
        other => panic!("expected SecurityViolation, got {other:?}"),
    }
    assert_eq!(redirect_hops, 6);
}

#[test]
fn test_track_document_redirect_detects_normalized_loop() {
    let mut redirect_hops = 0;
    let mut seen_urls = SeenUrls::new();
    seen_urls.insert("https://example.com/".to_string());

    let result =
        track_document_redirect(&mut redirect_hops, &mut seen_urls, "HTTPS://EXAMPLE.COM");

    assert!(matches!(result, Err(ZeptoError::SecurityViolation(_))));
    match result {
        Err(ZeptoError::SecurityViolation(msg)) => {
            assert!(msg.contains("Detected redirect loop while capturing screenshot"));
            assert!(msg.contains("https://example.com/"));
        }
        other => panic!("expected SecurityViolation, got {other:?}"),
    }
}

#[test]
fn new_redirects_are_remembered() {
    let mut hops = 0;
    let mut seen = SeenUrls::new();
    assert!(track_document_redirect(&mut hops, &mut seen, "http://a").is_ok());
    assert!(track_document_redirect(&mut hops, &mut seen, "not a url").is_ok());
    assert_eq!(hops, 2);
    assert!(!seen.insert("http://a/".to_string()));
    assert!(!seen.insert("not a url".to_string()));
    assert!(seen.insert("http://b/".to_string()));
    assert!(track_normalized(&mut hops, &mut seen, "http://b/".to_string()).is_err());
    assert_eq!(normalize_redirect_tracking_url("HTTP://Example.COM/a/../b"), "http://example.com/b");
    assert_eq!(normalize_redirect_tracking_url("nope"), "nope");
    assert_eq!(normal_form("raw", Err("x".to_string())), "raw");
    assert_eq!(normal_form("raw", parse_url("http://a")), "http://a/");
}

#[test]
fn normalizing_twice_changes_nothing() {
    for raw in [
        "HTTPS://EXAMPLE.COM",
        "http://a.example/x/../y?q=1#f",
        "http://\u{e9}.example/\u{e9} z",
        "http://[::1]:80/",
        "data:text/plain,x y",
        "no url",
        "",
    ] {
        let once = normalize_redirect_tracking_url(raw);
        assert_eq!(normalize_redirect_tracking_url(&once), once);
    }
    let form = parse_url("HTTP://B\u{fc}cher.example/%7E a").unwrap();
    assert_eq!(form.text, "http://xn--bcher-kva.example/%7E%20a");
    let again = parse_url(&form.text).unwrap();
    assert_eq!((again.scheme, again.text), (form.scheme, form.text));
}

#[test]
fn an_overlong_host_is_not_read_back() {
    let mut name = String::new();
    for i in 0..1000 {
        name.push(char::from_u32(0x4e00 + (i * 7919) % 20000).unwrap());
    }
    let once = normalize_redirect_tracking_url(&format!("http://{name}/"));
    assert!(once.len() > 2000);
    assert!(parse_url(&once).is_err());
}

// ---- Options ----

#[test]
fn test_default_constants() {
    assert_eq!(DEFAULT_TIMEOUT_SECS, 30);
    assert_eq!(MAX_TIMEOUT_SECS, 120);
    assert_eq!(DEFAULT_WIDTH, 1280);
    assert_eq!(DEFAULT_HEIGHT, 720);
    assert_eq!(MIN_DIMENSION, 100);
    assert_eq!(MAX_DIMENSION, 3840);
}

#[test]
fn test_parameter_clamping_logic() {
    assert_eq!(clamp_dimension(50), MIN_DIMENSION);
    assert_eq!(clamp_dimension(5000), MAX_DIMENSION);
    assert_eq!(clamp_dimension(1920), 1920);
    // Only the low 32 bits count.
    assert_eq!(clamp_dimension(0x1_0000_0000 + 640), 640);
    assert_eq!(clamp_dimension(0x1_0000_0000), MIN_DIMENSION);
    assert_eq!(clamp_dimension(u64::MAX), MAX_DIMENSION);
}

#[test]
fn test_timeout_clamping_logic() {
    assert_eq!(clamp_timeout(0), 1);
    assert_eq!(clamp_timeout(200), MAX_TIMEOUT_SECS);
    assert_eq!(clamp_timeout(60), 60);
}

#[test]
fn options_are_read_from_the_arguments() {
    let (run, _) = start(
        r#"{"url": " https://example.com ", "output_path": " a.png ", "timeout_secs": 0,
            "width": 640, "height": 99999}"#,
    )
    .unwrap();
    assert_eq!(run.page.raw, "https://example.com");
    assert_eq!(run.page.text, "https://example.com/");
    assert_eq!(run.options.output_path, Some("a.png".to_string()));
    assert_eq!(run.options.timeout_secs, 1);
    assert_eq!(run.options.width, 640);
    assert_eq!(run.options.height, 3840);
    let (run, _) = start(
        r#"{"url": "https://example.com", "output_path": "  ", "timeout_secs": "9",
            "width": -5, "height": 1.5}"#,
    )
    .unwrap();
    assert_eq!(run.options.output_path, None);
    assert_eq!(run.options.timeout_secs, 30);
    assert_eq!(run.options.width, 1280);
    assert_eq!(run.options.height, 720);
    let options = make_options(None, Some(500), None, Some(1));
    assert_eq!((options.timeout_secs, options.width, options.height), (120, 1280, 100));
}

#[test]
fn pages_are_admitted_by_what_parsing_gave() {
    assert_eq!(
        admit_page("u", Err("why".to_string())).unwrap_err().message(),
        "Invalid URL 'u': why"
    );
    assert!(admit_page("u", parse_url("HTTP://A")).is_ok());
    assert!(web_scheme("https"));
    assert!(!web_scheme("httpx"));
}

// ---- Runs ----

#[test]
fn a_picture_is_returned() {
    let (run, _) = start(r#"{"url": "https://example.com", "width": 800}"#).unwrap();
    let (run, action) = run.step(ScreenshotEvent::Host(false));
    assert!(matches!(action, ScreenshotAction::ResolveHost(_)));
    let (run, action) = run.step(ScreenshotEvent::Resolved(Ok(())));
    assert!(matches!(action, ScreenshotAction::Launch { width: 800, height: 720 }));
    let (run, action) = run.step(ScreenshotEvent::Launched(None));
    match action {
        ScreenshotAction::Capture { url, full_page, timeout_secs } => {
            assert_eq!(url, "https://example.com");
            assert!(full_page);
            assert_eq!(timeout_secs, 30);
        }
        other => panic!("expected a capture, got {other:?}"),
    }
    let run = pass(run, request("https://example.com/"));
    let (_, action) = run.step(ScreenshotEvent::Captured(vec![1, 2, 3, 255]));
    let output = result(action).unwrap();
    assert_eq!(
        output.for_llm,
        "{\"data\":\"AQID/w==\",\"encoding\":\"base64\",\"format\":\"png\",\"height\":720,\
         \"size_bytes\":4,\"url\":\"https://example.com\",\"width\":800}"
    );
    assert_eq!(output.for_user, None);
    let media = output.media.unwrap();
    assert_eq!(media.media_type, MediaType::Image);
    assert_eq!(media.data, Some(vec![1, 2, 3, 255]));
    assert_eq!(media.filename, Some("screenshot.png".to_string()));
    assert_eq!(media.mime_type, Some("image/png".to_string()));
}

#[test]
fn a_picture_is_saved() {
    let args = r#"{"url": "https://example.com/?q=\"", "output_path": "C:\\shots\\a.png"}"#;
    let (run, action) = capturing(args).step(ScreenshotEvent::Captured(vec![9; 10]));
    match action {
        ScreenshotAction::Save { path, data } => {
            assert_eq!(path, "C:\\shots\\a.png");
            assert_eq!(data, vec![9; 10]);
        }
        other => panic!("expected a path, got {other:?}"),
    }
    let (_, action) = run.step(ScreenshotEvent::Saved(Ok(())));
    let output = result(action).unwrap();
    assert_eq!(
        output.for_llm,
        "{\"height\":720,\"output_path\":\"C:\\\\shots\\\\a.png\",\"size_bytes\":10,\
         \"url\":\"https://example.com/?q=\\\"\",\"width\":1280}"
    );
    assert!(output.media.is_none());

    let (run, _) = capturing(args).step(ScreenshotEvent::Captured(vec![]));
    let (_, action) = run.step(ScreenshotEvent::Saved(Err("full".to_string())));
    assert_eq!(
        result(action).unwrap_err().message(),
        "Failed to write screenshot to 'C:\\shots\\a.png': full"
    );
}

#[test]
fn failures_are_told() {
    let args = r#"{"url": "https://example.com", "timeout_secs": 7}"#;
    for (failure, expected) in [
        (Failure::Configure, "Failed to configure browser: x"),
        (Failure::Launch, "Failed to launch browser: x"),
        (Failure::OpenPage, "Failed to open page: x"),
        (Failure::MainFrame, "Failed to resolve main frame: x"),
        (
            Failure::Subscribe,
            "Failed to subscribe to browser request interception events: x",
        ),
        (Failure::Intercept, "Failed to enable request interception: x"),
    ] {
        let (run, _) = start(args).unwrap();
        let (run, _) = run.step(ScreenshotEvent::Host(false));
        let (run, _) = run.step(ScreenshotEvent::Resolved(Ok(())));
        let (_, action) = run.step(ScreenshotEvent::Failed(failure, "x".to_string()));
        assert_eq!(result(action).unwrap_err().message(), expected);
    }
    let (_, action) =
        capturing(args).step(ScreenshotEvent::Failed(Failure::Capture, "x".to_string()));
    assert_eq!(result(action).unwrap_err().message(), "Failed to capture screenshot: x");
    let (_, action) = capturing(args).step(ScreenshotEvent::StreamEnded);
    assert_eq!(
        result(action).unwrap_err().message(),
        "Browser request interception stream ended unexpectedly"
    );
    let (_, action) = capturing(args).step(ScreenshotEvent::TimedOut);
    assert_eq!(
        result(action).unwrap_err().message(),
        "Screenshot timed out after 7s for 'https://example.com'"
    );
}

#[test]
fn requests_are_let_through_one_by_one() {
    let run = capturing(r#"{"url": "https://example.com"}"#);
    let run = pass(run, request("https://example.com/"));
    let run = pass(run, request("https://cdn.example.com/a.js"));
    assert_eq!(run.hops, 0);
    let (run, _) = run.step(ScreenshotEvent::Paused(request("http://b.example")));
    let (run, _) = run.step(ScreenshotEvent::Host(false));
    let (run, _) = run.step(ScreenshotEvent::Resolved(Ok(())));
    let (_, action) = run.step(ScreenshotEvent::Continued(Err("gone".to_string())));
    assert_eq!(
        result(action).unwrap_err().message(),
        "Failed to continue intercepted browser request 'http://b.example': gone"
    );
}

#[test]
fn bad_requests_are_refused() {
    let run = || capturing(r#"{"url": "https://example.com"}"#);
    let (r, a) = run().step(ScreenshotEvent::Paused(request("no url")));
    assert_eq!(
        refusal(r, a),
        "Blocked browser request with invalid URL 'no url': relative URL without a base"
    );
    let (r, a) = run().step(ScreenshotEvent::Paused(request("ws://example.com")));
    assert_eq!(refusal(r, a), "Redirect/browser request scheme is blocked: ws");
    let (r, _) = run().step(ScreenshotEvent::Paused(request("http://10.0.0.1/x")));
    let (r, a) = r.step(ScreenshotEvent::Host(true));
    assert_eq!(
        refusal(r, a),
        "Redirect/browser request destination is blocked (local or private network): http://10.0.0.1/x"
    );
    let (r, _) = run().step(ScreenshotEvent::Paused(request("http://rebind.example")));
    let (r, _) = r.step(ScreenshotEvent::Host(false));
    let (r, a) = r.step(ScreenshotEvent::Resolved(Err(denied())));
    assert_eq!(refusal(r, a), "denied");
    // The time may be over while a request is refused.
    let (r, _) = run().step(ScreenshotEvent::Paused(request("no url")));
    let (_, a) = r.step(ScreenshotEvent::TimedOut);
    assert_eq!(
        result(a).unwrap_err().message(),
        "Screenshot timed out after 30s for 'https://example.com'"
    );
}

#[test]
fn redirects_of_the_page_are_limited() {
    let mut run = capturing(r#"{"url": "https://example.com"}"#);
    for i in 0..5 {
        run = pass(run, redirect(&format!("https://example.com/{i}")));
        assert_eq!(run.hops, i + 1);
    }
    let (run, action) = run.step(ScreenshotEvent::Paused(redirect("https://example.com/5")));
    assert_eq!(refusal(run, action), "Exceeded maximum redirect hops (5)");
}

#[test]
fn redirects_may_not_lead_back() {
    let run = capturing(r#"{"url": "https://example.com"}"#);
    let run = pass(run, redirect("https://example.com/a"));
    let (run, action) = run.step(ScreenshotEvent::Paused(redirect("HTTPS://example.com:443")));
    assert_eq!(
        refusal(run, action),
        "Detected redirect loop while capturing screenshot: https://example.com/"
    );
}

#[test]
fn redirects_are_counted_over_the_whole_run() {
    let mut run = capturing(r#"{"url": "https://example.com"}"#);
    for name in ["a", "b", "c", "d", "e"] {
        run = pass(run, request("https://cdn.example/x.js"));
        run = pass(run, redirect(&format!("https://example.com/{name}")));
        run = pass(run, request("https://example.com/a"));
    }
    let (run, action) = run.step(ScreenshotEvent::Paused(redirect("https://example.com/f")));
    assert_eq!(refusal(run, action), "Exceeded maximum redirect hops (5)");

    let mut run = capturing(r#"{"url": "https://example.com"}"#);
    run = pass(run, redirect("https://example.com/a"));
    run = pass(run, request("https://example.com/a"));
    run = pass(run, redirect("https://example.com/b"));
    let (run, action) = run.step(ScreenshotEvent::Paused(redirect("https://example.com/x/../a")));
    assert_eq!(
        refusal(run, action),
        "Detected redirect loop while capturing screenshot: https://example.com/a"
    );
}

#[test]
fn other_redirects_do_not_count() {
    let mut run = capturing(r#"{"url": "https://example.com"}"#);
    for _ in 0..10 {
        run = pass(run, PausedRequest { is_document: false, ..redirect("https://example.com/") });
        run = pass(
            run,
            PausedRequest { frame: "other".to_string(), ..redirect("https://example.com/") },
        );
    }
    assert_eq!(run.hops, 0);
    // Where the main frame is not known, every frame counts.
    let (run, _) = start(r#"{"url": "https://example.com"}"#).unwrap();
    let (run, _) = run.step(ScreenshotEvent::Host(false));
    let (run, _) = run.step(ScreenshotEvent::Resolved(Ok(())));
    let (run, _) = run.step(ScreenshotEvent::Launched(None));
    let (run, action) = run.step(ScreenshotEvent::Paused(PausedRequest {
        frame: "other".to_string(),
        ..redirect("https://example.com/")
    }));
    assert_eq!(
        refusal(run, action),
        "Detected redirect loop while capturing screenshot: https://example.com/"
    );
}

#[test]
fn held_back_requests_are_judged_by_what_parsing_gave() {
    let run = capturing(r#"{"url": "https://example.com"}"#);
    let (run, action) = run.on_paused(redirect("raw"), parse_url("http://a.example/b"));
    assert_eq!(run.hops, 1);
    match action {
        ScreenshotAction::CheckHost(url) => assert_eq!(url.text, "http://a.example/b"),
        other => panic!("expected a check, got {other:?}"),
    }
    let run = capturing(r#"{"url": "https://example.com"}"#);
    let (run, action) = run.on_paused(request("raw"), Err("bad".to_string()));
    assert_eq!(refusal(run, action), "Blocked browser request with invalid URL 'raw': bad");
}

#[test]
fn results_are_valid_json() {
    let options = make_options(None, None, Some(300), Some(200));
    let url = "http://a/\u{1}\u{8}\t\n\u{c}\r\"\\/\u{7f}é\u{1f}";
    let path = "p\"";
    let saved = json(&report_saved(url, path, 12, &options).for_llm);
    assert_eq!(saved["url"], url);
    assert_eq!(saved["output_path"], path);
    assert_eq!(saved["size_bytes"], 12);
    assert_eq!(saved["width"], 300);
    assert_eq!(saved["height"], 200);
    assert!(report_saved(url, path, 12, &options)
        .for_llm
        .contains("\"url\":\"http://a/\\u0001\\b\\t\\n\\f\\r\\\"\\\\/\u{7f}é\\u001f\""));
    for (bytes, expected) in [
        ("", ""),
        ("f", "Zg=="),
        ("fo", "Zm8="),
        ("foo", "Zm9v"),
        ("foob", "Zm9vYg=="),
        ("fooba", "Zm9vYmE="),
        ("foobar", "Zm9vYmFy"),
    ] {
        let output = report_inline(url, bytes.as_bytes().to_vec(), &options);
        let inline = json(&output.for_llm);
        assert_eq!(inline["data"], expected);
        assert_eq!(inline["size_bytes"], bytes.len());
        assert_eq!(inline["format"], "png");
        assert_eq!(inline["encoding"], "base64");
    }
}
