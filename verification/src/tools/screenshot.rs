//! Web screenshot tool.
//!
//! Captures a web page with a headless browser. Every request that the browser
//! makes is held back until its target has been checked, and redirects of the
//! page are counted and watched for loops.
//!
//! A call of the tool is a [`ScreenshotRun`]. It is told what happened, one
//! [`ScreenshotEvent`] at a time, and answers with the next
//! [`ScreenshotAction`]. It never performs an action itself.

use crate::bus::{MediaAttachment, MediaType, MediaView};
use crate::error::{outcome, ErrorView, ZeptoError};
use crate::tools::schema::{
    arguments, arguments_schema, integer_argument, integer_property, text_argument, text_property,
};
use crate::tools::web::{
    is_web_scheme, parse_url, parse_view, parsed, reads_back, web_scheme, Location, LocationView,
};
use crate::tools::{for_model, result_view, OutputView, ToolCategory, ToolOutput};
use crate::utils::encoding::{base64_text, to_base64};
use crate::utils::json::{
    compact_text, integer_member, member_views, number_member, number_value, object_text,
    object_value, quoted, string_member, text_member, text_value, to_text,
};
use crate::utils::text::{decimal, option_text, same_text, to_decimal, trim, trimmed};
use vstd::hash_set::StringHashSet;
use vstd::pervasive::{arbitrary, unreached};
use vstd::prelude::*;

verus! {

/// Default page-load timeout in seconds.
pub const DEFAULT_TIMEOUT_SECS: u64 = 30;

/// Maximum allowed timeout to prevent unbounded waits.
pub const MAX_TIMEOUT_SECS: u64 = 120;

/// Default viewport width in pixels.
pub const DEFAULT_WIDTH: u32 = 1280;

/// Default viewport height in pixels.
pub const DEFAULT_HEIGHT: u32 = 720;

/// Minimum viewport dimension.
pub const MIN_DIMENSION: u32 = 100;

/// Maximum viewport dimension.
pub const MAX_DIMENSION: u32 = 3840;

/// Maximum allowed redirect hops for the main document navigation.
pub const MAX_SCREENSHOT_REDIRECT_HOPS: usize = 5;

// ---------------------------------------------------------------------------
// The tool
// ---------------------------------------------------------------------------

/// Web screenshot tool that captures full-page screenshots of URLs.
///
/// Pages on local or private networks are refused, for the page itself and for
/// everything that it loads or redirects to.
pub struct WebScreenshotTool;

/// The schema of the arguments.
pub open spec fn parameters_text() -> Seq<char> {
    arguments_schema(
        seq![
            (
                "height"@,
                integer_property(
                    "Viewport height in pixels (default: 720)"@,
                    MIN_DIMENSION as nat,
                    MAX_DIMENSION as nat,
                ),
            ),
            (
                "output_path"@,
                text_property(
                    "File path to save the screenshot PNG. If omitted, returns base64-encoded data."@,
                ),
            ),
            (
                "timeout_secs"@,
                integer_property(
                    "Page load timeout in seconds (default: 30, max: 120)"@,
                    1,
                    MAX_TIMEOUT_SECS as nat,
                ),
            ),
            ("url"@, text_property("The URL to capture a screenshot of (http/https only)"@)),
            (
                "width"@,
                integer_property(
                    "Viewport width in pixels (default: 1280)"@,
                    MIN_DIMENSION as nat,
                    MAX_DIMENSION as nat,
                ),
            ),
        ],
        "url"@,
    )
}

impl WebScreenshotTool {
    /// A screenshot tool.
    pub fn new() -> (r: Self)
        ensures
            r == WebScreenshotTool,
    {
        WebScreenshotTool
    }

    /// The name of the tool.
    pub fn name(&self) -> (r: &'static str)
        ensures
            r@ == "web_screenshot"@,
    {
        "web_screenshot"
    }

    /// What the tool does, for the model.
    pub fn description(&self) -> (r: &'static str)
        ensures
            r@
                == "Take a screenshot of a web page. Returns base64-encoded PNG or saves to a file path."@,
    {
        "Take a screenshot of a web page. Returns base64-encoded PNG or saves to a file path."
    }

    /// What the tool does, in short.
    pub fn compact_description(&self) -> (r: &'static str)
        ensures
            r@ == "Screenshot URL"@,
    {
        "Screenshot URL"
    }

    /// What the tool does to the world. It reads from the network and writes
    /// files; the more restrictive category counts.
    pub fn category(&self) -> (r: ToolCategory)
        ensures
            r == ToolCategory::FilesystemWrite,
    {
        ToolCategory::FilesystemWrite
    }

    /// The JSON schema of the arguments.
    pub fn parameters(&self) -> (r: serde_json::Value)
        ensures
            compact_text(r) == parameters_text(),
    {
        let properties = vec![
            (
                "height".to_owned(),
                integer_argument(
                    "Viewport height in pixels (default: 720)",
                    MIN_DIMENSION as u64,
                    MAX_DIMENSION as u64,
                ),
            ),
            (
                "output_path".to_owned(),
                text_argument(
                    "File path to save the screenshot PNG. If omitted, returns base64-encoded data.",
                ),
            ),
            (
                "timeout_secs".to_owned(),
                integer_argument(
                    "Page load timeout in seconds (default: 30, max: 120)",
                    1,
                    MAX_TIMEOUT_SECS,
                ),
            ),
            (
                "url".to_owned(),
                text_argument("The URL to capture a screenshot of (http/https only)"),
            ),
            (
                "width".to_owned(),
                integer_argument(
                    "Viewport width in pixels (default: 1280)",
                    MIN_DIMENSION as u64,
                    MAX_DIMENSION as u64,
                ),
            ),
        ];
        let ghost dimension = |text: Seq<char>|
            integer_property(text, MIN_DIMENSION as nat, MAX_DIMENSION as nat);
        proof {
            reveal_strlit("height");
            reveal_strlit("output_path");
            reveal_strlit("timeout_secs");
            reveal_strlit("url");
            reveal_strlit("width");
            assert(member_views(properties@) =~= seq![
                ("height"@, dimension("Viewport height in pixels (default: 720)"@)),
                (
                    "output_path"@,
                    text_property(
                        "File path to save the screenshot PNG. If omitted, returns base64-encoded data."@,
                    ),
                ),
                (
                    "timeout_secs"@,
                    integer_property(
                        "Page load timeout in seconds (default: 30, max: 120)"@,
                        1,
                        MAX_TIMEOUT_SECS as nat,
                    ),
                ),
                ("url"@, text_property("The URL to capture a screenshot of (http/https only)"@)),
                ("width"@, dimension("Viewport width in pixels (default: 1280)"@)),
            ]);
        }
        arguments(properties, "url")
    }
}

impl Default for WebScreenshotTool {
    fn default() -> (r: Self)
        ensures
            r == WebScreenshotTool,
    {
        Self::new()
    }
}

// ---------------------------------------------------------------------------
// Requests
// ---------------------------------------------------------------------------

/// A viewport dimension, from what was asked for: the low 32 bits of it, within
/// bounds.
pub open spec fn dimension(asked: u64) -> u32 {
    let low = asked % 0x1_0000_0000;
    if low < MIN_DIMENSION {
        MIN_DIMENSION
    } else if low > MAX_DIMENSION {
        MAX_DIMENSION
    } else {
        low as u32
    }
}

/// A viewport dimension within bounds.
pub fn clamp_dimension(asked: u64) -> (r: u32)
    ensures
        r == dimension(asked),
{
    assert(asked as u32 == asked % 0x1_0000_0000) by (bit_vector);
    let low: u32 = #[verifier::truncate]
    (asked as u32);
    if low < MIN_DIMENSION {
        MIN_DIMENSION
    } else if low > MAX_DIMENSION {
        MAX_DIMENSION
    } else {
        low
    }
}

/// A timeout, from what was asked for.
pub open spec fn timeout(asked: u64) -> u64 {
    if asked < 1 {
        1
    } else if asked > MAX_TIMEOUT_SECS {
        MAX_TIMEOUT_SECS
    } else {
        asked
    }
}

/// A timeout within bounds.
pub fn clamp_timeout(asked: u64) -> (r: u64)
    ensures
        r == timeout(asked),
{
    if asked < 1 {
        1
    } else if asked > MAX_TIMEOUT_SECS {
        MAX_TIMEOUT_SECS
    } else {
        asked
    }
}

/// What the tool is asked for, besides the URL.
#[derive(Debug)]
pub struct ScreenshotOptions {
    /// Where the picture goes; nowhere where it is returned.
    pub output_path: Option<String>,
    /// Page-load timeout in seconds.
    pub timeout_secs: u64,
    /// Viewport width in pixels.
    pub width: u32,
    /// Viewport height in pixels.
    pub height: u32,
}

/// The contents of [`ScreenshotOptions`].
pub struct OptionsView {
    /// See [`ScreenshotOptions::output_path`].
    pub output_path: Option<Seq<char>>,
    /// See [`ScreenshotOptions::timeout_secs`].
    pub timeout_secs: u64,
    /// See [`ScreenshotOptions::width`].
    pub width: u32,
    /// See [`ScreenshotOptions::height`].
    pub height: u32,
}

impl View for ScreenshotOptions {
    type V = OptionsView;

    open spec fn view(&self) -> OptionsView {
        OptionsView {
            output_path: option_text(self.output_path),
            timeout_secs: self.timeout_secs,
            width: self.width,
            height: self.height,
        }
    }
}

/// A text without white space at its ends, where anything is left of it.
pub open spec fn nonempty(text: Option<Seq<char>>) -> Option<Seq<char>> {
    match text {
        Some(text) => if trimmed(text).len() == 0 {
            None
        } else {
            Some(trimmed(text))
        },
        None => None,
    }
}

fn keep_nonempty(text: Option<String>) -> (r: Option<String>)
    ensures
        option_text(r) == nonempty(option_text(text)),
{
    match text {
        Some(text) => {
            let t = trim(text.as_str());
            if t.as_str().is_empty() {
                None
            } else {
                Some(t)
            }
        },
        None => None,
    }
}

/// The options, from what was asked for.
pub open spec fn options(
    output_path: Option<Seq<char>>,
    timeout_secs: Option<u64>,
    width: Option<u64>,
    height: Option<u64>,
) -> OptionsView {
    OptionsView {
        output_path: nonempty(output_path),
        timeout_secs: match timeout_secs {
            Some(asked) => timeout(asked),
            None => DEFAULT_TIMEOUT_SECS,
        },
        width: match width {
            Some(asked) => dimension(asked),
            None => DEFAULT_WIDTH,
        },
        height: match height {
            Some(asked) => dimension(asked),
            None => DEFAULT_HEIGHT,
        },
    }
}

/// The options, from what was asked for.
pub fn make_options(
    output_path: Option<String>,
    timeout_secs: Option<u64>,
    width: Option<u64>,
    height: Option<u64>,
) -> (r: ScreenshotOptions)
    ensures
        r@ == options(option_text(output_path), timeout_secs, width, height),
{
    ScreenshotOptions {
        output_path: keep_nonempty(output_path),
        timeout_secs: match timeout_secs {
            Some(asked) => clamp_timeout(asked),
            None => DEFAULT_TIMEOUT_SECS,
        },
        width: match width {
            Some(asked) => clamp_dimension(asked),
            None => DEFAULT_WIDTH,
        },
        height: match height {
            Some(asked) => clamp_dimension(asked),
            None => DEFAULT_HEIGHT,
        },
    }
}

/// The page of a request, from the URL that was asked for and parsed: it has to
/// be one of the web's.
pub open spec fn admitted(
    raw: Seq<char>,
    parse: Result<LocationView, Seq<char>>,
) -> Result<LocationView, ErrorView> {
    match parse {
        Err(message) => Err(ErrorView::Tool("Invalid URL '"@ + raw + "': "@ + message)),
        Ok(page) => if is_web_scheme(page.scheme) {
            Ok(page)
        } else {
            Err(
                ErrorView::Tool(
                    "Only http/https URLs are allowed, got '"@ + page.scheme + "'"@,
                ),
            )
        },
    }
}

/// The contents of a page, or of the error where there is none.
pub open spec fn page_view(r: Result<Location, ZeptoError>) -> Result<LocationView, ErrorView> {
    match r {
        Ok(page) => Ok(page@),
        Err(e) => Err(e@),
    }
}

/// The page of a request, from the URL that was asked for and parsed.
pub fn admit_page(raw: &str, parse: Result<Location, String>) -> (r: Result<Location, ZeptoError>)
    ensures
        page_view(r) == admitted(raw@, parse_view(parse)),
{
    match parse {
        Err(detail) => {
            let mut message = "Invalid URL '".to_owned();
            message.append(raw);
            message.append("': ");
            message.append(detail.as_str());
            Err(ZeptoError::Tool(message))
        },
        Ok(page) => {
            if web_scheme(page.scheme.as_str()) {
                Ok(page)
            } else {
                let mut message = "Only http/https URLs are allowed, got '".to_owned();
                message.append(page.scheme.as_str());
                message.append("'");
                Err(ZeptoError::Tool(message))
            }
        },
    }
}

/// The page of a request, from the URL that was asked for.
pub open spec fn requested(url: Option<Seq<char>>) -> Result<LocationView, ErrorView> {
    match nonempty(url) {
        None => Err(ErrorView::Tool("Missing or empty 'url' parameter"@)),
        Some(raw) => admitted(raw, parsed(raw)),
    }
}

fn find_page(url: Option<String>) -> (r: Result<Location, ZeptoError>)
    ensures
        page_view(r) == requested(option_text(url)),
{
    match keep_nonempty(url) {
        None => Err(ZeptoError::Tool("Missing or empty 'url' parameter".to_owned())),
        Some(raw) => admit_page(raw.as_str(), parse_url(raw.as_str())),
    }
}

// ---------------------------------------------------------------------------
// Requests of the browser
// ---------------------------------------------------------------------------

/// Whether a request of the browser may go to a target, by its scheme and by
/// whether its host is blocked.
pub open spec fn basic_check(url: LocationView, blocked: bool) -> Result<(), ErrorView> {
    if !is_web_scheme(url.scheme) {
        Err(
            ErrorView::SecurityViolation(
                "Redirect/browser request scheme is blocked: "@ + url.scheme,
            ),
        )
    } else if blocked {
        Err(
            ErrorView::SecurityViolation(
                "Redirect/browser request destination is blocked (local or private network): "@
                    + url.text,
            ),
        )
    } else {
        Ok(())
    }
}

/// Checks the target of a request of the browser, without looking up its host.
pub fn validate_browser_request_target_basic(url: &Location, blocked: bool) -> (r: Result<
    (),
    ZeptoError,
>)
    ensures
        outcome(r) == basic_check(url@, blocked),
{
    if !web_scheme(url.scheme.as_str()) {
        let mut message = "Redirect/browser request scheme is blocked: ".to_owned();
        message.append(url.scheme.as_str());
        return Err(ZeptoError::SecurityViolation(message));
    }
    if blocked {
        let mut message =
            "Redirect/browser request destination is blocked (local or private network): ".to_owned();
        message.append(url.text.as_str());
        return Err(ZeptoError::SecurityViolation(message));
    }
    Ok(())
}

/// The target of a request of the browser, once parsed.
pub open spec fn request_target(
    raw: Seq<char>,
    parse: Result<LocationView, Seq<char>>,
) -> Result<LocationView, ErrorView> {
    match parse {
        Ok(url) => Ok(url),
        Err(message) => Err(
            ErrorView::SecurityViolation(
                "Blocked browser request with invalid URL '"@ + raw + "': "@ + message,
            ),
        ),
    }
}

/// The target of a request of the browser, from its URL and what parsing it gave.
pub fn target_of_request(raw: &str, parse: Result<Location, String>) -> (r: Result<
    Location,
    ZeptoError,
>)
    ensures
        page_view(r) == request_target(raw@, parse_view(parse)),
{
    match parse {
        Ok(url) => Ok(url),
        Err(detail) => {
            let mut message = "Blocked browser request with invalid URL '".to_owned();
            message.append(raw);
            message.append("': ");
            message.append(detail.as_str());
            Err(ZeptoError::SecurityViolation(message))
        },
    }
}

/// Checks the URL of a request of the browser, given whether its host is blocked
/// and what looking up its host gave.
///
/// Hosts are looked up for each request anew, since what they resolve to may
/// change along a chain of redirects.
pub fn validate_browser_request_url(
    raw_url: &str,
    blocked: bool,
    resolved: Result<(), ZeptoError>,
) -> (r: Result<(), ZeptoError>)
    ensures
        outcome(r) == match request_target(raw_url@, parsed(raw_url@)) {
            Err(e) => Err(e),
            Ok(url) => match basic_check(url, blocked) {
                Err(e) => Err(e),
                Ok(_) => outcome(resolved),
            },
        },
{
    match target_of_request(raw_url, parse_url(raw_url)) {
        Err(e) => Err(e),
        Ok(url) => match validate_browser_request_target_basic(&url, blocked) {
            Err(e) => Err(e),
            Ok(()) => resolved,
        },
    }
}

// ---------------------------------------------------------------------------
// Redirects
// ---------------------------------------------------------------------------

/// The URLs that a page was redirected to.
pub struct SeenUrls {
    urls: StringHashSet,
}

impl View for SeenUrls {
    type V = Set<Seq<char>>;

    closed spec fn view(&self) -> Set<Seq<char>> {
        self.urls@
    }
}

impl SeenUrls {
    /// None yet.
    pub fn new() -> (r: SeenUrls)
        ensures
            r@ == Set::<Seq<char>>::empty(),
    {
        SeenUrls { urls: StringHashSet::new() }
    }

    /// Adds a URL; tells whether it is new.
    pub fn insert(&mut self, url: String) -> (r: bool)
        ensures
            final(self)@ == old(self)@.insert(url@),
            r == !old(self)@.contains(url@),
    {
        self.urls.insert(url)
    }
}

/// A URL in the form in which redirects are compared: its normal form, or as it
/// is where it is no URL.
pub open spec fn normalized(raw: Seq<char>, parse: Result<LocationView, Seq<char>>) -> Seq<char> {
    match parse {
        Ok(url) => url.text,
        Err(_) => raw,
    }
}

/// A URL in the form in which redirects are compared, from what parsing it gave.
pub fn normal_form(raw_url: &str, parse: Result<Location, String>) -> (r: String)
    ensures
        r@ == normalized(raw_url@, parse_view(parse)),
{
    match parse {
        Ok(url) => url.text,
        Err(_) => raw_url.to_owned(),
    }
}

/// Normalizes a redirect URL for stable comparisons. Normalizing the result again
/// changes nothing, where it is a web URL that is not overlong, or no URL at all.
pub fn normalize_redirect_tracking_url(raw_url: &str) -> (r: String)
    ensures
        r@ == normalized(raw_url@, parsed(raw_url@)),
        (parsed(raw_url@) matches Ok(url) ==> reads_back(url.scheme, url.text)) ==> normalized(
            r@,
            parsed(r@),
        ) == r@,
{
    normal_form(raw_url, parse_url(raw_url))
}

/// What a redirect to `url` does to the hops and the URLs seen so far, and
/// whether it is allowed: there may be only so many, and none may lead back.
pub open spec fn redirected(hops: nat, seen: Set<Seq<char>>, url: Seq<char>) -> (
    nat,
    Set<Seq<char>>,
    Result<(), ErrorView>,
) {
    if hops >= MAX_SCREENSHOT_REDIRECT_HOPS {
        (
            hops + 1,
            seen,
            Err(
                ErrorView::SecurityViolation(
                    "Exceeded maximum redirect hops ("@ + decimal(
                        MAX_SCREENSHOT_REDIRECT_HOPS as nat,
                    ) + ")"@,
                ),
            ),
        )
    } else if seen.contains(url) {
        (
            hops + 1,
            seen,
            Err(
                ErrorView::SecurityViolation(
                    "Detected redirect loop while capturing screenshot: "@ + url,
                ),
            ),
        )
    } else {
        (hops + 1, seen.insert(url), Ok(()))
    }
}

/// Updates hops and URLs seen for a redirect to a URL that is normalized.
pub fn track_normalized(
    document_redirect_hops: &mut usize,
    seen_document_redirect_urls: &mut SeenUrls,
    redirected_url: String,
) -> (r: Result<(), ZeptoError>)
    requires
        *old(document_redirect_hops) < usize::MAX,
    ensures
        ({
            let (hops, seen, result) = redirected(
                *old(document_redirect_hops) as nat,
                old(seen_document_redirect_urls)@,
                redirected_url@,
            );
            &&& *final(document_redirect_hops) == hops
            &&& final(seen_document_redirect_urls)@ == seen
            &&& outcome(r) == result
        }),
{
    *document_redirect_hops = *document_redirect_hops + 1;
    if *document_redirect_hops > MAX_SCREENSHOT_REDIRECT_HOPS {
        let mut message = "Exceeded maximum redirect hops (".to_owned();
        message.append(to_decimal(MAX_SCREENSHOT_REDIRECT_HOPS as u64).as_str());
        message.append(")");
        return Err(ZeptoError::SecurityViolation(message));
    }
    let copy = redirected_url.as_str().to_owned();
    if !seen_document_redirect_urls.insert(copy) {
        let mut message = "Detected redirect loop while capturing screenshot: ".to_owned();
        message.append(redirected_url.as_str());
        assert(seen_document_redirect_urls@ =~= old(seen_document_redirect_urls)@);
        return Err(ZeptoError::SecurityViolation(message));
    }
    Ok(())
}

/// Updates redirect hop and loop-tracking state for a document redirect.
pub fn track_document_redirect(
    document_redirect_hops: &mut usize,
    seen_document_redirect_urls: &mut SeenUrls,
    raw_redirect_url: &str,
) -> (r: Result<(), ZeptoError>)
    requires
        *old(document_redirect_hops) < usize::MAX,
    ensures
        ({
            let (hops, seen, result) = redirected(
                *old(document_redirect_hops) as nat,
                old(seen_document_redirect_urls)@,
                normalized(raw_redirect_url@, parsed(raw_redirect_url@)),
            );
            &&& *final(document_redirect_hops) == hops
            &&& final(seen_document_redirect_urls)@ == seen
            &&& outcome(r) == result
        }),
{
    let url = normalize_redirect_tracking_url(raw_redirect_url);
    track_normalized(document_redirect_hops, seen_document_redirect_urls, url)
}

// ---------------------------------------------------------------------------
// Results
// ---------------------------------------------------------------------------

/// What is told of a picture that was saved.
pub open spec fn saved_text(url: Seq<char>, path: Seq<char>, size: nat, o: OptionsView) -> Seq<
    char,
> {
    object_text(
        seq![
            ("height"@, decimal(o.height as nat)),
            ("output_path"@, quoted(path)),
            ("size_bytes"@, decimal(size)),
            ("url"@, quoted(url)),
            ("width"@, decimal(o.width as nat)),
        ],
    )
}

/// What is told of a picture that is returned.
pub open spec fn inline_text(url: Seq<char>, data: Seq<u8>, o: OptionsView) -> Seq<char> {
    object_text(
        seq![
            ("data"@, quoted(base64_text(data))),
            ("encoding"@, quoted("base64"@)),
            ("format"@, quoted("png"@)),
            ("height"@, decimal(o.height as nat)),
            ("size_bytes"@, decimal(data.len())),
            ("url"@, quoted(url)),
            ("width"@, decimal(o.width as nat)),
        ],
    )
}

/// What is returned with a picture: what is told of it, and the picture.
pub open spec fn inline_output(url: Seq<char>, data: Seq<u8>, o: OptionsView) -> OutputView {
    OutputView {
        for_llm: inline_text(url, data, o),
        for_user: None,
        media: Some(
            MediaView {
                media_type: MediaType::Image,
                data: Some(data),
                filename: Some("screenshot.png"@),
                mime_type: Some("image/png"@),
            },
        ),
    }
}

/// The output for a picture that was saved.
pub fn report_saved(url: &str, path: &str, size: usize, o: &ScreenshotOptions) -> (r: ToolOutput)
    ensures
        r@ == for_model(saved_text(url@, path@, size as nat, o@)),
{
    let members = vec![
        ("height".to_owned(), number_value(o.height as u64)),
        ("output_path".to_owned(), text_value(path)),
        ("size_bytes".to_owned(), number_value(size as u64)),
        ("url".to_owned(), text_value(url)),
        ("width".to_owned(), number_value(o.width as u64)),
    ];
    proof {
        reveal_strlit("height");
        reveal_strlit("output_path");
        reveal_strlit("size_bytes");
        reveal_strlit("url");
        reveal_strlit("width");
        assert(member_views(members@) =~= seq![
            ("height"@, decimal(o.height as nat)),
            ("output_path"@, quoted(path@)),
            ("size_bytes"@, decimal(size as nat)),
            ("url"@, quoted(url@)),
            ("width"@, decimal(o.width as nat)),
        ]);
    }
    ToolOutput::llm_only(to_text(&object_value(members)))
}

/// The output for a picture that is returned.
pub fn report_inline(url: &str, data: Vec<u8>, o: &ScreenshotOptions) -> (r: ToolOutput)
    requires
        data@.len() <= isize::MAX / 4 * 3,
    ensures
        r@ == inline_output(url@, data@, o@),
{
    let encoded = to_base64(data.as_slice());
    let members = vec![
        ("data".to_owned(), text_value(encoded.as_str())),
        ("encoding".to_owned(), text_value("base64")),
        ("format".to_owned(), text_value("png")),
        ("height".to_owned(), number_value(o.height as u64)),
        ("size_bytes".to_owned(), number_value(data.len() as u64)),
        ("url".to_owned(), text_value(url)),
        ("width".to_owned(), number_value(o.width as u64)),
    ];
    proof {
        reveal_strlit("data");
        reveal_strlit("encoding");
        reveal_strlit("format");
        reveal_strlit("height");
        reveal_strlit("size_bytes");
        reveal_strlit("url");
        reveal_strlit("width");
        assert(member_views(members@) =~= seq![
            ("data"@, quoted(base64_text(data@))),
            ("encoding"@, quoted("base64"@)),
            ("format"@, quoted("png"@)),
            ("height"@, decimal(o.height as nat)),
            ("size_bytes"@, decimal(data@.len())),
            ("url"@, quoted(url@)),
            ("width"@, decimal(o.width as nat)),
        ]);
    }
    let media = MediaAttachment::new(MediaType::Image).with_data(data).with_filename(
        "screenshot.png",
    ).with_mime_type("image/png");
    ToolOutput::llm_only(to_text(&object_value(members))).with_media(media)
}

// ---------------------------------------------------------------------------
// Runs
// ---------------------------------------------------------------------------

/// What the browser failed to do.
#[derive(Clone, Copy, Debug, PartialEq, Eq, Structural)]
pub enum Failure {
    /// Take its settings.
    Configure,
    /// Start.
    Launch,
    /// Open a page, or navigate to one.
    OpenPage,
    /// Tell its main frame.
    MainFrame,
    /// Tell of requests that are held back.
    Subscribe,
    /// Hold requests back.
    Intercept,
    /// Take the picture.
    Capture,
}

/// How a failure is told.
pub open spec fn failure_text(failure: Failure) -> Seq<char> {
    match failure {
        Failure::Configure => "Failed to configure browser: "@,
        Failure::Launch => "Failed to launch browser: "@,
        Failure::OpenPage => "Failed to open page: "@,
        Failure::MainFrame => "Failed to resolve main frame: "@,
        Failure::Subscribe => "Failed to subscribe to browser request interception events: "@,
        Failure::Intercept => "Failed to enable request interception: "@,
        Failure::Capture => "Failed to capture screenshot: "@,
    }
}

fn tell_failure(failure: Failure, detail: &str) -> (r: ZeptoError)
    ensures
        r@ == ErrorView::Tool(failure_text(failure) + detail@),
{
    let mut message = match failure {
        Failure::Configure => "Failed to configure browser: ".to_owned(),
        Failure::Launch => "Failed to launch browser: ".to_owned(),
        Failure::OpenPage => "Failed to open page: ".to_owned(),
        Failure::MainFrame => "Failed to resolve main frame: ".to_owned(),
        Failure::Subscribe => {
            "Failed to subscribe to browser request interception events: ".to_owned()
        },
        Failure::Intercept => "Failed to enable request interception: ".to_owned(),
        Failure::Capture => "Failed to capture screenshot: ".to_owned(),
    };
    message.append(detail);
    ZeptoError::Tool(message)
}

/// A request of the browser that is held back.
#[derive(Debug)]
pub struct PausedRequest {
    /// Its URL.
    pub url: String,
    /// The frame that makes it.
    pub frame: String,
    /// Whether it follows a redirect.
    pub is_redirect: bool,
    /// Whether it is for a document.
    pub is_document: bool,
}

/// The contents of a [`PausedRequest`].
pub struct PausedView {
    /// See [`PausedRequest::url`].
    pub url: Seq<char>,
    /// See [`PausedRequest::frame`].
    pub frame: Seq<char>,
    /// See [`PausedRequest::is_redirect`].
    pub is_redirect: bool,
    /// See [`PausedRequest::is_document`].
    pub is_document: bool,
}

impl View for PausedRequest {
    type V = PausedView;

    open spec fn view(&self) -> PausedView {
        PausedView {
            url: self.url@,
            frame: self.frame@,
            is_redirect: self.is_redirect,
            is_document: self.is_document,
        }
    }
}

/// What a run waits for.
#[derive(Debug)]
pub enum Stage {
    /// Whether the host of the page is blocked.
    EntryHost,
    /// What the host of the page resolves to.
    EntryResolve,
    /// The browser, with a page that holds its requests back.
    Launching,
    /// A request that is held back, or the picture.
    Capturing,
    /// Whether the host of a request is blocked.
    RequestHost(Location),
    /// What the host of a request resolves to.
    RequestResolve(Location),
    /// The end of letting a request go on.
    Continuing(String),
    /// The end of refusing a request.
    Denying(ZeptoError),
    /// The end of saving the picture.
    Saving { size: usize },
    /// Nothing.
    Finished,
}

/// The contents of a [`Stage`].
pub enum StageView {
    /// See [`Stage::EntryHost`].
    EntryHost,
    /// See [`Stage::EntryResolve`].
    EntryResolve,
    /// See [`Stage::Launching`].
    Launching,
    /// See [`Stage::Capturing`].
    Capturing,
    /// See [`Stage::RequestHost`].
    RequestHost(LocationView),
    /// See [`Stage::RequestResolve`].
    RequestResolve(LocationView),
    /// See [`Stage::Continuing`].
    Continuing(Seq<char>),
    /// See [`Stage::Denying`].
    Denying(ErrorView),
    /// See [`Stage::Saving`].
    Saving { size: nat },
    /// See [`Stage::Finished`].
    Finished,
}

impl View for Stage {
    type V = StageView;

    open spec fn view(&self) -> StageView {
        match *self {
            Stage::EntryHost => StageView::EntryHost,
            Stage::EntryResolve => StageView::EntryResolve,
            Stage::Launching => StageView::Launching,
            Stage::Capturing => StageView::Capturing,
            Stage::RequestHost(url) => StageView::RequestHost(url@),
            Stage::RequestResolve(url) => StageView::RequestResolve(url@),
            Stage::Continuing(url) => StageView::Continuing(url@),
            Stage::Denying(e) => StageView::Denying(e@),
            Stage::Saving { size } => StageView::Saving { size: size as nat },
            Stage::Finished => StageView::Finished,
        }
    }
}

/// A call of the tool.
pub struct ScreenshotRun {
    /// The page.
    pub page: Location,
    /// What else was asked for.
    pub options: ScreenshotOptions,
    /// The main frame of the page, where it is known.
    pub main_frame: Option<String>,
    /// How often the page was redirected.
    pub hops: usize,
    /// The page, and the URLs that it was redirected to.
    pub seen: SeenUrls,
    /// What the run waits for.
    pub stage: Stage,
}

/// The contents of a [`ScreenshotRun`].
pub struct RunView {
    /// See [`ScreenshotRun::page`].
    pub page: LocationView,
    /// See [`ScreenshotRun::options`].
    pub options: OptionsView,
    /// See [`ScreenshotRun::main_frame`].
    pub main_frame: Option<Seq<char>>,
    /// See [`ScreenshotRun::hops`].
    pub hops: nat,
    /// See [`ScreenshotRun::seen`].
    pub seen: Set<Seq<char>>,
    /// See [`ScreenshotRun::stage`].
    pub stage: StageView,
}

impl View for ScreenshotRun {
    type V = RunView;

    open spec fn view(&self) -> RunView {
        RunView {
            page: self.page@,
            options: self.options@,
            main_frame: option_text(self.main_frame),
            hops: self.hops as nat,
            seen: self.seen@,
            stage: self.stage@,
        }
    }
}

impl RunView {
    /// Redirects are within the limit and lead to different URLs, unless one was
    /// just refused, and a picture is saved only where there is a path for it.
    pub open spec fn wf(self) -> bool {
        &&& self.stage is Saving ==> self.options.output_path is Some
        &&& match self.stage {
            StageView::Denying(_) => self.hops <= MAX_SCREENSHOT_REDIRECT_HOPS + 1,
            StageView::Finished => self.hops <= MAX_SCREENSHOT_REDIRECT_HOPS + 1,
            _ => {
                &&& self.hops <= MAX_SCREENSHOT_REDIRECT_HOPS
                &&& self.seen.finite()
                &&& self.seen.len() == self.hops + 1
                &&& self.seen.contains(self.page.text)
            },
        }
    }
}

/// What a run asks its caller to do.
#[derive(Debug)]
pub enum ScreenshotAction {
    /// Check whether the host of a target is blocked.
    CheckHost(Location),
    /// Check that the host of a target resolves to allowed addresses only.
    ResolveHost(Location),
    /// Start a browser with such a viewport, and a page that holds its requests
    /// back.
    Launch { width: u32, height: u32 },
    /// Navigate to a URL and take a picture, of the whole page or of what is in
    /// view, and tell of requests that are held back meanwhile, for that many
    /// seconds.
    Capture { url: String, full_page: bool, timeout_secs: u64 },
    /// Let the request that is held back go on.
    Continue,
    /// Refuse the request that is held back.
    Deny,
    /// Go on with the capture.
    Wait,
    /// Save the picture.
    Save { path: String, data: Vec<u8> },
    /// Return.
    Finish(Result<ToolOutput, ZeptoError>),
}

/// The contents of a [`ScreenshotAction`].
pub enum ActionView {
    /// See [`ScreenshotAction::CheckHost`].
    CheckHost(LocationView),
    /// See [`ScreenshotAction::ResolveHost`].
    ResolveHost(LocationView),
    /// See [`ScreenshotAction::Launch`].
    Launch { width: u32, height: u32 },
    /// See [`ScreenshotAction::Capture`].
    Capture { url: Seq<char>, full_page: bool, timeout_secs: u64 },
    /// See [`ScreenshotAction::Continue`].
    Continue,
    /// See [`ScreenshotAction::Deny`].
    Deny,
    /// See [`ScreenshotAction::Wait`].
    Wait,
    /// See [`ScreenshotAction::Save`].
    Save { path: Seq<char>, data: Seq<u8> },
    /// See [`ScreenshotAction::Finish`].
    Finish(Result<OutputView, ErrorView>),
}

impl View for ScreenshotAction {
    type V = ActionView;

    open spec fn view(&self) -> ActionView {
        match *self {
            ScreenshotAction::CheckHost(url) => ActionView::CheckHost(url@),
            ScreenshotAction::ResolveHost(url) => ActionView::ResolveHost(url@),
            ScreenshotAction::Launch { width, height } => ActionView::Launch { width, height },
            ScreenshotAction::Capture { url, full_page, timeout_secs } => {
                ActionView::Capture { url: url@, full_page, timeout_secs }
            },
            ScreenshotAction::Continue => ActionView::Continue,
            ScreenshotAction::Deny => ActionView::Deny,
            ScreenshotAction::Wait => ActionView::Wait,
            ScreenshotAction::Save { path, data } => {
                ActionView::Save { path: path@, data: data@ }
            },
            ScreenshotAction::Finish(r) => ActionView::Finish(result_view(r)),
        }
    }
}

/// What came of an action.
#[derive(Debug)]
pub enum ScreenshotEvent {
    /// Of [`ScreenshotAction::CheckHost`]: whether the host is blocked.
    Host(bool),
    /// Of [`ScreenshotAction::ResolveHost`].
    Resolved(Result<(), ZeptoError>),
    /// Of [`ScreenshotAction::Launch`]: the main frame, where it is known.
    Launched(Option<String>),
    /// The browser failed, and why.
    Failed(Failure, String),
    /// A request is held back.
    Paused(PausedRequest),
    /// No more requests are told of.
    StreamEnded,
    /// The picture was taken.
    Captured(Vec<u8>),
    /// The time for the capture is over.
    TimedOut,
    /// Of [`ScreenshotAction::Continue`].
    Continued(Result<(), String>),
    /// Of [`ScreenshotAction::Deny`].
    Denied,
    /// Of [`ScreenshotAction::Save`].
    Saved(Result<(), String>),
}

/// The contents of a [`ScreenshotEvent`].
pub enum EventView {
    /// See [`ScreenshotEvent::Host`].
    Host(bool),
    /// See [`ScreenshotEvent::Resolved`].
    Resolved(Result<(), ErrorView>),
    /// See [`ScreenshotEvent::Launched`].
    Launched(Option<Seq<char>>),
    /// See [`ScreenshotEvent::Failed`].
    Failed(Failure, Seq<char>),
    /// See [`ScreenshotEvent::Paused`].
    Paused(PausedView),
    /// See [`ScreenshotEvent::StreamEnded`].
    StreamEnded,
    /// See [`ScreenshotEvent::Captured`].
    Captured(Seq<u8>),
    /// See [`ScreenshotEvent::TimedOut`].
    TimedOut,
    /// See [`ScreenshotEvent::Continued`].
    Continued(Result<(), Seq<char>>),
    /// See [`ScreenshotEvent::Denied`].
    Denied,
    /// See [`ScreenshotEvent::Saved`].
    Saved(Result<(), Seq<char>>),
}

/// The contents of a result that carries nothing but the text of its error.
pub open spec fn plain_outcome(r: Result<(), String>) -> Result<(), Seq<char>> {
    match r {
        Ok(_) => Ok(()),
        Err(detail) => Err(detail@),
    }
}

impl View for ScreenshotEvent {
    type V = EventView;

    open spec fn view(&self) -> EventView {
        match *self {
            ScreenshotEvent::Host(blocked) => EventView::Host(blocked),
            ScreenshotEvent::Resolved(r) => EventView::Resolved(outcome(r)),
            ScreenshotEvent::Launched(frame) => EventView::Launched(option_text(frame)),
            ScreenshotEvent::Failed(failure, detail) => EventView::Failed(failure, detail@),
            ScreenshotEvent::Paused(request) => EventView::Paused(request@),
            ScreenshotEvent::StreamEnded => EventView::StreamEnded,
            ScreenshotEvent::Captured(data) => EventView::Captured(data@),
            ScreenshotEvent::TimedOut => EventView::TimedOut,
            ScreenshotEvent::Continued(r) => EventView::Continued(plain_outcome(r)),
            ScreenshotEvent::Denied => EventView::Denied,
            ScreenshotEvent::Saved(r) => EventView::Saved(plain_outcome(r)),
        }
    }
}

/// Whether an event is one that a stage waits for. The time for a capture may be
/// over at any point of it.
pub open spec fn expects(stage: StageView, event: EventView) -> bool {
    match stage {
        StageView::EntryHost => event is Host,
        StageView::EntryResolve => event is Resolved,
        StageView::Launching => event is Launched || event is Failed,
        StageView::Capturing => event is Paused || event is StreamEnded || event is Captured
            || event is Failed || event is TimedOut,
        StageView::RequestHost(_) => event is Host || event is TimedOut,
        StageView::RequestResolve(_) => event is Resolved || event is TimedOut,
        StageView::Continuing(_) => event is Continued || event is TimedOut,
        StageView::Denying(_) => event is Denied || event is TimedOut,
        StageView::Saving { .. } => event is Saved,
        StageView::Finished => false,
    }
}

/// A run after an event, and what it asks for.
pub struct Turn {
    /// The run.
    pub run: RunView,
    /// What it asks for.
    pub action: ActionView,
}

/// The run goes on.
pub open spec fn wait(run: RunView, stage: StageView, action: ActionView) -> Turn {
    Turn { run: RunView { stage, ..run }, action }
}

/// The run ends.
pub open spec fn finish(run: RunView, result: Result<OutputView, ErrorView>) -> Turn {
    wait(run, StageView::Finished, ActionView::Finish(result))
}

/// The request that is held back is refused, and the run fails.
pub open spec fn deny(run: RunView, error: ErrorView) -> Turn {
    wait(run, StageView::Denying(error), ActionView::Deny)
}

/// The time for the capture is over.
pub open spec fn time_out(run: RunView) -> Turn {
    finish(
        run,
        Err(
            ErrorView::Tool(
                "Screenshot timed out after "@ + decimal(run.options.timeout_secs as nat)
                    + "s for '"@ + run.page.raw + "'"@,
            ),
        ),
    )
}

/// How a request starts.
pub open spec fn opening(page: LocationView, options: OptionsView) -> Turn {
    Turn {
        run: RunView {
            page,
            options,
            main_frame: None,
            hops: 0,
            seen: Set::empty().insert(page.text),
            stage: StageView::EntryHost,
        },
        action: ActionView::CheckHost(page),
    }
}

/// Whether a request redirects the page: it follows a redirect, for a document,
/// in the main frame or where that is not known.
pub open spec fn redirects_page(main_frame: Option<Seq<char>>, request: PausedView) -> bool {
    &&& request.is_redirect
    &&& request.is_document
    &&& main_frame matches Some(frame) ==> request.frame == frame
}

/// A request is held back: where it redirects the page it is counted, and it is
/// refused where its URL can be told to be wrong.
pub open spec fn hold_back(
    run: RunView,
    request: PausedView,
    parse: Result<LocationView, Seq<char>>,
) -> Turn {
    let (hops, seen, allowed) = if redirects_page(run.main_frame, request) {
        redirected(run.hops, run.seen, normalized(request.url, parse))
    } else {
        (run.hops, run.seen, Ok(()))
    };
    let run = RunView { hops, seen, ..run };
    match allowed {
        Err(e) => deny(run, e),
        Ok(_) => match request_target(request.url, parse) {
            Err(e) => deny(run, e),
            Ok(url) => match basic_check(url, false) {
                Err(e) => deny(run, e),
                Ok(_) => wait(run, StageView::RequestHost(url), ActionView::CheckHost(url)),
            },
        },
    }
}

/// The picture was taken: it is saved or returned.
pub open spec fn keep(run: RunView, data: Seq<u8>) -> Turn {
    match run.options.output_path {
        Some(path) => wait(
            run,
            StageView::Saving { size: data.len() },
            ActionView::Save { path, data },
        ),
        None => finish(run, Ok(inline_output(run.page.raw, data, run.options))),
    }
}

/// What a run does about an event that it waits for.
pub open spec fn reaction(run: RunView, event: EventView) -> Turn {
    match (run.stage, event) {
        (StageView::EntryHost, EventView::Host(blocked)) => if blocked {
            finish(
                run,
                Err(
                    ErrorView::SecurityViolation(
                        "Blocked URL host (local or private network)"@,
                    ),
                ),
            )
        } else {
            wait(run, StageView::EntryResolve, ActionView::ResolveHost(run.page))
        },
        (StageView::EntryResolve, EventView::Resolved(Err(e))) => finish(run, Err(e)),
        (StageView::EntryResolve, EventView::Resolved(Ok(_))) => wait(
            run,
            StageView::Launching,
            ActionView::Launch { width: run.options.width, height: run.options.height },
        ),
        (StageView::Launching, EventView::Failed(failure, detail)) => finish(
            run,
            Err(ErrorView::Tool(failure_text(failure) + detail)),
        ),
        (StageView::Launching, EventView::Launched(frame)) => wait(
            RunView { main_frame: frame, ..run },
            StageView::Capturing,
            ActionView::Capture {
                url: run.page.raw,
                full_page: true,
                timeout_secs: run.options.timeout_secs,
            },
        ),
        (StageView::Capturing, EventView::Paused(request)) => hold_back(
            run,
            request,
            parsed(request.url),
        ),
        (StageView::Capturing, EventView::StreamEnded) => finish(
            run,
            Err(ErrorView::Tool("Browser request interception stream ended unexpectedly"@)),
        ),
        (StageView::Capturing, EventView::Captured(data)) => keep(run, data),
        (StageView::Capturing, EventView::Failed(failure, detail)) => finish(
            run,
            Err(ErrorView::Tool(failure_text(failure) + detail)),
        ),
        (StageView::RequestHost(url), EventView::Host(blocked)) => match basic_check(
            url,
            blocked,
        ) {
            Err(e) => deny(run, e),
            Ok(_) => wait(run, StageView::RequestResolve(url), ActionView::ResolveHost(url)),
        },
        (StageView::RequestResolve(_), EventView::Resolved(Err(e))) => deny(run, e),
        (StageView::RequestResolve(url), EventView::Resolved(Ok(_))) => wait(
            run,
            StageView::Continuing(url.raw),
            ActionView::Continue,
        ),
        (StageView::Continuing(_), EventView::Continued(Ok(_))) => wait(
            run,
            StageView::Capturing,
            ActionView::Wait,
        ),
        (StageView::Continuing(url), EventView::Continued(Err(detail))) => finish(
            run,
            Err(
                ErrorView::Tool(
                    "Failed to continue intercepted browser request '"@ + url + "': "@ + detail,
                ),
            ),
        ),
        (StageView::Denying(e), EventView::Denied) => finish(run, Err(e)),
        (_, EventView::TimedOut) => time_out(run),
        (StageView::Saving { size }, EventView::Saved(Ok(_))) => finish(
            run,
            Ok(
                for_model(
                    saved_text(run.page.raw, run.options.output_path->0, size, run.options),
                ),
            ),
        ),
        (StageView::Saving { .. }, EventView::Saved(Err(detail))) => finish(
            run,
            Err(
                ErrorView::Tool(
                    "Failed to write screenshot to '"@ + run.options.output_path->0 + "': "@
                        + detail,
                ),
            ),
        ),
        _ => arbitrary(),
    }
}

impl ScreenshotRun {
    fn fail(self, error: ZeptoError) -> (r: (ScreenshotRun, ScreenshotAction))
        ensures
            r.0@ == finish(self@, Err(error@)).run,
            r.1@ == finish(self@, Err(error@)).action,
    {
        (
            ScreenshotRun { stage: Stage::Finished, ..self },
            ScreenshotAction::Finish(Err(error)),
        )
    }

    fn deny(self, error: ZeptoError) -> (r: (ScreenshotRun, ScreenshotAction))
        ensures
            r.0@ == deny(self@, error@).run,
            r.1@ == deny(self@, error@).action,
    {
        (ScreenshotRun { stage: Stage::Denying(error), ..self }, ScreenshotAction::Deny)
    }

    fn time_out(self) -> (r: (ScreenshotRun, ScreenshotAction))
        ensures
            r.0@ == time_out(self@).run,
            r.1@ == time_out(self@).action,
    {
        let mut message = "Screenshot timed out after ".to_owned();
        message.append(to_decimal(self.options.timeout_secs).as_str());
        message.append("s for '");
        message.append(self.page.raw.as_str());
        message.append("'");
        self.fail(ZeptoError::Tool(message))
    }

    /// Goes on after a request was held back, given what parsing its URL gave.
    pub fn on_paused(self, request: PausedRequest, parse: Result<Location, String>) -> (r: (
        ScreenshotRun,
        ScreenshotAction,
    ))
        requires
            self@.hops < usize::MAX,
        ensures
            r.0@ == hold_back(self@, request@, parse_view(parse)).run,
            r.1@ == hold_back(self@, request@, parse_view(parse)).action,
    {
        let in_main_frame = match &self.main_frame {
            Some(frame) => same_text(request.frame.as_str(), frame.as_str()),
            None => true,
        };
        let mut hops: usize = self.hops;
        let mut seen = self.seen;
        let mut refused: Option<ZeptoError> = None;
        if request.is_redirect && request.is_document && in_main_frame {
            let url = match &parse {
                Ok(url) => url.text.as_str().to_owned(),
                Err(_) => request.url.as_str().to_owned(),
            };
            refused = match track_normalized(&mut hops, &mut seen, url) {
                Ok(()) => None,
                Err(e) => Some(e),
            };
        }
        let run = ScreenshotRun {
            page: self.page,
            options: self.options,
            main_frame: self.main_frame,
            hops,
            seen,
            stage: self.stage,
        };
        match refused {
            Some(e) => run.deny(e),
            None => match target_of_request(request.url.as_str(), parse) {
                Err(e) => run.deny(e),
                Ok(url) => match validate_browser_request_target_basic(&url, false) {
                    Err(e) => run.deny(e),
                    Ok(()) => {
                        let action = ScreenshotAction::CheckHost(url.copy());
                        (ScreenshotRun { stage: Stage::RequestHost(url), ..run }, action)
                    },
                },
            },
        }
    }

    fn on_captured(self, data: Vec<u8>) -> (r: (ScreenshotRun, ScreenshotAction))
        requires
            self@.options.output_path is None ==> data@.len() <= isize::MAX / 4 * 3,
        ensures
            r.0@ == keep(self@, data@).run,
            r.1@ == keep(self@, data@).action,
    {
        let path = match &self.options.output_path {
            Some(path) => Some(path.as_str().to_owned()),
            None => None,
        };
        match path {
            Some(path) => {
                let size: usize = data.len();
                (
                    ScreenshotRun { stage: Stage::Saving { size }, ..self },
                    ScreenshotAction::Save { path, data },
                )
            },
            None => {
                let output = report_inline(self.page.raw.as_str(), data, &self.options);
                (
                    ScreenshotRun { stage: Stage::Finished, ..self },
                    ScreenshotAction::Finish(Ok(output)),
                )
            },
        }
    }

    fn on_saved(self, size: usize, result: Result<(), String>) -> (r: (
        ScreenshotRun,
        ScreenshotAction,
    ))
        requires
            self@.stage == (StageView::Saving { size: size as nat }),
            self@.options.output_path is Some,
        ensures
            r.0@ == reaction(self@, EventView::Saved(plain_outcome(result))).run,
            r.1@ == reaction(self@, EventView::Saved(plain_outcome(result))).action,
    {
        let path = match &self.options.output_path {
            Some(path) => path.as_str().to_owned(),
            None => unreached(),
        };
        match result {
            Ok(()) => {
                let output = report_saved(
                    self.page.raw.as_str(),
                    path.as_str(),
                    size,
                    &self.options,
                );
                (
                    ScreenshotRun { stage: Stage::Finished, ..self },
                    ScreenshotAction::Finish(Ok(output)),
                )
            },
            Err(detail) => {
                let mut message = "Failed to write screenshot to '".to_owned();
                message.append(path.as_str());
                message.append("': ");
                message.append(detail.as_str());
                self.fail(ZeptoError::Tool(message))
            },
        }
    }
}

/// Every event keeps a run well-formed.
pub proof fn lemma_wf_stays(run: RunView, event: EventView)
    requires
        run.wf(),
        expects(run.stage, event),
    ensures
        reaction(run, event).run.wf(),
{
}

/// The options that the arguments of a call ask for.
pub open spec fn requested_options(args: serde_json::Value) -> OptionsView {
    options(
        text_member(args, "output_path"@),
        number_member(args, "timeout_secs"@),
        number_member(args, "width"@),
        number_member(args, "height"@),
    )
}

/// The contents of a run that started, or of the error where it did not.
pub open spec fn start_view(
    r: Result<(ScreenshotRun, ScreenshotAction), ZeptoError>,
) -> Result<Turn, ErrorView> {
    match r {
        Ok((run, action)) => Ok(Turn { run: run@, action: action@ }),
        Err(e) => Err(e@),
    }
}

impl ScreenshotRun {
    /// A run for a page.
    pub fn begin(page: Location, options: ScreenshotOptions) -> (r: (
        ScreenshotRun,
        ScreenshotAction,
    ))
        ensures
            r.0@ == opening(page@, options@).run,
            r.1@ == opening(page@, options@).action,
            r.0@.wf(),
    {
        let mut seen = SeenUrls::new();
        seen.insert(page.text.as_str().to_owned());
        let action = ScreenshotAction::CheckHost(page.copy());
        let run = ScreenshotRun {
            page,
            options,
            main_frame: None,
            hops: 0,
            seen,
            stage: Stage::EntryHost,
        };
        (run, action)
    }

    /// Goes on after an event that the run waits for.
    pub fn step(self, event: ScreenshotEvent) -> (r: (ScreenshotRun, ScreenshotAction))
        requires
            self@.wf(),
            expects(self@.stage, event@),
            self@.options.output_path is None ==> (event@ matches EventView::Captured(data)
                ==> data.len() <= isize::MAX / 4 * 3),
        ensures
            r.0@ == reaction(self@, event@).run,
            r.1@ == reaction(self@, event@).action,
            r.0@.wf(),
    {
        proof {
            lemma_wf_stays(self@, event@);
        }
        if let ScreenshotEvent::TimedOut = event {
            return self.time_out();
        }
        match event {
            ScreenshotEvent::Host(blocked) => match &self.stage {
                Stage::EntryHost => {
                    if blocked {
                        return self.fail(
                            ZeptoError::SecurityViolation(
                                "Blocked URL host (local or private network)".to_owned(),
                            ),
                        );
                    }
                    let action = ScreenshotAction::ResolveHost(self.page.copy());
                    (ScreenshotRun { stage: Stage::EntryResolve, ..self }, action)
                },
                Stage::RequestHost(url) => {
                    let target = url.copy();
                    match validate_browser_request_target_basic(&target, blocked) {
                        Err(e) => self.deny(e),
                        Ok(()) => {
                            let action = ScreenshotAction::ResolveHost(target.copy());
                            (
                                ScreenshotRun { stage: Stage::RequestResolve(target), ..self },
                                action,
                            )
                        },
                    }
                },
                _ => unreached(),
            },
            ScreenshotEvent::Resolved(result) => match &self.stage {
                Stage::EntryResolve => match result {
                    Err(e) => self.fail(e),
                    Ok(()) => {
                        let action = ScreenshotAction::Launch {
                            width: self.options.width,
                            height: self.options.height,
                        };
                        (ScreenshotRun { stage: Stage::Launching, ..self }, action)
                    },
                },
                Stage::RequestResolve(url) => {
                    let raw = url.raw.as_str().to_owned();
                    match result {
                        Err(e) => self.deny(e),
                        Ok(()) => (
                            ScreenshotRun { stage: Stage::Continuing(raw), ..self },
                            ScreenshotAction::Continue,
                        ),
                    }
                },
                _ => unreached(),
            },
            ScreenshotEvent::Launched(main_frame) => {
                let action = ScreenshotAction::Capture {
                    url: self.page.raw.as_str().to_owned(),
                    full_page: true,
                    timeout_secs: self.options.timeout_secs,
                };
                (ScreenshotRun { main_frame, stage: Stage::Capturing, ..self }, action)
            },
            ScreenshotEvent::Failed(failure, detail) => self.fail(
                tell_failure(failure, detail.as_str()),
            ),
            ScreenshotEvent::Paused(request) => {
                let parse = parse_url(request.url.as_str());
                self.on_paused(request, parse)
            },
            ScreenshotEvent::StreamEnded => self.fail(
                ZeptoError::Tool(
                    "Browser request interception stream ended unexpectedly".to_owned(),
                ),
            ),
            ScreenshotEvent::Captured(data) => self.on_captured(data),
            ScreenshotEvent::Continued(result) => match &self.stage {
                Stage::Continuing(url) => match result {
                    Ok(()) => (
                        ScreenshotRun { stage: Stage::Capturing, ..self },
                        ScreenshotAction::Wait,
                    ),
                    Err(detail) => {
                        let mut message =
                            "Failed to continue intercepted browser request '".to_owned();
                        message.append(url.as_str());
                        message.append("': ");
                        message.append(detail.as_str());
                        self.fail(ZeptoError::Tool(message))
                    },
                },
                _ => unreached(),
            },
            ScreenshotEvent::Denied => match &self.stage {
                Stage::Denying(e) => {
                    let error = e.copy();
                    self.fail(error)
                },
                _ => unreached(),
            },
            ScreenshotEvent::Saved(result) => match &self.stage {
                Stage::Saving { size } => {
                    let n: usize = *size;
                    self.on_saved(n, result)
                },
                _ => unreached(),
            },
            ScreenshotEvent::TimedOut => unreached(),
        }
    }
}

impl WebScreenshotTool {
    /// Starts a run for a URL with some options.
    pub fn start_request(&self, url: Option<String>, options: ScreenshotOptions) -> (r: Result<
        (ScreenshotRun, ScreenshotAction),
        ZeptoError,
    >)
        ensures
            start_view(r) == match requested(option_text(url)) {
                Ok(page) => Ok(opening(page, options@)),
                Err(e) => Err(e),
            },
            r matches Ok((run, _)) ==> run@.wf(),
    {
        match find_page(url) {
            Ok(page) => Ok(ScreenshotRun::begin(page, options)),
            Err(e) => Err(e),
        }
    }

    /// Starts a run for the arguments of a call.
    pub fn start(&self, args: &serde_json::Value) -> (r: Result<
        (ScreenshotRun, ScreenshotAction),
        ZeptoError,
    >)
        ensures
            start_view(r) == match requested(text_member(*args, "url"@)) {
                Ok(page) => Ok(opening(page, requested_options(*args))),
                Err(e) => Err(e),
            },
            r matches Ok((run, _)) ==> run@.wf(),
    {
        let options = make_options(
            string_member(args, "output_path"),
            integer_member(args, "timeout_secs"),
            integer_member(args, "width"),
            integer_member(args, "height"),
        );
        self.start_request(string_member(args, "url"), options)
    }
}

// ---------------------------------------------------------------------------
// What holds of every run
// ---------------------------------------------------------------------------

/// Every dimension is within the bounds that the schema gives, and so is every
/// timeout, whatever is asked for.
pub proof fn lemma_options_within_bounds(
    output_path: Option<Seq<char>>,
    timeout_secs: Option<u64>,
    width: Option<u64>,
    height: Option<u64>,
)
    ensures
        ({
            let o = options(output_path, timeout_secs, width, height);
            &&& MIN_DIMENSION <= o.width <= MAX_DIMENSION
            &&& MIN_DIMENSION <= o.height <= MAX_DIMENSION
            &&& 1 <= o.timeout_secs <= MAX_TIMEOUT_SECS
        }),
{
}

/// What is asked for within the bounds is what a run goes by.
pub proof fn lemma_options_as_asked(asked: u64)
    ensures
        MIN_DIMENSION <= asked <= MAX_DIMENSION ==> dimension(asked) == asked,
        1 <= asked <= MAX_TIMEOUT_SECS ==> timeout(asked) == asked,
{
}

/// Only pages of the web are captured.
pub proof fn lemma_pages_of_the_web(url: Option<Seq<char>>)
    ensures
        requested(url) matches Ok(page) ==> is_web_scheme(page.scheme) && nonempty(url) == Some(
            page.raw,
        ) && parsed(page.raw) == Ok::<_, Seq<char>>(page),
{
}

/// The run after some events, each of which it waited for.
pub open spec fn played(
    page: LocationView,
    options: OptionsView,
    events: Seq<EventView>,
) -> Option<Turn>
    decreases events.len(),
{
    if events.len() == 0 {
        Some(opening(page, options))
    } else {
        match played(page, options, events.drop_last()) {
            None => None,
            Some(turn) => if expects(turn.run.stage, events.last()) {
                Some(reaction(turn.run, events.last()))
            } else {
                None
            },
        }
    }
}

/// No browser is started until the host of the page was found not to be blocked
/// and to resolve to allowed addresses only, in this order.
pub proof fn lemma_checked_before_launch(
    page: LocationView,
    options: OptionsView,
    events: Seq<EventView>,
)
    requires
        played(page, options, events) matches Some(turn) && turn.action is Launch,
    ensures
        events.len() == 2,
        events[0] == EventView::Host(false),
        events[1] matches EventView::Resolved(Ok(_)),
{
    lemma_checks_first(page, options, events);
}

/// What a run has been through, by its stage.
proof fn lemma_checks_first(page: LocationView, options: OptionsView, events: Seq<EventView>)
    requires
        played(page, options, events) is Some,
    ensures
        ({
            let turn = played(page, options, events).unwrap();
            &&& turn.run.page == page
            &&& turn.run.options == options
            &&& turn.action is Launch ==> turn.run.stage == StageView::Launching
            &&& match turn.run.stage {
                StageView::EntryHost => events.len() == 0,
                StageView::EntryResolve => events.len() == 1 && events[0] == EventView::Host(
                    false,
                ),
                StageView::Launching => events.len() == 2 && events[0] == EventView::Host(false)
                    && (events[1] matches EventView::Resolved(Ok(_))),
                _ => true,
            }
        }),
    decreases events.len(),
{
    if events.len() > 0 {
        let before = events.drop_last();
        lemma_checks_first(page, options, before);
        assert(before.len() > 0 ==> before[0] == events[0]);
        assert(before.len() > 1 ==> before[1] == events[1]);
    }
}

/// A request goes on only where it was found to resolve to allowed addresses
/// only; before that its host was found not to be blocked; and before that its
/// URL was read and found to be one of the web's.
pub proof fn lemma_requests_are_checked(run: RunView, event: EventView)
    requires
        expects(run.stage, event),
    ensures
        reaction(run, event).action == ActionView::Continue <==> {
            &&& run.stage is RequestResolve
            &&& event matches EventView::Resolved(Ok(_))
        },
        reaction(run, event).run.stage matches StageView::RequestResolve(url) ==> run.stage
            == StageView::RequestHost(url) && event == EventView::Host(false),
        reaction(run, event).run.stage matches StageView::RequestHost(url) ==> {
            &&& run.stage == StageView::Capturing
            &&& event matches EventView::Paused(request) && parsed(request.url) == Ok::<
                _,
                Seq<char>,
            >(url)
            &&& is_web_scheme(url.scheme)
        },
{
}

/// A request that is refused makes the run fail with the reason, unless the time
/// for the capture is over meanwhile.
pub proof fn lemma_refusal_ends(run: RunView, event: EventView, then_event: EventView)
    requires
        expects(run.stage, event),
        reaction(run, event).action == ActionView::Deny,
        expects(reaction(run, event).run.stage, then_event),
    ensures
        reaction(run, event).run.stage is Denying,
        ({
            let turn = reaction(run, event);
            let end = reaction(turn.run, then_event);
            &&& end.action matches ActionView::Finish(Err(_))
            &&& then_event is Denied ==> end.action == ActionView::Finish(
                Err(turn.run.stage->Denying_0),
            )
        }),
{
}

/// A page is redirected at most five times before a redirect is refused, and
/// never to a URL that it came from.
pub proof fn lemma_redirects_are_limited(
    run: RunView,
    request: PausedView,
    parse: Result<LocationView, Seq<char>>,
)
    requires
        run.wf(),
        run.stage == StageView::Capturing,
        redirects_page(run.main_frame, request),
    ensures
        ({
            let url = normalized(request.url, parse);
            let turn = hold_back(run, request, parse);
            &&& run.hops >= MAX_SCREENSHOT_REDIRECT_HOPS || run.seen.contains(url)
                ==> turn.action == ActionView::Deny
            &&& turn.action != ActionView::Deny ==> {
                &&& turn.run.hops == run.hops + 1 <= MAX_SCREENSHOT_REDIRECT_HOPS
                &&& turn.run.seen == run.seen.insert(url)
                &&& !run.seen.contains(url)
            }
        }),
{
}

/// Whether the last three events of a run are a request held back, whose URL was
/// read and found to be one of the web's, and the two checks of it: the run asked
/// whether its host is blocked, and it is not, and what it resolves to, and that is
/// allowed.
pub open spec fn just_checked(
    page: LocationView,
    options: OptionsView,
    events: Seq<EventView>,
) -> bool {
    let n = events.len() as int;
    &&& n >= 3
    &&& events[n - 3] matches EventView::Paused(request) && parsed(request.url) matches Ok(url) && {
        &&& is_web_scheme(url.scheme)
        &&& played(page, options, events.take(n - 2)) matches Some(turn) && turn.action
            == ActionView::CheckHost(url)
        &&& events[n - 2] == EventView::Host(false)
        &&& played(page, options, events.take(n - 1)) matches Some(turn) && turn.action
            == ActionView::ResolveHost(url)
        &&& events[n - 1] matches EventView::Resolved(Ok(_))
    }
}

/// In every run, no request goes on but one that was just held back and passed its
/// checks.
pub proof fn lemma_only_checked_requests_go_on(
    page: LocationView,
    options: OptionsView,
    events: Seq<EventView>,
)
    requires
        played(page, options, events) matches Some(turn) && turn.action == ActionView::Continue,
    ensures
        just_checked(page, options, events),
{
    let n = events.len() as int;
    reveal_with_fuel(played, 4);
    let one = events.drop_last();
    let before = played(page, options, one).unwrap();
    lemma_requests_are_checked(before.run, events.last());
    let two = one.drop_last();
    let held = played(page, options, two).unwrap();
    lemma_requests_are_checked(held.run, one.last());
    let three = two.drop_last();
    lemma_requests_are_checked(played(page, options, three).unwrap().run, two.last());
    assert(events.take(n - 1) =~= one);
    assert(events.take(n - 2) =~= two);
    assert(one.last() == events[n - 2]);
    assert(two.last() == events[n - 3]);
}

/// The URLs that a page was redirected to, in order: those of the requests that
/// redirect the page and were let go on.
pub open spec fn followed(
    page: LocationView,
    options: OptionsView,
    events: Seq<EventView>,
) -> Seq<Seq<char>>
    decreases events.len(),
{
    if events.len() == 0 {
        Seq::empty()
    } else {
        let earlier = followed(page, options, events.drop_last());
        match played(page, options, events) {
            Some(turn) if turn.action == ActionView::Continue => match events[events.len() - 3] {
                EventView::Paused(request) if request.is_redirect && request.is_document && (
                turn.run.main_frame is None || turn.run.main_frame == Some(request.frame)) => {
                    earlier.push(
                        match parsed(request.url) {
                            Ok(url) => url.text,
                            Err(_) => request.url,
                        },
                    )
                },
                _ => earlier,
            },
            _ => earlier,
        }
    }
}

/// In every run, a page is redirected at most five times, never to the same URL
/// twice and never back to where it started.
pub proof fn lemma_few_redirects_are_followed(
    page: LocationView,
    options: OptionsView,
    events: Seq<EventView>,
)
    requires
        played(page, options, events) is Some,
    ensures
        followed(page, options, events).len() <= 5,
        followed(page, options, events).no_duplicates(),
        !followed(page, options, events).contains(page.text),
{
    lemma_followed(page, options, events);
}

/// The request that a run holds back, by its stage.
spec fn pending(run: RunView, events: Seq<EventView>) -> Option<EventView> {
    match run.stage {
        StageView::RequestHost(_) => Some(events[events.len() - 1]),
        StageView::RequestResolve(_) => Some(events[events.len() - 2]),
        _ => None,
    }
}

/// What a run counts is what it has followed, and what it is about to follow.
proof fn lemma_followed(page: LocationView, options: OptionsView, events: Seq<EventView>)
    requires
        played(page, options, events) is Some,
    ensures
        ({
            let turn = played(page, options, events).unwrap();
            let run = turn.run;
            let urls = followed(page, options, events);
            let seen = urls.to_set().insert(page.text);
            &&& run.page == page
            &&& urls.len() <= MAX_SCREENSHOT_REDIRECT_HOPS
            &&& urls.no_duplicates()
            &&& !urls.contains(page.text)
            &&& match run.stage {
                StageView::Denying(_) => true,
                StageView::Finished => true,
                StageView::RequestHost(_) | StageView::RequestResolve(_) => {
                    &&& events.len() >= 2
                    &&& pending(run, events) matches Some(EventView::Paused(request)) && {
                        let url = normalized(request.url, parsed(request.url));
                        if redirects_page(run.main_frame, request) {
                            &&& run.hops == urls.len() + 1 <= MAX_SCREENSHOT_REDIRECT_HOPS
                            &&& run.seen == seen.insert(url)
                            &&& !seen.contains(url)
                        } else {
                            run.hops == urls.len() && run.seen == seen
                        }
                    }
                },
                _ => run.hops == urls.len() && run.seen == seen,
            }
        }),
    decreases events.len(),
{
    if events.len() == 0 {
        let none = Seq::<Seq<char>>::empty();
        assert(none.to_set() =~= Set::empty());
    } else {
        let before = events.drop_last();
        lemma_followed(page, options, before);
        let run = played(page, options, before).unwrap().run;
        let turn = played(page, options, events).unwrap();
        let earlier = followed(page, options, before);
        let urls = followed(page, options, events);
        if before.len() > 0 {
            assert(before[before.len() - 1] == events[events.len() - 2]);
        }
        if before.len() > 1 {
            assert(before[before.len() - 2] == events[events.len() - 3]);
        }
        lemma_requests_are_checked(run, events.last());
        if turn.action == ActionView::Continue {
            if urls != earlier {
                let url = urls.last();
                assert(urls == earlier.push(url));
                earlier.lemma_push_to_set_commute(url);
                assert(earlier.to_set().insert(page.text).insert(url) =~= urls.to_set().insert(
                    page.text,
                ));
                assert(!earlier.contains(url)) by {
                    assert(!earlier.to_set().insert(page.text).contains(url));
                }
                assert(urls.no_duplicates());
            }
        }
    }
}

/// A run succeeds only with a picture: one that was taken just now, or one that
/// was saved.
pub proof fn lemma_success_has_picture(run: RunView, event: EventView)
    requires
        run.wf(),
        expects(run.stage, event),
        reaction(run, event).action matches ActionView::Finish(Ok(_)),
    ensures
        match run.options.output_path {
            None => run.stage == StageView::Capturing && event is Captured,
            Some(_) => run.stage is Saving && (event matches EventView::Saved(Ok(_))),
        },
{
}

// ---------------------------------------------------------------------------
// What is asked for, in numbers
// ---------------------------------------------------------------------------

/// A viewport dimension is what was asked for, by its low 32 bits, between 100 and
/// 3840; a timeout is what was asked for, between 1 and 120 seconds; and without
/// anything asked for they are 1280 by 720 and 30 seconds.
pub proof fn lemma_option_numbers(
    output_path: Option<Seq<char>>,
    timeout_secs: Option<u64>,
    width: Option<u64>,
    height: Option<u64>,
)
    ensures
        ({
            let o = options(output_path, timeout_secs, width, height);
            let within = |asked: u64, got: int|
                {
                    let low = asked as int % 0x1_0000_0000;
                    &&& 100 <= got <= 3840
                    &&& low <= 100 ==> got == 100
                    &&& 100 <= low <= 3840 ==> got == low
                    &&& low >= 3840 ==> got == 3840
                };
            &&& match width {
                Some(asked) => within(asked, o.width as int),
                None => o.width == 1280,
            }
            &&& match height {
                Some(asked) => within(asked, o.height as int),
                None => o.height == 720,
            }
            &&& match timeout_secs {
                Some(asked) => {
                    &&& 1 <= o.timeout_secs <= 120
                    &&& asked == 0 ==> o.timeout_secs == 1
                    &&& 1 <= asked <= 120 ==> o.timeout_secs == asked
                    &&& asked >= 120 ==> o.timeout_secs == 120
                },
                None => o.timeout_secs == 30,
            }
            &&& match output_path {
                Some(path) => o.output_path == if trimmed(path).len() == 0 {
                    None
                } else {
                    Some(trimmed(path))
                },
                None => o.output_path is None,
            }
        }),
{
}

/// A page is admitted exactly where its URL, without white space around it, can be
/// read and has the scheme `http` or `https`; it is then the page of that URL.
pub proof fn lemma_admission(url: Seq<char>)
    ensures
        requested(None) is Err,
        trimmed(url).len() == 0 ==> requested(Some(url)) == requested(None),
        trimmed(url).len() > 0 ==> match parsed(trimmed(url)) {
            Ok(page) => if page.scheme == "http"@ || page.scheme == "https"@ {
                requested(Some(url)) == Ok::<_, ErrorView>(page)
            } else {
                requested(Some(url)) == Err::<LocationView, _>(
                    ErrorView::Tool(
                        "Only http/https URLs are allowed, got '"@ + page.scheme + "'"@,
                    ),
                )
            },
            Err(message) => requested(Some(url)) == Err::<LocationView, _>(
                ErrorView::Tool("Invalid URL '"@ + trimmed(url) + "': "@ + message),
            ),
        },
{
}

/// A redirect is allowed exactly up to the fifth, to a URL that was not seen. It is
/// counted in any case, and remembered where it is allowed.
pub proof fn lemma_redirect_is_tracked(hops: nat, seen: Set<Seq<char>>, url: Seq<char>)
    ensures
        ({
            let (count, now, result) = redirected(hops, seen, url);
            &&& count == hops + 1
            &&& result is Ok <==> hops < 5 && !seen.contains(url)
            &&& now == if result is Ok {
                seen.insert(url)
            } else {
                seen
            }
            &&& hops >= 5 ==> result == Err::<(), _>(
                ErrorView::SecurityViolation("Exceeded maximum redirect hops (5)"@),
            )
            &&& hops < 5 && seen.contains(url) ==> result == Err::<(), _>(
                ErrorView::SecurityViolation(
                    "Detected redirect loop while capturing screenshot: "@ + url,
                ),
            )
        }),
{
    reveal_strlit("Exceeded maximum redirect hops (");
    reveal_strlit(")");
    reveal_strlit("Exceeded maximum redirect hops (5)");
    assert(decimal(5) =~= seq!['5']) by {
        assert((5 + 48) as char == '5');
    }
    assert("Exceeded maximum redirect hops ("@ + decimal(5) + ")"@
        =~= "Exceeded maximum redirect hops (5)"@);
}

/// What counts as a redirect of the page: a request for a document that follows a
/// redirect, in the main frame or where that is not known. Nothing else changes the
/// count or the URLs seen.
pub proof fn lemma_what_counts(run: RunView, event: EventView)
    requires
        expects(run.stage, event),
    ensures
        ({
            let now = reaction(run, event).run;
            let counts = run.stage == StageView::Capturing && match event {
                EventView::Paused(request) => request.is_redirect && request.is_document && (
                run.main_frame is None || run.main_frame == Some(request.frame)),
                _ => false,
            };
            &&& counts ==> now.hops == run.hops + 1
            &&& !counts ==> now.hops == run.hops && now.seen == run.seen
            &&& now.page == run.page
            &&& now.options == run.options
            &&& run.stage != StageView::Launching ==> now.main_frame == run.main_frame
            &&& event matches EventView::Launched(frame) ==> now.main_frame == frame
        }),
{
}

/// A request that is held back goes on where nothing speaks against it: its URL can
/// be read and has the scheme `http` or `https`, it is no redirect of the page or one
/// that is allowed, its host is not blocked, and it resolves to allowed addresses.
pub proof fn lemma_good_requests_go_on(run: RunView, request: PausedView, url: LocationView)
    requires
        run.stage == StageView::Capturing,
        parsed(request.url) == Ok::<_, Seq<char>>(url),
        url.scheme == "http"@ || url.scheme == "https"@,
        request.is_redirect && request.is_document && (run.main_frame is None || run.main_frame
            == Some(request.frame)) ==> run.hops < 5 && !run.seen.contains(url.text),
    ensures
        ({
            let first = reaction(run, EventView::Paused(request));
            let second = reaction(first.run, EventView::Host(false));
            let third = reaction(second.run, EventView::Resolved(Ok(())));
            let fourth = reaction(third.run, EventView::Continued(Ok(())));
            &&& first.action == ActionView::CheckHost(url)
            &&& expects(first.run.stage, EventView::Host(false))
            &&& second.action == ActionView::ResolveHost(url)
            &&& expects(second.run.stage, EventView::Resolved(Ok(())))
            &&& third.action == ActionView::Continue
            &&& expects(third.run.stage, EventView::Continued(Ok(())))
            &&& fourth.action == ActionView::Wait
            &&& fourth.run.stage == StageView::Capturing
        }),
{
}

/// What a run asks the browser for: a viewport of the size asked for; the whole page,
/// at the URL asked for, within the time asked for; and to save the picture that was
/// just taken where a path was given.
pub proof fn lemma_asks_for(page: LocationView, options: OptionsView, events: Seq<EventView>)
    requires
        played(page, options, events) is Some,
    ensures
        match played(page, options, events).unwrap().action {
            ActionView::Launch { width, height } => width == options.width && height
                == options.height,
            ActionView::Capture { url, full_page, timeout_secs } => url == page.raw && full_page
                && timeout_secs == options.timeout_secs,
            ActionView::Save { path, data } => {
                &&& options.output_path == Some(path)
                &&& events.len() > 0
                &&& events.last() == EventView::Captured(data)
            },
            _ => true,
        },
{
    if events.len() > 0 {
        lemma_checks_first(page, options, events.drop_last());
    }
}

/// What a run that succeeds returns. Without a path: the picture that was just taken,
/// as PNG, and a description of it with the picture in base64. With a path: a
/// description of the picture that was just saved there.
pub proof fn lemma_result_is_picture(
    page: LocationView,
    options: OptionsView,
    events: Seq<EventView>,
    result: OutputView,
)
    requires
        played(page, options, events) matches Some(turn) && turn.action == ActionView::Finish(
            Ok(result),
        ),
    ensures
        result.for_user is None,
        match options.output_path {
            None => {
                &&& events.len() > 0
                &&& events.last() matches EventView::Captured(data) && {
                    &&& result.media matches Some(media) && {
                        &&& media.media_type == MediaType::Image
                        &&& media.data == Some(data)
                        &&& media.filename == Some("screenshot.png"@)
                        &&& media.mime_type == Some("image/png"@)
                    }
                    &&& result.for_llm == object_text(
                        seq![
                            ("data"@, quoted(base64_text(data))),
                            ("encoding"@, quoted("base64"@)),
                            ("format"@, quoted("png"@)),
                            ("height"@, decimal(options.height as nat)),
                            ("size_bytes"@, decimal(data.len())),
                            ("url"@, quoted(page.raw)),
                            ("width"@, decimal(options.width as nat)),
                        ],
                    )
                }
            },
            Some(path) => {
                &&& events.len() > 1
                &&& events.last() matches EventView::Saved(Ok(_))
                &&& events[events.len() - 2] matches EventView::Captured(data) && {
                    &&& result.media is None
                    &&& result.for_llm == object_text(
                        seq![
                            ("height"@, decimal(options.height as nat)),
                            ("output_path"@, quoted(path)),
                            ("size_bytes"@, decimal(data.len())),
                            ("url"@, quoted(page.raw)),
                            ("width"@, decimal(options.width as nat)),
                        ],
                    )
                }
            },
        },
{
    let before = events.drop_last();
    lemma_checks_first(page, options, before);
    lemma_run_wf(page, options, before);
    reveal_with_fuel(played, 3);
    let turn = played(page, options, before).unwrap();
    lemma_success_has_picture(turn.run, events.last());
    if turn.run.stage is Saving {
        let earlier = before.drop_last();
        lemma_checks_first(page, options, earlier);
        assert(before.last() == events[events.len() - 2]);
    }
}

/// Every run is well-formed.
proof fn lemma_run_wf(page: LocationView, options: OptionsView, events: Seq<EventView>)
    requires
        played(page, options, events) is Some,
    ensures
        played(page, options, events).unwrap().run.wf(),
    decreases events.len(),
{
    if events.len() > 0 {
        lemma_run_wf(page, options, events.drop_last());
        lemma_wf_stays(
            played(page, options, events.drop_last()).unwrap().run,
            events.last(),
        );
    } else {
        assert(opening(page, options).run.seen =~= set![page.text]);
    }
}

/// Why a run fails: what the browser failed to do, or what a check found, or that the
/// time is over, is told as it is.
pub proof fn lemma_errors_are_told(run: RunView, event: EventView)
    requires
        expects(run.stage, event),
    ensures
        ({
            let turn = reaction(run, event);
            match event {
                EventView::Failed(failure, detail) => turn.action == ActionView::Finish(
                    Err(ErrorView::Tool(failure_text(failure) + detail)),
                ),
                EventView::TimedOut => turn.action == ActionView::Finish(
                    Err(
                        ErrorView::Tool(
                            "Screenshot timed out after "@ + decimal(
                                run.options.timeout_secs as nat,
                            ) + "s for '"@ + run.page.raw + "'"@,
                        ),
                    ),
                ),
                EventView::Resolved(Err(e)) => match run.stage {
                    StageView::EntryResolve => turn.action == ActionView::Finish(Err(e)),
                    _ => turn.run.stage == StageView::Denying(e),
                },
                EventView::Host(true) => match run.stage {
                    StageView::EntryHost => turn.action == ActionView::Finish(
                        Err(
                            ErrorView::SecurityViolation(
                                "Blocked URL host (local or private network)"@,
                            ),
                        ),
                    ),
                    _ => turn.action == ActionView::Deny,
                },
                EventView::Saved(Err(detail)) => turn.action == ActionView::Finish(
                    Err(
                        ErrorView::Tool(
                            "Failed to write screenshot to '"@ + run.options.output_path->0
                                + "': "@ + detail,
                        ),
                    ),
                ),
                EventView::Continued(Err(_)) => turn.action matches ActionView::Finish(Err(_)),
                EventView::StreamEnded => turn.action matches ActionView::Finish(Err(_)),
                _ => true,
            }
        }),
{
}

/// Redirects are compared by the normal forms of their URLs; what is no URL stands for
/// itself.
pub proof fn lemma_compared_by_form(raw: Seq<char>, other: Seq<char>)
    ensures
        parsed(raw) matches Ok(url) ==> normalized(raw, parsed(raw)) == url.text,
        parsed(raw) is Err ==> normalized(raw, parsed(raw)) == raw,
        (parsed(raw) matches Ok(a) && parsed(other) matches Ok(b) && a.text == b.text)
            ==> normalized(raw, parsed(raw)) == normalized(other, parsed(other)),
{
}

/// Why a request of the browser is refused, by its URL: it cannot be read, its scheme
/// is neither `http` nor `https`, or its host is blocked. Else it is not refused by it.
pub proof fn lemma_refusals(raw: Seq<char>, url: LocationView, message: Seq<char>, blocked: bool)
    ensures
        request_target(raw, Err(message)) == Err::<LocationView, _>(
            ErrorView::SecurityViolation(
                "Blocked browser request with invalid URL '"@ + raw + "': "@ + message,
            ),
        ),
        request_target(raw, Ok(url)) == Ok::<_, ErrorView>(url),
        url.scheme != "http"@ && url.scheme != "https"@ ==> basic_check(url, blocked) == Err::<
            (),
            _,
        >(
            ErrorView::SecurityViolation(
                "Redirect/browser request scheme is blocked: "@ + url.scheme,
            ),
        ),
        (url.scheme == "http"@ || url.scheme == "https"@) && blocked ==> basic_check(url, blocked)
            == Err::<(), _>(
            ErrorView::SecurityViolation(
                "Redirect/browser request destination is blocked (local or private network): "@
                    + url.text,
            ),
        ),
        (url.scheme == "http"@ || url.scheme == "https"@) && !blocked ==> (basic_check(
            url,
            blocked,
        ) matches Ok(_)),
{
}

/// A request that is held back is refused, with the reason, exactly where it is one
/// redirect too many or leads back, or where its URL cannot be read or has another
/// scheme than `http` or `https`; or later, where its host is blocked or resolves to
/// other addresses than allowed ones.
pub proof fn lemma_what_is_refused(run: RunView, event: EventView)
    requires
        expects(run.stage, event),
    ensures
        ({
            let turn = reaction(run, event);
            let refused = match (run.stage, event) {
                (StageView::Capturing, EventView::Paused(request)) => {
                    ||| parsed(request.url) is Err
                    ||| parsed(request.url) matches Ok(url) && url.scheme != "http"@ && url.scheme
                        != "https"@
                    ||| request.is_redirect && request.is_document && (run.main_frame is None
                        || run.main_frame == Some(request.frame)) && (run.hops >= 5
                        || run.seen.contains(
                        match parsed(request.url) {
                            Ok(url) => url.text,
                            Err(_) => request.url,
                        },
                    ))
                },
                (StageView::RequestHost(url), EventView::Host(blocked)) => blocked || (url.scheme
                    != "http"@ && url.scheme != "https"@),
                (StageView::RequestResolve(_), EventView::Resolved(result)) => result is Err,
                _ => false,
            };
            &&& turn.action == ActionView::Deny <==> refused
            &&& turn.run.stage is Denying <==> refused
        }),
{
}

/// How a capture goes on where nothing goes wrong: a page on a host that is not blocked
/// is looked up, then the browser is started, then the page is captured, and then the
/// picture is saved where there is a path, or returned.
pub proof fn lemma_capture_goes_on(run: RunView, event: EventView)
    requires
        expects(run.stage, event),
    ensures
        ({
            let action = reaction(run, event).action;
            match (run.stage, event) {
                (StageView::EntryHost, EventView::Host(false)) => action
                    == ActionView::ResolveHost(run.page),
                (StageView::EntryResolve, EventView::Resolved(Ok(_))) => action is Launch,
                (StageView::Launching, EventView::Launched(_)) => action is Capture,
                (StageView::Capturing, EventView::Captured(data)) => match run.options.output_path {
                    Some(path) => action == (ActionView::Save { path, data }),
                    None => action matches ActionView::Finish(Ok(_)),
                },
                (StageView::Saving { .. }, EventView::Saved(Ok(_))) => {
                    action matches ActionView::Finish(Ok(_))
                },
                _ => true,
            }
        }),
        forall|page: LocationView, options: OptionsView| #[trigger]
            opening(page, options).action == ActionView::CheckHost(page) && opening(
                page,
                options,
            ).run.hops == 0,
{
}

} // verus!
