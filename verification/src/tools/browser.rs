//! Browser tool: headless web browsing through the `agent-browser` program.
//!
//! Wraps the program to navigate, extract content, fill forms, click, take
//! screenshots and so on. Lightpanda is the default engine; where it fails to
//! navigate, Chrome takes over.
//!
//! A call of the tool is a [`BrowserRun`]. It is told what happened, one
//! [`BrowserEvent`] at a time, and answers with the next [`BrowserAction`]. It
//! never performs an action itself.

use crate::config::BrowserConfig;
use crate::deps::{DepKind, Dependency, HealthCheck};
use crate::error::{error_text, outcome, ErrorView, ZeptoError};
use crate::tools::schema::{
    arguments, arguments_schema, choice_argument, choice_property, text_argument, text_property,
};
use crate::tools::web::{parse_url, parse_view, parsed, Location, LocationView};
use crate::tools::{for_model, result_view, OutputView, ToolCategory, ToolOutput};
use crate::utils::encoding::{lossy_text, to_lossy_text};
use crate::utils::json::{compact_text, member_views, string_member, text_member};
use crate::utils::text::{
    decimal, first_word, has_prefix, is_white_space, lemma_trimmed_start, lemma_word_alone,
    lemma_word_len_is, lemma_words_apart, lemma_words_are_words, option_text, same_text,
    split_at_space, split_words, texts, to_decimal, trim, trim_start, trimmed, trimmed_start,
    word_len, words,
};
use std::collections::HashMap;
use vstd::pervasive::{arbitrary, unreached};
use vstd::prelude::*;

verus! {

/// The default engine.
pub const ENGINE_LIGHTPANDA: &'static str = "lightpanda";

/// The engine with full rendering.
pub const ENGINE_CHROME: &'static str = "chrome";

// ---------------------------------------------------------------------------
// The tool
// ---------------------------------------------------------------------------

/// Browser automation tool wrapping the `agent-browser` program.
///
/// The engine in use is shared by all calls of one tool.
pub struct BrowserTool {
    /// The engine to start with, and to go back to when the browser is closed.
    pub default_engine: String,
    /// The engine in use.
    pub active_engine: String,
    /// The program.
    pub executable: String,
    /// Timeout of a command, in seconds.
    pub timeout_secs: u64,
}

/// The contents of a [`BrowserTool`].
pub struct ToolView {
    /// See [`BrowserTool::default_engine`].
    pub default_engine: Seq<char>,
    /// See [`BrowserTool::active_engine`].
    pub active_engine: Seq<char>,
    /// See [`BrowserTool::executable`].
    pub executable: Seq<char>,
    /// See [`BrowserTool::timeout_secs`].
    pub timeout_secs: u64,
}

impl View for BrowserTool {
    type V = ToolView;

    open spec fn view(&self) -> ToolView {
        ToolView {
            default_engine: self.default_engine@,
            active_engine: self.active_engine@,
            executable: self.executable@,
            timeout_secs: self.timeout_secs,
        }
    }
}

/// What the user is told of a command; nothing for most of them.
pub open spec fn summary(command: Seq<char>, args: Seq<char>) -> Option<Seq<char>> {
    if command == "open"@ {
        Some("Browsing "@ + first_or_all(args))
    } else if command == "screenshot"@ {
        Some("Screenshot captured"@)
    } else {
        None
    }
}

/// The first word, or the whole text where it has no word.
pub open spec fn first_or_all(s: Seq<char>) -> Seq<char> {
    if words(s).len() > 0 {
        words(s)[0]
    } else {
        s
    }
}

fn take_first(s: &str) -> (r: String)
    ensures
        r@ == first_or_all(s@),
{
    match first_word(s) {
        Some(word) => word,
        None => s.to_owned(),
    }
}

/// The schema of the arguments.
pub open spec fn parameters_text() -> Seq<char> {
    arguments_schema(
        seq![
            (
                "args"@,
                text_property(
                    "Arguments for the command (e.g. a URL for open, a ref like @e1 for click, 'text hello' for find)"@,
                ),
            ),
            (
                "command"@,
                text_property(
                    "The agent-browser command to run (e.g. open, snapshot, click, fill, find, get, scroll, back, screenshot, wait, close)"@,
                ),
            ),
            (
                "engine"@,
                choice_property(
                    "Browser engine override. Use 'chrome' for full rendering fidelity when requested by the user."@,
                    "lightpanda"@,
                    "chrome"@,
                ),
            ),
        ],
        "command"@,
    )
}

impl BrowserTool {
    /// A tool with these settings.
    pub fn new(config: &BrowserConfig) -> (r: Self)
        ensures
            r.default_engine@ == config.engine@,
            r.active_engine@ == config.engine@,
            r.executable@ == match config.executable_path {
                Some(path) => path@,
                None => "agent-browser"@,
            },
            r.timeout_secs == config.timeout_secs,
    {
        BrowserTool {
            default_engine: config.engine.as_str().to_owned(),
            active_engine: config.engine.as_str().to_owned(),
            executable: match &config.executable_path {
                Some(path) => path.as_str().to_owned(),
                None => "agent-browser".to_owned(),
            },
            timeout_secs: config.timeout_secs,
        }
    }

    /// The engine in use.
    pub fn get_active_engine(&self) -> (r: String)
        ensures
            r@ == self@.active_engine,
    {
        self.active_engine.as_str().to_owned()
    }

    /// Changes the engine in use.
    pub fn set_active_engine(&mut self, engine: &str)
        ensures
            final(self)@ == (ToolView { active_engine: engine@, ..old(self)@ }),
    {
        self.active_engine = engine.to_owned();
    }

    /// A concise line for the user, or nothing. The model gets the full output
    /// in any case.
    pub fn summarize_for_user(command: &str, args_str: &str) -> (r: Option<String>)
        ensures
            option_text(r) == summary(command@, args_str@),
    {
        proof {
            reveal_strlit("open");
            reveal_strlit("screenshot");
        }
        if same_text(command, "open") {
            let mut line = "Browsing ".to_owned();
            line.append(take_first(args_str).as_str());
            Some(line)
        } else if same_text(command, "screenshot") {
            Some("Screenshot captured".to_owned())
        } else {
            None
        }
    }

    /// The programs that the tool needs.
    pub fn dependencies(&self) -> (r: Vec<Dependency>)
        ensures
            r@.len() == 2,
            r@[0].name@ == "agent-browser"@,
            r@[0].is_npm_package("agent-browser"@, "latest"@, "agent-browser"@),
            r@[0].is_checked_by("agent-browser --version"@),
            r@[0].is_plain(),
            r@[1].name@ == "lightpanda"@,
            r@[1].is_binary("lightpanda-io/browser"@, "lightpanda-{arch}-{os}"@, "nightly"@),
            r@[1].is_checked_by("lightpanda --version"@),
            r@[1].is_plain(),
    {
        vec![
            Dependency {
                name: "agent-browser".to_owned(),
                kind: DepKind::NpmPackage {
                    package: "agent-browser".to_owned(),
                    version: "latest".to_owned(),
                    entry_point: "agent-browser".to_owned(),
                },
                health_check: HealthCheck::Command {
                    command: "agent-browser --version".to_owned(),
                },
                env: HashMap::new(),
                args: Vec::new(),
            },
            Dependency {
                name: "lightpanda".to_owned(),
                kind: DepKind::Binary {
                    repo: "lightpanda-io/browser".to_owned(),
                    asset_pattern: "lightpanda-{arch}-{os}".to_owned(),
                    version: "nightly".to_owned(),
                },
                health_check: HealthCheck::Command { command: "lightpanda --version".to_owned() },
                env: HashMap::new(),
                args: Vec::new(),
            },
        ]
    }

    /// The name of the tool.
    pub fn name(&self) -> (r: &'static str)
        ensures
            r@ == "browser"@,
    {
        "browser"
    }

    /// What the tool does, for the model.
    pub fn description(&self) -> (r: &'static str)
        ensures
            r@ == "Browse the web: fetch page content, read articles, interact with websites. Use this tool whenever you need to visit a URL or retrieve web content. Typical flow: open <url>, then snapshot to read the page. Commands: open <url> (navigate to page), snapshot (read page content with element refs), click <ref> (click element), fill <ref> <text> (type into input), find role|text|label <query> (find elements), get text|html|url|title, scroll up|down, back, forward, screenshot [path], wait <selector|ms>. Element refs like @e1 are assigned by snapshot and reused for interaction. Optional engine param: set to 'chrome' for full rendering fidelity when the user requests Chrome. Defaults to lightpanda (faster). Falls back to Chrome automatically if lightpanda fails."@,
    {
        "Browse the web: fetch page content, read articles, interact with websites. Use this tool whenever you need to visit a URL or retrieve web content. Typical flow: open <url>, then snapshot to read the page. Commands: open <url> (navigate to page), snapshot (read page content with element refs), click <ref> (click element), fill <ref> <text> (type into input), find role|text|label <query> (find elements), get text|html|url|title, scroll up|down, back, forward, screenshot [path], wait <selector|ms>. Element refs like @e1 are assigned by snapshot and reused for interaction. Optional engine param: set to 'chrome' for full rendering fidelity when the user requests Chrome. Defaults to lightpanda (faster). Falls back to Chrome automatically if lightpanda fails."
    }

    /// What the tool does, in short.
    pub fn compact_description(&self) -> (r: &'static str)
        ensures
            r@ == "Browse web"@,
    {
        "Browse web"
    }

    /// What the tool does to the world.
    pub fn category(&self) -> (r: ToolCategory)
        ensures
            r == ToolCategory::Shell,
    {
        ToolCategory::Shell
    }

    /// The JSON schema of the arguments.
    pub fn parameters(&self) -> (r: serde_json::Value)
        ensures
            compact_text(r) == parameters_text(),
    {
        let properties = vec![
            (
                "args".to_owned(),
                text_argument(
                    "Arguments for the command (e.g. a URL for open, a ref like @e1 for click, 'text hello' for find)",
                ),
            ),
            (
                "command".to_owned(),
                text_argument(
                    "The agent-browser command to run (e.g. open, snapshot, click, fill, find, get, scroll, back, screenshot, wait, close)",
                ),
            ),
            (
                "engine".to_owned(),
                choice_argument(
                    "Browser engine override. Use 'chrome' for full rendering fidelity when requested by the user.",
                    ENGINE_LIGHTPANDA,
                    ENGINE_CHROME,
                ),
            ),
        ];
        proof {
            reveal_strlit("args");
            reveal_strlit("command");
            reveal_strlit("engine");
            assert(member_views(properties@) =~= seq![
                (
                    "args"@,
                    text_property(
                        "Arguments for the command (e.g. a URL for open, a ref like @e1 for click, 'text hello' for find)"@,
                    ),
                ),
                (
                    "command"@,
                    text_property(
                        "The agent-browser command to run (e.g. open, snapshot, click, fill, find, get, scroll, back, screenshot, wait, close)"@,
                    ),
                ),
                (
                    "engine"@,
                    choice_property(
                        "Browser engine override. Use 'chrome' for full rendering fidelity when requested by the user."@,
                        "lightpanda"@,
                        "chrome"@,
                    ),
                ),
            ]);
        }
        arguments(properties, "command")
    }
}

// ---------------------------------------------------------------------------
// Running the program
// ---------------------------------------------------------------------------

/// How the program is started.
#[derive(Debug)]
pub struct Invocation {
    /// The program.
    pub program: String,
    /// Its arguments: the command, then the arguments of the command.
    pub args: Vec<String>,
    /// What is set in its environment.
    pub env: Vec<(String, String)>,
}

/// What came of starting the program.
#[derive(Debug)]
pub enum ProcessReport {
    /// There is no such program.
    NotFound,
    /// It could not be started or waited for.
    Failed(String),
    /// It did not end in time.
    TimedOut,
    /// It ended.
    Exited { success: bool, stdout: Vec<u8>, stderr: Vec<u8> },
}

/// The contents of a [`ProcessReport`].
pub enum ReportView {
    /// See [`ProcessReport::NotFound`].
    NotFound,
    /// See [`ProcessReport::Failed`].
    Failed(Seq<char>),
    /// See [`ProcessReport::TimedOut`].
    TimedOut,
    /// See [`ProcessReport::Exited`].
    Exited { success: bool, stdout: Seq<u8>, stderr: Seq<u8> },
}

impl View for ProcessReport {
    type V = ReportView;

    open spec fn view(&self) -> ReportView {
        match *self {
            ProcessReport::NotFound => ReportView::NotFound,
            ProcessReport::Failed(m) => ReportView::Failed(m@),
            ProcessReport::TimedOut => ReportView::TimedOut,
            ProcessReport::Exited { success, stdout, stderr } => {
                ReportView::Exited { success, stdout: stdout@, stderr: stderr@ }
            },
        }
    }
}

/// The contents of the output of a command, or of its error.
pub open spec fn run_view(r: Result<String, ZeptoError>) -> Result<Seq<char>, ErrorView> {
    match r {
        Ok(output) => Ok(output@),
        Err(e) => Err(e@),
    }
}

/// What a command that ended gives: its output or, where it failed, an error
/// with what it wrote.
pub open spec fn exit_outcome(
    command: Seq<char>,
    success: bool,
    stdout: Seq<char>,
    stderr: Seq<char>,
) -> Result<Seq<char>, ErrorView> {
    if success {
        Ok(stdout)
    } else {
        let message = if stderr.len() == 0 {
            stdout
        } else {
            stderr
        };
        Err(
            ErrorView::Tool("agent-browser "@ + command + " failed: "@ + trimmed(message)),
        )
    }
}

/// What a command gives.
pub open spec fn run_outcome(
    tool: ToolView,
    command: Seq<char>,
    report: ReportView,
) -> Result<Seq<char>, ErrorView> {
    match report {
        ReportView::NotFound => Err(
            ErrorView::Tool(
                "'"@ + tool.executable
                    + "' not found. Install it with:\n  npm install -g agent-browser   # or: brew install agent-browser\n  agent-browser install           # downloads Chrome\nFor LightPanda (optional, faster): see https://agent-browser.dev/engines/lightpanda"@,
            ),
        ),
        ReportView::Failed(detail) => Err(
            ErrorView::Tool("Failed to run agent-browser: "@ + detail),
        ),
        ReportView::TimedOut => Err(
            ErrorView::Tool(
                "Browser command '"@ + command + "' timed out after "@ + decimal(
                    tool.timeout_secs as nat,
                ) + "s"@,
            ),
        ),
        ReportView::Exited { success, stdout, stderr } => exit_outcome(
            command,
            success,
            lossy_text(stdout),
            lossy_text(stderr),
        ),
    }
}

/// What a command that ended gives, from the text that it wrote.
pub fn exit_result(command: &str, success: bool, stdout: String, stderr: String) -> (r: Result<
    String,
    ZeptoError,
>)
    ensures
        run_view(r) == exit_outcome(command@, success, stdout@, stderr@),
{
    if success {
        return Ok(stdout);
    }
    let written = if stderr.as_str().is_empty() {
        trim(stdout.as_str())
    } else {
        trim(stderr.as_str())
    };
    let mut message = "agent-browser ".to_owned();
    message.append(command);
    message.append(" failed: ");
    message.append(written.as_str());
    Err(ZeptoError::Tool(message))
}

impl BrowserTool {
    /// How the program is started for a command with an engine.
    pub fn invocation(&self, command: &str, args: &Vec<String>, engine: &str) -> (r: Invocation)
        ensures
            r.program@ == self@.executable,
            texts(r.args@) == seq![command@] + texts(args@),
            r.env@.len() == 2,
            r.env@[0].0@ == "AGENT_BROWSER_ENGINE"@,
            r.env@[0].1@ == engine@,
            r.env@[1].0@ == "LIGHTPANDA_DISABLE_TELEMETRY"@,
            r.env@[1].1@ == "true"@,
    {
        let mut all = vec![command.to_owned()];
        let mut i: usize = 0;
        assert(texts(all@) =~= seq![command@] + texts(args@).take(0));
        while i < args.len()
            invariant
                i <= args@.len(),
                texts(all@) == seq![command@] + texts(args@).take(i as int),
            decreases args@.len() - i,
        {
            let ghost before = all@;
            all.push(args[i].as_str().to_owned());
            proof {
                assert(texts(all@) =~= texts(before).push(args@[i as int]@));
                assert(texts(args@).take(i + 1) =~= texts(args@).take(i as int).push(
                    args@[i as int]@,
                ));
            }
            i = i + 1;
        }
        assert(texts(args@).take(i as int) =~= texts(args@));
        Invocation {
            program: self.executable.as_str().to_owned(),
            args: all,
            env: vec![
                ("AGENT_BROWSER_ENGINE".to_owned(), engine.to_owned()),
                ("LIGHTPANDA_DISABLE_TELEMETRY".to_owned(), "true".to_owned()),
            ],
        }
    }

    /// What a command gives, from what came of starting the program.
    pub fn command_result(&self, command: &str, report: ProcessReport) -> (r: Result<
        String,
        ZeptoError,
    >)
        ensures
            run_view(r) == run_outcome(self@, command@, report@),
    {
        match report {
            ProcessReport::NotFound => {
                let mut message = "'".to_owned();
                message.append(self.executable.as_str());
                message.append(
                    "' not found. Install it with:\n  npm install -g agent-browser   # or: brew install agent-browser\n  agent-browser install           # downloads Chrome\nFor LightPanda (optional, faster): see https://agent-browser.dev/engines/lightpanda",
                );
                Err(ZeptoError::Tool(message))
            },
            ProcessReport::Failed(detail) => {
                let mut message = "Failed to run agent-browser: ".to_owned();
                message.append(detail.as_str());
                Err(ZeptoError::Tool(message))
            },
            ProcessReport::TimedOut => {
                let mut message = "Browser command '".to_owned();
                message.append(command);
                message.append("' timed out after ");
                message.append(to_decimal(self.timeout_secs).as_str());
                message.append("s");
                Err(ZeptoError::Tool(message))
            },
            ProcessReport::Exited { success, stdout, stderr } => exit_result(
                command,
                success,
                to_lossy_text(stdout.as_slice()),
                to_lossy_text(stderr.as_slice()),
            ),
        }
    }
}

// ---------------------------------------------------------------------------
// Requests
// ---------------------------------------------------------------------------

/// What the tool is asked for.
#[derive(Debug)]
pub struct Request {
    /// The command.
    pub command: String,
    /// The arguments of the command.
    pub args: String,
    /// The engine to use from now on, where one is asked for.
    pub engine: Option<String>,
}

/// The contents of a [`Request`].
pub struct RequestView {
    /// See [`Request::command`].
    pub command: Seq<char>,
    /// See [`Request::args`].
    pub args: Seq<char>,
    /// See [`Request::engine`].
    pub engine: Option<Seq<char>>,
}

impl View for Request {
    type V = RequestView;

    open spec fn view(&self) -> RequestView {
        RequestView {
            command: self.command@,
            args: self.args@,
            engine: option_text(self.engine),
        }
    }
}

/// The contents of a request, or of the error where there is none.
pub open spec fn request_view(r: Result<Request, ZeptoError>) -> Result<RequestView, ErrorView> {
    match r {
        Ok(request) => Ok(request@),
        Err(e) => Err(e@),
    }
}

/// The request that the given arguments make: a command is needed, the rest is
/// optional.
pub open spec fn requested(
    command: Option<Seq<char>>,
    args: Option<Seq<char>>,
    engine: Option<Seq<char>>,
) -> Result<RequestView, ErrorView> {
    match command {
        None => Err(ErrorView::Tool("Missing 'command' argument"@)),
        Some(command) => Ok(
            RequestView {
                command,
                args: match args {
                    Some(args) => args,
                    None => seq![],
                },
                engine,
            },
        ),
    }
}

/// Whether a word looks like a URL.
pub open spec fn is_link(word: Seq<char>) -> bool {
    "http://"@.is_prefix_of(word) || "https://"@.is_prefix_of(word)
}

/// The words that look like URLs, in order.
pub open spec fn links(words: Seq<Seq<char>>) -> Seq<Seq<char>> {
    words.filter(|w: Seq<char>| is_link(w))
}

/// The URLs that have to be checked before a command runs: the one to open, or
/// every one in the arguments of another command.
pub open spec fn urls_to_check(request: RequestView) -> Seq<Seq<char>> {
    if request.command == "open"@ {
        seq![first_or_all(request.args)]
    } else {
        links(words(request.args))
    }
}

/// The arguments of the program. Most commands take words; `fill`, `type` and
/// `keyboard` take a word and a text, and `eval` takes a text.
pub open spec fn program_args(command: Seq<char>, args: Seq<char>) -> Seq<Seq<char>> {
    if args.len() == 0 {
        seq![]
    } else if command == "fill"@ || command == "type"@ || command == "keyboard"@ {
        let n = word_len(args) as int;
        if n < args.len() {
            seq![args.take(n), trimmed_start(args.skip(n + 1))]
        } else {
            seq![args]
        }
    } else if command == "eval"@ {
        seq![args]
    } else {
        words(args)
    }
}

/// What a request gives where its command succeeds.
pub open spec fn success(request: RequestView, output: Seq<char>) -> OutputView {
    OutputView { for_llm: output, for_user: summary(request.command, request.args), media: None }
}

/// The request that the given arguments make.
pub fn make_request(
    command: Option<String>,
    args: Option<String>,
    engine: Option<String>,
) -> (r: Result<Request, ZeptoError>)
    ensures
        request_view(r) == requested(option_text(command), option_text(args), option_text(engine)),
{
    match command {
        None => Err(ZeptoError::Tool("Missing 'command' argument".to_owned())),
        Some(command) => {
            let args = match args {
                Some(args) => args,
                None => String::new(),
            };
            let r: Result<Request, ZeptoError> = Ok(Request { command, args, engine });
            r
        },
    }
}

/// Reads the arguments of the tool.
pub fn read_request(args: &serde_json::Value) -> (r: Result<Request, ZeptoError>)
    ensures
        request_view(r) == requested(
            text_member(*args, "command"@),
            text_member(*args, "args"@),
            text_member(*args, "engine"@),
        ),
{
    make_request(
        string_member(args, "command"),
        string_member(args, "args"),
        string_member(args, "engine"),
    )
}

fn find_links(args: &str) -> (r: Vec<String>)
    ensures
        texts(r@) == links(words(args@)),
{
    let all = split_words(args);
    let ghost views = texts(all@);
    let ghost pred = |w: Seq<char>| is_link(w);
    let mut found: Vec<String> = Vec::new();
    let mut i: usize = 0;
    proof {
        reveal(Seq::filter);
        assert(texts(found@) =~= views.take(0).filter(pred));
    }
    while i < all.len()
        invariant
            i <= all@.len(),
            views == texts(all@),
            pred == (|w: Seq<char>| is_link(w)),
            texts(found@) == views.take(i as int).filter(pred),
        decreases all@.len() - i,
    {
        let word = all[i].as_str();
        let ghost before = found@;
        proof {
            reveal(Seq::filter);
            assert(views.take(i + 1).drop_last() =~= views.take(i as int));
            assert(views.take(i + 1).last() == word@);
        }
        if has_prefix(word, "http://") || has_prefix(word, "https://") {
            found.push(word.to_owned());
            assert(texts(found@) =~= texts(before).push(word@));
        }
        i = i + 1;
    }
    assert(views.take(i as int) =~= views);
    found
}

fn split_args(command: &str, args: &str) -> (r: Vec<String>)
    ensures
        texts(r@) == program_args(command@, args@),
{
    if args.is_empty() {
        let r: Vec<String> = Vec::new();
        assert(texts(r@) =~= seq![]);
        return r;
    }
    if same_text(command, "fill") || same_text(command, "type") || same_text(command, "keyboard") {
        match split_at_space(args) {
            Some((word, rest)) => {
                let r = vec![word, trim_start(rest.as_str())];
                assert(texts(r@) =~= program_args(command@, args@));
                r
            },
            None => {
                let r = vec![args.to_owned()];
                assert(texts(r@) =~= seq![args@]);
                r
            },
        }
    } else if same_text(command, "eval") {
        let r = vec![args.to_owned()];
        assert(texts(r@) =~= seq![args@]);
        r
    } else {
        split_words(args)
    }
}

// ---------------------------------------------------------------------------
// Runs
// ---------------------------------------------------------------------------

/// What a run waits for.
#[derive(Debug)]
pub enum Stage {
    /// The check of a target that the request names; `rest` are to be checked
    /// after it.
    Target { location: Location, rest: Vec<String> },
    /// The check of what the host of that target resolves to.
    Resolve { rest: Vec<String> },
    /// The end of the command that closes the browser, as requested.
    CloseSession,
    /// The end of the command.
    Command { engine: String },
    /// The end of the command with Chrome, after Lightpanda failed.
    Fallback { failure: String },
    /// The URL of the page after the command.
    FinalUrl { engine: String, output: String },
    /// The check of the host of that page.
    FinalHost { engine: String, output: String, url: String },
    /// The end of the command that closes a browser that went astray.
    Abort(ZeptoError),
    /// Nothing.
    Finished,
}

/// The contents of a [`Stage`].
pub enum StageView {
    /// See [`Stage::Target`].
    Target { location: LocationView, rest: Seq<Seq<char>> },
    /// See [`Stage::Resolve`].
    Resolve { rest: Seq<Seq<char>> },
    /// See [`Stage::CloseSession`].
    CloseSession,
    /// See [`Stage::Command`].
    Command { engine: Seq<char> },
    /// See [`Stage::Fallback`].
    Fallback { failure: Seq<char> },
    /// See [`Stage::FinalUrl`].
    FinalUrl { engine: Seq<char>, output: Seq<char> },
    /// See [`Stage::FinalHost`].
    FinalHost { engine: Seq<char>, output: Seq<char>, url: Seq<char> },
    /// See [`Stage::Abort`].
    Abort(ErrorView),
    /// See [`Stage::Finished`].
    Finished,
}

/// A call of the tool.
#[derive(Debug)]
pub struct BrowserRun {
    /// What was asked for.
    pub request: Request,
    /// What it waits for.
    pub stage: Stage,
}

/// The contents of a [`BrowserRun`].
pub struct RunView {
    /// See [`BrowserRun::request`].
    pub request: RequestView,
    /// See [`BrowserRun::stage`].
    pub stage: StageView,
}

/// What a run asks its caller to do.
#[derive(Debug)]
pub enum BrowserAction {
    /// Check that a target is allowed, by its scheme and host.
    CheckTarget(Location),
    /// Check that the host of a target resolves to allowed addresses only.
    ResolveHost(Location),
    /// Check whether the host of a page is blocked.
    CheckHost(Location),
    /// Run a command of the program.
    Run { command: String, args: Vec<String>, engine: String },
    /// Return.
    Finish(Result<ToolOutput, ZeptoError>),
}

/// The contents of a [`BrowserAction`].
pub enum ActionView {
    /// See [`BrowserAction::CheckTarget`].
    CheckTarget(LocationView),
    /// See [`BrowserAction::ResolveHost`].
    ResolveHost(LocationView),
    /// See [`BrowserAction::CheckHost`].
    CheckHost(LocationView),
    /// See [`BrowserAction::Run`].
    Run { command: Seq<char>, args: Seq<Seq<char>>, engine: Seq<char> },
    /// See [`BrowserAction::Finish`].
    Finish(Result<OutputView, ErrorView>),
}

/// What came of an action.
#[derive(Debug)]
pub enum BrowserEvent {
    /// Of [`BrowserAction::CheckTarget`].
    Target(Result<(), ZeptoError>),
    /// Of [`BrowserAction::ResolveHost`].
    Resolved(Result<(), ZeptoError>),
    /// Of [`BrowserAction::CheckHost`]: whether the host is blocked.
    Host(bool),
    /// Of [`BrowserAction::Run`].
    Ran(Result<String, ZeptoError>),
}

/// The contents of a [`BrowserEvent`].
pub enum EventView {
    /// See [`BrowserEvent::Target`].
    Target(Result<(), ErrorView>),
    /// See [`BrowserEvent::Resolved`].
    Resolved(Result<(), ErrorView>),
    /// See [`BrowserEvent::Host`].
    Host(bool),
    /// See [`BrowserEvent::Ran`].
    Ran(Result<Seq<char>, ErrorView>),
}

impl View for Stage {
    type V = StageView;

    open spec fn view(&self) -> StageView {
        match *self {
            Stage::Target { location, rest } => StageView::Target {
                location: location@,
                rest: texts(rest@),
            },
            Stage::Resolve { rest } => StageView::Resolve { rest: texts(rest@) },
            Stage::CloseSession => StageView::CloseSession,
            Stage::Command { engine } => StageView::Command { engine: engine@ },
            Stage::Fallback { failure } => StageView::Fallback { failure: failure@ },
            Stage::FinalUrl { engine, output } => {
                StageView::FinalUrl { engine: engine@, output: output@ }
            },
            Stage::FinalHost { engine, output, url } => {
                StageView::FinalHost { engine: engine@, output: output@, url: url@ }
            },
            Stage::Abort(e) => StageView::Abort(e@),
            Stage::Finished => StageView::Finished,
        }
    }
}

impl View for BrowserRun {
    type V = RunView;

    open spec fn view(&self) -> RunView {
        RunView { request: self.request@, stage: self.stage@ }
    }
}

impl View for BrowserAction {
    type V = ActionView;

    open spec fn view(&self) -> ActionView {
        match *self {
            BrowserAction::CheckTarget(url) => ActionView::CheckTarget(url@),
            BrowserAction::ResolveHost(url) => ActionView::ResolveHost(url@),
            BrowserAction::CheckHost(url) => ActionView::CheckHost(url@),
            BrowserAction::Run { command, args, engine } => {
                ActionView::Run { command: command@, args: texts(args@), engine: engine@ }
            },
            BrowserAction::Finish(r) => ActionView::Finish(result_view(r)),
        }
    }
}

impl View for BrowserEvent {
    type V = EventView;

    open spec fn view(&self) -> EventView {
        match *self {
            BrowserEvent::Target(r) => EventView::Target(outcome(r)),
            BrowserEvent::Resolved(r) => EventView::Resolved(outcome(r)),
            BrowserEvent::Host(blocked) => EventView::Host(blocked),
            BrowserEvent::Ran(r) => EventView::Ran(run_view(r)),
        }
    }
}

/// Whether an event is what a stage waits for.
pub open spec fn expects(stage: StageView, event: EventView) -> bool {
    match stage {
        StageView::Target { .. } => event is Target,
        StageView::Resolve { .. } => event is Resolved,
        StageView::FinalHost { .. } => event is Host,
        StageView::Finished => false,
        _ => event is Ran,
    }
}

/// What a run does: what it asks for, and what it then waits for.
pub struct Turn {
    /// What it waits for.
    pub stage: StageView,
    /// What it asks for.
    pub action: ActionView,
}

/// What a run does, and the engine that is in use from then on.
pub struct Move {
    /// The engine in use.
    pub engine: Seq<char>,
    /// What the run does.
    pub turn: Turn,
}

/// The run ends.
pub open spec fn finish(result: Result<OutputView, ErrorView>) -> Turn {
    Turn { stage: StageView::Finished, action: ActionView::Finish(result) }
}

/// The browser is closed before the run fails with an error.
pub open spec fn abort(engine: Seq<char>, error: ErrorView) -> Turn {
    Turn {
        stage: StageView::Abort(error),
        action: ActionView::Run { command: "close"@, args: seq![], engine },
    }
}

/// The command starts. Closing the browser is done with the engine in use;
/// anything else with the engine that is asked for, which then stays in use.
pub open spec fn launch(request: RequestView, active: Seq<char>) -> Move {
    if request.command == "close"@ {
        Move {
            engine: active,
            turn: Turn {
                stage: StageView::CloseSession,
                action: ActionView::Run { command: "close"@, args: seq![], engine: active },
            },
        }
    } else {
        let engine = match request.engine {
            Some(engine) => engine,
            None => active,
        };
        Move {
            engine,
            turn: Turn {
                stage: StageView::Command { engine },
                action: ActionView::Run {
                    command: request.command,
                    args: program_args(request.command, request.args),
                    engine,
                },
            },
        }
    }
}

/// The URL of a request, once parsed: a target to check, or an error.
pub open spec fn vetted(
    raw: Seq<char>,
    parse: Result<LocationView, Seq<char>>,
) -> Result<LocationView, ErrorView> {
    match parse {
        Ok(url) => Ok(url),
        Err(message) => Err(ErrorView::Tool("Invalid URL '"@ + raw + "': "@ + message)),
    }
}

/// What comes next while URLs are checked: the check of the next one, or the
/// command where all have passed.
pub open spec fn next_check(
    request: RequestView,
    urls: Seq<Seq<char>>,
    active: Seq<char>,
) -> Result<Move, ErrorView> {
    if urls.len() == 0 {
        Ok(launch(request, active))
    } else {
        match vetted(urls[0], parsed(urls[0])) {
            Ok(url) => Ok(
                Move {
                    engine: active,
                    turn: Turn {
                        stage: StageView::Target { location: url, rest: urls.drop_first() },
                        action: ActionView::CheckTarget(url),
                    },
                },
            ),
            Err(e) => Err(e),
        }
    }
}

/// How a request starts: with the check of its first URL, where it has any.
pub open spec fn opening(request: RequestView, active: Seq<char>) -> Result<Move, ErrorView> {
    if request.command == "open"@ && first_or_all(request.args).len() == 0 {
        Err(ErrorView::Tool("'"@ + request.command + "' command requires a URL argument"@))
    } else {
        next_check(request, urls_to_check(request), active)
    }
}

/// The command succeeded: the page that it led to is checked where the request
/// had a URL.
pub open spec fn after_command(
    request: RequestView,
    engine: Seq<char>,
    output: Seq<char>,
) -> Turn {
    if urls_to_check(request).len() > 0 {
        Turn {
            stage: StageView::FinalUrl { engine, output },
            action: ActionView::Run { command: "get"@, args: seq!["url"@], engine },
        }
    } else {
        finish(Ok(success(request, output)))
    }
}

/// The page that a command led to, by its URL: without one there is nothing to
/// check, and one that is no URL is refused.
pub open spec fn after_navigation(
    request: RequestView,
    engine: Seq<char>,
    output: Seq<char>,
    url: Seq<char>,
    parse: Result<LocationView, Seq<char>>,
) -> Turn {
    if url.len() == 0 {
        finish(Ok(success(request, output)))
    } else {
        match parse {
            Err(_) => abort(
                engine,
                ErrorView::SecurityViolation("Navigation resulted in unparseable URL: "@ + url),
            ),
            Ok(page) => Turn {
                stage: StageView::FinalHost { engine, output, url },
                action: ActionView::CheckHost(page),
            },
        }
    }
}

/// What a run does about an event that it waits for.
pub open spec fn reaction(tool: ToolView, run: RunView, event: EventView) -> Move {
    let request = run.request;
    let active = tool.active_engine;
    match (run.stage, event) {
        (StageView::Target { .. }, EventView::Target(Err(e))) => Move {
            engine: active,
            turn: finish(Err(e)),
        },
        (StageView::Target { location, rest }, EventView::Target(Ok(_))) => Move {
            engine: active,
            turn: Turn {
                stage: StageView::Resolve { rest },
                action: ActionView::ResolveHost(location),
            },
        },
        (StageView::Resolve { .. }, EventView::Resolved(Err(e))) => Move {
            engine: active,
            turn: finish(Err(e)),
        },
        (StageView::Resolve { rest }, EventView::Resolved(Ok(_))) => match next_check(
            request,
            rest,
            active,
        ) {
            Ok(m) => m,
            Err(e) => Move { engine: active, turn: finish(Err(e)) },
        },
        (StageView::CloseSession, EventView::Ran(Ok(output))) => Move {
            engine: tool.default_engine,
            turn: finish(Ok(for_model(output))),
        },
        (StageView::CloseSession, EventView::Ran(Err(e))) => Move {
            engine: active,
            turn: finish(Err(e)),
        },
        (StageView::Command { engine }, EventView::Ran(Ok(output))) => Move {
            engine: active,
            turn: after_command(request, engine, output),
        },
        (StageView::Command { engine }, EventView::Ran(Err(e))) => Move {
            engine: active,
            turn: if request.command == "open"@ && engine == "lightpanda"@ {
                Turn {
                    stage: StageView::Fallback { failure: error_text(e) },
                    action: ActionView::Run {
                        command: request.command,
                        args: program_args(request.command, request.args),
                        engine: "chrome"@,
                    },
                }
            } else {
                finish(Err(e))
            },
        },
        (StageView::Fallback { .. }, EventView::Ran(Ok(output))) => Move {
            engine: "chrome"@,
            turn: after_command(request, "chrome"@, output),
        },
        (StageView::Fallback { failure }, EventView::Ran(Err(e))) => Move {
            engine: active,
            turn: finish(
                Err(
                    ErrorView::Tool(
                        "Both engines failed. Lightpanda: "@ + failure + ". Chrome: "@
                            + error_text(e),
                    ),
                ),
            ),
        },
        (StageView::FinalUrl { engine, output }, EventView::Ran(Ok(text))) => Move {
            engine: active,
            turn: after_navigation(
                request,
                engine,
                output,
                trimmed(text),
                parsed(trimmed(text)),
            ),
        },
        (StageView::FinalUrl { .. }, EventView::Ran(Err(e))) => Move {
            engine: active,
            turn: finish(Err(e)),
        },
        (StageView::FinalHost { engine, output, url }, EventView::Host(blocked)) => Move {
            engine: active,
            turn: if blocked {
                abort(
                    engine,
                    ErrorView::SecurityViolation("Navigation redirected to blocked host: "@ + url),
                )
            } else {
                finish(Ok(success(request, output)))
            },
        },
        (StageView::Abort(e), EventView::Ran(_)) => Move { engine: active, turn: finish(Err(e)) },
        _ => arbitrary(),
    }
}

/// The URL of a request, once parsed: a target to check, or an error.
pub fn check_url(raw: &str, parse: Result<Location, String>) -> (r: Result<Location, ZeptoError>)
    ensures
        match vetted(raw@, parse_view(parse)) {
            Ok(url) => r is Ok && r->Ok_0@ == url,
            Err(e) => r is Err && r->Err_0@ == e,
        },
{
    match parse {
        Ok(url) => Ok(url),
        Err(detail) => {
            let mut message = "Invalid URL '".to_owned();
            message.append(raw);
            message.append("': ");
            message.append(detail.as_str());
            Err(ZeptoError::Tool(message))
        },
    }
}

fn close_command(engine: &str) -> (r: BrowserAction)
    ensures
        r@ == (ActionView::Run { command: "close"@, args: seq![], engine: engine@ }),
{
    let args: Vec<String> = Vec::new();
    assert(texts(args@) =~= seq![]);
    BrowserAction::Run { command: "close".to_owned(), args, engine: engine.to_owned() }
}

fn succeed(request: Request, output: String) -> (r: (BrowserRun, BrowserAction))
    ensures
        r.0@ == (RunView { request: request@, stage: StageView::Finished }),
        r.1@ == ActionView::Finish(Ok(success(request@, output@))),
{
    let line = BrowserTool::summarize_for_user(request.command.as_str(), request.args.as_str());
    let result = match line {
        Some(line) => ToolOutput::split(output, line),
        None => ToolOutput::llm_only(output),
    };
    (BrowserRun { request, stage: Stage::Finished }, BrowserAction::Finish(Ok(result)))
}

fn fail(request: Request, error: ZeptoError) -> (r: (BrowserRun, BrowserAction))
    ensures
        r.0@ == (RunView { request: request@, stage: StageView::Finished }),
        r.1@ == ActionView::Finish(Err(error@)),
{
    (BrowserRun { request, stage: Stage::Finished }, BrowserAction::Finish(Err(error)))
}

fn check_page(request: Request, has_url: bool, engine: String, output: String) -> (r: (
    BrowserRun,
    BrowserAction,
))
    requires
        has_url == (urls_to_check(request@).len() > 0),
    ensures
        ({
            let turn = after_command(request@, engine@, output@);
            &&& r.0@ == (RunView { request: request@, stage: turn.stage })
            &&& r.1@ == turn.action
        }),
{
    if has_url {
        let args = vec!["url".to_owned()];
        assert(texts(args@) =~= seq!["url"@]);
        let action = BrowserAction::Run {
            command: "get".to_owned(),
            args,
            engine: engine.as_str().to_owned(),
        };
        (BrowserRun { request, stage: Stage::FinalUrl { engine, output } }, action)
    } else {
        succeed(request, output)
    }
}

/// Goes on after a command led to a page, by the URL of that page.
pub fn check_final_url(
    request: Request,
    engine: String,
    output: String,
    url: String,
    parse: Result<Location, String>,
) -> (r: (BrowserRun, BrowserAction))
    ensures
        ({
            let turn = after_navigation(request@, engine@, output@, url@, parse_view(parse));
            &&& r.0@ == (RunView { request: request@, stage: turn.stage })
            &&& r.1@ == turn.action
        }),
{
    if url.as_str().is_empty() {
        return succeed(request, output);
    }
    match parse {
        Ok(page) => (
            BrowserRun { request, stage: Stage::FinalHost { engine, output, url } },
            BrowserAction::CheckHost(page),
        ),
        Err(_) => {
            let mut message = "Navigation resulted in unparseable URL: ".to_owned();
            message.append(url.as_str());
            let action = close_command(engine.as_str());
            let error = ZeptoError::SecurityViolation(message);
            (BrowserRun { request, stage: Stage::Abort(error) }, action)
        },
    }
}

/// The contents of a run that started, or of the error where it did not.
pub open spec fn start_view(
    r: Result<(BrowserRun, BrowserAction), ZeptoError>,
) -> Result<(RunView, ActionView), ErrorView> {
    match r {
        Ok((run, action)) => Ok((run@, action@)),
        Err(e) => Err(e@),
    }
}

impl BrowserTool {
    fn launch(&mut self, request: Request) -> (r: (BrowserRun, BrowserAction))
        ensures
            ({
                let m = launch(request@, old(self)@.active_engine);
                &&& final(self)@ == (ToolView { active_engine: m.engine, ..old(self)@ })
                &&& r.0@ == (RunView { request: request@, stage: m.turn.stage })
                &&& r.1@ == m.turn.action
            }),
    {
        if same_text(request.command.as_str(), "close") {
            let action = close_command(self.active_engine.as_str());
            return (BrowserRun { request, stage: Stage::CloseSession }, action);
        }
        if let Some(engine) = &request.engine {
            self.set_active_engine(engine.as_str());
        }
        let action = BrowserAction::Run {
            command: request.command.as_str().to_owned(),
            args: split_args(request.command.as_str(), request.args.as_str()),
            engine: self.get_active_engine(),
        };
        let engine = self.get_active_engine();
        (BrowserRun { request, stage: Stage::Command { engine } }, action)
    }

    /// Starts a run for a request.
    pub fn start_request(&mut self, request: Request) -> (r: Result<
        (BrowserRun, BrowserAction),
        ZeptoError,
    >)
        ensures
            match opening(request@, old(self)@.active_engine) {
                Ok(m) => {
                    &&& final(self)@ == (ToolView { active_engine: m.engine, ..old(self)@ })
                    &&& start_view(r) == Ok::<_, ErrorView>(
                        (RunView { request: request@, stage: m.turn.stage }, m.turn.action),
                    )
                },
                Err(e) => final(self)@ == old(self)@ && start_view(r) == Err::<
                    (RunView, ActionView),
                    _,
                >(e),
            },
    {
        let mut urls = find_urls(&request);
        if same_text(request.command.as_str(), "open") && take_first(
            request.args.as_str(),
        ).as_str().is_empty() {
            let mut message = "'".to_owned();
            message.append(request.command.as_str());
            message.append("' command requires a URL argument");
            return Err(ZeptoError::Tool(message));
        }
        match next_target(&mut urls) {
            None => Ok(self.launch(request)),
            Some(Ok(url)) => {
                let action = BrowserAction::CheckTarget(url.copy());
                Ok((BrowserRun { request, stage: Stage::Target { location: url, rest: urls } }, action))
            },
            Some(Err(e)) => Err(e),
        }
    }

    /// Starts a run for the arguments of a call.
    pub fn start(&mut self, args: &serde_json::Value) -> (r: Result<
        (BrowserRun, BrowserAction),
        ZeptoError,
    >)
        ensures
            match requested(
                text_member(*args, "command"@),
                text_member(*args, "args"@),
                text_member(*args, "engine"@),
            ) {
                Err(e) => final(self)@ == old(self)@ && start_view(r) == Err::<
                    (RunView, ActionView),
                    _,
                >(e),
                Ok(request) => match opening(request, old(self)@.active_engine) {
                    Ok(m) => {
                        &&& final(self)@ == (ToolView { active_engine: m.engine, ..old(self)@ })
                        &&& start_view(r) == Ok::<_, ErrorView>(
                            (RunView { request, stage: m.turn.stage }, m.turn.action),
                        )
                    },
                    Err(e) => final(self)@ == old(self)@ && start_view(r) == Err::<
                        (RunView, ActionView),
                        _,
                    >(e),
                },
            },
    {
        match read_request(args) {
            Ok(request) => self.start_request(request),
            Err(e) => Err(e),
        }
    }
}

fn find_urls(request: &Request) -> (r: Vec<String>)
    ensures
        texts(r@) == urls_to_check(request@),
{
    if same_text(request.command.as_str(), "open") {
        let r = vec![take_first(request.args.as_str())];
        assert(texts(r@) =~= seq![first_or_all(request@.args)]);
        r
    } else {
        find_links(request.args.as_str())
    }
}

/// Takes the next URL off the list: a target to check, or an error.
fn next_target(urls: &mut Vec<String>) -> (r: Option<Result<Location, ZeptoError>>)
    ensures
        texts(old(urls)@).len() == 0 ==> r is None && final(urls)@ == old(urls)@,
        texts(old(urls)@).len() > 0 ==> {
            let raw = texts(old(urls)@)[0];
            &&& texts(final(urls)@) == texts(old(urls)@).drop_first()
            &&& match vetted(raw, parsed(raw)) {
                Ok(url) => r matches Some(Ok(target)) && target@ == url,
                Err(e) => r matches Some(Err(error)) && error@ == e,
            }
        },
{
    if urls.len() == 0 {
        return None;
    }
    let raw = urls.remove(0);
    assert(texts(urls@) =~= texts(old(urls)@).drop_first());
    Some(check_url(raw.as_str(), parse_url(raw.as_str())))
}

impl BrowserRun {
    /// Goes on after the event that the run waits for.
    pub fn step(self, tool: &mut BrowserTool, event: BrowserEvent) -> (r: (
        BrowserRun,
        BrowserAction,
    ))
        requires
            expects(self@.stage, event@),
        ensures
            ({
                let m = reaction(old(tool)@, self@, event@);
                &&& final(tool)@ == (ToolView { active_engine: m.engine, ..old(tool)@ })
                &&& r.0@ == (RunView { request: self@.request, stage: m.turn.stage })
                &&& r.1@ == m.turn.action
            }),
    {
        let request = self.request;
        let has_url: bool = find_urls(&request).len() > 0;
        match self.stage {
            Stage::Target { location, rest } => match event {
                BrowserEvent::Target(Ok(())) => (
                    BrowserRun { request, stage: Stage::Resolve { rest } },
                    BrowserAction::ResolveHost(location),
                ),
                BrowserEvent::Target(Err(e)) => fail(request, e),
                _ => unreached(),
            },
            Stage::Resolve { mut rest } => match event {
                BrowserEvent::Resolved(Ok(())) => match next_target(&mut rest) {
                    None => tool.launch(request),
                    Some(Ok(url)) => {
                        let action = BrowserAction::CheckTarget(url.copy());
                        (BrowserRun { request, stage: Stage::Target { location: url, rest } }, action)
                    },
                    Some(Err(e)) => fail(request, e),
                },
                BrowserEvent::Resolved(Err(e)) => fail(request, e),
                _ => unreached(),
            },
            Stage::CloseSession => match event {
                BrowserEvent::Ran(Ok(output)) => {
                    let engine = tool.default_engine.as_str().to_owned();
                    tool.set_active_engine(engine.as_str());
                    let result = ToolOutput::llm_only(output);
                    (
                        BrowserRun { request, stage: Stage::Finished },
                        BrowserAction::Finish(Ok(result)),
                    )
                },
                BrowserEvent::Ran(Err(e)) => fail(request, e),
                _ => unreached(),
            },
            Stage::Command { engine } => match event {
                BrowserEvent::Ran(Ok(output)) => check_page(request, has_url, engine, output),
                BrowserEvent::Ran(Err(e)) => {
                    if same_text(request.command.as_str(), "open") && same_text(
                        engine.as_str(),
                        ENGINE_LIGHTPANDA,
                    ) {
                        let action = BrowserAction::Run {
                            command: request.command.as_str().to_owned(),
                            args: split_args(request.command.as_str(), request.args.as_str()),
                            engine: ENGINE_CHROME.to_owned(),
                        };
                        let failure = e.message().to_owned();
                        (BrowserRun { request, stage: Stage::Fallback { failure } }, action)
                    } else {
                        fail(request, e)
                    }
                },
                _ => unreached(),
            },
            Stage::Fallback { failure } => match event {
                BrowserEvent::Ran(Ok(output)) => {
                    tool.set_active_engine(ENGINE_CHROME);
                    check_page(request, has_url, ENGINE_CHROME.to_owned(), output)
                },
                BrowserEvent::Ran(Err(e)) => {
                    let mut message = "Both engines failed. Lightpanda: ".to_owned();
                    message.append(failure.as_str());
                    message.append(". Chrome: ");
                    message.append(e.message());
                    fail(request, ZeptoError::Tool(message))
                },
                _ => unreached(),
            },
            Stage::FinalUrl { engine, output } => match event {
                BrowserEvent::Ran(Ok(text)) => {
                    let url = trim(text.as_str());
                    let parse = parse_url(url.as_str());
                    check_final_url(request, engine, output, url, parse)
                },
                BrowserEvent::Ran(Err(e)) => fail(request, e),
                _ => unreached(),
            },
            Stage::FinalHost { engine, output, url } => match event {
                BrowserEvent::Host(true) => {
                    let mut message = "Navigation redirected to blocked host: ".to_owned();
                    message.append(url.as_str());
                    let action = close_command(engine.as_str());
                    let error = ZeptoError::SecurityViolation(message);
                    (BrowserRun { request, stage: Stage::Abort(error) }, action)
                },
                BrowserEvent::Host(false) => succeed(request, output),
                _ => unreached(),
            },
            Stage::Abort(e) => fail(request, e),
            Stage::Finished => unreached(),
        }
    }
}

// ---------------------------------------------------------------------------
// What holds of every run
// ---------------------------------------------------------------------------

/// How far a stage is from the end.
pub open spec fn distance(stage: StageView) -> nat {
    match stage {
        StageView::Target { rest, .. } => 7 + 2 * rest.len(),
        StageView::Resolve { rest } => 6 + 2 * rest.len(),
        StageView::Command { .. } => 5,
        StageView::Fallback { .. } => 4,
        StageView::FinalUrl { .. } => 3,
        StageView::FinalHost { .. } => 2,
        StageView::CloseSession => 1,
        StageView::Abort(_) => 1,
        StageView::Finished => 0,
    }
}

/// Every event brings a run nearer to its end, so a run takes at most two events
/// for each URL to check, and five more.
pub proof fn lemma_runs_end(
    tool: ToolView,
    request: RequestView,
    active: Seq<char>,
    run: RunView,
    event: EventView,
)
    requires
        expects(run.stage, event),
    ensures
        distance(reaction(tool, run, event).turn.stage) < distance(run.stage),
        opening(request, active) matches Ok(m) ==> distance(m.turn.stage) <= 5 + 2
            * urls_to_check(request).len(),
{
}

/// A run waits for nothing exactly when it has returned.
pub proof fn lemma_finish_is_last(tool: ToolView, run: RunView, event: EventView)
    requires
        expects(run.stage, event),
    ensures
        ({
            let turn = reaction(tool, run, event).turn;
            turn.stage == StageView::Finished <==> turn.action is Finish
        }),
{
}

/// The tool and the run after some events, each of which the run waited for.
pub open spec fn played(
    tool: ToolView,
    request: RequestView,
    events: Seq<EventView>,
) -> Option<(ToolView, Turn)>
    decreases events.len(),
{
    if events.len() == 0 {
        match opening(request, tool.active_engine) {
            Ok(m) => Some((ToolView { active_engine: m.engine, ..tool }, m.turn)),
            Err(_) => None,
        }
    } else {
        match played(tool, request, events.drop_last()) {
            None => None,
            Some((now, turn)) => if expects(turn.stage, events.last()) {
                let m = reaction(now, RunView { request, stage: turn.stage }, events.last());
                Some((ToolView { active_engine: m.engine, ..now }, m.turn))
            } else {
                None
            },
        }
    }
}

/// Whether a run has asked for both checks of the `k`-th URL, parsed, and was told
/// that it passed them.
pub open spec fn passed(
    tool: ToolView,
    request: RequestView,
    events: Seq<EventView>,
    k: int,
) -> bool {
    &&& 0 <= k < urls_to_check(request).len()
    &&& 2 * k + 1 < events.len()
    &&& parsed(urls_to_check(request)[k]) matches Ok(url) && {
        &&& played(tool, request, events.take(2 * k)) matches Some((_, turn)) && turn.action
            == ActionView::CheckTarget(url)
        &&& events[2 * k] matches EventView::Target(Ok(_))
        &&& played(tool, request, events.take(2 * k + 1)) matches Some((_, turn)) && turn.action
            == ActionView::ResolveHost(url)
        &&& events[2 * k + 1] matches EventView::Resolved(Ok(_))
    }
}

/// No command runs until every URL to check has been parsed, and its target and
/// what its host resolves to have been checked and allowed, one after the other.
pub proof fn lemma_checked_before_running(
    tool: ToolView,
    request: RequestView,
    events: Seq<EventView>,
)
    requires
        played(tool, request, events) matches Some((_, turn)) && turn.action is Run,
    ensures
        forall|k: int|
            0 <= k < urls_to_check(request).len() ==> #[trigger] passed(tool, request, events, k),
{
    lemma_checks_first(tool, request, events);
}

/// For a command other than `open`, no command runs until every word of the
/// arguments that looks like a URL has been parsed and has passed both checks.
pub proof fn lemma_every_link_is_checked(
    tool: ToolView,
    request: RequestView,
    events: Seq<EventView>,
    i: int,
)
    requires
        request.command != "open"@,
        0 <= i < words(request.args).len(),
        "http://"@.is_prefix_of(words(request.args)[i]) || "https://"@.is_prefix_of(
            words(request.args)[i],
        ),
        played(tool, request, events) matches Some((_, turn)) && turn.action is Run,
    ensures
        exists|k: int| #[trigger]
            passed(tool, request, events, k) && urls_to_check(request)[k] == words(
                request.args,
            )[i],
{
    let all = words(request.args);
    all.lemma_filter_contains(|w: Seq<char>| is_link(w), i);
    let k = choose|k: int| 0 <= k < links(all).len() && links(all)[k] == all[i];
    lemma_checked_before_running(tool, request, events);
    assert(passed(tool, request, events, k));
}

/// What a run has been through, by its stage.
proof fn lemma_checks_first(tool: ToolView, request: RequestView, events: Seq<EventView>)
    requires
        played(tool, request, events) is Some,
    ensures
        ({
            let (_, turn) = played(tool, request, events).unwrap();
            let urls = urls_to_check(request);
            match turn.stage {
                StageView::Target { location, rest } => {
                    let k = urls.len() - 1 - rest.len();
                    &&& 0 <= k
                    &&& rest == urls.skip(k + 1)
                    &&& events.len() == 2 * k
                    &&& parsed(urls[k]) == Ok::<_, Seq<char>>(location)
                    &&& turn.action == ActionView::CheckTarget(location)
                    &&& forall|j: int| 0 <= j < k ==> #[trigger] passed(tool, request, events, j)
                },
                StageView::Resolve { rest } => {
                    let k = urls.len() - 1 - rest.len();
                    &&& 0 <= k
                    &&& rest == urls.skip(k + 1)
                    &&& events.len() == 2 * k + 1
                    &&& parsed(urls[k]) matches Ok(url) && {
                        &&& played(tool, request, events.take(2 * k)) matches Some((_, before))
                            && before.action == ActionView::CheckTarget(url)
                        &&& turn.action == ActionView::ResolveHost(url)
                    }
                    &&& events[2 * k] matches EventView::Target(Ok(_))
                    &&& forall|j: int| 0 <= j < k ==> #[trigger] passed(tool, request, events, j)
                },
                StageView::Finished => turn.action is Finish,
                _ => forall|j: int|
                    0 <= j < urls.len() ==> #[trigger] passed(tool, request, events, j),
            }
        }),
    decreases events.len(),
{
    let urls = urls_to_check(request);
    if events.len() == 0 {
        assert(urls.len() > 0 ==> urls.drop_first() =~= urls.skip(1));
    } else {
        let before = events.drop_last();
        lemma_checks_first(tool, request, before);
        let (_, turn) = played(tool, request, before).unwrap();
        assert forall|j: int| passed(tool, request, before, j) implies #[trigger] passed(
            tool,
            request,
            events,
            j,
        ) by {
            assert(before.take(2 * j) =~= events.take(2 * j));
            assert(before.take(2 * j + 1) =~= events.take(2 * j + 1));
            assert(before[2 * j] == events[2 * j]);
            assert(before[2 * j + 1] == events[2 * j + 1]);
        }
        match turn.stage {
            StageView::Target { rest, .. } => {
                let k = urls.len() - 1 - rest.len();
                assert(events.take(2 * k) =~= before);
                assert(events[2 * k] == events.last());
            },
            StageView::Resolve { rest } => {
                let k = urls.len() - 1 - rest.len();
                assert(before.take(2 * k) =~= events.take(2 * k));
                assert(events.take(2 * k + 1) =~= before);
                assert(before[2 * k] == events[2 * k]);
                assert(events[2 * k + 1] == events.last());
                if events.last() matches EventView::Resolved(Ok(_)) {
                    assert(passed(tool, request, events, k));
                    if rest.len() > 0 {
                        assert(rest[0] == urls[k + 1]);
                        assert(rest.drop_first() =~= urls.skip(k + 2));
                    }
                }
            },
            _ => {},
        }
    }
}

/// A request with a URL, other than one to close the browser, succeeds only
/// where the page that the command led to has no URL or an allowed host.
pub proof fn lemma_success_is_checked(tool: ToolView, run: RunView, event: EventView)
    requires
        expects(run.stage, event),
        urls_to_check(run.request).len() > 0,
        run.stage != StageView::CloseSession,
        reaction(tool, run, event).turn.action matches ActionView::Finish(Ok(_)),
    ensures
        match run.stage {
            StageView::FinalUrl { .. } => event matches EventView::Ran(Ok(text)) && trimmed(
                text,
            ).len() == 0,
            StageView::FinalHost { .. } => event == EventView::Host(false),
            _ => false,
        },
{
}

/// A page on a blocked host, or one whose URL cannot be read, makes the run
/// close the browser and then fail, whatever comes of closing it.
pub proof fn lemma_astray_is_refused(
    tool: ToolView,
    run: RunView,
    event: EventView,
    closed: EventView,
)
    requires
        expects(run.stage, event),
        reaction(tool, run, event).turn.stage is Abort,
        closed is Ran,
    ensures
        ({
            let m = reaction(tool, run, event);
            let next = reaction(
                ToolView { active_engine: m.engine, ..tool },
                RunView { request: run.request, stage: m.turn.stage },
                closed,
            );
            &&& m.turn.action matches ActionView::Run { command, .. } && command == "close"@
            &&& next.turn.action matches ActionView::Finish(
                Err(ErrorView::SecurityViolation(_)),
            )
        }),
{
}

/// Closing the browser goes back to the default engine where it succeeds, and
/// leaves the engine in use where it fails.
pub proof fn lemma_close_resets(
    tool: ToolView,
    request: RequestView,
    result: Result<Seq<char>, ErrorView>,
)
    requires
        request.command == "close"@,
        urls_to_check(request).len() == 0,
    ensures
        ({
            let end = played(tool, request, seq![EventView::Ran(result)]);
            match result {
                Ok(output) => end == Some(
                    (
                        ToolView { active_engine: tool.default_engine, ..tool },
                        finish(Ok(for_model(output))),
                    ),
                ),
                Err(e) => end == Some((tool, finish(Err(e)))),
            }
        }),
{
    let events = seq![EventView::Ran(result)];
    assert(events.drop_last() =~= seq![]);
    assert(events.last() == EventView::Ran(result));
    reveal_with_fuel(played, 2);
}

/// An engine that is asked for is the one that runs the command and stays in
/// use; where none is asked for, the engine in use runs the command.
pub proof fn lemma_engine_stays(request: RequestView, active: Seq<char>)
    requires
        request.command != "close"@,
    ensures
        ({
            let m = launch(request, active);
            let engine = match request.engine {
                Some(engine) => engine,
                None => active,
            };
            &&& m.engine == engine
            &&& m.turn.action == (ActionView::Run {
                command: request.command,
                args: program_args(request.command, request.args),
                engine,
            })
        }),
{
}

/// Chrome takes over exactly where Lightpanda fails to open a page. Where it
/// succeeds it stays in use, and where it fails too both failures are told.
pub proof fn lemma_fallback(tool: ToolView, run: RunView, event: EventView)
    requires
        expects(run.stage, event),
    ensures
        reaction(tool, run, event).turn.stage is Fallback <==> {
            &&& run.stage == (StageView::Command { engine: "lightpanda"@ })
            &&& run.request.command == "open"@
            &&& event matches EventView::Ran(Err(_))
        },
        run.stage is Fallback && (event matches EventView::Ran(Ok(_))) ==> reaction(
            tool,
            run,
            event,
        ).engine == "chrome"@,
        run.stage is Fallback && (event matches EventView::Ran(Err(_))) ==> {
            let m = reaction(tool, run, event);
            &&& m.engine == tool.active_engine
            &&& m.turn.action matches ActionView::Finish(Err(ErrorView::Tool(_)))
        },
{
}

// ---------------------------------------------------------------------------
// What the program is given
// ---------------------------------------------------------------------------

/// For every command but the four that take a text, the arguments of the program
/// are the words of the given text, in order: none is empty or holds white space;
/// white space parts the arguments before it from those after it; and a text
/// without any is one argument.
pub proof fn lemma_arguments_are_words(
    command: Seq<char>,
    a: Seq<char>,
    c: char,
    b: Seq<char>,
    w: Seq<char>,
)
    requires
        command != "fill"@,
        command != "type"@,
        command != "keyboard"@,
        command != "eval"@,
        is_white_space(c),
        w.len() > 0,
        forall|i: int| 0 <= i < w.len() ==> !is_white_space(#[trigger] w[i]),
    ensures
        program_args(command, Seq::empty()).len() == 0,
        program_args(command, w) == seq![w],
        program_args(command, a + seq![c] + b) == program_args(command, a) + program_args(
            command,
            b,
        ),
        forall|i: int|
            0 <= i < program_args(command, a).len() ==> (#[trigger] program_args(
                command,
                a,
            )[i]).len() > 0,
        forall|i: int, k: int|
            0 <= i < program_args(command, a).len() && 0 <= k < program_args(command, a)[i].len()
                ==> !is_white_space(#[trigger] program_args(command, a)[i][k]),
{
    lemma_words_apart(a, c, b);
    lemma_word_alone(w);
    lemma_words_are_words(a);
    let none = Seq::<char>::empty();
    assert(a.len() == 0 ==> a =~= none);
    assert(b.len() == 0 ==> b =~= none);
    assert(program_args(command, a) =~= words(a));
    assert(program_args(command, b) =~= words(b));
}

/// `fill`, `type` and `keyboard` take a word and a text: what is before the first
/// white space, and what is after it without the white space that the text starts
/// with. Without white space there is the word only.
pub proof fn lemma_word_and_text(
    command: Seq<char>,
    w: Seq<char>,
    c: char,
    gap: Seq<char>,
    t: Seq<char>,
)
    requires
        command == "fill"@ || command == "type"@ || command == "keyboard"@,
        forall|i: int| 0 <= i < w.len() ==> !is_white_space(#[trigger] w[i]),
        is_white_space(c),
        forall|i: int| 0 <= i < gap.len() ==> is_white_space(#[trigger] gap[i]),
        t.len() > 0 ==> !is_white_space(t[0]),
    ensures
        program_args(command, w + seq![c] + gap + t) == seq![w, t],
        w.len() > 0 ==> program_args(command, w) == seq![w],
        program_args(command, Seq::empty()).len() == 0,
{
    let s = w + seq![c] + gap + t;
    assert(s[w.len() as int] == c);
    lemma_word_len_is(s, w.len() as int);
    assert(s.take(w.len() as int) =~= w);
    assert(s.skip(w.len() as int + 1) =~= gap + t);
    lemma_trimmed_start(gap, t);
    if w.len() > 0 {
        lemma_word_alone(w);
    }
}

/// `eval` takes the whole text, as it is.
pub proof fn lemma_whole_text(args: Seq<char>)
    ensures
        args.len() > 0 ==> program_args("eval"@, args) == seq![args],
        args.len() == 0 ==> program_args("eval"@, args).len() == 0,
{
    reveal_strlit("eval");
    reveal_strlit("fill");
    reveal_strlit("type");
    reveal_strlit("keyboard");
    assert("eval"@[0] != "fill"@[0]);
    assert("eval"@[0] != "type"@[0]);
    assert("eval"@.len() != "keyboard"@.len());
}

/// The first word of a text is what stands between the white space that it starts
/// with and the next; a text of white space only is taken whole.
pub proof fn lemma_first_word(gap: Seq<char>, w: Seq<char>, c: char, rest: Seq<char>)
    requires
        forall|i: int| 0 <= i < gap.len() ==> is_white_space(#[trigger] gap[i]),
        w.len() > 0,
        forall|i: int| 0 <= i < w.len() ==> !is_white_space(#[trigger] w[i]),
        is_white_space(c),
    ensures
        first_or_all(gap + w) == w,
        first_or_all(gap + w + seq![c] + rest) == w,
        first_or_all(gap) == gap,
    decreases gap.len(),
{
    let none = Seq::<char>::empty();
    lemma_word_alone(w);
    if gap.len() == 0 {
        assert(gap + w =~= w);
        assert(gap =~= none);
        lemma_words_apart(w, c, rest);
    } else {
        let less = gap.drop_first();
        lemma_first_word(less, w, c, rest);
        assert((gap + w).drop_first() =~= less + w);
        assert((gap + w + seq![c] + rest).drop_first() =~= less + w + seq![c] + rest);
        assert(words(gap) == words(less));
        lemma_no_words(gap);
        lemma_words_apart(less + w, c, rest);
        lemma_words_apart(none, gap[0], less + w);
        assert(none + seq![gap[0]] + (less + w) =~= gap + w);
    }
}

/// White space holds no word.
proof fn lemma_no_words(gap: Seq<char>)
    requires
        forall|i: int| 0 <= i < gap.len() ==> is_white_space(#[trigger] gap[i]),
    ensures
        words(gap).len() == 0,
    decreases gap.len(),
{
    if gap.len() > 0 {
        lemma_no_words(gap.drop_first());
    }
}

/// What the user is told: which page is opened, by its first word; that a picture
/// was taken; and else nothing.
pub proof fn lemma_summary(command: Seq<char>, args: Seq<char>)
    ensures
        summary("open"@, args) == Some("Browsing "@ + first_or_all(args)),
        summary("screenshot"@, args) == Some("Screenshot captured"@),
        command != "open"@ && command != "screenshot"@ ==> summary(command, args) is None,
{
    reveal_strlit("open");
    reveal_strlit("screenshot");
    assert("open"@.len() != "screenshot"@.len());
}

/// Which URLs are checked: for `open` its first word; for another command, in
/// order, the words that start with `http://` or `https://`, so that none is
/// checked where no word does.
pub proof fn lemma_what_is_checked(request: RequestView)
    ensures
        request.command == "open"@ ==> urls_to_check(request) == seq![first_or_all(request.args)],
        request.command != "open"@ ==> urls_to_check(request) == words(request.args).filter(
            |w: Seq<char>| "http://"@.is_prefix_of(w) || "https://"@.is_prefix_of(w),
        ),
        request.command != "open"@ && (forall|i: int|
            0 <= i < words(request.args).len() ==> !"http://"@.is_prefix_of(
                #[trigger] words(request.args)[i],
            ) && !"https://"@.is_prefix_of(words(request.args)[i])) ==> urls_to_check(
            request,
        ).len() == 0,
{
    let all = words(request.args);
    let direct = |w: Seq<char>| "http://"@.is_prefix_of(w) || "https://"@.is_prefix_of(w);
    assert(direct =~= (|w: Seq<char>| is_link(w)));
    if request.command != "open"@ && urls_to_check(request).len() > 0 {
        let found = all.filter(direct);
        all.lemma_filter_pred(direct, 0);
        assert(found.contains(found[0]));
        all.lemma_filter_contains_rev(direct, found[0]);
    }
}

// ---------------------------------------------------------------------------
// What a whole run does
// ---------------------------------------------------------------------------

/// The engine that a request is run with first: the one that it asks for, or the
/// one in use.
pub open spec fn chosen_engine(tool: ToolView, request: RequestView) -> Seq<char> {
    match request.engine {
        Some(engine) => engine,
        None => tool.active_engine,
    }
}

/// Whether an engine is one that a run may come to use: the chosen one or, for a
/// page that Lightpanda was to open, Chrome.
pub open spec fn may_use(tool: ToolView, request: RequestView, engine: Seq<char>) -> bool {
    ||| engine == chosen_engine(tool, request)
    ||| engine == "chrome"@ && request.command == "open"@ && chosen_engine(tool, request)
        == "lightpanda"@
}

/// Whether the command of a request was run and gave this output.
pub open spec fn gave(
    tool: ToolView,
    request: RequestView,
    events: Seq<EventView>,
    output: Seq<char>,
) -> bool {
    exists|j: int|
        {
            &&& 0 <= j < events.len()
            &&& #[trigger] events[j] == EventView::Ran(Ok(output))
            &&& played(tool, request, events.take(j)) matches Some((_, turn))
                && turn.action matches ActionView::Run { command, .. } && command
                == request.command
        }
}

/// What a run asks the program to do. The requested command, with its arguments, by
/// the chosen engine, or by Chrome for a page that Lightpanda failed to open. `close`
/// without arguments, by the engine in use. And `get url`, by the engine that ran the
/// command, where there was a URL to check. Nothing else.
pub proof fn lemma_asks_for(tool: ToolView, request: RequestView, events: Seq<EventView>)
    requires
        played(tool, request, events) is Some,
    ensures
        ({
            let (now, turn) = played(tool, request, events).unwrap();
            turn.action matches ActionView::Run { command, args, engine } ==> {
                ||| {
                    &&& request.command != "close"@
                    &&& command == request.command
                    &&& args == program_args(request.command, request.args)
                    &&& may_use(tool, request, engine)
                }
                ||| command == "close"@ && args.len() == 0 && engine == now.active_engine
                ||| {
                    &&& command == "get"@
                    &&& args == seq!["url"@]
                    &&& engine == now.active_engine
                    &&& request.command != "close"@
                    &&& urls_to_check(request).len() > 0
                }
            }
        }),
{
    lemma_stages(tool, request, events);
}

/// A run that succeeds tells the model what the command wrote, and nothing else; the
/// user is told the summary of the command, but of closing the browser nothing.
pub proof fn lemma_success_is_output(
    tool: ToolView,
    request: RequestView,
    events: Seq<EventView>,
    result: OutputView,
)
    requires
        played(tool, request, events) matches Some((_, turn)) && turn.action
            == ActionView::Finish(Ok(result)),
    ensures
        gave(tool, request, events, result.for_llm),
        result.media is None,
        result.for_user == if request.command == "close"@ {
            None
        } else {
            summary(request.command, request.args)
        },
{
    lemma_stages(tool, request, events);
}

/// The engine in use changes only in three ways: to the chosen engine when a command
/// other than `close` runs, to Chrome when it opened a page in place of Lightpanda,
/// and back to the default when the browser was closed on request.
pub proof fn lemma_engine_in_use(tool: ToolView, request: RequestView, events: Seq<EventView>)
    requires
        played(tool, request, events) is Some,
    ensures
        ({
            let (now, turn) = played(tool, request, events).unwrap();
            &&& now.default_engine == tool.default_engine
            &&& now.executable == tool.executable
            &&& now.timeout_secs == tool.timeout_secs
            &&& request.command != "close"@ ==> now.active_engine == tool.active_engine || may_use(
                tool,
                request,
                now.active_engine,
            )
            &&& request.command == "close"@ ==> now.active_engine == tool.active_engine || {
                &&& now.active_engine == tool.default_engine
                &&& turn.action matches ActionView::Finish(Ok(_))
            }
            &&& turn.action matches ActionView::Finish(Ok(_)) ==> if request.command == "close"@ {
                now.active_engine == tool.default_engine
            } else {
                may_use(tool, request, now.active_engine)
            }
        }),
{
    lemma_stages(tool, request, events);
}

/// More events do not undo what a command gave.
proof fn lemma_gave_before(
    tool: ToolView,
    request: RequestView,
    events: Seq<EventView>,
    output: Seq<char>,
)
    requires
        events.len() > 0,
        gave(tool, request, events.drop_last(), output),
    ensures
        gave(tool, request, events, output),
{
    let before = events.drop_last();
    let j = choose|j: int|
        {
            &&& 0 <= j < before.len()
            &&& #[trigger] before[j] == EventView::Ran(Ok(output))
            &&& played(tool, request, before.take(j)) matches Some((_, turn))
                && turn.action matches ActionView::Run { command, .. } && command
                == request.command
        };
    assert(before.take(j) =~= events.take(j));
    assert(events[j] == before[j]);
}

/// What holds of a run, by its stage.
proof fn lemma_stages(tool: ToolView, request: RequestView, events: Seq<EventView>)
    requires
        played(tool, request, events) is Some,
    ensures
        ({
            let (now, turn) = played(tool, request, events).unwrap();
            let chosen = chosen_engine(tool, request);
            let asks = |engine: Seq<char>|
                ActionView::Run {
                    command: request.command,
                    args: program_args(request.command, request.args),
                    engine,
                };
            &&& now.default_engine == tool.default_engine
            &&& now.executable == tool.executable
            &&& now.timeout_secs == tool.timeout_secs
            &&& match turn.stage {
                StageView::Target { .. } => {
                    &&& now.active_engine == tool.active_engine
                    &&& turn.action is CheckTarget
                },
                StageView::Resolve { .. } => {
                    &&& now.active_engine == tool.active_engine
                    &&& turn.action is ResolveHost
                },
                StageView::Command { engine } => {
                    &&& request.command != "close"@
                    &&& engine == chosen
                    &&& now.active_engine == chosen
                    &&& turn.action == asks(chosen)
                },
                StageView::Fallback { .. } => {
                    &&& request.command != "close"@
                    &&& request.command == "open"@
                    &&& chosen == "lightpanda"@
                    &&& now.active_engine == chosen
                    &&& turn.action == asks("chrome"@)
                },
                StageView::FinalUrl { engine, output } => {
                    &&& request.command != "close"@
                    &&& urls_to_check(request).len() > 0
                    &&& may_use(tool, request, engine)
                    &&& now.active_engine == engine
                    &&& gave(tool, request, events, output)
                    &&& turn.action == (ActionView::Run {
                        command: "get"@,
                        args: seq!["url"@],
                        engine,
                    })
                },
                StageView::FinalHost { engine, output, .. } => {
                    &&& request.command != "close"@
                    &&& may_use(tool, request, engine)
                    &&& now.active_engine == engine
                    &&& gave(tool, request, events, output)
                    &&& turn.action is CheckHost
                },
                StageView::CloseSession => {
                    &&& request.command == "close"@
                    &&& now.active_engine == tool.active_engine
                    &&& turn.action == (ActionView::Run {
                        command: "close"@,
                        args: seq![],
                        engine: tool.active_engine,
                    })
                },
                StageView::Abort(_) => {
                    &&& request.command != "close"@
                    &&& may_use(tool, request, now.active_engine)
                    &&& turn.action == (ActionView::Run {
                        command: "close"@,
                        args: seq![],
                        engine: now.active_engine,
                    })
                },
                StageView::Finished => {
                    &&& turn.action is Finish
                    &&& turn.action matches ActionView::Finish(Ok(result)) ==> {
                        &&& gave(tool, request, events, result.for_llm)
                        &&& result.media is None
                        &&& if request.command == "close"@ {
                            now.active_engine == tool.default_engine && result.for_user is None
                        } else {
                            may_use(tool, request, now.active_engine) && result.for_user == summary(
                                request.command,
                                request.args,
                            )
                        }
                    }
                    &&& turn.action matches ActionView::Finish(Err(_)) ==> now.active_engine
                        == tool.active_engine || (request.command != "close"@ && may_use(
                        tool,
                        request,
                        now.active_engine,
                    ))
                },
            }
        }),
    decreases events.len(),
{
    if events.len() > 0 {
        let before = events.drop_last();
        lemma_stages(tool, request, before);
        let (now, turn) = played(tool, request, before).unwrap();
        let event = events.last();
        let j = events.len() - 1;
        assert(events.take(j) =~= before);
        assert(events[j] == event);
        if let EventView::Ran(Ok(output)) = event {
            if turn.stage is Command || turn.stage is Fallback || turn.stage is CloseSession {
                assert(gave(tool, request, events, output));
            }
        }
        match turn.stage {
            StageView::FinalUrl { output, .. } => {
                lemma_gave_before(tool, request, events, output);
            },
            StageView::FinalHost { output, .. } => {
                lemma_gave_before(tool, request, events, output);
            },
            _ => {},
        }
    }
}

/// Why a run fails. A refused check and a failed command fail the run with their own
/// error, but for a page that Lightpanda failed to open; where Chrome fails to open
/// it too, both errors are told. A page that cannot be read or whose host is blocked
/// is named.
pub proof fn lemma_errors_are_told(tool: ToolView, run: RunView, event: EventView)
    requires
        expects(run.stage, event),
    ensures
        ({
            let turn = reaction(tool, run, event).turn;
            match event {
                EventView::Target(Err(e)) => turn.action == ActionView::Finish(Err(e)),
                EventView::Resolved(Err(e)) => turn.action == ActionView::Finish(Err(e)),
                EventView::Ran(Err(e)) => match run.stage {
                    StageView::Command { engine } => (run.request.command == "open"@ && engine
                        == "lightpanda"@) || turn.action == ActionView::Finish(Err(e)),
                    StageView::Fallback { failure } => turn.action == ActionView::Finish(
                        Err(
                            ErrorView::Tool(
                                "Both engines failed. Lightpanda: "@ + failure + ". Chrome: "@
                                    + error_text(e),
                            ),
                        ),
                    ),
                    StageView::Abort(reason) => turn.action == ActionView::Finish(Err(reason)),
                    _ => turn.action == ActionView::Finish(Err(e)),
                },
                _ => true,
            }
        }),
        (reaction(tool, run, event).turn.stage matches StageView::Fallback { failure }) ==> (
        event matches EventView::Ran(Err(e)) && error_text(e)
            == reaction(tool, run, event).turn.stage->Fallback_failure),
        reaction(tool, run, event).turn.stage matches StageView::Abort(reason) ==> {
            ||| {
                &&& run.stage matches StageView::FinalHost { url, .. }
                &&& event == EventView::Host(true)
                &&& reason == ErrorView::SecurityViolation(
                    "Navigation redirected to blocked host: "@ + url,
                )
            }
            ||| {
                &&& run.stage is FinalUrl
                &&& event matches EventView::Ran(Ok(text))
                &&& parsed(trimmed(text)) is Err
                &&& reason == ErrorView::SecurityViolation(
                    "Navigation resulted in unparseable URL: "@ + trimmed(text),
                )
            }
        },
        event == EventView::Host(true) ==> reaction(tool, run, event).turn.stage is Abort,
{
}

/// What is checked of the page that a command led to: its URL, without white space
/// around it, where it has one.
pub proof fn lemma_page_is_checked(tool: ToolView, run: RunView, text: Seq<char>)
    requires
        run.stage is FinalUrl,
    ensures
        ({
            let turn = reaction(tool, run, EventView::Ran(Ok(text))).turn;
            &&& trimmed(text).len() > 0 && parsed(trimmed(text)) is Ok ==> turn.action
                == ActionView::CheckHost(parsed(trimmed(text))->Ok_0)
            &&& trimmed(text).len() > 0 && parsed(trimmed(text)) is Err ==> turn.stage is Abort
            &&& trimmed(text).len() == 0 ==> turn.action matches ActionView::Finish(Ok(_))
        }),
{
}

/// What a command that ended gives: what it wrote, as it is, where it succeeded; and
/// else an error with what it wrote as errors, or at all where there are none,
/// without white space around it.
pub proof fn lemma_exit(
    command: Seq<char>,
    stdout: Seq<char>,
    stderr: Seq<char>,
)
    ensures
        exit_outcome(command, true, stdout, stderr) == Ok::<_, ErrorView>(stdout),
        stderr.len() > 0 ==> exit_outcome(command, false, stdout, stderr) == Err::<Seq<char>, _>(
            ErrorView::Tool("agent-browser "@ + command + " failed: "@ + trimmed(stderr)),
        ),
        stderr.len() == 0 ==> exit_outcome(command, false, stdout, stderr) == Err::<Seq<char>, _>(
            ErrorView::Tool("agent-browser "@ + command + " failed: "@ + trimmed(stdout)),
        ),
{
}

/// What is told where the program did not run to its end: that it is missing, why it
/// did not start, or after how many seconds it was given up.
pub proof fn lemma_program_did_not_run(tool: ToolView, command: Seq<char>, detail: Seq<char>)
    ensures
        run_outcome(tool, command, ReportView::NotFound) matches Err(ErrorView::Tool(m)) && (
        "'"@ + tool.executable + "' not found."@).is_prefix_of(m),
        run_outcome(tool, command, ReportView::Failed(detail)) == Err::<Seq<char>, _>(
            ErrorView::Tool("Failed to run agent-browser: "@ + detail),
        ),
        run_outcome(tool, command, ReportView::TimedOut) == Err::<Seq<char>, _>(
            ErrorView::Tool(
                "Browser command '"@ + command + "' timed out after "@ + decimal(
                    tool.timeout_secs as nat,
                ) + "s"@,
            ),
        ),
{
    reveal_strlit("'");
    reveal_strlit("' not found.");
    reveal_strlit(
        "' not found. Install it with:\n  npm install -g agent-browser   # or: brew install agent-browser\n  agent-browser install           # downloads Chrome\nFor LightPanda (optional, faster): see https://agent-browser.dev/engines/lightpanda",
    );
    let m = "'"@ + tool.executable
        + "' not found. Install it with:\n  npm install -g agent-browser   # or: brew install agent-browser\n  agent-browser install           # downloads Chrome\nFor LightPanda (optional, faster): see https://agent-browser.dev/engines/lightpanda"@;
    let start = "'"@ + tool.executable + "' not found."@;
    assert(start =~= m.take(start.len() as int));
}

/// What a call asks for is what its arguments say: a command is needed, the text of
/// its arguments is empty where none is given, and the engine is the one that is
/// given, if any.
pub proof fn lemma_request(
    command: Option<Seq<char>>,
    args: Option<Seq<char>>,
    engine: Option<Seq<char>>,
)
    ensures
        requested(command, args, engine) is Ok <==> command is Some,
        requested(command, args, engine) matches Ok(request) ==> {
            &&& command == Some(request.command)
            &&& args == Some(request.args) || (args is None && request.args.len() == 0)
            &&& engine == request.engine
        },
{
}

/// How a request starts. `open` needs an argument. The first URL to check has to be
/// one, and is checked; without any, the command runs at once.
pub proof fn lemma_opening(tool: ToolView, request: RequestView)
    ensures
        ({
            let urls = urls_to_check(request);
            let start = opening(request, tool.active_engine);
            if request.command == "open"@ && request.args.len() == 0 {
                start == Err::<Move, _>(
                    ErrorView::Tool("'"@ + "open"@ + "' command requires a URL argument"@),
                )
            } else if urls.len() == 0 {
                &&& start matches Ok(m)
                &&& m.turn.action matches ActionView::Run { command, .. }
                &&& command == request.command
            } else {
                match parsed(urls[0]) {
                    Ok(url) => start matches Ok(m) && m.turn.action == ActionView::CheckTarget(url)
                        && m.engine == tool.active_engine,
                    Err(message) => start == Err::<Move, _>(
                        ErrorView::Tool("Invalid URL '"@ + urls[0] + "': "@ + message),
                    ),
                }
            }
        }),
{
    let args = request.args;
    assert(args.len() == 0 ==> words(args).len() == 0);
    lemma_words_are_words(args);
    if words(args).len() > 0 {
        assert(words(args)[0].len() > 0);
    }
}

/// How a run goes on where nothing goes wrong: a target that may be reached is looked
/// up; after that the next URL is checked, or the command runs where there is none;
/// Chrome runs it again where Lightpanda failed to open a page; where a URL was checked
/// the page is asked for its URL, and else the run succeeds; and it succeeds where that
/// page may be reached.
pub proof fn lemma_run_goes_on(tool: ToolView, run: RunView, event: EventView)
    requires
        expects(run.stage, event),
    ensures
        ({
            let request = run.request;
            let m = reaction(tool, run, event);
            let action = m.turn.action;
            match (run.stage, event) {
                (StageView::Target { location, .. }, EventView::Target(Ok(_))) => action
                    == ActionView::ResolveHost(location),
                (StageView::Resolve { rest }, EventView::Resolved(Ok(_))) => if rest.len() == 0 {
                    action matches ActionView::Run { command, args, engine } && {
                        &&& command == request.command
                        &&& if command == "close"@ {
                            args.len() == 0 && engine == tool.active_engine
                        } else {
                            &&& args == program_args(request.command, request.args)
                            &&& engine == chosen_engine(tool, request)
                        }
                    }
                } else {
                    match parsed(rest[0]) {
                        Ok(url) => action == ActionView::CheckTarget(url),
                        Err(message) => action == ActionView::Finish(
                            Err(ErrorView::Tool("Invalid URL '"@ + rest[0] + "': "@ + message)),
                        ),
                    }
                },
                (StageView::Command { engine }, EventView::Ran(Err(_))) => request.command
                    == "open"@ && engine == "lightpanda"@ ==> action == (ActionView::Run {
                    command: "open"@,
                    args: program_args("open"@, request.args),
                    engine: "chrome"@,
                }),
                (StageView::Command { engine }, EventView::Ran(Ok(output))) => if urls_to_check(
                    request,
                ).len() > 0 {
                    action == (ActionView::Run { command: "get"@, args: seq!["url"@], engine })
                } else {
                    action matches ActionView::Finish(Ok(result)) && result.for_llm == output
                },
                (StageView::Fallback { .. }, EventView::Ran(Ok(_))) => action == (
                ActionView::Run { command: "get"@, args: seq!["url"@], engine: "chrome"@ })
                    || request.command != "open"@,
                (StageView::FinalHost { output, .. }, EventView::Host(false)) => {
                    action matches ActionView::Finish(Ok(result)) && result.for_llm == output
                },
                (StageView::CloseSession, EventView::Ran(Ok(output))) => {
                    action matches ActionView::Finish(Ok(result)) && result.for_llm == output
                },
                _ => true,
            }
        }),
{
}

} // verus!
