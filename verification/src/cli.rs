//! Command lines: what `kite` runs, and the options of `kite-pdf render`.
use crate::json::{parsed_json, Json, JsonView};
use crate::pdf::scale_view;
use crate::request::{Margin, RenderRequest, Scale};
use crate::text::{debug, debug_text, opt_text, same, texts};
use vstd::prelude::*;

verus! {

/// Address of the tool endpoint, unless configured otherwise.
pub const DEFAULT_HTTP_BIND: &'static str = "0.0.0.0:8090";

// -- kite ------------------------------------------------------------------------------
/// What `kite` runs.
#[derive(Clone, Copy, Debug, PartialEq, Eq, Structural)]
pub enum Mode {
    /// Download a browser and exit.
    Install,
    /// Serve one session over standard input and output.
    Stdio,
    /// Serve over HTTP.
    Http,
}

/// What `kite` runs, given its arguments: `install` only as the first one; `stdio` anywhere or
/// by the environment; HTTP otherwise.
pub open spec fn mode_of(args: Seq<Seq<char>>, stdio_var: bool) -> Mode {
    if args.len() > 0 && args[0] == "install"@ {
        Mode::Install
    } else if args.contains("--stdio"@) || args.contains("stdio"@) || stdio_var {
        Mode::Stdio
    } else {
        Mode::Http
    }
}

/// What `kite` runs.
pub fn mode(args: &Vec<String>, stdio_var: bool) -> (res: Mode)
    ensures
        res == mode_of(texts(args@), stdio_var),
{
    assert(args@.len() > 0 ==> texts(args@)[0] == args@[0]@);
    if args.len() > 0 && same(args[0].as_str(), "install") {
        return Mode::Install;
    }
    for i in 0..args.len()
        invariant
            args@.len() > 0 ==> texts(args@)[0] != "install"@,
            forall|k: int|
                0 <= k < i ==> texts(args@)[k] != "--stdio"@ && #[trigger] texts(args@)[k]
                    != "stdio"@,
    {
        assert(texts(args@)[i as int] == args@[i as int]@);
        if same(args[i].as_str(), "--stdio") || same(args[i].as_str(), "stdio") {
            return Mode::Stdio;
        }
    }
    if stdio_var {
        Mode::Stdio
    } else {
        Mode::Http
    }
}

// -- kite-pdf ------------------------------------------------------------------------------
/// What `kite-pdf` runs.
pub enum Command {
    Help,
    Render,
    Serve,
    /// Not a subcommand.
    Unknown(String),
}

/// What `kite-pdf` runs; without arguments it serves.
pub fn command(first: Option<&str>) -> (res: Command)
    ensures
        match first {
            None => res is Serve,
            Some(a) => if a@ == "-h"@ || a@ == "--help"@ {
                res is Help
            } else if a@ == "render"@ {
                res is Render
            } else if a@ == "serve"@ {
                res is Serve
            } else {
                res matches Command::Unknown(e) && e@ == "unknown subcommand "@ + debug_text(a@)
            },
        },
{
    let a = match first {
        Some(a) => a,
        None => {
            return Command::Serve;
        },
    };
    if same(a, "-h") || same(a, "--help") {
        Command::Help
    } else if same(a, "render") {
        Command::Render
    } else if same(a, "serve") {
        Command::Serve
    } else {
        let mut e = "unknown subcommand ".to_owned();
        let d = debug(a);
        e.append(d.as_str());
        Command::Unknown(e)
    }
}

/// An option of `kite-pdf render`.
#[derive(Clone, Copy, Debug, PartialEq, Eq, Structural)]
pub enum Flag {
    HtmlFile,
    Html,
    Url,
    Template,
    Data,
    HeaderFile,
    FooterFile,
    DisplayHeaderFooter,
    PrintBackground,
    Landscape,
    Engine,
    Format,
    ScaleFactor,
    MarginTop,
    MarginBottom,
    MarginLeft,
    MarginRight,
    Output,
    Help,
    Unknown,
}

/// The option that an argument names.
pub open spec fn flag_of(arg: Seq<char>) -> Flag {
    if arg == "--html-file"@ {
        Flag::HtmlFile
    } else if arg == "--html"@ {
        Flag::Html
    } else if arg == "--url"@ {
        Flag::Url
    } else if arg == "--template"@ {
        Flag::Template
    } else if arg == "--data"@ {
        Flag::Data
    } else if arg == "--header-file"@ {
        Flag::HeaderFile
    } else if arg == "--footer-file"@ {
        Flag::FooterFile
    } else if arg == "--display-header-footer"@ {
        Flag::DisplayHeaderFooter
    } else if arg == "--print-background"@ {
        Flag::PrintBackground
    } else if arg == "--landscape"@ {
        Flag::Landscape
    } else if arg == "--engine"@ {
        Flag::Engine
    } else if arg == "--format"@ {
        Flag::Format
    } else if arg == "--scale"@ {
        Flag::ScaleFactor
    } else if arg == "--margin-top"@ {
        Flag::MarginTop
    } else if arg == "--margin-bottom"@ {
        Flag::MarginBottom
    } else if arg == "--margin-left"@ {
        Flag::MarginLeft
    } else if arg == "--margin-right"@ {
        Flag::MarginRight
    } else if arg == "-o"@ || arg == "--output"@ {
        Flag::Output
    } else if arg == "-h"@ || arg == "--help"@ {
        Flag::Help
    } else {
        Flag::Unknown
    }
}

fn parse_flag(arg: &str) -> (res: Flag)
    ensures
        res == flag_of(arg@),
{
    if same(arg, "--html-file") {
        Flag::HtmlFile
    } else if same(arg, "--html") {
        Flag::Html
    } else if same(arg, "--url") {
        Flag::Url
    } else if same(arg, "--template") {
        Flag::Template
    } else if same(arg, "--data") {
        Flag::Data
    } else if same(arg, "--header-file") {
        Flag::HeaderFile
    } else if same(arg, "--footer-file") {
        Flag::FooterFile
    } else if same(arg, "--display-header-footer") {
        Flag::DisplayHeaderFooter
    } else if same(arg, "--print-background") {
        Flag::PrintBackground
    } else if same(arg, "--landscape") {
        Flag::Landscape
    } else if same(arg, "--engine") {
        Flag::Engine
    } else if same(arg, "--format") {
        Flag::Format
    } else if same(arg, "--scale") {
        Flag::ScaleFactor
    } else if same(arg, "--margin-top") {
        Flag::MarginTop
    } else if same(arg, "--margin-bottom") {
        Flag::MarginBottom
    } else if same(arg, "--margin-left") {
        Flag::MarginLeft
    } else if same(arg, "--margin-right") {
        Flag::MarginRight
    } else if same(arg, "-o") || same(arg, "--output") {
        Flag::Output
    } else if same(arg, "-h") || same(arg, "--help") {
        Flag::Help
    } else {
        Flag::Unknown
    }
}

/// Options that stand alone.
pub open spec fn is_switch(f: Flag) -> bool {
    f == Flag::DisplayHeaderFooter || f == Flag::PrintBackground || f == Flag::Landscape
}

/// Options whose value is taken as it stands.
pub open spec fn takes_text(f: Flag) -> bool {
    f == Flag::Html || f == Flag::Url || f == Flag::Engine || f == Flag::Format || f
        == Flag::MarginTop || f == Flag::MarginBottom || f == Flag::MarginLeft || f
        == Flag::MarginRight || f == Flag::Output
}

/// Options whose value names a file.
pub open spec fn takes_file(f: Flag) -> bool {
    f == Flag::HtmlFile || f == Flag::Template || f == Flag::Data || f == Flag::HeaderFile || f
        == Flag::FooterFile
}

/// The name under which an option's missing value is reported.
pub open spec fn flag_name(f: Flag) -> Seq<char> {
    match f {
        Flag::HtmlFile => "--html-file"@,
        Flag::Html => "--html"@,
        Flag::Url => "--url"@,
        Flag::Template => "--template"@,
        Flag::Data => "--data"@,
        Flag::HeaderFile => "--header-file"@,
        Flag::FooterFile => "--footer-file"@,
        Flag::Engine => "--engine"@,
        Flag::Format => "--format"@,
        Flag::ScaleFactor => "--scale"@,
        Flag::MarginTop => "--margin-top"@,
        Flag::MarginBottom => "--margin-bottom"@,
        Flag::MarginLeft => "--margin-left"@,
        Flag::MarginRight => "--margin-right"@,
        _ => "--output"@,
    }
}

fn name_of(f: Flag) -> (res: &'static str)
    ensures
        res@ == flag_name(f),
{
    match f {
        Flag::HtmlFile => "--html-file",
        Flag::Html => "--html",
        Flag::Url => "--url",
        Flag::Template => "--template",
        Flag::Data => "--data",
        Flag::HeaderFile => "--header-file",
        Flag::FooterFile => "--footer-file",
        Flag::Engine => "--engine",
        Flag::Format => "--format",
        Flag::ScaleFactor => "--scale",
        Flag::MarginTop => "--margin-top",
        Flag::MarginBottom => "--margin-bottom",
        Flag::MarginLeft => "--margin-left",
        Flag::MarginRight => "--margin-right",
        _ => "--output",
    }
}

/// The options read so far.
pub struct RenderArgs {
    pub req: RenderRequest,
    pub margin: Margin,
    pub output: Option<String>,
}

/// The model of the options read so far.
pub struct ArgsView {
    pub engine: Option<Seq<char>>,
    pub html: Option<Seq<char>>,
    pub url: Option<Seq<char>>,
    pub template: Option<Seq<char>>,
    pub data: Option<JsonView>,
    pub format: Option<Seq<char>>,
    pub landscape: bool,
    pub print_background: bool,
    pub display_header_footer: bool,
    pub header_template: Option<Seq<char>>,
    pub footer_template: Option<Seq<char>>,
    pub scale: Option<(u64, Seq<char>)>,
    pub top: Option<Seq<char>>,
    pub bottom: Option<Seq<char>>,
    pub left: Option<Seq<char>>,
    pub right: Option<Seq<char>>,
    pub output: Option<Seq<char>>,
}

impl RenderArgs {
    pub open spec fn view(self) -> ArgsView {
        ArgsView {
            engine: opt_text(self.req.engine),
            html: opt_text(self.req.html),
            url: opt_text(self.req.url),
            template: opt_text(self.req.template),
            data: match self.req.data {
                Some(d) => Some(d@),
                None => None,
            },
            format: opt_text(self.req.format),
            landscape: self.req.landscape,
            print_background: self.req.print_background,
            display_header_footer: self.req.display_header_footer,
            header_template: opt_text(self.req.header_template),
            footer_template: opt_text(self.req.footer_template),
            scale: scale_view(self.req.scale),
            top: opt_text(self.margin.top),
            bottom: opt_text(self.margin.bottom),
            left: opt_text(self.margin.left),
            right: opt_text(self.margin.right),
            output: opt_text(self.output),
        }
    }

    /// What the command line cannot set.
    pub open spec fn wf(self) -> bool {
        self.req.margin is None && !self.req.prefer_css_page_size
    }
}

/// Nothing is read yet.
pub open spec fn no_args() -> ArgsView {
    ArgsView {
        engine: None,
        html: None,
        url: None,
        template: None,
        data: None,
        format: None,
        landscape: false,
        print_background: false,
        display_header_footer: false,
        header_template: None,
        footer_template: None,
        scale: None,
        top: None,
        bottom: None,
        left: None,
        right: None,
        output: None,
    }
}

/// The options with a switch set.
pub open spec fn switched(a: ArgsView, f: Flag) -> ArgsView {
    match f {
        Flag::DisplayHeaderFooter => ArgsView { display_header_footer: true, ..a },
        Flag::PrintBackground => ArgsView { print_background: true, ..a },
        Flag::Landscape => ArgsView { landscape: true, ..a },
        _ => a,
    }
}

/// The options with a text value set.
pub open spec fn with_text(a: ArgsView, f: Flag, v: Seq<char>) -> ArgsView {
    match f {
        Flag::Html => ArgsView { html: Some(v), ..a },
        Flag::Url => ArgsView { url: Some(v), ..a },
        Flag::Engine => ArgsView { engine: Some(v), ..a },
        Flag::Format => ArgsView { format: Some(v), ..a },
        Flag::MarginTop => ArgsView { top: Some(v), ..a },
        Flag::MarginBottom => ArgsView { bottom: Some(v), ..a },
        Flag::MarginLeft => ArgsView { left: Some(v), ..a },
        Flag::MarginRight => ArgsView { right: Some(v), ..a },
        Flag::Output => ArgsView { output: Some(v), ..a },
        _ => a,
    }
}

/// The options with a file's contents set. A header or footer turns the templates on.
pub open spec fn with_file(a: ArgsView, f: Flag, text: Seq<char>) -> ArgsView {
    match f {
        Flag::HtmlFile => ArgsView { html: Some(text), ..a },
        Flag::Template => ArgsView { template: Some(text), ..a },
        Flag::HeaderFile => ArgsView {
            header_template: Some(text),
            display_header_footer: true,
            ..a
        },
        Flag::FooterFile => ArgsView {
            footer_template: Some(text),
            display_header_footer: true,
            ..a
        },
        _ => a,
    }
}

/// What reading an option comes to.
pub enum ArgStep {
    /// Go on at this position.
    Next(usize),
    /// Read a file for the option, then go on.
    ReadFile { flag: Flag, path: String, next: usize },
    /// Read a number, then go on.
    ReadScale { text: String, next: usize },
    Help,
    Fail(String),
}

impl RenderArgs {
    /// Nothing is read yet.
    pub fn new() -> (res: RenderArgs)
        ensures
            res.wf(),
            res@ == no_args(),
    {
        RenderArgs { req: RenderRequest::empty(), margin: Margin::none(), output: None }
    }

    fn set_switch(&mut self, f: Flag)
        requires
            old(self).wf(),
        ensures
            final(self).wf(),
            final(self)@ == switched(old(self)@, f),
    {
        match f {
            Flag::DisplayHeaderFooter => {
                self.req.display_header_footer = true;
            },
            Flag::PrintBackground => {
                self.req.print_background = true;
            },
            Flag::Landscape => {
                self.req.landscape = true;
            },
            _ => {},
        }
    }

    fn set_text(&mut self, f: Flag, v: String)
        requires
            old(self).wf(),
        ensures
            final(self).wf(),
            final(self)@ == with_text(old(self)@, f, v@),
    {
        match f {
            Flag::Html => {
                self.req.html = Some(v);
            },
            Flag::Url => {
                self.req.url = Some(v);
            },
            Flag::Engine => {
                self.req.engine = Some(v);
            },
            Flag::Format => {
                self.req.format = Some(v);
            },
            Flag::MarginTop => {
                self.margin.top = Some(v);
            },
            Flag::MarginBottom => {
                self.margin.bottom = Some(v);
            },
            Flag::MarginLeft => {
                self.margin.left = Some(v);
            },
            Flag::MarginRight => {
                self.margin.right = Some(v);
            },
            Flag::Output => {
                self.output = Some(v);
            },
            _ => {},
        }
    }

    /// Records the contents of a file that an option named.
    pub fn file_read(&mut self, f: Flag, text: String)
        requires
            old(self).wf(),
        ensures
            final(self).wf(),
            final(self)@ == with_file(old(self)@, f, text@),
    {
        match f {
            Flag::HtmlFile => {
                self.req.html = Some(text);
            },
            Flag::Template => {
                self.req.template = Some(text);
            },
            Flag::HeaderFile => {
                self.req.header_template = Some(text);
                self.req.display_header_footer = true;
            },
            Flag::FooterFile => {
                self.req.footer_template = Some(text);
                self.req.display_header_footer = true;
            },
            _ => {},
        }
    }

    /// Sets the data that a template reads.
    pub fn set_data(&mut self, data: Json)
        requires
            old(self).wf(),
        ensures
            final(self).wf(),
            final(self)@ == (ArgsView { data: Some(data@), ..old(self)@ }),
    {
        self.req.data = Some(data);
    }

    /// Records the contents of the data file, which must be JSON.
    pub fn data_read(&mut self, text: &str) -> (res: Result<(), String>)
        requires
            old(self).wf(),
        ensures
            final(self).wf(),
            match parsed_json(text@) {
                Ok(data) => res is Ok && final(self)@ == (ArgsView {
                    data: Some(data),
                    ..old(self)@
                }),
                Err(e) => res is Err && res->Err_0@ == "--data file is not valid JSON: "@ + e
                    && final(self)@ == old(self)@,
            },
    {
        match Json::parse(text) {
            Ok(data) => {
                self.set_data(data);
                Ok(())
            },
            Err(e) => {
                let mut message = "--data file is not valid JSON: ".to_owned();
                message.append(e.as_str());
                Err(message)
            },
        }
    }

    /// Records the scale.
    pub fn scale_read(&mut self, scale: Scale)
        requires
            old(self).wf(),
        ensures
            final(self).wf(),
            final(self)@ == (ArgsView { scale: Some((scale.bits, scale.text@)), ..old(self)@ }),
    {
        self.req.scale = Some(scale);
    }

    /// Reads the option at position `i`.
    pub fn step(&mut self, args: &Vec<String>, i: usize) -> (res: ArgStep)
        requires
            old(self).wf(),
            i < args@.len(),
        ensures
            final(self).wf(),
            ({
                let f = flag_of(args@[i as int]@);
                let value = if i + 1 < args@.len() {
                    Some(args@[i + 1]@)
                } else {
                    None
                };
                if f == Flag::Help {
                    res is Help && final(self)@ == old(self)@
                } else if f == Flag::Unknown {
                    &&& res is Fail
                    &&& res->Fail_0@ == "unknown render option "@ + debug_text(args@[i as int]@)
                        + " (try --help)"@
                    &&& final(self)@ == old(self)@
                } else if is_switch(f) {
                    &&& res == ArgStep::Next((i + 1) as usize)
                    &&& final(self)@ == switched(old(self)@, f)
                } else if value is None {
                    &&& res is Fail
                    &&& res->Fail_0@ == "missing value for "@ + flag_name(f)
                    &&& final(self)@ == old(self)@
                } else if takes_text(f) {
                    &&& res == ArgStep::Next((i + 2) as usize)
                    &&& final(self)@ == with_text(old(self)@, f, value.unwrap())
                } else if f == Flag::ScaleFactor {
                    &&& res matches ArgStep::ReadScale { text, next }
                    &&& text@ == value.unwrap()
                    &&& next == i + 2
                    &&& final(self)@ == old(self)@
                } else {
                    &&& takes_file(f)
                    &&& res matches ArgStep::ReadFile { flag, path, next }
                    &&& flag == f
                    &&& path@ == value.unwrap()
                    &&& next == i + 2
                    &&& final(self)@ == old(self)@
                }
            }),
    {
        let total: usize = args.len();
        let f = parse_flag(args[i].as_str());
        match f {
            Flag::Help => {
                return ArgStep::Help;
            },
            Flag::Unknown => {
                let mut e = "unknown render option ".to_owned();
                let d = debug(args[i].as_str());
                e.append(d.as_str());
                e.append(" (try --help)");
                return ArgStep::Fail(e);
            },
            Flag::DisplayHeaderFooter | Flag::PrintBackground | Flag::Landscape => {
                self.set_switch(f);
                return ArgStep::Next(i + 1);
            },
            _ => {},
        }
        if i + 1 >= total {
            let mut e = "missing value for ".to_owned();
            e.append(name_of(f));
            return ArgStep::Fail(e);
        }
        let next: usize = i + 1;
        let value = args[next].clone();
        match f {
            Flag::ScaleFactor => ArgStep::ReadScale { text: value, next: next + 1 },
            Flag::HtmlFile | Flag::Template | Flag::Data | Flag::HeaderFile | Flag::FooterFile => ArgStep::ReadFile {
                flag: f,
                path: value,
                next: next + 1,
            },
            _ => {
                self.set_text(f, value);
                ArgStep::Next(next + 1)
            },
        }
    }

    /// Ends the reading: the request with its margins, and the output path, which must be
    /// there.
    pub fn run_render(self) -> (res: Result<(RenderRequest, String), String>)
        requires
            self.wf(),
        ensures
            match self@.output {
                None => res is Err && res->Err_0@
                    == "missing -o/--output (path to the PDF to write)"@,
                Some(o) => {
                    &&& res is Ok
                    &&& res->Ok_0.1@ == o
                    &&& (RenderArgs { req: res->Ok_0.0, margin: self.margin, output: self.output })@
                        == self@
                    &&& !res->Ok_0.0.prefer_css_page_size
                    &&& if self@.top is None && self@.bottom is None && self@.left is None
                        && self@.right is None {
                        res->Ok_0.0.margin is None
                    } else {
                        res->Ok_0.0.margin == Some(self.margin)
                    }
                },
            },
    {
        let mut req = self.req;
        let margin = self.margin;
        if margin.top.is_some() || margin.bottom.is_some() || margin.left.is_some()
            || margin.right.is_some() {
            req.margin = Some(margin);
        }
        match self.output {
            Some(o) => Ok((req, o)),
            None => Err("missing -o/--output (path to the PDF to write)".to_owned()),
        }
    }
}

// -- laws ------------------------------------------------------------------------------
/// The names of the options.
pub proof fn law_option_names(arg: Seq<char>)
    ensures
        flag_of("--html-file"@) == Flag::HtmlFile,
        flag_of("--html"@) == Flag::Html,
        flag_of("--url"@) == Flag::Url,
        flag_of("--template"@) == Flag::Template,
        flag_of("--data"@) == Flag::Data,
        flag_of("--header-file"@) == Flag::HeaderFile,
        flag_of("--footer-file"@) == Flag::FooterFile,
        flag_of("--display-header-footer"@) == Flag::DisplayHeaderFooter,
        flag_of("--print-background"@) == Flag::PrintBackground,
        flag_of("--landscape"@) == Flag::Landscape,
        flag_of("--engine"@) == Flag::Engine,
        flag_of("--format"@) == Flag::Format,
        flag_of("--scale"@) == Flag::ScaleFactor,
        flag_of("--margin-top"@) == Flag::MarginTop,
        flag_of("--margin-bottom"@) == Flag::MarginBottom,
        flag_of("--margin-left"@) == Flag::MarginLeft,
        flag_of("--margin-right"@) == Flag::MarginRight,
        flag_of("-o"@) == Flag::Output,
        flag_of("--output"@) == Flag::Output,
        flag_of("-h"@) == Flag::Help,
        flag_of("--help"@) == Flag::Help,
        arg != "--html-file"@ && arg != "--html"@ && arg != "--url"@ && arg != "--template"@ && arg != "--data"@ && arg != "--header-file"@ && arg != "--footer-file"@ && arg != "--display-header-footer"@ && arg != "--print-background"@ && arg != "--landscape"@ && arg != "--engine"@ && arg != "--format"@ && arg != "--scale"@ && arg != "--margin-top"@ && arg != "--margin-bottom"@ && arg != "--margin-left"@ && arg != "--margin-right"@ && arg != "-o"@ && arg != "--output"@ && arg != "-h"@ && arg != "--help"@ ==> flag_of(arg) == Flag::Unknown,
{
    reveal_strlit("--html-file");
    reveal_strlit("--html");
    reveal_strlit("--url");
    reveal_strlit("--template");
    reveal_strlit("--data");
    reveal_strlit("--header-file");
    reveal_strlit("--footer-file");
    reveal_strlit("--display-header-footer");
    reveal_strlit("--print-background");
    reveal_strlit("--landscape");
    reveal_strlit("--engine");
    reveal_strlit("--format");
    reveal_strlit("--scale");
    reveal_strlit("--margin-top");
    reveal_strlit("--margin-bottom");
    reveal_strlit("--margin-left");
    reveal_strlit("--margin-right");
    reveal_strlit("-o");
    reveal_strlit("--output");
    reveal_strlit("-h");
    reveal_strlit("--help");
    assert("--html-file"@.len() == 11 && "--html-file"@[1] == '-' && "--html-file"@[2] == 'h' && "--html-file"@[3] == 't' && "--html-file"@[9] == 'l');
    assert("--html"@.len() == 6 && "--html"@[1] == '-' && "--html"@[2] == 'h' && "--html"@[3] == 't');
    assert("--url"@.len() == 5 && "--url"@[1] == '-' && "--url"@[2] == 'u' && "--url"@[3] == 'r');
    assert("--template"@.len() == 10 && "--template"@[1] == '-' && "--template"@[2] == 't' && "--template"@[3] == 'e' && "--template"@[9] == 'e');
    assert("--data"@.len() == 6 && "--data"@[1] == '-' && "--data"@[2] == 'd' && "--data"@[3] == 'a');
    assert("--header-file"@.len() == 13 && "--header-file"@[1] == '-' && "--header-file"@[2] == 'h' && "--header-file"@[3] == 'e' && "--header-file"@[9] == 'f');
    assert("--footer-file"@.len() == 13 && "--footer-file"@[1] == '-' && "--footer-file"@[2] == 'f' && "--footer-file"@[3] == 'o' && "--footer-file"@[9] == 'f');
    assert("--display-header-footer"@.len() == 23 && "--display-header-footer"@[1] == '-' && "--display-header-footer"@[2] == 'd' && "--display-header-footer"@[3] == 'i' && "--display-header-footer"@[9] == '-');
    assert("--print-background"@.len() == 18 && "--print-background"@[1] == '-' && "--print-background"@[2] == 'p' && "--print-background"@[3] == 'r' && "--print-background"@[9] == 'a');
    assert("--landscape"@.len() == 11 && "--landscape"@[1] == '-' && "--landscape"@[2] == 'l' && "--landscape"@[3] == 'a' && "--landscape"@[9] == 'p');
    assert("--engine"@.len() == 8 && "--engine"@[1] == '-' && "--engine"@[2] == 'e' && "--engine"@[3] == 'n');
    assert("--format"@.len() == 8 && "--format"@[1] == '-' && "--format"@[2] == 'f' && "--format"@[3] == 'o');
    assert("--scale"@.len() == 7 && "--scale"@[1] == '-' && "--scale"@[2] == 's' && "--scale"@[3] == 'c');
    assert("--margin-top"@.len() == 12 && "--margin-top"@[1] == '-' && "--margin-top"@[2] == 'm' && "--margin-top"@[3] == 'a' && "--margin-top"@[9] == 't');
    assert("--margin-bottom"@.len() == 15 && "--margin-bottom"@[1] == '-' && "--margin-bottom"@[2] == 'm' && "--margin-bottom"@[3] == 'a' && "--margin-bottom"@[9] == 'b');
    assert("--margin-left"@.len() == 13 && "--margin-left"@[1] == '-' && "--margin-left"@[2] == 'm' && "--margin-left"@[3] == 'a' && "--margin-left"@[9] == 'l');
    assert("--margin-right"@.len() == 14 && "--margin-right"@[1] == '-' && "--margin-right"@[2] == 'm' && "--margin-right"@[3] == 'a' && "--margin-right"@[9] == 'r');
    assert("-o"@.len() == 2 && "-o"@[1] == 'o');
    assert("--output"@.len() == 8 && "--output"@[1] == '-' && "--output"@[2] == 'o' && "--output"@[3] == 'u');
    assert("-h"@.len() == 2 && "-h"@[1] == 'h');
    assert("--help"@.len() == 6 && "--help"@[1] == '-' && "--help"@[2] == 'h' && "--help"@[3] == 'e');
}

/// Every option sets its own field and leaves the others alone: a text as it is given, the
/// contents of a file, or a switch. A header or footer turns the templates on.
pub proof fn law_options_set_their_own_field(a: ArgsView, v: Seq<char>)
    ensures
        with_text(a, Flag::Html, v) == (ArgsView { html: Some(v), ..a }),
        with_text(a, Flag::Url, v) == (ArgsView { url: Some(v), ..a }),
        with_text(a, Flag::Engine, v) == (ArgsView { engine: Some(v), ..a }),
        with_text(a, Flag::Format, v) == (ArgsView { format: Some(v), ..a }),
        with_text(a, Flag::MarginTop, v) == (ArgsView { top: Some(v), ..a }),
        with_text(a, Flag::MarginBottom, v) == (ArgsView { bottom: Some(v), ..a }),
        with_text(a, Flag::MarginLeft, v) == (ArgsView { left: Some(v), ..a }),
        with_text(a, Flag::MarginRight, v) == (ArgsView { right: Some(v), ..a }),
        with_text(a, Flag::Output, v) == (ArgsView { output: Some(v), ..a }),
        with_file(a, Flag::HtmlFile, v) == (ArgsView { html: Some(v), ..a }),
        with_file(a, Flag::Template, v) == (ArgsView { template: Some(v), ..a }),
        with_file(a, Flag::HeaderFile, v) == (ArgsView {
            header_template: Some(v),
            display_header_footer: true,
            ..a
        }),
        with_file(a, Flag::FooterFile, v) == (ArgsView {
            footer_template: Some(v),
            display_header_footer: true,
            ..a
        }),
        switched(a, Flag::DisplayHeaderFooter) == (ArgsView { display_header_footer: true, ..a }),
        switched(a, Flag::PrintBackground) == (ArgsView { print_background: true, ..a }),
        switched(a, Flag::Landscape) == (ArgsView { landscape: true, ..a }),
{
}

/// The model of the options is their fields.
pub proof fn law_options_are_their_fields(r: RenderArgs)
    ensures
        r@.engine == opt_text(r.req.engine),
        r@.html == opt_text(r.req.html),
        r@.url == opt_text(r.req.url),
        r@.template == opt_text(r.req.template),
        r.req.data matches Some(d) ==> r@.data == Some(d@),
        r.req.data is None ==> r@.data is None,
        r@.format == opt_text(r.req.format),
        r@.landscape == r.req.landscape,
        r@.print_background == r.req.print_background,
        r@.display_header_footer == r.req.display_header_footer,
        r@.header_template == opt_text(r.req.header_template),
        r@.footer_template == opt_text(r.req.footer_template),
        r.req.scale matches Some(s) ==> r@.scale == Some((s.bits, s.text@)),
        r.req.scale is None ==> r@.scale is None,
        r@.top == opt_text(r.margin.top),
        r@.bottom == opt_text(r.margin.bottom),
        r@.left == opt_text(r.margin.left),
        r@.right == opt_text(r.margin.right),
        r@.output == opt_text(r.output),
{
}

/// How an option takes its value: three stand alone, nine take it as it stands, five name a
/// file, one is a number; each is named as it is written where its value is missing.
pub proof fn law_kinds_of_options(f: Flag)
    ensures
        is_switch(f) <==> f == Flag::DisplayHeaderFooter || f == Flag::PrintBackground || f
            == Flag::Landscape,
        takes_text(f) <==> f == Flag::Html || f == Flag::Url || f == Flag::Engine || f
            == Flag::Format || f == Flag::MarginTop || f == Flag::MarginBottom || f
            == Flag::MarginLeft || f == Flag::MarginRight || f == Flag::Output,
        takes_file(f) <==> f == Flag::HtmlFile || f == Flag::Template || f == Flag::Data || f
            == Flag::HeaderFile || f == Flag::FooterFile,
        takes_text(f) || takes_file(f) || f == Flag::ScaleFactor ==> flag_of(flag_name(f)) == f,
{
    law_option_names(Seq::empty());
}

/// Nothing is set before the first option.
pub proof fn law_no_option_is_set()
    ensures
        ({
            let a = no_args();
            &&& a.engine is None && a.html is None && a.url is None && a.template is None
            &&& a.data is None && a.format is None && a.scale is None && a.output is None
            &&& a.header_template is None && a.footer_template is None
            &&& a.top is None && a.bottom is None && a.left is None && a.right is None
            &&& !a.landscape && !a.print_background && !a.display_header_footer
        }),
{
}

/// What `kite` runs: an install where that is the first argument, standard input and output
/// where that is asked for anywhere, HTTP otherwise.
pub proof fn law_modes(args: Seq<Seq<char>>, stdio_var: bool)
    ensures
        mode_of(args, stdio_var) == Mode::Install <==> args.len() > 0 && args[0] == "install"@,
        args.len() == 0 || args[0] != "install"@ ==> (mode_of(args, stdio_var) == Mode::Stdio
            <==> args.contains("--stdio"@) || args.contains("stdio"@) || stdio_var),
{
}

} // verus!
