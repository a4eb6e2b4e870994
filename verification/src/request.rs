//! The render request, its backends and its errors.
use crate::json::Json;
use crate::text::{debug, debug_text, lower, lowered, same, trim, trimmed};
use vstd::prelude::*;

verus! {

/// Page margins as CSS lengths.
pub struct Margin {
    pub top: Option<String>,
    pub bottom: Option<String>,
    pub left: Option<String>,
    pub right: Option<String>,
}

/// A scale factor: its IEEE-754 bits and its text.
pub struct Scale {
    pub bits: u64,
    pub text: String,
}

/// A single render request, as the HTTP endpoint accepts it and the command line assembles
/// it.
pub struct RenderRequest {
    /// Forces a backend: `chromium` or `typst`.
    pub engine: Option<String>,
    /// HTML document to render.
    pub html: Option<String>,
    /// URL to navigate to and render.
    pub url: Option<String>,
    /// Typst source.
    pub template: Option<String>,
    /// JSON that the template reads.
    pub data: Option<Json>,
    /// Paper size: A4 (default) / Letter / Legal / A3.
    pub format: Option<String>,
    pub landscape: bool,
    pub print_background: bool,
    pub display_header_footer: bool,
    pub header_template: Option<String>,
    pub footer_template: Option<String>,
    pub margin: Option<Margin>,
    pub scale: Option<Scale>,
    pub prefer_css_page_size: bool,
}

/// Which backend a request resolves to.
#[derive(Clone, Copy, Debug, PartialEq, Eq, Structural)]
pub enum Backend {
    Chromium,
    Typst,
}

/// A render failure.
#[derive(Debug)]
pub enum RenderError {
    /// Client error: bad input, or a backend that this build does not have.
    BadRequest(String),
    /// Server error: the backend failed while rendering.
    Internal(String),
}

impl RenderError {
    /// The message of a failure.
    pub open spec fn text(self) -> Seq<char> {
        match self {
            RenderError::BadRequest(m) => m@,
            RenderError::Internal(m) => m@,
        }
    }

    /// A client error.
    pub fn bad_request(msg: String) -> (res: RenderError)
        ensures
            res is BadRequest,
            res.text() == msg@,
    {
        RenderError::BadRequest(msg)
    }

    /// A server error.
    pub fn internal(msg: String) -> (res: RenderError)
        ensures
            res is Internal,
            res.text() == msg@,
    {
        RenderError::Internal(msg)
    }

    /// The message that a client should see.
    pub fn message(&self) -> (res: &str)
        ensures
            res@ == self.text(),
    {
        match self {
            RenderError::BadRequest(m) => m.as_str(),
            RenderError::Internal(m) => m.as_str(),
        }
    }

    /// The HTTP status that a failure maps to.
    pub fn status(&self) -> (res: u16)
        ensures
            res == if self is BadRequest {
                400
            } else {
                500int
            },
    {
        match self {
            RenderError::BadRequest(_) => 400,
            RenderError::Internal(_) => 500,
        }
    }
}

/// The backend that an engine name stands for.
pub open spec fn named_backend(engine: Seq<char>) -> Option<Backend> {
    let e = lower(trim(engine));
    if e == "chromium"@ || e == "chrome"@ || e == "html"@ {
        Some(Backend::Chromium)
    } else if e == "typst"@ {
        Some(Backend::Typst)
    } else {
        None
    }
}

impl Margin {
    /// No margins.
    pub fn none() -> (res: Margin)
        ensures
            res.top is None,
            res.bottom is None,
            res.left is None,
            res.right is None,
    {
        Margin { top: None, bottom: None, left: None, right: None }
    }
}

impl RenderRequest {
    /// A request that asks for nothing yet.
    pub fn empty() -> (res: RenderRequest)
        ensures
            res == (RenderRequest {
                engine: None,
                html: None,
                url: None,
                template: None,
                data: None,
                format: None,
                landscape: false,
                print_background: false,
                display_header_footer: false,
                header_template: None,
                footer_template: None,
                margin: None,
                scale: None,
                prefer_css_page_size: false,
            }),
    {
        RenderRequest {
            engine: None,
            html: None,
            url: None,
            template: None,
            data: None,
            format: None,
            landscape: false,
            print_background: false,
            display_header_footer: false,
            header_template: None,
            footer_template: None,
            margin: None,
            scale: None,
            prefer_css_page_size: false,
        }
    }

    /// The backend of a request: an explicit engine wins, else HTML or a URL means Chromium
    /// and a template Typst.
    pub open spec fn resolved(self) -> Option<Backend> {
        match self.engine {
            Some(e) => named_backend(e@),
            None => if self.html is Some || self.url is Some {
                Some(Backend::Chromium)
            } else if self.template is Some {
                Some(Backend::Typst)
            } else {
                None
            },
        }
    }

    /// Resolves the backend of the request.
    pub fn backend(&self) -> (res: Result<Backend, RenderError>)
        ensures
            match self.resolved() {
                Some(b) => res is Ok && res->Ok_0 == b,
                None => {
                    &&& res is Err
                    &&& res->Err_0 is BadRequest
                    &&& res->Err_0.text() == match self.engine {
                        Some(e) => "unknown engine "@ + debug_text(lower(trim(e@)))
                            + " (expected \"chromium\" or \"typst\")"@,
                        None =>
                            "no engine selected and no content provided: send one of `html`, `url` (chromium) or `template` (typst)"@,
                    }
                },
            },
            self.engine is None && (self.html is Some || self.url is Some) ==> res is Ok
                && res->Ok_0 == Backend::Chromium,
            self.engine is None && self.html is None && self.url is None && self.template is Some
                ==> res is Ok && res->Ok_0 == Backend::Typst,
            self.engine is None && self.html is None && self.url is None && self.template is None
                ==> res is Err,
            self.engine matches Some(e) ==> ({
                let name = lower(trim(e@));
                &&& name == "chromium"@ || name == "chrome"@ || name == "html"@ ==> res is Ok
                    && res->Ok_0 == Backend::Chromium
                &&& name == "typst"@ ==> res is Ok && res->Ok_0 == Backend::Typst
                &&& name != "chromium"@ && name != "chrome"@ && name != "html"@ && name != "typst"@
                    ==> res is Err
            }),
    {
        proof {
            reveal_strlit("chromium");
            reveal_strlit("chrome");
            reveal_strlit("html");
            reveal_strlit("typst");
            assert("chromium"@[0] == 'c');
            assert("chrome"@[0] == 'c');
            assert("html"@[0] == 'h');
            assert("typst"@[0] == 't');
        }
        match &self.engine {
            Some(engine) => {
                let t = trimmed(engine.as_str());
                let e = lowered(t.as_str());
                if same(e.as_str(), "chromium") || same(e.as_str(), "chrome") || same(
                    e.as_str(),
                    "html",
                ) {
                    return Ok(Backend::Chromium);
                }
                if same(e.as_str(), "typst") {
                    return Ok(Backend::Typst);
                }
                let mut message = "unknown engine ".to_owned();
                let d = debug(e.as_str());
                message.append(d.as_str());
                message.append(" (expected \"chromium\" or \"typst\")");
                Err(RenderError::bad_request(message))
            },
            None => {
                if self.html.is_some() || self.url.is_some() {
                    return Ok(Backend::Chromium);
                }
                if self.template.is_some() {
                    return Ok(Backend::Typst);
                }
                Err(
                    RenderError::bad_request(
                        "no engine selected and no content provided: send one of `html`, `url` (chromium) or `template` (typst)".to_owned(),
                    ),
                )
            },
        }
    }
}

// -- laws ------------------------------------------------------------------------------
/// The text of a failure is its message, whoever's error it is.
pub proof fn law_failure_texts(m: String)
    ensures
        RenderError::BadRequest(m).text() == m@,
        RenderError::Internal(m).text() == m@,
{
}

} // verus!
