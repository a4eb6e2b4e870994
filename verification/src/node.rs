//! What the Node.js bindings make of their options.
use crate::engine::{same_config, EngineConfig};
use crate::pdf::{scale_view, PdfOptions};
use crate::request::Scale;
use crate::text::{opt_text, same, texts};
use vstd::prelude::*;

verus! {

/// Options of `launch`.
pub struct LaunchOptions {
    /// Accepted and ignored: the bindings always run headless.
    pub headless: Option<bool>,
    /// Chromium arguments, of which `--no-sandbox` counts.
    pub args: Option<Vec<String>>,
    /// Path of a browser binary.
    pub executable_path: Option<String>,
}

/// Margins as CSS lengths.
pub struct PdfMargin {
    pub top: Option<String>,
    pub bottom: Option<String>,
    pub left: Option<String>,
    pub right: Option<String>,
}

/// Options of `page.pdf`.
pub struct NodePdfOptions {
    pub format: Option<String>,
    pub landscape: Option<bool>,
    pub print_background: Option<bool>,
    pub display_header_footer: Option<bool>,
    pub header_template: Option<String>,
    pub footer_template: Option<String>,
    pub margin: Option<PdfMargin>,
    pub scale: Option<Scale>,
    pub prefer_css_page_size: Option<bool>,
}

/// A switch that is off unless set.
pub open spec fn on(b: Option<bool>) -> bool {
    b == Some(true)
}

fn is_on(b: Option<bool>) -> (res: bool)
    ensures
        res == on(b),
{
    match b {
        Some(v) => v,
        None => false,
    }
}

/// One side of a margin.
pub open spec fn side_of(m: Option<PdfMargin>, side: int) -> Option<Seq<char>> {
    match m {
        Some(m) => if side == 0 {
            opt_text(m.top)
        } else if side == 1 {
            opt_text(m.bottom)
        } else if side == 2 {
            opt_text(m.left)
        } else {
            opt_text(m.right)
        },
        None => None,
    }
}

/// The printing options of a `page.pdf` call.
pub fn map_pdf_options(o: NodePdfOptions) -> (res: PdfOptions)
    ensures
        opt_text(res.format) == opt_text(o.format),
        res.landscape == on(o.landscape),
        res.print_background == on(o.print_background),
        res.display_header_footer == on(o.display_header_footer),
        opt_text(res.header_template) == opt_text(o.header_template),
        opt_text(res.footer_template) == opt_text(o.footer_template),
        match o.margin {
            Some(m) => {
                &&& opt_text(res.margin_top) == opt_text(m.top)
                &&& opt_text(res.margin_bottom) == opt_text(m.bottom)
                &&& opt_text(res.margin_left) == opt_text(m.left)
                &&& opt_text(res.margin_right) == opt_text(m.right)
            },
            None => res.margin_top is None && res.margin_bottom is None && res.margin_left is None
                && res.margin_right is None,
        },
        res.landscape <==> o.landscape == Some(true),
        res.print_background <==> o.print_background == Some(true),
        res.display_header_footer <==> o.display_header_footer == Some(true),
        res.prefer_css_page_size <==> o.prefer_css_page_size == Some(true),
        match o.scale {
            Some(s) => res.scale is Some && res.scale.unwrap().bits == s.bits
                && res.scale.unwrap().text@ == s.text@,
            None => res.scale is None,
        },
        opt_text(res.margin_top) == side_of(o.margin, 0),
        opt_text(res.margin_bottom) == side_of(o.margin, 1),
        opt_text(res.margin_left) == side_of(o.margin, 2),
        opt_text(res.margin_right) == side_of(o.margin, 3),
        scale_view(res.scale) == scale_view(o.scale),
        res.prefer_css_page_size == on(o.prefer_css_page_size),
{
    let (top, bottom, left, right) = match o.margin {
        Some(m) => (m.top, m.bottom, m.left, m.right),
        None => (None, None, None, None),
    };
    PdfOptions {
        format: o.format,
        landscape: is_on(o.landscape),
        print_background: is_on(o.print_background),
        display_header_footer: is_on(o.display_header_footer),
        header_template: o.header_template,
        footer_template: o.footer_template,
        margin_top: top,
        margin_bottom: bottom,
        margin_left: left,
        margin_right: right,
        scale: o.scale,
        prefer_css_page_size: is_on(o.prefer_css_page_size),
    }
}

/// Idle time of a browser that the bindings launched.
pub const NODE_IDLE_TTL_MS: u64 = 120_000;

/// Whether the arguments ask for no sandbox.
pub open spec fn asks_no_sandbox(o: Option<LaunchOptions>) -> bool {
    match o {
        Some(o) => match o.args {
            Some(args) => texts(args@).contains("--no-sandbox"@),
            None => false,
        },
        None => false,
    }
}

/// The executable that the options name.
pub open spec fn named_executable(o: Option<LaunchOptions>) -> Option<Seq<char>> {
    match o {
        Some(o) => opt_text(o.executable_path),
        None => None,
    }
}

fn has_no_sandbox(args: &Vec<String>) -> (res: bool)
    ensures
        res == texts(args@).contains("--no-sandbox"@),
{
    for i in 0..args.len()
        invariant
            forall|k: int| 0 <= k < i ==> #[trigger] texts(args@)[k] != "--no-sandbox"@,
    {
        assert(texts(args@)[i as int] == args@[i as int]@);
        if same(args[i].as_str(), "--no-sandbox") {
            return true;
        }
    }
    false
}

/// The configuration of a launched browser: always headless, whatever the options and the
/// environment say, with the service's idle time.
pub fn launch(options: Option<LaunchOptions>, base: EngineConfig) -> (res: EngineConfig)
    ensures
        same_config(
            res,
            EngineConfig {
                headful: false,
                idle_ttl_ms: NODE_IDLE_TTL_MS,
                no_sandbox: base.no_sandbox || asks_no_sandbox(options),
                executable: res.executable,
                ..base
            },
        ),
        opt_text(res.executable) == match named_executable(options) {
            Some(e) => Some(e),
            None => opt_text(base.executable),
        },
        !res.headful,
        res.idle_ttl_ms == 120_000,
        res.no_sandbox <==> base.no_sandbox || (options is Some && options.unwrap().args is Some
            && texts(options.unwrap().args.unwrap()@).contains("--no-sandbox"@)),
        options is Some && options.unwrap().executable_path is Some ==> opt_text(res.executable)
            == opt_text(options.unwrap().executable_path),
        options is None || options.unwrap().executable_path is None ==> opt_text(res.executable)
            == opt_text(base.executable),
        res.nav_timeout_ms == base.nav_timeout_ms,
        res.context_pool_size == base.context_pool_size,
        res.cache_dir@ == base.cache_dir@,
        opt_text(res.prewarm_url) == opt_text(base.prewarm_url),
        res.viewport == base.viewport,
{
    let mut config = base;
    config.headful = false;
    config.idle_ttl_ms = NODE_IDLE_TTL_MS;
    if let Some(o) = options {
        if let Some(exe) = o.executable_path {
            config.executable = Some(exe);
        }
        if let Some(args) = &o.args {
            if has_no_sandbox(args) {
                config.no_sandbox = true;
            }
        }
    }
    config
}

} // verus!
