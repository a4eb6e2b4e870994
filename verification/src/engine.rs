//! The browser's lifecycle: configuration, launch, the idle reaper, and the pool of
//! pre-warmed contexts. Instants are milliseconds on a clock of the caller's.
use crate::paths::{is_shell_wrapper, join_path, path_join, shell_wrapper};
use crate::text::{
    clone_opt, decimal, decimal_text, find, find_char, is_empty, law_decimal_is_read_back,
    law_find_is_first, law_numbers_round_trip, lemma_texts_push, opt_str, opt_text, parse_number,
    parse_unsigned, same, slice_text, texts, to_chars,
};
use vstd::prelude::*;

verus! {

/// Idle time after which a headless browser is closed, unless configured otherwise.
pub const DEFAULT_IDLE_TIMEOUT_SECS: u64 = 1800;

/// Navigation timeout.
pub const NAV_TIMEOUT_MS: u64 = 20_000;

/// Timeout of a single protocol request: never fires in normal use, but absorbs stalls.
pub const REQUEST_TIMEOUT_MS: u64 = 30_000;

/// How long a running browser has to answer before it is taken for dead.
pub const PROBE_TIMEOUT_MS: u64 = 2_000;

/// How long a browser may take to close before it is killed.
pub const CLOSE_TIMEOUT_MS: u64 = 3_000;

/// Contexts kept ready by default in headless mode.
pub const DEFAULT_POOL: usize = 2;

// -- configuration ------------------------------------------------------------------------------
/// How the browser is launched and kept.
pub struct EngineConfig {
    /// Idle time after which a headless browser is closed.
    pub idle_ttl_ms: u64,
    /// Navigation timeout per operation.
    pub nav_timeout_ms: u64,
    /// Pass `--no-sandbox`, which most containers need.
    pub no_sandbox: bool,
    /// Launch a visible window; such a browser is never reaped.
    pub headful: bool,
    /// Path of the browser binary.
    pub executable: Option<String>,
    /// How many blank contexts are kept ready for new sessions; 0 disables the pool.
    pub context_pool_size: usize,
    /// Shared on-disk HTTP cache.
    pub cache_dir: String,
    /// Origin that a prewarm connects to.
    pub prewarm_url: Option<String>,
    /// Window size.
    pub viewport: (u32, u32),
}

/// The environment that the configuration is read from.
pub struct EngineVars {
    /// Whether `KITE_HEADLESS` is set.
    pub headless: bool,
    /// `KITE_IDLE_TIMEOUT_SECS`
    pub idle_timeout_secs: Option<String>,
    /// Whether `BROWSER_NO_SANDBOX` is set.
    pub no_sandbox: bool,
    /// `BROWSER_EXECUTABLE`
    pub executable: Option<String>,
    /// `MCP_CONTEXT_POOL`
    pub context_pool: Option<String>,
    /// `KITE_CACHE_DIR`
    pub cache_dir: Option<String>,
    /// `KITE_PREWARM_URL`
    pub prewarm_url: Option<String>,
    /// `KITE_VIEWPORT`
    pub viewport: Option<String>,
    /// The directory for temporary files.
    pub temp_dir: String,
    /// The operating system.
    pub os: String,
}

/// The number that a variable holds, or a default.
pub open spec fn number_or(var: Option<Seq<char>>, max: int, default: int) -> int {
    match var {
        Some(v) => match parse_number(v, max) {
            Some(n) => n,
            None => default,
        },
        None => default,
    }
}

fn parse_or(var: Option<&str>, max: u64, default: u64) -> (res: u64)
    requires
        default <= max,
    ensures
        res == number_or(opt_str(var), max as int, default as int),
        res <= max,
{
    match var {
        Some(v) => {
            let c = to_chars(v);
            match parse_unsigned(c.as_slice(), max) {
                Some(n) => n,
                None => default,
            }
        },
        None => default,
    }
}

/// The size that `WIDTHxHEIGHT` writes, where both are numbers above zero.
pub open spec fn viewport_size(s: Seq<char>) -> Option<(int, int)> {
    let at = find(s, 'x');
    if at >= s.len() {
        None
    } else {
        match (
            parse_number(s.take(at), u32::MAX as int),
            parse_number(s.skip(at + 1), u32::MAX as int),
        ) {
            (Some(w), Some(h)) => if w > 0 && h > 0 {
                Some((w, h))
            } else {
                None
            },
            _ => None,
        }
    }
}

/// The size that a `WIDTHxHEIGHT` text writes.
pub fn parse_viewport(s: &str) -> (res: Option<(u32, u32)>)
    ensures
        match res {
            Some(v) => viewport_size(s@) == Some((v.0 as int, v.1 as int)),
            None => viewport_size(s@) is None,
        },
{
    let c = to_chars(s);
    let at: usize = find_char(c.as_slice(), 'x');
    if at >= c.len() {
        return None;
    }
    let left = to_chars(slice_text(c.as_slice(), 0, at).as_str());
    let right = to_chars(slice_text(c.as_slice(), at + 1, c.len()).as_str());
    assert(left@ =~= s@.take(at as int));
    assert(right@ =~= s@.skip(at + 1));
    match (
        parse_unsigned(left.as_slice(), 0xffff_ffff),
        parse_unsigned(right.as_slice(), 0xffff_ffff),
    ) {
        (Some(w), Some(h)) => if w > 0 && h > 0 {
            Some((w as u32, h as u32))
        } else {
            None
        },
        _ => None,
    }
}

/// A variable that counts only when it is not empty.
pub open spec fn non_empty(o: Option<Seq<char>>) -> Option<Seq<char>> {
    match o {
        Some(s) => if s.len() > 0 {
            Some(s)
        } else {
            None
        },
        None => None,
    }
}

fn keep_non_empty(o: Option<String>) -> (res: Option<String>)
    ensures
        opt_text(res) == non_empty(opt_text(o)),
{
    match o {
        Some(s) => if is_empty(s.as_str()) {
            None
        } else {
            Some(s)
        },
        None => None,
    }
}

/// The seconds of an idle timeout in milliseconds, saturating.
pub open spec fn secs_to_ms(secs: int) -> int {
    if secs > u64::MAX / 1000 {
        u64::MAX as int
    } else {
        secs * 1000
    }
}

impl EngineConfig {
    /// Reads the configuration. A window is shown unless headless mode is asked for. The pool
    /// is off by default while a window is shown, since each pooled page would be one more.
    pub fn from_vars(vars: EngineVars) -> (res: EngineConfig)
        ensures
            res.idle_ttl_ms == secs_to_ms(
                number_or(
                    opt_text(vars.idle_timeout_secs),
                    u64::MAX as int,
                    1800,
                ),
            ),
            res.nav_timeout_ms == 20_000,
            res.no_sandbox == vars.no_sandbox,
            res.headful == !vars.headless,
            opt_text(res.executable) == opt_text(vars.executable),
            res.context_pool_size == number_or(
                opt_text(vars.context_pool),
                usize::MAX as int,
                if vars.headless {
                    2
                } else {
                    0int
                },
            ),
            res.cache_dir@ == match non_empty(opt_text(vars.cache_dir)) {
                Some(d) => d,
                None => path_join(vars.temp_dir@, "kitewright-cache"@, vars.os@),
            },
            opt_text(res.prewarm_url) == non_empty(opt_text(vars.prewarm_url)),
            (res.viewport.0 as int, res.viewport.1 as int) == match opt_text(vars.viewport) {
                Some(v) => match viewport_size(v) {
                    Some(size) => size,
                    None => (1440, 900),
                },
                None => (1440, 900),
            },
    {
        let secs: u64 = parse_or(
            crate::text::borrow_opt(&vars.idle_timeout_secs),
            u64::MAX,
            DEFAULT_IDLE_TIMEOUT_SECS,
        );
        let idle_ttl_ms: u64 = if secs > u64::MAX / 1000 {
            u64::MAX
        } else {
            secs * 1000
        };
        let default_pool: u64 = if vars.headless {
            DEFAULT_POOL as u64
        } else {
            0
        };
        let pool: u64 = parse_or(
            crate::text::borrow_opt(&vars.context_pool),
            usize::MAX as u64,
            default_pool,
        );
        let viewport = match &vars.viewport {
            Some(v) => match parse_viewport(v.as_str()) {
                Some(size) => size,
                None => (1440, 900),
            },
            None => (1440, 900),
        };
        let cache_dir = match keep_non_empty(vars.cache_dir) {
            Some(d) => d,
            None => join_path(
                vars.temp_dir.as_str(),
                "kitewright-cache",
                vars.os.as_str(),
            ),
        };
        EngineConfig {
            idle_ttl_ms,
            nav_timeout_ms: NAV_TIMEOUT_MS,
            no_sandbox: vars.no_sandbox,
            headful: !vars.headless,
            executable: vars.executable,
            context_pool_size: pool as usize,
            cache_dir,
            prewarm_url: keep_non_empty(vars.prewarm_url),
            viewport,
        }
    }

    /// A copy of the configuration.
    pub fn copy(&self) -> (res: EngineConfig)
        ensures
            same_config(res, *self),
            res.idle_ttl_ms == self.idle_ttl_ms,
            res.nav_timeout_ms == self.nav_timeout_ms,
            res.no_sandbox == self.no_sandbox,
            res.headful == self.headful,
            opt_text(res.executable) == opt_text(self.executable),
            res.context_pool_size == self.context_pool_size,
            res.cache_dir@ == self.cache_dir@,
            opt_text(res.prewarm_url) == opt_text(self.prewarm_url),
            res.viewport == self.viewport,
    {
        EngineConfig {
            idle_ttl_ms: self.idle_ttl_ms,
            nav_timeout_ms: self.nav_timeout_ms,
            no_sandbox: self.no_sandbox,
            headful: self.headful,
            executable: clone_opt(&self.executable),
            context_pool_size: self.context_pool_size,
            cache_dir: self.cache_dir.clone(),
            prewarm_url: clone_opt(&self.prewarm_url),
            viewport: self.viewport,
        }
    }
}

/// Two configurations say the same.
pub open spec fn same_config(a: EngineConfig, b: EngineConfig) -> bool {
    &&& a.idle_ttl_ms == b.idle_ttl_ms
    &&& a.nav_timeout_ms == b.nav_timeout_ms
    &&& a.no_sandbox == b.no_sandbox
    &&& a.headful == b.headful
    &&& opt_text(a.executable) == opt_text(b.executable)
    &&& a.context_pool_size == b.context_pool_size
    &&& a.cache_dir@ == b.cache_dir@
    &&& opt_text(a.prewarm_url) == opt_text(b.prewarm_url)
    &&& a.viewport == b.viewport
}

// -- launching ------------------------------------------------------------------------------
/// A path that the browser detection came up with.
pub struct Detected {
    pub path: String,
    pub exists: bool,
}

/// A detected path is trusted when it exists and is no shell shim.
pub open spec fn trusted(d: Detected, os: Seq<char>) -> bool {
    d.exists && !shell_wrapper(d.path@, os)
}

/// The executable to launch: an explicit one wins, then a system browser (a known install
/// location, then a trusted detection), then a managed install.
pub open spec fn chosen_executable(
    explicit: Option<Seq<char>>,
    known: Option<Seq<char>>,
    detected: Option<Detected>,
    installed: Option<Seq<char>>,
    os: Seq<char>,
) -> Option<Seq<char>> {
    match explicit {
        Some(e) => Some(e),
        None => match known {
            Some(k) => Some(k),
            None => match detected {
                Some(d) => if trusted(d, os) {
                    Some(d.path@)
                } else {
                    installed
                },
                None => installed,
            },
        },
    }
}

/// Resolves the executable to launch; `None` leaves the error to the launch itself.
pub fn resolve_executable(
    explicit: Option<&str>,
    known: Option<String>,
    detected: Option<Detected>,
    installed: Option<String>,
    os: &str,
) -> (res: Option<String>)
    ensures
        opt_text(res) == chosen_executable(
            opt_str(explicit),
            opt_text(known),
            detected,
            opt_text(installed),
            os@,
        ),
{
    if let Some(e) = explicit {
        return Some(e.to_owned());
    }
    if let Some(k) = known {
        return Some(k);
    }
    if let Some(d) = detected {
        if d.exists && !is_shell_wrapper(d.path.as_str(), os) {
            return Some(d.path);
        }
    }
    installed
}

/// The arguments that every launch passes, without their leading dashes.
pub open spec fn base_args() -> Seq<Seq<char>> {
    seq![
        "disable-gpu"@,
        "disable-extensions"@,
        "mute-audio"@,
        "disable-dev-shm-usage"@,
        "no-first-run"@,
        "no-default-browser-check"@,
        "disable-background-networking"@,
        "disable-component-update"@,
        "disable-sync"@,
        "disable-default-apps"@,
        "hide-scrollbars"@,
    ]
}

/// The arguments of a launch.
pub open spec fn launch_arg_texts(cache_dir: Seq<char>, no_sandbox: bool) -> Seq<Seq<char>> {
    let args = base_args().push("disk-cache-dir="@ + cache_dir);
    if no_sandbox {
        args.push("no-sandbox"@)
    } else {
        args
    }
}

fn push_arg(args: &mut Vec<String>, arg: &str)
    ensures
        texts(final(args)@) == texts(old(args)@).push(arg@),
{
    let s = arg.to_owned();
    proof {
        lemma_texts_push(args@, s);
    }
    args.push(s);
}

/// The arguments of a launch: bare keys, since the launcher puts the dashes before them.
pub fn launch_args(config: &EngineConfig) -> (res: Vec<String>)
    ensures
        texts(res@) == launch_arg_texts(config.cache_dir@, config.no_sandbox),
{
    let mut args: Vec<String> = Vec::new();
    push_arg(&mut args, "disable-gpu");
    push_arg(&mut args, "disable-extensions");
    push_arg(&mut args, "mute-audio");
    push_arg(&mut args, "disable-dev-shm-usage");
    push_arg(&mut args, "no-first-run");
    push_arg(&mut args, "no-default-browser-check");
    push_arg(&mut args, "disable-background-networking");
    push_arg(&mut args, "disable-component-update");
    push_arg(&mut args, "disable-sync");
    push_arg(&mut args, "disable-default-apps");
    push_arg(&mut args, "hide-scrollbars");
    assert(texts(args@) =~= base_args());
    let mut cache = "disk-cache-dir=".to_owned();
    cache.append(config.cache_dir.as_str());
    push_arg(&mut args, cache.as_str());
    if config.no_sandbox {
        push_arg(&mut args, "no-sandbox");
    }
    args
}

/// The profile directory of a launch: unique to the process and the launch.
pub fn data_dir(temp_dir: &str, pid: u32, launch: u64, os: &str) -> (res: String)
    ensures
        res@ == path_join(
            temp_dir@,
            "kitewright-"@ + decimal(pid as int) + "-"@ + decimal(launch as int),
            os@,
        ),
{
    let mut name = "kitewright-".to_owned();
    let p = decimal_text(pid as u64);
    name.append(p.as_str());
    name.append("-");
    let n = decimal_text(launch);
    name.append(n.as_str());
    join_path(temp_dir, name.as_str(), os)
}

// -- the engine ------------------------------------------------------------------------------
/// A running browser. `P` is a pre-warmed context with its page.
pub struct BrowserHandle<P> {
    /// When an operation last used the browser.
    pub last_used: u64,
    /// Which launch this is; sessions compare it to see whether their page is gone.
    pub generation: u64,
    /// Blank contexts for new sessions. They go with the browser.
    pub pool: Vec<P>,
    /// Whether the tab that the launch opened is still there.
    pub launch_tab: bool,
}

/// The engine: its configuration and the browser, if one runs.
pub struct Engine<P> {
    pub config: EngineConfig,
    pub handle: Option<BrowserHandle<P>>,
    /// The generation of the next launch.
    pub next_generation: u64,
}

/// What a request for the browser has to do first.
#[derive(Clone, Copy, Debug, PartialEq, Eq, Structural)]
pub enum LaunchStep {
    /// The browser answers: use it.
    Reuse,
    /// No browser runs: launch one.
    Launch,
    /// The browser is dead: close what is left of it, then launch.
    Replace,
}

/// What a prewarm does.
#[derive(Clone, Copy, Debug, PartialEq, Eq, Structural)]
pub enum WarmStep {
    /// Nothing is left to do.
    Done,
    /// Open a throwaway page at the configured origin.
    Connect,
    /// Open and close a blank page so that the renderer starts.
    BlankPage,
}

impl<P> Engine<P> {
    /// The generation of a running browser is always below that of the next launch.
    pub open spec fn wf(self) -> bool {
        self.handle matches Some(h) ==> h.generation < self.next_generation
    }

    /// An engine without a browser.
    pub fn new(config: EngineConfig) -> (res: Engine<P>)
        ensures
            res.wf(),
            res.config == config,
            res.handle is None,
            res.next_generation == 0,
    {
        Engine { config, handle: None, next_generation: 0 }
    }

    /// Whether a browser runs.
    pub fn is_running(&self) -> (res: bool)
        ensures
            res == (self.handle is Some),
    {
        self.handle.is_some()
    }

    /// How many contexts stand ready; none without a browser.
    pub fn pooled_context_count(&self) -> (res: usize)
        ensures
            res == match self.handle {
                Some(h) => h.pool@.len(),
                None => 0,
            },
    {
        match &self.handle {
            Some(h) => h.pool.len(),
            None => 0,
        }
    }

    /// Decides how to get at a browser. A browser that is there but does not answer has
    /// crashed or was closed: it is discarded, its pool with it.
    pub fn launch_if_needed(&mut self, responsive: bool) -> (res: LaunchStep)
        requires
            old(self).wf(),
        ensures
            final(self).wf(),
            final(self).config == old(self).config,
            final(self).next_generation == old(self).next_generation,
            match res {
                LaunchStep::Reuse => old(self).handle is Some && responsive && final(self).handle
                    == old(self).handle,
                LaunchStep::Launch => old(self).handle is None && final(self).handle is None,
                LaunchStep::Replace => old(self).handle is Some && !responsive && final(self).handle is None,
            },
    {
        if self.handle.is_none() {
            return LaunchStep::Launch;
        }
        if responsive {
            return LaunchStep::Reuse;
        }
        self.handle = None;
        LaunchStep::Replace
    }

    /// Records a successful launch and returns its generation, which no launch had before.
    pub fn launched(&mut self, now: u64) -> (res: u64)
        requires
            old(self).wf(),
            old(self).next_generation < u64::MAX,
        ensures
            final(self).wf(),
            final(self).config == old(self).config,
            res == old(self).next_generation,
            final(self).next_generation == res + 1,
            final(self).handle is Some,
            final(self).handle.unwrap().generation == res,
            final(self).handle.unwrap().last_used == now,
            final(self).handle.unwrap().pool@.len() == 0,
            final(self).handle.unwrap().launch_tab,
    {
        let generation: u64 = self.next_generation;
        self.next_generation = generation + 1;
        self.handle = Some(
            BrowserHandle { last_used: now, generation, pool: Vec::new(), launch_tab: true },
        );
        generation
    }

    /// Marks the browser as used now, so that the reaper leaves it alone.
    pub fn touch_activity(&mut self, now: u64)
        requires
            old(self).wf(),
        ensures
            final(self).wf(),
            final(self).config == old(self).config,
            final(self).next_generation == old(self).next_generation,
            match old(self).handle {
                Some(h) => final(self).handle == Some(BrowserHandle { last_used: now, ..h }),
                None => final(self).handle is None,
            },
    {
        if let Some(h) = self.handle.take() {
            self.handle = Some(
                BrowserHandle {
                    last_used: now,
                    generation: h.generation,
                    pool: h.pool,
                    launch_tab: h.launch_tab,
                },
            );
        }
    }

    /// Whether the browser is to be reaped: it is headless and was not used for the idle
    /// time.
    pub open spec fn idle(self, now: int) -> bool {
        match self.handle {
            Some(h) => !self.config.headful && now - h.last_used >= self.config.idle_ttl_ms,
            None => false,
        }
    }

    /// Runs the reaper once: gives up an idle browser, which the caller then closes.
    pub fn reap(&mut self, now: u64) -> (res: bool)
        requires
            old(self).wf(),
        ensures
            final(self).wf(),
            res == old(self).idle(now as int),
            res <==> old(self).handle is Some && !old(self).config.headful && now - old(self).handle.unwrap().last_used >= old(self).config.idle_ttl_ms,
            final(self).config == old(self).config,
            final(self).next_generation == old(self).next_generation,
            final(self).handle == if res {
                None
            } else {
                old(self).handle
            },
    {
        let idle = match &self.handle {
            Some(h) => !self.config.headful && now >= h.last_used && now - h.last_used
                >= self.config.idle_ttl_ms,
            None => false,
        };
        if idle {
            self.handle = None;
        }
        idle
    }

    /// Gives up the browser, which the caller then closes; tells whether there was one.
    pub fn shutdown(&mut self) -> (res: bool)
        requires
            old(self).wf(),
        ensures
            final(self).wf(),
            res == (old(self).handle is Some),
            final(self).handle is None,
            final(self).config == old(self).config,
            final(self).next_generation == old(self).next_generation,
    {
        let there = self.handle.is_some();
        self.handle = None;
        there
    }

    /// Whether the pool lacks a context.
    pub open spec fn pool_short(self) -> bool {
        match self.handle {
            Some(h) => h.pool@.len() < self.config.context_pool_size,
            None => false,
        }
    }

    /// Whether another context should be created for the pool.
    pub fn fill_pool(&self) -> (res: bool)
        ensures
            res == self.pool_short(),
            res <==> self.handle is Some && self.handle.unwrap().pool@.len()
                < self.config.context_pool_size,
    {
        match &self.handle {
            Some(h) => h.pool.len() < self.config.context_pool_size,
            None => false,
        }
    }

    /// Adds a fresh context to the pool. This is no use of the browser: its idle clock runs
    /// on.
    pub fn pool_add(&mut self, context: P)
        requires
            old(self).wf(),
        ensures
            final(self).wf(),
            final(self).config == old(self).config,
            final(self).next_generation == old(self).next_generation,
            match old(self).handle {
                Some(h) => {
                    &&& final(self).handle is Some
                    &&& final(self).handle.unwrap().pool@ == h.pool@.push(context)
                    &&& final(self).handle.unwrap().last_used == h.last_used
                    &&& final(self).handle.unwrap().generation == h.generation
                    &&& final(self).handle.unwrap().launch_tab == h.launch_tab
                },
                None => final(self).handle is None,
            },
    {
        if let Some(h) = self.handle.take() {
            let mut pool = h.pool;
            pool.push(context);
            self.handle = Some(
                BrowserHandle {
                    last_used: h.last_used,
                    generation: h.generation,
                    pool,
                    launch_tab: h.launch_tab,
                },
            );
        }
    }

    /// Takes a context out of the pool. It is handed to one session and never returns.
    pub fn pool_take(&mut self) -> (res: Option<P>)
        requires
            old(self).wf(),
        ensures
            final(self).wf(),
            final(self).config == old(self).config,
            final(self).next_generation == old(self).next_generation,
            match old(self).handle {
                Some(h) => {
                    &&& final(self).handle is Some
                    &&& final(self).handle.unwrap().last_used == h.last_used
                    &&& final(self).handle.unwrap().generation == h.generation
                    &&& final(self).handle.unwrap().launch_tab == h.launch_tab
                    &&& match res {
                        Some(p) => h.pool@.len() > 0 && p == h.pool@.last() && final(self).handle.unwrap().pool@ == h.pool@.drop_last(),
                        None => h.pool@.len() == 0 && final(self).handle.unwrap().pool@
                            == h.pool@,
                    }
                },
                None => final(self).handle is None && res is None,
            },
    {
        match self.handle.take() {
            Some(h) => {
                let mut pool = h.pool;
                let taken = pool.pop();
                self.handle = Some(
                    BrowserHandle {
                        last_used: h.last_used,
                        generation: h.generation,
                        pool,
                        launch_tab: h.launch_tab,
                    },
                );
                taken
            },
            None => None,
        }
    }

    /// Retires the tab that the launch opened, once a session has a page of its own: true
    /// exactly once per launch, when the caller is to close it.
    pub fn retire_launch_tab(&mut self) -> (res: bool)
        requires
            old(self).wf(),
        ensures
            final(self).wf(),
            final(self).config == old(self).config,
            final(self).next_generation == old(self).next_generation,
            match old(self).handle {
                Some(h) => res == h.launch_tab && final(self).handle == Some(
                    BrowserHandle { launch_tab: false, ..h },
                ),
                None => !res && final(self).handle is None,
            },
    {
        match self.handle.take() {
            Some(h) => {
                let there = h.launch_tab;
                self.handle = Some(
                    BrowserHandle {
                        last_used: h.last_used,
                        generation: h.generation,
                        pool: h.pool,
                        launch_tab: false,
                    },
                );
                there
            },
            None => false,
        }
    }

    /// Whether a prewarm launches at all: a visible window appears with the first real
    /// navigation, not before.
    pub fn prewarm(&self) -> (res: bool)
        ensures
            res == !self.config.headful,
    {
        !self.config.headful
    }

    /// What a prewarm does once the browser runs and the pool was filled. Nothing, where the
    /// browser ran before.
    pub fn warm_step(&self, was_running: bool) -> (res: WarmStep)
        ensures
            res == if was_running {
                WarmStep::Done
            } else if self.config.prewarm_url is Some {
                WarmStep::Connect
            } else {
                match self.handle {
                    Some(h) => if h.pool@.len() == 0 {
                        WarmStep::BlankPage
                    } else {
                        WarmStep::Done
                    },
                    None => WarmStep::BlankPage,
                }
            },
    {
        if was_running {
            return WarmStep::Done;
        }
        if self.config.prewarm_url.is_some() {
            return WarmStep::Connect;
        }
        if self.pooled_context_count() == 0 {
            WarmStep::BlankPage
        } else {
            WarmStep::Done
        }
    }
}

/// Whether a page is the tab that the launch opened: a blank one that is neither the page to
/// keep nor one of the pool.
pub fn is_launch_tab(id: &str, keep: &str, pooled: &Vec<String>, url: Option<&str>) -> (res: bool)
    ensures
        res == (id@ != keep@ && !texts(pooled@).contains(id@) && opt_str(url) == Some(
            "about:blank"@,
        )),
{
    let blank = match url {
        Some(u) => same(u, "about:blank"),
        None => false,
    };
    if same(id, keep) || !blank {
        return false;
    }
    for i in 0..pooled.len()
        invariant
            forall|k: int| 0 <= k < i ==> #[trigger] texts(pooled@)[k] != id@,
    {
        assert(texts(pooled@)[i as int] == pooled@[i as int]@);
        if same(pooled[i].as_str(), id) {
            return false;
        }
    }
    true
}

/// How often the reaper looks: at least every 15 seconds, more often when the idle time is
/// short, but at most once per second.
pub fn spawn_reaper(config: &EngineConfig) -> (res: u64)
    ensures
        res == if config.idle_ttl_ms < 1_000 {
            1_000
        } else if config.idle_ttl_ms > 15_000 {
            15_000
        } else {
            config.idle_ttl_ms as int
        },
{
    if config.idle_ttl_ms < 1_000 {
        1_000
    } else if config.idle_ttl_ms > 15_000 {
        15_000
    } else {
        config.idle_ttl_ms
    }
}

// -- laws ------------------------------------------------------------------------------
/// The pool never keeps the browser alive: whatever it holds, the reaper decides the same.
pub proof fn law_pool_never_defeats_reaper<P>(e: Engine<P>, pool: Vec<P>, now: int)
    requires
        e.handle is Some,
    ensures
        e.idle(now) == (Engine {
            handle: Some(BrowserHandle { pool, ..e.handle.unwrap() }),
            ..e
        }).idle(now),
{
}

/// After an activity the browser is safe until the idle time has passed, and from then on
/// it is reaped, unless a window is shown.
pub proof fn law_activity_defers_reaping<P>(e: Engine<P>, h: BrowserHandle<P>, at: u64, now: int)
    requires
        e.handle == Some(BrowserHandle { last_used: at, ..h }),
    ensures
        e.idle(now) <==> !e.config.headful && now >= at + e.config.idle_ttl_ms,
{
}

/// A visible browser is never reaped.
pub proof fn law_headed_browser_is_never_reaped<P>(e: Engine<P>, now: int)
    requires
        e.config.headful,
    ensures
        !e.idle(now),
{
}

/// A later launch never has the generation of an earlier one: a page that belongs to an
/// earlier launch is always recognised as lost.
pub proof fn law_generations_never_repeat<P>(earlier: Engine<P>, later: Engine<P>)
    requires
        earlier.wf(),
        earlier.handle is Some,
        later.next_generation >= earlier.next_generation,
    ensures
        earlier.handle.unwrap().generation != later.next_generation,
{
}

/// Every launch passes these arguments, the place of the cache, and `no-sandbox` where that is
/// asked for; there are no others.
pub proof fn law_launch_arguments(cache_dir: Seq<char>, no_sandbox: bool)
    ensures
        launch_arg_texts(cache_dir, no_sandbox).contains("disable-gpu"@),
        launch_arg_texts(cache_dir, no_sandbox).contains("disable-extensions"@),
        launch_arg_texts(cache_dir, no_sandbox).contains("mute-audio"@),
        launch_arg_texts(cache_dir, no_sandbox).contains("disable-dev-shm-usage"@),
        launch_arg_texts(cache_dir, no_sandbox).contains("no-first-run"@),
        launch_arg_texts(cache_dir, no_sandbox).contains("no-default-browser-check"@),
        launch_arg_texts(cache_dir, no_sandbox).contains("disable-background-networking"@),
        launch_arg_texts(cache_dir, no_sandbox).contains("disable-component-update"@),
        launch_arg_texts(cache_dir, no_sandbox).contains("disable-sync"@),
        launch_arg_texts(cache_dir, no_sandbox).contains("disable-default-apps"@),
        launch_arg_texts(cache_dir, no_sandbox).contains("hide-scrollbars"@),
        launch_arg_texts(cache_dir, no_sandbox).contains("disk-cache-dir="@ + cache_dir),
        no_sandbox ==> launch_arg_texts(cache_dir, no_sandbox).len() == 13 && launch_arg_texts(
            cache_dir,
            no_sandbox,
        ).last() == "no-sandbox"@,
        !no_sandbox ==> launch_arg_texts(cache_dir, no_sandbox).len() == 12,
        !no_sandbox ==> launch_arg_texts(cache_dir, true) == launch_arg_texts(
            cache_dir,
            no_sandbox,
        ).push("no-sandbox"@),
{
    let all = launch_arg_texts(cache_dir, no_sandbox);
    assert(all[0] == "disable-gpu"@);
    assert(all[1] == "disable-extensions"@);
    assert(all[2] == "mute-audio"@);
    assert(all[3] == "disable-dev-shm-usage"@);
    assert(all[4] == "no-first-run"@);
    assert(all[5] == "no-default-browser-check"@);
    assert(all[6] == "disable-background-networking"@);
    assert(all[7] == "disable-component-update"@);
    assert(all[8] == "disable-sync"@);
    assert(all[9] == "disable-default-apps"@);
    assert(all[10] == "hide-scrollbars"@);
    assert(all[11] == "disk-cache-dir="@ + cache_dir);
}

/// A variable that holds a number up to the limit counts as that number; any other, and none,
/// counts as the default.
pub proof fn law_numbers_of_variables(n: int, max: int, default: int, v: Seq<char>)
    requires
        0 <= n <= max,
    ensures
        number_or(Some(decimal(n)), max, default) == n,
        number_or(None, max, default) == default,
        parse_number(v, max) matches Some(m) ==> number_or(Some(v), max, default) == m,
        parse_number(v, max) is None ==> number_or(Some(v), max, default) == default,
{
    law_numbers_round_trip(n, max);
}

/// A window size is a width, an `x` and a height, both above zero; nothing else is one.
pub proof fn law_window_sizes(w: int, h: int, s: Seq<char>)
    requires
        0 < w <= u32::MAX,
        0 < h <= u32::MAX,
    ensures
        viewport_size(decimal(w).push('x') + decimal(h)) == Some((w, h)),
        viewport_size(s) == Some((w, h)) ==> s.contains('x'),
        viewport_size(s) matches Some(size) ==> 0 < size.0 <= u32::MAX && 0 < size.1 <= u32::MAX
            && parse_number(s.take(find(s, 'x')), u32::MAX as int) == Some(size.0)
            && parse_number(s.skip(find(s, 'x') + 1), u32::MAX as int) == Some(size.1),
        s.contains('x') && parse_number(s.take(find(s, 'x')), u32::MAX as int) == Some(w)
            && parse_number(s.skip(find(s, 'x') + 1), u32::MAX as int) == Some(h) ==> viewport_size(
            s,
        ) == Some((w, h)),
{
    let t = decimal(w).push('x') + decimal(h);
    law_find_is_first(t, 'x');
    law_find_is_first(s, 'x');
    law_decimal_is_read_back(w);
    law_numbers_round_trip(w, u32::MAX as int);
    law_numbers_round_trip(h, u32::MAX as int);
    let at = decimal(w).len() as int;
    assert(t[at] == 'x');
    assert(find(t, 'x') == at) by {
        let f = find(t, 'x');
        if f < at {
            assert(t[f] == decimal(w)[f]);
            assert(crate::text::is_digit(decimal(w)[f]));
        }
    }
    assert(t.take(at) =~= decimal(w));
    assert(t.skip(at + 1) =~= decimal(h));
    if viewport_size(s) is Some {
        crate::text::law_numbers_are_digits(s.take(find(s, 'x')), u32::MAX as int);
        crate::text::law_numbers_are_digits(s.skip(find(s, 'x') + 1), u32::MAX as int);
    }
}

/// A variable counts where it is not empty; seconds are a thousand milliseconds each, as far as
/// those can be counted.
pub proof fn law_variables_and_seconds(s: Seq<char>, secs: int)
    ensures
        s.len() > 0 ==> non_empty(Some(s)) == Some(s),
        s.len() == 0 ==> non_empty(Some(s)) is None,
        non_empty(None) is None,
        secs * 1000 <= u64::MAX ==> secs_to_ms(secs) == secs * 1000,
        secs * 1000 > u64::MAX ==> secs_to_ms(secs) == u64::MAX,
{
}

/// Which executable is launched: the one that was named, else a known system browser, else a
/// detected one that exists and is no shell shim, else a managed install.
pub proof fn law_executable_order(
    e: Seq<char>,
    k: Seq<char>,
    known: Option<Seq<char>>,
    d: Detected,
    detected: Option<Detected>,
    installed: Option<Seq<char>>,
    os: Seq<char>,
)
    ensures
        chosen_executable(Some(e), known, detected, installed, os) == Some(e),
        chosen_executable(None, Some(k), detected, installed, os) == Some(k),
        d.exists && !shell_wrapper(d.path@, os) ==> chosen_executable(
            None,
            None,
            Some(d),
            installed,
            os,
        ) == Some(d.path@),
        !d.exists || shell_wrapper(d.path@, os) ==> chosen_executable(
            None,
            None,
            Some(d),
            installed,
            os,
        ) == installed,
        chosen_executable(None, None, None, installed, os) == installed,
{
}

/// Two configurations say the same only where they agree in every field.
pub proof fn law_same_configurations(a: EngineConfig, b: EngineConfig)
    ensures
        same_config(a, b) <==> a.idle_ttl_ms == b.idle_ttl_ms && a.nav_timeout_ms
            == b.nav_timeout_ms && a.no_sandbox == b.no_sandbox && a.headful == b.headful
            && opt_text(a.executable) == opt_text(b.executable) && a.context_pool_size
            == b.context_pool_size && a.cache_dir@ == b.cache_dir@ && opt_text(a.prewarm_url)
            == opt_text(b.prewarm_url) && a.viewport == b.viewport,
{
}

} // verus!
