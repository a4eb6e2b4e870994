//! Waiting: timeouts, per-poll budgets, and the decisions of the polling loops behind
//! `wait_for`, `assert`, actionability and retried protocol calls. Instants are
//! nanoseconds since the operation started.
use crate::json::{
    json_eq, law_equality_is_reflexive, law_equality_of_parts, law_equality_of_scalars, opt_view,
    Json, JsonView, NumberView,
};
use crate::selector::{checked_description, checked_text, condition_js, condition_script};
use crate::text::{debug, debug_text, decimal, decimal_text, opt_str, opt_text, same};
use vstd::prelude::*;

verus! {

/// Default timeout of `wait_for`.
pub const WAIT_FOR_DEFAULT_TIMEOUT_MS: u64 = 10_000;

/// Hard cap of every wait, so that a tool call can never park a client for minutes.
pub const WAIT_FOR_MAX_TIMEOUT_MS: u64 = 30_000;

/// Default actionability timeout of click/type/hover/select.
pub const ACTIONABLE_DEFAULT_TIMEOUT_MS: u64 = 5_000;

/// Pause between two polls of a condition.
pub const WAIT_FOR_POLL_MS: u64 = 100;

/// Pause between two actionability polls.
pub const ACTIONABLE_POLL_MS: u64 = 100;

/// Pause before an actionable element is sampled again to see whether it moves.
pub const STABILITY_RESAMPLE_MS: u64 = 40;

/// Pause before a failed protocol call is sent again.
pub const RETRY_PAUSE_MS: u64 = 50;

/// Upper bound of one poll's evaluation.
pub const WAIT_FOR_POLL_BUDGET_NS: u64 = 3_000_000_000;

/// Lower bound of one poll's evaluation, so that the last poll gets a fair chance.
pub const WAIT_FOR_MIN_BUDGET_NS: u64 = 250_000_000;

pub const NANOS_PER_MILLI: u64 = 1_000_000;

// -- timeouts ------------------------------------------------------------------------------
pub open spec fn min(a: int, b: int) -> int {
    if a <= b {
        a
    } else {
        b
    }
}

pub open spec fn max(a: int, b: int) -> int {
    if a >= b {
        a
    } else {
        b
    }
}

/// The timeout of a wait: what was asked for or the default, but never above the cap.
pub open spec fn wait_timeout(timeout_ms: Option<u64>) -> int {
    min(
        match timeout_ms {
            Some(ms) => ms as int,
            None => WAIT_FOR_DEFAULT_TIMEOUT_MS as int,
        },
        WAIT_FOR_MAX_TIMEOUT_MS as int,
    )
}

/// The timeout of a wait in milliseconds.
pub fn wait_timeout_ms(timeout_ms: Option<u64>) -> (res: u64)
    ensures
        res == wait_timeout(timeout_ms),
        res <= WAIT_FOR_MAX_TIMEOUT_MS,
        timeout_ms is None ==> res == 10_000,
        timeout_ms matches Some(ms) ==> res == if ms <= 30_000 {
            ms
        } else {
            30_000
        },
{
    let ms: u64 = match timeout_ms {
        Some(ms) => ms,
        None => WAIT_FOR_DEFAULT_TIMEOUT_MS,
    };
    if ms <= WAIT_FOR_MAX_TIMEOUT_MS {
        ms
    } else {
        WAIT_FOR_MAX_TIMEOUT_MS
    }
}

/// The standard actionability timeout in milliseconds.
pub fn actionable_timeout() -> (res: u64)
    ensures
        res == ACTIONABLE_DEFAULT_TIMEOUT_MS,
{
    ACTIONABLE_DEFAULT_TIMEOUT_MS
}

/// The actionability timeout of one operation in milliseconds: what was asked for, capped,
/// or the standard one.
pub fn resolve_actionable_timeout(timeout_ms: Option<u64>) -> (res: u64)
    ensures
        res == match timeout_ms {
            Some(ms) => min(ms as int, WAIT_FOR_MAX_TIMEOUT_MS as int),
            None => ACTIONABLE_DEFAULT_TIMEOUT_MS as int,
        },
        res <= WAIT_FOR_MAX_TIMEOUT_MS,
        timeout_ms is None ==> res == 5_000,
        timeout_ms matches Some(ms) ==> res == if ms <= 30_000 {
            ms
        } else {
            30_000
        },
{
    match timeout_ms {
        Some(ms) => if ms <= WAIT_FOR_MAX_TIMEOUT_MS {
            ms
        } else {
            WAIT_FOR_MAX_TIMEOUT_MS
        },
        None => actionable_timeout(),
    }
}

/// Milliseconds in nanoseconds.
fn nanos(ms: u64) -> (res: u128)
    ensures
        res == ms * NANOS_PER_MILLI,
{
    assert(ms * 1_000_000 <= u128::MAX);
    ms as u128 * 1_000_000u128
}

/// The time a single poll may take: what is left before the deadline, within the bounds.
pub open spec fn budget_ns(timeout_ns: int, elapsed_ns: int) -> int {
    max(
        min(max(timeout_ns - elapsed_ns, 0), WAIT_FOR_POLL_BUDGET_NS as int),
        WAIT_FOR_MIN_BUDGET_NS as int,
    )
}

/// The evaluation budget of the next poll in nanoseconds: what is left before the
/// deadline, capped so that one stuck evaluation cannot consume the whole wait, and floored
/// so that the last poll can still answer.
pub fn poll_budget(timeout_ms: u64, elapsed_ns: u64) -> (res: u64)
    ensures
        res == budget_ns(timeout_ms * NANOS_PER_MILLI, elapsed_ns as int),
        WAIT_FOR_MIN_BUDGET_NS <= res <= WAIT_FOR_POLL_BUDGET_NS,
        ({
            let left = timeout_ms * 1_000_000 - elapsed_ns;
            &&& left >= 3_000_000_000 ==> res == 3_000_000_000
            &&& 250_000_000 <= left <= 3_000_000_000 ==> res == left
            &&& left <= 250_000_000 ==> res == 250_000_000
        }),
{
    let timeout_ns: u128 = nanos(timeout_ms);
    let elapsed: u128 = elapsed_ns as u128;
    let left: u128 = if timeout_ns >= elapsed {
        timeout_ns - elapsed
    } else {
        0
    };
    if left >= WAIT_FOR_POLL_BUDGET_NS as u128 {
        WAIT_FOR_POLL_BUDGET_NS
    } else if left >= WAIT_FOR_MIN_BUDGET_NS as u128 {
        left as u64
    } else {
        WAIT_FOR_MIN_BUDGET_NS
    }
}

/// The error of a poll whose evaluation did not answer within its budget.
pub fn poll_timed_out(budget_ns: u64) -> (res: String)
    ensures
        res@ == "condition evaluation exceeded "@ + decimal(
            (budget_ns / 1_000_000) as int,
        ) + "ms poll budget"@,
{
    let mut out = "condition evaluation exceeded ".to_owned();
    let ms = decimal_text(budget_ns / NANOS_PER_MILLI);
    out.append(ms.as_str());
    out.append("ms poll budget");
    out
}

/// Whether the deadline has passed.
pub open spec fn expired(timeout_ms: int, elapsed_ns: int) -> bool {
    elapsed_ns >= timeout_ms * NANOS_PER_MILLI
}

// -- wait_for ------------------------------------------------------------------------------
/// A wait under way.
pub struct WaitFor {
    pub selector: Option<String>,
    pub text: Option<String>,
    /// The condition to evaluate at each poll.
    pub script: String,
    pub timeout_ms: u64,
}

impl WaitFor {
    pub open spec fn wf(self) -> bool {
        &&& self.timeout_ms <= WAIT_FOR_MAX_TIMEOUT_MS
        &&& self.script@ == condition_js(opt_text(self.selector), opt_text(self.text))
    }
}

/// What to do after a poll of [`WaitFor`].
pub enum WaitStep {
    /// The condition holds; the wait took this many milliseconds.
    Done(u64),
    /// The deadline has passed.
    TimedOut(String),
    /// Keep the browser alive, pause, poll again.
    Again,
}

/// How an optional text prints in a message.
pub open spec fn opt_debug(o: Option<Seq<char>>) -> Seq<char> {
    match o {
        Some(s) => "Some("@ + debug_text(s) + ")"@,
        None => "None"@,
    }
}

fn debug_opt(o: Option<&str>) -> (res: String)
    ensures
        res@ == opt_debug(opt_str(o)),
{
    match o {
        Some(s) => {
            let mut out = "Some(".to_owned();
            let d = debug(s);
            out.append(d.as_str());
            out.append(")");
            out
        },
        None => "None".to_owned(),
    }
}

/// The error of a wait that ran out of time.
pub open spec fn wait_timeout_text(
    timeout_ms: int,
    selector: Option<Seq<char>>,
    text: Option<Seq<char>>,
    last_error: Option<Seq<char>>,
) -> Seq<char> {
    let base = "wait_for timed out after "@ + decimal(timeout_ms) + "ms (selector: "@ + opt_debug(
        selector,
    ) + ", text: "@ + opt_debug(text) + ")"@;
    match last_error {
        Some(e) => base + "; last evaluation error: "@ + e,
        None => base,
    }
}

/// Starts a wait for a selector and/or a text; at least one is needed.
pub fn wait_for(selector: Option<&str>, text: Option<&str>, timeout_ms: Option<u64>) -> (res:
    Result<WaitFor, String>)
    ensures
        match res {
            Ok(w) => {
                &&& selector is Some || text is Some
                &&& w.wf()
                &&& opt_text(w.selector) == opt_str(selector)
                &&& opt_text(w.text) == opt_str(text)
                &&& w.timeout_ms == wait_timeout(timeout_ms)
                &&& w.script@ == condition_js(opt_str(selector), opt_str(text))
            },
            Err(e) => selector is None && text is None && e@
                == "wait_for needs at least one of `selector` or `text`"@,
        },
{
    if selector.is_none() && text.is_none() {
        return Err("wait_for needs at least one of `selector` or `text`".to_owned());
    }
    Ok(
        WaitFor {
            selector: owned(selector),
            text: owned(text),
            script: condition_script(selector, text),
            timeout_ms: wait_timeout_ms(timeout_ms),
        },
    )
}

fn owned(o: Option<&str>) -> (res: Option<String>)
    ensures
        opt_text(res) == opt_str(o),
{
    match o {
        Some(s) => Some(s.to_owned()),
        None => None,
    }
}

impl WaitFor {
    /// Decides after a poll. A poll that failed counts as "not yet": only the deadline ends
    /// the wait, and the message then carries the last poll's error.
    pub fn step(&self, outcome: Result<bool, String>, elapsed_ns: u64) -> (res: WaitStep)
        requires
            self.wf(),
        ensures
            match res {
                WaitStep::Done(ms) => outcome matches Ok(true) && ms == elapsed_ns
                    / NANOS_PER_MILLI,
                WaitStep::TimedOut(message) => !(outcome matches Ok(true)) && expired(
                    self.timeout_ms as int,
                    elapsed_ns as int,
                ) && message@ == wait_timeout_text(
                    self.timeout_ms as int,
                    opt_text(self.selector),
                    opt_text(self.text),
                    match outcome {
                        Ok(_) => None,
                        Err(e) => Some(e@),
                    },
                ),
                WaitStep::Again => !(outcome matches Ok(true)) && !expired(
                    self.timeout_ms as int,
                    elapsed_ns as int,
                ),
            },
            outcome == Ok::<bool, String>(true) ==> res is Done && res->Done_0 == elapsed_ns
                / 1_000_000,
            outcome != Ok::<bool, String>(true) ==> (res is Again <==> elapsed_ns < self.timeout_ms
                * 1_000_000),
            outcome != Ok::<bool, String>(true) ==> (res is TimedOut <==> elapsed_ns
                >= self.timeout_ms * 1_000_000),
    {
        if let Ok(true) = outcome {
            return WaitStep::Done(elapsed_ns / NANOS_PER_MILLI);
        }
        if elapsed_ns < self.timeout_ms * NANOS_PER_MILLI {
            return WaitStep::Again;
        }
        let mut out = "wait_for timed out after ".to_owned();
        let ms = decimal_text(self.timeout_ms);
        out.append(ms.as_str());
        out.append("ms (selector: ");
        let s = debug_opt(crate::text::borrow_opt(&self.selector));
        out.append(s.as_str());
        out.append(", text: ");
        let t = debug_opt(crate::text::borrow_opt(&self.text));
        out.append(t.as_str());
        out.append(")");
        match outcome {
            Err(e) => {
                out.append("; last evaluation error: ");
                out.append(e.as_str());
            },
            Ok(_) => {},
        }
        WaitStep::TimedOut(out)
    }
}

// -- assert ------------------------------------------------------------------------------
/// Structured result of an assertion.
pub struct AssertOutcome {
    /// Whether the assertion held within the timeout.
    pub passed: bool,
    /// Human-readable description of what was checked.
    pub checked: String,
    /// Whether the target was present at the moment the decision was made.
    pub found: bool,
    pub elapsed_ms: u64,
}

/// An assertion under way.
pub struct Assertion {
    /// The condition to evaluate at each poll.
    pub script: String,
    pub checked: String,
    pub should_exist: bool,
    pub timeout_ms: u64,
    /// The presence seen by the last poll that answered.
    pub present: bool,
}

impl Assertion {
    pub open spec fn wf(self) -> bool {
        self.timeout_ms <= WAIT_FOR_MAX_TIMEOUT_MS
    }
}

/// Starts an assertion on the presence, or absence, of a selector and/or a text.
pub fn assert_presence(
    selector: Option<&str>,
    text: Option<&str>,
    should_exist: bool,
    timeout_ms: Option<u64>,
) -> (res: Result<Assertion, String>)
    ensures
        match res {
            Ok(a) => {
                &&& selector is Some || text is Some
                &&& a.wf()
                &&& a.script@ == condition_js(opt_str(selector), opt_str(text))
                &&& a.checked@ == checked_text(opt_str(selector), opt_str(text), should_exist)
                &&& a.should_exist == should_exist
                &&& a.timeout_ms == wait_timeout(timeout_ms)
                &&& !a.present
            },
            Err(e) => selector is None && text is None && e@
                == "assert needs at least one of `selector` or `text`"@,
        },
{
    if selector.is_none() && text.is_none() {
        return Err("assert needs at least one of `selector` or `text`".to_owned());
    }
    Ok(
        Assertion {
            script: condition_script(selector, text),
            checked: checked_description(selector, text, should_exist),
            should_exist,
            timeout_ms: wait_timeout_ms(timeout_ms),
            present: false,
        },
    )
}

/// The presence known after a poll: a poll that failed tells nothing.
pub open spec fn presence_after(before: bool, poll: Option<bool>) -> bool {
    match poll {
        Some(v) => v,
        None => before,
    }
}

impl Assertion {
    /// Decides after a poll (`None` when the poll failed). An assertion never fails with an
    /// error: it passes as soon as a poll sees what was asked for, fails when the deadline
    /// has passed, and polls again otherwise.
    pub fn step(&mut self, poll: Option<bool>, elapsed_ns: u64) -> (res: Option<AssertOutcome>)
        requires
            old(self).wf(),
        ensures
            final(self).wf(),
            final(self).present == presence_after(old(self).present, poll),
            final(self).script@ == old(self).script@,
            final(self).checked@ == old(self).checked@,
            final(self).should_exist == old(self).should_exist,
            final(self).timeout_ms == old(self).timeout_ms,
            match res {
                Some(o) => {
                    &&& o.passed == (poll == Some(old(self).should_exist))
                    &&& o.passed || expired(old(self).timeout_ms as int, elapsed_ns as int)
                    &&& o.checked@ == old(self).checked@
                    &&& o.found == presence_after(old(self).present, poll)
                    &&& o.elapsed_ms == elapsed_ns / NANOS_PER_MILLI
                },
                None => poll != Some(old(self).should_exist) && !expired(
                    old(self).timeout_ms as int,
                    elapsed_ns as int,
                ),
            },
            res is None <==> poll != Some(old(self).should_exist) && elapsed_ns < old(self).timeout_ms * 1_000_000,
            poll matches Some(v) ==> final(self).present == v,
            poll is None ==> final(self).present == old(self).present,
            res matches Some(o) ==> o.found == final(self).present && o.elapsed_ms == elapsed_ns
                / 1_000_000,
    {
        let passed = match poll {
            Some(v) => {
                self.present = v;
                v == self.should_exist
            },
            None => false,
        };
        if passed || elapsed_ns >= self.timeout_ms * NANOS_PER_MILLI {
            Some(
                AssertOutcome {
                    passed,
                    checked: self.checked.clone(),
                    found: self.present,
                    elapsed_ms: elapsed_ns / NANOS_PER_MILLI,
                },
            )
        } else {
            None
        }
    }
}

// -- actionability ------------------------------------------------------------------------------
/// The state that an actionability check reports.
pub open spec fn sample_state(v: JsonView) -> Seq<char> {
    match v.str_at("state"@) {
        Some(s) => s,
        None => "notfound"@,
    }
}

/// What the first sample of a poll tells.
pub enum Sample {
    /// Actionable at the moment: sample again and compare this rectangle.
    Settling(Option<Json>),
    /// Blocked by the named state.
    Blocked(String),
}

/// Reads the first sample of a poll.
pub fn first_sample(v: &Json) -> (res: Sample)
    ensures
        match res {
            Sample::Settling(rect) => sample_state(v@) == "ok"@ && match rect {
                Some(r) => v@.get("rect"@) == Some(r@),
                None => v@.get("rect"@) is None,
            },
            Sample::Blocked(state) => sample_state(v@) != "ok"@ && state@ == sample_state(v@),
        },
        v@.str_at("state"@) == Some("ok"@) ==> res is Settling,
        v@.str_at("state"@) is None ==> res is Blocked && res->Blocked_0@ == "notfound"@,
        v@.str_at("state"@) matches Some(s) ==> s != "ok"@ ==> res is Blocked && res->Blocked_0@
            == s,
{
    proof {
        reveal_strlit("ok");
        reveal_strlit("notfound");
        assert("ok"@.len() != "notfound"@.len());
    }
    let state = match v.str_at("state") {
        Some(s) => s,
        None => "notfound",
    };
    if same(state, "ok") {
        match v.get("rect") {
            Some(r) => Sample::Settling(Some(r.copy())),
            None => Sample::Settling(None),
        }
    } else {
        Sample::Blocked(state.to_owned())
    }
}

/// Two rectangles are there and equal.
pub open spec fn same_rects(a: Option<JsonView>, b: Option<JsonView>) -> bool {
    match (a, b) {
        (Some(a), Some(b)) => json_eq(a, b),
        _ => false,
    }
}

/// Whether two sampled rectangles are there and equal.
pub fn rects_equal(a: Option<&Json>, b: Option<&Json>) -> (res: bool)
    ensures
        res == same_rects(opt_view(a), opt_view(b)),
        res <==> a is Some && b is Some && json_eq(a.unwrap()@, b.unwrap()@),
{
    match (a, b) {
        (Some(a), Some(b)) => a.equals(b),
        _ => false,
    }
}

/// Whether the second sample shows the element where the first one did.
pub fn is_stable(first_rect: Option<&Json>, second: &Json) -> (res: bool)
    ensures
        res == (second@.str_at("state"@) == Some("ok"@) && same_rects(
            opt_view(first_rect),
            second@.get("rect"@),
        )),
        res <==> second@.str_at("state"@) == Some("ok"@) && first_rect is Some && second@.get(
            "rect"@,
        ) is Some && json_eq(first_rect.unwrap()@, second@.get("rect"@).unwrap()),
{
    match second.str_at("state") {
        Some(s) => same(s, "ok") && rects_equal(first_rect, second.get("rect")),
        None => false,
    }
}

/// The error of an element that did not become actionable.
pub open spec fn actionable_error_text(
    css_path: Seq<char>,
    blocker: Seq<char>,
    ms: int,
) -> Seq<char> {
    let el = "element "@ + debug_text(css_path);
    if blocker == "notfound"@ {
        el + " not found within "@ + decimal(ms) + "ms"@
    } else if blocker == "hidden"@ {
        el
            + " is present but not visible (display:none / visibility:hidden / zero-size) after "@
            + decimal(ms) + "ms"@
    } else if blocker == "disabled"@ {
        el + " is present but disabled after "@ + decimal(ms) + "ms"@
    } else if blocker == "covered"@ {
        el
            + " is covered by another element (not the top element at its center point) after "@
            + decimal(ms) + "ms"@
    } else if blocker == "unstable"@ {
        el + " never became stable (still animating/moving) within "@ + decimal(ms) + "ms"@
    } else {
        el + " not actionable ("@ + blocker + ") within "@ + decimal(ms) + "ms"@
    }
}

/// The error of an element that did not become actionable, naming what blocked it.
pub fn actionable_error(css_path: &str, blocker: &str, timeout_ms: u64) -> (res: String)
    ensures
        res@ == actionable_error_text(css_path@, blocker@, timeout_ms as int),
{
    let mut out = "element ".to_owned();
    let d = debug(css_path);
    out.append(d.as_str());
    if same(blocker, "notfound") {
        out.append(" not found within ");
    } else if same(blocker, "hidden") {
        out.append(
            " is present but not visible (display:none / visibility:hidden / zero-size) after ",
        );
    } else if same(blocker, "disabled") {
        out.append(" is present but disabled after ");
    } else if same(blocker, "covered") {
        out.append(
            " is covered by another element (not the top element at its center point) after ",
        );
    } else if same(blocker, "unstable") {
        out.append(" never became stable (still animating/moving) within ");
    } else {
        out.append(" not actionable (");
        out.append(blocker);
        out.append(") within ");
    }
    let ms = decimal_text(timeout_ms);
    out.append(ms.as_str());
    out.append("ms");
    out
}

/// What blocks the element after a full poll, if anything: the first sample's state, or
/// its instability.
pub open spec fn poll_blocker(first: JsonView, second: Option<JsonView>) -> Option<Seq<char>> {
    if sample_state(first) != "ok"@ {
        Some(sample_state(first))
    } else {
        match second {
            Some(v) => if v.str_at("state"@) == Some("ok"@) && same_rects(
                first.get("rect"@),
                v.get("rect"@),
            ) {
                None
            } else {
                Some("unstable"@)
            },
            None => Some("unstable"@),
        }
    }
}

/// Decides after an actionability poll whose element is blocked: keep polling until the
/// deadline, then give up with the reason.
pub fn wait_actionable(css_path: &str, blocker: &str, timeout_ms: u64, elapsed_ns: u64) -> (res:
    Result<(), String>)
    ensures
        match res {
            Ok(()) => !expired(timeout_ms as int, elapsed_ns as int),
            Err(e) => expired(timeout_ms as int, elapsed_ns as int) && e@
                == actionable_error_text(css_path@, blocker@, timeout_ms as int),
        },
        res is Ok <==> elapsed_ns < timeout_ms * 1_000_000,
{
    if elapsed_ns as u128 >= nanos(timeout_ms) {
        Err(actionable_error(css_path, blocker, timeout_ms))
    } else {
        Ok(())
    }
}

/// The blocker of a full poll; the second sample is only taken when the first is `ok`.
pub fn blocker(first: &Json, second: Option<&Json>) -> (res: Option<String>)
    ensures
        opt_text(res) == poll_blocker(first@, opt_view(second)),
{
    match first_sample(first) {
        Sample::Blocked(state) => Some(state),
        Sample::Settling(rect) => {
            let stable = match second {
                Some(v) => match &rect {
                    Some(r) => is_stable(Some(r), v),
                    None => is_stable(None, v),
                },
                None => false,
            };
            if stable {
                None
            } else {
                Some("unstable".to_owned())
            }
        },
    }
}

// -- retries ------------------------------------------------------------------------------
/// How often a protocol call is sent before its error is final.
pub const MAX_ATTEMPTS: u32 = 3;

/// Decides after a failed attempt (the first one is 0): `None` to pause and send again, or
/// the final error.
pub fn retry(what: &str, attempt: u32, error: &str) -> (res: Option<String>)
    ensures
        opt_text(res) == if attempt + 1 < 3 {
            None
        } else {
            Some(what@ + " failed after retries: "@ + error@)
        },
{
    if attempt < MAX_ATTEMPTS - 1 {
        None
    } else {
        let mut out = what.to_owned();
        out.append(" failed after retries: ");
        out.append(error);
        Some(out)
    }
}

// -- laws ------------------------------------------------------------------------------
/// A later poll never gets a larger budget: as the deadline nears, budgets only shrink.
pub proof fn law_budgets_shrink(timeout_ns: int, earlier_ns: int, later_ns: int)
    requires
        earlier_ns <= later_ns,
    ensures
        budget_ns(timeout_ns, later_ns) <= budget_ns(timeout_ns, earlier_ns),
{
}

/// While more than the floor is left, a poll that uses up its budget still ends by the
/// deadline.
pub proof fn law_budget_respects_deadline(timeout_ns: int, elapsed_ns: int)
    requires
        timeout_ns - elapsed_ns >= WAIT_FOR_MIN_BUDGET_NS,
    ensures
        elapsed_ns + budget_ns(timeout_ns, elapsed_ns) <= timeout_ns,
{
}

/// An element that is actionable and does not move passes at the first poll.
pub proof fn law_settled_element_passes_at_once(sample: JsonView)
    requires
        sample.str_at("state"@) == Some("ok"@),
        sample.get("rect"@) is Some,
    ensures
        poll_blocker(sample, Some(sample)) is None,
{
    law_equality_is_reflexive(sample.get("rect"@).unwrap());
}

/// The presence known after a series of polls, of which some failed.
pub open spec fn presence(polls: Seq<Option<bool>>) -> bool
    decreases polls.len(),
{
    if polls.len() == 0 {
        false
    } else {
        presence_after(presence(polls.drop_last()), polls.last())
    }
}

/// Failed polls never change what an assertion reports: it is what the last poll that
/// answered has seen, and absence before any answered.
pub proof fn law_failed_polls_tell_nothing(polls: Seq<Option<bool>>)
    ensures
        presence(polls) == presence(polls.filter(|p: Option<bool>| p is Some)),
    decreases polls.len(),
{
    let answered = |p: Option<bool>| p is Some;
    if polls.len() > 0 {
        let front = polls.drop_last();
        law_failed_polls_tell_nothing(front);
        assert(polls =~= front.push(polls.last()));
        front.lemma_filter_push(polls.last(), answered);
        if polls.last() is Some {
            assert(polls.filter(answered).drop_last() =~= front.filter(answered));
        }
    } else {
        assert(polls.filter(answered).len() == 0) by {
            reveal(Seq::filter);
        }
    }
}

/// Whether two coordinates are the same number: integers of one value, or floats of one value.
pub open spec fn same_coordinate(a: JsonView, b: JsonView) -> bool {
    match a {
        JsonView::Num(NumberView::Float(x, _)) => match b {
            JsonView::Num(NumberView::Float(y, _)) => x == y || ((x == 0 || x
                == 0x8000_0000_0000_0000) && (y == 0 || y == 0x8000_0000_0000_0000)),
            _ => false,
        },
        _ => a == b,
    }
}

/// An element passes a poll only if it did not move in any coordinate. Where it passes, both
/// samples are `ok`, both rectangles are there, and they are equal in length and in every
/// position; where the lengths or one position differ, the blocker is `unstable`.
pub proof fn law_moving_element_is_unstable(
    first: JsonView,
    second: JsonView,
    x: Seq<JsonView>,
    y: Seq<JsonView>,
    i: int,
)
    requires
        first.get("rect"@) == Some(JsonView::Array(x)),
        second.get("rect"@) == Some(JsonView::Array(y)),
        forall|k: int| 0 <= k < x.len() ==> (#[trigger] x[k]) is Num,
    ensures
        poll_blocker(first, Some(second)) is None ==> first.str_at("state"@) == Some("ok"@)
            && second.str_at("state"@) == Some("ok"@) && x.len() == y.len() && forall|k: int|
            0 <= k < x.len() ==> same_coordinate(#[trigger] x[k], y[k]),
        first.str_at("state"@) == Some("ok"@) && x.len() != y.len() ==> poll_blocker(
            first,
            Some(second),
        ) == Some("unstable"@),
        first.str_at("state"@) == Some("ok"@) && 0 <= i < x.len() && i < y.len()
            && !same_coordinate(x[i], y[i]) ==> poll_blocker(first, Some(second)) == Some(
            "unstable"@,
        ),
{
    reveal_strlit("ok");
    reveal_strlit("notfound");
    assert("ok"@.len() != "notfound"@.len());
    let a = JsonView::Array(x);
    let b = JsonView::Array(y);
    law_equality_of_parts(x, y, Seq::empty(), Seq::empty());
    if json_eq(a, b) {
        assert forall|k: int| 0 <= k < x.len() implies same_coordinate(#[trigger] x[k], y[k]) by {
            law_equality_of_scalars(x[k], y[k]);
        }
    }
}

/// Nothing passes a poll without two rectangles that are equal and two samples that are `ok`; a
/// poll whose first sample is not says so, and one without a second sample is `unstable`.
pub proof fn law_poll_needs_two_equal_samples(first: JsonView, second: JsonView)
    ensures
        poll_blocker(first, Some(second)) is None <==> first.str_at("state"@) == Some("ok"@)
            && second.str_at("state"@) == Some("ok"@) && first.get("rect"@) is Some && second.get(
            "rect"@,
        ) is Some && json_eq(first.get("rect"@).unwrap(), second.get("rect"@).unwrap()),
        first.str_at("state"@) is None ==> poll_blocker(first, Some(second)) == Some("notfound"@)
            && poll_blocker(first, None) == Some("notfound"@),
        first.str_at("state"@) matches Some(s) ==> s != "ok"@ ==> poll_blocker(first, Some(second))
            == Some(s) && poll_blocker(first, None) == Some(s),
        first.str_at("state"@) == Some("ok"@) ==> poll_blocker(first, None) == Some("unstable"@),
        first.str_at("state"@) == Some("ok"@) && poll_blocker(first, Some(second)) is Some
            ==> poll_blocker(first, Some(second)) == Some("unstable"@),
{
    reveal_strlit("ok");
    reveal_strlit("notfound");
    assert("ok"@.len() != "notfound"@.len());
}

/// The error of an element that did not become actionable names the element, what blocked it,
/// and how long was waited.
pub proof fn law_actionable_errors(p: Seq<char>, b: Seq<char>, ms: int)
    ensures
        actionable_error_text(p, "notfound"@, ms) == "element "@ + debug_text(p)
            + " not found within "@ + decimal(ms) + "ms"@,
        actionable_error_text(p, "hidden"@, ms) == "element "@ + debug_text(p)
            + " is present but not visible (display:none / visibility:hidden / zero-size) after "@
            + decimal(ms) + "ms"@,
        actionable_error_text(p, "disabled"@, ms) == "element "@ + debug_text(p)
            + " is present but disabled after "@ + decimal(ms) + "ms"@,
        actionable_error_text(p, "covered"@, ms) == "element "@ + debug_text(p)
            + " is covered by another element (not the top element at its center point) after "@
            + decimal(ms) + "ms"@,
        actionable_error_text(p, "unstable"@, ms) == "element "@ + debug_text(p)
            + " never became stable (still animating/moving) within "@ + decimal(ms) + "ms"@,
        b != "notfound"@ && b != "hidden"@ && b != "disabled"@ && b != "covered"@ && b
            != "unstable"@ ==> actionable_error_text(p, b, ms) == "element "@ + debug_text(p)
            + " not actionable ("@ + b + ") within "@ + decimal(ms) + "ms"@,
{
    reveal_strlit("notfound");
    reveal_strlit("hidden");
    reveal_strlit("disabled");
    reveal_strlit("covered");
    reveal_strlit("unstable");
    assert("notfound"@[0] == 'n');
    assert("hidden"@[0] == 'h');
    assert("disabled"@[0] == 'd');
    assert("covered"@[0] == 'c');
    assert("unstable"@[0] == 'u');
}

/// The error of a wait that ran out of time names the wait's own time, what it waited for, and
/// the last error where there is one.
pub proof fn law_wait_errors(ms: int, s: Seq<char>, t: Seq<char>, e: Seq<char>)
    ensures
        wait_timeout_text(ms, Some(s), Some(t), None) == "wait_for timed out after "@ + decimal(ms)
            + "ms (selector: "@ + ("Some("@ + debug_text(s) + ")"@) + ", text: "@ + ("Some("@
            + debug_text(t) + ")"@) + ")"@,
        wait_timeout_text(ms, Some(s), None, None) == "wait_for timed out after "@ + decimal(ms)
            + "ms (selector: "@ + ("Some("@ + debug_text(s) + ")"@) + ", text: "@ + "None"@ + ")"@,
        wait_timeout_text(ms, None, Some(t), None) == "wait_for timed out after "@ + decimal(ms)
            + "ms (selector: "@ + "None"@ + ", text: "@ + ("Some("@ + debug_text(t) + ")"@) + ")"@,
        forall|a: Option<Seq<char>>, b: Option<Seq<char>>| #[trigger]
            wait_timeout_text(ms, a, b, Some(e)) == wait_timeout_text(ms, a, b, None)
                + "; last evaluation error: "@ + e,
{
}

/// What a poll that answered has seen is what is known behind it; before any answered, nothing
/// is there.
pub proof fn law_last_answer_counts(polls: Seq<Option<bool>>, v: bool)
    ensures
        presence(polls.push(Some(v))) == v,
        presence(polls.push(None)) == presence(polls),
        !presence(Seq::<Option<bool>>::empty()),
{
    assert(polls.push(Some(v)).drop_last() =~= polls);
    assert(polls.push(None).drop_last() =~= polls);
}

} // verus!
