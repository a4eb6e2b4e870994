//! Selectors and the scripts built from them: CSS by default, plus `text=…` and
//! `role=…[name="…"]`, extraction, option selection, and presence conditions.
use crate::json::{json_quoted, serde_json_string};
use crate::text::{debug, debug_text, ends_with, has_prefix, opt_str, starts_with, to_chars};
use vstd::prelude::*;

verus! {

// -- scripts ------------------------------------------------------------------------------
/// The part of the resolver script before the selector literal.
pub const RESOLVE_HEAD: &'static str = r#"(() => {
        const SEL = "#;

/// The part of the resolver script behind the selector literal.
pub const RESOLVE_TAIL: &'static str = r#";
        const t = (s) => (s || '').replace(/\s+/g, ' ').trim();
        const visText = (el) => t(el.innerText || el.textContent || '');
        const cssPath = (el) => {
            if (!el || el.nodeType !== 1) return null;
            const parts = [];
            let node = el;
            while (node && node.nodeType === 1 && node !== document.documentElement) {
                let seg = node.nodeName.toLowerCase();
                const parent = node.parentElement;
                if (!parent) { parts.unshift(seg); break; }
                const sib = Array.from(parent.children).filter(c => c.nodeName === node.nodeName);
                if (sib.length > 1) seg += ':nth-of-type(' + (sib.indexOf(node) + 1) + ')';
                parts.unshift(seg);
                node = parent;
            }
            return parts.length ? parts.join(' > ') : null;
        };
        const accName = (el) => {
            let n = t(el.getAttribute && el.getAttribute('aria-label'));
            if (n) return n;
            const lb = el.getAttribute && el.getAttribute('aria-labelledby');
            if (lb) {
                const s = t(lb.split(/\s+/).map(id => {
                    const e = document.getElementById(id); return e ? visText(e) : '';
                }).join(' '));
                if (s) return s;
            }
            if (el.id) {
                const lab = document.querySelector('label[for="' + el.id.replace(/"/g, '\\"') + '"]');
                if (lab) { const s = visText(lab); if (s) return s; }
            }
            if (el.closest) { const w = el.closest('label'); if (w) { const s = visText(w); if (s) return s; } }
            let s = visText(el); if (s) return s;
            s = t(el.getAttribute && el.getAttribute('value')); if (s) return s;
            s = t(el.getAttribute && el.getAttribute('placeholder')); if (s) return s;
            s = t(el.getAttribute && el.getAttribute('title')); if (s) return s;
            s = t(el.getAttribute && el.getAttribute('alt')); if (s) return s;
            return '';
        };
        const isHidden = (el) => {
            const st = window.getComputedStyle(el);
            return !st || st.display === 'none' || st.visibility === 'hidden';
        };
        let target = null;
        if (SEL.slice(0, 5) === 'text=') {
            const needle = SEL.slice(5).trim();
            for (const el of document.querySelectorAll('body, body *')) {
                if (isHidden(el)) continue;
                const txt = visText(el);
                if (txt && txt.includes(needle)) {
                    let deeper = false;
                    for (const c of el.children) {
                        if (!isHidden(c) && visText(c).includes(needle)) { deeper = true; break; }
                    }
                    if (!deeper) { target = el; break; }
                }
            }
        } else if (SEL.slice(0, 5) === 'role=') {
            const m = SEL.slice(5).match(/^([a-zA-Z]+)(?:\[name=(?:"([^"]*)"|'([^']*)'|([^\]]*))\])?$/);
            if (m) {
                const role = m[1].toLowerCase();
                const name = m[2] !== undefined ? m[2] : (m[3] !== undefined ? m[3] : m[4]);
                const map = {
                    button: 'button,[role=button],input[type=button],input[type=submit],input[type=reset]',
                    link: 'a[href],[role=link]',
                    textbox: "input:not([type=button]):not([type=submit]):not([type=reset]):not([type=checkbox]):not([type=radio]):not([type=hidden]):not([type=file]):not([type=image]),textarea,[role=textbox]",
                    checkbox: 'input[type=checkbox],[role=checkbox]',
                    radio: 'input[type=radio],[role=radio]',
                    combobox: 'select,[role=combobox]',
                    heading: 'h1,h2,h3,h4,h5,h6,[role=heading]',
                    img: 'img,[role=img]',
                    list: 'ul,ol,[role=list]',
                    listitem: 'li,[role=listitem]'
                };
                const q = map[role] || ('[role=' + role + ']');
                for (const el of document.querySelectorAll(q)) {
                    if (name === undefined || name === null || name === '') { target = el; break; }
                    if (accName(el).toLowerCase().includes(String(name).toLowerCase())) { target = el; break; }
                }
            }
        } else {
            target = document.querySelector(SEL);
            return target ? SEL : null;
        }
        return cssPath(target);
    })()"#;

/// The part of the path-listing script before the selector literal.
pub const ALL_PATHS_HEAD: &'static str = r#"(() => {
            const cssPath = (el) => {
                if (!el || el.nodeType !== 1) return null;
                const parts = [];
                let node = el;
                while (node && node.nodeType === 1 && node !== document.documentElement) {
                    let seg = node.nodeName.toLowerCase();
                    const parent = node.parentElement;
                    if (!parent) { parts.unshift(seg); break; }
                    const sib = Array.from(parent.children).filter(c => c.nodeName === node.nodeName);
                    if (sib.length > 1) seg += ':nth-of-type(' + (sib.indexOf(node) + 1) + ')';
                    parts.unshift(seg);
                    node = parent;
                }
                return parts.length ? parts.join(' > ') : null;
            };
            return Array.from(document.querySelectorAll("#;

/// The part of the path-listing script behind the selector literal.
pub const ALL_PATHS_TAIL: &'static str = r#"))
                .slice(0, 200)
                .map(cssPath)
                .filter(Boolean);
        })()"#;

/// The part of the actionability check before the selector literal. The check evaluates to
/// `{state, rect:[x,y,w,h]}`, where `state` is one of ok / notfound / hidden / disabled /
/// covered.
pub const ACTIONABLE_HEAD: &'static str = r#"(() => {
    const el = document.querySelector("#;

/// The part of the actionability check behind the selector literal.
pub const ACTIONABLE_TAIL: &'static str = r#");
    if (!el) return { state: 'notfound' };
    const style = window.getComputedStyle(el);
    if (!style || style.display === 'none' || style.visibility === 'hidden' || style.opacity === '0')
        return { state: 'hidden' };
    const rect = el.getBoundingClientRect();
    if ((rect.width === 0 && rect.height === 0) && !el.offsetParent)
        return { state: 'hidden' };
    const disabled = (('disabled' in el) && el.disabled)
        || el.hasAttribute('disabled')
        || el.getAttribute('aria-disabled') === 'true';
    if (disabled) return { state: 'disabled', rect: [rect.x, rect.y, rect.width, rect.height] };
    const cx = rect.left + rect.width / 2, cy = rect.top + rect.height / 2;
    let covered = false;
    // Only meaningful when the center point is within the viewport.
    if (cx >= 0 && cy >= 0 && cx <= window.innerWidth && cy <= window.innerHeight) {
        const top = document.elementFromPoint(cx, cy);
        covered = !(top && (top === el || el.contains(top) || top.contains(el)));
    }
    if (covered) return { state: 'covered', rect: [rect.x, rect.y, rect.width, rect.height] };
    return { state: 'ok', rect: [rect.x, rect.y, rect.width, rect.height] };
})()"#;

/// The part of the select script before the path literal.
pub const SELECT_HEAD: &'static str = r#"(() => {
                const sel = document.querySelector("#;

/// The part of the select script between the path literal and the matcher.
pub const SELECT_MIDDLE: &'static str = r#");
                if (!sel) return { ok: false, error: 'select element not found' };
                if (sel.tagName.toLowerCase() !== 'select')
                    return { ok: false, error: 'element is not a <select>' };
                const opts = Array.from(sel.options);
                let opt = null;
                "#;

/// The part of the select script behind the matcher.
pub const SELECT_TAIL: &'static str = r#"
                if (!opt) return { ok: false, error: 'no matching <option>' };
                sel.value = opt.value;
                sel.dispatchEvent(new Event('input', { bubbles: true }));
                sel.dispatchEvent(new Event('change', { bubbles: true }));
                return { ok: true, value: sel.value };
            })()"#;

/// The in-page cleanup run before a field is typed into with `clear`.
pub const CLEAR_FIELD_JS: &'static str = "function() { if ('value' in this) { this.value = ''; this.dispatchEvent(new Event('input', { bubbles: true })); } else { this.textContent = ''; } }";

// -- resolution ------------------------------------------------------------------------------
/// Selectors that are resolved in the page: `text=…` and `role=…`.
pub open spec fn special_selector(selector: Seq<char>) -> bool {
    starts_with(selector, "text="@) || starts_with(selector, "role="@)
}

/// Whether a selector is a `text=…` or `role=…` one rather than plain CSS.
pub fn is_special_selector(selector: &str) -> (res: bool)
    ensures
        res == special_selector(selector@),
{
    let c = to_chars(selector);
    has_prefix(c.as_slice(), "text=") || has_prefix(c.as_slice(), "role=")
}

/// The script that resolves a selector to a unique CSS path, or `null`.
pub open spec fn resolve_script(selector: Seq<char>) -> Seq<char> {
    RESOLVE_HEAD@ + json_quoted(selector) + RESOLVE_TAIL@
}

/// A self-contained script that evaluates to a unique CSS path for the element matching
/// `selector`, or `null` when nothing matches. The selector stands in it as a string
/// literal, never as code.
pub fn resolve_iife(selector: &str) -> (res: String)
    ensures
        res@ == resolve_script(selector@),
{
    around(RESOLVE_HEAD, selector, RESOLVE_TAIL)
}

fn around(head: &str, literal: &str, tail: &str) -> (res: String)
    ensures
        res@ == head@ + json_quoted(literal@) + tail@,
{
    let mut out = head.to_owned();
    let q = serde_json_string(literal);
    out.append(q.as_str());
    out.append(tail);
    out
}

/// The path that the resolver script found, or an error that names the selector.
pub fn resolve_selector(selector: &str, found: Option<String>) -> (res: Result<String, String>)
    ensures
        match found {
            Some(path) => res matches Ok(p) && p@ == path@,
            None => res matches Err(e) && e@ == "no element matches selector "@ + debug_text(
                selector@,
            ),
        },
{
    match found {
        Some(path) => Ok(path),
        None => {
            let mut e = "no element matches selector ".to_owned();
            let d = debug(selector);
            e.append(d.as_str());
            Err(e)
        },
    }
}

/// The script that lists unique CSS paths for every match of a plain CSS selector.
pub fn all_css_paths(css: &str) -> (res: String)
    ensures
        res@ == ALL_PATHS_HEAD@ + json_quoted(css@) + ALL_PATHS_TAIL@,
{
    around(ALL_PATHS_HEAD, css, ALL_PATHS_TAIL)
}

/// How the handles for a selector are found.
pub enum QueryPlan {
    /// Resolve the selector to at most one path.
    ResolveOne,
    /// Evaluate a script that lists the paths.
    ListPaths(String),
}

/// A `text=`/`role=` selector resolves to at most one element; plain CSS lists them all.
pub fn query_all(selector: &str) -> (res: QueryPlan)
    ensures
        match res {
            QueryPlan::ResolveOne => special_selector(selector@),
            QueryPlan::ListPaths(js) => !special_selector(selector@) && js@ == ALL_PATHS_HEAD@
                + json_quoted(selector@) + ALL_PATHS_TAIL@,
        },
{
    if is_special_selector(selector) {
        QueryPlan::ResolveOne
    } else {
        QueryPlan::ListPaths(all_css_paths(selector))
    }
}

// -- extraction ------------------------------------------------------------------------------
/// What is read off each matched element.
pub open spec fn extract_expr(attribute: Option<Seq<char>>) -> Seq<char> {
    match attribute {
        Some(attr) => "el.getAttribute("@ + json_quoted(attr) + ") || ''"@,
        None => "(el.innerText || el.textContent || '').trim()"@,
    }
}

/// The script that reads text or an attribute off the first 50 matches.
pub open spec fn extract_js(query: Seq<char>, attribute: Option<Seq<char>>) -> Seq<char> {
    "Array.from(document.querySelectorAll("@ + json_quoted(query)
        + ")).slice(0, 50).map(el => "@ + extract_expr(attribute) + ")"@
}

/// The script that reads text or an attribute off the first 50 matches of a CSS query.
pub fn extract_script(query: &str, attribute: Option<&str>) -> (res: String)
    ensures
        res@ == extract_js(query@, opt_str(attribute)),
{
    let expr = match attribute {
        Some(attr) => around("el.getAttribute(", attr, ") || ''"),
        None => "(el.innerText || el.textContent || '').trim()".to_owned(),
    };
    let mut out = around(
        "Array.from(document.querySelectorAll(",
        query,
        ")).slice(0, 50).map(el => ",
    );
    out.append(expr.as_str());
    out.append(")");
    out
}

/// What an extraction does next.
pub enum ExtractPlan {
    /// Resolve the selector first; without a match the result is empty.
    Resolve,
    /// Evaluate this script.
    Evaluate(String),
}

/// Plain CSS extracts from all matches; a `text=`/`role=` selector is resolved to the
/// one element it names.
pub fn extract_from_page(selector: &str, attribute: Option<&str>) -> (res: ExtractPlan)
    ensures
        match res {
            ExtractPlan::Resolve => special_selector(selector@),
            ExtractPlan::Evaluate(js) => !special_selector(selector@) && js@ == extract_js(
                selector@,
                opt_str(attribute),
            ),
        },
{
    if is_special_selector(selector) {
        ExtractPlan::Resolve
    } else {
        ExtractPlan::Evaluate(extract_script(selector, attribute))
    }
}

// -- options of a select ------------------------------------------------------------------------------
/// The statement that picks the option: by value when there is one, else by label, where
/// an exact label wins over one that contains the text.
pub open spec fn option_matcher(value: Option<Seq<char>>, label: Seq<char>) -> Seq<char> {
    match value {
        Some(v) => "opt = opts.find(o => o.value === "@ + json_quoted(v) + ");"@,
        None => "opt = opts.find(o => (o.label || o.textContent || '').trim() === "@ + json_quoted(
            label,
        ) + ") || opts.find(o => (o.textContent || '').trim().includes("@ + json_quoted(label)
            + "));"@,
    }
}

/// The script that selects an option of the element at `path`.
pub open spec fn select_js(
    path: Seq<char>,
    value: Option<Seq<char>>,
    label: Seq<char>,
) -> Seq<char> {
    SELECT_HEAD@ + json_quoted(path) + SELECT_MIDDLE@ + option_matcher(value, label) + SELECT_TAIL@
}

/// Neither a value nor a label was given.
pub open spec fn select_refused(value: Option<&str>, label: Option<&str>) -> bool {
    value is None && label is None
}

/// Refuses a selection by neither value nor label.
pub fn check_select(value: Option<&str>, label: Option<&str>) -> (res: Result<(), String>)
    ensures
        res is Ok <==> !select_refused(value, label),
        res is Err <==> value is None && label is None,
        res matches Err(e) ==> e@ == "select_option needs one of `value` or `label`"@,
{
    if value.is_none() && label.is_none() {
        Err("select_option needs one of `value` or `label`".to_owned())
    } else {
        Ok(())
    }
}

/// The script that selects an option of the `<select>` at `path` and fires the events
/// that frameworks listen for. The value wins when both are given.
pub fn select_script(path: &str, value: Option<&str>, label: Option<&str>) -> (res: Result<
    String,
    String,
>)
    ensures
        match res {
            Ok(js) => !select_refused(value, label) && js@ == select_js(
                path@,
                opt_str(value),
                match label {
                    Some(l) => l@,
                    None => Seq::empty(),
                },
            ),
            Err(e) => select_refused(value, label) && e@
                == "select_option needs one of `value` or `label`"@,
        },
        res is Err <==> value is None && label is None,
        value matches Some(v) ==> res is Ok && res->Ok_0@ == SELECT_HEAD@ + json_quoted(path@)
            + SELECT_MIDDLE@ + ("opt = opts.find(o => o.value === "@ + json_quoted(v@) + ");"@)
            + SELECT_TAIL@,
{
    let matcher = match value {
        Some(v) => around("opt = opts.find(o => o.value === ", v, ");"),
        None => match label {
            Some(l) => {
                let mut m = around(
                    "opt = opts.find(o => (o.label || o.textContent || '').trim() === ",
                    l,
                    ") || opts.find(o => (o.textContent || '').trim().includes(",
                );
                let q = serde_json_string(l);
                m.append(q.as_str());
                m.append("));");
                m
            },
            None => {
                return Err("select_option needs one of `value` or `label`".to_owned());
            },
        },
    };
    let mut out = around(SELECT_HEAD, path, SELECT_MIDDLE);
    out.append(matcher.as_str());
    out.append(SELECT_TAIL);
    Ok(out)
}

/// What the select script reports.
pub struct SelectOutcome {
    pub ok: bool,
    pub value: Option<String>,
    pub error: Option<String>,
}

/// The value now selected, or the script's complaint.
pub fn select_option(outcome: SelectOutcome) -> (res: Result<String, String>)
    ensures
        if outcome.ok {
            res matches Ok(v) && v@ == match outcome.value {
                Some(s) => s@,
                None => Seq::empty(),
            }
        } else {
            res matches Err(e) && e@ == "select_option failed: "@ + match outcome.error {
                Some(s) => s@,
                None => "unknown"@,
            }
        },
{
    if outcome.ok {
        match outcome.value {
            Some(v) => Ok(v),
            None => Ok(String::new()),
        }
    } else {
        let mut e = "select_option failed: ".to_owned();
        match outcome.error {
            Some(why) => e.append(why.as_str()),
            None => e.append("unknown"),
        }
        Err(e)
    }
}

// -- actionability and conditions ------------------------------------------------------------------------------
/// The actionability check of the element at `css_path`.
pub fn actionable_script(css_path: &str) -> (res: String)
    ensures
        res@ == ACTIONABLE_HEAD@ + json_quoted(css_path@) + ACTIONABLE_TAIL@,
{
    around(ACTIONABLE_HEAD, css_path, ACTIONABLE_TAIL)
}

/// The script clause for the presence of a selector.
pub open spec fn selector_clause(selector: Seq<char>) -> Seq<char> {
    "(("@ + resolve_script(selector) + ") !== null)"@
}

/// The script clause for the presence of a text.
pub open spec fn text_clause(text: Seq<char>) -> Seq<char> {
    "!!(document.body && document.body.innerText.includes("@ + json_quoted(text) + "))"@
}

/// The script that tells whether everything asked for is present.
pub open spec fn condition_js(selector: Option<Seq<char>>, text: Option<Seq<char>>) -> Seq<char> {
    match (selector, text) {
        (Some(s), Some(t)) => selector_clause(s) + " && "@ + text_clause(t),
        (Some(s), None) => selector_clause(s),
        (None, Some(t)) => text_clause(t),
        (None, None) => Seq::empty(),
    }
}

/// The script that tells whether everything asked for is present.
pub fn condition_script(selector: Option<&str>, text: Option<&str>) -> (res: String)
    ensures
        res@ == condition_js(opt_str(selector), opt_str(text)),
{
    let text_part = match text {
        Some(t) => Some(
            around("!!(document.body && document.body.innerText.includes(", t, "))"),
        ),
        None => None,
    };
    match selector {
        Some(s) => {
            let mut out = "((".to_owned();
            let js = resolve_iife(s);
            out.append(js.as_str());
            out.append(") !== null)");
            match text_part {
                Some(t) => {
                    out.append(" && ");
                    out.append(t.as_str());
                },
                None => {},
            }
            out
        },
        None => match text_part {
            Some(t) => t,
            None => String::new(),
        },
    }
}

/// What an assertion says it checked.
pub open spec fn checked_text(
    selector: Option<Seq<char>>,
    text: Option<Seq<char>>,
    should_exist: bool,
) -> Seq<char> {
    let what = match (selector, text) {
        (Some(s), Some(t)) => "selector "@ + debug_text(s) + " and text "@ + debug_text(t),
        (Some(s), None) => "selector "@ + debug_text(s),
        (None, Some(t)) => "text "@ + debug_text(t),
        (None, None) => Seq::empty(),
    };
    what + (if should_exist {
        " present"@
    } else {
        " absent"@
    })
}

/// What an assertion says it checked.
pub fn checked_description(
    selector: Option<&str>,
    text: Option<&str>,
    should_exist: bool,
) -> (res: String)
    ensures
        res@ == checked_text(opt_str(selector), opt_str(text), should_exist),
{
    let mut out = String::new();
    match selector {
        Some(s) => {
            out = "selector ".to_owned();
            let d = debug(s);
            out.append(d.as_str());
            match text {
                Some(t) => {
                    out.append(" and text ");
                    let d = debug(t);
                    out.append(d.as_str());
                },
                None => {},
            }
        },
        None => match text {
            Some(t) => {
                out = "text ".to_owned();
                let d = debug(t);
                out.append(d.as_str());
            },
            None => {},
        },
    }
    if should_exist {
        out.append(" present");
    } else {
        out.append(" absent");
    }
    out
}

// -- laws ------------------------------------------------------------------------------
/// Whatever a selector holds, it enters the resolver script as one string literal: the
/// code around it never changes.
pub proof fn law_selector_is_only_a_literal(selector: Seq<char>)
    ensures
        starts_with(resolve_script(selector), RESOLVE_HEAD@.push('"')),
        ends_with(resolve_script(selector), seq!['"'] + RESOLVE_TAIL@),
{
    lemma_literal_frame(RESOLVE_HEAD@, selector, RESOLVE_TAIL@);
}

proof fn lemma_literal_frame(head: Seq<char>, literal: Seq<char>, tail: Seq<char>)
    ensures
        starts_with(head + json_quoted(literal) + tail, head.push('"')),
        ends_with(head + json_quoted(literal) + tail, seq!['"'] + tail),
{
    let whole = head + json_quoted(literal) + tail;
    assert(whole.take(head.len() as int + 1) =~= head.push('"'));
    assert(whole.skip(whole.len() - (tail.len() + 1)) =~= seq!['"'] + tail);
}

/// The script of a condition on both a selector and a text is the one on the selector and the
/// one on the text, joined by a logical and. The first asks whether the resolver finds
/// something, the second whether the page's visible text holds the text.
pub proof fn law_condition_is_conjunction(s: Seq<char>, t: Seq<char>)
    ensures
        condition_js(Some(s), None) == "(("@ + RESOLVE_HEAD@ + json_quoted(s) + RESOLVE_TAIL@
            + ") !== null)"@,
        condition_js(None, Some(t)) == "!!(document.body && document.body.innerText.includes("@
            + json_quoted(t) + "))"@,
        condition_js(Some(s), Some(t)) == condition_js(Some(s), None) + " && "@ + condition_js(
            None,
            Some(t),
        ),
        condition_js(None, None) == Seq::<char>::empty(),
{
    assert(condition_js(Some(s), None) =~= "(("@ + RESOLVE_HEAD@ + json_quoted(s) + RESOLVE_TAIL@
        + ") !== null)"@);
}

/// The scripts take what they are asked for as string literals, at these places of the code and
/// nowhere else.
pub proof fn law_scripts_hold_literals(s: Seq<char>, attr: Seq<char>, v: Seq<char>, l: Seq<char>)
    ensures
        resolve_script(s) == RESOLVE_HEAD@ + json_quoted(s) + RESOLVE_TAIL@,
        extract_js(s, None) == "Array.from(document.querySelectorAll("@ + json_quoted(s)
            + ")).slice(0, 50).map(el => "@ + "(el.innerText || el.textContent || '').trim()"@
            + ")"@,
        extract_js(s, Some(attr)) == "Array.from(document.querySelectorAll("@ + json_quoted(s)
            + ")).slice(0, 50).map(el => "@ + ("el.getAttribute("@ + json_quoted(attr)
            + ") || ''"@) + ")"@,
        select_js(s, Some(v), l) == SELECT_HEAD@ + json_quoted(s) + SELECT_MIDDLE@ + (
        "opt = opts.find(o => o.value === "@ + json_quoted(v) + ");"@) + SELECT_TAIL@,
        select_js(s, None, l) == SELECT_HEAD@ + json_quoted(s) + SELECT_MIDDLE@ + (
        "opt = opts.find(o => (o.label || o.textContent || '').trim() === "@ + json_quoted(l)
            + ") || opts.find(o => (o.textContent || '').trim().includes("@ + json_quoted(l)
            + "));"@) + SELECT_TAIL@,
{
}

/// Selectors that begin with `text=` or `role=` are resolved in the page; all others are CSS.
pub proof fn law_special_selectors(s: Seq<char>)
    ensures
        special_selector("text="@ + s),
        special_selector("role="@ + s),
        special_selector(s) ==> s.len() >= 5 && (s.take(5) == "text="@ || s.take(5) == "role="@),
{
    reveal_strlit("text=");
    reveal_strlit("role=");
    assert(("text="@ + s).take(5) =~= "text="@);
    assert(("role="@ + s).take(5) =~= "role="@);
}

/// What an assertion says it checked: the selector, the text, or the one and the other, and
/// whether it was to be there.
pub proof fn law_checked_descriptions(s: Seq<char>, t: Seq<char>)
    ensures
        checked_text(Some(s), None, true) == "selector "@ + debug_text(s) + " present"@,
        checked_text(Some(s), None, false) == "selector "@ + debug_text(s) + " absent"@,
        checked_text(None, Some(t), true) == "text "@ + debug_text(t) + " present"@,
        checked_text(None, Some(t), false) == "text "@ + debug_text(t) + " absent"@,
        checked_text(Some(s), Some(t), true) == "selector "@ + debug_text(s) + " and text "@
            + debug_text(t) + " present"@,
        checked_text(Some(s), Some(t), false) == "selector "@ + debug_text(s) + " and text "@
            + debug_text(t) + " absent"@,
{
}

} // verus!
