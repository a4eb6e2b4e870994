//! Page operations: what is made of the answers that the page gives, and what setting
//! content, typing and filling forms consist of.
use crate::json::{Json, JsonView};
use crate::text::{cap, capped, debug, debug_text, opt_str, opt_text, same};
use vstd::prelude::*;

verus! {

/// Byte cap of a page's visible text.
pub const MAX_TEXT_CHARS: usize = 20_000;

/// Byte cap of a page's Markdown.
pub const MAX_MARKDOWN_CHARS: usize = 20_000;

/// Pause after `history.back()` before the new document is read.
pub const BACK_SETTLE_MS: u64 = 400;

/// Evaluates to the page's visible text.
pub const VISIBLE_TEXT_JS: &'static str = "document.body ? document.body.innerText : ''";

/// Picks the best content root and walks it to Markdown, leaving out navigation, scripts,
/// styles and asides. The caller caps the length.
pub const MARKDOWN_JS: &'static str = r#"(() => {
    const strip = new Set(['SCRIPT','STYLE','NOSCRIPT','NAV','ASIDE','HEADER','FOOTER','FORM','TEMPLATE','SVG','IFRAME']);
    const textLen = (el) => (el.innerText || '').replace(/\s+/g, ' ').trim().length;
    // Prefer an explicit main/article; otherwise the densest block.
    let root = document.querySelector('article') || document.querySelector('main')
        || document.querySelector('[role=main]');
    if (!root) {
        let best = document.body, bestScore = textLen(document.body) * 0.4;
        const blocks = document.querySelectorAll('article, main, section, div');
        for (const b of blocks) {
            if (b.closest('nav, aside, header, footer')) continue;
            const s = textLen(b);
            if (s > bestScore) { best = b; bestScore = s; }
        }
        root = best;
    }
    if (!root) return '';
    const esc = (s) => s.replace(/([\\`*_\[\]])/g, '\\$1');
    const clean = (s) => (s || '').replace(/\s+/g, ' ');
    const out = [];
    const inline = (el) => {
        let s = '';
        for (const n of el.childNodes) {
            if (n.nodeType === 3) { s += clean(n.textContent); continue; }
            if (n.nodeType !== 1) continue;
            const t = n.tagName;
            if (strip.has(t)) continue;
            if (t === 'A') {
                const href = n.getAttribute('href') || '';
                const txt = clean(n.innerText) || '';
                s += href ? '[' + esc(txt) + '](' + href + ')' : esc(txt);
            } else if (t === 'STRONG' || t === 'B') {
                s += '**' + inline(n).trim() + '**';
            } else if (t === 'EM' || t === 'I') {
                s += '*' + inline(n).trim() + '*';
            } else if (t === 'CODE') {
                s += '`' + clean(n.innerText) + '`';
            } else if (t === 'BR') {
                s += ' ';
            } else if (t === 'IMG') {
                const alt = n.getAttribute('alt') || '';
                const src = n.getAttribute('src') || '';
                if (src) s += '![' + esc(alt) + '](' + src + ')';
            } else {
                s += inline(n);
            }
        }
        return s;
    };
    const walk = (el) => {
        for (const n of el.children) {
            const t = n.tagName;
            if (strip.has(t)) continue;
            if (/^H[1-6]$/.test(t)) {
                const level = Number(t[1]);
                const txt = clean(n.innerText).trim();
                if (txt) out.push('#'.repeat(level) + ' ' + txt);
            } else if (t === 'P') {
                const txt = inline(n).trim();
                if (txt) out.push(txt);
            } else if (t === 'UL' || t === 'OL') {
                let i = 1;
                for (const li of n.children) {
                    if (li.tagName !== 'LI') continue;
                    const bullet = t === 'OL' ? (i++) + '. ' : '- ';
                    const txt = inline(li).trim();
                    if (txt) out.push(bullet + txt);
                }
                out.push('');
            } else if (t === 'PRE') {
                const code = (n.innerText || '').replace(/\s+$/, '');
                if (code) out.push('```\n' + code + '\n```');
            } else if (t === 'BLOCKQUOTE') {
                const txt = clean(n.innerText).trim();
                if (txt) out.push(txt.split('\n').map(l => '> ' + l).join('\n'));
            } else if (t === 'TABLE') {
                const rows = Array.from(n.querySelectorAll('tr'));
                let first = true;
                for (const r of rows) {
                    const cells = Array.from(r.children).map(c => clean(c.innerText).trim());
                    if (!cells.length) continue;
                    out.push('| ' + cells.join(' | ') + ' |');
                    if (first) {
                        out.push('| ' + cells.map(() => '---').join(' | ') + ' |');
                        first = false;
                    }
                }
                out.push('');
            } else if (t === 'A' || t === 'SPAN' || t === 'STRONG' || t === 'EM' || t === 'CODE') {
                const txt = inline(n).trim();
                if (txt) out.push(txt);
            } else {
                walk(n);
            }
        }
    };
    walk(root);
    return out.join('\n\n').replace(/\n{3,}/g, '\n\n').trim();
})()"#;

// -- reading a page ------------------------------------------------------------------------------
/// Title, URL and visible text of a page.
pub struct PageInfo {
    pub url: String,
    pub title: String,
    pub text: String,
}

/// Assembles what a navigation returns: the page's own URL where it has one, no title
/// where it has none, and the visible text, capped.
pub fn read_page_info(
    title: Option<String>,
    text: Option<String>,
    url: Option<String>,
    fallback_url: &str,
) -> (res: PageInfo)
    ensures
        res.title@ == text_or_empty(title),
        res.url@ == match url {
            Some(u) => u@,
            None => fallback_url@,
        },
        res.text@ == capped(text_or_empty(text), 20_000),
        title matches Some(t) ==> res.title@ == t@,
        title is None ==> res.title@.len() == 0,
        text matches Some(t) ==> res.text@ == capped(t@, 20_000),
{
    let text = or_empty(text);
    PageInfo {
        url: match url {
            Some(u) => u,
            None => fallback_url.to_owned(),
        },
        title: or_empty(title),
        text: cap(text, MAX_TEXT_CHARS),
    }
}

/// The text, or the empty one.
pub open spec fn text_or_empty(o: Option<String>) -> Seq<char> {
    match o {
        Some(s) => s@,
        None => Seq::empty(),
    }
}

/// The text, or the empty one.
pub fn or_empty(o: Option<String>) -> (res: String)
    ensures
        res@ == text_or_empty(o),
{
    match o {
        Some(s) => s,
        None => String::new(),
    }
}

/// The Markdown of a page as it is returned: capped, empty when the page gave none.
pub fn extract_markdown(markdown: Option<String>) -> (res: String)
    ensures
        res@ == capped(text_or_empty(markdown), 20_000),
        markdown matches Some(m) ==> res@ == capped(m@, 20_000),
{
    let md = or_empty(markdown);
    cap(md, MAX_MARKDOWN_CHARS)
}

// -- evaluating ------------------------------------------------------------------------------
/// What a thrown exception says: its description, else the details' text, else a
/// placeholder.
pub open spec fn exception_message(details: JsonView) -> Seq<char> {
    let description = match details.get("exception"@) {
        Some(e) => e.str_at("description"@),
        None => None,
    };
    match description {
        Some(d) => d,
        None => match details.str_at("text"@) {
            Some(t) => t,
            None => "evaluation threw"@,
        },
    }
}

/// The value that an evaluation returned; `null` where it cannot be serialised.
pub open spec fn evaluated_value(resp: JsonView) -> JsonView {
    match resp.get("result"@) {
        Some(r) => match r.get("value"@) {
            Some(v) => v,
            None => JsonView::Null,
        },
        None => JsonView::Null,
    }
}

/// Reads the response of `Runtime.evaluate`: a thrown exception is an error, everything
/// else a value.
pub fn evaluate(resp: &Json) -> (res: Result<Json, String>)
    ensures
        match resp@.get("exceptionDetails"@) {
            Some(details) => res is Err && res->Err_0@ == "page.evaluate error: "@
                + exception_message(details),
            None => res is Ok && res->Ok_0@ == evaluated_value(resp@),
        },
{
    match resp.get("exceptionDetails") {
        Some(details) => {
            let description = match details.get("exception") {
                Some(e) => e.str_at("description"),
                None => None,
            };
            let message = match description {
                Some(d) => d,
                None => match details.str_at("text") {
                    Some(t) => t,
                    None => "evaluation threw",
                },
            };
            let mut e = "page.evaluate error: ".to_owned();
            e.append(message);
            Err(e)
        },
        None => match resp.get("result") {
            Some(r) => match r.get("value") {
                Some(v) => Ok(v.copy()),
                None => Ok(Json::Null),
            },
            None => Ok(Json::Null),
        },
    }
}

// -- setting content ------------------------------------------------------------------------------
/// How long setting content waits: for which ready states, and how much longer after them.
pub struct ContentWait {
    /// Whether `interactive` is enough; `complete` always is.
    pub interactive: bool,
    pub settle_ms: u64,
}

/// Pause between two looks at the ready state.
pub const READY_POLL_MS: u64 = 50;

/// Settle time that approximates an idle network.
pub const NETWORK_IDLE_SETTLE_MS: u64 = 500;

/// What `wait_until` asks for: `domcontentloaded`, `networkidle0`/`networkidle2`, or
/// `load`, which is also the meaning of no value and of any other.
pub fn set_content(wait_until: Option<&str>) -> (res: ContentWait)
    ensures
        res.interactive == (opt_str(wait_until) == Some("domcontentloaded"@)),
        res.settle_ms == if opt_str(wait_until) == Some("networkidle0"@) || opt_str(wait_until)
            == Some("networkidle2"@) {
            500
        } else {
            0int
        },
{
    proof {
        reveal_strlit("domcontentloaded");
        reveal_strlit("networkidle0");
        reveal_strlit("networkidle2");
        assert("domcontentloaded"@.len() != "networkidle0"@.len());
        assert("domcontentloaded"@.len() != "networkidle2"@.len());
    }
    match wait_until {
        Some(w) => if same(w, "domcontentloaded") {
            ContentWait { interactive: true, settle_ms: 0 }
        } else if same(w, "networkidle0") || same(w, "networkidle2") {
            ContentWait { interactive: false, settle_ms: NETWORK_IDLE_SETTLE_MS }
        } else {
            ContentWait { interactive: false, settle_ms: 0 }
        },
        None => ContentWait { interactive: false, settle_ms: 0 },
    }
}

impl ContentWait {
    /// Whether the wait for the ready state is over: an accepted state was reached or the
    /// deadline has passed. It never fails.
    pub fn wait_ready_state(&self, state: &str, deadline_passed: bool) -> (res: bool)
        ensures
            res == (state@ == "complete"@ || (self.interactive && state@ == "interactive"@)
                || deadline_passed),
    {
        same(state, "complete") || (self.interactive && same(state, "interactive"))
            || deadline_passed
    }
}

// -- typing ------------------------------------------------------------------------------
/// One step of typing into an element.
#[derive(Clone, Copy, Debug, PartialEq, Eq, Structural)]
pub enum TypeStep {
    /// Click the element so that it takes the focus.
    Focus,
    /// Empty its current value.
    Clear,
    /// Type the text.
    Type,
    /// Press Enter.
    Enter,
}

/// The steps of typing, in order.
pub open spec fn type_plan(clear: bool, press_enter: bool) -> Seq<TypeStep> {
    seq![TypeStep::Focus] + (if clear {
        seq![TypeStep::Clear]
    } else {
        Seq::empty()
    }) + seq![TypeStep::Type] + (if press_enter {
        seq![TypeStep::Enter]
    } else {
        Seq::empty()
    })
}

/// The steps of typing into an element that is ready, in order.
pub fn perform_type(clear: bool, press_enter: bool) -> (res: Vec<TypeStep>)
    ensures
        res@ == type_plan(clear, press_enter),
{
    let mut steps: Vec<TypeStep> = Vec::new();
    steps.push(TypeStep::Focus);
    if clear {
        steps.push(TypeStep::Clear);
    }
    steps.push(TypeStep::Type);
    if press_enter {
        steps.push(TypeStep::Enter);
    }
    assert(steps@ =~= type_plan(clear, press_enter));
    steps
}

/// The error of a typing step.
pub fn type_error(step: TypeStep, selector: &str) -> (res: String)
    ensures
        res@ == match step {
            TypeStep::Focus => "failed to focus element matching "@ + debug_text(selector@),
            TypeStep::Clear => "failed to clear element value"@,
            TypeStep::Type => "failed to type text"@,
            TypeStep::Enter => "failed to press Enter"@,
        },
{
    match step {
        TypeStep::Focus => {
            let mut e = "failed to focus element matching ".to_owned();
            let d = debug(selector);
            e.append(d.as_str());
            e
        },
        TypeStep::Clear => "failed to clear element value".to_owned(),
        TypeStep::Type => "failed to type text".to_owned(),
        TypeStep::Enter => "failed to press Enter".to_owned(),
    }
}

// -- forms ------------------------------------------------------------------------------
/// Result of filling one field of a form.
pub struct FieldOutcome {
    pub selector: String,
    pub ok: bool,
    pub error: Option<String>,
}

/// The model of a field's outcome: its selector, and its error if it failed.
pub open spec fn outcome_is(o: FieldOutcome, selector: Seq<char>, result: Result<(), String>) -> bool {
    &&& o.selector@ == selector
    &&& o.ok == (result is Ok)
    &&& opt_text(o.error) == match result {
        Ok(()) => None,
        Err(e) => Some(e@),
    }
}

/// Records what became of one field; a failed field never stops the others.
pub fn fill_form(outcomes: &mut Vec<FieldOutcome>, selector: &str, result: Result<(), String>)
    ensures
        final(outcomes)@.len() == old(outcomes)@.len() + 1,
        final(outcomes)@.drop_last() == old(outcomes)@,
        outcome_is(final(outcomes)@.last(), selector@, result),
        final(outcomes)@.last().selector@ == selector@,
        final(outcomes)@.last().ok <==> result is Ok,
        result is Ok ==> final(outcomes)@.last().error is None,
        result matches Err(e) ==> opt_text(final(outcomes)@.last().error) == Some(e@),
{
    let outcome = match result {
        Ok(()) => FieldOutcome { selector: selector.to_owned(), ok: true, error: None },
        Err(e) => FieldOutcome { selector: selector.to_owned(), ok: false, error: Some(e) },
    };
    outcomes.push(outcome);
    assert(outcomes@.drop_last() =~= old(outcomes)@);
}

/// How many outcomes are successes.
pub open spec fn ok_count(outcomes: Seq<FieldOutcome>) -> int
    decreases outcomes.len(),
{
    if outcomes.len() == 0 {
        0
    } else {
        ok_count(outcomes.drop_last()) + if outcomes.last().ok {
            1int
        } else {
            0
        }
    }
}

/// How many fields were filled.
pub fn filled(outcomes: &Vec<FieldOutcome>) -> (res: usize)
    ensures
        res == ok_count(outcomes@),
        res <= outcomes@.len(),
{
    let mut n: usize = 0;
    for i in 0..outcomes.len()
        invariant
            n == ok_count(outcomes@.take(i as int)),
            n <= i,
    {
        assert(outcomes@.take(i + 1).drop_last() =~= outcomes@.take(i as int));
        if outcomes[i].ok {
            n = n + 1;
        }
    }
    assert(outcomes@.take(outcomes@.len() as int) =~= outcomes@);
    n
}

// -- laws ------------------------------------------------------------------------------
/// What an evaluation gives: the value where the answer holds one, `null` where it holds none,
/// and of a thrown exception its description, else the text of its details.
pub proof fn law_evaluations(resp: JsonView, r: JsonView, v: JsonView, s: Seq<char>)
    ensures
        resp.get("result"@) == Some(r) && r.get("value"@) == Some(v) ==> evaluated_value(resp) == v,
        resp.get("result"@) == Some(r) && r.get("value"@) is None ==> evaluated_value(resp)
            == JsonView::Null,
        resp.get("result"@) is None ==> evaluated_value(resp) == JsonView::Null,
        resp.get("exception"@) == Some(r) && r.get("description"@) == Some(JsonView::Str(s))
            ==> exception_message(resp) == s,
        (resp.get("exception"@) is None || (resp.get("exception"@) == Some(r) && !(r.get(
            "description"@,
        ) matches Some(JsonView::Str(_))))) && resp.get("text"@) == Some(JsonView::Str(s))
            ==> exception_message(resp) == s,
        (resp.get("exception"@) is None || (resp.get("exception"@) == Some(r) && !(r.get(
            "description"@,
        ) matches Some(JsonView::Str(_))))) && !(resp.get("text"@) matches Some(JsonView::Str(_)))
            ==> exception_message(resp) == "evaluation threw"@,
{
}

/// Typing first takes the focus, clears where that is asked for, types, and ends with Enter
/// where that is asked for.
pub proof fn law_typing_steps(clear: bool, press_enter: bool)
    ensures
        ({
            let plan = type_plan(clear, press_enter);
            let at: int = if clear {
                2
            } else {
                1
            };
            &&& plan[0] == TypeStep::Focus
            &&& clear ==> plan[1] == TypeStep::Clear
            &&& plan[at] == TypeStep::Type
            &&& press_enter ==> plan.len() == at + 2 && plan[at + 1] == TypeStep::Enter
            &&& !press_enter ==> plan.len() == at + 1
        }),
{
}

/// Every field that was filled counts once, and no other.
pub proof fn law_filled_fields_are_counted(outcomes: Seq<FieldOutcome>)
    ensures
        ok_count(outcomes) == outcomes.filter(|o: FieldOutcome| o.ok).len(),
    decreases outcomes.len(),
{
    reveal(Seq::filter);
    if outcomes.len() > 0 {
        law_filled_fields_are_counted(outcomes.drop_last());
    }
}

} // verus!
