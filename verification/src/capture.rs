//! Console and network capture: bounded buffers that the page's events fill.
use crate::json::{json_text, Json, JsonView};
use crate::text::{
    clone_opt, contains_text, has_text, join, join_texts, lemma_texts_push, opt_text, same, texts,
};
use std::collections::VecDeque;
use vstd::prelude::*;

verus! {

/// Most console or network entries held per session; past it the oldest go.
pub const CAPTURE_CAP: usize = 500;

/// A console message captured on a session page.
pub struct ConsoleMessage {
    /// log / debug / info / warning / error, or a Log-domain level.
    pub level: String,
    pub text: String,
}

/// A network request captured on a session page.
pub struct NetworkRequest {
    /// Protocol id by which the response finds its request.
    pub request_id: String,
    pub method: String,
    pub url: String,
    /// HTTP status once the response is seen.
    pub status: Option<i64>,
    /// Document, Script, XHR, …
    pub resource_type: Option<String>,
}

// -- bounded buffers ------------------------------------------------------------------------------
/// A buffer after one more entry: at the cap the oldest entry goes first.
pub open spec fn pushed<T>(buf: Seq<T>, item: T) -> Seq<T> {
    if buf.len() >= CAPTURE_CAP {
        buf.drop_first().push(item)
    } else {
        buf.push(item)
    }
}

/// Adds an entry to a bounded buffer, dropping the oldest one at the cap.
pub fn push_capped<T>(buf: &mut VecDeque<T>, item: T)
    ensures
        final(buf)@ == pushed(old(buf)@, item),
        old(buf)@.len() < 500 ==> final(buf)@ == old(buf)@.push(item),
        old(buf)@.len() >= 500 ==> final(buf)@ == old(buf)@.drop_first().push(item),
{
    if buf.len() >= CAPTURE_CAP {
        let _ = buf.pop_front();
        assert(buf@ =~= old(buf)@.drop_first());
    }
    buf.push_back(item);
}

/// An initially empty buffer after a series of entries.
pub open spec fn buffered<T>(items: Seq<T>) -> Seq<T>
    decreases items.len(),
{
    if items.len() == 0 {
        Seq::empty()
    } else {
        pushed(buffered(items.drop_last()), items.last())
    }
}

/// The buffer always holds the most recent entries, in the order they came, and never
/// more than the cap.
pub proof fn law_buffer_holds_most_recent<T>(items: Seq<T>)
    ensures
        buffered(items).len() <= 500,
        buffered(items) == items.skip(
            if items.len() > 500 {
                items.len() - 500
            } else {
                0
            },
        ),
    decreases items.len(),
{
    if items.len() > 0 {
        law_buffer_holds_most_recent(items.drop_last());
    }
    let from = if items.len() > CAPTURE_CAP {
        items.len() - CAPTURE_CAP
    } else {
        0
    };
    assert(buffered(items) =~= items.skip(from));
}

// -- console ------------------------------------------------------------------------------
/// An argument of a `console.*` call.
pub struct ConsoleArg {
    pub value: Option<Json>,
    pub description: Option<String>,
    /// The remote object's type.
    pub kind: String,
}

/// The text of an argument: its value (a string as it is, anything else as JSON), else
/// its description, else its type.
pub open spec fn arg_text(a: ConsoleArg) -> Seq<char> {
    match a.value {
        Some(v) => match v@ {
            JsonView::Str(s) => s,
            other => json_text(other),
        },
        None => match a.description {
            Some(d) => d@,
            None => a.kind@,
        },
    }
}

/// The texts of a list of arguments.
pub open spec fn arg_texts(args: Seq<ConsoleArg>) -> Seq<Seq<char>> {
    args.map_values(|a: ConsoleArg| arg_text(a))
}

/// The arguments of a `console.*` call as one line.
pub fn console_args_to_text(args: &Vec<ConsoleArg>) -> (res: String)
    ensures
        res@ == join(arg_texts(args@), " "@),
{
    let mut parts: Vec<String> = Vec::new();
    for i in 0..args.len()
        invariant
            texts(parts@) == arg_texts(args@).take(i as int),
    {
        let part = match &args[i].value {
            Some(v) => match v {
                Json::Str(s) => s.clone(),
                other => other.to_text(),
            },
            None => match &args[i].description {
                Some(d) => d.clone(),
                None => args[i].kind.clone(),
            },
        };
        proof {
            lemma_texts_push(parts@, part);
            assert(arg_texts(args@).take(i + 1) =~= arg_texts(args@).take(i as int).push(part@));
        }
        parts.push(part);
    }
    assert(arg_texts(args@).take(args@.len() as int) =~= arg_texts(args@));
    join_texts(&parts, " ")
}

/// The level and text of a message.
pub open spec fn message_view(m: ConsoleMessage) -> (Seq<char>, Seq<char>) {
    (m.level@, m.text@)
}

/// The levels and texts of a list of messages.
pub open spec fn message_views(ms: Seq<ConsoleMessage>) -> Seq<(Seq<char>, Seq<char>)> {
    ms.map_values(|m: ConsoleMessage| message_view(m))
}

/// The captured console messages, oldest first; `clear` empties the buffer afterwards.
pub fn console(buf: &mut VecDeque<ConsoleMessage>, clear: bool) -> (res: Vec<ConsoleMessage>)
    ensures
        message_views(res@) == message_views(old(buf)@),
        res@.len() == old(buf)@.len(),
        forall|i: int|
            0 <= i < res@.len() ==> (#[trigger] res@[i]).level@ == old(buf)@[i].level@
                && res@[i].text@ == old(buf)@[i].text@,
        final(buf)@ == if clear {
            Seq::<ConsoleMessage>::empty()
        } else {
            old(buf)@
        },
{
    let mut out: Vec<ConsoleMessage> = Vec::new();
    for i in 0..buf.len()
        invariant
            buf@ == old(buf)@,
            message_views(out@) == message_views(buf@).take(i as int),
    {
        let ghost before = out@;
        let m = ConsoleMessage { level: buf[i].level.clone(), text: buf[i].text.clone() };
        out.push(m);
        assert(message_views(out@) =~= message_views(before).push(message_view(m)));
        assert(message_views(buf@).take(i + 1) =~= message_views(buf@).take(i as int).push(
            message_view(m),
        ));
    }
    assert(message_views(buf@).take(buf@.len() as int) =~= message_views(buf@));
    assert(out@.len() == message_views(out@).len());
    assert forall|i: int| 0 <= i < out@.len() implies (#[trigger] out@[i]).level@
        == buf@[i].level@ && out@[i].text@ == buf@[i].text@ by {
        assert(message_views(out@)[i] == message_views(buf@)[i]);
    }
    if clear {
        buf.clear();
    }
    out
}

// -- network ------------------------------------------------------------------------------
/// The entry of a request that is about to be sent.
pub fn request_sent(
    request_id: String,
    method: String,
    url: String,
    resource_type: Option<String>,
) -> (res: NetworkRequest)
    ensures
        res.request_id@ == request_id@,
        res.method@ == method@,
        res.url@ == url@,
        res.status is None,
        opt_text(res.resource_type) == opt_text(resource_type),
{
    NetworkRequest { request_id, method, url, status: None, resource_type }
}

/// The position of the most recent request with the given id, or -1.
pub open spec fn latest(buf: Seq<NetworkRequest>, id: Seq<char>) -> int
    decreases buf.len(),
{
    if buf.len() == 0 {
        -1
    } else if buf.last().request_id@ == id {
        buf.len() - 1
    } else {
        latest(buf.drop_last(), id)
    }
}

/// Records the status of a response on the most recent matching request; a response
/// without a request changes nothing.
pub fn response_received(buf: &mut VecDeque<NetworkRequest>, request_id: &str, status: i64)
    ensures
        ({
            let k = latest(old(buf)@, request_id@);
            final(buf)@ == if 0 <= k < old(buf)@.len() {
                old(buf)@.update(k, NetworkRequest { status: Some(status), ..old(buf)@[k] })
            } else {
                old(buf)@
            }
        }),
{
    let mut n: usize = buf.len();
    assert(buf@.take(n as int) =~= buf@);
    while n > 0
        invariant
            0 <= n <= buf@.len(),
            buf@ == old(buf)@,
            latest(buf@, request_id@) == latest(buf@.take(n as int), request_id@),
        decreases n,
    {
        assert(buf@.take(n as int).last() == buf@[n - 1]);
        if same(buf[n - 1].request_id.as_str(), request_id) {
            let at: usize = n - 1;
            match buf.remove(at) {
                Some(old_entry) => {
                    let entry = NetworkRequest {
                        request_id: old_entry.request_id,
                        method: old_entry.method,
                        url: old_entry.url,
                        status: Some(status),
                        resource_type: old_entry.resource_type,
                    };
                    buf.insert(at, entry);
                    assert(buf@ =~= old(buf)@.update(at as int, entry));
                },
                None => {},
            }
            return;
        }
        assert(buf@.take(n as int).drop_last() =~= buf@.take(n - 1));
        n = n - 1;
    }
}

/// The model of a captured request as it is returned.
pub struct RequestView {
    pub id: Seq<char>,
    pub method: Seq<char>,
    pub url: Seq<char>,
    pub status: Option<i64>,
    pub resource_type: Option<Seq<char>>,
}

impl NetworkRequest {
    pub open spec fn view(self) -> RequestView {
        RequestView {
            id: self.request_id@,
            method: self.method@,
            url: self.url@,
            status: self.status,
            resource_type: opt_text(self.resource_type),
        }
    }
}

/// Whether a URL passes the filter.
pub open spec fn passes(url: Seq<char>, filter: Option<Seq<char>>) -> bool {
    match filter {
        Some(f) => has_text(url, f),
        None => true,
    }
}

/// The requests whose URL passes the filter, in order.
pub open spec fn matching(buf: Seq<NetworkRequest>, filter: Option<Seq<char>>) -> Seq<RequestView>
    decreases buf.len(),
{
    if buf.len() == 0 {
        Seq::empty()
    } else {
        let before = matching(buf.drop_last(), filter);
        if passes(buf.last().url@, filter) {
            before.push(buf.last()@)
        } else {
            before
        }
    }
}

/// The models of a list of requests.
pub open spec fn request_views(rs: Seq<NetworkRequest>) -> Seq<RequestView> {
    rs.map_values(|r: NetworkRequest| r@)
}

/// The captured requests whose URL contains `filter`, oldest first; `clear` empties the
/// buffer afterwards.
pub fn network(buf: &mut VecDeque<NetworkRequest>, clear: bool, filter: Option<&str>) -> (res: Vec<
    NetworkRequest,
>)
    ensures
        request_views(res@) == matching(old(buf)@, crate::text::opt_str(filter)),
        res@.len() == matching(old(buf)@, crate::text::opt_str(filter)).len(),
        forall|i: int|
            0 <= i < res@.len() ==> (#[trigger] res@[i])@ == matching(
                old(buf)@,
                crate::text::opt_str(filter),
            )[i],
        final(buf)@ == if clear {
            Seq::<NetworkRequest>::empty()
        } else {
            old(buf)@
        },
{
    let ghost f = crate::text::opt_str(filter);
    let mut out: Vec<NetworkRequest> = Vec::new();
    for i in 0..buf.len()
        invariant
            buf@ == old(buf)@,
            f == crate::text::opt_str(filter),
            request_views(out@) == matching(buf@.take(i as int), f),
    {
        assert(buf@.take(i + 1).drop_last() =~= buf@.take(i as int));
        assert(buf@.take(i + 1).last() == buf@[i as int]);
        let wanted = match filter {
            Some(f) => contains_text(buf[i].url.as_str(), f),
            None => true,
        };
        if wanted {
            let ghost before = out@;
            let r = NetworkRequest {
                request_id: buf[i].request_id.clone(),
                method: buf[i].method.clone(),
                url: buf[i].url.clone(),
                status: buf[i].status,
                resource_type: clone_opt(&buf[i].resource_type),
            };
            out.push(r);
            assert(r@ == buf@[i as int]@);
            assert(request_views(out@) =~= request_views(before).push(r@));
        }
    }
    assert(buf@.take(buf@.len() as int) =~= buf@);
    if clear {
        buf.clear();
    }
    out
}

// -- laws ------------------------------------------------------------------------------
/// The text of an argument: a text value as it is, any other value as JSON, the description
/// where there is no value, the type where there is neither.
pub proof fn law_argument_texts(a: ConsoleArg, args: Seq<ConsoleArg>, i: int)
    ensures
        a.value matches Some(v) ==> match v@ {
            JsonView::Str(s) => arg_text(a) == s,
            _ => arg_text(a) == json_text(v@),
        },
        a.value is None ==> (a.description matches Some(d) ==> arg_text(a) == d@),
        a.value is None && a.description is None ==> arg_text(a) == a.kind@,
        arg_texts(args).len() == args.len(),
        0 <= i < args.len() ==> arg_texts(args)[i] == arg_text(args[i]),
{
}

/// A response belongs to the last request with its id; without one it belongs to none.
pub proof fn law_latest_request_of_an_id(buf: Seq<NetworkRequest>, id: Seq<char>)
    ensures
        -1 <= latest(buf, id) < buf.len(),
        latest(buf, id) >= 0 ==> buf[latest(buf, id)].request_id@ == id,
        forall|k: int| latest(buf, id) < k < buf.len() ==> (#[trigger] buf[k]).request_id@ != id,
    decreases buf.len(),
{
    if buf.len() > 0 {
        let front = buf.drop_last();
        law_latest_request_of_an_id(front, id);
        let r = latest(buf, id);
        assert forall|k: int| r < k < buf.len() implies (#[trigger] buf[k]).request_id@ != id by {
            if k < front.len() {
                assert(front[k] == buf[k]);
            }
        }
    }
}

/// Every request is judged for itself, in order, by its URL: it is returned where that holds
/// the filter, and always without one. What is returned of it is all that was captured.
pub proof fn law_requests_are_filtered_by_url(
    a: Seq<NetworkRequest>,
    b: Seq<NetworkRequest>,
    r: NetworkRequest,
    f: Seq<char>,
    filter: Option<Seq<char>>,
)
    ensures
        matching(a + b, filter) == matching(a, filter) + matching(b, filter),
        matching(seq![r], None) == seq![r@],
        has_text(r.url@, f) ==> matching(seq![r], Some(f)) == seq![r@],
        !has_text(r.url@, f) ==> matching(seq![r], Some(f)) == Seq::<RequestView>::empty(),
        r@.id == r.request_id@,
        r@.method == r.method@,
        r@.url == r.url@,
        r@.status == r.status,
        r@.resource_type == opt_text(r.resource_type),
    decreases b.len(),
{
    let one = seq![r];
    assert(one.drop_last() =~= Seq::<NetworkRequest>::empty());
    assert(matching(one.drop_last(), None) =~= Seq::<RequestView>::empty());
    assert(matching(one.drop_last(), Some(f)) =~= Seq::<RequestView>::empty());
    assert(one.last() == r);
    assert(matching(one, None) =~= seq![r@]);
    if has_text(r.url@, f) {
        assert(matching(one, Some(f)) =~= seq![r@]);
    }
    if b.len() == 0 {
        assert(a + b =~= a);
        assert(matching(a, filter) + matching(b, filter) =~= matching(a, filter));
    } else {
        assert((a + b).drop_last() =~= a + b.drop_last());
        assert((a + b).last() == b.last());
        law_requests_are_filtered_by_url(a, b.drop_last(), r, f, filter);
        assert(matching(a + b, filter) =~= matching(a, filter) + matching(b, filter));
    }
}

} // verus!
