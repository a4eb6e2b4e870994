//! Accessibility-tree snapshots: an indented text outline of the nodes that
//! `Accessibility.getFullAXTree` returns, cut at a byte budget.
use crate::json::{json_quoted, json_text, serde_json_string, views, Json, JsonView};
use crate::text::{
    byte_len, bytes_up_to, concat, is_empty, join, join_texts, law_concat_appends,
    lemma_byte_len_add, lemma_byte_len_bounds, lemma_texts_push, same, starts_with, texts,
};
use vstd::hash_map::StringHashMap;
use vstd::prelude::*;

verus! {

/// Byte budget of a snapshot.
pub const MAX_SNAPSHOT_CHARS: usize = 15_000;

/// Recursion-depth cap of the tree walk, which bounds the stack on deep or cyclic
/// trees. Far deeper than any real document nests.
pub const MAX_AX_DEPTH: usize = 256;

// -- one node ------------------------------------------------------------------------------
/// The computed value of an `AXValue` object as text: a string as it is, anything else
/// as JSON, nothing when there is no value.
pub open spec fn ax_value(v: Option<JsonView>) -> Seq<char> {
    match v {
        Some(v) => match v.get("value"@) {
            Some(JsonView::Str(s)) => s,
            Some(other) => json_text(other),
            None => Seq::empty(),
        },
        None => Seq::empty(),
    }
}

/// The computed value of an `AXValue` object as text.
pub fn ax_value_str(v: Option<&Json>) -> (res: String)
    ensures
        res@ == ax_value(crate::json::opt_view(v)),
{
    match v {
        Some(v) => match v.get("value") {
            Some(val) => match val {
                Json::Str(s) => s.clone(),
                other => other.to_text(),
            },
            None => String::new(),
        },
        None => String::new(),
    }
}

/// The node properties that the outline shows.
pub open spec fn is_shown_prop(name: Seq<char>) -> bool {
    ||| name == "focused"@
    ||| name == "checked"@
    ||| name == "disabled"@
    ||| name == "expanded"@
    ||| name == "selected"@
    ||| name == "pressed"@
    ||| name == "required"@
    ||| name == "readonly"@
    ||| name == "level"@
}

fn shown_prop(name: &str) -> (res: bool)
    ensures
        res == is_shown_prop(name@),
{
    same(name, "focused") || same(name, "checked") || same(name, "disabled") || same(
        name,
        "expanded",
    ) || same(name, "selected") || same(name, "pressed") || same(name, "required") || same(
        name,
        "readonly",
    ) || same(name, "level")
}

/// What one property shows: its name when it is true, nothing when it is false or
/// has no value, and `name=value` otherwise.
pub open spec fn prop_part(p: JsonView) -> Option<Seq<char>> {
    match p.str_at("name"@) {
        None => None,
        Some(name) => if !is_shown_prop(name) {
            None
        } else {
            match p.get("value"@) {
                None => None,
                Some(v) => match v.get("value"@) {
                    None => None,
                    Some(JsonView::Bool(b)) => if b {
                        Some(name)
                    } else {
                        None
                    },
                    Some(other) => Some(name + "="@ + json_text(other)),
                },
            }
        },
    }
}

/// What a list of properties shows, in order.
pub open spec fn prop_parts(props: Seq<JsonView>) -> Seq<Seq<char>>
    decreases props.len(),
{
    if props.len() == 0 {
        Seq::empty()
    } else {
        let before = prop_parts(props.drop_last());
        match prop_part(props.last()) {
            Some(part) => before.push(part),
            None => before,
        }
    }
}

/// The state shown behind a node's name.
pub open spec fn ax_props_text(node: JsonView) -> Seq<char> {
    match node.array_at("properties"@) {
        Some(props) => join(prop_parts(props), ", "@),
        None => Seq::empty(),
    }
}

fn one_prop(p: &Json) -> (res: Option<String>)
    ensures
        crate::text::opt_text(res) == prop_part(p@),
{
    match p.str_at("name") {
        None => None,
        Some(name) => {
            if !shown_prop(name) {
                return None;
            }
            match p.get("value") {
                None => None,
                Some(v) => match v.get("value") {
                    None => None,
                    Some(Json::Bool(b)) => if *b {
                        Some(name.to_owned())
                    } else {
                        None
                    },
                    Some(other) => {
                        let mut part = name.to_owned();
                        part.append("=");
                        let t = other.to_text();
                        part.append(t.as_str());
                        Some(part)
                    },
                },
            }
        },
    }
}

/// The state of a node that the outline shows, such as `focused, level=2`.
pub fn ax_props(node: &Json) -> (res: String)
    ensures
        res@ == ax_props_text(node@),
{
    match node.array_at("properties") {
        Some(props) => {
            let mut parts: Vec<String> = Vec::new();
            for i in 0..props.len()
                invariant
                    texts(parts@) == prop_parts(views(props@).take(i as int)),
            {
                assert(views(props@).take(i + 1).drop_last() =~= views(props@).take(i as int));
                match one_prop(&props[i]) {
                    Some(part) => {
                        proof {
                            lemma_texts_push(parts@, part);
                        }
                        parts.push(part);
                    },
                    None => {},
                }
            }
            assert(views(props@).take(props@.len() as int) =~= views(props@));
            join_texts(&parts, ", ")
        },
        None => String::new(),
    }
}

/// Roles that carry no meaning of their own.
pub open spec fn is_noise_role(role: Seq<char>) -> bool {
    ||| role.len() == 0
    ||| role == "generic"@
    ||| role == "none"@
    ||| role == "InlineTextBox"@
    ||| role == "LineBreak"@
}

/// Structural noise: ignored nodes, and unnamed nodes without a meaningful role.
pub open spec fn is_skipped(node: JsonView) -> bool {
    ||| node.bool_at("ignored"@) == Some(true)
    ||| (is_noise_role(ax_value(node.get("role"@))) && ax_value(node.get("name"@)).len() == 0)
}

/// The role as the outline writes it.
pub open spec fn display_role(role: Seq<char>) -> Seq<char> {
    if role == "RootWebArea"@ {
        "document"@
    } else if role == "StaticText"@ {
        "text"@
    } else {
        role
    }
}

/// Two spaces per level.
pub open spec fn indent(depth: int) -> Seq<char>
    decreases depth,
{
    if depth <= 0 {
        Seq::empty()
    } else {
        indent(depth - 1) + "  "@
    }
}

/// The line of a node that is not skipped.
pub open spec fn node_line(node: JsonView, depth: int) -> Seq<char> {
    let role = display_role(ax_value(node.get("role"@)));
    let name = ax_value(node.get("name"@));
    let props = ax_props_text(node);
    let named = if name.len() == 0 {
        indent(depth) + role
    } else {
        indent(depth) + role + " "@ + json_quoted(name)
    };
    let full = if props.len() == 0 {
        named
    } else {
        named + " ["@ + props + "]"@
    };
    full.push('\n')
}

fn line(node: &Json, role: String, name: &str, depth: usize) -> (res: String)
    requires
        role@ == ax_value(node@.get("role"@)),
        name@ == ax_value(node@.get("name"@)),
    ensures
        res@ == node_line(node@, depth as int),
{
    let mut out = String::new();
    for d in 0..depth
        invariant
            out@ == indent(d as int),
    {
        out.append("  ");
    }
    if same(role.as_str(), "RootWebArea") {
        out.append("document");
    } else if same(role.as_str(), "StaticText") {
        out.append("text");
    } else {
        out.append(role.as_str());
    }
    if !is_empty(name) {
        out.append(" ");
        let q = serde_json_string(name);
        out.append(q.as_str());
    }
    let props = ax_props(node);
    if !is_empty(props.as_str()) {
        out.append(" [");
        out.append(props.as_str());
        out.append("]");
    }
    out.push('\n');
    out
}

// -- the walk ------------------------------------------------------------------------------
/// The node with the given id: the last one, where ids repeat.
pub open spec fn lookup(nodes: Seq<JsonView>, id: Seq<char>) -> Option<int>
    decreases nodes.len(),
{
    if nodes.len() == 0 {
        None
    } else if nodes.last().str_at("nodeId"@) == Some(id) {
        Some(nodes.len() - 1)
    } else {
        lookup(nodes.drop_last(), id)
    }
}

/// The ids under a node, or none.
pub open spec fn child_ids(node: JsonView) -> Seq<JsonView> {
    match node.array_at("childIds"@) {
        Some(ids) => ids,
        None => Seq::empty(),
    }
}

/// What the walk writes at each node it visits, in order: a line, or nothing where the
/// node is skipped. The children of a skipped node are lifted to its depth.
pub open spec fn visits(nodes: Seq<JsonView>, at: int, depth: int, level: int) -> Seq<Seq<char>>
    decreases MAX_AX_DEPTH + 1 - level, 0int,
{
    if level > MAX_AX_DEPTH {
        Seq::empty()
    } else {
        let node = nodes[at];
        if is_skipped(node) {
            seq![Seq::<char>::empty()] + child_visits(nodes, child_ids(node), depth, level + 1)
        } else {
            seq![node_line(node, depth)] + child_visits(
                nodes,
                child_ids(node),
                depth + 1,
                level + 1,
            )
        }
    }
}

/// What the walk writes under a list of child ids; ids that name no node are passed over.
pub open spec fn child_visits(
    nodes: Seq<JsonView>,
    ids: Seq<JsonView>,
    depth: int,
    level: int,
) -> Seq<Seq<char>>
    decreases MAX_AX_DEPTH + 1 - level, ids.len() + 1,
{
    if ids.len() == 0 {
        Seq::empty()
    } else {
        let before = child_visits(nodes, ids.drop_last(), depth, level);
        match ids.last().as_str() {
            None => before,
            Some(id) => match lookup(nodes, id) {
                None => before,
                Some(at) => before + visits(nodes, at, depth, level),
            },
        }
    }
}

/// A snapshot under construction.
pub struct Outline {
    pub text: String,
    /// Bytes of `text`, counted up to the budget.
    pub used: usize,
    pub truncated: bool,
}

/// The model of a snapshot under construction.
pub struct OutlineView {
    pub text: Seq<char>,
    pub truncated: bool,
}

impl Outline {
    pub open spec fn view(self) -> OutlineView {
        OutlineView { text: self.text@, truncated: self.truncated }
    }

    pub open spec fn wf(self) -> bool {
        self.used == if byte_len(self.text@) < MAX_SNAPSHOT_CHARS {
            byte_len(self.text@)
        } else {
            MAX_SNAPSHOT_CHARS as int
        }
    }
}

/// Writes one piece, unless the budget is already spent: then the outline is marked as
/// truncated and stays as it is.
pub open spec fn feed(o: OutlineView, piece: Seq<char>) -> OutlineView {
    if o.truncated {
        o
    } else if byte_len(o.text) >= MAX_SNAPSHOT_CHARS {
        OutlineView { text: o.text, truncated: true }
    } else {
        OutlineView { text: o.text + piece, truncated: false }
    }
}

/// Writes a list of pieces, in order.
pub open spec fn feed_all(o: OutlineView, pieces: Seq<Seq<char>>) -> OutlineView
    decreases pieces.len(),
{
    if pieces.len() == 0 {
        o
    } else {
        feed(feed_all(o, pieces.drop_last()), pieces.last())
    }
}

pub proof fn lemma_feed_all_add(o: OutlineView, a: Seq<Seq<char>>, b: Seq<Seq<char>>)
    ensures
        feed_all(o, a + b) == feed_all(feed_all(o, a), b),
    decreases b.len(),
{
    if b.len() == 0 {
        assert(a + b =~= a);
    } else {
        assert((a + b).drop_last() =~= a + b.drop_last());
        lemma_feed_all_add(o, a, b.drop_last());
    }
}

pub proof fn lemma_feed_truncated(o: OutlineView, pieces: Seq<Seq<char>>)
    requires
        o.truncated,
    ensures
        feed_all(o, pieces) == o,
    decreases pieces.len(),
{
    if pieces.len() > 0 {
        lemma_feed_truncated(o, pieces.drop_last());
    }
}

/// Whether the map holds the last index of every node id.
pub open spec fn indexes(by_id: Map<Seq<char>, usize>, nodes: Seq<JsonView>) -> bool {
    forall|id: Seq<char>|
        match lookup(nodes, id) {
            Some(at) => #[trigger] by_id.contains_key(id) && by_id[id] == at && 0 <= at
                < nodes.len(),
            None => !by_id.contains_key(id),
        }
}

fn index_nodes(nodes: &Vec<Json>) -> (res: StringHashMap<usize>)
    ensures
        indexes(res@, views(nodes@)),
{
    let mut by_id: StringHashMap<usize> = StringHashMap::new();
    assert(views(nodes@).take(0) =~= Seq::<JsonView>::empty());
    for i in 0..nodes.len()
        invariant
            indexes(by_id@, views(nodes@).take(i as int)),
    {
        let ghost before = by_id@;
        let ghost prev = views(nodes@).take(i as int);
        let ghost next = views(nodes@).take(i + 1);
        assert(next.drop_last() =~= prev);
        assert(next.last() == nodes@[i as int]@);
        match nodes[i].str_at("nodeId") {
            Some(id) => {
                let key = id.to_owned();
                assert(next.last().str_at("nodeId"@) == Some(key@));
                let ghost added = key@;
                by_id.insert(key, i);
                assert forall|k: Seq<char>|
                    match lookup(next, k) {
                        Some(at) => #[trigger] by_id@.contains_key(k) && by_id@[k] == at && 0 <= at
                            < next.len(),
                        None => !by_id@.contains_key(k),
                    } by {
                    if k != added {
                        assert(lookup(next, k) == lookup(prev, k));
                        assert(before.contains_key(k) == by_id@.contains_key(k));
                    }
                }
            },
            None => {
                assert forall|k: Seq<char>|
                    match lookup(next, k) {
                        Some(at) => #[trigger] by_id@.contains_key(k) && by_id@[k] == at && 0 <= at
                            < next.len(),
                        None => !by_id@.contains_key(k),
                    } by {
                    assert(next.last().str_at("nodeId"@) is None);
                    assert(lookup(next, k) == lookup(prev, k));
                    assert(before.contains_key(k) == by_id@.contains_key(k));
                }
            },
        }
    }
    assert(views(nodes@).take(nodes@.len() as int) =~= views(nodes@));
    by_id
}

/// What a visit writes at a node.
pub open spec fn visit_piece(node: JsonView, depth: int) -> Seq<char> {
    if is_skipped(node) {
        Seq::empty()
    } else {
        node_line(node, depth)
    }
}

fn skip_node(node: &Json, role: &str, name: &str) -> (res: bool)
    requires
        role@ == ax_value(node@.get("role"@)),
        name@ == ax_value(node@.get("name"@)),
    ensures
        res == is_skipped(node@),
{
    let ignored = match node.bool_at("ignored") {
        Some(b) => b,
        None => false,
    };
    let noise = is_empty(role) || same(role, "generic") || same(role, "none") || same(
        role,
        "InlineTextBox",
    ) || same(role, "LineBreak");
    ignored || (noise && is_empty(name))
}

/// Writes a node, unless the budget is spent; tells whether the node is skipped.
fn visit(node: &Json, depth: usize, out: &mut Outline) -> (res: bool)
    requires
        old(out).wf(),
        !old(out).truncated,
    ensures
        final(out).wf(),
        final(out)@ == feed(old(out)@, visit_piece(node@, depth as int)),
        res == is_skipped(node@),
{
    let role = ax_value_str(node.get("role"));
    let name = ax_value_str(node.get("name"));
    let skip = skip_node(node, role.as_str(), name.as_str());
    if out.used >= MAX_SNAPSHOT_CHARS {
        out.truncated = true;
        return skip;
    }
    if skip {
        assert(out.text@ + Seq::<char>::empty() =~= out.text@);
    } else {
        let text = line(node, role, name.as_str(), depth);
        let extra: usize = bytes_up_to(text.as_str(), MAX_SNAPSHOT_CHARS);
        proof {
            lemma_byte_len_add(out.text@, text@);
            lemma_byte_len_bounds(text@);
        }
        out.text.append(text.as_str());
        out.used = if extra >= MAX_SNAPSHOT_CHARS - out.used {
            MAX_SNAPSHOT_CHARS
        } else {
            out.used + extra
        };
    }
    skip
}

proof fn lemma_visits(o: OutlineView, nodes: Seq<JsonView>, at: int, depth: int, level: int)
    requires
        level <= MAX_AX_DEPTH,
    ensures
        ({
            let below = if is_skipped(nodes[at]) {
                depth
            } else {
                depth + 1
            };
            feed_all(o, visits(nodes, at, depth, level)) == feed_all(
                feed(o, visit_piece(nodes[at], depth)),
                child_visits(nodes, child_ids(nodes[at]), below, level + 1),
            )
        }),
{
    let below = if is_skipped(nodes[at]) {
        depth
    } else {
        depth + 1
    };
    let first = seq![visit_piece(nodes[at], depth)];
    let rest = child_visits(nodes, child_ids(nodes[at]), below, level + 1);
    assert(visits(nodes, at, depth, level) == first + rest);
    lemma_feed_all_add(o, first, rest);
    assert(first.drop_last() =~= Seq::<Seq<char>>::empty());
    assert(feed_all(o, Seq::<Seq<char>>::empty()) == o);
    assert(feed_all(o, first) == feed(o, visit_piece(nodes[at], depth)));
}

/// Whether an outline grew as a walk from `level` on may grow it: what was there stays where it
/// was, a truncated outline and one below the depth cap stay as they are, one whose budget is
/// spent is marked and keeps its text, and only a spent budget truncates.
pub open spec fn only_grows(before: OutlineView, level: int, after: OutlineView) -> bool {
    &&& starts_with(after.text, before.text)
    &&& before.truncated || level > MAX_AX_DEPTH ==> after == before
    &&& !before.truncated && level <= MAX_AX_DEPTH && byte_len(before.text) >= MAX_SNAPSHOT_CHARS
        ==> after == (OutlineView { text: before.text, truncated: true })
    &&& after.truncated ==> before.truncated || byte_len(after.text) >= MAX_SNAPSHOT_CHARS
}

/// Walks the tree from the node at `at`, writing its outline.
pub fn render_ax_node(
    nodes: &Vec<Json>,
    by_id: &StringHashMap<usize>,
    at: usize,
    depth: usize,
    level: usize,
    out: &mut Outline,
)
    requires
        at < nodes@.len(),
        indexes(by_id@, views(nodes@)),
        depth <= level,
        old(out).wf(),
    ensures
        final(out).wf(),
        final(out)@ == feed_all(
            old(out)@,
            visits(views(nodes@), at as int, depth as int, level as int),
        ),
        only_grows(old(out)@, level as int, final(out)@),
    decreases MAX_AX_DEPTH + 1 - level,
{
    let ghost all = views(nodes@);
    proof {
        law_outline_only_grows(out@, all, at as int, depth as int, level as int);
    }
    if out.truncated {
        proof {
            lemma_feed_truncated(out@, visits(all, at as int, depth as int, level as int));
        }
        return;
    }
    if level > MAX_AX_DEPTH {
        return;
    }
    let node = &nodes[at];
    assert(all[at as int] == node@);
    proof {
        lemma_visits(out@, all, at as int, depth as int, level as int);
    }
    let skip = visit(node, depth, out);
    let child_depth: usize = if skip {
        depth
    } else {
        depth + 1
    };
    let ghost mid = out@;
    match node.array_at("childIds") {
        Some(ids) => {
            for i in 0..ids.len()
                invariant
                    all == views(nodes@),
                    indexes(by_id@, all),
                    child_depth <= level + 1 <= MAX_AX_DEPTH + 1,
                    out.wf(),
                    out@ == feed_all(
                        mid,
                        child_visits(
                            all,
                            views(ids@).take(i as int),
                            child_depth as int,
                            level + 1,
                        ),
                    ),
            {
                let ghost prev = views(ids@).take(i as int);
                let ghost next = views(ids@).take(i + 1);
                assert(next.drop_last() =~= prev);
                assert(next.last() == ids@[i as int]@);
                match ids[i].as_str() {
                    Some(id) => match by_id.get(id) {
                        Some(child) => {
                            let child: usize = *child;
                            proof {
                                lemma_feed_all_add(
                                    mid,
                                    child_visits(all, prev, child_depth as int, level + 1),
                                    visits(all, child as int, child_depth as int, level + 1),
                                );
                            }
                            render_ax_node(nodes, by_id, child, child_depth, level + 1, out);
                        },
                        None => {},
                    },
                    None => {},
                }
            }
            assert(views(ids@).take(ids@.len() as int) =~= views(ids@));
        },
        None => {},
    }
}

// -- the snapshot ------------------------------------------------------------------------------
/// The first node without a parent, or the first node.
pub open spec fn root_index(nodes: Seq<JsonView>) -> int {
    let i = first_orphan(nodes);
    if i < nodes.len() {
        i
    } else {
        0
    }
}

/// The position of the first node without a `parentId`, or the number of nodes.
pub open spec fn first_orphan(nodes: Seq<JsonView>) -> int
    decreases nodes.len(),
{
    if nodes.len() == 0 {
        0
    } else if nodes[0].get("parentId"@) is None {
        0
    } else {
        1 + first_orphan(nodes.drop_first())
    }
}

/// The outline of a whole tree before the truncation note is added.
pub open spec fn tree_outline(nodes: Seq<JsonView>) -> OutlineView {
    feed_all(
        OutlineView { text: Seq::empty(), truncated: false },
        visits(nodes, root_index(nodes), 0, 0),
    )
}

/// The snapshot of a tree.
pub open spec fn snapshot_text(nodes: Seq<JsonView>) -> Seq<char> {
    let o = tree_outline(nodes);
    if o.truncated {
        o.text + "\n[... snapshot truncated at 15000 chars ...]"@
    } else {
        o.text
    }
}

/// The nodes of a `getFullAXTree` response.
pub open spec fn response_nodes(resp: JsonView) -> Seq<JsonView> {
    match resp.array_at("nodes"@) {
        Some(nodes) => nodes,
        None => Seq::empty(),
    }
}

fn find_root(nodes: &Vec<Json>) -> (res: usize)
    requires
        nodes@.len() > 0,
    ensures
        res == root_index(views(nodes@)),
        res < nodes@.len(),
{
    let ghost all = views(nodes@);
    assert(all.skip(0) =~= all);
    for i in 0..nodes.len()
        invariant
            all == views(nodes@),
            first_orphan(all) == i + first_orphan(all.skip(i as int)),
    {
        assert(all.skip(i as int)[0] == nodes@[i as int]@);
        if nodes[i].get("parentId").is_none() {
            return i;
        }
        assert(all.skip(i as int).drop_first() =~= all.skip(i + 1));
    }
    0
}

/// The snapshot of a `getFullAXTree` response; an error when the tree is empty.
pub fn ax_snapshot(resp: &Json) -> (res: Result<String, String>)
    ensures
        match res {
            Ok(text) => response_nodes(resp@).len() > 0 && text@ == snapshot_text(
                response_nodes(resp@),
            ),
            Err(message) => response_nodes(resp@).len() == 0 && message@
                == "empty accessibility tree"@,
        },
        match resp@.array_at("nodes"@) {
            Some(nodes) => if nodes.len() > 0 {
                res is Ok && res->Ok_0@ == snapshot_text(nodes)
            } else {
                res is Err
            },
            None => res is Err,
        },
{
    let nodes = match resp.array_at("nodes") {
        Some(nodes) => nodes,
        None => {
            return Err("empty accessibility tree".to_owned());
        },
    };
    if nodes.len() == 0 {
        return Err("empty accessibility tree".to_owned());
    }
    let by_id = index_nodes(nodes);
    let root: usize = find_root(nodes);
    let mut out = Outline { text: String::new(), used: 0, truncated: false };
    render_ax_node(nodes, &by_id, root, 0, 0, &mut out);
    if out.truncated {
        out.text.append("\n[... snapshot truncated at 15000 chars ...]");
    }
    Ok(out.text)
}

// -- laws ------------------------------------------------------------------------------
/// A snapshot never rewrites or reorders lines: its text is the concatenation of the
/// first lines of the walk, all of them unless it is truncated.
pub proof fn law_outline_is_prefix_of_walk(pieces: Seq<Seq<char>>)
    ensures
        ({
            let o = feed_all(OutlineView { text: Seq::empty(), truncated: false }, pieces);
            &&& exists|n: int|
                0 <= n <= pieces.len() && o.text == #[trigger] concat(pieces.take(n))
            &&& !o.truncated ==> o.text == concat(pieces)
        }),
    decreases pieces.len(),
{
    let empty = OutlineView { text: Seq::empty(), truncated: false };
    let o = feed_all(empty, pieces);
    if pieces.len() == 0 {
        assert(o.text == concat(pieces.take(0)));
    } else {
        let p = feed_all(empty, pieces.drop_last());
        law_outline_is_prefix_of_walk(pieces.drop_last());
        let n = choose|n: int|
            0 <= n <= pieces.drop_last().len() && p.text == #[trigger] concat(
                pieces.drop_last().take(n),
            );
        assert(pieces.drop_last().take(n) =~= pieces.take(n));
        if !o.truncated {
            assert(pieces.take(pieces.len() as int) =~= pieces);
            assert(o.text == concat(pieces.take(pieces.len() as int)));
        } else {
            assert(o.text == p.text);
            assert(o.text == concat(pieces.take(n)));
        }
    }
}

proof fn lemma_feed_grows(o: OutlineView, pieces: Seq<Seq<char>>)
    ensures
        ({
            let f = feed_all(o, pieces);
            &&& starts_with(f.text, o.text)
            &&& f.truncated ==> o.truncated || byte_len(f.text) >= MAX_SNAPSHOT_CHARS
            &&& pieces.len() > 0 && !o.truncated && byte_len(o.text) >= MAX_SNAPSHOT_CHARS ==> f
                == (OutlineView { text: o.text, truncated: true })
        }),
    decreases pieces.len(),
{
    if pieces.len() == 0 {
        assert(o.text.take(o.text.len() as int) =~= o.text);
    } else {
        let p = feed_all(o, pieces.drop_last());
        lemma_feed_grows(o, pieces.drop_last());
        let f = feed_all(o, pieces);
        assert(f.text.take(o.text.len() as int) =~= p.text.take(o.text.len() as int));
    }
}

/// The outline only grows and stops at its budget, whatever it held before a walk.
pub proof fn law_outline_only_grows(
    o: OutlineView,
    nodes: Seq<JsonView>,
    at: int,
    depth: int,
    level: int,
)
    ensures
        only_grows(o, level, feed_all(o, visits(nodes, at, depth, level))),
{
    let pieces = visits(nodes, at, depth, level);
    lemma_feed_grows(o, pieces);
    if o.truncated {
        lemma_feed_truncated(o, pieces);
    }
}

/// An outline is truncated exactly when the budget was spent before the last visit.
pub proof fn law_truncated_iff_budget_spent(pieces: Seq<Seq<char>>)
    ensures
        feed_all(OutlineView { text: Seq::empty(), truncated: false }, pieces).truncated <==> (
        pieces.len() > 0 && byte_len(concat(pieces.drop_last())) >= 15_000),
    decreases pieces.len(),
{
    let empty = OutlineView { text: Seq::empty(), truncated: false };
    if pieces.len() > 0 {
        let front = pieces.drop_last();
        let p = feed_all(empty, front);
        law_truncated_iff_budget_spent(front);
        law_outline_is_prefix_of_walk(front);
        if p.truncated {
            lemma_byte_len_add(concat(front.drop_last()), front.last());
            lemma_byte_len_bounds(front.last());
        }
    }
}

/// An id names the last node that has it; an id that no node has names none.
pub proof fn law_id_names_last_node(nodes: Seq<JsonView>, id: Seq<char>, at: int)
    ensures
        lookup(nodes, id) == Some(at) <==> 0 <= at < nodes.len() && nodes[at].str_at("nodeId"@)
            == Some(id) && forall|k: int|
            at < k < nodes.len() ==> (#[trigger] nodes[k]).str_at("nodeId"@) != Some(id),
        lookup(nodes, id) is None <==> forall|k: int|
            0 <= k < nodes.len() ==> (#[trigger] nodes[k]).str_at("nodeId"@) != Some(id),
    decreases nodes.len(),
{
    if nodes.len() > 0 {
        let front = nodes.drop_last();
        let last = nodes.len() - 1;
        law_id_names_last_node(front, id, at);
        if nodes[last].str_at("nodeId"@) != Some(id) {
            if lookup(nodes, id) is None {
                assert forall|k: int| 0 <= k < nodes.len() implies (#[trigger] nodes[k]).str_at(
                    "nodeId"@,
                ) != Some(id) by {
                    if k < last {
                        assert(front[k] == nodes[k]);
                    }
                }
            }
            if lookup(nodes, id) == Some(at) {
                assert(front[at] == nodes[at]);
                assert forall|k: int| at < k < nodes.len() implies (#[trigger] nodes[k]).str_at(
                    "nodeId"@,
                ) != Some(id) by {
                    if k < last {
                        assert(front[k] == nodes[k]);
                    }
                }
            }
            if 0 <= at < nodes.len() && nodes[at].str_at("nodeId"@) == Some(id) && (forall|k: int|
                at < k < nodes.len() ==> (#[trigger] nodes[k]).str_at("nodeId"@) != Some(id)) {
                assert(front[at] == nodes[at]);
                assert forall|k: int| at < k < front.len() implies (#[trigger] front[k]).str_at(
                    "nodeId"@,
                ) != Some(id) by {
                    assert(front[k] == nodes[k]);
                }
            }
            if forall|k: int|
                0 <= k < nodes.len() ==> (#[trigger] nodes[k]).str_at("nodeId"@) != Some(id) {
                assert forall|k: int| 0 <= k < front.len() implies (#[trigger] front[k]).str_at(
                    "nodeId"@,
                ) != Some(id) by {
                    assert(front[k] == nodes[k]);
                }
            }
        } else {
            assert(nodes[last].str_at("nodeId"@) == Some(id));
        }
    }
}

/// A walk writes a node first and then everything under it: the node's own line at its depth,
/// or nothing where it is skipped, followed by the walk of its `childIds`, one step further in
/// unless the node is skipped. It ends below the depth cap.
pub proof fn law_node_comes_before_its_children(
    nodes: Seq<JsonView>,
    at: int,
    depth: int,
    level: int,
)
    ensures
        level > 256 ==> visits(nodes, at, depth, level) == Seq::<Seq<char>>::empty(),
        level <= 256 && nodes[at].array_at("childIds"@) is None ==> visits(nodes, at, depth, level)
            == seq![
            (if is_skipped(nodes[at]) {
                Seq::<char>::empty()
            } else {
                node_line(nodes[at], depth)
            }),
        ],
        level <= 256 && nodes[at].array_at("childIds"@) is Some ==> visits(nodes, at, depth, level)
            == seq![
            (if is_skipped(nodes[at]) {
                Seq::<char>::empty()
            } else {
                node_line(nodes[at], depth)
            }),
        ] + child_visits(
            nodes,
            nodes[at].array_at("childIds"@).unwrap(),
            (if is_skipped(nodes[at]) {
                depth
            } else {
                depth + 1
            }),
            level + 1,
        ),
{
    let none = Seq::<JsonView>::empty();
    assert(child_visits(nodes, none, depth, level + 1) =~= Seq::<Seq<char>>::empty());
    assert(child_visits(nodes, none, depth + 1, level + 1) =~= Seq::<Seq<char>>::empty());
    if level <= 256 && nodes[at].array_at("childIds"@) is None {
        assert(child_ids(nodes[at]) =~= none);
        assert(visits(nodes, at, depth, level) =~= seq![visit_piece(nodes[at], depth)]);
    }
}

/// Children are walked in the order of their ids, each with all that stands under it: a list of
/// ids and a list behind it are the walk of the first and the walk of the second, and one id is
/// the walk of the node it names. An id that names no node, or is no text, adds nothing.
pub proof fn law_children_keep_their_order(
    nodes: Seq<JsonView>,
    a: Seq<JsonView>,
    b: Seq<JsonView>,
    id: JsonView,
    depth: int,
    level: int,
)
    ensures
        child_visits(nodes, a + b, depth, level) == child_visits(nodes, a, depth, level)
            + child_visits(nodes, b, depth, level),
        match id {
            JsonView::Str(t) => match lookup(nodes, t) {
                Some(at) => child_visits(nodes, seq![id], depth, level) == visits(
                    nodes,
                    at,
                    depth,
                    level,
                ),
                None => child_visits(nodes, seq![id], depth, level) == Seq::<Seq<char>>::empty(),
            },
            _ => child_visits(nodes, seq![id], depth, level) == Seq::<Seq<char>>::empty(),
        },
    decreases b.len(),
{
    let one = seq![id];
    assert(one.drop_last() =~= Seq::<JsonView>::empty());
    assert(child_visits(nodes, one.drop_last(), depth, level) =~= Seq::<Seq<char>>::empty());
    assert(one.last() == id);
    if id is Str && lookup(nodes, id->Str_0) is Some {
        let at = lookup(nodes, id->Str_0).unwrap();
        assert(child_visits(nodes, one, depth, level) =~= visits(nodes, at, depth, level));
    }
    if b.len() == 0 {
        assert(a + b =~= a);
        assert(child_visits(nodes, a, depth, level) + child_visits(nodes, b, depth, level)
            =~= child_visits(nodes, a, depth, level));
    } else {
        assert((a + b).drop_last() =~= a + b.drop_last());
        assert((a + b).last() == b.last());
        law_children_keep_their_order(nodes, a, b.drop_last(), id, depth, level);
        assert(child_visits(nodes, a + b, depth, level) =~= child_visits(nodes, a, depth, level)
            + child_visits(nodes, b, depth, level));
    }
}

/// Whether one node is a child of another: its id stands among the other's `childIds`, and no
/// later node has the same id.
pub open spec fn is_child(nodes: Seq<JsonView>, parent: int, child: int) -> bool {
    &&& 0 <= parent < nodes.len()
    &&& 0 <= child < nodes.len()
    &&& nodes[parent].array_at("childIds"@) is Some
    &&& nodes[child].str_at("nodeId"@) is Some
    &&& nodes[parent].array_at("childIds"@).unwrap().contains(
        JsonView::Str(nodes[child].str_at("nodeId"@).unwrap()),
    )
    &&& forall|k: int|
        child < k < nodes.len() ==> (#[trigger] nodes[k]).str_at("nodeId"@)
            != nodes[child].str_at("nodeId"@)
}

/// A way down the tree: every node but the first is a child of the one before it.
pub open spec fn is_chain(nodes: Seq<JsonView>, chain: Seq<int>) -> bool {
    &&& chain.len() > 0
    &&& forall|i: int, j: int|
        0 <= i && j == i + 1 && j < chain.len() ==> is_child(
            nodes,
            #[trigger] chain[i],
            #[trigger] chain[j],
        )
}

/// How many nodes of a way are not skipped.
pub open spec fn shown_on(nodes: Seq<JsonView>, chain: Seq<int>) -> int {
    chain.filter(|n: int| !is_skipped(nodes[n])).len() as int
}

proof fn lemma_shown_on(nodes: Seq<JsonView>, chain: Seq<int>)
    requires
        chain.len() > 0,
    ensures
        shown_on(nodes, chain) == (if is_skipped(nodes[chain[0]]) {
            0int
        } else {
            1int
        }) + shown_on(nodes, chain.drop_first()),
{
    let shown = |n: int| !is_skipped(nodes[n]);
    let first = seq![chain[0]];
    assert(chain =~= first + chain.drop_first());
    Seq::filter_distributes_over_add(first, chain.drop_first(), shown);
    reveal(Seq::filter);
    assert(first.drop_last() =~= Seq::<int>::empty());
    assert(first.drop_last().filter(shown) =~= Seq::<int>::empty());
    assert(first.last() == chain[0]);
}

proof fn lemma_child_is_walked(
    nodes: Seq<JsonView>,
    ids: Seq<JsonView>,
    m: int,
    at: int,
    depth: int,
    level: int,
    piece: Seq<char>,
)
    requires
        0 <= m < ids.len(),
        ids[m] is Str,
        lookup(nodes, ids[m]->Str_0) == Some(at),
        visits(nodes, at, depth, level).contains(piece),
    ensures
        child_visits(nodes, ids, depth, level).contains(piece),
{
    let a = ids.take(m);
    let one = seq![ids[m]];
    let b = ids.skip(m + 1);
    assert(ids =~= a + one + b);
    law_children_keep_their_order(nodes, a + one, b, ids[m], depth, level);
    law_children_keep_their_order(nodes, a, one, ids[m], depth, level);
    let mid = visits(nodes, at, depth, level);
    let before = child_visits(nodes, a, depth, level);
    let after = child_visits(nodes, b, depth, level);
    let all = child_visits(nodes, ids, depth, level);
    assert(all == before + mid + after);
    let k = choose|k: int| 0 <= k < mid.len() && mid[k] == piece;
    assert(all[before.len() + k] == piece);
}

/// Every node that a way down the tree reaches within 256 steps is written, unless it is
/// skipped: its line is among those of the walk, indented by the number of nodes above it on
/// that way that are not skipped.
pub proof fn law_every_reached_node_is_written(
    nodes: Seq<JsonView>,
    chain: Seq<int>,
    depth: int,
    level: int,
)
    requires
        is_chain(nodes, chain),
        level + chain.len() - 1 <= 256,
        !is_skipped(nodes[chain.last()]),
    ensures
        visits(nodes, chain[0], depth, level).contains(
            node_line(nodes[chain.last()], depth + shown_on(nodes, chain.drop_last())),
        ),
    decreases chain.len(),
{
    let at = chain[0];
    let node = nodes[at];
    let all = visits(nodes, at, depth, level);
    if chain.len() == 1 {
        reveal(Seq::filter);
        assert(chain.drop_last() =~= Seq::<int>::empty());
        assert(shown_on(nodes, chain.drop_last()) == 0);
        assert(all[0] == node_line(node, depth));
    } else {
        let rest = chain.drop_first();
        assert(is_child(nodes, chain[0], chain[1]));
        assert forall|i: int, j: int|
            0 <= i && j == i + 1 && j < rest.len() implies is_child(
            nodes,
            #[trigger] rest[i],
            #[trigger] rest[j],
        ) by {
            assert(rest[i] == chain[i + 1]);
            assert(rest[j] == chain[j + 1]);
        }
        let below = if is_skipped(node) {
            depth
        } else {
            depth + 1
        };
        assert(rest.last() == chain.last());
        law_every_reached_node_is_written(nodes, rest, below, level + 1);
        assert(chain.drop_last().drop_first() =~= rest.drop_last());
        lemma_shown_on(nodes, chain.drop_last());
        let piece = node_line(nodes[chain.last()], depth + shown_on(nodes, chain.drop_last()));
        let child = chain[1];
        let id = nodes[child].str_at("nodeId"@).unwrap();
        let ids = node.array_at("childIds"@).unwrap();
        let m = choose|m: int| 0 <= m < ids.len() && ids[m] == JsonView::Str(id);
        law_id_names_last_node(nodes, id, child);
        lemma_child_is_walked(nodes, ids, m, child, below, level + 1, piece);
        law_node_comes_before_its_children(nodes, at, depth, level);
        let under = child_visits(nodes, ids, below, level + 1);
        let k = choose|k: int| 0 <= k < under.len() && under[k] == piece;
        assert(all[k + 1] == piece);
    }
}

/// The walk starts at the first node without a parent, or at the first node where all have one.
pub proof fn law_walk_starts_at_first_orphan(nodes: Seq<JsonView>, at: int)
    requires
        0 <= at < nodes.len(),
    ensures
        nodes[at].get("parentId"@) is None && (forall|k: int|
            0 <= k < at ==> (#[trigger] nodes[k]).get("parentId"@) is Some) ==> root_index(nodes)
            == at,
        (forall|k: int| 0 <= k < nodes.len() ==> (#[trigger] nodes[k]).get("parentId"@) is Some)
            ==> root_index(nodes) == 0,
{
    lemma_first_orphan(nodes);
    let f = first_orphan(nodes);
    if f < nodes.len() {
        assert(nodes[f].get("parentId"@) is None);
        assert(f < at ==> nodes[f].get("parentId"@) is None);
    }
    assert(at < f ==> nodes[at].get("parentId"@) is Some);
}

proof fn lemma_first_orphan(nodes: Seq<JsonView>)
    ensures
        0 <= first_orphan(nodes) <= nodes.len(),
        first_orphan(nodes) < nodes.len() ==> nodes[first_orphan(nodes)].get("parentId"@) is None,
        forall|k: int|
            0 <= k < first_orphan(nodes) ==> (#[trigger] nodes[k]).get("parentId"@) is Some,
    decreases nodes.len(),
{
    if nodes.len() > 0 && nodes[0].get("parentId"@) is Some {
        let rest = nodes.drop_first();
        lemma_first_orphan(rest);
        let f = first_orphan(nodes);
        if f < nodes.len() {
            assert(rest[f - 1] == nodes[f]);
        }
        assert forall|k: int| 0 <= k < f implies (#[trigger] nodes[k]).get("parentId"@) is Some by {
            if k > 0 {
                assert(rest[k - 1] == nodes[k]);
            }
        }
    }
}

proof fn lemma_piece_stands_in_concat(pieces: Seq<Seq<char>>, piece: Seq<char>)
    requires
        pieces.contains(piece),
    ensures
        exists|a: Seq<char>, b: Seq<char>| concat(pieces) == #[trigger] (a + piece + b),
{
    let m = choose|m: int| 0 <= m < pieces.len() && pieces[m] == piece;
    let front = pieces.take(m);
    let one = seq![piece];
    let back = pieces.skip(m + 1);
    assert(pieces =~= front + one + back);
    law_concat_appends(front + one, back, piece);
    law_concat_appends(front, one, piece);
    assert(concat(pieces) == concat(front) + piece + concat(back));
}

/// A snapshot that is not truncated shows every node that a way from the root reaches within
/// 256 steps and that is not skipped, on a line of its own; a truncated one says so at its end.
pub proof fn law_snapshot_shows_every_reached_node(nodes: Seq<JsonView>, chain: Seq<int>)
    requires
        is_chain(nodes, chain),
        chain[0] == root_index(nodes),
        chain.len() <= 257,
        !is_skipped(nodes[chain.last()]),
    ensures
        tree_outline(nodes).truncated ==> snapshot_text(nodes) == tree_outline(nodes).text
            + "\n[... snapshot truncated at 15000 chars ...]"@,
        !tree_outline(nodes).truncated ==> exists|a: Seq<char>, b: Seq<char>|
            snapshot_text(nodes) == #[trigger] (a + node_line(
                nodes[chain.last()],
                shown_on(nodes, chain.drop_last()),
            ) + b),
{
    let pieces = visits(nodes, root_index(nodes), 0, 0);
    law_every_reached_node_is_written(nodes, chain, 0, 0);
    law_outline_is_prefix_of_walk(pieces);
    lemma_piece_stands_in_concat(
        pieces,
        node_line(nodes[chain.last()], shown_on(nodes, chain.drop_last())),
    );
}

/// A truncated snapshot stops where its budget is spent and not before: it holds the first
/// pieces of the walk, and the last of them is the one that reached 15000 bytes.
pub proof fn law_truncation_keeps_what_fits(pieces: Seq<Seq<char>>) -> (n: int)
    requires
        feed_all(OutlineView { text: Seq::empty(), truncated: false }, pieces).truncated,
    ensures
        0 < n < pieces.len(),
        feed_all(OutlineView { text: Seq::empty(), truncated: false }, pieces).text == concat(
            pieces.take(n),
        ),
        byte_len(concat(pieces.take(n))) >= 15_000,
        byte_len(concat(pieces.take(n - 1))) < 15_000,
    decreases pieces.len(),
{
    let empty = OutlineView { text: Seq::empty(), truncated: false };
    let front = pieces.drop_last();
    let p = feed_all(empty, front);
    if p.truncated {
        let n = law_truncation_keeps_what_fits(front);
        assert(front.take(n) =~= pieces.take(n));
        assert(front.take(n - 1) =~= pieces.take(n - 1));
        n
    } else {
        let n = front.len() as int;
        law_outline_is_prefix_of_walk(front);
        assert(pieces.take(n) =~= front);
        assert(n > 0);
        law_truncated_iff_budget_spent(front);
        assert(pieces.take(n - 1) =~= front.drop_last());
        n
    }
}

/// What is left out of an outline: ignored nodes, and nodes without a name whose role says
/// nothing. A node with a name, or with any other role, is shown.
pub proof fn law_only_noise_is_skipped(node: JsonView)
    ensures
        node.bool_at("ignored"@) == Some(true) ==> is_skipped(node),
        node.bool_at("ignored"@) != Some(true) ==> (is_skipped(node) <==> ax_value(
            node.get("name"@),
        ) == Seq::<char>::empty() && ({
            let role = ax_value(node.get("role"@));
            role == Seq::<char>::empty() || role == "generic"@ || role == "none"@ || role
                == "InlineTextBox"@ || role == "LineBreak"@
        })),
{
    let name = ax_value(node.get("name"@));
    let role = ax_value(node.get("role"@));
    if name.len() == 0 {
        assert(name =~= Seq::<char>::empty());
    }
    if role.len() == 0 {
        assert(role =~= Seq::<char>::empty());
    }
}

/// The text of a computed value: a text as it is, anything else as JSON, nothing without a
/// value.
pub proof fn law_computed_values(v: JsonView, s: Seq<char>)
    ensures
        v.get("value"@) == Some(JsonView::Str(s)) ==> ax_value(Some(v)) == s,
        v.get("value"@) is Some && !(v.get("value"@).unwrap() is Str) ==> ax_value(Some(v))
            == json_text(v.get("value"@).unwrap()),
        v.get("value"@) is None ==> ax_value(Some(v)) == Seq::<char>::empty(),
        ax_value(None) == Seq::<char>::empty(),
{
}

proof fn lemma_indent(depth: int)
    requires
        depth >= 0,
    ensures
        indent(depth) == Seq::new((2 * depth) as nat, |i: int| ' '),
    decreases depth,
{
    reveal_strlit("  ");
    if depth > 0 {
        lemma_indent(depth - 1);
    }
    assert(indent(depth) =~= Seq::new((2 * depth) as nat, |i: int| ' '));
}

/// The line of a node: two spaces for every level above it, its role, its name as a string
/// literal where it has one, its state in brackets where it has any, and the end of the line.
/// Two roles stand under plainer names.
pub proof fn law_line_of_a_node(node: JsonView, depth: int, role: Seq<char>, name: Seq<char>)
    requires
        depth >= 0,
        role == ax_value(node.get("role"@)),
        name == ax_value(node.get("name"@)),
    ensures
        node_line(node, depth) == Seq::new((2 * depth) as nat, |i: int| ' ') + (if role
            == "RootWebArea"@ {
            "document"@
        } else if role == "StaticText"@ {
            "text"@
        } else {
            role
        }) + (if name.len() > 0 {
            " "@ + json_quoted(name)
        } else {
            Seq::<char>::empty()
        }) + (if ax_props_text(node).len() > 0 {
            " ["@ + ax_props_text(node) + "]"@
        } else {
            Seq::<char>::empty()
        }) + "\n"@,
{
    lemma_indent(depth);
    reveal_strlit("\n");
    let spaces = Seq::new((2 * depth) as nat, |i: int| ' ');
    let shown = display_role(role);
    let props = ax_props_text(node);
    let tail = if name.len() > 0 {
        " "@ + json_quoted(name)
    } else {
        Seq::<char>::empty()
    };
    let state = if props.len() > 0 {
        " ["@ + props + "]"@
    } else {
        Seq::<char>::empty()
    };
    assert(node_line(node, depth) =~= spaces + shown + tail + state + "\n"@);
}

/// The state of a node: its properties, each for itself and in order, with a comma between
/// them. One of those that the outline knows shows its name when it is true, and its name and
/// its value when that is no truth value; anything else shows nothing.
pub proof fn law_state_of_a_node(
    node: JsonView,
    props: Seq<JsonView>,
    a: Seq<JsonView>,
    b: Seq<JsonView>,
    p: JsonView,
)
    ensures
        node.array_at("properties"@) == Some(props) ==> ax_props_text(node) == join(
            prop_parts(props),
            ", "@,
        ),
        node.array_at("properties"@) is None ==> ax_props_text(node) == Seq::<char>::empty(),
        prop_parts(a + b) == prop_parts(a) + prop_parts(b),
        ({
            let name = p.str_at("name"@);
            let known = name == Some("focused"@) || name == Some("checked"@) || name == Some(
                "disabled"@,
            ) || name == Some("expanded"@) || name == Some("selected"@) || name == Some("pressed"@)
                || name == Some("required"@) || name == Some("readonly"@) || name == Some("level"@);
            let value = match p.get("value"@) {
                Some(v) => v.get("value"@),
                None => None,
            };
            prop_parts(seq![p]) == (if !known || value is None || value == Some(
                JsonView::Bool(false),
            ) {
                Seq::<Seq<char>>::empty()
            } else if value == Some(JsonView::Bool(true)) {
                seq![name.unwrap()]
            } else {
                seq![name.unwrap() + "="@ + json_text(value.unwrap())]
            })
        }),
    decreases b.len(),
{
    let one = seq![p];
    assert(one.drop_last() =~= Seq::<JsonView>::empty());
    assert(prop_parts(one.drop_last()) =~= Seq::<Seq<char>>::empty());
    assert(one.last() == p);
    if prop_part(p) is Some {
        assert(prop_parts(one) =~= seq![prop_part(p).unwrap()]);
    }
    if b.len() == 0 {
        assert(a + b =~= a);
        assert(prop_parts(a) + prop_parts(b) =~= prop_parts(a));
    } else {
        assert((a + b).drop_last() =~= a + b.drop_last());
        law_state_of_a_node(node, props, a, b.drop_last(), p);
        assert(prop_parts(a + b) =~= prop_parts(a) + prop_parts(b));
    }
}

/// A snapshot is the walk from the root, piece by piece and with nothing added or left out,
/// unless the budget is spent on the way: then it is what the walk had written, and a note.
pub proof fn law_snapshot_is_the_walk(nodes: Seq<JsonView>) -> (n: int)
    ensures
        ({
            let pieces = visits(nodes, root_index(nodes), 0, 0);
            let spent = pieces.len() > 0 && byte_len(concat(pieces.drop_last())) >= 15_000;
            &&& !spent ==> snapshot_text(nodes) == concat(pieces)
            &&& spent ==> 0 < n < pieces.len() && snapshot_text(nodes) == concat(pieces.take(n))
                + "\n[... snapshot truncated at 15000 chars ...]"@ && byte_len(
                concat(pieces.take(n)),
            ) >= 15_000 && byte_len(concat(pieces.take(n - 1))) < 15_000
        }),
{
    let pieces = visits(nodes, root_index(nodes), 0, 0);
    law_truncated_iff_budget_spent(pieces);
    law_outline_is_prefix_of_walk(pieces);
    if tree_outline(nodes).truncated {
        law_truncation_keeps_what_fits(pieces)
    } else {
        0
    }
}

} // verus!
