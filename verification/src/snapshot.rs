//! What a snapshot call returns: the accessibility outline or its DOM fallback, and
//! the line-based difference to the previous snapshot of the session.
use crate::ax::MAX_SNAPSHOT_CHARS;
use crate::text::{
    cap, capped, is_empty, is_white, law_non_blank_pieces, law_separator_parts_text,
    law_split_joins_back, law_trim_takes_white_ends, lemma_split_append, lemma_split_single,
    non_blank, non_blank_texts, opt_text, split, texts, trim, trimmed,
};
use vstd::hash_set::StringHashSet;
use vstd::prelude::*;

verus! {

/// Outline of interactive elements, headings and landmarks, for pages whose
/// accessibility tree is unavailable.
pub const DOM_OUTLINE_JS: &'static str =
    r#"(() => {
        const out = [];
        const sels = 'h1,h2,h3,h4,a[href],button,input,select,textarea,[role],main,nav,header,footer,form,label';
        for (const el of document.querySelectorAll(sels)) {
            if (out.length >= 400) break;
            const tag = el.tagName.toLowerCase();
            const id = el.id ? '#' + el.id : '';
            const label = (el.getAttribute('aria-label') || el.innerText || el.value || '')
                .trim().replace(/\s+/g, ' ').slice(0, 80);
            out.push(`${tag}${id} "${label}"`);
        }
        return out.join('\n');
    })()"#;

// -- lines ------------------------------------------------------------------------------
/// The lines of a snapshot: trimmed, without blank ones.
pub open spec fn lines(s: Seq<char>) -> Seq<Seq<char>> {
    non_blank(split(s, '\n'))
}

fn line_texts(s: &str) -> (res: Vec<String>)
    ensures
        texts(res@) == lines(s@),
{
    non_blank_texts(s, '\n')
}

// -- difference ------------------------------------------------------------------------------
/// The lines that do not occur among `known`, in order.
pub open spec fn fresh(ls: Seq<Seq<char>>, known: Set<Seq<char>>) -> Seq<Seq<char>>
    decreases ls.len(),
{
    if ls.len() == 0 {
        Seq::empty()
    } else {
        let before = fresh(ls.drop_last(), known);
        if known.contains(ls.last()) {
            before
        } else {
            before.push(ls.last())
        }
    }
}

/// Each line behind a mark, with a newline at its end.
pub open spec fn marked(mark: Seq<char>, ls: Seq<Seq<char>>) -> Seq<char>
    decreases ls.len(),
{
    if ls.len() == 0 {
        Seq::empty()
    } else {
        marked(mark, ls.drop_last()) + (mark + ls.last()).push('\n')
    }
}

/// The lines that appeared.
pub open spec fn added(prev: Seq<char>, current: Seq<char>) -> Seq<Seq<char>> {
    fresh(lines(current), lines(prev).to_set())
}

/// The lines that disappeared.
pub open spec fn removed(prev: Seq<char>, current: Seq<char>) -> Seq<Seq<char>> {
    fresh(lines(prev), lines(current).to_set())
}

/// The report on two snapshots.
pub open spec fn diff_text(prev: Seq<char>, current: Seq<char>) -> Seq<char> {
    let plus = added(prev, current);
    let minus = removed(prev, current);
    let report = "snapshot diff (vs previous snapshot in this session):\n"@ + marked("+ "@, plus)
        + marked("- "@, minus);
    if plus.len() == 0 && minus.len() == 0 {
        report + "(no changes since last snapshot)\n"@
    } else {
        report
    }
}

fn line_set(ls: &Vec<String>) -> (res: StringHashSet)
    ensures
        res@ == texts(ls@).to_set(),
{
    let mut set = StringHashSet::new();
    assert(texts(ls@).take(0).to_set() =~= Set::<Seq<char>>::empty());
    for i in 0..ls.len()
        invariant
            set@ == texts(ls@).take(i as int).to_set(),
    {
        let ghost before = texts(ls@).take(i as int);
        let ghost next = texts(ls@).take(i + 1);
        assert(next =~= before.push(ls@[i as int]@));
        set.insert(ls[i].clone());
        assert(next.to_set() =~= before.to_set().insert(ls@[i as int]@)) by {
            assert forall|x: Seq<char>|
                next.to_set().contains(x) == before.to_set().insert(ls@[i as int]@).contains(x) by {
                if before.contains(x) {
                    let k = choose|k: int| 0 <= k < before.len() && before[k] == x;
                    assert(next[k] == x);
                }
                if next.contains(x) {
                    let k = choose|k: int| 0 <= k < next.len() && next[k] == x;
                    if k < before.len() {
                        assert(before[k] == x);
                    }
                }
                assert(next[before.len() as int] == ls@[i as int]@);
            }
        }
    }
    assert(texts(ls@).take(ls@.len() as int) =~= texts(ls@));
    set
}

/// Appends the lines that `known` does not hold, each behind `mark`; tells whether there
/// was one.
fn report(out: &mut String, mark: &str, ls: &Vec<String>, known: &StringHashSet) -> (res: bool)
    ensures
        final(out)@ == old(out)@ + marked(mark@, fresh(texts(ls@), known@)),
        res == (fresh(texts(ls@), known@).len() > 0),
{
    let mut any = false;
    let ghost start = out@;
    assert(out@ =~= start + marked(mark@, Seq::<Seq<char>>::empty()));
    for i in 0..ls.len()
        invariant
            out@ == start + marked(mark@, fresh(texts(ls@).take(i as int), known@)),
            any == (fresh(texts(ls@).take(i as int), known@).len() > 0),
    {
        let ghost next = texts(ls@).take(i + 1);
        assert(next.drop_last() =~= texts(ls@).take(i as int));
        assert(next.last() == ls@[i as int]@);
        let ghost before = fresh(texts(ls@).take(i as int), known@);
        if !known.contains(ls[i].as_str()) {
            assert(fresh(next, known@).drop_last() =~= before);
            out.append(mark);
            out.append(ls[i].as_str());
            out.push('\n');
            assert(out@ =~= start + marked(mark@, fresh(next, known@)));
            any = true;
        }
    }
    assert(texts(ls@).take(ls@.len() as int) =~= texts(ls@));
    any
}

/// Line-based difference between two snapshots: lines that appeared (`+`) and
/// disappeared (`-`). A line that only moved is no change.
pub fn diff_snapshots(prev: &str, current: &str) -> (res: String)
    ensures
        res@ == diff_text(prev@, current@),
{
    let prev_lines = line_texts(prev);
    let cur_lines = line_texts(current);
    let prev_set = line_set(&prev_lines);
    let cur_set = line_set(&cur_lines);
    let mut out = "snapshot diff (vs previous snapshot in this session):\n".to_owned();
    let plus = report(&mut out, "+ ", &cur_lines, &prev_set);
    let minus = report(&mut out, "- ", &prev_lines, &cur_set);
    if !plus && !minus {
        out.append("(no changes since last snapshot)\n");
    }
    out
}

// -- what a call returns ------------------------------------------------------------------
/// Where the text of a snapshot comes from.
pub enum SnapshotSource {
    /// The accessibility outline.
    Tree(String),
    /// The tree is unavailable or blank: evaluate [`DOM_OUTLINE_JS`].
    DomOutline,
}

/// Takes the accessibility outline unless it failed or is blank.
pub fn compute_snapshot(tree: Result<String, String>) -> (res: SnapshotSource)
    ensures
        match tree {
            Ok(s) => if trim(s@).len() > 0 {
                res matches SnapshotSource::Tree(t) && t@ == s@
            } else {
                res is DomOutline
            },
            Err(_) => res is DomOutline,
        },
{
    match tree {
        Ok(s) => {
            let t = trimmed(s.as_str());
            if is_empty(t.as_str()) {
                SnapshotSource::DomOutline
            } else {
                SnapshotSource::Tree(s)
            }
        },
        Err(_) => SnapshotSource::DomOutline,
    }
}

/// The DOM outline as it is returned: capped, or a placeholder for an empty page.
pub fn dom_outline(text: String) -> (res: String)
    ensures
        res@ == if text@.len() == 0 {
            "(empty page)"@
        } else {
            capped(text@, 15_000)
        },
{
    if is_empty(text.as_str()) {
        "(empty page)".to_owned()
    } else {
        cap(text, MAX_SNAPSHOT_CHARS)
    }
}

/// A full snapshot is returned as it is and becomes the session's baseline.
pub fn snapshot(last: &mut Option<String>, current: String) -> (res: String)
    ensures
        res@ == current@,
        opt_text(*final(last)) == Some(current@),
{
    *last = Some(current.clone());
    current
}

/// The difference to the session's baseline, which `current` then replaces. Without a
/// baseline the whole snapshot is returned, tagged as such.
pub fn snapshot_diff(last: &mut Option<String>, current: String) -> (res: String)
    ensures
        res@ == match opt_text(*old(last)) {
            None =>
                "(baseline: full snapshot — call snapshot again after an action to see only the changes)\n\n"@
                + current@,
            Some(prev) => diff_text(prev, current@),
        },
        opt_text(*final(last)) == Some(current@),
{
    let out = match last {
        None => {
            let mut out =
                "(baseline: full snapshot — call snapshot again after an action to see only the changes)\n\n".to_owned();
            out.append(current.as_str());
            out
        },
        Some(prev) => diff_snapshots(prev.as_str(), current.as_str()),
    };
    *last = Some(current);
    out
}

// -- laws ------------------------------------------------------------------------------
proof fn lemma_fresh_contains(ls: Seq<Seq<char>>, known: Set<Seq<char>>, x: Seq<char>)
    ensures
        fresh(ls, known).contains(x) <==> ls.contains(x) && !known.contains(x),
    decreases ls.len(),
{
    if ls.len() > 0 {
        lemma_fresh_contains(ls.drop_last(), known, x);
        let before = fresh(ls.drop_last(), known);
        let all = fresh(ls, known);
        if all.contains(x) {
            let k = choose|k: int| 0 <= k < all.len() && all[k] == x;
            if k < before.len() {
                assert(before[k] == x);
                let j = choose|j: int| 0 <= j < ls.drop_last().len() && ls.drop_last()[j] == x;
                assert(ls[j] == x);
            } else {
                assert(ls[ls.len() - 1] == x);
            }
        }
        if ls.contains(x) && !known.contains(x) {
            let j = choose|j: int| 0 <= j < ls.len() && ls[j] == x;
            if j < ls.len() - 1 {
                assert(ls.drop_last()[j] == x);
                let k = choose|k: int| 0 <= k < before.len() && before[k] == x;
                assert(all[k] == x);
            } else {
                assert(all[before.len() as int] == x);
            }
        }
    }
}

/// A line is reported as added exactly when the current snapshot holds it and the
/// previous one does not.
pub proof fn law_added_lines(prev: Seq<char>, current: Seq<char>, line: Seq<char>)
    ensures
        added(prev, current).contains(line) <==> lines(current).contains(line) && !lines(
            prev,
        ).contains(line),
{
    lemma_fresh_contains(lines(current), lines(prev).to_set(), line);
}

/// What one direction adds, the other removes.
pub proof fn law_diff_is_symmetric(a: Seq<char>, b: Seq<char>)
    ensures
        added(a, b) == removed(b, a),
        removed(a, b) == added(b, a),
{
}

/// Snapshots with the same lines, in whatever order, differ in nothing: a moved line is
/// no change.
pub proof fn law_moved_lines_are_no_change(prev: Seq<char>, current: Seq<char>)
    requires
        lines(prev).to_set() == lines(current).to_set(),
    ensures
        diff_text(prev, current) == "snapshot diff (vs previous snapshot in this session):\n"@
            + "(no changes since last snapshot)\n"@,
{
    lemma_nothing_fresh(lines(current), lines(prev).to_set());
    lemma_nothing_fresh(lines(prev), lines(current).to_set());
    assert(marked("+ "@, Seq::<Seq<char>>::empty()) =~= Seq::<char>::empty());
    assert(marked("- "@, Seq::<Seq<char>>::empty()) =~= Seq::<char>::empty());
    assert(diff_text(prev, current) =~= "snapshot diff (vs previous snapshot in this session):\n"@
        + "(no changes since last snapshot)\n"@);
}

proof fn lemma_nothing_fresh(ls: Seq<Seq<char>>, known: Set<Seq<char>>)
    requires
        ls.to_set() == known,
    ensures
        fresh(ls, known) == Seq::<Seq<char>>::empty(),
{
    let all = fresh(ls, known);
    if all.len() > 0 {
        lemma_fresh_contains(ls, known, all[0]);
        assert(all.contains(all[0]));
        assert(ls.to_set().contains(all[0]));
    }
    assert(all =~= Seq::<Seq<char>>::empty());
}

proof fn lemma_fresh_is_filter(
    ls: Seq<Seq<char>>,
    known: Seq<Seq<char>>,
    keep: spec_fn(Seq<char>) -> bool,
)
    requires
        forall|l: Seq<char>| #[trigger] keep(l) == !known.contains(l),
    ensures
        fresh(ls, known.to_set()) == ls.filter(keep),
    decreases ls.len(),
{
    reveal(Seq::filter);
    if ls.len() == 0 {
        assert(fresh(ls, known.to_set()) =~= ls.filter(keep));
    } else {
        lemma_fresh_is_filter(ls.drop_last(), known, keep);
        assert(known.to_set().contains(ls.last()) == known.contains(ls.last()));
        assert(keep(ls.last()) == !known.contains(ls.last()));
    }
}

/// The reported lines are those that the other snapshot does not hold, every one of them, in
/// their order and as often as they occur.
pub proof fn law_reported_lines_keep_order(prev: Seq<char>, current: Seq<char>)
    ensures
        added(prev, current) == lines(current).filter(|l: Seq<char>| !lines(prev).contains(l)),
        removed(prev, current) == lines(prev).filter(|l: Seq<char>| !lines(current).contains(l)),
{
    lemma_fresh_is_filter(
        lines(current),
        lines(prev),
        |l: Seq<char>| !lines(prev).contains(l),
    );
    lemma_fresh_is_filter(
        lines(prev),
        lines(current),
        |l: Seq<char>| !lines(current).contains(l),
    );
}

/// Every line is marked for itself, in order: the mark, the line, and the end of the line.
pub proof fn law_every_line_is_marked(
    mark: Seq<char>,
    a: Seq<Seq<char>>,
    b: Seq<Seq<char>>,
    l: Seq<char>,
)
    ensures
        marked(mark, Seq::<Seq<char>>::empty()) == Seq::<char>::empty(),
        marked(mark, seq![l]) == mark + l + "\n"@,
        marked(mark, a + b) == marked(mark, a) + marked(mark, b),
    decreases b.len(),
{
    reveal_strlit("\n");
    assert(seq![l].drop_last() =~= Seq::<Seq<char>>::empty());
    assert(marked(mark, seq![l].drop_last()) =~= Seq::<char>::empty());
    assert(marked(mark, seq![l]) =~= mark + l + "\n"@);
    if b.len() == 0 {
        assert(a + b =~= a);
        assert(marked(mark, a) + marked(mark, b) =~= marked(mark, a));
    } else {
        law_every_line_is_marked(mark, a, b.drop_last(), l);
        assert((a + b).drop_last() =~= a + b.drop_last());
        assert(marked(mark, a + b) =~= marked(mark, a) + marked(mark, b));
    }
}

/// The lines of two texts, one below the other, are those of the first and those of the second;
/// a text without a line end is one line, unless it is blank.
pub proof fn law_lines_of_texts(a: Seq<char>, b: Seq<char>)
    ensures
        lines(a.push('\n') + b) == lines(a) + lines(b),
        !a.contains('\n') ==> lines(a) == (if trim(a).len() > 0 {
            seq![trim(a)]
        } else {
            Seq::<Seq<char>>::empty()
        }),
{
    law_separator_parts_text(a, '\n', b);
    law_non_blank_pieces(split(a, '\n'), split(b, '\n'), a);
    if !a.contains('\n') {
        lemma_split_single(a, '\n');
    }
}

proof fn lemma_lines_hold_no_newline(pieces: Seq<Seq<char>>, i: int)
    requires
        forall|k: int| 0 <= k < pieces.len() ==> !(#[trigger] pieces[k]).contains('\n'),
        0 <= i < non_blank(pieces).len(),
    ensures
        !non_blank(pieces)[i].contains('\n'),
    decreases pieces.len(),
{
    if pieces.len() > 0 {
        let front = non_blank(pieces.drop_last());
        if i < front.len() {
            assert forall|k: int| 0 <= k < pieces.drop_last().len() implies !(
            #[trigger] pieces.drop_last()[k]).contains('\n') by {
                assert(pieces.drop_last()[k] == pieces[k]);
            }
            lemma_lines_hold_no_newline(pieces.drop_last(), i);
            assert(non_blank(pieces)[i] == front[i]);
        } else {
            let p = pieces[pieces.len() - 1];
            law_trim_takes_white_ends(p);
            let t = trim(p);
            let (x, y) = choose|x: int, y: int|
                #![trigger p.subrange(x, y)]
                0 <= x <= y <= p.len() && t == p.subrange(x, y) && (forall|k: int|
                    0 <= k < x || y <= k < p.len() ==> is_white(#[trigger] p[k]));
            if t.contains('\n') {
                let k = choose|k: int| 0 <= k < t.len() && t[k] == '\n';
                assert(p[x + k] == '\n');
            }
        }
    }
}

proof fn lemma_marked_splits(
    h: Seq<char>,
    mark: Seq<char>,
    ls: Seq<Seq<char>>,
) -> (g: Seq<char>)
    requires
        !mark.contains('\n'),
        forall|k: int| 0 <= k < ls.len() ==> !(#[trigger] ls[k]).contains('\n'),
    ensures
        h.push('\n') + marked(mark, ls) == g.push('\n'),
        split(g, '\n') == split(h, '\n') + Seq::new(ls.len(), |i: int| mark + ls[i]),
    decreases ls.len(),
{
    if ls.len() == 0 {
        assert(h.push('\n') + marked(mark, ls) =~= h.push('\n'));
        assert(split(h, '\n') =~= split(h, '\n') + Seq::new(ls.len(), |i: int| mark + ls[i]));
        h
    } else {
        let front = ls.drop_last();
        assert forall|k: int| 0 <= k < front.len() implies !(#[trigger] front[k]).contains(
            '\n',
        ) by {
            assert(front[k] == ls[k]);
        }
        let w = lemma_marked_splits(h, mark, front);
        let l = ls[ls.len() - 1];
        let line = mark + l;
        assert(!line.contains('\n')) by {
            if line.contains('\n') {
                let k = choose|k: int| 0 <= k < line.len() && line[k] == '\n';
                if k < mark.len() {
                    assert(mark[k] == '\n');
                } else {
                    assert(l[k - mark.len()] == '\n');
                }
            }
        }
        let g = w.push('\n') + line;
        lemma_split_append(w, '\n', line);
        assert(h.push('\n') + marked(mark, ls) =~= (h.push('\n') + marked(mark, front)) + line.push(
            '\n',
        ));
        assert(h.push('\n') + marked(mark, ls) =~= g.push('\n'));
        assert(split(g, '\n') =~= split(h, '\n') + Seq::new(ls.len(), |i: int| mark + ls[i]));
        g
    }
}

proof fn lemma_fresh_holds_no_newline(s: Seq<char>, known: Set<Seq<char>>)
    ensures
        forall|k: int|
            0 <= k < fresh(lines(s), known).len() ==> !(#[trigger] fresh(lines(s), known)[k]).contains(
                '\n',
            ),
{
    let all = fresh(lines(s), known);
    assert forall|k: int| 0 <= k < all.len() implies !(#[trigger] all[k]).contains('\n') by {
        lemma_fresh_contains(lines(s), known, all[k]);
        assert(all.contains(all[k]));
        let i = choose|i: int| 0 <= i < lines(s).len() && lines(s)[i] == all[k];
        law_split_joins_back(s, '\n');
        lemma_lines_hold_no_newline(split(s, '\n'), i);
    }
}

/// The lines of a report, all of them: the heading, every added line behind `+ `, every removed
/// line behind `- `, each in the order of its snapshot, and a note where there is neither.
pub proof fn law_lines_of_a_report(prev: Seq<char>, current: Seq<char>)
    ensures
        ({
            let plus = lines(current).filter(|l: Seq<char>| !lines(prev).contains(l));
            let minus = lines(prev).filter(|l: Seq<char>| !lines(current).contains(l));
            split(diff_text(prev, current), '\n') == seq![
                "snapshot diff (vs previous snapshot in this session):"@,
            ] + Seq::new(plus.len(), |i: int| "+ "@ + plus[i]) + Seq::new(
                minus.len(),
                |i: int| "- "@ + minus[i],
            ) + (if plus.len() == 0 && minus.len() == 0 {
                seq!["(no changes since last snapshot)"@]
            } else {
                Seq::<Seq<char>>::empty()
            }) + seq![Seq::<char>::empty()]
        }),
{
    law_reported_lines_keep_order(prev, current);
    let plus = added(prev, current);
    let minus = removed(prev, current);
    lemma_fresh_holds_no_newline(current, lines(prev).to_set());
    lemma_fresh_holds_no_newline(prev, lines(current).to_set());
    reveal_strlit("snapshot diff (vs previous snapshot in this session):");
    reveal_strlit("snapshot diff (vs previous snapshot in this session):\n");
    reveal_strlit("(no changes since last snapshot)");
    reveal_strlit("(no changes since last snapshot)\n");
    reveal_strlit("+ ");
    reveal_strlit("- ");
    let head = "snapshot diff (vs previous snapshot in this session):"@;
    let note = "(no changes since last snapshot)"@;
    assert(head.push('\n') =~= "snapshot diff (vs previous snapshot in this session):\n"@);
    assert(note.push('\n') =~= "(no changes since last snapshot)\n"@);
    assert(!head.contains('\n'));
    assert(!note.contains('\n'));
    lemma_split_single(head, '\n');
    let g = lemma_marked_splits(head, "+ "@, plus);
    let f = lemma_marked_splits(g, "- "@, minus);
    let body = head.push('\n') + marked("+ "@, plus) + marked("- "@, minus);
    assert(body == f.push('\n'));
    let marks = seq![head] + Seq::new(plus.len(), |i: int| "+ "@ + plus[i]) + Seq::new(
        minus.len(),
        |i: int| "- "@ + minus[i],
    );
    assert(split(f, '\n') =~= marks);
    let nothing = Seq::<char>::empty();
    if plus.len() == 0 && minus.len() == 0 {
        lemma_split_append(f, '\n', note);
        let n = f.push('\n') + note;
        assert(diff_text(prev, current) =~= n.push('\n') + nothing);
        lemma_split_append(n, '\n', nothing);
        assert(split(diff_text(prev, current), '\n') =~= marks + seq![note] + seq![nothing]);
    } else {
        assert(diff_text(prev, current) =~= f.push('\n') + nothing);
        lemma_split_append(f, '\n', nothing);
        assert(marks + Seq::<Seq<char>>::empty() =~= marks);
        assert(split(diff_text(prev, current), '\n') =~= marks + Seq::<Seq<char>>::empty() + seq![
            nothing,
        ]);
    }
}

} // verus!
