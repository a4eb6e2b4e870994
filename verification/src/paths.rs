//! File paths as texts. `/` separates their components, on Windows `\\` does too.
use crate::text::{
    contains_text, has_prefix, has_text, law_rfind_is_last, opt_text, rfind, rfind_char, same,
    slice_text, starts_with, to_chars,
};
use vstd::prelude::*;

verus! {

/// Whether an operating system has drives, and the backslash for a separator besides the slash.
pub open spec fn is_windows(os: Seq<char>) -> bool {
    os == "windows"@
}

pub(crate) fn on_windows(os: &str) -> (res: bool)
    ensures
        res == is_windows(os@),
{
    same(os, "windows")
}

/// Whether a character separates the components of a path.
pub open spec fn is_sep(c: char, os: Seq<char>) -> bool {
    c == '/' || (is_windows(os) && c == '\\')
}

/// Whether a character separates the components of a path; `windows` tells the system.
pub(crate) fn sep(c: char, windows: bool) -> (res: bool)
    ensures
        forall|os: Seq<char>| is_windows(os) == windows ==> res == #[trigger] is_sep(c, os),
{
    c == '/' || (windows && c == '\\')
}

/// The separator that joining puts between components.
pub open spec fn main_sep(os: Seq<char>) -> Seq<char> {
    if is_windows(os) {
        "\\"@
    } else {
        "/"@
    }
}

/// Whether a path begins with a drive, such as `C:`.
pub open spec fn has_drive(path: Seq<char>) -> bool {
    path.len() >= 2 && path[1] == ':' && ('a' <= path[0] <= 'z' || 'A' <= path[0] <= 'Z')
}

fn drive(path: &[char]) -> (res: bool)
    ensures
        res == has_drive(path@),
{
    path.len() >= 2 && path[1] == ':' && (('a' <= path[0] && path[0] <= 'z') || ('A' <= path[0]
        && path[0] <= 'Z'))
}

/// Where the component that `from` stands in ends.
pub open spec fn component_end(path: Seq<char>, from: int, os: Seq<char>) -> int
    decreases path.len() - from,
{
    if from < 0 || from >= path.len() || is_sep(path[from], os) {
        from
    } else {
        component_end(path, from + 1, os)
    }
}

fn end_of_component(path: &[char], from: usize, os: &str) -> (res: usize)
    requires
        from <= path@.len(),
    ensures
        res == component_end(path@, from as int, os@),
        from <= res <= path@.len(),
{
    let windows = on_windows(os);
    let mut i: usize = from;
    while i < path.len() && !sep(path[i], windows)
        invariant
            from <= i <= path@.len(),
            windows == is_windows(os@),
            component_end(path@, from as int, os@) == component_end(path@, i as int, os@),
        decreases path@.len() - i,
    {
        i = i + 1;
    }
    i
}

/// Whether a path begins with two separators, as the name of a server does.
pub open spec fn has_server(path: Seq<char>, os: Seq<char>) -> bool {
    is_windows(os) && path.len() >= 2 && is_sep(path[0], os) && is_sep(path[1], os)
}

/// How long the part of a path is that names its volume: a drive, or a server and its share.
pub open spec fn volume_len(path: Seq<char>, os: Seq<char>) -> int {
    if !is_windows(os) {
        0
    } else if has_server(path, os) {
        let server = component_end(path, 2, os);
        if server < path.len() {
            component_end(path, server + 1, os)
        } else {
            server
        }
    } else if has_drive(path) {
        2
    } else {
        0
    }
}

pub(crate) fn len_of_volume(path: &[char], os: &str) -> (res: usize)
    ensures
        res == volume_len(path@, os@),
        res <= path@.len(),
{
    let windows = on_windows(os);
    if !windows {
        return 0;
    }
    if path.len() >= 2 && sep(path[0], windows) && sep(path[1], windows) {
        let server: usize = end_of_component(path, 2, os);
        if server < path.len() {
            end_of_component(path, server + 1, os)
        } else {
            server
        }
    } else if drive(path) {
        2
    } else {
        0
    }
}

/// A path with another one below it. A path with a volume of its own replaces the first, and so
/// does an absolute one, but for the first path's volume. A bare drive is joined without a
/// separator. A path with a verbatim prefix (`\\?\`) is joined like any other: `.` and `..` in
/// what follows stay as they are.
pub open spec fn path_join(base: Seq<char>, rel: Seq<char>, os: Seq<char>) -> Seq<char> {
    if volume_len(rel, os) > 0 {
        rel
    } else if rel.len() > 0 && is_sep(rel[0], os) {
        base.take(volume_len(base, os)) + rel
    } else if base.len() == 0 || is_sep(base.last(), os) || bare_drive(base, os) {
        base + rel
    } else {
        base + main_sep(os) + rel
    }
}

/// Whether a path is a drive and nothing else.
pub open spec fn bare_drive(path: Seq<char>, os: Seq<char>) -> bool {
    is_windows(os) && path.len() == 2 && has_drive(path)
}

/// A path with another one below it; see [`path_join`].
pub fn join_path(base: &str, rel: &str, os: &str) -> (res: String)
    ensures
        res@ == path_join(base@, rel@, os@),
{
    let b = to_chars(base);
    let r = to_chars(rel);
    let windows = on_windows(os);
    if len_of_volume(r.as_slice(), os) > 0 {
        return rel.to_owned();
    }
    if r.len() > 0 && sep(r[0], windows) {
        let volume: usize = len_of_volume(b.as_slice(), os);
        let mut out = slice_text(b.as_slice(), 0, volume);
        assert(out@ =~= base@.take(volume as int));
        out.append(rel);
        return out;
    }
    let mut out = base.to_owned();
    let bare = windows && b.len() == 2 && drive(b.as_slice());
    if b.len() > 0 && !sep(b[b.len() - 1], windows) && !bare {
        if windows {
            out.append("\\");
        } else {
            out.append("/");
        }
    }
    out.append(rel);
    out
}

/// A path without trailing separators and trailing `.` components.
pub open spec fn strip_trailing(path: Seq<char>, os: Seq<char>) -> Seq<char>
    decreases path.len(),
{
    if path.len() > 0 && is_sep(path.last(), os) {
        strip_trailing(path.drop_last(), os)
    } else if path.len() > 1 && path.last() == '.' && is_sep(path[path.len() - 2], os) {
        strip_trailing(path.drop_last(), os)
    } else {
        path
    }
}

/// Where the last component of a path begins, before trailing separators are thought away.
pub open spec fn component_start(path: Seq<char>, os: Seq<char>) -> int
    decreases path.len(),
{
    if path.len() == 0 || is_sep(path.last(), os) || bare_drive(path, os) {
        path.len() as int
    } else {
        component_start(path.drop_last(), os)
    }
}

/// The last component of a path.
pub open spec fn last_component(path: Seq<char>, os: Seq<char>) -> Seq<char> {
    let p = strip_trailing(path, os);
    p.skip(component_start(p, os))
}

fn start_of_component(path: &[char], os: &str) -> (res: usize)
    ensures
        res == component_start(path@, os@),
        res <= path@.len(),
{
    let windows = on_windows(os);
    let mut n: usize = path.len();
    assert(path@.take(n as int) =~= path@);
    let begins_with_drive = windows && drive(path);
    while n > 0 && !sep(path[n - 1], windows) && !(begins_with_drive && n == 2)
        invariant
            0 <= n <= path@.len(),
            windows == is_windows(os@),
            begins_with_drive == (windows && has_drive(path@)),
            component_start(path@, os@) == component_start(path@.take(n as int), os@),
        decreases n,
    {
        let ghost cur = path@.take(n as int);
        assert(cur.last() == path@[n - 1]);
        assert(cur.drop_last() =~= path@.take(n - 1));
        if n == 2 {
            assert(cur[0] == path@[0] && cur[1] == path@[1]);
        }
        n = n - 1;
    }
    let ghost cur = path@.take(n as int);
    if n > 0 {
        assert(cur.last() == path@[n - 1]);
        if n == 2 {
            assert(cur[0] == path@[0] && cur[1] == path@[1]);
        }
    }
    n
}

/// The extension of a path's file name: what follows its last dot, where something stands
/// before that dot.
pub open spec fn extension(path: Seq<char>, os: Seq<char>) -> Option<Seq<char>> {
    let name = last_component(path, os);
    let dot = rfind(name, '.');
    if name == ".."@ || dot <= 0 {
        None
    } else {
        Some(name.skip(dot + 1))
    }
}

/// The extension of a path's file name.
pub fn extension_of(path: &str, os: &str) -> (res: Option<String>)
    ensures
        opt_text(res) == extension(path@, os@),
{
    let c = to_chars(path);
    let windows = on_windows(os);
    let mut n: usize = c.len();
    assert(c@.take(n as int) =~= c@);
    while n > 0 && (sep(c[n - 1], windows) || (n > 1 && c[n - 1] == '.' && sep(c[n - 2], windows)))
        invariant
            0 <= n <= c@.len(),
            windows == is_windows(os@),
            strip_trailing(c@, os@) == strip_trailing(c@.take(n as int), os@),
        decreases n,
    {
        assert(c@.take(n as int).last() == c@[n - 1]);
        assert(c@.take(n as int).drop_last() =~= c@.take(n - 1));
        n = n - 1;
    }
    let ghost p = c@.take(n as int);
    assert(n > 0 ==> p.last() == c@[n - 1]);
    assert(n > 1 ==> p[n - 2] == c@[n - 2]);
    assert(strip_trailing(c@, os@) == p);
    assert(p =~= c@.subrange(0, n as int));
    let stripped = to_chars(slice_text(c.as_slice(), 0, n).as_str());
    let start: usize = start_of_component(stripped.as_slice(), os);
    let name = slice_text(stripped.as_slice(), start, stripped.len());
    assert(name@ =~= last_component(path@, os@));
    let chars = to_chars(name.as_str());
    if same(name.as_str(), "..") {
        return None;
    }
    match rfind_char(chars.as_slice(), '.') {
        Some(i) => if i == 0 {
            None
        } else {
            let ext = slice_text(chars.as_slice(), i + 1, chars.len());
            assert(ext@ =~= name@.skip(i + 1));
            Some(ext)
        },
        None => None,
    }
}

/// Whether a path lies in a directory; both are absolute and free of links.
pub open spec fn inside(dir: Seq<char>, path: Seq<char>, os: Seq<char>) -> bool {
    &&& dir.len() > 0
    &&& starts_with(path, dir)
    &&& is_sep(dir.last(), os) || (path.len() > dir.len() && is_sep(path[dir.len() as int], os))
}

/// Whether a path lies in a directory; both are absolute and free of links.
pub fn lies_inside(dir: &str, path: &str, os: &str) -> (res: bool)
    ensures
        res == inside(dir@, path@, os@),
{
    let d = to_chars(dir);
    let p = to_chars(path);
    let windows = on_windows(os);
    d.len() > 0 && has_prefix(p.as_slice(), dir) && (sep(d[d.len() - 1], windows) || (p.len()
        > d.len() && sep(p[d.len()], windows)))
}

/// A shell shim rather than a browser executable.
pub open spec fn shell_wrapper(path: Seq<char>, os: Seq<char>) -> bool {
    extension(path, os) == Some("sh"@) || has_text(path, "Caskroom"@)
}

/// Whether a detected path looks like a shell shim (such as Homebrew's
/// `chromium.wrapper.sh`), which may point at a browser that is no longer installed.
pub fn is_shell_wrapper(path: &str, os: &str) -> (res: bool)
    ensures
        res == shell_wrapper(path@, os@),
{
    let is_sh = match extension_of(path, os) {
        Some(e) => same(e.as_str(), "sh"),
        None => false,
    };
    is_sh || contains_text(path, "Caskroom")
}

// -- laws ------------------------------------------------------------------------------
/// What separates components: a slash everywhere, and a backslash on Windows, which is also what
/// joining puts there.
pub proof fn law_separators(c: char, os: Seq<char>)
    ensures
        os == "windows"@ ==> (is_sep(c, os) <==> c == '/' || c == '\\') && main_sep(os) == "\\"@,
        os != "windows"@ ==> (is_sep(c, os) <==> c == '/') && main_sep(os) == "/"@,
{
}

/// A component ends before the first separator behind its start, or at the end of the path.
pub proof fn law_component_ends_before_separator(path: Seq<char>, from: int, os: Seq<char>)
    requires
        0 <= from <= path.len(),
    ensures
        from <= component_end(path, from, os) <= path.len(),
        component_end(path, from, os) < path.len() ==> is_sep(
            path[component_end(path, from, os)],
            os,
        ),
        forall|k: int|
            from <= k < component_end(path, from, os) ==> !is_sep(#[trigger] path[k], os),
    decreases path.len() - from,
{
    if from < path.len() && !is_sep(path[from], os) {
        law_component_ends_before_separator(path, from + 1, os);
    }
}

/// What names a volume: on Windows a drive, or a server with its share behind two separators;
/// elsewhere nothing does.
pub proof fn law_volumes(path: Seq<char>, os: Seq<char>)
    ensures
        os != "windows"@ ==> volume_len(path, os) == 0,
        os == "windows"@ && path.len() >= 2 && path[1] == ':' && ('a' <= path[0] <= 'z' || 'A'
            <= path[0] <= 'Z') ==> volume_len(path, os) == 2,
        os == "windows"@ && path.len() >= 2 && is_sep(path[0], os) && is_sep(path[1], os) ==> ({
            let server = component_end(path, 2, os);
            volume_len(path, os) == (if server < path.len() {
                component_end(path, server + 1, os)
            } else {
                server
            })
        }),
        os == "windows"@ && (path.len() < 2 || (!(is_sep(path[0], os) && is_sep(path[1], os)) && !(
        path[1] == ':' && ('a' <= path[0] <= 'z' || 'A' <= path[0] <= 'Z')))) ==> volume_len(
            path,
            os,
        ) == 0,
{
}

/// Joining two paths: what is relative goes below the first, behind one separator, which is not
/// doubled; what is absolute, or has a volume of its own, replaces it, but for the volume.
pub proof fn law_joined_paths(base: Seq<char>, rel: Seq<char>, os: Seq<char>)
    ensures
        volume_len(rel, os) > 0 ==> path_join(base, rel, os) == rel,
        volume_len(rel, os) == 0 && rel.len() > 0 && is_sep(rel[0], os) ==> path_join(base, rel, os)
            == base.take(volume_len(base, os)) + rel,
        os != "windows"@ && rel.len() > 0 && rel[0] == '/' ==> path_join(base, rel, os) == rel,
        volume_len(rel, os) == 0 && (rel.len() == 0 || !is_sep(rel[0], os)) ==> ({
            let closed = base.len() == 0 || is_sep(base.last(), os) || (os == "windows"@
                && base.len() == 2 && base[1] == ':' && ('a' <= base[0] <= 'z' || 'A' <= base[0]
                <= 'Z'));
            &&& closed ==> path_join(base, rel, os) == base + rel
            &&& !closed ==> path_join(base, rel, os) == base + (if os == "windows"@ {
                "\\"@
            } else {
                "/"@
            }) + rel
        }),
{
    if os != "windows"@ && rel.len() > 0 && rel[0] == '/' {
        assert(base.take(0) + rel =~= rel);
    }
}

/// The last component of a path is the name behind its last separator, whether or not
/// separators follow it.
pub proof fn law_last_component(head: Seq<char>, name: Seq<char>, os: Seq<char>)
    requires
        head.len() > 0,
        is_sep(head.last(), os),
        name.len() > 0,
        name != "."@,
        forall|i: int| 0 <= i < name.len() ==> !is_sep(#[trigger] name[i], os),
        forall|i: int| 0 <= i < name.len() ==> #[trigger] name[i] != ':',
    ensures
        last_component(head + name, os) == name,
        last_component((head + name).push('/'), os) == name,
        last_component((head + name).push('/').push('.'), os) == name,
{
    let p = head + name;
    reveal_strlit(".");
    assert(p.last() == name[name.len() - 1]);
    if p.last() == '.' {
        if name.len() == 1 {
            assert(name =~= "."@);
        } else {
            assert(p[p.len() - 2] == name[name.len() - 2]);
        }
    }
    assert(strip_trailing(p, os) == p);
    let slash = p.push('/');
    assert(slash.drop_last() =~= p);
    assert(strip_trailing(slash, os) == p);
    let dot = slash.push('.');
    assert(dot.drop_last() =~= slash);
    assert(dot[dot.len() - 2] == '/');
    assert(strip_trailing(dot, os) == p);
    lemma_start_behind_separator(head, name, os);
    assert(p.skip(head.len() as int) =~= name);
}

proof fn lemma_start_behind_separator(head: Seq<char>, name: Seq<char>, os: Seq<char>)
    requires
        head.len() > 0,
        is_sep(head.last(), os),
        forall|i: int| 0 <= i < name.len() ==> !is_sep(#[trigger] name[i], os),
        forall|i: int| 0 <= i < name.len() ==> #[trigger] name[i] != ':',
    ensures
        component_start(head + name, os) == head.len(),
    decreases name.len(),
{
    let p = head + name;
    if name.len() == 0 {
        assert(p =~= head);
    } else {
        let front = name.drop_last();
        assert(p.drop_last() =~= head + front);
        assert forall|i: int| 0 <= i < front.len() implies !is_sep(#[trigger] front[i], os) by {
            assert(front[i] == name[i]);
        }
        assert forall|i: int| 0 <= i < front.len() implies #[trigger] front[i] != ':' by {
            assert(front[i] == name[i]);
        }
        lemma_start_behind_separator(head, front, os);
        assert(p.last() == name[name.len() - 1]);
        if p.len() == 2 {
            assert(p[1] == name[0]);
        }
    }
}

/// The extension of a file name is what follows its last dot, where something stands before
/// that; a name without a dot, or with none but its first character, has none.
pub proof fn law_extensions(path: Seq<char>, stem: Seq<char>, ext: Seq<char>, os: Seq<char>)
    requires
        !ext.contains('.'),
    ensures
        last_component(path, os) == stem.push('.') + ext && stem.len() > 0 && last_component(
            path,
            os,
        ) != ".."@ ==> extension(path, os) == Some(ext),
        last_component(path, os) == seq!['.'] + ext ==> extension(path, os) is None,
        last_component(path, os) == ext ==> extension(path, os) is None,
        last_component(path, os) == ".."@ ==> extension(path, os) is None,
{
    let name = stem.push('.') + ext;
    law_rfind_is_last(name, '.');
    let r = rfind(name, '.');
    assert(name[stem.len() as int] == '.');
    if r > stem.len() {
        assert(name[r] == ext[r - stem.len() - 1]);
        assert(ext.contains(ext[r - stem.len() - 1]));
    }
    assert(name.skip(stem.len() as int + 1) =~= ext);
    let hidden = seq!['.'] + ext;
    law_rfind_is_last(hidden, '.');
    let h = rfind(hidden, '.');
    if h > 0 {
        assert(hidden[h] == ext[h - 1]);
        assert(ext.contains(ext[h - 1]));
    }
    law_rfind_is_last(ext, '.');
}

/// What lies in a directory: the paths that go on behind it with a separator. A neighbour whose
/// name only begins like the directory's does not.
pub proof fn law_inside_a_directory(dir: Seq<char>, rest: Seq<char>, path: Seq<char>, os: Seq<char>)
    requires
        dir.len() > 0,
        !is_sep(dir.last(), os),
    ensures
        inside(dir, dir.push('/') + rest, os),
        inside(dir, dir + rest, os) <==> rest.len() > 0 && is_sep(rest[0], os),
        inside(dir, path, os) ==> path.len() > dir.len() && path.take(dir.len() as int) == dir
            && is_sep(path[dir.len() as int], os),
        !inside(Seq::<char>::empty(), path, os),
{
    let p = dir.push('/') + rest;
    assert(p.take(dir.len() as int) =~= dir);
    let q = dir + rest;
    assert(q.take(dir.len() as int) =~= dir);
    if rest.len() > 0 {
        assert(q[dir.len() as int] == rest[0]);
    }
}

/// What is taken for a shell shim: a file with the extension `sh`, and whatever lies in a
/// Caskroom.
pub proof fn law_shell_shims(path: Seq<char>, os: Seq<char>)
    ensures
        extension(path, os) == Some("sh"@) ==> shell_wrapper(path, os),
        has_text(path, "Caskroom"@) ==> shell_wrapper(path, os),
        shell_wrapper(path, os) ==> extension(path, os) == Some("sh"@) || has_text(
            path,
            "Caskroom"@,
        ),
{
}

/// Separators at the end of a path, and a dot behind one, change nothing of its last component.
pub proof fn law_trailing_separators_are_ignored(path: Seq<char>, c: char, os: Seq<char>)
    requires
        is_sep(c, os),
    ensures
        last_component(path.push(c), os) == last_component(path, os),
        last_component(path.push(c).push('.'), os) == last_component(path, os),
        extension(path.push(c), os) == extension(path, os),
{
    assert(path.push(c).drop_last() =~= path);
    let dot = path.push(c).push('.');
    assert(dot.drop_last() =~= path.push(c));
    assert(dot[dot.len() - 2] == c);
}

/// A name that stands alone is its own last component; so is one behind a bare drive.
pub proof fn law_bare_names(name: Seq<char>, letter: char, os: Seq<char>)
    requires
        name.len() > 0,
        'a' <= letter <= 'z' || 'A' <= letter <= 'Z',
        forall|i: int| 0 <= i < name.len() ==> !is_sep(#[trigger] name[i], os),
        forall|i: int| 0 <= i < name.len() ==> #[trigger] name[i] != ':',
    ensures
        last_component(name, os) == name,
        is_windows(os) ==> last_component(seq![letter, ':'] + name, os) == name,
{
    assert(strip_trailing(name, os) == name) by {
        assert(!is_sep(name[name.len() - 1], os));
        if name.len() > 1 {
            assert(!is_sep(name[name.len() - 2], os));
        }
    }
    lemma_start_of_bare_name(Seq::<char>::empty(), name, os);
    assert(Seq::<char>::empty() + name =~= name);
    assert(name.skip(0) =~= name);
    if is_windows(os) {
        let drive = seq![letter, ':'];
        let p = drive + name;
        assert(p.last() == name[name.len() - 1]);
        if name.len() > 1 {
            assert(p[p.len() - 2] == name[name.len() - 2]);
        } else {
            assert(p[p.len() - 2] == ':');
        }
        assert(strip_trailing(p, os) == p);
        lemma_start_of_bare_name(drive, name, os);
        assert(p.skip(2) =~= name);
    }
}

proof fn lemma_start_of_bare_name(drive: Seq<char>, name: Seq<char>, os: Seq<char>)
    requires
        drive.len() == 0 || bare_drive(drive, os),
        forall|i: int| 0 <= i < name.len() ==> !is_sep(#[trigger] name[i], os),
        forall|i: int| 0 <= i < name.len() ==> #[trigger] name[i] != ':',
    ensures
        component_start(drive + name, os) == drive.len(),
    decreases name.len(),
{
    let p = drive + name;
    if name.len() == 0 {
        assert(p =~= drive);
    } else {
        let front = name.drop_last();
        assert(p.drop_last() =~= drive + front);
        assert forall|i: int| 0 <= i < front.len() implies !is_sep(#[trigger] front[i], os) by {
            assert(front[i] == name[i]);
        }
        assert forall|i: int| 0 <= i < front.len() implies #[trigger] front[i] != ':' by {
            assert(front[i] == name[i]);
        }
        lemma_start_of_bare_name(drive, front, os);
        assert(p.last() == name[name.len() - 1]);
        if p.len() == 2 {
            assert(p[1] == name[1 - drive.len()]);
        }
    }
}

} // verus!
