//! Secrets that are typed into fields without ever standing in a tool call: references to
//! environment variables and, where allowed, to files.
use crate::paths::{inside, lies_inside};
use crate::text::{has_prefix, opt_str, slice_text, starts_with, to_chars};
use vstd::prelude::*;

verus! {

/// Where a secret is read from.
pub enum SecretSource {
    /// An environment variable of the server.
    Env(String),
    /// A file on the server.
    File(String),
}

/// The model of a secret's source.
pub enum SourceView {
    Env(Seq<char>),
    File(Seq<char>),
}

/// What a reference names: `env:NAME` or `file:/path`. Anything else, such as a secret in
/// plain text, is no reference.
pub open spec fn source_of(secret_ref: Seq<char>) -> Option<SourceView> {
    if starts_with(secret_ref, "env:"@) && secret_ref.len() > 4 {
        Some(SourceView::Env(secret_ref.skip(4)))
    } else if starts_with(secret_ref, "file:"@) && secret_ref.len() > 5 {
        Some(SourceView::File(secret_ref.skip(5)))
    } else {
        None
    }
}

/// Resolves a reference to where the secret is read from. Files need an explicit permission.
/// No error repeats the reference, which may hold a secret by mistake.
pub fn resolve_secret_ref(secret_ref: &str, allow_files: bool) -> (res: Result<
    SecretSource,
    String,
>)
    ensures
        match source_of(secret_ref@) {
            Some(SourceView::Env(name)) => res matches Ok(SecretSource::Env(n)) && n@ == name,
            Some(SourceView::File(path)) => if allow_files {
                res matches Ok(SecretSource::File(p)) && p@ == path
            } else {
                res is Err && res->Err_0@
                    == "file: secrets are disabled by default; set KITE_ALLOW_SECRET_FILES to allow reading secrets from disk"@
            },
            None => res is Err && res->Err_0@
                == "secret_ref must be `env:NAME` or `file:/path`; plaintext secrets are refused"@,
        },
{
    proof {
        reveal_strlit("env:");
        reveal_strlit("file:");
    }
    let c = to_chars(secret_ref);
    if has_prefix(c.as_slice(), "env:") && c.len() > 4 {
        let name = slice_text(c.as_slice(), 4, c.len());
        assert(name@ =~= secret_ref@.skip(4));
        return Ok(SecretSource::Env(name));
    }
    if has_prefix(c.as_slice(), "file:") && c.len() > 5 {
        if !allow_files {
            return Err(
                "file: secrets are disabled by default; set KITE_ALLOW_SECRET_FILES to allow reading secrets from disk".to_owned(),
            );
        }
        let path = slice_text(c.as_slice(), 5, c.len());
        assert(path@ =~= secret_ref@.skip(5));
        return Ok(SecretSource::File(path));
    }
    Err("secret_ref must be `env:NAME` or `file:/path`; plaintext secrets are refused".to_owned())
}

/// Whether a secret file may be read: anywhere without a fence, else only inside it. Both
/// paths are absolute and free of links.
pub fn secret_file_allowed(fence: Option<&str>, path: &str, os: &str) -> (res: bool)
    ensures
        res == match opt_str(fence) {
            Some(dir) => inside(dir, path@, os@),
            None => true,
        },
{
    match fence {
        Some(dir) => lies_inside(dir, path, os),
        None => true,
    }
}

/// The contents of a secret file without the line break at its end.
pub open spec fn without_line_break(s: Seq<char>) -> Seq<char> {
    if s.len() > 0 && s.last() == '\n' {
        if s.len() > 1 && s[s.len() - 2] == '\r' {
            s.take(s.len() - 2)
        } else {
            s.drop_last()
        }
    } else {
        s
    }
}

/// The secret that a file holds: its contents without the line break that editors put at the
/// end.
pub fn secret_from_file(contents: &str) -> (res: String)
    ensures
        res@ == without_line_break(contents@),
{
    let c = to_chars(contents);
    let n: usize = c.len();
    let end: usize = if n > 0 && c[n - 1] == '\n' {
        if n > 1 && c[n - 2] == '\r' {
            n - 2
        } else {
            n - 1
        }
    } else {
        n
    };
    let out = slice_text(c.as_slice(), 0, end);
    assert(out@ =~= without_line_break(contents@));
    out
}

/// The error of a variable that is not set.
pub fn secret_not_set(name: &str) -> (res: String)
    ensures
        res@ == "secret environment variable "@ + name@ + " is not set"@,
{
    let mut e = "secret environment variable ".to_owned();
    e.append(name);
    e.append(" is not set");
    e
}

/// A reference without a scheme is refused, whatever is allowed.
pub proof fn law_plaintext_is_refused(secret_ref: Seq<char>)
    requires
        !secret_ref.contains(':'),
    ensures
        source_of(secret_ref) is None,
{
    reveal_strlit("env:");
    reveal_strlit("file:");
    if starts_with(secret_ref, "env:"@) {
        assert(secret_ref.take(4)[3] == ':');
        assert(secret_ref[3] == ':');
    }
    if starts_with(secret_ref, "file:"@) {
        assert(secret_ref.take(5)[4] == ':');
        assert(secret_ref[4] == ':');
    }
}

// -- laws ------------------------------------------------------------------------------
/// A reference names what stands behind its scheme, which must be there. Nothing but the two
/// schemes, spelled as they are, is a reference.
pub proof fn law_references(name: Seq<char>, r: Seq<char>)
    ensures
        name.len() > 0 ==> source_of("env:"@ + name) == Some(SourceView::Env(name)),
        name.len() > 0 ==> source_of("file:"@ + name) == Some(SourceView::File(name)),
        source_of("env:"@) is None,
        source_of("file:"@) is None,
        source_of(r) matches Some(SourceView::Env(n)) ==> r == "env:"@ + n,
        source_of(r) matches Some(SourceView::File(p)) ==> r == "file:"@ + p,
{
    reveal_strlit("env:");
    reveal_strlit("file:");
    let e = "env:"@ + name;
    let f = "file:"@ + name;
    assert(e.take(4) =~= "env:"@);
    assert(e.skip(4) =~= name);
    assert(f.take(5) =~= "file:"@);
    assert(f.skip(5) =~= name);
    assert(f.take(4)[0] != "env:"@[0]);
    assert(!starts_with(f, "env:"@));
    assert("file:"@.take(4)[0] != "env:"@[0]);
    assert(!starts_with("file:"@, "env:"@));
    if starts_with(r, "env:"@) {
        assert(r =~= "env:"@ + r.skip(4));
    }
    if starts_with(r, "file:"@) {
        assert(r =~= "file:"@ + r.skip(5));
    }
}

/// One line break at the end goes, and nothing else.
pub proof fn law_one_line_break_goes(s: Seq<char>)
    ensures
        s.len() == 0 || s.last() != '\r' ==> without_line_break(s.push('\n')) == s,
        without_line_break(s.push('\r').push('\n')) == s,
        s.len() == 0 || s.last() != '\n' ==> without_line_break(s) == s,
{
    let n = s.push('\n');
    assert(n.drop_last() =~= s);
    if s.len() > 0 {
        assert(n[n.len() - 2] == s.last());
    }
    let rn = s.push('\r').push('\n');
    assert(rn.take(rn.len() - 2) =~= s);
}

} // verus!
