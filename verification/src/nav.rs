//! Navigation: which URLs may be opened, and which resources lite mode leaves out.
use crate::text::{
    find, find_char, is_ascii_alnum, law_find_is_first, lemma_texts_push, lower, lowered, same,
    slice_text, texts, to_chars,
};
use vstd::prelude::*;

verus! {

/// Characters that may stand in a URL scheme.
pub open spec fn is_scheme_char(c: char) -> bool {
    is_ascii_alnum(c) || c == '+' || c == '-' || c == '.'
}

/// Every character may stand in a scheme.
pub open spec fn all_scheme_chars(s: Seq<char>) -> bool {
    forall|i: int| 0 <= i < s.len() ==> is_scheme_char(#[trigger] s[i])
}

/// The lower-cased scheme of a URL: what stands before its first colon, where that is not
/// empty and holds scheme characters only.
pub open spec fn url_scheme(url: Seq<char>) -> Option<Seq<char>> {
    let at = find(url, ':');
    if 0 < at < url.len() && all_scheme_chars(url.take(at)) {
        Some(lower(url.take(at)))
    } else {
        None
    }
}

fn scheme_of(url: &str) -> (res: Option<String>)
    ensures
        crate::text::opt_text(res) == url_scheme(url@),
{
    let c = to_chars(url);
    let at: usize = find_char(c.as_slice(), ':');
    if at == 0 || at == c.len() {
        return None;
    }
    for i in 0..at
        invariant
            c@ == url@,
            at < c@.len(),
            at == find(url@, ':'),
            forall|k: int| 0 <= k < i ==> is_scheme_char(#[trigger] url@[k]),
    {
        let ch = c[i];
        let ok = ('0' <= ch && ch <= '9') || ('a' <= ch && ch <= 'z') || ('A' <= ch && ch <= 'Z')
            || ch == '+' || ch == '-' || ch == '.';
        if !ok {
            assert(!is_scheme_char(url@.take(at as int)[i as int]));
            return None;
        }
    }
    assert(url@.take(at as int) =~= url@.subrange(0, at as int));
    let s = slice_text(c.as_slice(), 0, at);
    Some(lowered(s.as_str()))
}

/// Schemes that a navigation may always use.
pub open spec fn is_web_scheme(scheme: Seq<char>) -> bool {
    ||| scheme == "http"@
    ||| scheme == "https"@
    ||| scheme == "about"@
    ||| scheme == "data"@
    ||| scheme == "blob"@
}

/// Whether a navigation may be made. A URL without a scheme is left for the browser to
/// resolve.
pub open spec fn navigation_allowed(url: Seq<char>, allow_files: bool) -> bool {
    match url_scheme(url) {
        None => true,
        Some(s) => is_web_scheme(s) || (s == "file"@ && allow_files),
    }
}

/// Why a URL whose scheme is not allowed may not be opened.
pub open spec fn navigation_refusal(url: Seq<char>) -> Seq<char> {
    match url_scheme(url) {
        None => Seq::empty(),
        Some(s) => if s == "file"@ {
            "file:// navigation is disabled by default; set KITE_ALLOW_FILE_URLS=1 to allow local-file access"@
        } else {
            "navigation to "@ + s + ": URLs is not allowed"@
        },
    }
}

/// Guards navigation against schemes that read local files or reach non-web resources:
/// `file:` needs `allow_files`, anything but the web schemes is refused.
pub fn validate_navigation_url(url: &str, allow_files: bool) -> (res: Result<(), String>)
    ensures
        match res {
            Ok(()) => navigation_allowed(url@, allow_files),
            Err(e) => !navigation_allowed(url@, allow_files) && e@ == navigation_refusal(url@),
        },
{
    let scheme = match scheme_of(url) {
        Some(s) => s,
        None => {
            return Ok(());
        },
    };
    let s = scheme.as_str();
    if same(s, "http") || same(s, "https") || same(s, "about") || same(s, "data") || same(
        s,
        "blob",
    ) {
        return Ok(());
    }
    if same(s, "file") {
        if allow_files {
            return Ok(());
        }
        return Err(
            "file:// navigation is disabled by default; set KITE_ALLOW_FILE_URLS=1 to allow local-file access".to_owned(),
        );
    }
    let mut e = "navigation to ".to_owned();
    e.append(s);
    e.append(": URLs is not allowed");
    Err(e)
}

/// A local file never opens by default, however its scheme is spelled: for every URL whose
/// scheme is `file` the answer is the permission alone.
pub proof fn law_file_urls_need_permission(url: Seq<char>, allow_files: bool)
    requires
        url_scheme(url) == Some("file"@),
    ensures
        navigation_allowed(url, allow_files) == allow_files,
{
    reveal_strlit("file");
    reveal_strlit("http");
    reveal_strlit("https");
    reveal_strlit("about");
    reveal_strlit("data");
    reveal_strlit("blob");
    assert("file"@[0] == 'f');
    assert("http"@[0] == 'h');
    assert("https"@[0] == 'h');
    assert("about"@[0] == 'a');
    assert("data"@[0] == 'd');
    assert("blob"@[0] == 'b');
}

// -- lite mode ------------------------------------------------------------------------------
/// What lite mode leaves out: images, media and fonts by their file extension, then
/// well-known advertising and analytics hosts.
pub open spec fn lite_block_patterns() -> Seq<Seq<char>> {
    seq![
        "*.png"@,
        "*.jpg"@,
        "*.jpeg"@,
        "*.gif"@,
        "*.webp"@,
        "*.svg"@,
        "*.ico"@,
        "*.bmp"@,
        "*.avif"@,
        "*.mp4"@,
        "*.webm"@,
        "*.ogg"@,
        "*.mp3"@,
        "*.wav"@,
        "*.m4a"@,
        "*.mov"@,
        "*.avi"@,
        "*.woff"@,
        "*.woff2"@,
        "*.ttf"@,
        "*.otf"@,
        "*.eot"@,
        "*doubleclick.net*"@,
        "*google-analytics.com*"@,
        "*googletagmanager.com*"@,
        "*googlesyndication.com*"@,
        "*analytics.google.com*"@,
        "*adservice.google.com*"@,
        "*connect.facebook.net*"@,
        "*facebook.com/tr*"@,
        "*hotjar.com*"@,
        "*mixpanel.com*"@,
        "*amplitude.com*"@,
        "*segment.com*"@,
        "*segment.io*"@,
        "*scorecardresearch.com*"@,
        "*quantserve.com*"@,
        "*ads-twitter.com*"@,
        "*bat.bing.com*"@,
    ]
}

fn push_pattern(out: &mut Vec<String>, pattern: &str)
    ensures
        texts(final(out)@) == texts(old(out)@).push(pattern@),
{
    let s = pattern.to_owned();
    proof {
        lemma_texts_push(out@, s);
    }
    out.push(s);
}

/// The URL patterns to block during a navigation: those of lite mode, or none, which
/// clears an earlier list.
pub fn apply_blocking(enabled: bool) -> (res: Vec<String>)
    ensures
        texts(res@) == if enabled {
            lite_block_patterns()
        } else {
            Seq::<Seq<char>>::empty()
        },
{
    let mut out: Vec<String> = Vec::new();
    assert(texts(out@) =~= Seq::<Seq<char>>::empty());
    if !enabled {
        return out;
    }
    push_pattern(&mut out, "*.png");
    push_pattern(&mut out, "*.jpg");
    push_pattern(&mut out, "*.jpeg");
    push_pattern(&mut out, "*.gif");
    push_pattern(&mut out, "*.webp");
    push_pattern(&mut out, "*.svg");
    push_pattern(&mut out, "*.ico");
    push_pattern(&mut out, "*.bmp");
    push_pattern(&mut out, "*.avif");
    push_pattern(&mut out, "*.mp4");
    push_pattern(&mut out, "*.webm");
    push_pattern(&mut out, "*.ogg");
    push_pattern(&mut out, "*.mp3");
    push_pattern(&mut out, "*.wav");
    push_pattern(&mut out, "*.m4a");
    push_pattern(&mut out, "*.mov");
    push_pattern(&mut out, "*.avi");
    push_pattern(&mut out, "*.woff");
    push_pattern(&mut out, "*.woff2");
    push_pattern(&mut out, "*.ttf");
    push_pattern(&mut out, "*.otf");
    push_pattern(&mut out, "*.eot");
    push_pattern(&mut out, "*doubleclick.net*");
    push_pattern(&mut out, "*google-analytics.com*");
    push_pattern(&mut out, "*googletagmanager.com*");
    push_pattern(&mut out, "*googlesyndication.com*");
    push_pattern(&mut out, "*analytics.google.com*");
    push_pattern(&mut out, "*adservice.google.com*");
    push_pattern(&mut out, "*connect.facebook.net*");
    push_pattern(&mut out, "*facebook.com/tr*");
    push_pattern(&mut out, "*hotjar.com*");
    push_pattern(&mut out, "*mixpanel.com*");
    push_pattern(&mut out, "*amplitude.com*");
    push_pattern(&mut out, "*segment.com*");
    push_pattern(&mut out, "*segment.io*");
    push_pattern(&mut out, "*scorecardresearch.com*");
    push_pattern(&mut out, "*quantserve.com*");
    push_pattern(&mut out, "*ads-twitter.com*");
    push_pattern(&mut out, "*bat.bing.com*");
    assert(texts(out@) =~= lite_block_patterns());
    out
}

/// Begins a navigation: the URL patterns to block, or why the URL may not be opened.
pub fn begin_navigation(url: &str, lite: bool, allow_files: bool) -> (res: Result<
    Vec<String>,
    String,
>)
    ensures
        match res {
            Ok(patterns) => navigation_allowed(url@, allow_files) && texts(patterns@) == if lite {
                lite_block_patterns()
            } else {
                Seq::<Seq<char>>::empty()
            },
            Err(e) => !navigation_allowed(url@, allow_files) && e@ == navigation_refusal(url@),
        },
{
    match validate_navigation_url(url, allow_files) {
        Ok(()) => Ok(apply_blocking(lite)),
        Err(e) => Err(e),
    }
}

// -- laws ------------------------------------------------------------------------------
/// The scheme of a URL is what stands before its first colon, in lower case, where that is not
/// empty and holds nothing but letters, digits, `+`, `-` and `.`; any other URL has none.
pub proof fn law_scheme_stands_before_first_colon(name: Seq<char>, rest: Seq<char>, url: Seq<char>)
    requires
        !name.contains(':'),
    ensures
        url_scheme(name.push(':') + rest) is Some <==> name.len() > 0 && forall|i: int|
            0 <= i < name.len() ==> ('0' <= #[trigger] name[i] <= '9' || 'a' <= name[i] <= 'z'
                || 'A' <= name[i] <= 'Z' || name[i] == '+' || name[i] == '-' || name[i] == '.'),
        url_scheme(name.push(':') + rest) is Some ==> url_scheme(name.push(':') + rest) == Some(
            lower(name),
        ),
        !url.contains(':') ==> url_scheme(url) is None,
{
    let whole = name.push(':') + rest;
    law_find_is_first(whole, ':');
    law_find_is_first(url, ':');
    let f = find(whole, ':');
    assert(whole[name.len() as int] == ':');
    assert(f == name.len()) by {
        if f < name.len() {
            assert(whole[f] == name[f]);
            assert(name.contains(name[f]));
        }
    }
    assert(whole.take(f) =~= name);
    if all_scheme_chars(name) {
        assert forall|i: int| 0 <= i < name.len() implies ('0' <= #[trigger] name[i] <= '9' || 'a'
            <= name[i] <= 'z' || 'A' <= name[i] <= 'Z' || name[i] == '+' || name[i] == '-'
            || name[i] == '.') by {
            assert(is_scheme_char(name[i]));
        }
    }
    if forall|i: int|
        0 <= i < name.len() ==> ('0' <= #[trigger] name[i] <= '9' || 'a' <= name[i] <= 'z' || 'A'
            <= name[i] <= 'Z' || name[i] == '+' || name[i] == '-' || name[i] == '.') {
        assert forall|i: int| 0 <= i < name.len() implies is_scheme_char(#[trigger] name[i]) by {}
    }
}

/// Which navigations are made: those without a scheme, those of the web schemes, and those to
/// files where that is allowed. Every other one is refused with its scheme's name.
pub proof fn law_navigations(url: Seq<char>, s: Seq<char>, allow_files: bool)
    ensures
        url_scheme(url) is None ==> navigation_allowed(url, allow_files),
        url_scheme(url) == Some(s) ==> (navigation_allowed(url, allow_files) <==> s == "http"@ || s
            == "https"@ || s == "about"@ || s == "data"@ || s == "blob"@ || (s == "file"@
            && allow_files)),
        url_scheme(url) == Some("file"@) ==> navigation_refusal(url)
            == "file:// navigation is disabled by default; set KITE_ALLOW_FILE_URLS=1 to allow local-file access"@,
        url_scheme(url) == Some(s) && s != "file"@ ==> navigation_refusal(url) == "navigation to "@
            + s + ": URLs is not allowed"@,
{
}

/// Lite mode leaves out these images, media, fonts and hosts, and nothing else.
pub proof fn law_lite_mode_leaves_out()
    ensures
        lite_block_patterns().len() == 39,
        lite_block_patterns().contains("*.png"@),
        lite_block_patterns().contains("*.jpg"@),
        lite_block_patterns().contains("*.jpeg"@),
        lite_block_patterns().contains("*.gif"@),
        lite_block_patterns().contains("*.webp"@),
        lite_block_patterns().contains("*.svg"@),
        lite_block_patterns().contains("*.ico"@),
        lite_block_patterns().contains("*.bmp"@),
        lite_block_patterns().contains("*.avif"@),
        lite_block_patterns().contains("*.mp4"@),
        lite_block_patterns().contains("*.webm"@),
        lite_block_patterns().contains("*.ogg"@),
        lite_block_patterns().contains("*.mp3"@),
        lite_block_patterns().contains("*.wav"@),
        lite_block_patterns().contains("*.m4a"@),
        lite_block_patterns().contains("*.mov"@),
        lite_block_patterns().contains("*.avi"@),
        lite_block_patterns().contains("*.woff"@),
        lite_block_patterns().contains("*.woff2"@),
        lite_block_patterns().contains("*.ttf"@),
        lite_block_patterns().contains("*.otf"@),
        lite_block_patterns().contains("*.eot"@),
        lite_block_patterns().contains("*doubleclick.net*"@),
        lite_block_patterns().contains("*google-analytics.com*"@),
        lite_block_patterns().contains("*googletagmanager.com*"@),
        lite_block_patterns().contains("*googlesyndication.com*"@),
        lite_block_patterns().contains("*analytics.google.com*"@),
        lite_block_patterns().contains("*adservice.google.com*"@),
        lite_block_patterns().contains("*connect.facebook.net*"@),
        lite_block_patterns().contains("*facebook.com/tr*"@),
        lite_block_patterns().contains("*hotjar.com*"@),
        lite_block_patterns().contains("*mixpanel.com*"@),
        lite_block_patterns().contains("*amplitude.com*"@),
        lite_block_patterns().contains("*segment.com*"@),
        lite_block_patterns().contains("*segment.io*"@),
        lite_block_patterns().contains("*scorecardresearch.com*"@),
        lite_block_patterns().contains("*quantserve.com*"@),
        lite_block_patterns().contains("*ads-twitter.com*"@),
        lite_block_patterns().contains("*bat.bing.com*"@),
{
    let p = lite_block_patterns();
    assert(p[0] == "*.png"@);
    assert(p[1] == "*.jpg"@);
    assert(p[2] == "*.jpeg"@);
    assert(p[3] == "*.gif"@);
    assert(p[4] == "*.webp"@);
    assert(p[5] == "*.svg"@);
    assert(p[6] == "*.ico"@);
    assert(p[7] == "*.bmp"@);
    assert(p[8] == "*.avif"@);
    assert(p[9] == "*.mp4"@);
    assert(p[10] == "*.webm"@);
    assert(p[11] == "*.ogg"@);
    assert(p[12] == "*.mp3"@);
    assert(p[13] == "*.wav"@);
    assert(p[14] == "*.m4a"@);
    assert(p[15] == "*.mov"@);
    assert(p[16] == "*.avi"@);
    assert(p[17] == "*.woff"@);
    assert(p[18] == "*.woff2"@);
    assert(p[19] == "*.ttf"@);
    assert(p[20] == "*.otf"@);
    assert(p[21] == "*.eot"@);
    assert(p[22] == "*doubleclick.net*"@);
    assert(p[23] == "*google-analytics.com*"@);
    assert(p[24] == "*googletagmanager.com*"@);
    assert(p[25] == "*googlesyndication.com*"@);
    assert(p[26] == "*analytics.google.com*"@);
    assert(p[27] == "*adservice.google.com*"@);
    assert(p[28] == "*connect.facebook.net*"@);
    assert(p[29] == "*facebook.com/tr*"@);
    assert(p[30] == "*hotjar.com*"@);
    assert(p[31] == "*mixpanel.com*"@);
    assert(p[32] == "*amplitude.com*"@);
    assert(p[33] == "*segment.com*"@);
    assert(p[34] == "*segment.io*"@);
    assert(p[35] == "*scorecardresearch.com*"@);
    assert(p[36] == "*quantserve.com*"@);
    assert(p[37] == "*ads-twitter.com*"@);
    assert(p[38] == "*bat.bing.com*"@);
}

} // verus!
