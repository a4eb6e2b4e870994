//! Text primitives shared by every other module: trimming, splitting, searching,
//! decimal numbers and byte-capped truncation, all stated over sequences of
//! characters.
use vstd::prelude::*;
use vstd::string::*;
use vstd::utf8::{encode_scalar, encode_utf8};

verus! {

// -- trusted std items ------------------------------------------------------------
/// `String::push`: appends one character to the end of the string.
pub assume_specification[ String::push ](s: &mut String, c: char)
    ensures
        final(s)@ == old(s)@.push(c),
;

/// `str == str`: true exactly when both hold the same characters.
pub assume_specification[ <str as PartialEq>::eq ](s: &str, other: &str) -> (res: bool)
    ensures
        res == (s@ == other@),
;

/// The text that `{:?}` prints for a string: quoted, with the escapes of
/// `str`'s `Debug` impl.
pub uninterp spec fn debug_text(s: Seq<char>) -> Seq<char>;

/// `format!("{:?}", s)` on a string: the quoted and escaped form, named
/// [`debug_text`].
#[verifier::external_body]
pub(crate) fn debug(s: &str) -> (res: String)
    ensures
        res@ == debug_text(s@),
{
    format!("{:?}", s)
}

// -- characters ---------------------------------------------------------------------
/// Unicode `White_Space`, the set that `str::trim` removes.
pub open spec fn is_white(c: char) -> bool {
    let u = c as u32;
    ||| 0x09 <= u <= 0x0d
    ||| u == 0x20
    ||| u == 0x85
    ||| u == 0xa0
    ||| u == 0x1680
    ||| 0x2000 <= u <= 0x200a
    ||| u == 0x2028
    ||| u == 0x2029
    ||| u == 0x202f
    ||| u == 0x205f
    ||| u == 0x3000
}

/// Whether `c` is white space.
pub fn char_is_white(c: char) -> (res: bool)
    ensures
        res == is_white(c),
        res == (9 <= c as u32 <= 13 || c == ' ' || c as u32 == 0x85 || c as u32 == 0xa0 || c as u32
            == 0x1680 || 0x2000 <= c as u32 <= 0x200a || c as u32 == 0x2028 || c as u32 == 0x2029
            || c as u32 == 0x202f || c as u32 == 0x205f || c as u32 == 0x3000),
{
    let u: u32 = c as u32;
    (0x09 <= u && u <= 0x0d) || u == 0x20 || u == 0x85 || u == 0xa0 || u == 0x1680 || (0x2000 <= u
        && u <= 0x200a) || u == 0x2028 || u == 0x2029 || u == 0x202f || u == 0x205f || u == 0x3000
}

/// The lower-case form of an ASCII letter; every other character is itself.
pub open spec fn lower_char(c: char) -> char {
    if 'A' <= c <= 'Z' {
        ((c as u32) + 32) as char
    } else {
        c
    }
}

/// ASCII lower-casing of a whole text.
pub open spec fn lower(s: Seq<char>) -> Seq<char> {
    s.map_values(|c: char| lower_char(c))
}

fn lowered_char(c: char) -> (res: char)
    ensures
        res == lower_char(c),
{
    if 'A' <= c && c <= 'Z' {
        let u: u32 = c as u32;
        let b: u8 = u as u8;
        (b + 32) as char
    } else {
        c
    }
}

pub open spec fn is_digit(c: char) -> bool {
    '0' <= c <= '9'
}

pub open spec fn is_ascii_alnum(c: char) -> bool {
    is_digit(c) || 'a' <= c <= 'z' || 'A' <= c <= 'Z'
}

// -- conversions --------------------------------------------------------------------
/// The characters of `s`, in order.
pub fn to_chars(s: &str) -> (res: Vec<char>)
    ensures
        res@ == s@,
{
    let mut out: Vec<char> = Vec::new();
    for c in it: s.chars()
        invariant
            it.seq() == s@,
            out@ == it.seq().take(it.index()),
    {
        out.push(c);
    }
    out
}

/// The text made of `chars[from..to]`.
pub fn slice_text(chars: &[char], from: usize, to: usize) -> (res: String)
    requires
        from <= to <= chars@.len(),
    ensures
        res@ == chars@.subrange(from as int, to as int),
{
    let mut out = String::new();
    for i in from..to
        invariant
            from <= to <= chars@.len(),
            out@ == chars@.subrange(from as int, i as int),
    {
        out.push(chars[i]);
    }
    out
}

/// The texts of a list of strings.
pub open spec fn texts(v: Seq<String>) -> Seq<Seq<char>> {
    v.map_values(|s: String| s@)
}

pub proof fn lemma_texts_push(v: Seq<String>, s: String)
    ensures
        texts(v.push(s)) == texts(v).push(s@),
{
    assert(texts(v.push(s)) =~= texts(v).push(s@));
}

/// The view of an optional string.
pub open spec fn opt_text(o: Option<String>) -> Option<Seq<char>> {
    match o {
        Some(s) => Some(s@),
        None => None,
    }
}

/// The view of an optional borrowed string.
pub open spec fn opt_str(o: Option<&str>) -> Option<Seq<char>> {
    match o {
        Some(s) => Some(s@),
        None => None,
    }
}

/// A copy of an optional string.
pub fn clone_opt(o: &Option<String>) -> (res: Option<String>)
    ensures
        opt_text(res) == opt_text(*o),
{
    match o {
        Some(s) => Some(s.clone()),
        None => None,
    }
}

/// An optional string, borrowed.
pub fn borrow_opt(o: &Option<String>) -> (res: Option<&str>)
    ensures
        opt_str(res) == opt_text(*o),
{
    match o {
        Some(s) => Some(s.as_str()),
        None => None,
    }
}

// -- equality and affixes -------------------------------------------------------------
/// Whether two texts are equal.
pub fn same(a: &str, b: &str) -> (res: bool)
    ensures
        res == (a@ == b@),
{
    *a == *b
}

/// Whether a text holds no character.
pub fn is_empty(s: &str) -> (res: bool)
    ensures
        res == (s@.len() == 0),
{
    proof {
        reveal_strlit("");
    }
    let e = same(s, "");
    assert(s@.len() == 0 ==> s@ =~= ""@);
    e
}

/// `prefix` is a prefix of `s`.
pub open spec fn starts_with(s: Seq<char>, prefix: Seq<char>) -> bool {
    prefix.len() <= s.len() && s.take(prefix.len() as int) == prefix
}

/// `suffix` is a suffix of `s`.
pub open spec fn ends_with(s: Seq<char>, suffix: Seq<char>) -> bool {
    suffix.len() <= s.len() && s.skip(s.len() - suffix.len()) == suffix
}

/// `needle` stands at position `i` of `hay`.
pub open spec fn occurs_at(hay: Seq<char>, needle: Seq<char>, i: int) -> bool {
    0 <= i && i + needle.len() <= hay.len() && hay.subrange(i, i + needle.len()) == needle
}

/// `needle` stands somewhere in `hay`.
pub open spec fn has_text(hay: Seq<char>, needle: Seq<char>) -> bool {
    exists|i: int| #[trigger] occurs_at(hay, needle, i)
}

/// Whether `needle` stands at position `i` of `hay`.
pub fn occurs(hay: &[char], needle: &[char], i: usize) -> (res: bool)
    requires
        i <= hay@.len(),
    ensures
        res == occurs_at(hay@, needle@, i as int),
{
    let total: usize = hay.len();
    if needle.len() > total - i {
        return false;
    }
    for j in 0..needle.len()
        invariant
            total == hay@.len(),
            i + needle@.len() <= total,
            forall|k: int| 0 <= k < j ==> hay@[i + k] == needle@[k],
    {
        if hay[i + j] != needle[j] {
            assert(hay@.subrange(i as int, i + needle@.len())[j as int] == hay@[i + j]);
            return false;
        }
    }
    assert(hay@.subrange(i as int, i + needle@.len()) =~= needle@);
    true
}

/// Whether `prefix` is a prefix of `s`.
pub fn has_prefix(s: &[char], prefix: &str) -> (res: bool)
    ensures
        res == starts_with(s@, prefix@),
{
    let p = to_chars(prefix);
    assert(p@.len() <= s@.len() ==> s@.take(p@.len() as int) =~= s@.subrange(0, p@.len() as int));
    occurs(s, p.as_slice(), 0)
}

/// Whether `suffix` is a suffix of `s`.
pub fn has_suffix(s: &[char], suffix: &str) -> (res: bool)
    ensures
        res == ends_with(s@, suffix@),
{
    let p = to_chars(suffix);
    if p.len() > s.len() {
        return false;
    }
    let at: usize = s.len() - p.len();
    assert(s@.skip(at as int) =~= s@.subrange(at as int, at + p@.len()));
    occurs(s, p.as_slice(), at)
}

/// Whether `needle` stands somewhere in `hay`.
pub fn contains_text(hay: &str, needle: &str) -> (res: bool)
    ensures
        res == has_text(hay@, needle@),
{
    let h = to_chars(hay);
    let n = to_chars(needle);
    if n.len() > h.len() {
        return false;
    }
    let last: usize = h.len() - n.len();
    for i in 0..last
        invariant
            h@ == hay@,
            n@ == needle@,
            last == h@.len() - n@.len(),
            forall|k: int| 0 <= k < i ==> !occurs_at(hay@, needle@, k),
    {
        if occurs(h.as_slice(), n.as_slice(), i) {
            return true;
        }
    }
    occurs(h.as_slice(), n.as_slice(), last)
}

// -- searching ------------------------------------------------------------------------
/// The position of the first `c` in `s`, or `s.len()` when there is none.
pub open spec fn find(s: Seq<char>, c: char) -> int
    decreases s.len(),
{
    if s.len() == 0 {
        0
    } else if s[0] == c {
        0
    } else {
        1 + find(s.drop_first(), c)
    }
}

/// The position of the last `c` in `s`, or -1 when there is none.
pub open spec fn rfind(s: Seq<char>, c: char) -> int
    decreases s.len(),
{
    if s.len() == 0 {
        -1
    } else if s.last() == c {
        s.len() - 1
    } else {
        rfind(s.drop_last(), c)
    }
}

/// The position of the first `c`, or the length when there is none.
pub fn find_char(s: &[char], c: char) -> (res: usize)
    ensures
        res == find(s@, c),
        res <= s@.len(),
        res < s@.len() ==> s@[res as int] == c,
        forall|k: int| 0 <= k < res ==> s@[k] != c,
{
    let mut i: usize = 0;
    assert(s@.skip(0) =~= s@);
    while i < s.len()
        invariant
            0 <= i <= s@.len(),
            find(s@, c) == i + find(s@.skip(i as int), c),
            forall|k: int| 0 <= k < i ==> s@[k] != c,
        decreases s@.len() - i,
    {
        if s[i] == c {
            assert(s@.skip(i as int)[0] == c);
            return i;
        }
        assert(s@.skip(i as int).drop_first() =~= s@.skip(i + 1));
        i = i + 1;
    }
    i
}

/// The position of the last `c`, if any.
pub fn rfind_char(s: &[char], c: char) -> (res: Option<usize>)
    ensures
        match res {
            Some(i) => i == rfind(s@, c) && i < s@.len() && s@[i as int] == c,
            None => rfind(s@, c) == -1,
        },
{
    let mut n: usize = s.len();
    assert(s@.take(n as int) =~= s@);
    while n > 0
        invariant
            0 <= n <= s@.len(),
            rfind(s@, c) == rfind(s@.take(n as int), c),
        decreases n,
    {
        assert(s@.take(n as int).last() == s@[n - 1]);
        if s[n - 1] == c {
            return Some(n - 1);
        }
        assert(s@.take(n as int).drop_last() =~= s@.take(n - 1));
        n = n - 1;
    }
    None
}

/// The position of the first occurrence of `pat` in `s`, or `s.len()` + 1 when
/// there is none.
pub open spec fn find_text(s: Seq<char>, pat: Seq<char>) -> int
    decreases s.len(),
{
    if occurs_at(s, pat, 0) {
        0
    } else if s.len() == 0 {
        1
    } else {
        1 + find_text(s.drop_first(), pat)
    }
}

/// The position of the first occurrence of `pat`, if any.
pub fn find_str(s: &[char], pat: &str) -> (res: Option<usize>)
    ensures
        match res {
            Some(i) => i == find_text(s@, pat@) && occurs_at(s@, pat@, i as int),
            None => find_text(s@, pat@) == s@.len() + 1,
        },
        forall|k: int|
            0 <= k < find_text(s@, pat@) ==> !#[trigger] occurs_at(s@, pat@, k),
{
    let p = to_chars(pat);
    let mut i: usize = 0;
    assert(s@.skip(0) =~= s@);
    loop
        invariant
            p@ == pat@,
            0 <= i <= s@.len(),
            find_text(s@, pat@) == i + find_text(s@.skip(i as int), pat@),
            forall|k: int| 0 <= k < i ==> !#[trigger] occurs_at(s@, pat@, k),
        decreases s@.len() - i,
    {
        proof {
            if i + pat@.len() <= s@.len() {
                assert(s@.skip(i as int).subrange(0, pat@.len() as int) =~= s@.subrange(
                    i as int,
                    i + pat@.len(),
                ));
            }
            assert(occurs_at(s@.skip(i as int), pat@, 0) == occurs_at(s@, pat@, i as int));
        }
        if occurs(s, p.as_slice(), i) {
            return Some(i);
        }
        if i == s.len() {
            return None;
        }
        assert(s@.skip(i as int).drop_first() =~= s@.skip(i + 1));
        i = i + 1;
    }
}

// -- trimming -------------------------------------------------------------------------
/// `s` without its leading white space.
pub open spec fn trim_start(s: Seq<char>) -> Seq<char>
    decreases s.len(),
{
    if s.len() > 0 && is_white(s[0]) {
        trim_start(s.drop_first())
    } else {
        s
    }
}

/// `s` without its trailing white space.
pub open spec fn trim_end(s: Seq<char>) -> Seq<char>
    decreases s.len(),
{
    if s.len() > 0 && is_white(s.last()) {
        trim_end(s.drop_last())
    } else {
        s
    }
}

/// `s` without leading and trailing white space.
pub open spec fn trim(s: Seq<char>) -> Seq<char> {
    trim_end(trim_start(s))
}

/// The bounds of the part of `s` that is left by trimming.
pub fn trim_bounds(s: &[char]) -> (res: (usize, usize))
    ensures
        res.0 <= res.1 <= s@.len(),
        s@.subrange(res.0 as int, res.1 as int) == trim(s@),
{
    let mut lo: usize = 0;
    assert(s@.skip(0) =~= s@);
    while lo < s.len() && char_is_white(s[lo])
        invariant
            0 <= lo <= s@.len(),
            trim_start(s@) == trim_start(s@.skip(lo as int)),
        decreases s@.len() - lo,
    {
        assert(s@.skip(lo as int).drop_first() =~= s@.skip(lo + 1));
        lo = lo + 1;
    }
    assert(trim_start(s@) == s@.skip(lo as int));
    let ghost t = s@.skip(lo as int);
    let mut hi: usize = s.len();
    assert(s@.subrange(lo as int, hi as int) =~= t);
    while hi > lo && char_is_white(s[hi - 1])
        invariant
            lo <= hi <= s@.len(),
            trim_end(t) == trim_end(s@.subrange(lo as int, hi as int)),
        decreases hi,
    {
        assert(s@.subrange(lo as int, hi as int).last() == s@[hi - 1]);
        assert(s@.subrange(lo as int, hi as int).drop_last() =~= s@.subrange(lo as int, hi - 1));
        hi = hi - 1;
    }
    proof {
        let r = s@.subrange(lo as int, hi as int);
        if r.len() > 0 {
            assert(r.last() == s@[hi - 1]);
        }
    }
    (lo, hi)
}

/// `s` without leading and trailing white space.
pub fn trimmed(s: &str) -> (res: String)
    ensures
        res@ == trim(s@),
{
    let c = to_chars(s);
    let (lo, hi) = trim_bounds(c.as_slice());
    slice_text(c.as_slice(), lo, hi)
}

/// `s` with its ASCII letters in lower case.
pub fn lowered(s: &str) -> (res: String)
    ensures
        res@ == lower(s@),
{
    let c = to_chars(s);
    let mut out = String::new();
    for i in 0..c.len()
        invariant
            c@ == s@,
            out@ == lower(s@.take(i as int)),
    {
        out.push(lowered_char(c[i]));
        assert(out@ =~= lower(s@.take(i + 1)));
    }
    assert(s@.take(c@.len() as int) =~= s@);
    out
}

// -- splitting and joining ----------------------------------------------------------------
/// The pieces of `s` between occurrences of `sep`; there is always at least one.
pub open spec fn split(s: Seq<char>, sep: char) -> Seq<Seq<char>>
    decreases s.len(),
{
    if s.len() == 0 {
        seq![Seq::<char>::empty()]
    } else {
        let before = split(s.drop_last(), sep);
        if s.last() == sep {
            before.push(Seq::<char>::empty())
        } else {
            before.drop_last().push(before.last().push(s.last()))
        }
    }
}

/// The pieces of `s` between occurrences of `sep`.
pub fn split_text(s: &[char], sep: char) -> (res: Vec<String>)
    ensures
        texts(res@) == split(s@, sep),
        res@.len() > 0,
{
    let mut done: Vec<String> = Vec::new();
    let mut cur = String::new();
    assert(texts(done@).push(cur@) =~= split(s@.take(0), sep));
    for i in 0..s.len()
        invariant
            texts(done@).push(cur@) == split(s@.take(i as int), sep),
    {
        let ghost before = texts(done@).push(cur@);
        assert(s@.take(i + 1).drop_last() =~= s@.take(i as int));
        assert(s@.take(i + 1).last() == s@[i as int]);
        if s[i] == sep {
            let ghost piece = cur@;
            let ghost d = done@;
            done.push(cur);
            cur = String::new();
            assert(texts(done@) =~= texts(d).push(piece));
            assert(texts(done@).push(cur@) =~= split(s@.take(i + 1), sep));
        } else {
            cur.push(s[i]);
            assert(before.drop_last() =~= texts(done@));
            assert(texts(done@).push(cur@) =~= split(s@.take(i + 1), sep));
        }
    }
    assert(s@.take(s@.len() as int) =~= s@);
    let ghost d = done@;
    let ghost piece = cur@;
    done.push(cur);
    assert(texts(done@) =~= texts(d).push(piece));
    done
}

/// The trimmed pieces that are not empty.
pub open spec fn non_blank(pieces: Seq<Seq<char>>) -> Seq<Seq<char>>
    decreases pieces.len(),
{
    if pieces.len() == 0 {
        Seq::empty()
    } else {
        let before = non_blank(pieces.drop_last());
        let t = trim(pieces.last());
        if t.len() == 0 {
            before
        } else {
            before.push(t)
        }
    }
}

/// The trimmed pieces of `s` between occurrences of `sep`, without blank ones.
pub fn non_blank_texts(s: &str, sep: char) -> (res: Vec<String>)
    ensures
        texts(res@) == non_blank(split(s@, sep)),
{
    let pieces = split_text(to_chars(s).as_slice(), sep);
    let mut out: Vec<String> = Vec::new();
    for i in 0..pieces.len()
        invariant
            texts(out@) == non_blank(texts(pieces@).take(i as int)),
    {
        let ghost next = texts(pieces@).take(i + 1);
        assert(next.drop_last() =~= texts(pieces@).take(i as int));
        assert(next.last() == pieces@[i as int]@);
        let t = trimmed(pieces[i].as_str());
        if !is_empty(t.as_str()) {
            proof {
                lemma_texts_push(out@, t);
            }
            out.push(t);
        }
    }
    assert(texts(pieces@).take(pieces@.len() as int) =~= texts(pieces@));
    out
}

/// A text without the separator is its only piece.
pub proof fn lemma_split_single(s: Seq<char>, sep: char)
    requires
        !s.contains(sep),
    ensures
        split(s, sep) == seq![s],
    decreases s.len(),
{
    if s.len() == 0 {
        assert(s =~= Seq::<char>::empty());
    } else {
        assert(s[s.len() - 1] == s.last());
        assert forall|i: int| 0 <= i < s.drop_last().len() implies s.drop_last()[i] != sep by {
            assert(s[i] == s.drop_last()[i]);
        }
        lemma_split_single(s.drop_last(), sep);
        assert(s.drop_last().push(s.last()) =~= s);
        let before = split(s.drop_last(), sep);
        assert(before.last() == s.drop_last());
        assert(before.drop_last() =~= Seq::<Seq<char>>::empty());
        assert(split(s, sep) =~= seq![s]);
    }
}

/// A separator and a text without it add that text as the last piece.
pub proof fn lemma_split_append(a: Seq<char>, sep: char, b: Seq<char>)
    requires
        !b.contains(sep),
    ensures
        split(a.push(sep) + b, sep) == split(a, sep).push(b),
    decreases b.len(),
{
    let whole = a.push(sep) + b;
    if b.len() == 0 {
        assert(whole =~= a.push(sep));
        assert(whole.drop_last() =~= a);
        assert(b =~= Seq::<char>::empty());
    } else {
        let front = b.drop_last();
        assert(b[b.len() - 1] == b.last());
        assert forall|i: int| 0 <= i < front.len() implies front[i] != sep by {
            assert(b[i] == front[i]);
        }
        assert(whole.drop_last() =~= a.push(sep) + front);
        lemma_split_append(a, sep, front);
        assert(front.push(b.last()) =~= b);
        let before = split(a, sep).push(front);
        assert(before.drop_last() =~= split(a, sep));
        assert(before.last() == front);
        assert(whole.last() == b.last());
        assert(split(whole, sep) =~= split(a, sep).push(b));
    }
}

/// Two texts with the same UTF-8 bytes are equal.
pub proof fn lemma_utf8_injective(a: Seq<char>, b: Seq<char>)
    requires
        encode_utf8(a) == encode_utf8(b),
    ensures
        a == b,
{
    vstd::utf8::encode_utf8_decode_utf8(a);
    vstd::utf8::encode_utf8_decode_utf8(b);
}

/// The parts, one after the other, with `sep` between neighbours.
pub open spec fn join(parts: Seq<Seq<char>>, sep: Seq<char>) -> Seq<char>
    decreases parts.len(),
{
    if parts.len() == 0 {
        Seq::empty()
    } else if parts.len() == 1 {
        parts[0]
    } else {
        join(parts.drop_last(), sep) + sep + parts.last()
    }
}

/// The parts, one after the other, with `sep` between neighbours.
pub fn join_texts(parts: &Vec<String>, sep: &str) -> (res: String)
    ensures
        res@ == join(texts(parts@), sep@),
{
    let mut out = String::new();
    for i in 0..parts.len()
        invariant
            out@ == join(texts(parts@.take(i as int)), sep@),
    {
        let ghost p = texts(parts@.take(i + 1));
        assert(p.drop_last() =~= texts(parts@.take(i as int)));
        if i > 0 {
            out.append(sep);
        }
        out.append(parts[i].as_str());
        if i == 0 {
            assert(out@ =~= p[0]);
        }
        assert(p.last() == parts@[i as int]@);
    }
    assert(parts@.take(parts@.len() as int) =~= parts@);
    out
}

/// The parts, one after the other, with nothing between them.
pub open spec fn concat(parts: Seq<Seq<char>>) -> Seq<char>
    decreases parts.len(),
{
    if parts.len() == 0 {
        Seq::empty()
    } else {
        concat(parts.drop_last()) + parts.last()
    }
}

// -- numbers --------------------------------------------------------------------------
/// The character of a decimal digit.
pub open spec fn digit_char(d: int) -> char {
    (48 + d) as char
}

/// `n` in decimal, without leading zeros.
pub open spec fn decimal(n: int) -> Seq<char>
    decreases n,
{
    if n < 10 {
        seq![digit_char(n)]
    } else {
        decimal(n / 10).push(digit_char(n % 10))
    }
}

/// `n` in decimal, with a leading minus sign when negative.
pub open spec fn signed_decimal(n: int) -> Seq<char> {
    if n < 0 {
        seq!['-'] + decimal(-n)
    } else {
        decimal(n)
    }
}

/// `n` in decimal.
pub fn decimal_text(n: u64) -> (res: String)
    ensures
        res@ == decimal(n as int),
    decreases n,
{
    let d: u8 = (n % 10) as u8;
    let c: char = (48 + d) as char;
    if n < 10 {
        let mut out = String::new();
        out.push(c);
        assert(out@ =~= decimal(n as int));
        out
    } else {
        let mut out = decimal_text(n / 10);
        out.push(c);
        out
    }
}

/// `n` in decimal, with its sign.
pub fn signed_decimal_text(n: i64) -> (res: String)
    ensures
        res@ == signed_decimal(n as int),
{
    if n < 0 {
        let mut out = String::new();
        out.push('-');
        let m: u64 = if n == i64::MIN { 9223372036854775808u64 } else { (-n) as u64 };
        let d = decimal_text(m);
        out.append(d.as_str());
        assert(out@ =~= seq!['-'] + decimal(-n as int));
        out
    } else {
        decimal_text(n as u64)
    }
}

/// Every character is a decimal digit.
pub open spec fn all_digits(s: Seq<char>) -> bool {
    forall|i: int| 0 <= i < s.len() ==> is_digit(#[trigger] s[i])
}

/// The number that a run of decimal digits writes.
pub open spec fn digits_value(s: Seq<char>) -> int
    decreases s.len(),
{
    if s.len() == 0 {
        0
    } else {
        digits_value(s.drop_last()) * 10 + (s.last() as u32 - 48)
    }
}

/// The unsigned number that `s` writes: an optional `+`, at least one digit, and
/// a value of at most `max`.
pub open spec fn parse_number(s: Seq<char>, max: int) -> Option<int> {
    let t = if s.len() > 0 && s[0] == '+' {
        s.drop_first()
    } else {
        s
    };
    if t.len() > 0 && all_digits(t) && digits_value(t) <= max {
        Some(digits_value(t))
    } else {
        None
    }
}

pub proof fn lemma_digits_value_nonneg(s: Seq<char>)
    requires
        all_digits(s),
    ensures
        digits_value(s) >= 0,
    decreases s.len(),
{
    if s.len() > 0 {
        assert(all_digits(s.drop_last()));
        assert(is_digit(s[s.len() - 1]));
        lemma_digits_value_nonneg(s.drop_last());
    }
}

pub proof fn lemma_digits_value_grows(s: Seq<char>, n: int)
    requires
        all_digits(s),
        0 <= n <= s.len(),
    ensures
        digits_value(s.take(n)) <= digits_value(s),
    decreases s.len(),
{
    if n < s.len() {
        assert(all_digits(s.drop_last()));
        assert(is_digit(s[s.len() - 1]));
        lemma_digits_value_nonneg(s.drop_last());
        lemma_digits_value_grows(s.drop_last(), n);
        assert(s.drop_last().take(n) =~= s.take(n));
    } else {
        assert(s.take(n) =~= s);
    }
}

/// The unsigned number that `s` writes, when there is one and it is at most `max`.
pub fn parse_unsigned(s: &[char], max: u64) -> (res: Option<u64>)
    ensures
        match res {
            Some(n) => parse_number(s@, max as int) == Some(n as int),
            None => parse_number(s@, max as int) is None,
        },
{
    let start: usize = if s.len() > 0 && s[0] == '+' { 1 } else { 0 };
    let ghost t = s@.skip(start as int);
    proof {
        if start == 1 {
            assert(t =~= s@.drop_first());
        } else {
            assert(t =~= s@);
        }
    }
    if start == s.len() {
        return None;
    }
    let mut n: u64 = 0;
    assert(t.take(0) =~= Seq::<char>::empty());
    for i in start..s.len()
        invariant
            start <= s@.len(),
            t == s@.skip(start as int),
            all_digits(t.take(i - start)),
            n == digits_value(t.take(i - start)),
            n <= max,
            parse_number(s@, max as int) == (if t.len() > 0 && all_digits(t) && digits_value(t)
                <= max {
                Some(digits_value(t))
            } else {
                None
            }),
    {
        let c = s[i];
        assert(t[i - start] == c);
        if !('0' <= c && c <= '9') {
            return None;
        }
        let ghost next = t.take(i - start + 1);
        assert(next.drop_last() =~= t.take(i - start));
        assert(next.last() == c);
        proof {
            assert forall|k: int| 0 <= k < next.len() implies is_digit(#[trigger] next[k]) by {
                if k < i - start {
                    assert(t.take(i - start)[k] == next[k]);
                }
            }
        }
        let d: u64 = (c as u32 - 48) as u64;
        proof {
            if all_digits(t) {
                lemma_digits_value_grows(t, i - start + 1);
            }
        }
        if n > (u64::MAX - d) / 10 {
            assert(n * 10 + d > u64::MAX);
            return None;
        }
        if n * 10 + d > max {
            return None;
        }
        n = n * 10 + d;
    }
    assert(t.take(t.len() as int) =~= t);
    Some(n)
}

// -- byte-capped truncation -----------------------------------------------------------------
/// How many bytes a character takes in UTF-8.
pub open spec fn char_width(c: char) -> int {
    let u = c as u32;
    if u <= 0x7f {
        1
    } else if u <= 0x7ff {
        2
    } else if u <= 0xffff {
        3
    } else {
        4
    }
}

fn width(c: char) -> (res: usize)
    ensures
        res == char_width(c),
{
    let u: u32 = c as u32;
    if u <= 0x7f {
        1
    } else if u <= 0x7ff {
        2
    } else if u <= 0xffff {
        3
    } else {
        4
    }
}

/// How many bytes a text takes in UTF-8.
pub open spec fn byte_len(s: Seq<char>) -> int
    decreases s.len(),
{
    if s.len() == 0 {
        0
    } else {
        byte_len(s.drop_last()) + char_width(s.last())
    }
}

pub proof fn lemma_byte_len_add(a: Seq<char>, b: Seq<char>)
    ensures
        byte_len(a + b) == byte_len(a) + byte_len(b),
    decreases b.len(),
{
    if b.len() == 0 {
        assert(a + b =~= a);
    } else {
        assert((a + b).drop_last() =~= a + b.drop_last());
        lemma_byte_len_add(a, b.drop_last());
    }
}

proof fn lemma_char_width(c: char)
    ensures
        encode_scalar(c as u32).len() == char_width(c),
{
    let u = c as u32;
    assert(u <= 0xd7ff || 0xe000 <= u <= 0x10ffff);
}

/// Counting the bytes of the characters counts the bytes of the encoding.
pub proof fn lemma_byte_len(s: Seq<char>)
    ensures
        byte_len(s) == encode_utf8(s).len(),
    decreases s.len(),
{
    if s.len() > 0 {
        let head = seq![s[0]];
        lemma_byte_len(s.drop_first());
        lemma_byte_len_add(head, s.drop_first());
        assert(head + s.drop_first() =~= s);
        assert(head.drop_last() =~= Seq::<char>::empty());
        assert(byte_len(Seq::<char>::empty()) == 0);
        assert(byte_len(head) == char_width(s[0]));
        lemma_char_width(s[0]);
        assert(encode_utf8(s) == encode_scalar(s[0] as u32) + encode_utf8(s.drop_first()));
    }
}

pub proof fn lemma_byte_len_bounds(s: Seq<char>)
    ensures
        s.len() <= byte_len(s) <= 4 * s.len(),
    decreases s.len(),
{
    if s.len() > 0 {
        lemma_byte_len_bounds(s.drop_last());
    }
}

/// How many bytes `s` takes, counted up to `max`.
pub fn bytes_up_to(s: &str, max: usize) -> (res: usize)
    ensures
        res == if byte_len(s@) < max {
            byte_len(s@)
        } else {
            max as int
        },
{
    let c = to_chars(s);
    let mut used: usize = 0;
    assert(s@.take(0) =~= Seq::<char>::empty());
    for i in 0..c.len()
        invariant
            c@ == s@,
            used == byte_len(s@.take(i as int)),
            used <= max,
    {
        assert(s@.take(i + 1).drop_last() =~= s@.take(i as int));
        let w: usize = width(c[i]);
        if w > max - used {
            proof {
                lemma_fitting_unique(s@, max as int, i as int);
            }
            return max;
        }
        used = used + w;
    }
    assert(s@.take(s@.len() as int) =~= s@);
    used
}

/// How many characters of `s` fit in `max` bytes.
pub open spec fn fitting(s: Seq<char>, max: int) -> int
    decreases s.len(),
{
    if byte_len(s) <= max || s.len() == 0 {
        s.len() as int
    } else {
        fitting(s.drop_last(), max)
    }
}

/// `s` itself when it takes at most `max` bytes; otherwise the longest prefix that
/// does, followed by a truncation marker on a line of its own.
pub open spec fn capped(s: Seq<char>, max: int) -> Seq<char> {
    if byte_len(s) <= max {
        s
    } else {
        s.take(fitting(s, max)) + "\n[... truncated ...]"@
    }
}

/// A cut keeps as much as it can: the prefix that is kept fits, and one more character would
/// not.
pub proof fn law_cut_keeps_longest_prefix(s: Seq<char>, max: int)
    requires
        0 <= max,
    ensures
        0 <= fitting(s, max) <= s.len(),
        byte_len(s.take(fitting(s, max))) <= max,
        fitting(s, max) < s.len() ==> byte_len(s.take(fitting(s, max) + 1)) > max,
    decreases s.len(),
{
    if byte_len(s) <= max || s.len() == 0 {
        assert(s.take(s.len() as int) =~= s);
    } else {
        law_cut_keeps_longest_prefix(s.drop_last(), max);
        let k = fitting(s.drop_last(), max);
        assert(s.drop_last().take(k) =~= s.take(k));
        if k + 1 <= s.len() - 1 {
            assert(s.drop_last().take(k + 1) =~= s.take(k + 1));
        } else {
            assert(s.take(k + 1) =~= s);
        }
    }
}

/// A position at which a prefix fits and one more character does not is the one
/// that [`fitting`] names.
pub proof fn lemma_fitting_unique(s: Seq<char>, max: int, k: int)
    requires
        0 <= k < s.len(),
        byte_len(s.take(k)) <= max,
        byte_len(s.take(k + 1)) > max,
    ensures
        fitting(s, max) == k,
        byte_len(s) > max,
    decreases s.len(),
{
    assert(s =~= s.take(k + 1) + s.skip(k + 1));
    lemma_byte_len_add(s.take(k + 1), s.skip(k + 1));
    lemma_byte_len_bounds(s.skip(k + 1));
    if k == s.len() - 1 {
        assert(s.drop_last() =~= s.take(k));
        assert(fitting(s.drop_last(), max) == k);
    } else {
        assert(s.drop_last().take(k) =~= s.take(k));
        assert(s.drop_last().take(k + 1) =~= s.take(k + 1));
        lemma_fitting_unique(s.drop_last(), max, k);
    }
}

/// Truncates `s` to at most `max` bytes of text, never inside a character, and marks
/// the cut.
pub fn cap(s: String, max: usize) -> (res: String)
    ensures
        res@ == capped(s@, max as int),
{
    let c = to_chars(s.as_str());
    let mut used: usize = 0;
    assert(s@.take(0) =~= Seq::<char>::empty());
    for i in 0..c.len()
        invariant
            c@ == s@,
            used == byte_len(s@.take(i as int)),
            used <= max,
    {
        assert(s@.take(i + 1).drop_last() =~= s@.take(i as int));
        let w: usize = width(c[i]);
        if w > max - used {
            proof {
                lemma_fitting_unique(s@, max as int, i as int);
            }
            let mut out = slice_text(c.as_slice(), 0, i);
            assert(s@.take(i as int) =~= s@.subrange(0, i as int));
            out.append("\n[... truncated ...]");
            return out;
        }
        used = used + w;
    }
    assert(s@.take(s@.len() as int) =~= s@);
    s
}

// -- laws ------------------------------------------------------------------------------
/// A search finds the first place: the character stands there and nowhere before it. Without
/// one, the search ends at the end of the text.
pub proof fn law_find_is_first(s: Seq<char>, c: char)
    ensures
        0 <= find(s, c) <= s.len(),
        find(s, c) < s.len() ==> s[find(s, c)] == c,
        forall|k: int| 0 <= k < find(s, c) ==> s[k] != c,
        find(s, c) < s.len() <==> s.contains(c),
    decreases s.len(),
{
    if s.len() > 0 {
        let rest = s.drop_first();
        law_find_is_first(rest, c);
        let f = find(s, c);
        if s[0] != c {
            assert forall|k: int| 0 <= k < f implies s[k] != c by {
                if k > 0 {
                    assert(rest[k - 1] == s[k]);
                }
            }
            if f < s.len() {
                assert(rest[f - 1] == s[f]);
            }
        }
        if f == s.len() {
            assert forall|k: int| 0 <= k < s.len() implies s[k] != c by {}
        }
    }
}

/// A search from the end finds the last place: the character stands there and nowhere behind
/// it. Without one, the search ends before the text.
pub proof fn law_rfind_is_last(s: Seq<char>, c: char)
    ensures
        -1 <= rfind(s, c) < s.len(),
        rfind(s, c) >= 0 ==> s[rfind(s, c)] == c,
        forall|k: int| rfind(s, c) < k < s.len() ==> s[k] != c,
        rfind(s, c) >= 0 <==> s.contains(c),
    decreases s.len(),
{
    if s.len() > 0 {
        let front = s.drop_last();
        law_rfind_is_last(front, c);
        let r = rfind(s, c);
        assert forall|k: int| r < k < s.len() implies s[k] != c by {
            if k < front.len() {
                assert(front[k] == s[k]);
            }
        }
        if r >= 0 {
            assert(s.contains(s[r]));
        }
        if s.contains(c) {
            let k = choose|k: int| 0 <= k < s.len() && s[k] == c;
            assert(!(r < k));
        }
    }
}

/// A search for a text finds its first occurrence; without one, it ends behind the text.
pub proof fn law_find_text_is_first(s: Seq<char>, pat: Seq<char>)
    ensures
        0 <= find_text(s, pat) <= s.len() + 1,
        find_text(s, pat) <= s.len() ==> find_text(s, pat) + pat.len() <= s.len() && s.subrange(
            find_text(s, pat),
            find_text(s, pat) + pat.len(),
        ) == pat,
        forall|k: int|
            0 <= k < find_text(s, pat) && k + pat.len() <= s.len() ==> #[trigger] s.subrange(
                k,
                k + pat.len(),
            ) != pat,
    decreases s.len(),
{
    let f = find_text(s, pat);
    if s.len() > 0 && !occurs_at(s, pat, 0) {
        let rest = s.drop_first();
        law_find_text_is_first(rest, pat);
        if f <= s.len() {
            assert(rest.subrange(f - 1, f - 1 + pat.len()) =~= s.subrange(f, f + pat.len()));
        }
        assert forall|k: int| 0 <= k < f && k + pat.len() <= s.len() implies #[trigger] s.subrange(
            k,
            k + pat.len(),
        ) != pat by {
            if k > 0 {
                assert(rest.subrange(k - 1, k - 1 + pat.len()) =~= s.subrange(k, k + pat.len()));
            }
        }
    }
}

/// A text starts with a prefix exactly when it is the prefix followed by something, and ends
/// with a suffix exactly when it is something followed by the suffix.
pub proof fn law_affixes(s: Seq<char>, t: Seq<char>)
    ensures
        starts_with(t + s, t),
        starts_with(s, t) ==> s == t + s.skip(t.len() as int),
        ends_with(s + t, t),
        ends_with(s, t) ==> s == s.take(s.len() - t.len()) + t,
{
    assert((t + s).take(t.len() as int) =~= t);
    assert((s + t).skip(s.len() as int) =~= t);
    if starts_with(s, t) {
        assert(s =~= t + s.skip(t.len() as int));
    }
    if ends_with(s, t) {
        assert(s =~= s.take(s.len() - t.len()) + t);
    }
}

/// A text holds another exactly when that stands between two others.
pub proof fn law_holds_text(s: Seq<char>, t: Seq<char>, a: Seq<char>, b: Seq<char>)
    ensures
        has_text(a + t + b, t),
        has_text(s, t) ==> exists|i: int|
            0 <= i <= s.len() - t.len() && #[trigger] s.subrange(i, i + t.len()) == t,
{
    let whole = a + t + b;
    assert(whole.subrange(a.len() as int, a.len() + t.len() as int) =~= t);
    assert(occurs_at(whole, t, a.len() as int));
    if has_text(s, t) {
        let i = choose|i: int| #[trigger] occurs_at(s, t, i);
        assert(s.subrange(i, i + t.len()) == t);
    }
}

proof fn lemma_trim_start(s: Seq<char>) -> (i: int)
    ensures
        0 <= i <= s.len(),
        trim_start(s) == s.skip(i),
        forall|k: int| 0 <= k < i ==> is_white(#[trigger] s[k]),
        i < s.len() ==> !is_white(s[i]),
    decreases s.len(),
{
    if s.len() > 0 && is_white(s[0]) {
        let rest = s.drop_first();
        let i = lemma_trim_start(rest);
        assert(rest.skip(i) =~= s.skip(i + 1));
        assert forall|k: int| 0 <= k < i + 1 implies is_white(#[trigger] s[k]) by {
            if k > 0 {
                assert(rest[k - 1] == s[k]);
            }
        }
        if i + 1 < s.len() {
            assert(rest[i] == s[i + 1]);
        }
        i + 1
    } else {
        assert(s.skip(0) =~= s);
        0
    }
}

proof fn lemma_trim_end(s: Seq<char>) -> (j: int)
    ensures
        0 <= j <= s.len(),
        trim_end(s) == s.take(j),
        forall|k: int| j <= k < s.len() ==> is_white(#[trigger] s[k]),
        j > 0 ==> !is_white(s[j - 1]),
    decreases s.len(),
{
    if s.len() > 0 && is_white(s.last()) {
        let front = s.drop_last();
        let j = lemma_trim_end(front);
        assert(front.take(j) =~= s.take(j));
        assert forall|k: int| j <= k < s.len() implies is_white(#[trigger] s[k]) by {
            if k < front.len() {
                assert(front[k] == s[k]);
            }
        }
        if j > 0 {
            assert(front[j - 1] == s[j - 1]);
        }
        j
    } else {
        assert(s.take(s.len() as int) =~= s);
        s.len() as int
    }
}

/// Trimming takes white space away from both ends and nothing else: what is left starts and
/// ends with something that is not white.
pub proof fn law_trim_takes_white_ends(s: Seq<char>)
    ensures
        exists|i: int, j: int|
            #![trigger s.subrange(i, j)]
            0 <= i <= j <= s.len() && trim(s) == s.subrange(i, j) && (forall|k: int|
                0 <= k < i || j <= k < s.len() ==> is_white(#[trigger] s[k])),
        trim(s).len() > 0 ==> !is_white(trim(s)[0]) && !is_white(trim(s).last()),
{
    let i = lemma_trim_start(s);
    let t = s.skip(i);
    let j = lemma_trim_end(t);
    assert(t.take(j) =~= s.subrange(i, i + j));
    assert forall|k: int| 0 <= k < i || i + j <= k < s.len() implies is_white(
        #[trigger] s[k],
    ) by {
        if k >= i + j {
            assert(t[k - i] == s[k]);
        }
    }
    if j > 0 {
        assert(t[j - 1] == s[i + j - 1]);
        assert(trim(s)[0] == s[i]);
    }
}

/// Lower-casing changes the ASCII capitals, each to its small letter, and nothing else.
pub proof fn law_lower_changes_capitals_only(s: Seq<char>, i: int)
    requires
        0 <= i < s.len(),
    ensures
        lower(s).len() == s.len(),
        65 <= s[i] as u32 <= 90 ==> lower(s)[i] as u32 == s[i] as u32 + 32,
        !(65 <= s[i] as u32 <= 90) ==> lower(s)[i] == s[i],
{
}

/// Joining parts puts the separator between neighbours, and nothing before the first or behind
/// the last.
pub proof fn law_join_separates(a: Seq<Seq<char>>, b: Seq<Seq<char>>, sep: Seq<char>)
    ensures
        join(Seq::<Seq<char>>::empty(), sep) == Seq::<char>::empty(),
        a.len() == 1 ==> join(a, sep) == a[0],
        a.len() > 0 && b.len() > 0 ==> join(a + b, sep) == join(a, sep) + sep + join(b, sep),
    decreases b.len(),
{
    if a.len() > 0 && b.len() > 0 {
        assert((a + b).drop_last() =~= a + b.drop_last());
        assert((a + b).last() == b.last());
        if b.len() == 1 {
            assert(a + b.drop_last() =~= a);
        } else {
            law_join_separates(a, b.drop_last(), sep);
            assert(join(a, sep) + sep + join(b.drop_last(), sep) + sep + b.last() =~= join(a, sep)
                + sep + (join(b.drop_last(), sep) + sep + b.last()));
        }
    }
}

/// Splitting is undone by joining, and no piece holds the separator: so every separator of the
/// text splits, and nothing else does.
pub proof fn law_split_joins_back(s: Seq<char>, sep: char)
    ensures
        split(s, sep).len() > 0,
        join(split(s, sep), seq![sep]) == s,
        forall|k: int|
            0 <= k < split(s, sep).len() ==> !(#[trigger] split(s, sep)[k]).contains(sep),
    decreases s.len(),
{
    let all = split(s, sep);
    if s.len() == 0 {
        assert(!Seq::<char>::empty().contains(sep));
        assert(join(all, seq![sep]) =~= s);
    } else {
        let front = split(s.drop_last(), sep);
        law_split_joins_back(s.drop_last(), sep);
        assert(s.drop_last().push(s.last()) =~= s);
        if s.last() == sep {
            assert(all.drop_last() =~= front);
            assert(join(all, seq![sep]) =~= s);
            assert(!Seq::<char>::empty().contains(sep));
            assert forall|k: int| 0 <= k < all.len() implies !(#[trigger] all[k]).contains(sep) by {
                if k < front.len() {
                    assert(all[k] == front[k]);
                }
            }
        } else {
            let tail = front.last().push(s.last());
            assert(all.drop_last() =~= front.drop_last());
            assert(all.last() == tail);
            if front.len() == 1 {
                assert(join(all, seq![sep]) =~= s);
            } else {
                assert(join(all, seq![sep]) =~= join(front.drop_last(), seq![sep]) + seq![sep]
                    + tail);
                assert(join(all, seq![sep]) =~= s);
            }
            assert forall|k: int| 0 <= k < all.len() implies !(#[trigger] all[k]).contains(sep) by {
                if k < front.len() - 1 {
                    assert(all[k] == front[k]);
                } else {
                    let last = front[front.len() - 1];
                    assert(!last.contains(sep));
                    if tail.contains(sep) {
                        let m = choose|m: int| 0 <= m < tail.len() && tail[m] == sep;
                        assert(last[m] == sep);
                    }
                }
            }
        }
    }
}

/// A separator parts a text: its pieces are those of what stands before it and those of what
/// stands behind it.
pub proof fn law_separator_parts_text(a: Seq<char>, sep: char, b: Seq<char>)
    ensures
        split(a.push(sep) + b, sep) == split(a, sep) + split(b, sep),
    decreases b.len(),
{
    let whole = a.push(sep) + b;
    if b.len() == 0 {
        assert(whole =~= a.push(sep));
        assert(whole.drop_last() =~= a);
        assert(split(whole, sep) =~= split(a, sep) + split(b, sep));
    } else {
        law_separator_parts_text(a, sep, b.drop_last());
        law_split_joins_back(b.drop_last(), sep);
        assert(whole.drop_last() =~= a.push(sep) + b.drop_last());
        let before = split(b.drop_last(), sep);
        let front = split(a, sep) + before;
        assert(front.last() == before.last());
        assert(front.drop_last() =~= split(a, sep) + before.drop_last());
        assert(split(whole, sep) =~= split(a, sep) + split(b, sep));
    }
}

/// The pieces that are not blank: each piece counts for itself, in order; it is trimmed, and
/// left out where nothing remains.
pub proof fn law_non_blank_pieces(a: Seq<Seq<char>>, b: Seq<Seq<char>>, p: Seq<char>)
    ensures
        non_blank(a + b) == non_blank(a) + non_blank(b),
        trim(p).len() > 0 ==> non_blank(seq![p]) == seq![trim(p)],
        trim(p).len() == 0 ==> non_blank(seq![p]) == Seq::<Seq<char>>::empty(),
        non_blank(Seq::<Seq<char>>::empty()) == Seq::<Seq<char>>::empty(),
    decreases b.len(),
{
    assert(seq![p].drop_last() =~= Seq::<Seq<char>>::empty());
    assert(non_blank(seq![p].drop_last()) =~= Seq::<Seq<char>>::empty());
    if b.len() == 0 {
        assert(a + b =~= a);
        assert(non_blank(a) + non_blank(b) =~= non_blank(a));
    } else {
        assert((a + b).drop_last() =~= a + b.drop_last());
        law_non_blank_pieces(a, b.drop_last(), p);
        assert(non_blank(a + b) =~= non_blank(a) + non_blank(b));
    }
}

/// Writing parts one after the other: a list and a list behind it are the text of the first and
/// the text of the second, and a single part is its own text.
pub proof fn law_concat_appends(a: Seq<Seq<char>>, b: Seq<Seq<char>>, p: Seq<char>)
    ensures
        concat(a + b) == concat(a) + concat(b),
        concat(seq![p]) == p,
    decreases b.len(),
{
    assert(seq![p].drop_last() =~= Seq::<Seq<char>>::empty());
    assert(concat(seq![p].drop_last()) =~= Seq::<char>::empty());
    assert(concat(seq![p]) =~= p);
    if b.len() == 0 {
        assert(a + b =~= a);
        assert(concat(a) + concat(b) =~= concat(a));
    } else {
        assert((a + b).drop_last() =~= a + b.drop_last());
        law_concat_appends(a, b.drop_last(), p);
        assert(concat(a + b) =~= concat(a) + concat(b));
    }
}

/// A run of digits holds nothing but `0` to `9`; letters and digits hold nothing but those and
/// the ASCII letters.
pub proof fn law_digits_are_ascii(s: Seq<char>, c: char)
    ensures
        all_digits(s) <==> forall|i: int| 0 <= i < s.len() ==> '0' <= #[trigger] s[i] <= '9',
        is_ascii_alnum(c) <==> '0' <= c <= '9' || 'A' <= c <= 'Z' || 'a' <= c <= 'z',
{
    if forall|i: int| 0 <= i < s.len() ==> '0' <= #[trigger] s[i] <= '9' {
        assert forall|i: int| 0 <= i < s.len() implies is_digit(#[trigger] s[i]) by {}
    }
    if all_digits(s) {
        assert forall|i: int| 0 <= i < s.len() implies '0' <= #[trigger] s[i] <= '9' by {
            assert(is_digit(s[i]));
        }
    }
}

/// A digit behind a number makes ten times the number and the digit.
pub proof fn law_digits_are_decimal(s: Seq<char>, c: char)
    ensures
        digits_value(Seq::<char>::empty()) == 0,
        digits_value(s.push(c)) == 10 * digits_value(s) + (c as int - '0' as int),
{
    assert(s.push(c).drop_last() =~= s);
}

/// A number is read back from its decimal text, which holds digits only and no needless zero.
pub proof fn law_decimal_is_read_back(n: int)
    requires
        0 <= n,
    ensures
        decimal(n).len() > 0,
        all_digits(decimal(n)),
        digits_value(decimal(n)) == n,
        n > 0 ==> decimal(n)[0] != '0',
    decreases n,
{
    if n < 10 {
        let d = decimal(n);
        assert(d.drop_last() =~= Seq::<char>::empty());
        assert(digits_value(d.drop_last()) == 0);
        assert(d.last() as u32 == 48 + n);
    } else {
        law_decimal_is_read_back(n / 10);
        let d = decimal(n);
        let front = decimal(n / 10);
        assert(d.drop_last() =~= front);
        assert(d.last() as u32 == 48 + n % 10);
        assert(d[0] == front[0]);
    }
}

/// A negative number is its amount behind a minus sign; no other number has one.
pub proof fn law_signed_decimal_shows_the_sign(n: int)
    ensures
        n < 0 ==> signed_decimal(n)[0] == '-' && all_digits(signed_decimal(n).drop_first())
            && digits_value(signed_decimal(n).drop_first()) == -n,
        n >= 0 ==> all_digits(signed_decimal(n)) && digits_value(signed_decimal(n)) == n,
{
    if n < 0 {
        law_decimal_is_read_back(-n);
        assert(signed_decimal(n).drop_first() =~= decimal(-n));
    } else {
        law_decimal_is_read_back(n);
    }
}

/// Which texts are numbers: digits, behind one plus sign at most, whose value is no larger than
/// the limit. The value is that of the digits.
pub proof fn law_numbers_are_digits(s: Seq<char>, max: int)
    ensures
        s.len() > 0 && all_digits(s) ==> parse_number(s, max) == (if digits_value(s) <= max {
            Some(digits_value(s))
        } else {
            None
        }),
        parse_number(s, max) is Some && s[0] != '+' ==> s.len() > 0 && all_digits(s),
        parse_number(s, max) is Some ==> parse_number(s, max).unwrap() <= max,
        s.len() > 0 && s[0] != '+' ==> parse_number(seq!['+'] + s, max) == parse_number(s, max),
        parse_number(Seq::<char>::empty(), max) is None,
        parse_number(seq!['+'], max) is None,
        parse_number(seq!['+', '+'] + s, max) is None,
{
    if s.len() > 0 {
        assert(s.contains(s[0]));
        if all_digits(s) {
            assert(is_digit(s[0]));
        }
    }
    assert((seq!['+'] + s).drop_first() =~= s);
    let two = seq!['+', '+'] + s;
    assert(!is_digit(two.drop_first()[0]));
}

/// Every number up to the limit is read back from its decimal text, with a plus sign or
/// without.
pub proof fn law_numbers_round_trip(n: int, max: int)
    requires
        0 <= n <= max,
    ensures
        parse_number(decimal(n), max) == Some(n),
        parse_number(seq!['+'] + decimal(n), max) == Some(n),
{
    law_decimal_is_read_back(n);
    law_numbers_are_digits(decimal(n), max);
    assert(is_digit(decimal(n)[0]));
}

/// A text that fits its byte cap is kept as it is. Any other is cut to a prefix of itself that
/// fits, to which no character could be added, and marked on a line of its own.
pub proof fn law_capped_text(s: Seq<char>, max: int)
    requires
        0 <= max,
    ensures
        encode_utf8(s).len() <= max ==> capped(s, max) == s,
        encode_utf8(s).len() > max ==> exists|k: int|
            #![trigger s.take(k)]
            0 <= k < s.len() && encode_utf8(s.take(k)).len() <= max && encode_utf8(
                s.take(k + 1),
            ).len() > max && capped(s, max) == s.take(k) + "\n[... truncated ...]"@,
{
    lemma_byte_len(s);
    if byte_len(s) > max {
        law_cut_keeps_longest_prefix(s, max);
        let k = fitting(s, max);
        assert(s.take(s.len() as int) =~= s);
        lemma_byte_len(s.take(k));
        lemma_byte_len(s.take(k + 1));
        assert(capped(s, max) == s.take(k) + "\n[... truncated ...]"@);
    }
}

/// The text of an optional string is that of the string, and the texts of a list are those of
/// its strings, in order.
pub proof fn law_texts_are_views(s: String, t: &str, v: Seq<String>, i: int)
    ensures
        opt_text(Some(s)) == Some(s@),
        opt_text(None) is None,
        opt_str(Some(t)) == Some(t@),
        opt_str(None) is None,
        texts(v).len() == v.len(),
        0 <= i < v.len() ==> texts(v)[i] == v[i]@,
{
}

/// Digits without a needless zero are the decimal text of their value: no two such texts write
/// one number.
pub proof fn law_digits_are_their_decimal(s: Seq<char>)
    requires
        s.len() > 0,
        all_digits(s),
        s.len() == 1 || s[0] != '0',
    ensures
        digits_value(s) >= 0,
        s[0] != '0' ==> digits_value(s) > 0,
        decimal(digits_value(s)) == s,
    decreases s.len(),
{
    let front = s.drop_last();
    let d = s.last() as u32 - 48;
    assert(is_digit(s[s.len() - 1]));
    assert(digit_char(d) == s.last());
    if s.len() == 1 {
        assert(front =~= Seq::<char>::empty());
        assert(digits_value(front) == 0);
        assert(decimal(d) =~= s);
    } else {
        assert forall|i: int| 0 <= i < front.len() implies is_digit(#[trigger] front[i]) by {
            assert(is_digit(s[i]));
        }
        assert(front[0] == s[0]);
        law_digits_are_their_decimal(front);
        let n = digits_value(s);
        assert(n == digits_value(front) * 10 + d);
        assert(n / 10 == digits_value(front));
        assert(n % 10 == d);
        assert(decimal(n) =~= s);
    }
}

} // verus!
