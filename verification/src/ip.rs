//! Textual IP addresses: dotted IPv4, IPv6 with `::` and an embedded IPv4 tail, and socket
//! addresses.
use crate::text::{
    all_digits, decimal, digit_char, digits_value, find_str, find_text, is_digit,
    law_digits_are_their_decimal, law_find_is_first, law_join_separates, law_rfind_is_last,
    law_split_joins_back, occurs_at, parse_unsigned, rfind, rfind_char, slice_text, split,
    split_text, texts, to_chars,
};
use vstd::prelude::*;

verus! {

// -- IPv4 ------------------------------------------------------------------------------
/// One to three digits without a leading zero, at most 255.
pub open spec fn octet(s: Seq<char>) -> Option<int> {
    if 1 <= s.len() <= 3 && all_digits(s) && (s.len() == 1 || s[0] != '0') && digits_value(s) <= 255 {
        Some(digits_value(s))
    } else {
        None
    }
}

/// Four octets.
pub open spec fn ipv4(s: Seq<char>) -> Option<(int, int, int, int)> {
    let p = split(s, '.');
    if p.len() == 4 {
        match (octet(p[0]), octet(p[1]), octet(p[2]), octet(p[3])) {
            (Some(a), Some(b), Some(c), Some(d)) => Some((a, b, c, d)),
            _ => None,
        }
    } else {
        None
    }
}

fn parse_octet(s: &str) -> (res: Option<u8>)
    ensures
        match res {
            Some(n) => octet(s@) == Some(n as int),
            None => octet(s@) is None,
        },
{
    let c = to_chars(s);
    if c.len() == 0 || c.len() > 3 {
        return None;
    }
    if c[0] == '+' || (c.len() > 1 && c[0] == '0') {
        assert(!is_digit('+'));
        return None;
    }
    match parse_unsigned(c.as_slice(), 255) {
        Some(n) => Some(n as u8),
        None => None,
    }
}

/// The octets of a dotted IPv4 address.
pub fn parse_ipv4(s: &str) -> (res: Option<(u8, u8, u8, u8)>)
    ensures
        match res {
            Some(v) => ipv4(s@) == Some((v.0 as int, v.1 as int, v.2 as int, v.3 as int)),
            None => ipv4(s@) is None,
        },
{
    let parts = split_text(to_chars(s).as_slice(), '.');
    assert(split(s@, '.').len() == parts@.len());
    if parts.len() != 4 {
        return None;
    }
    assert(split(s@, '.')[0] == parts@[0]@);
    assert(split(s@, '.')[1] == parts@[1]@);
    assert(split(s@, '.')[2] == parts@[2]@);
    assert(split(s@, '.')[3] == parts@[3]@);
    match (
        parse_octet(parts[0].as_str()),
        parse_octet(parts[1].as_str()),
        parse_octet(parts[2].as_str()),
        parse_octet(parts[3].as_str()),
    ) {
        (Some(a), Some(b), Some(c), Some(d)) => Some((a, b, c, d)),
        _ => None,
    }
}

// -- IPv6 ------------------------------------------------------------------------------
/// The value of a hexadecimal digit.
pub open spec fn hex_digit(c: char) -> Option<int> {
    let u = c as u32;
    if '0' <= c <= '9' {
        Some(u - 48)
    } else if 'a' <= c <= 'f' {
        Some(u - 87)
    } else if 'A' <= c <= 'F' {
        Some(u - 55)
    } else {
        None
    }
}

/// The number that hexadecimal digits write.
pub open spec fn hex_value(s: Seq<char>) -> Option<int>
    decreases s.len(),
{
    if s.len() == 0 {
        Some(0)
    } else {
        match (hex_value(s.drop_last()), hex_digit(s.last())) {
            (Some(v), Some(d)) => Some(v * 16 + d),
            _ => None,
        }
    }
}

/// One to four hexadecimal digits.
pub open spec fn group(s: Seq<char>) -> Option<int> {
    if 1 <= s.len() <= 4 {
        hex_value(s)
    } else {
        None
    }
}

/// A list of groups.
pub open spec fn groups(parts: Seq<Seq<char>>) -> Option<Seq<int>>
    decreases parts.len(),
{
    if parts.len() == 0 {
        Some(Seq::empty())
    } else {
        match (groups(parts.drop_last()), group(parts.last())) {
            (Some(gs), Some(g)) => Some(gs.push(g)),
            _ => None,
        }
    }
}

/// The groups on one side of a `::`, or of a whole address: none for the empty text; the last
/// part may be an IPv4 address where `v4` says so, and then counts as two groups.
pub open spec fn side(s: Seq<char>, v4: bool) -> Option<Seq<int>> {
    if s.len() == 0 {
        Some(Seq::empty())
    } else {
        let parts = split(s, ':');
        match ipv4(parts.last()) {
            Some(a) => if v4 {
                match groups(parts.drop_last()) {
                    Some(gs) => Some(gs.push(a.0 * 256 + a.1).push(a.2 * 256 + a.3)),
                    None => None,
                }
            } else {
                groups(parts)
            },
            None => groups(parts),
        }
    }
}

/// Eight groups, or fewer around one `::`.
pub open spec fn ipv6(s: Seq<char>) -> Option<Seq<int>> {
    let at = find_text(s, "::"@);
    if at > s.len() {
        match side(s, true) {
            Some(gs) => if gs.len() == 8 {
                Some(gs)
            } else {
                None
            },
            None => None,
        }
    } else {
        match (side(s.take(at), false), side(s.skip(at + 2), true)) {
            (Some(h), Some(t)) => if h.len() + t.len() <= 7 {
                Some(h + Seq::new((8 - h.len() - t.len()) as nat, |i: int| 0int) + t)
            } else {
                None
            },
            _ => None,
        }
    }
}

/// The numbers of a list of groups.
pub open spec fn ints(v: Seq<u16>) -> Seq<int> {
    v.map_values(|g: u16| g as int)
}

fn parse_hex_digit(c: char) -> (res: Option<u16>)
    ensures
        match res {
            Some(n) => hex_digit(c) == Some(n as int) && n < 16,
            None => hex_digit(c) is None,
        },
{
    let u: u32 = c as u32;
    if '0' <= c && c <= '9' {
        Some((u - 48) as u16)
    } else if 'a' <= c && c <= 'f' {
        Some((u - 87) as u16)
    } else if 'A' <= c && c <= 'F' {
        Some((u - 55) as u16)
    } else {
        None
    }
}

proof fn lemma_hex_value_none(s: Seq<char>, i: int)
    requires
        0 <= i < s.len(),
        hex_digit(s[i]) is None,
    ensures
        hex_value(s) is None,
    decreases s.len(),
{
    if i < s.len() - 1 {
        lemma_hex_value_none(s.drop_last(), i);
    }
}

fn parse_group(s: &str) -> (res: Option<u16>)
    ensures
        match res {
            Some(n) => group(s@) == Some(n as int),
            None => group(s@) is None,
        },
{
    let c = to_chars(s);
    if c.len() == 0 || c.len() > 4 {
        return None;
    }
    let mut v: u32 = 0;
    let mut limit: u32 = 1;
    assert(s@.take(0) =~= Seq::<char>::empty());
    for i in 0..c.len()
        invariant
            c@ == s@,
            c@.len() <= 4,
            hex_value(s@.take(i as int)) == Some(v as int),
            v < limit,
            limit == if i == 0 {
                1
            } else if i == 1 {
                16
            } else if i == 2 {
                256
            } else if i == 3 {
                4096
            } else {
                65536int
            },
    {
        assert(s@.take(i + 1).drop_last() =~= s@.take(i as int));
        assert(s@.take(i + 1).last() == c@[i as int]);
        match parse_hex_digit(c[i]) {
            Some(d) => {
                v = v * 16 + d as u32;
                limit = limit * 16;
            },
            None => {
                proof {
                    lemma_hex_value_none(s@, i as int);
                }
                return None;
            },
        }
    }
    assert(s@.take(s@.len() as int) =~= s@);
    Some(v as u16)
}

proof fn lemma_groups_none(parts: Seq<Seq<char>>, i: int)
    requires
        0 <= i < parts.len(),
        group(parts[i]) is None,
    ensures
        groups(parts) is None,
    decreases parts.len(),
{
    if i < parts.len() - 1 {
        lemma_groups_none(parts.drop_last(), i);
    }
}

proof fn lemma_ints_push(v: Seq<u16>, g: u16)
    ensures
        ints(v.push(g)) == ints(v).push(g as int),
{
    assert(ints(v.push(g)) =~= ints(v).push(g as int));
}

fn parse_groups(parts: &Vec<String>, n: usize) -> (res: Option<Vec<u16>>)
    requires
        n <= parts@.len(),
    ensures
        match res {
            Some(v) => groups(texts(parts@).take(n as int)) == Some(ints(v@)),
            None => groups(texts(parts@).take(n as int)) is None,
        },
{
    let ghost all = texts(parts@).take(n as int);
    let mut out: Vec<u16> = Vec::new();
    assert(all.take(0) =~= Seq::<Seq<char>>::empty());
    assert(ints(out@) =~= Seq::<int>::empty());
    for i in 0..n
        invariant
            n <= parts@.len(),
            all == texts(parts@).take(n as int),
            groups(all.take(i as int)) == Some(ints(out@)),
    {
        assert(all.take(i + 1).drop_last() =~= all.take(i as int));
        assert(all.take(i + 1).last() == parts@[i as int]@);
        match parse_group(parts[i].as_str()) {
            Some(g) => {
                proof {
                    lemma_ints_push(out@, g);
                }
                out.push(g);
            },
            None => {
                proof {
                    assert(all[i as int] == parts@[i as int]@);
                    lemma_groups_none(all, i as int);
                }
                return None;
            },
        }
    }
    assert(all.take(n as int) =~= all);
    Some(out)
}

fn parse_side(s: &[char], v4: bool) -> (res: Option<Vec<u16>>)
    ensures
        match res {
            Some(v) => side(s@, v4) == Some(ints(v@)),
            None => side(s@, v4) is None,
        },
{
    if s.len() == 0 {
        let out: Vec<u16> = Vec::new();
        assert(ints(out@) =~= Seq::<int>::empty());
        return Some(out);
    }
    let parts = split_text(s, ':');
    let ghost all = texts(parts@);
    let last: usize = parts.len() - 1;
    assert(all.last() == parts@[last as int]@);
    let tail = parse_ipv4(parts[last].as_str());
    match tail {
        Some(a) => {
            if v4 {
                assert(all.take(last as int) =~= all.drop_last());
                match parse_groups(&parts, last) {
                    Some(mut gs) => {
                        let hi: u16 = a.0 as u16 * 256 + a.1 as u16;
                        let lo: u16 = a.2 as u16 * 256 + a.3 as u16;
                        proof {
                            lemma_ints_push(gs@, hi);
                            lemma_ints_push(gs@.push(hi), lo);
                        }
                        gs.push(hi);
                        gs.push(lo);
                        return Some(gs);
                    },
                    None => {
                        return None;
                    },
                }
            }
        },
        None => {},
    }
    assert(all.take(parts@.len() as int) =~= all);
    parse_groups(&parts, parts.len())
}

/// The eight groups of an IPv6 address.
pub fn parse_ipv6(s: &str) -> (res: Option<Vec<u16>>)
    ensures
        match res {
            Some(v) => ipv6(s@) == Some(ints(v@)) && v@.len() == 8,
            None => ipv6(s@) is None,
        },
{
    proof {
        reveal_strlit("::");
    }
    let c = to_chars(s);
    match find_str(c.as_slice(), "::") {
        None => match parse_side(c.as_slice(), true) {
            Some(gs) => if gs.len() == 8 {
                Some(gs)
            } else {
                None
            },
            None => None,
        },
        Some(at) => {
            let total: usize = c.len();
            assert("::"@.len() == 2);
            assert(occurs_at(c@, "::"@, at as int));
            assert(at + 2 <= total);
            let head = to_chars(slice_text(c.as_slice(), 0, at).as_str());
            let tail = to_chars(slice_text(c.as_slice(), at + 2, c.len()).as_str());
            assert(head@ =~= s@.take(at as int));
            assert(tail@ =~= s@.skip(at + 2));
            match (parse_side(head.as_slice(), false), parse_side(tail.as_slice(), true)) {
                (Some(h), Some(t)) => {
                    if h.len() > 7 || t.len() > 7 - h.len() {
                        return None;
                    }
                    let zeros: usize = 8 - h.len() - t.len();
                    let mut out: Vec<u16> = h;
                    let ghost start = out@;
                    for i in 0..zeros
                        invariant
                            ints(out@) == ints(start) + Seq::new(i as nat, |k: int| 0int),
                            out@.len() == start.len() + i,
                    {
                        proof {
                            lemma_ints_push(out@, 0);
                        }
                        out.push(0);
                        assert(ints(out@) =~= ints(start) + Seq::new((i + 1) as nat, |k: int| 0int));
                    }
                    let ghost mid = ints(out@);
                    for i in 0..t.len()
                        invariant
                            ints(out@) == mid + ints(t@).take(i as int),
                            out@.len() == mid.len() + i,
                    {
                        proof {
                            lemma_ints_push(out@, t@[i as int]);
                        }
                        out.push(t[i]);
                        assert(ints(out@) =~= mid + ints(t@).take(i + 1));
                    }
                    assert(ints(t@).take(t@.len() as int) =~= ints(t@));
                    Some(out)
                },
                _ => None,
            }
        },
    }
}

// -- socket addresses ------------------------------------------------------------------------------
/// An address family with its address.
pub enum Ip {
    V4(u8, u8, u8, u8),
    V6(Vec<u16>),
}

/// The model of an address.
pub enum IpView {
    V4(int, int, int, int),
    V6(Seq<int>),
}

impl Ip {
    /// An IPv6 address has eight groups.
    pub open spec fn wf(self) -> bool {
        self matches Ip::V6(g) ==> g@.len() == 8
    }

    pub open spec fn view(self) -> IpView {
        match self {
            Ip::V4(a, b, c, d) => IpView::V4(a as int, b as int, c as int, d as int),
            Ip::V6(g) => IpView::V6(ints(g@)),
        }
    }
}

/// The model of an optional address.
pub open spec fn opt_ip(o: Option<Ip>) -> Option<IpView> {
    match o {
        Some(i) => Some(i@),
        None => None,
    }
}

/// An IPv4 or IPv6 address.
pub open spec fn ip(s: Seq<char>) -> Option<IpView> {
    match ipv4(s) {
        Some(a) => Some(IpView::V4(a.0, a.1, a.2, a.3)),
        None => match ipv6(s) {
            Some(g) => Some(IpView::V6(g)),
            None => None,
        },
    }
}

/// The IPv4 or IPv6 address that a text writes.
pub fn parse_ip(s: &str) -> (res: Option<Ip>)
    ensures
        opt_ip(res) == ip(s@),
        res matches Some(a) ==> a.wf(),
{
    match parse_ipv4(s) {
        Some(a) => Some(Ip::V4(a.0, a.1, a.2, a.3)),
        None => match parse_ipv6(s) {
            Some(g) => Some(Ip::V6(g)),
            None => None,
        },
    }
}

/// A loopback address: 127.0.0.0/8 or `::1`.
pub open spec fn is_loopback(a: IpView) -> bool {
    match a {
        IpView::V4(a, _, _, _) => a == 127,
        IpView::V6(g) => g == seq![0int, 0, 0, 0, 0, 0, 0, 1],
    }
}

/// The decimal digits of a port or scope.
pub open spec fn plain_number(s: Seq<char>, max: int) -> bool {
    s.len() > 0 && all_digits(s) && digits_value(s) <= max
}

/// The address of a socket address: `a.b.c.d:port`, `[v6]:port` or `[v6%scope]:port`.
pub open spec fn socket_ip(s: Seq<char>) -> Option<IpView> {
    let at = rfind(s, ':');
    if at < 0 || !plain_number(s.skip(at + 1), 65535) {
        None
    } else {
        let host = s.take(at);
        match ipv4(host) {
            Some(a) => Some(IpView::V4(a.0, a.1, a.2, a.3)),
            None => if host.len() >= 2 && host[0] == '[' && host.last() == ']' {
                let inner = host.subrange(1, host.len() - 1);
                let pct = crate::text::find(inner, '%');
                if pct < inner.len() && !plain_number(inner.skip(pct + 1), u32::MAX as int) {
                    None
                } else {
                    match ipv6(inner.take(pct)) {
                        Some(g) => Some(IpView::V6(g)),
                        None => None,
                    }
                }
            } else {
                None
            },
        }
    }
}

fn is_plain_number(s: &[char], max: u64) -> (res: bool)
    ensures
        res == plain_number(s@, max as int),
{
    if s.len() > 0 && s[0] == '+' {
        assert(!is_digit('+'));
        return false;
    }
    parse_unsigned(s, max).is_some()
}

/// The address of a socket address.
pub fn parse_socket_ip(s: &str) -> (res: Option<Ip>)
    ensures
        opt_ip(res) == socket_ip(s@),
        res matches Some(a) ==> a.wf(),
{
    let c = to_chars(s);
    let at: usize = match rfind_char(c.as_slice(), ':') {
        Some(i) => i,
        None => {
            return None;
        },
    };
    let port = to_chars(slice_text(c.as_slice(), at + 1, c.len()).as_str());
    assert(port@ =~= s@.skip(at + 1));
    if !is_plain_number(port.as_slice(), 65535) {
        return None;
    }
    let host_text = slice_text(c.as_slice(), 0, at);
    assert(host_text@ =~= s@.take(at as int));
    if let Some(a) = parse_ipv4(host_text.as_str()) {
        return Some(Ip::V4(a.0, a.1, a.2, a.3));
    }
    let host = to_chars(host_text.as_str());
    if host.len() < 2 || host[0] != '[' || host[host.len() - 1] != ']' {
        return None;
    }
    let inner = to_chars(slice_text(host.as_slice(), 1, host.len() - 1).as_str());
    assert(inner@ =~= host@.subrange(1, host@.len() - 1));
    let pct: usize = crate::text::find_char(inner.as_slice(), '%');
    if pct < inner.len() {
        let scope = to_chars(slice_text(inner.as_slice(), pct + 1, inner.len()).as_str());
        assert(scope@ =~= inner@.skip(pct + 1));
        if !is_plain_number(scope.as_slice(), 0xffff_ffff) {
            return None;
        }
    }
    let addr = slice_text(inner.as_slice(), 0, pct);
    assert(addr@ =~= inner@.take(pct as int));
    match parse_ipv6(addr.as_str()) {
        Some(g) => Some(Ip::V6(g)),
        None => None,
    }
}

/// Whether an address is a loopback one.
pub fn loopback(a: &Ip) -> (res: bool)
    requires
        a.wf(),
    ensures
        res == is_loopback(a@),
{
    match a {
        Ip::V4(a, _, _, _) => *a == 127,
        Ip::V6(g) => {
            let ok = g[0] == 0 && g[1] == 0 && g[2] == 0 && g[3] == 0 && g[4] == 0 && g[5] == 0
                && g[6] == 0 && g[7] == 1;
            proof {
                let want = seq![0int, 0, 0, 0, 0, 0, 0, 1];
                if ok {
                    assert(ints(g@) =~= want);
                } else {
                    assert(ints(g@)[0] == g@[0] && ints(g@)[1] == g@[1] && ints(g@)[2] == g@[2]
                        && ints(g@)[3] == g@[3] && ints(g@)[4] == g@[4] && ints(g@)[5] == g@[5]
                        && ints(g@)[6] == g@[6] && ints(g@)[7] == g@[7]);
                }
            }
            ok
        },
    }
}

// -- laws ------------------------------------------------------------------------------
/// The dotted text of four octets.
pub open spec fn dotted(a: int, b: int, c: int, d: int) -> Seq<char> {
    ((decimal(a).push('.') + decimal(b)).push('.') + decimal(c)).push('.') + decimal(d)
}

proof fn lemma_octet(n: int)
    requires
        0 <= n <= 255,
    ensures
        octet(decimal(n)) == Some(n),
        !decimal(n).contains('.'),
{
    reveal_with_fuel(decimal, 4);
    reveal_with_fuel(digits_value, 4);
    let s = decimal(n);
    if n < 10 {
        assert(s =~= seq![digit_char(n)]);
        assert(s.drop_last() =~= Seq::<char>::empty());
    } else if n < 100 {
        let hi = seq![digit_char(n / 10)];
        assert(s =~= hi.push(digit_char(n % 10)));
        assert(s.drop_last() =~= hi);
        assert(hi.drop_last() =~= Seq::<char>::empty());
        assert(s[0] == digit_char(n / 10));
        assert(s[1] == digit_char(n % 10));
    } else {
        let h = n / 100;
        let t = (n / 10) % 10;
        assert(n / 10 / 10 == h);
        let one = seq![digit_char(h)];
        let two = one.push(digit_char(t));
        assert(decimal(n / 10) =~= two);
        assert(s =~= two.push(digit_char(n % 10)));
        assert(s.drop_last() =~= two);
        assert(two.drop_last() =~= one);
        assert(one.drop_last() =~= Seq::<char>::empty());
        assert(s[0] == digit_char(h));
        assert(s[1] == digit_char(t));
        assert(s[2] == digit_char(n % 10));
        assert(n == h * 100 + t * 10 + n % 10);
    }
    assert(all_digits(s));
    if s.contains('.') {
        let i = choose|i: int| 0 <= i < s.len() && s[i] == '.';
        assert(is_digit(s[i]));
    }
}

/// Every IPv4 address is read back from its dotted text.
pub proof fn law_ipv4_text_round_trip(a: int, b: int, c: int, d: int)
    requires
        0 <= a <= 255,
        0 <= b <= 255,
        0 <= c <= 255,
        0 <= d <= 255,
    ensures
        ipv4(dotted(a, b, c, d)) == Some((a, b, c, d)),
        ip(dotted(a, b, c, d)) == Some(IpView::V4(a, b, c, d)),
{
    lemma_octet(a);
    lemma_octet(b);
    lemma_octet(c);
    lemma_octet(d);
    let one = decimal(a);
    let two = one.push('.') + decimal(b);
    let three = two.push('.') + decimal(c);
    crate::text::lemma_split_single(one, '.');
    crate::text::lemma_split_append(one, '.', decimal(b));
    crate::text::lemma_split_append(two, '.', decimal(c));
    crate::text::lemma_split_append(three, '.', decimal(d));
}

/// An octet is the decimal text of a number up to 255, and nothing else is.
pub proof fn law_octets_are_decimal(s: Seq<char>, n: int)
    ensures
        octet(s) == Some(n) <==> 0 <= n <= 255 && s == decimal(n),
{
    if octet(s) == Some(n) {
        law_digits_are_their_decimal(s);
    }
    if 0 <= n <= 255 && s == decimal(n) {
        lemma_octet(n);
    }
}

/// Only the dotted text of four octets is an IPv4 address.
pub proof fn law_only_dotted_octets_are_ipv4(s: Seq<char>, a: int, b: int, c: int, d: int)
    requires
        ipv4(s) == Some((a, b, c, d)),
    ensures
        0 <= a <= 255,
        0 <= b <= 255,
        0 <= c <= 255,
        0 <= d <= 255,
        s == dotted(a, b, c, d),
{
    let p = split(s, '.');
    law_octets_are_decimal(p[0], a);
    law_octets_are_decimal(p[1], b);
    law_octets_are_decimal(p[2], c);
    law_octets_are_decimal(p[3], d);
    law_split_joins_back(s, '.');
    let dot = seq!['.'];
    assert(p =~= seq![p[0]] + (seq![p[1]] + (seq![p[2]] + seq![p[3]])));
    law_join_separates(seq![p[0]], seq![p[1]] + (seq![p[2]] + seq![p[3]]), dot);
    law_join_separates(seq![p[1]], seq![p[2]] + seq![p[3]], dot);
    law_join_separates(seq![p[2]], seq![p[3]], dot);
    law_join_separates(seq![p[3]], seq![p[3]], dot);
    assert(s =~= dotted(a, b, c, d));
}

/// The digits of a group are hexadecimal, in either case; every digit makes sixteen times what
/// stands before it and itself, and there are one to four of them.
pub proof fn law_groups_are_hexadecimal(s: Seq<char>, c: char)
    ensures
        '0' <= c <= '9' ==> hex_digit(c) == Some(c as int - '0' as int),
        'a' <= c <= 'f' ==> hex_digit(c) == Some(10 + (c as int - 'a' as int)),
        'A' <= c <= 'F' ==> hex_digit(c) == Some(10 + (c as int - 'A' as int)),
        !('0' <= c <= '9' || 'a' <= c <= 'f' || 'A' <= c <= 'F') ==> hex_value(s.push(c)) is None,
        hex_value(s) is None ==> hex_value(s.push(c)) is None,
        hex_value(s) is Some && hex_digit(c) is Some ==> hex_value(s.push(c)) == Some(
            16 * hex_value(s).unwrap() + hex_digit(c).unwrap(),
        ),
        hex_value(Seq::<char>::empty()) == Some(0int),
        1 <= s.len() <= 4 ==> group(s) == hex_value(s),
        s.len() == 0 || s.len() > 4 ==> group(s) is None,
{
    assert(s.push(c).drop_last() =~= s);
}

/// A list of groups is read group by group: it is there where every group is.
pub proof fn law_groups_are_read_one_by_one(parts: Seq<Seq<char>>, i: int)
    ensures
        groups(parts) matches Some(gs) ==> gs.len() == parts.len() && (0 <= i < parts.len()
            ==> group(parts[i]) == Some(gs[i])),
        groups(parts) is None <==> exists|k: int|
            0 <= k < parts.len() && group(#[trigger] parts[k]) is None,
    decreases parts.len(),
{
    if parts.len() > 0 {
        let front = parts.drop_last();
        law_groups_are_read_one_by_one(front, i);
        if 0 <= i < front.len() {
            assert(front[i] == parts[i]);
        }
        if groups(parts) is None {
            if groups(front) is None {
                let k = choose|k: int| 0 <= k < front.len() && group(#[trigger] front[k]) is None;
                assert(group(parts[k]) is None);
            } else {
                assert(group(parts[parts.len() - 1]) is None);
            }
        }
        if exists|k: int| 0 <= k < parts.len() && group(#[trigger] parts[k]) is None {
            let k = choose|k: int| 0 <= k < parts.len() && group(#[trigger] parts[k]) is None;
            if k < front.len() {
                assert(group(front[k]) is None);
            }
        }
    }
}

/// An IPv6 address without `::` is eight groups between colons, of which an IPv4 address at the
/// end stands for two; with one, the groups before it and those behind it stand at the two ends
/// and zeros between them, at least one.
pub proof fn law_ipv6_addresses(s: Seq<char>, at: int)
    requires
        at == find_text(s, "::"@),
    ensures
        at > s.len() ==> (ipv6(s) is Some <==> side(s, true) is Some && side(s, true).unwrap().len()
            == 8),
        at > s.len() && ipv6(s) is Some ==> ipv6(s) == side(s, true),
        at <= s.len() ==> (ipv6(s) is Some <==> side(s.take(at), false) is Some && side(
            s.skip(at + 2),
            true,
        ) is Some && side(s.take(at), false).unwrap().len() + side(
            s.skip(at + 2),
            true,
        ).unwrap().len() <= 7),
        at <= s.len() && ipv6(s) is Some ==> ({
            let g = ipv6(s).unwrap();
            let h = side(s.take(at), false).unwrap();
            let t = side(s.skip(at + 2), true).unwrap();
            &&& g.len() == 8
            &&& g.take(h.len() as int) == h
            &&& g.skip(8 - t.len()) == t
            &&& forall|i: int| h.len() <= i < 8 - t.len() ==> #[trigger] g[i] == 0
        }),
{
    if at <= s.len() && ipv6(s) is Some {
        let g = ipv6(s).unwrap();
        let h = side(s.take(at), false).unwrap();
        let t = side(s.skip(at + 2), true).unwrap();
        assert(g.take(h.len() as int) =~= h);
        assert(g.skip(8 - t.len()) =~= t);
    }
}

/// The groups between two colons: every part is a group, but for an IPv4 address at the end of
/// the last side, whose four octets make two.
pub proof fn law_sides_of_an_address(s: Seq<char>, v4: bool)
    requires
        s.len() > 0,
    ensures
        side(Seq::<char>::empty(), v4) == Some(Seq::<int>::empty()),
        !v4 || ipv4(split(s, ':').last()) is None ==> side(s, v4) == groups(split(s, ':')),
        v4 ==> (ipv4(split(s, ':').last()) matches Some(a) ==> match groups(
            split(s, ':').drop_last(),
        ) {
            Some(gs) => side(s, v4) == Some(gs + seq![a.0 * 256 + a.1, a.2 * 256 + a.3]),
            None => side(s, v4) is None,
        }),
{
    if v4 && ipv4(split(s, ':').last()) is Some {
        let a = ipv4(split(s, ':').last()).unwrap();
        if groups(split(s, ':').drop_last()) is Some {
            let gs = groups(split(s, ':').drop_last()).unwrap();
            assert(gs.push(a.0 * 256 + a.1).push(a.2 * 256 + a.3) =~= gs + seq![
                a.0 * 256 + a.1,
                a.2 * 256 + a.3,
            ]);
        }
    }
}

/// A socket address is an address and a port, a number up to 65535, behind the last colon. An
/// IPv6 address stands in brackets, with a numeric scope behind a percent sign at most.
pub proof fn law_socket_addresses(host: Seq<char>, port: Seq<char>, inner: Seq<char>)
    requires
        !port.contains(':'),
        !inner.contains('%'),
    ensures
        !(port.len() > 0 && all_digits(port) && digits_value(port) <= 65535) ==> socket_ip(
            host.push(':') + port,
        ) is None,
        port.len() > 0 && all_digits(port) && digits_value(port) <= 65535 ==> ({
            let s = host.push(':') + port;
            &&& ipv4(host) matches Some(a) ==> socket_ip(s) == Some(IpView::V4(a.0, a.1, a.2, a.3))
            &&& ipv4(host) is None && host == seq!['['] + inner + seq![']'] ==> match ipv6(inner) {
                Some(g) => socket_ip(s) == Some(IpView::V6(g)),
                None => socket_ip(s) is None,
            }
            &&& ipv4(host) is None && (host.len() == 0 || host[0] != '[') ==> socket_ip(s) is None
        }),
        socket_ip(port) is None,
{
    let s = host.push(':') + port;
    law_rfind_is_last(s, ':');
    law_rfind_is_last(port, ':');
    let r = rfind(s, ':');
    assert(s[host.len() as int] == ':');
    assert(r == host.len()) by {
        if r > host.len() {
            assert(s[r] == port[r - host.len() - 1]);
            assert(port.contains(port[r - host.len() - 1]));
        }
    }
    assert(s.take(r) =~= host);
    assert(s.skip(r + 1) =~= port);
    if host == seq!['['] + inner + seq![']'] {
        assert(host.subrange(1, host.len() - 1) =~= inner);
        law_find_is_first(inner, '%');
        assert(inner.take(inner.len() as int) =~= inner);
    }
}

/// The loopback addresses: every IPv4 address whose first octet is 127, and the one IPv6 address
/// whose groups are all zero but for a one at the end.
pub proof fn law_loopback_addresses(a: int, b: int, c: int, d: int, g: Seq<int>)
    requires
        g.len() == 8,
    ensures
        is_loopback(IpView::V4(a, b, c, d)) <==> a == 127,
        is_loopback(IpView::V6(g)) <==> g[7] == 1 && forall|i: int| 0 <= i < 7 ==> #[trigger] g[i]
            == 0,
{
    let one = seq![0int, 0, 0, 0, 0, 0, 0, 1];
    if g[7] == 1 && (forall|i: int| 0 <= i < 7 ==> #[trigger] g[i] == 0) {
        assert(g =~= one);
    }
}

/// An address is an IPv4 one where its text is one, else an IPv6 one where it is that.
pub proof fn law_addresses(s: Seq<char>)
    ensures
        ipv4(s) matches Some(a) ==> ip(s) == Some(IpView::V4(a.0, a.1, a.2, a.3)),
        ipv4(s) is None ==> (ipv6(s) matches Some(g) ==> ip(s) == Some(IpView::V6(g))),
        ipv4(s) is None && ipv6(s) is None ==> ip(s) is None,
{
}

/// The model of an address is its numbers, in order.
pub proof fn law_address_models(a: u8, b: u8, c: u8, d: u8, g: Vec<u16>, i: int)
    ensures
        Ip::V4(a, b, c, d)@ == IpView::V4(a as int, b as int, c as int, d as int),
        Ip::V6(g)@ is V6,
        Ip::V6(g)@->V6_0.len() == g@.len(),
        0 <= i < g@.len() ==> Ip::V6(g)@->V6_0[i] == g@[i],
        opt_ip(Some(Ip::V4(a, b, c, d))) == Some(Ip::V4(a, b, c, d)@),
        opt_ip(Some(Ip::V6(g))) == Some(Ip::V6(g)@),
        opt_ip(None) is None,
{
}

/// A bracketed host with a scope is the address before the percent sign, where the scope is a
/// number; brackets that are not closed hold no address.
pub proof fn law_scoped_socket_addresses(
    host: Seq<char>,
    port: Seq<char>,
    inner: Seq<char>,
    scope: Seq<char>,
)
    requires
        !port.contains(':'),
        port.len() > 0 && all_digits(port) && digits_value(port) <= 65535,
        !inner.contains('%'),
        ipv4(host) is None,
    ensures
        ({
            let s = host.push(':') + port;
            let number = scope.len() > 0 && all_digits(scope) && digits_value(scope)
                <= 4_294_967_295;
            &&& host == seq!['['] + (inner.push('%') + scope) + seq![']'] && number ==> match ipv6(
                inner,
            ) {
                Some(g) => socket_ip(s) == Some(IpView::V6(g)),
                None => socket_ip(s) is None,
            }
            &&& host == seq!['['] + (inner.push('%') + scope) + seq![']'] && !number ==> socket_ip(
                s,
            ) is None
            &&& host.len() < 2 || host.last() != ']' ==> socket_ip(s) is None
        }),
{
    let s = host.push(':') + port;
    law_rfind_is_last(s, ':');
    let r = rfind(s, ':');
    assert(s[host.len() as int] == ':');
    assert(r == host.len()) by {
        if r > host.len() {
            assert(s[r] == port[r - host.len() - 1]);
            assert(port.contains(port[r - host.len() - 1]));
        }
    }
    assert(s.take(r) =~= host);
    assert(s.skip(r + 1) =~= port);
    let whole = inner.push('%') + scope;
    if host == seq!['['] + whole + seq![']'] {
        assert(host.subrange(1, host.len() - 1) =~= whole);
        law_find_is_first(whole, '%');
        let f = crate::text::find(whole, '%');
        assert(whole[inner.len() as int] == '%');
        assert(f == inner.len()) by {
            if f < inner.len() {
                assert(whole[f] == inner[f]);
                assert(inner.contains(inner[f]));
            }
        }
        assert(whole.take(f) =~= inner);
        assert(whole.skip(f + 1) =~= scope);
    }
}

} // verus!
