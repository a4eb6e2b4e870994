//! PDF printing: the options of `Page.printToPDF`, paper sizes and CSS lengths.
use crate::request::{Margin, RenderRequest, Scale};
use crate::text::{
    all_digits, borrow_opt, clone_opt, find, find_char, is_digit, is_empty, law_find_is_first,
    lower, lowered, opt_str, opt_text, same, slice_text, to_chars, trim, trimmed,
};
use vstd::prelude::*;

verus! {

/// Options for printing a page. Margins are CSS lengths; unset ones are 0.
pub struct PdfOptions {
    pub format: Option<String>,
    pub landscape: bool,
    pub print_background: bool,
    pub display_header_footer: bool,
    pub header_template: Option<String>,
    pub footer_template: Option<String>,
    pub margin_top: Option<String>,
    pub margin_bottom: Option<String>,
    pub margin_left: Option<String>,
    pub margin_right: Option<String>,
    pub scale: Option<Scale>,
    pub prefer_css_page_size: bool,
}

// -- paper ------------------------------------------------------------------------------
/// Width and height in hundredths of an inch; A4 unless another known size is named.
pub open spec fn paper(format: Option<Seq<char>>) -> (int, int) {
    match format {
        Some(f) => {
            let name = lower(trim(f));
            if name == "letter"@ {
                (850, 1100)
            } else if name == "legal"@ {
                (850, 1400)
            } else if name == "a3"@ {
                (1169, 1654)
            } else {
                (827, 1169)
            }
        },
        None => (827, 1169),
    }
}

/// Width and height of a paper size in hundredths of an inch. A4 is the default, also for
/// names it does not know.
pub fn paper_size(format: Option<&str>) -> (res: (u32, u32))
    ensures
        (res.0 as int, res.1 as int) == paper(opt_str(format)),
{
    match format {
        Some(f) => {
            let t = trimmed(f);
            let name = lowered(t.as_str());
            if same(name.as_str(), "letter") {
                (850, 1100)
            } else if same(name.as_str(), "legal") {
                (850, 1400)
            } else if same(name.as_str(), "a3") {
                (1169, 1654)
            } else {
                (827, 1169)
            }
        },
        None => (827, 1169),
    }
}

// -- lengths ------------------------------------------------------------------------------
/// Whether a character has the Unicode `Alphabetic` property.
pub uninterp spec fn alphabetic(c: char) -> bool;

/// `char::is_alphabetic`: the Unicode `Alphabetic` property, named [`alphabetic`]. Of the
/// ASCII characters the letters have it.
pub assume_specification[ char::is_alphabetic ](c: char) -> (res: bool)
    ensures
        res == alphabetic(c),
        (c as u32) < 128 ==> res == ('a' <= c <= 'z' || 'A' <= c <= 'Z'),
;

/// Where the unit of a length begins.
pub open spec fn unit_start(s: Seq<char>) -> int
    decreases s.len(),
{
    if s.len() == 0 || alphabetic(s[0]) {
        0
    } else {
        1 + unit_start(s.drop_first())
    }
}

/// How many hundredths of a unit make an inch. Anything but the known units is CSS pixels.
pub open spec fn unit_per_inch(unit: Seq<char>) -> int {
    if unit == "in"@ {
        100
    } else if unit == "mm"@ {
        2540
    } else if unit == "cm"@ {
        254
    } else if unit == "pt"@ {
        7200
    } else if unit == "pc"@ {
        600
    } else {
        9600
    }
}

/// A decimal number: an optional sign, then digits with at most one dot among them and at
/// least one digit.
pub open spec fn is_decimal(s: Seq<char>) -> bool {
    let t = if s.len() > 0 && (s[0] == '+' || s[0] == '-') {
        s.drop_first()
    } else {
        s
    };
    let dot = find(t, '.');
    if dot >= t.len() {
        t.len() > 0 && all_digits(t)
    } else {
        t.len() > 1 && all_digits(t.take(dot)) && all_digits(t.skip(dot + 1))
    }
}

fn only_digits(s: &[char], from: usize, to: usize) -> (res: bool)
    requires
        from <= to <= s@.len(),
    ensures
        res == all_digits(s@.subrange(from as int, to as int)),
{
    let ghost part = s@.subrange(from as int, to as int);
    for i in from..to
        invariant
            from <= to <= s@.len(),
            part == s@.subrange(from as int, to as int),
            forall|k: int| 0 <= k < i - from ==> is_digit(#[trigger] part[k]),
    {
        assert(part[i - from] == s@[i as int]);
        if !('0' <= s[i] && s[i] <= '9') {
            assert(!is_digit(part[i - from]));
            return false;
        }
    }
    true
}

fn decimal_number(s: &str) -> (res: bool)
    ensures
        res == is_decimal(s@),
{
    let c = to_chars(s);
    let start: usize = if c.len() > 0 && (c[0] == '+' || c[0] == '-') {
        1
    } else {
        0
    };
    let t = to_chars(slice_text(c.as_slice(), start, c.len()).as_str());
    proof {
        if start == 1 {
            assert(t@ =~= s@.drop_first());
        } else {
            assert(t@ =~= s@);
        }
    }
    let dot: usize = find_char(t.as_slice(), '.');
    if dot >= t.len() {
        assert(t@.subrange(0, t@.len() as int) =~= t@);
        t.len() > 0 && only_digits(t.as_slice(), 0, t.len())
    } else {
        assert(t@.subrange(0, dot as int) =~= t@.take(dot as int));
        assert(t@.subrange(dot + 1, t@.len() as int) =~= t@.skip(dot + 1));
        t.len() > 1 && only_digits(t.as_slice(), 0, dot) && only_digits(
            t.as_slice(),
            dot + 1,
            t.len(),
        )
    }
}

/// A CSS length: its number, as text, and how many hundredths of its unit make an inch. In
/// inches it is the number, times 100, divided by that.
pub struct CssLength {
    pub number: String,
    pub per_inch: u32,
}

/// The parts of a length; `None` for an absent or blank one and for one without a number.
pub open spec fn css_length(len: Option<Seq<char>>) -> Option<(Seq<char>, int)> {
    match len {
        Some(l) => {
            let raw = trim(l);
            if raw.len() == 0 {
                None
            } else {
                let at = unit_start(raw);
                let number = trim(raw.take(at));
                if is_decimal(number) {
                    Some((number, unit_per_inch(lower(trim(raw.skip(at))))))
                } else {
                    None
                }
            }
        },
        None => None,
    }
}

/// Splits a CSS length (`35px`, `20mm`, `1cm`, `0.5in`, `12pt`, or a bare number, which means
/// pixels) into its number and its unit; `None` where there is no number.
pub fn css_len_to_inches(len: Option<&str>) -> (res: Option<CssLength>)
    ensures
        match res {
            Some(l) => css_length(opt_str(len)) == Some((l.number@, l.per_inch as int)),
            None => css_length(opt_str(len)) is None,
        },
{
    let raw = match len {
        Some(l) => trimmed(l),
        None => {
            return None;
        },
    };
    if is_empty(raw.as_str()) {
        return None;
    }
    let c = to_chars(raw.as_str());
    let mut at: usize = 0;
    assert(c@.skip(0) =~= c@);
    while at < c.len() && !c[at].is_alphabetic()
        invariant
            0 <= at <= c@.len(),
            unit_start(c@) == at + unit_start(c@.skip(at as int)),
        decreases c@.len() - at,
    {
        assert(c@.skip(at as int)[0] == c@[at as int]);
        assert(c@.skip(at as int).drop_first() =~= c@.skip(at + 1));
        at = at + 1;
    }
    assert(at < c@.len() ==> c@.skip(at as int)[0] == c@[at as int]);
    assert(unit_start(c@) == at);
    let head = slice_text(c.as_slice(), 0, at);
    let tail = slice_text(c.as_slice(), at, c.len());
    assert(head@ =~= raw@.take(at as int));
    assert(tail@ =~= raw@.skip(at as int));
    let number = trimmed(head.as_str());
    if !decimal_number(number.as_str()) {
        return None;
    }
    let t = trimmed(tail.as_str());
    let unit = lowered(t.as_str());
    let per_inch: u32 = if same(unit.as_str(), "in") {
        100
    } else if same(unit.as_str(), "mm") {
        2540
    } else if same(unit.as_str(), "cm") {
        254
    } else if same(unit.as_str(), "pt") {
        7200
    } else if same(unit.as_str(), "pc") {
        600
    } else {
        9600
    };
    Some(CssLength { number, per_inch })
}

// -- options ------------------------------------------------------------------------------
/// The model of a scale.
pub open spec fn scale_view(s: Option<Scale>) -> Option<(u64, Seq<char>)> {
    match s {
        Some(s) => Some((s.bits, s.text@)),
        None => None,
    }
}

/// A copy of a scale.
pub fn clone_scale(s: &Option<Scale>) -> (res: Option<Scale>)
    ensures
        scale_view(res) == scale_view(*s),
{
    match s {
        Some(s) => Some(Scale { bits: s.bits, text: s.text.clone() }),
        None => None,
    }
}

/// One side of a margin.
pub open spec fn margin_side(m: Option<Margin>, side: int) -> Option<Seq<char>> {
    match m {
        Some(m) => if side == 0 {
            opt_text(m.top)
        } else if side == 1 {
            opt_text(m.bottom)
        } else if side == 2 {
            opt_text(m.left)
        } else {
            opt_text(m.right)
        },
        None => None,
    }
}

/// The options say what the request says.
pub open spec fn options_of(o: PdfOptions, r: RenderRequest) -> bool {
    &&& opt_text(o.format) == opt_text(r.format)
    &&& o.landscape == r.landscape
    &&& o.print_background == r.print_background
    &&& o.display_header_footer == r.display_header_footer
    &&& opt_text(o.header_template) == opt_text(r.header_template)
    &&& opt_text(o.footer_template) == opt_text(r.footer_template)
    &&& opt_text(o.margin_top) == margin_side(r.margin, 0)
    &&& opt_text(o.margin_bottom) == margin_side(r.margin, 1)
    &&& opt_text(o.margin_left) == margin_side(r.margin, 2)
    &&& opt_text(o.margin_right) == margin_side(r.margin, 3)
    &&& scale_view(o.scale) == scale_view(r.scale)
    &&& o.prefer_css_page_size == r.prefer_css_page_size
}

/// The printing options of a render request.
pub fn pdf_options(req: &RenderRequest) -> (res: PdfOptions)
    ensures
        options_of(res, *req),
        opt_text(res.format) == opt_text(req.format),
        res.landscape == req.landscape,
        res.print_background == req.print_background,
        res.display_header_footer == req.display_header_footer,
        opt_text(res.header_template) == opt_text(req.header_template),
        opt_text(res.footer_template) == opt_text(req.footer_template),
        match req.margin {
            Some(m) => {
                &&& opt_text(res.margin_top) == opt_text(m.top)
                &&& opt_text(res.margin_bottom) == opt_text(m.bottom)
                &&& opt_text(res.margin_left) == opt_text(m.left)
                &&& opt_text(res.margin_right) == opt_text(m.right)
            },
            None => res.margin_top is None && res.margin_bottom is None && res.margin_left is None
                && res.margin_right is None,
        },
        match req.scale {
            Some(s) => res.scale is Some && res.scale.unwrap().bits == s.bits
                && res.scale.unwrap().text@ == s.text@,
            None => res.scale is None,
        },
        res.prefer_css_page_size == req.prefer_css_page_size,
{
    let (top, bottom, left, right) = match &req.margin {
        Some(m) => (
            clone_opt(&m.top),
            clone_opt(&m.bottom),
            clone_opt(&m.left),
            clone_opt(&m.right),
        ),
        None => (None, None, None, None),
    };
    PdfOptions {
        format: clone_opt(&req.format),
        landscape: req.landscape,
        print_background: req.print_background,
        display_header_footer: req.display_header_footer,
        header_template: clone_opt(&req.header_template),
        footer_template: clone_opt(&req.footer_template),
        margin_top: top,
        margin_bottom: bottom,
        margin_left: left,
        margin_right: right,
        scale: clone_scale(&req.scale),
        prefer_css_page_size: req.prefer_css_page_size,
    }
}

/// What is handed to `Page.printToPDF`.
pub struct PrintParams {
    pub landscape: bool,
    pub print_background: bool,
    /// Hundredths of an inch.
    pub paper_width: u32,
    pub paper_height: u32,
    pub display_header_footer: bool,
    pub header_template: Option<String>,
    pub footer_template: Option<String>,
    /// Absent margins are 0.
    pub margin_top: Option<CssLength>,
    pub margin_bottom: Option<CssLength>,
    pub margin_left: Option<CssLength>,
    pub margin_right: Option<CssLength>,
    pub scale: Option<Scale>,
    pub prefer_css_page_size: bool,
}

/// The model of a parsed margin.
pub open spec fn length_view(l: Option<CssLength>) -> Option<(Seq<char>, int)> {
    match l {
        Some(l) => Some((l.number@, l.per_inch as int)),
        None => None,
    }
}

/// The parameters with which a page is printed.
pub fn pdf(opts: PdfOptions) -> (res: PrintParams)
    ensures
        res.landscape == opts.landscape,
        res.print_background == opts.print_background,
        (res.paper_width as int, res.paper_height as int) == paper(opt_text(opts.format)),
        res.display_header_footer == opts.display_header_footer,
        opt_text(res.header_template) == opt_text(opts.header_template),
        opt_text(res.footer_template) == opt_text(opts.footer_template),
        match css_length(opt_text(opts.margin_top)) {
            Some(l) => res.margin_top is Some && res.margin_top.unwrap().number@ == l.0
                && res.margin_top.unwrap().per_inch == l.1,
            None => res.margin_top is None,
        },
        match css_length(opt_text(opts.margin_bottom)) {
            Some(l) => res.margin_bottom is Some && res.margin_bottom.unwrap().number@ == l.0
                && res.margin_bottom.unwrap().per_inch == l.1,
            None => res.margin_bottom is None,
        },
        match css_length(opt_text(opts.margin_left)) {
            Some(l) => res.margin_left is Some && res.margin_left.unwrap().number@ == l.0
                && res.margin_left.unwrap().per_inch == l.1,
            None => res.margin_left is None,
        },
        match css_length(opt_text(opts.margin_right)) {
            Some(l) => res.margin_right is Some && res.margin_right.unwrap().number@ == l.0
                && res.margin_right.unwrap().per_inch == l.1,
            None => res.margin_right is None,
        },
        match opts.scale {
            Some(s) => res.scale is Some && res.scale.unwrap().bits == s.bits
                && res.scale.unwrap().text@ == s.text@,
            None => res.scale is None,
        },
        length_view(res.margin_top) == css_length(opt_text(opts.margin_top)),
        length_view(res.margin_bottom) == css_length(opt_text(opts.margin_bottom)),
        length_view(res.margin_left) == css_length(opt_text(opts.margin_left)),
        length_view(res.margin_right) == css_length(opt_text(opts.margin_right)),
        scale_view(res.scale) == scale_view(opts.scale),
        res.prefer_css_page_size == opts.prefer_css_page_size,
{
    let (paper_width, paper_height) = paper_size(borrow_opt(&opts.format));
    PrintParams {
        landscape: opts.landscape,
        print_background: opts.print_background,
        paper_width,
        paper_height,
        display_header_footer: opts.display_header_footer,
        header_template: opts.header_template,
        footer_template: opts.footer_template,
        margin_top: css_len_to_inches(borrow_opt(&opts.margin_top)),
        margin_bottom: css_len_to_inches(borrow_opt(&opts.margin_bottom)),
        margin_left: css_len_to_inches(borrow_opt(&opts.margin_left)),
        margin_right: css_len_to_inches(borrow_opt(&opts.margin_right)),
        scale: opts.scale,
        prefer_css_page_size: opts.prefer_css_page_size,
    }
}

// -- laws ------------------------------------------------------------------------------
/// Options that say what a request says have its margins, each side on its own side, and the
/// rest of it field by field.
pub proof fn law_options_keep_their_sides(o: PdfOptions, r: RenderRequest)
    requires
        options_of(o, r),
    ensures
        r.margin matches Some(m) ==> opt_text(o.margin_top) == opt_text(m.top) && opt_text(
            o.margin_bottom,
        ) == opt_text(m.bottom) && opt_text(o.margin_left) == opt_text(m.left) && opt_text(
            o.margin_right,
        ) == opt_text(m.right),
        r.margin is None ==> o.margin_top is None && o.margin_bottom is None && o.margin_left is None
            && o.margin_right is None,
        opt_text(o.format) == opt_text(r.format),
        opt_text(o.header_template) == opt_text(r.header_template),
        opt_text(o.footer_template) == opt_text(r.footer_template),
        o.landscape == r.landscape,
        o.print_background == r.print_background,
        o.display_header_footer == r.display_header_footer,
        o.prefer_css_page_size == r.prefer_css_page_size,
        o.scale is Some <==> r.scale is Some,
        r.scale matches Some(s) ==> o.scale.unwrap().bits == s.bits && o.scale.unwrap().text@
            == s.text@,
{
}

/// A paper size is known by its name, whatever its case and the white space around it; every
/// other name, and none, is A4.
pub proof fn law_paper_sizes(f: Seq<char>)
    ensures
        lower(trim(f)) == "letter"@ ==> paper(Some(f)) == (850int, 1100int),
        lower(trim(f)) == "legal"@ ==> paper(Some(f)) == (850int, 1400int),
        lower(trim(f)) == "a3"@ ==> paper(Some(f)) == (1169int, 1654int),
        lower(trim(f)) != "letter"@ && lower(trim(f)) != "legal"@ && lower(trim(f)) != "a3"@
            ==> paper(Some(f)) == (827int, 1169int),
        paper(None) == (827int, 1169int),
{
    reveal_strlit("letter");
    reveal_strlit("legal");
    reveal_strlit("a3");
    assert("letter"@.len() == 6);
    assert("legal"@.len() == 5);
    assert("a3"@.len() == 2);
}

/// The units: an inch is 2.54 centimetres, 25.4 millimetres, 72 points, 6 picas and 96 pixels.
/// Whatever is none of the other units is pixels.
pub proof fn law_units(unit: Seq<char>)
    ensures
        unit_per_inch("in"@) == 100,
        unit_per_inch("cm"@) == 254,
        unit_per_inch("mm"@) == 2540,
        unit_per_inch("pt"@) == 7200,
        unit_per_inch("pc"@) == 600,
        unit != "in"@ && unit != "cm"@ && unit != "mm"@ && unit != "pt"@ && unit != "pc"@
            ==> unit_per_inch(unit) == 9600,
{
    reveal_strlit("in");
    reveal_strlit("cm");
    reveal_strlit("mm");
    reveal_strlit("pt");
    reveal_strlit("pc");
    assert("in"@[0] == 'i');
    assert("cm"@[0] == 'c');
    assert("mm"@[0] == 'm');
    assert("pt"@[0] == 'p' && "pt"@[1] == 't');
    assert("pc"@[0] == 'p' && "pc"@[1] == 'c');
}

proof fn lemma_unit_start(s: Seq<char>, at: int)
    requires
        0 <= at <= s.len(),
        forall|k: int| 0 <= k < at ==> !alphabetic(#[trigger] s[k]),
        at < s.len() ==> alphabetic(s[at]),
    ensures
        unit_start(s) == at,
    decreases s.len(),
{
    if at > 0 {
        assert(!alphabetic(s[0]));
        let rest = s.drop_first();
        assert forall|k: int| 0 <= k < at - 1 implies !alphabetic(#[trigger] rest[k]) by {
            assert(rest[k] == s[k + 1]);
        }
        lemma_unit_start(rest, at - 1);
    }
}

/// A length is a number and a unit: the unit begins at the first letter, and both are trimmed.
/// A text without a decimal number before the unit is no length.
pub proof fn law_length_is_number_and_unit(l: Seq<char>, raw: Seq<char>, at: int)
    requires
        raw == trim(l),
        0 <= at <= raw.len(),
        forall|k: int| 0 <= k < at ==> !alphabetic(#[trigger] raw[k]),
        at < raw.len() ==> alphabetic(raw[at]),
    ensures
        css_length(None) is None,
        css_length(Some(l)) is Some <==> raw.len() > 0 && is_decimal(trim(raw.take(at))),
        css_length(Some(l)) is Some ==> css_length(Some(l)) == Some(
            (trim(raw.take(at)), unit_per_inch(lower(trim(raw.skip(at))))),
        ),
{
    lemma_unit_start(raw, at);
}

/// A decimal number holds digits, at least one, and may hold a dot among them; a sign before it
/// changes nothing.
pub proof fn law_decimal_numbers(a: Seq<char>, b: Seq<char>)
    requires
        all_digits(a),
        all_digits(b),
    ensures
        is_decimal(a) <==> a.len() > 0,
        is_decimal(a.push('.') + b) <==> a.len() + b.len() > 0,
        is_decimal(seq!['+'] + a) <==> a.len() > 0,
        is_decimal(seq!['-'] + a) <==> a.len() > 0,
        is_decimal(seq!['+'] + (a.push('.') + b)) <==> a.len() + b.len() > 0,
        is_decimal(seq!['-'] + (a.push('.') + b)) <==> a.len() + b.len() > 0,
{
    let d = a.push('.') + b;
    law_find_is_first(a, '.');
    law_find_is_first(d, '.');
    assert(find(a, '.') == a.len()) by {
        if find(a, '.') < a.len() {
            assert(is_digit(a[find(a, '.')]));
        }
    }
    assert(find(d, '.') == a.len()) by {
        let f = find(d, '.');
        assert(d[a.len() as int] == '.');
        if f < a.len() {
            assert(d[f] == a[f]);
            assert(is_digit(a[f]));
        }
    }
    assert(d.take(a.len() as int) =~= a);
    assert(d.skip(a.len() as int + 1) =~= b);
    if a.len() > 0 {
        assert(is_digit(a[0]));
        assert(d[0] == a[0]);
    }
    assert((seq!['+'] + a).drop_first() =~= a);
    assert((seq!['-'] + a).drop_first() =~= a);
    assert((seq!['+'] + d).drop_first() =~= d);
    assert((seq!['-'] + d).drop_first() =~= d);
}

/// Nothing else is a decimal number: behind a sign it holds digits and one dot at most.
pub proof fn law_only_decimals_are_numbers(s: Seq<char>, i: int, j: int)
    requires
        is_decimal(s),
        0 <= i < s.len(),
        0 <= j < s.len(),
    ensures
        '0' <= s[i] <= '9' || s[i] == '.' || (i == 0 && (s[i] == '+' || s[i] == '-')),
        s[i] == '.' && s[j] == '.' ==> i == j,
{
    let signed = s[0] == '+' || s[0] == '-';
    let t = if signed {
        s.drop_first()
    } else {
        s
    };
    let off = if signed {
        1int
    } else {
        0int
    };
    law_find_is_first(t, '.');
    let dot = find(t, '.');
    assert forall|k: int| 0 <= k < t.len() && k != dot implies '0' <= #[trigger] t[k] <= '9' by {
        if dot >= t.len() {
            assert(is_digit(t[k]));
        } else if k < dot {
            assert(t.take(dot)[k] == t[k]);
            assert(is_digit(t.take(dot)[k]));
        } else {
            assert(t.skip(dot + 1)[k - dot - 1] == t[k]);
            assert(is_digit(t.skip(dot + 1)[k - dot - 1]));
        }
    }
    if i >= off {
        assert(t[i - off] == s[i]);
    }
    if j >= off {
        assert(t[j - off] == s[j]);
    }
}

} // verus!
