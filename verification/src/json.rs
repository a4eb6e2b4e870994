//! JSON values as the browser protocol and the tool payloads use them: reading
//! members, comparing values, and writing and reading their text.
use crate::text::{
    decimal, decimal_text, join, join_texts, lemma_texts_push, opt_str, same, signed_decimal,
    signed_decimal_text, texts,
};
use serde_json::Value;
use vstd::prelude::*;

verus! {

/// A JSON number. A float carries its IEEE-754 bits and its shortest text form.
pub enum Number {
    PosInt(u64),
    NegInt(i64),
    Float { bits: u64, text: String },
}

/// A JSON value. The members of an object stand in the order of their keys.
pub enum Json {
    Null,
    Bool(bool),
    Num(Number),
    Str(String),
    Array(Vec<Json>),
    Object(Vec<(String, Json)>),
}

/// The model of a number.
pub enum NumberView {
    PosInt(int),
    NegInt(int),
    Float(u64, Seq<char>),
}

/// The model of a JSON value.
pub enum JsonView {
    Null,
    Bool(bool),
    Num(NumberView),
    Str(Seq<char>),
    Array(Seq<JsonView>),
    Object(Seq<(Seq<char>, JsonView)>),
}

impl Number {
    pub open spec fn view(self) -> NumberView {
        match self {
            Number::PosInt(n) => NumberView::PosInt(n as int),
            Number::NegInt(n) => NumberView::NegInt(n as int),
            Number::Float { bits, text } => NumberView::Float(bits, text@),
        }
    }
}

impl Json {
    pub open spec fn view(self) -> JsonView
        decreases self,
    {
        match self {
            Json::Null => JsonView::Null,
            Json::Bool(b) => JsonView::Bool(b),
            Json::Num(n) => JsonView::Num(n@),
            Json::Str(s) => JsonView::Str(s@),
            Json::Array(v) => JsonView::Array(
                Seq::new(
                    v@.len(),
                    |i: int|
                        if 0 <= i < v@.len() {
                            v@[i].view()
                        } else {
                            JsonView::Null
                        },
                ),
            ),
            Json::Object(v) => JsonView::Object(
                Seq::new(
                    v@.len(),
                    |i: int|
                        if 0 <= i < v@.len() {
                            (v@[i].0@, v@[i].1.view())
                        } else {
                            (Seq::<char>::empty(), JsonView::Null)
                        },
                ),
            ),
        }
    }
}

/// The models of a list of values.
pub open spec fn views(v: Seq<Json>) -> Seq<JsonView> {
    Seq::new(v.len(), |i: int| v[i].view())
}

/// The models of a list of members.
pub open spec fn member_views(v: Seq<(String, Json)>) -> Seq<(Seq<char>, JsonView)> {
    Seq::new(v.len(), |i: int| (v[i].0@, v[i].1.view()))
}

pub proof fn lemma_array_view(j: Json)
    ensures
        j matches Json::Array(v) ==> j@ == JsonView::Array(views(v@)),
        j matches Json::Object(v) ==> j@ == JsonView::Object(member_views(v@)),
{
    match j {
        Json::Array(v) => {
            assert(j@->Array_0 =~= views(v@));
        },
        Json::Object(v) => {
            assert(j@->Object_0 =~= member_views(v@));
        },
        _ => {},
    }
}

proof fn lemma_item_decreases(j: Json, i: int)
    requires
        j is Array,
        0 <= i < j->Array_0@.len(),
    ensures
        decreases_to!(j => j->Array_0@[i]),
{
    assert(decreases_to!(j => j->Array_0));
    assert(decreases_to!(j->Array_0 => j->Array_0@));
    assert(decreases_to!(j->Array_0@ => j->Array_0@[i]));
}

proof fn lemma_member_decreases(j: Json, i: int)
    requires
        j is Object,
        0 <= i < j->Object_0@.len(),
    ensures
        decreases_to!(j => j->Object_0@[i].1),
{
    assert(decreases_to!(j => j->Object_0));
    assert(decreases_to!(j->Object_0 => j->Object_0@));
    assert(decreases_to!(j->Object_0@ => j->Object_0@[i]));
    assert(decreases_to!(j->Object_0@[i] => j->Object_0@[i].1));
}

// -- reading --------------------------------------------------------------------------
/// The position of the first member named `key`, or the number of members when
/// there is none.
pub open spec fn member_index(v: Seq<(Seq<char>, JsonView)>, key: Seq<char>) -> int
    decreases v.len(),
{
    if v.len() == 0 {
        0
    } else if v[0].0 == key {
        0
    } else {
        1 + member_index(v.drop_first(), key)
    }
}

pub proof fn lemma_member_index(v: Seq<(Seq<char>, JsonView)>, key: Seq<char>, i: int)
    requires
        0 <= i <= v.len(),
        forall|k: int| 0 <= k < i ==> (#[trigger] v[k]).0 != key,
        i < v.len() ==> v[i].0 == key,
    ensures
        member_index(v, key) == i,
    decreases v.len(),
{
    if v.len() > 0 && i > 0 {
        assert(v[0].0 != key);
        assert forall|k: int| 0 <= k < i - 1 implies (#[trigger] v.drop_first()[k]).0 != key by {
            assert(v.drop_first()[k] == v[k + 1]);
        }
        lemma_member_index(v.drop_first(), key, i - 1);
    }
}

impl JsonView {
    /// The member of an object under `key`.
    pub open spec fn get(self, key: Seq<char>) -> Option<JsonView> {
        match self {
            JsonView::Object(v) => {
                let i = member_index(v, key);
                if i < v.len() {
                    Some(v[i].1)
                } else {
                    None
                }
            },
            _ => None,
        }
    }

    pub open spec fn as_str(self) -> Option<Seq<char>> {
        match self {
            JsonView::Str(s) => Some(s),
            _ => None,
        }
    }

    pub open spec fn as_bool(self) -> Option<bool> {
        match self {
            JsonView::Bool(b) => Some(b),
            _ => None,
        }
    }

    pub open spec fn as_array(self) -> Option<Seq<JsonView>> {
        match self {
            JsonView::Array(v) => Some(v),
            _ => None,
        }
    }

    /// The string member under `key`.
    pub open spec fn str_at(self, key: Seq<char>) -> Option<Seq<char>> {
        match self.get(key) {
            Some(v) => v.as_str(),
            None => None,
        }
    }

    /// The boolean member under `key`.
    pub open spec fn bool_at(self, key: Seq<char>) -> Option<bool> {
        match self.get(key) {
            Some(v) => v.as_bool(),
            None => None,
        }
    }

    /// The array member under `key`.
    pub open spec fn array_at(self, key: Seq<char>) -> Option<Seq<JsonView>> {
        match self.get(key) {
            Some(v) => v.as_array(),
            None => None,
        }
    }
}

/// The model of an optional value.
pub open spec fn opt_view(o: Option<&Json>) -> Option<JsonView> {
    match o {
        Some(j) => Some(j@),
        None => None,
    }
}

impl Json {
    /// The member of an object under `key`; `None` on anything else.
    pub fn get(&self, key: &str) -> (res: Option<&Json>)
        ensures
            opt_view(res) == self@.get(key@),
            res matches Some(j) ==> decreases_to!(*self => *j),
    {
        proof {
            lemma_array_view(*self);
        }
        match self {
            Json::Object(v) => {
                for i in 0..v.len()
                    invariant
                        *self == Json::Object(*v),
                        self@ == JsonView::Object(member_views(v@)),
                        forall|k: int| 0 <= k < i ==> (#[trigger] member_views(v@)[k]).0 != key@,
                {
                    if same(v[i].0.as_str(), key) {
                        proof {
                            lemma_member_index(member_views(v@), key@, i as int);
                        }
                        return Some(&v[i].1);
                    }
                }
                proof {
                    lemma_member_index(member_views(v@), key@, v@.len() as int);
                }
                None
            },
            _ => None,
        }
    }

    /// The text of a string value.
    pub fn as_str(&self) -> (res: Option<&str>)
        ensures
            opt_str(res) == self@.as_str(),
    {
        match self {
            Json::Str(s) => Some(s.as_str()),
            _ => None,
        }
    }

    /// The truth value of a boolean.
    pub fn as_bool(&self) -> (res: Option<bool>)
        ensures
            res == self@.as_bool(),
    {
        match self {
            Json::Bool(b) => Some(*b),
            _ => None,
        }
    }

    /// The elements of an array.
    pub fn as_array(&self) -> (res: Option<&Vec<Json>>)
        ensures
            match res {
                Some(v) => self@.as_array() == Some(views(v@)) && *self == Json::Array(*v),
                None => self@.as_array() is None,
            },
    {
        proof {
            lemma_array_view(*self);
        }
        match self {
            Json::Array(v) => Some(v),
            _ => None,
        }
    }

    /// The string member under `key`.
    pub fn str_at(&self, key: &str) -> (res: Option<&str>)
        ensures
            opt_str(res) == self@.str_at(key@),
    {
        match self.get(key) {
            Some(v) => v.as_str(),
            None => None,
        }
    }

    /// The boolean member under `key`.
    pub fn bool_at(&self, key: &str) -> (res: Option<bool>)
        ensures
            res == self@.bool_at(key@),
    {
        match self.get(key) {
            Some(v) => v.as_bool(),
            None => None,
        }
    }

    /// The array member under `key`.
    pub fn array_at(&self, key: &str) -> (res: Option<&Vec<Json>>)
        ensures
            match res {
                Some(v) => self@.array_at(key@) == Some(views(v@)),
                None => self@.array_at(key@) is None,
            },
    {
        match self.get(key) {
            Some(v) => v.as_array(),
            None => None,
        }
    }
}

// -- comparing --------------------------------------------------------------------------
/// Whether the bits are those of a zero of either sign.
pub open spec fn is_zero(bits: u64) -> bool {
    bits == 0 || bits == 0x8000_0000_0000_0000
}

/// Numbers of one kind are equal when their values are.
pub open spec fn number_eq(a: NumberView, b: NumberView) -> bool {
    match (a, b) {
        (NumberView::PosInt(x), NumberView::PosInt(y)) => x == y,
        (NumberView::NegInt(x), NumberView::NegInt(y)) => x == y,
        (NumberView::Float(x, _), NumberView::Float(y, _)) => x == y || (is_zero(x) && is_zero(y)),
        _ => false,
    }
}

/// Value equality.
pub open spec fn json_eq(a: JsonView, b: JsonView) -> bool
    decreases a,
{
    match (a, b) {
        (JsonView::Null, JsonView::Null) => true,
        (JsonView::Bool(x), JsonView::Bool(y)) => x == y,
        (JsonView::Num(x), JsonView::Num(y)) => number_eq(x, y),
        (JsonView::Str(x), JsonView::Str(y)) => x == y,
        (JsonView::Array(x), JsonView::Array(y)) => x.len() == y.len() && (forall|i: int|
            0 <= i < x.len() ==> json_eq(#[trigger] x[i], y[i])),
        (JsonView::Object(x), JsonView::Object(y)) => x.len() == y.len() && (forall|i: int|
            0 <= i < x.len() ==> (#[trigger] x[i]).0 == y[i].0 && json_eq(x[i].1, y[i].1)),
        _ => false,
    }
}

/// Every value equals itself.
pub proof fn law_equality_is_reflexive(v: JsonView)
    ensures
        json_eq(v, v),
    decreases v,
{
    match v {
        JsonView::Array(items) => {
            assert forall|i: int| 0 <= i < items.len() implies json_eq(
                #[trigger] items[i],
                items[i],
            ) by {
                law_equality_is_reflexive(items[i]);
            }
        },
        JsonView::Object(ms) => {
            assert forall|i: int| 0 <= i < ms.len() implies json_eq(
                (#[trigger] ms[i]).1,
                ms[i].1,
            ) by {
                law_equality_is_reflexive(ms[i].1);
            }
        },
        _ => {},
    }
}

impl Number {
    /// Whether two numbers are of one kind and equal.
    pub fn equals(&self, other: &Number) -> (res: bool)
        ensures
            res == number_eq(self@, other@),
    {
        match (self, other) {
            (Number::PosInt(x), Number::PosInt(y)) => *x == *y,
            (Number::NegInt(x), Number::NegInt(y)) => *x == *y,
            (Number::Float { bits: x, .. }, Number::Float { bits: y, .. }) => {
                let zx = *x == 0 || *x == 0x8000_0000_0000_0000;
                let zy = *y == 0 || *y == 0x8000_0000_0000_0000;
                *x == *y || (zx && zy)
            },
            _ => false,
        }
    }
}

impl Json {
    /// Whether two values are equal.
    pub fn equals(&self, other: &Json) -> (res: bool)
        ensures
            res == json_eq(self@, other@),
        decreases self,
    {
        proof {
            lemma_array_view(*self);
            lemma_array_view(*other);
        }
        match (self, other) {
            (Json::Null, Json::Null) => true,
            (Json::Bool(x), Json::Bool(y)) => *x == *y,
            (Json::Num(x), Json::Num(y)) => x.equals(y),
            (Json::Str(x), Json::Str(y)) => same(x.as_str(), y.as_str()),
            (Json::Array(x), Json::Array(y)) => {
                if x.len() != y.len() {
                    return false;
                }
                for i in 0..x.len()
                    invariant
                        x@.len() == y@.len(),
                        *self == Json::Array(*x),
                        self@ == JsonView::Array(views(x@)),
                        other@ == JsonView::Array(views(y@)),
                        forall|k: int|
                            0 <= k < i ==> json_eq(#[trigger] views(x@)[k], views(y@)[k]),
                {
                    if !x[i].equals(&y[i]) {
                        assert(!json_eq(views(x@)[i as int], views(y@)[i as int]));
                        return false;
                    }
                }
                true
            },
            (Json::Object(x), Json::Object(y)) => {
                if x.len() != y.len() {
                    return false;
                }
                for i in 0..x.len()
                    invariant
                        x@.len() == y@.len(),
                        *self == Json::Object(*x),
                        self@ == JsonView::Object(member_views(x@)),
                        other@ == JsonView::Object(member_views(y@)),
                        forall|k: int|
                            0 <= k < i ==> (#[trigger] member_views(x@)[k]).0 == member_views(
                                y@,
                            )[k].0 && json_eq(
                                member_views(x@)[k].1,
                                member_views(y@)[k].1,
                            ),
                {
                    let ok = same(x[i].0.as_str(), y[i].0.as_str()) && x[i].1.equals(&y[i].1);
                    if !ok {
                        assert(!(member_views(x@)[i as int].0 == member_views(y@)[i as int].0
                            && json_eq(
                            member_views(x@)[i as int].1,
                            member_views(y@)[i as int].1,
                        )));
                        return false;
                    }
                }
                true
            },
            _ => false,
        }
    }
}

// -- writing ------------------------------------------------------------------------------
/// A lower-case hexadecimal digit.
pub open spec fn hex_char(d: int) -> char {
    if d < 10 {
        (48 + d) as char
    } else {
        (87 + d) as char
    }
}

/// How a character stands inside a JSON string: quotes, backslashes and control
/// characters are escaped, everything else stands for itself.
pub open spec fn escape_char(c: char) -> Seq<char> {
    let u = c as u32;
    if c == '"' {
        seq!['\\', '"']
    } else if c == '\\' {
        seq!['\\', '\\']
    } else if u == 0x08 {
        seq!['\\', 'b']
    } else if u == 0x09 {
        seq!['\\', 't']
    } else if u == 0x0a {
        seq!['\\', 'n']
    } else if u == 0x0c {
        seq!['\\', 'f']
    } else if u == 0x0d {
        seq!['\\', 'r']
    } else if u < 0x20 {
        seq!['\\', 'u', '0', '0', hex_char(u as int / 16), hex_char(u as int % 16)]
    } else {
        seq![c]
    }
}

/// The escaped form of a text, without the surrounding quotes.
pub open spec fn escape(s: Seq<char>) -> Seq<char>
    decreases s.len(),
{
    if s.len() == 0 {
        Seq::empty()
    } else {
        escape(s.drop_last()) + escape_char(s.last())
    }
}

/// A text as a JSON string literal.
pub open spec fn json_quoted(s: Seq<char>) -> Seq<char> {
    seq!['"'] + escape(s) + seq!['"']
}

/// `serde_json::to_string` on a string: always succeeds, with the string literal
/// that escapes the quote, the backslash and the characters below U+0020 and leaves
/// every other character as it is.
#[verifier::external_body]
fn to_json_string(s: &str) -> (res: Option<String>)
    ensures
        res is Some,
        res.unwrap()@ == json_quoted(s@),
{
    serde_json::to_string(s).ok()
}

/// `s` as a JSON string literal, which is also a JavaScript one.
pub fn serde_json_string(s: &str) -> (res: String)
    ensures
        res@ == json_quoted(s@),
{
    match to_json_string(s) {
        Some(t) => t,
        None => "\"\"".to_owned(),
    }
}

/// Whether a character is no control character.
pub open spec fn printable(c: char) -> bool {
    c as u32 >= 0x20
}

/// A string literal never holds a control character: it stays on one line.
pub proof fn law_quoted_text_has_no_control_characters(s: Seq<char>)
    ensures
        forall|i: int| 0 <= i < json_quoted(s).len() ==> printable(#[trigger] json_quoted(s)[i]),
{
    lemma_escape_printable(s);
}

proof fn lemma_escape_char_printable(c: char)
    ensures
        forall|i: int| 0 <= i < escape_char(c).len() ==> printable(#[trigger] escape_char(c)[i]),
{
    let u = c as u32 as int;
    if u < 0x20 {
        assert(0 <= u / 16 < 2 && 0 <= u % 16 < 16);
        assert(printable(hex_char(u / 16)));
        assert(printable(hex_char(u % 16)));
    }
}

proof fn lemma_escape_printable(s: Seq<char>)
    ensures
        forall|i: int| 0 <= i < escape(s).len() ==> printable(#[trigger] escape(s)[i]),
    decreases s.len(),
{
    if s.len() > 0 {
        lemma_escape_printable(s.drop_last());
        let c = s.last();
        lemma_escape_char_printable(c);
        let head = escape(s.drop_last());
        assert(escape(s) == head + escape_char(c));
        assert forall|i: int| 0 <= i < escape(s).len() implies printable(
            #[trigger] escape(s)[i],
        ) by {
            if i < head.len() {
                assert(escape(s)[i] == head[i]);
            } else {
                assert(escape(s)[i] == escape_char(c)[i - head.len()]);
            }
        }
    }
}

/// The text of a number.
pub open spec fn number_text(n: NumberView) -> Seq<char> {
    match n {
        NumberView::PosInt(i) => decimal(i),
        NumberView::NegInt(i) => signed_decimal(i),
        NumberView::Float(_, text) => text,
    }
}

/// The compact text of a value.
pub open spec fn json_text(v: JsonView) -> Seq<char>
    decreases v,
{
    match v {
        JsonView::Null => "null"@,
        JsonView::Bool(b) => if b {
            "true"@
        } else {
            "false"@
        },
        JsonView::Num(n) => number_text(n),
        JsonView::Str(s) => json_quoted(s),
        JsonView::Array(items) => "["@ + join(item_texts(items), ","@) + "]"@,
        JsonView::Object(members) => "{"@ + join(member_texts(members), ","@) + "}"@,
    }
}

/// The texts of the elements of an array.
pub open spec fn item_texts(items: Seq<JsonView>) -> Seq<Seq<char>>
    decreases items,
{
    if items.len() == 0 {
        Seq::empty()
    } else {
        item_texts(items.drop_last()).push(json_text(items[items.len() - 1]))
    }
}

/// The texts of the members of an object.
pub open spec fn member_texts(members: Seq<(Seq<char>, JsonView)>) -> Seq<Seq<char>>
    decreases members,
{
    if members.len() == 0 {
        Seq::empty()
    } else {
        let last = members[members.len() - 1];
        member_texts(members.drop_last()).push(json_quoted(last.0) + ":"@ + json_text(last.1))
    }
}

impl Number {
    /// The text of the number.
    pub fn to_text(&self) -> (res: String)
        ensures
            res@ == number_text(self@),
    {
        match self {
            Number::PosInt(n) => decimal_text(*n),
            Number::NegInt(n) => signed_decimal_text(*n),
            Number::Float { text, .. } => text.clone(),
        }
    }

    /// A copy of the number.
    pub fn copy(&self) -> (res: Number)
        ensures
            res@ == self@,
    {
        match self {
            Number::PosInt(n) => Number::PosInt(*n),
            Number::NegInt(n) => Number::NegInt(*n),
            Number::Float { bits, text } => Number::Float { bits: *bits, text: text.clone() },
        }
    }
}

impl Json {
    /// The compact text of the value. A float stands as the text it came with: a value of the
    /// parser's crate would have to be made from a floating-point number first.
    pub fn to_text(&self) -> (res: String)
        ensures
            res@ == json_text(self@),
        decreases self,
    {
        proof {
            lemma_array_view(*self);
        }
        match self {
            Json::Null => "null".to_owned(),
            Json::Bool(b) => if *b {
                "true".to_owned()
            } else {
                "false".to_owned()
            },
            Json::Num(n) => n.to_text(),
            Json::Str(s) => serde_json_string(s.as_str()),
            Json::Array(v) => {
                let mut parts: Vec<String> = Vec::new();
                for i in 0..v.len()
                    invariant
                        *self == Json::Array(*v),
                        texts(parts@) == item_texts(views(v@).take(i as int)),
                {
                    proof {
                        lemma_item_decreases(*self, i as int);
                    }
                    let t = v[i].to_text();
                    proof {
                        lemma_texts_push(parts@, t);
                        assert(views(v@).take(i + 1).drop_last() =~= views(v@).take(i as int));
                    }
                    parts.push(t);
                }
                assert(views(v@).take(v@.len() as int) =~= views(v@));
                let body = join_texts(&parts, ",");
                let mut out = "[".to_owned();
                out.append(body.as_str());
                out.append("]");
                out
            },
            Json::Object(v) => {
                let mut parts: Vec<String> = Vec::new();
                for i in 0..v.len()
                    invariant
                        *self == Json::Object(*v),
                        texts(parts@) == member_texts(member_views(v@).take(i as int)),
                {
                    proof {
                        lemma_member_decreases(*self, i as int);
                    }
                    let mut t = serde_json_string(v[i].0.as_str());
                    t.append(":");
                    let val = v[i].1.to_text();
                    t.append(val.as_str());
                    proof {
                        lemma_texts_push(parts@, t);
                        assert(member_views(v@).take(i + 1).drop_last() =~= member_views(v@).take(
                            i as int,
                        ));
                    }
                    parts.push(t);
                }
                assert(member_views(v@).take(v@.len() as int) =~= member_views(v@));
                let body = join_texts(&parts, ",");
                let mut out = "{".to_owned();
                out.append(body.as_str());
                out.append("}");
                out
            },
        }
    }

    /// A copy of the value.
    pub fn copy(&self) -> (res: Json)
        ensures
            res@ == self@,
        decreases self,
    {
        proof {
            lemma_array_view(*self);
        }
        match self {
            Json::Null => Json::Null,
            Json::Bool(b) => Json::Bool(*b),
            Json::Num(n) => Json::Num(n.copy()),
            Json::Str(s) => Json::Str(s.clone()),
            Json::Array(v) => {
                let out = copy_values(v);
                let res = Json::Array(out);
                proof {
                    lemma_array_view(res);
                }
                res
            },
            Json::Object(v) => {
                let mut out: Vec<(String, Json)> = Vec::new();
                for i in 0..v.len()
                    invariant
                        *self == Json::Object(*v),
                        member_views(out@) == member_views(v@).take(i as int),
                {
                    proof {
                        lemma_member_decreases(*self, i as int);
                    }
                    let ghost before = out@;
                    let item = (v[i].0.clone(), v[i].1.copy());
                    out.push(item);
                    assert(member_views(out@) =~= member_views(before).push((item.0@, item.1@)));
                    assert(member_views(v@).take(i + 1) =~= member_views(v@).take(i as int).push(
                        (item.0@, item.1@),
                    ));
                }
                assert(member_views(v@).take(v@.len() as int) =~= member_views(v@));
                let res = Json::Object(out);
                proof {
                    lemma_array_view(res);
                }
                res
            },
        }
    }
}

/// A copy of a list of values.
pub fn copy_values(v: &Vec<Json>) -> (res: Vec<Json>)
    ensures
        views(res@) == views(v@),
    decreases v,
{
    let mut out: Vec<Json> = Vec::new();
    for i in 0..v.len()
        invariant
            views(out@) == views(v@).take(i as int),
    {
        let ghost before = out@;
        let item = v[i].copy();
        out.push(item);
        assert(views(out@) =~= views(before).push(item@));
        assert(views(v@).take(i + 1) =~= views(v@).take(i as int).push(item@));
    }
    assert(views(v@).take(v@.len() as int) =~= views(v@));
    out
}

// -- writing for people ---------------------------------------------------------------------
/// The indented text of a value whose first line is already indented by `pad`: two spaces per
/// level, one element or member per line.
pub open spec fn pretty_text(v: JsonView, pad: Seq<char>) -> Seq<char>
    decreases v,
{
    match v {
        JsonView::Array(items) => if items.len() == 0 {
            "[]"@
        } else {
            "["@ + join(pretty_items(items, pad + "  "@), ","@) + "\n"@ + pad + "]"@
        },
        JsonView::Object(members) => if members.len() == 0 {
            "{}"@
        } else {
            "{"@ + join(pretty_members(members, pad + "  "@), ","@) + "\n"@ + pad + "}"@
        },
        _ => json_text(v),
    }
}

/// The elements of an array, each on a line of its own.
pub open spec fn pretty_items(items: Seq<JsonView>, pad: Seq<char>) -> Seq<Seq<char>>
    decreases items,
{
    if items.len() == 0 {
        Seq::empty()
    } else {
        pretty_items(items.drop_last(), pad).push(
            "\n"@ + pad + pretty_text(items[items.len() - 1], pad),
        )
    }
}

/// The members of an object, each on a line of its own.
pub open spec fn pretty_members(members: Seq<(Seq<char>, JsonView)>, pad: Seq<char>) -> Seq<
    Seq<char>,
>
    decreases members,
{
    if members.len() == 0 {
        Seq::empty()
    } else {
        let last = members[members.len() - 1];
        pretty_members(members.drop_last(), pad).push(
            "\n"@ + pad + json_quoted(last.0) + ": "@ + pretty_text(last.1, pad),
        )
    }
}

impl Json {
    /// The indented text of the value.
    pub fn to_pretty(&self) -> (res: String)
        ensures
            res@ == pretty_text(self@, Seq::empty()),
    {
        let none = String::new();
        assert(none@ =~= Seq::<char>::empty());
        self.pretty(none.as_str())
    }

    fn pretty(&self, pad: &str) -> (res: String)
        ensures
            res@ == pretty_text(self@, pad@),
        decreases self,
    {
        proof {
            lemma_array_view(*self);
        }
        let mut inner = pad.to_owned();
        inner.append("  ");
        match self {
            Json::Array(v) => {
                if v.len() == 0 {
                    return "[]".to_owned();
                }
                let mut parts: Vec<String> = Vec::new();
                for i in 0..v.len()
                    invariant
                        *self == Json::Array(*v),
                        inner@ == pad@ + "  "@,
                        texts(parts@) == pretty_items(views(v@).take(i as int), inner@),
                {
                    proof {
                        lemma_item_decreases(*self, i as int);
                    }
                    let mut t = "\n".to_owned();
                    t.append(inner.as_str());
                    let val = v[i].pretty(inner.as_str());
                    t.append(val.as_str());
                    proof {
                        lemma_texts_push(parts@, t);
                        assert(views(v@).take(i + 1).drop_last() =~= views(v@).take(i as int));
                    }
                    parts.push(t);
                }
                assert(views(v@).take(v@.len() as int) =~= views(v@));
                let body = join_texts(&parts, ",");
                let mut out = "[".to_owned();
                out.append(body.as_str());
                out.append("\n");
                out.append(pad);
                out.append("]");
                out
            },
            Json::Object(v) => {
                if v.len() == 0 {
                    return "{}".to_owned();
                }
                let mut parts: Vec<String> = Vec::new();
                for i in 0..v.len()
                    invariant
                        *self == Json::Object(*v),
                        inner@ == pad@ + "  "@,
                        texts(parts@) == pretty_members(
                            member_views(v@).take(i as int),
                            inner@,
                        ),
                {
                    proof {
                        lemma_member_decreases(*self, i as int);
                    }
                    let mut t = "\n".to_owned();
                    t.append(inner.as_str());
                    let key = serde_json_string(v[i].0.as_str());
                    t.append(key.as_str());
                    t.append(": ");
                    let val = v[i].1.pretty(inner.as_str());
                    t.append(val.as_str());
                    proof {
                        lemma_texts_push(parts@, t);
                        assert(member_views(v@).take(i + 1).drop_last() =~= member_views(v@).take(
                            i as int,
                        ));
                    }
                    parts.push(t);
                }
                assert(member_views(v@).take(v@.len() as int) =~= member_views(v@));
                let body = join_texts(&parts, ",");
                let mut out = "{".to_owned();
                out.append(body.as_str());
                out.append("\n");
                out.append(pad);
                out.append("}");
                out
            },
            _ => self.to_text(),
        }
    }
}

// -- reading text ---------------------------------------------------------------------------
/// A JSON document as the parser returns it.
#[verifier::external_type_specification]
#[verifier::external_body]
pub struct ExValue(serde_json::Value);

/// The value that a JSON document writes, or what the parser says is wrong with it.
pub uninterp spec fn parsed_json(text: Seq<char>) -> Result<JsonView, Seq<char>>;

/// The model of a parse.
pub open spec fn parse_view(r: Result<Json, String>) -> Result<JsonView, Seq<char>> {
    match r {
        Ok(j) => Ok(j@),
        Err(e) => Err(e@),
    }
}

/// The order of keys: by code points, a shorter key before its extensions.
pub open spec fn key_before(a: Seq<char>, b: Seq<char>) -> bool
    decreases a.len(),
{
    if b.len() == 0 {
        false
    } else if a.len() == 0 {
        true
    } else if a[0] != b[0] {
        a[0] < b[0]
    } else {
        key_before(a.drop_first(), b.drop_first())
    }
}

/// How deep a document may nest.
pub const MAX_NESTING: u64 = 127;

/// Whether a value is read back from its own text: its integers fit their kind, the texts of its
/// floats are numbers, it nests no deeper than `levels`, and the keys of its objects are in
/// order, the first of them not one that the parser keeps for itself.
pub open spec fn rereadable(v: JsonView, levels: int) -> bool
    decreases v,
{
    match v {
        JsonView::Null => true,
        JsonView::Bool(_) => true,
        JsonView::Str(_) => true,
        JsonView::Num(NumberView::PosInt(n)) => 0 <= n <= u64::MAX,
        JsonView::Num(NumberView::NegInt(n)) => i64::MIN <= n < 0,
        JsonView::Num(NumberView::Float(_, text)) => parsed_json(text) matches Ok(JsonView::Num(_)),
        JsonView::Array(items) => levels > 0 && (forall|i: int|
            0 <= i < items.len() ==> rereadable(#[trigger] items[i], levels - 1)),
        JsonView::Object(ms) => {
            &&& levels > 0
            &&& forall|i: int| 0 <= i < ms.len() ==> rereadable((#[trigger] ms[i]).1, levels - 1)
            &&& forall|i: int, j: int|
                0 <= i < j < ms.len() ==> key_before((#[trigger] ms[i]).0, (#[trigger] ms[j]).0)
            &&& ms.len() > 0 ==> ms[0].0 != "$serde_json::private::RawValue"@
        },
    }
}

/// What a value becomes when its text is read back: a float becomes the number that its own text
/// is read as, which may differ in the last place; everything else stays.
pub open spec fn reread(v: JsonView) -> JsonView
    decreases v,
{
    match v {
        JsonView::Num(NumberView::Float(_, text)) => match parsed_json(text) {
            Ok(JsonView::Num(n)) => JsonView::Num(n),
            _ => v,
        },
        JsonView::Array(items) => JsonView::Array(
            Seq::new(
                items.len(),
                |i: int|
                    if 0 <= i < items.len() {
                        reread(items[i])
                    } else {
                        JsonView::Null
                    },
            ),
        ),
        JsonView::Object(ms) => JsonView::Object(
            Seq::new(
                ms.len(),
                |i: int|
                    if 0 <= i < ms.len() {
                        (ms[i].0, reread(ms[i].1))
                    } else {
                        (Seq::<char>::empty(), JsonView::Null)
                    },
            ),
        ),
        _ => v,
    }
}

/// What a list of values becomes.
pub open spec fn reread_each(items: Seq<JsonView>) -> Seq<JsonView> {
    items.map_values(|v: JsonView| reread(v))
}

/// What the members of an object become.
pub open spec fn reread_members(ms: Seq<(Seq<char>, JsonView)>) -> Seq<(Seq<char>, JsonView)> {
    ms.map_values(|m: (Seq<char>, JsonView)| (m.0, reread(m.1)))
}

pub proof fn lemma_reread(v: JsonView)
    ensures
        v matches JsonView::Array(items) ==> reread(v) == JsonView::Array(reread_each(items)),
        v matches JsonView::Object(ms) ==> reread(v) == JsonView::Object(reread_members(ms)),
{
    match v {
        JsonView::Array(items) => {
            assert(reread(v)->Array_0 =~= reread_each(items));
        },
        JsonView::Object(ms) => {
            assert(reread(v)->Object_0 =~= reread_members(ms));
        },
        _ => {},
    }
}

proof fn lemma_reread_index(ms: Seq<(Seq<char>, JsonView)>, key: Seq<char>)
    ensures
        member_index(reread_members(ms), key) == member_index(ms, key),
        0 <= member_index(ms, key) <= ms.len(),
    decreases ms.len(),
{
    if ms.len() > 0 {
        lemma_reread_index(ms.drop_first(), key);
        assert(reread_members(ms).drop_first() =~= reread_members(ms.drop_first()));
    }
}

/// Reading a value back keeps its members under their keys, and its texts and truth values as
/// they are.
pub proof fn law_reading_back_keeps_members(v: JsonView, key: Seq<char>)
    ensures
        reread(v).get(key) == match v.get(key) {
            Some(m) => Some(reread(m)),
            None => None,
        },
        reread(v).str_at(key) == v.str_at(key),
        reread(v).bool_at(key) == v.bool_at(key),
{
    lemma_reread(v);
    match v {
        JsonView::Object(ms) => {
            lemma_reread_index(ms, key);
        },
        _ => {},
    }
}

/// Whether a value holds no float.
pub open spec fn float_free(v: JsonView) -> bool
    decreases v,
{
    match v {
        JsonView::Num(n) => !(n is Float),
        JsonView::Array(items) => forall|i: int|
            0 <= i < items.len() ==> float_free(#[trigger] items[i]),
        JsonView::Object(ms) => forall|i: int|
            0 <= i < ms.len() ==> float_free((#[trigger] ms[i]).1),
        _ => true,
    }
}

/// A value without floats is read back as it was.
pub proof fn law_value_without_floats_is_read_back(v: JsonView)
    requires
        float_free(v),
    ensures
        reread(v) == v,
    decreases v,
{
    lemma_reread(v);
    match v {
        JsonView::Array(items) => {
            assert forall|i: int| 0 <= i < items.len() implies reread(#[trigger] items[i])
                == items[i] by {
                law_value_without_floats_is_read_back(items[i]);
            }
            assert(reread_each(items) =~= items);
        },
        JsonView::Object(ms) => {
            assert forall|i: int| 0 <= i < ms.len() implies reread((#[trigger] ms[i]).1)
                == ms[i].1 by {
                law_value_without_floats_is_read_back(ms[i].1);
            }
            assert(reread_members(ms) =~= ms);
        },
        _ => {},
    }
}

/// A `serde_json::Value` as a value of this module, variant by variant: an integer where
/// `as_u64` or `as_i64` gives one, else a float with its bits and the text that the crate
/// prints for it; the members of an object in the order of the crate's map. Nothing is
/// claimed of it here: [`read_value`] makes the claim for what was parsed.
#[verifier::external_body]
fn from_value(v: serde_json::Value) -> (res: Json) {
    match v {
        Value::Null => Json::Null,
        Value::Bool(b) => Json::Bool(b),
        Value::String(s) => Json::Str(s),
        Value::Array(a) => Json::Array(a.into_iter().map(from_value).collect()),
        Value::Object(o) => Json::Object(o.into_iter().map(|m| (m.0, from_value(m.1))).collect()),
        Value::Number(n) => Json::Num(
            n.as_u64().map(Number::PosInt).or(n.as_i64().map(Number::NegInt)).unwrap_or_else(
                || Number::Float { bits: n.as_f64().map_or(0, |x| x.to_bits()), text: n.to_string() },
            ),
        ),
    }
}

/// `serde_json::from_str` into a `serde_json::Value`, named [`parsed_json`]: the value, or the
/// text of the crate's error. The compact text of a value is read back as [`reread`] says, within
/// the bounds of [`rereadable`]: a number in a document is read as it is alone (without the
/// feature that makes floats exact), and the crate's recursion limit is 128.
#[verifier::external_body]
fn read_value(text: &str) -> (res: Result<Json, String>)
    ensures
        parse_view(res) == parsed_json(text@),
        forall|v: JsonView|
            rereadable(v, MAX_NESTING as int) && text@ == #[trigger] json_text(v) ==> (res is Ok
                && res->Ok_0@ == reread(v)),
{
    serde_json::from_str(text).map(from_value).map_err(|e| e.to_string())
}

impl Json {
    /// Reads a JSON document. The text of a value is read back as that value, but for the last
    /// place of a float.
    pub fn parse(text: &str) -> (res: Result<Json, String>)
        ensures
            parse_view(res) == parsed_json(text@),
            forall|v: JsonView|
                rereadable(v, MAX_NESTING as int) && text@ == #[trigger] json_text(v) ==> (res is Ok
                    && res->Ok_0@ == reread(v)),
    {
        read_value(text)
    }
}

// -- laws ------------------------------------------------------------------------------
/// The member of an object under a key is the first of that name; without one there is none,
/// and nothing but an object has members.
pub proof fn law_member_is_first_of_its_name(
    members: Seq<(Seq<char>, JsonView)>,
    key: Seq<char>,
    i: int,
)
    requires
        0 <= i <= members.len(),
        forall|k: int| 0 <= k < i ==> (#[trigger] members[k]).0 != key,
        i < members.len() ==> members[i].0 == key,
    ensures
        JsonView::Object(members).get(key) == (if i < members.len() {
            Some(members[i].1)
        } else {
            None
        }),
        forall|v: JsonView| !(v is Object) ==> (#[trigger] v.get(key)) is None,
{
    lemma_member_index(members, key, i);
}

/// A typed member is there exactly when the member is there and of that type.
pub proof fn law_typed_members(v: JsonView, key: Seq<char>, s: Seq<char>, b: bool, a: Seq<JsonView>)
    ensures
        v.str_at(key) == Some(s) <==> v.get(key) == Some(JsonView::Str(s)),
        v.bool_at(key) == Some(b) <==> v.get(key) == Some(JsonView::Bool(b)),
        v.array_at(key) == Some(a) <==> v.get(key) == Some(JsonView::Array(a)),
        JsonView::Str(s).as_str() == Some(s),
        !(v is Str) ==> v.as_str() is None,
        JsonView::Bool(b).as_bool() == Some(b),
        !(v is Bool) ==> v.as_bool() is None,
        JsonView::Array(a).as_array() == Some(a),
        !(v is Array) ==> v.as_array() is None,
{
}

/// Equal values are of one kind. Truth values, integers and texts are equal when they are the
/// same; floats when their bits are, or when both are a zero.
pub proof fn law_equality_of_scalars(a: JsonView, b: JsonView)
    requires
        json_eq(a, b),
    ensures
        a is Null <==> b is Null,
        a is Bool || b is Bool ==> a == b,
        a is Str || b is Str ==> a == b,
        a is Num <==> b is Num,
        a is Array <==> b is Array,
        a is Object <==> b is Object,
        a is Num ==> match a->Num_0 {
            NumberView::PosInt(n) => b == JsonView::Num(NumberView::PosInt(n)),
            NumberView::NegInt(n) => b == JsonView::Num(NumberView::NegInt(n)),
            NumberView::Float(x, _) => b->Num_0 is Float && (b->Num_0->Float_0 == x || ((x == 0 || x
                == 0x8000_0000_0000_0000) && (b->Num_0->Float_0 == 0 || b->Num_0->Float_0
                == 0x8000_0000_0000_0000))),
        },
{
}

/// Lists are equal when they are equal in length and in every position; so are objects, whose
/// names stand in one order.
pub proof fn law_equality_of_parts(
    x: Seq<JsonView>,
    y: Seq<JsonView>,
    p: Seq<(Seq<char>, JsonView)>,
    q: Seq<(Seq<char>, JsonView)>,
)
    ensures
        json_eq(JsonView::Array(x), JsonView::Array(y)) <==> x.len() == y.len() && forall|i: int|
            0 <= i < x.len() ==> json_eq(#[trigger] x[i], y[i]),
        json_eq(JsonView::Object(p), JsonView::Object(q)) <==> p.len() == q.len() && forall|i: int|
            0 <= i < p.len() ==> (#[trigger] p[i]).0 == q[i].0 && json_eq(p[i].1, q[i].1),
{
}

/// What equals goes both ways.
pub proof fn law_equality_is_symmetric(a: JsonView, b: JsonView)
    ensures
        json_eq(a, b) == json_eq(b, a),
    decreases a,
{
    match (a, b) {
        (JsonView::Array(x), JsonView::Array(y)) => {
            if x.len() == y.len() {
                assert forall|i: int| 0 <= i < x.len() implies json_eq(#[trigger] x[i], y[i])
                    == json_eq(y[i], x[i]) by {
                    law_equality_is_symmetric(x[i], y[i]);
                }
                if json_eq(a, b) {
                    assert forall|i: int| 0 <= i < y.len() implies json_eq(#[trigger] y[i], x[i]) by {
                        assert(json_eq(x[i], y[i]));
                    }
                }
                if json_eq(b, a) {
                    assert forall|i: int| 0 <= i < x.len() implies json_eq(#[trigger] x[i], y[i]) by {
                        assert(json_eq(y[i], x[i]));
                    }
                }
            }
        },
        (JsonView::Object(x), JsonView::Object(y)) => {
            if x.len() == y.len() {
                assert forall|i: int| 0 <= i < x.len() implies json_eq((#[trigger] x[i]).1, y[i].1)
                    == json_eq(y[i].1, x[i].1) by {
                    law_equality_is_symmetric(x[i].1, y[i].1);
                }
                if json_eq(a, b) {
                    assert forall|i: int| 0 <= i < y.len() implies (#[trigger] y[i]).0 == x[i].0
                        && json_eq(y[i].1, x[i].1) by {
                        assert(x[i].0 == y[i].0);
                    }
                }
                if json_eq(b, a) {
                    assert forall|i: int| 0 <= i < x.len() implies (#[trigger] x[i]).0 == y[i].0
                        && json_eq(x[i].1, y[i].1) by {
                        assert(y[i].0 == x[i].0);
                    }
                }
            }
        },
        _ => {},
    }
}

/// Every character of a text is escaped for itself, in order; one that is no quote, backslash
/// or control character stands as it is, and the others stand behind a backslash.
pub proof fn law_escapes_stand_in_order(a: Seq<char>, b: Seq<char>, c: char)
    ensures
        json_quoted(a) == "\""@ + escape(a) + "\""@,
        escape(a + b) == escape(a) + escape(b),
        c as u32 >= 0x20 && c != '"' && c != '\\' ==> escape(seq![c]) == seq![c],
        c == '"' || c == '\\' ==> escape(seq![c]) == seq!['\\', c],
        (c as u32) < 0x20 ==> escape(seq![c]).len() >= 2 && escape(seq![c])[0] == '\\',
    decreases b.len(),
{
    reveal_strlit("\"");
    assert(json_quoted(a) =~= "\""@ + escape(a) + "\""@);
    assert(seq![c].drop_last() =~= Seq::<char>::empty());
    assert(escape(Seq::<char>::empty()) == Seq::<char>::empty());
    assert(escape(seq![c]) =~= escape_char(c));
    if b.len() == 0 {
        assert(a + b =~= a);
        assert(escape(a) + escape(b) =~= escape(a));
    } else {
        assert((a + b).drop_last() =~= a + b.drop_last());
        law_escapes_stand_in_order(a, b.drop_last(), c);
        assert(escape(a + b) =~= escape(a) + escape(b));
    }
}

proof fn lemma_item_texts(items: Seq<JsonView>)
    ensures
        item_texts(items).len() == items.len(),
        forall|i: int| 0 <= i < items.len() ==> #[trigger] item_texts(items)[i] == json_text(items[i]),
    decreases items.len(),
{
    if items.len() > 0 {
        lemma_item_texts(items.drop_last());
    }
}

proof fn lemma_member_texts(members: Seq<(Seq<char>, JsonView)>)
    ensures
        member_texts(members).len() == members.len(),
        forall|i: int|
            0 <= i < members.len() ==> #[trigger] member_texts(members)[i] == json_quoted(
                members[i].0,
            ) + ":"@ + json_text(members[i].1),
    decreases members.len(),
{
    if members.len() > 0 {
        lemma_member_texts(members.drop_last());
    }
}

/// The text of a list is that of its elements, in order, between brackets and with commas
/// between neighbours; so is that of an object, with each name before its value.
pub proof fn law_text_of_parts(items: Seq<JsonView>, members: Seq<(Seq<char>, JsonView)>)
    ensures
        json_text(JsonView::Array(items)) == "["@ + join(
            Seq::new(items.len(), |i: int| json_text(items[i])),
            ","@,
        ) + "]"@,
        json_text(JsonView::Object(members)) == "{"@ + join(
            Seq::new(
                members.len(),
                |i: int| json_quoted(members[i].0) + ":"@ + json_text(members[i].1),
            ),
            ","@,
        ) + "}"@,
{
    lemma_item_texts(items);
    lemma_member_texts(members);
    assert(item_texts(items) =~= Seq::new(items.len(), |i: int| json_text(items[i])));
    assert(member_texts(members) =~= Seq::new(
        members.len(),
        |i: int| json_quoted(members[i].0) + ":"@ + json_text(members[i].1),
    ));
}

/// The text of a value that has no parts: the JSON words, the decimal digits of an integer, the
/// text that a float came with, and a string literal.
pub proof fn law_text_of_scalars(n: int, bits: u64, s: Seq<char>)
    ensures
        json_text(JsonView::Null) == "null"@,
        json_text(JsonView::Bool(true)) == "true"@,
        json_text(JsonView::Bool(false)) == "false"@,
        json_text(JsonView::Num(NumberView::PosInt(n))) == decimal(n),
        json_text(JsonView::Num(NumberView::NegInt(n))) == signed_decimal(n),
        json_text(JsonView::Num(NumberView::Float(bits, s))) == s,
        json_text(JsonView::Str(s)) == json_quoted(s),
{
}

proof fn lemma_pretty_items(items: Seq<JsonView>, pad: Seq<char>)
    ensures
        pretty_items(items, pad).len() == items.len(),
        forall|i: int|
            0 <= i < items.len() ==> #[trigger] pretty_items(items, pad)[i] == "\n"@ + pad
                + pretty_text(items[i], pad),
    decreases items.len(),
{
    if items.len() > 0 {
        lemma_pretty_items(items.drop_last(), pad);
    }
}

proof fn lemma_pretty_members(members: Seq<(Seq<char>, JsonView)>, pad: Seq<char>)
    ensures
        pretty_members(members, pad).len() == members.len(),
        forall|i: int|
            0 <= i < members.len() ==> #[trigger] pretty_members(members, pad)[i] == "\n"@ + pad
                + json_quoted(members[i].0) + ": "@ + pretty_text(members[i].1, pad),
    decreases members.len(),
{
    if members.len() > 0 {
        lemma_pretty_members(members.drop_last(), pad);
    }
}

/// The text for people differs from the compact one in its lines alone: every element and every
/// member stands on its own, two spaces further in than the brackets around it.
pub proof fn law_pretty_text_of_parts(
    items: Seq<JsonView>,
    members: Seq<(Seq<char>, JsonView)>,
    v: JsonView,
    pad: Seq<char>,
)
    ensures
        !(v is Array) && !(v is Object) ==> pretty_text(v, pad) == json_text(v),
        items.len() > 0 ==> pretty_text(JsonView::Array(items), pad) == "["@ + join(
            Seq::new(
                items.len(),
                |i: int| "\n"@ + (pad + "  "@) + pretty_text(items[i], pad + "  "@),
            ),
            ","@,
        ) + "\n"@ + pad + "]"@,
        members.len() > 0 ==> pretty_text(JsonView::Object(members), pad) == "{"@ + join(
            Seq::new(
                members.len(),
                |i: int|
                    "\n"@ + (pad + "  "@) + json_quoted(members[i].0) + ": "@ + pretty_text(
                        members[i].1,
                        pad + "  "@,
                    ),
            ),
            ","@,
        ) + "\n"@ + pad + "}"@,
        pretty_text(JsonView::Array(Seq::empty()), pad) == "[]"@,
        pretty_text(JsonView::Object(Seq::empty()), pad) == "{}"@,
{
    let inner = pad + "  "@;
    lemma_pretty_items(items, inner);
    lemma_pretty_members(members, inner);
    assert(pretty_items(items, inner) =~= Seq::new(
        items.len(),
        |i: int| "\n"@ + (pad + "  "@) + pretty_text(items[i], pad + "  "@),
    ));
    assert(pretty_members(members, inner) =~= Seq::new(
        members.len(),
        |i: int|
            "\n"@ + (pad + "  "@) + json_quoted(members[i].0) + ": "@ + pretty_text(
                members[i].1,
                pad + "  "@,
            ),
    ));
}

/// The model of a value is the value: scalars as they are, lists element by element, objects
/// member by member, in order.
pub proof fn law_models_are_values(b: bool, n: Number, s: String, v: Vec<Json>, m: Vec<(String, Json)>)
    ensures
        Json::Null@ == JsonView::Null,
        Json::Bool(b)@ == JsonView::Bool(b),
        Json::Num(n)@ == JsonView::Num(n@),
        Json::Str(s)@ == JsonView::Str(s@),
        Json::Array(v)@ is Array,
        Json::Array(v)@->Array_0.len() == v@.len(),
        forall|i: int| 0 <= i < v@.len() ==> #[trigger] Json::Array(v)@->Array_0[i] == v@[i]@,
        Json::Object(m)@ is Object,
        Json::Object(m)@->Object_0.len() == m@.len(),
        forall|i: int|
            0 <= i < m@.len() ==> #[trigger] Json::Object(m)@->Object_0[i] == (m@[i].0@, m@[i].1@),
{
    lemma_array_view(Json::Array(v));
    lemma_array_view(Json::Object(m));
}

/// The models of numbers, of lists and of what may be missing.
pub proof fn law_models_of_parts(
    n: Number,
    v: Seq<Json>,
    m: Seq<(String, Json)>,
    j: &Json,
    r: Result<Json, String>,
    i: int,
)
    ensures
        n matches Number::PosInt(x) ==> n@ == NumberView::PosInt(x as int),
        n matches Number::NegInt(x) ==> n@ == NumberView::NegInt(x as int),
        n matches Number::Float { bits, text } ==> n@ == NumberView::Float(bits, text@),
        views(v).len() == v.len(),
        0 <= i < v.len() ==> views(v)[i] == v[i]@,
        member_views(m).len() == m.len(),
        0 <= i < m.len() ==> member_views(m)[i] == (m[i].0@, m[i].1@),
        opt_view(Some(j)) == Some(j@),
        opt_view(None) is None,
        r matches Ok(x) ==> parse_view(r) == Ok::<JsonView, Seq<char>>(x@),
        r matches Err(e) ==> parse_view(r) == Err::<JsonView, Seq<char>>(e@),
{
}

/// Floats are equal by their value, whatever text they came with; integers and texts are equal
/// exactly when they are the same.
pub proof fn law_equal_numbers(x: u64, y: u64, s: Seq<char>, t: Seq<char>, m: int, n: int)
    ensures
        json_eq(
            JsonView::Num(NumberView::Float(x, s)),
            JsonView::Num(NumberView::Float(y, t)),
        ) <==> x == y || ((x == 0 || x == 0x8000_0000_0000_0000) && (y == 0 || y
            == 0x8000_0000_0000_0000)),
        json_eq(JsonView::Num(NumberView::PosInt(m)), JsonView::Num(NumberView::PosInt(n))) <==> m
            == n,
        json_eq(JsonView::Num(NumberView::NegInt(m)), JsonView::Num(NumberView::NegInt(n))) <==> m
            == n,
        json_eq(JsonView::Str(s), JsonView::Str(t)) <==> s == t,
{
}

} // verus!
