//! JSON documents as plain trees.
//!
//! Text is parsed by `serde_json`; everything that reads a document reads the
//! [`Json`] tree built here.

use vstd::prelude::*;

use crate::text;
use crate::text::{owned, same};

verus! {

/// What a JSON document says, as a mathematical value.
pub enum JsonView {
    Null,
    Bool(bool),
    /// A number: how it is written, and its value where that is a `u64` or an
    /// `i64`.
    Number { text: Seq<char>, unsigned: Option<u64>, signed: Option<i64> },
    Text(Seq<char>),
    Array(Seq<JsonView>),
    /// The members in the order in which they are walked.
    Object(Seq<(Seq<char>, JsonView)>),
}

impl JsonView {
    /// The first member called `key`, if this is an object that has one.
    pub open spec fn get(self, key: Seq<char>) -> Option<JsonView> {
        match self {
            JsonView::Object(members) => member(members, key),
            _ => None,
        }
    }

    pub open spec fn as_text(self) -> Option<Seq<char>> {
        match self {
            JsonView::Text(s) => Some(s),
            _ => None,
        }
    }

    pub open spec fn as_bool(self) -> Option<bool> {
        match self {
            JsonView::Bool(b) => Some(b),
            _ => None,
        }
    }

    pub open spec fn as_u64(self) -> Option<u64> {
        match self {
            JsonView::Number { unsigned, .. } => unsigned,
            _ => None,
        }
    }

    pub open spec fn as_i64(self) -> Option<i64> {
        match self {
            JsonView::Number { signed, .. } => signed,
            _ => None,
        }
    }

    pub open spec fn text_at(self, key: Seq<char>) -> Option<Seq<char>> {
        match self.get(key) {
            Some(v) => v.as_text(),
            None => None,
        }
    }
}

/// The value of the first member called `key`.
pub open spec fn member(members: Seq<(Seq<char>, JsonView)>, key: Seq<char>) -> Option<JsonView>
    decreases members.len(),
{
    if members.len() == 0 {
        None
    } else if members[0].0 == key {
        Some(members[0].1)
    } else {
        member(members.drop_first(), key)
    }
}

/// A JSON document.
#[derive(Debug)]
pub enum Json {
    Null,
    Bool(bool),
    Number(JsonNumber),
    Text(String),
    Array(Vec<Json>),
    Object(Vec<JsonMember>),
}

/// A number, kept as `serde_json` writes it, with its value where that is a `u64`
/// or an `i64`.
#[derive(Debug)]
pub struct JsonNumber {
    pub text: String,
    pub unsigned: Option<u64>,
    pub signed: Option<i64>,
}

/// One member of an object.
#[derive(Debug)]
pub struct JsonMember {
    pub key: String,
    pub value: Json,
}

/// What a document says.
pub open spec fn says(j: Json) -> JsonView
    decreases j,
{
    match j {
        Json::Null => JsonView::Null,
        Json::Bool(b) => JsonView::Bool(b),
        Json::Number(n) => JsonView::Number {
            text: n.text@,
            unsigned: n.unsigned,
            signed: n.signed,
        },
        Json::Text(s) => JsonView::Text(s@),
        Json::Array(items) => JsonView::Array(
            Seq::new(
                items@.len(),
                |i: int|
                    if 0 <= i < items@.len() {
                        says(items@[i])
                    } else {
                        JsonView::Null
                    },
            ),
        ),
        Json::Object(members) => JsonView::Object(
            Seq::new(
                members@.len(),
                |i: int|
                    if 0 <= i < members@.len() {
                        (members@[i].key@, says(members@[i].value))
                    } else {
                        (Seq::empty(), JsonView::Null)
                    },
            ),
        ),
    }
}

/// What a document says, where there is one.
pub open spec fn opt(j: Option<Json>) -> Option<JsonView> {
    match j {
        Some(v) => Some(says(v)),
        None => None,
    }
}

impl View for Json {
    type V = JsonView;

    open spec fn view(&self) -> JsonView {
        says(*self)
    }
}

/// An array holds what its items say.
pub proof fn lemma_array(j: Json)
    requires
        j is Array,
    ensures
        j@ is Array,
        j@->Array_0.len() == j->Array_0@.len(),
        forall|i: int|
            0 <= i < j->Array_0@.len() ==> #[trigger] j@->Array_0[i] == j->Array_0@[i]@,
{
}

/// An object holds what its members say.
pub proof fn lemma_object(j: Json)
    requires
        j is Object,
    ensures
        j@ is Object,
        j@->Object_0.len() == j->Object_0@.len(),
        forall|i: int|
            0 <= i < j->Object_0@.len() ==> #[trigger] j@->Object_0[i] == (
                j->Object_0@[i].key@,
                j->Object_0@[i].value@,
            ),
{
}

/// `serde_json::Value`, a parsed document.
#[verifier::external_type_specification]
#[verifier::external_body]
pub struct ExValue(serde_json::Value);

/// What a parsed document holds.
pub uninterp spec fn holds(v: serde_json::Value) -> JsonView;

/// What `serde_json::from_str` makes of a text: the document, or what its error
/// says where the text is not one JSON value.
pub uninterp spec fn read(text: Seq<char>) -> Result<JsonView, Seq<char>>;

/// The document that a text spells, if it spells one.
pub open spec fn parsed(text: Seq<char>) -> Option<JsonView> {
    match read(text) {
        Ok(v) => Some(v),
        Err(_) => None,
    }
}

/// `serde_json::from_str::<serde_json::Value>`: the document that the text
/// spells, or the words of the error where it spells none.
#[verifier::external_body]
fn parse_value(text: &str) -> (r: Result<serde_json::Value, String>)
    ensures
        match r {
            Ok(v) => read(text@) == Ok::<JsonView, Seq<char>>(holds(v)),
            Err(e) => read(text@) == Err::<JsonView, Seq<char>>(e@),
        },
{
    serde_json::from_str::<serde_json::Value>(text).map_err(|e| e.to_string())
}

/// One level of a parsed document, its children still to be opened.
enum Opened<'a> {
    Null,
    Bool(bool),
    Number(JsonNumber),
    Text(&'a String),
    Array(&'a Vec<serde_json::Value>),
    Object(Vec<(&'a String, &'a serde_json::Value)>),
}

spec fn opens(v: JsonView, o: Opened) -> bool {
    match o {
        Opened::Null => v == JsonView::Null,
        Opened::Bool(b) => v == JsonView::Bool(b),
        Opened::Number(n) => v == (JsonView::Number {
            text: n.text@,
            unsigned: n.unsigned,
            signed: n.signed,
        }),
        Opened::Text(s) => v == JsonView::Text(s@),
        Opened::Array(items) => v matches JsonView::Array(vs) && vs.len() == items@.len() && (
        forall|i: int| 0 <= i < vs.len() ==> vs[i] == holds(#[trigger] items@[i])),
        Opened::Object(ms) => v matches JsonView::Object(vs) && vs.len() == ms@.len() && (
        forall|i: int|
            0 <= i < vs.len() ==> vs[i] == (((#[trigger] ms@[i]).0)@, holds(*ms@[i].1))),
    }
}

/// Takes a `serde_json::Value` apart by its variants, one level deep. A number
/// is kept as `Number::to_string` writes it and as `Number::as_u64` and
/// `Number::as_i64` read it; the members of an object come as `Map::iter` walks them.
#[verifier::external_body]
fn open_value<'a>(v: &'a serde_json::Value) -> (o: Opened<'a>)
    ensures
        opens(holds(*v), o),
{
    match v {
        serde_json::Value::Null => Opened::Null,
        serde_json::Value::Bool(b) => Opened::Bool(*b),
        serde_json::Value::Number(n) => Opened::Number(
            JsonNumber { text: n.to_string(), unsigned: n.as_u64(), signed: n.as_i64() },
        ),
        serde_json::Value::String(s) => Opened::Text(s),
        serde_json::Value::Array(items) => Opened::Array(items),
        serde_json::Value::Object(members) => Opened::Object(members.iter().collect()),
    }
}

/// The whole tree of a parsed document.
fn tree(v: &serde_json::Value) -> (j: Json)
    ensures
        j@ == holds(*v),
    decreases holds(*v),
{
    match open_value(v) {
        Opened::Null => Json::Null,
        Opened::Bool(b) => Json::Bool(b),
        Opened::Number(n) => Json::Number(n),
        Opened::Text(s) => Json::Text(s.clone()),
        Opened::Array(items) => {
            let mut out: Vec<Json> = Vec::new();
            let mut i: usize = 0;
            while i < items.len()
                invariant
                    opens(holds(*v), Opened::Array(items)),
                    i <= items@.len(),
                    out@.len() == i,
                    forall|k: int| 0 <= k < i ==> (#[trigger] out@[k])@ == holds(items@[k]),
                decreases items@.len() - i,
            {
                assert(holds(*v)->Array_0[i as int] == holds(items@[i as int]));
                out.push(tree(&items[i]));
                i += 1;
            }
            let j = Json::Array(out);
            assert(j@->Array_0 =~= holds(*v)->Array_0);
            j
        },
        Opened::Object(members) => {
            let mut out: Vec<JsonMember> = Vec::new();
            let mut i: usize = 0;
            while i < members.len()
                invariant
                    opens(holds(*v), Opened::Object(members)),
                    i <= members@.len(),
                    out@.len() == i,
                    forall|k: int|
                        0 <= k < i ==> (#[trigger] out@[k]).key@ == members@[k].0@ && out@[k].value@
                            == holds(*members@[k].1),
                decreases members@.len() - i,
            {
                let m = &members[i];
                let ghost pair = holds(*v)->Object_0[i as int];
                assert(pair == (m.0@, holds(*m.1)));
                assert(decreases_to!(holds(*v)->Object_0 => pair));
                assert(decreases_to!(pair => pair.1));
                out.push(JsonMember { key: m.0.clone(), value: tree(m.1) });
                i += 1;
            }
            let j = Json::Object(out);
            assert(j@->Object_0 =~= holds(*v)->Object_0);
            j
        },
    }
}

/// The document that a text spells, or nothing where it is not one JSON value.
pub fn parse(text: &str) -> (r: Option<Json>)
    ensures
        opt(r) == parsed(text@),
{
    match parse_value(text) {
        Ok(v) => Some(tree(&v)),
        Err(_) => None,
    }
}

/// What a document says, or why there is none.
pub open spec fn outcome(r: Result<Json, String>) -> Result<JsonView, Seq<char>> {
    match r {
        Ok(v) => Ok(says(v)),
        Err(e) => Err(e@),
    }
}

/// The document that a text spells, or why it spells none.
pub fn parse_or_why(text: &str) -> (r: Result<Json, String>)
    ensures
        outcome(r) == read(text@),
{
    match parse_value(text) {
        Ok(v) => Ok(tree(&v)),
        Err(e) => Err(e),
    }
}

impl Json {
    /// The first member called `key`, if this is an object that has one.
    pub fn get(&self, key: &str) -> (r: Option<&Json>)
        ensures
            r is Some <==> self@.get(key@) is Some,
            r matches Some(j) ==> self@.get(key@) == Some(j@),
    {
        match self {
            Json::Object(members) => {
                let ghost all = self@->Object_0;
                let mut i: usize = 0;
                proof {
                    lemma_object(*self);
                    assert(all.skip(0) =~= all);
                }
                while i < members.len()
                    invariant
                        self@ == JsonView::Object(all),
                        i <= members@.len() == all.len(),
                        forall|k: int|
                            0 <= k < members@.len() ==> #[trigger] all[k] == (
                                members@[k].key@,
                                members@[k].value@,
                            ),
                        member(all, key@) == member(all.skip(i as int), key@),
                    decreases members@.len() - i,
                {
                    assert(all[i as int] == (members@[i as int].key@, members@[i as int].value@));
                    assert(all.skip(i as int).drop_first() =~= all.skip(i as int + 1));
                    if same(&members[i].key, key) {
                        return Some(&members[i].value);
                    }
                    i += 1;
                }
                None
            },
            _ => None,
        }
    }

    /// The text that this is, if it is one.
    pub fn as_text(&self) -> (r: Option<&String>)
        ensures
            r is Some <==> self@.as_text() is Some,
            r matches Some(s) ==> self@.as_text() == Some(s@),
    {
        match self {
            Json::Text(s) => Some(s),
            _ => None,
        }
    }

    /// The truth value that this is, if it is one.
    pub fn as_bool(&self) -> (r: Option<bool>)
        ensures
            r == self@.as_bool(),
    {
        match self {
            Json::Bool(b) => Some(*b),
            _ => None,
        }
    }

    /// The signed number that this is, if it is one.
    pub fn as_i64(&self) -> (r: Option<i64>)
        ensures
            r == self@.as_i64(),
    {
        match self {
            Json::Number(n) => n.signed,
            _ => None,
        }
    }

    /// The unsigned number that this is, if it is one.
    pub fn as_u64(&self) -> (r: Option<u64>)
        ensures
            r == self@.as_u64(),
    {
        match self {
            Json::Number(n) => n.unsigned,
            _ => None,
        }
    }

    /// The text under `key`, if this is an object that has one there.
    pub fn text_at(&self, key: &str) -> (r: Option<&String>)
        ensures
            r is Some <==> self@.text_at(key@) is Some,
            r matches Some(s) ==> self@.text_at(key@) == Some(s@),
    {
        match self.get(key) {
            Some(v) => v.as_text(),
            None => None,
        }
    }
}

// ---- writing texts -------------------------------------------------------

/// How a character stands in a JSON string.
pub open spec fn escaped(c: char) -> Seq<char> {
    if c == '"' {
        seq!['\\', '"']
    } else if c == '\\' {
        seq!['\\', '\\']
    } else if c == '\x08' {
        seq!['\\', 'b']
    } else if c == '\x0c' {
        seq!['\\', 'f']
    } else if c == '\n' {
        seq!['\\', 'n']
    } else if c == '\r' {
        seq!['\\', 'r']
    } else if c == '\t' {
        seq!['\\', 't']
    } else if (c as int) < 0x20 {
        seq!['\\', 'u', '0', '0'] + text::hex(c as nat, 2)
    } else {
        seq![c]
    }
}

/// The inside of a JSON string.
pub open spec fn escaped_all(s: Seq<char>) -> Seq<char>
    decreases s.len(),
{
    if s.len() == 0 {
        Seq::empty()
    } else {
        escaped_all(s.drop_last()) + escaped(s.last())
    }
}

/// A text as a JSON string.
pub open spec fn spelled(s: Seq<char>) -> Seq<char> {
    seq!['"'] + escaped_all(s) + seq!['"']
}

/// `serde_json::to_string` of a text: the text in quotes, with the quotes, the
/// backslashes and the control characters in it escaped. Writing to memory does
/// not fail.
#[verifier::external_body]
fn write_text(text: &str) -> (r: Result<String, String>)
    ensures
        r is Ok,
        r->Ok_0@ == spelled(text@),
{
    serde_json::to_string(text).map_err(|e| e.to_string())
}

/// The text as a JSON string.
pub fn spell(text: &str) -> (r: String)
    ensures
        r@ == spelled(text@),
{
    match write_text(text) {
        Ok(s) => s,
        Err(_) => owned("\"\""),
    }
}

/// What is found under a key is the value of the first member with that name, and
/// nothing is found exactly where no member has it; only an object has members.
pub proof fn the_first_member_is_found(v: JsonView, key: Seq<char>)
    ensures
        !(v is Object) ==> v.get(key) is None && v.text_at(key) is None,
        v is Object ==> (v.get(key) is None <==> forall|i: int|
            0 <= i < v->Object_0.len() ==> (#[trigger] v->Object_0[i]).0 != key),
        v is Object && v.get(key) is Some ==> exists|i: int|
            0 <= i < v->Object_0.len() && (#[trigger] v->Object_0[i]).0 == key && v.get(key) == Some(
                v->Object_0[i].1,
            ) && forall|j: int| 0 <= j < i ==> (#[trigger] v->Object_0[j]).0 != key,
        v.text_at(key) is Some <==> v.get(key) is Some && v.get(key)->0 is Text,
        v.text_at(key) is Some ==> v.get(key)->0 == JsonView::Text(v.text_at(key)->0),
{
    if v is Object {
        lemma_member(v->Object_0, key);
    }
}

proof fn lemma_member(members: Seq<(Seq<char>, JsonView)>, key: Seq<char>)
    ensures
        member(members, key) is None <==> forall|i: int|
            0 <= i < members.len() ==> (#[trigger] members[i]).0 != key,
        member(members, key) is Some ==> exists|i: int|
            0 <= i < members.len() && (#[trigger] members[i]).0 == key && member(members, key)
                == Some(members[i].1) && forall|j: int|
                0 <= j < i ==> (#[trigger] members[j]).0 != key,
    decreases members.len(),
{
    if members.len() > 0 {
        let rest = members.drop_first();
        lemma_member(rest, key);
        assert(forall|i: int| 0 <= i < rest.len() ==> #[trigger] rest[i] == members[i + 1]);
        if members[0].0 != key {
            if member(rest, key) is Some {
                let i = choose|i: int|
                    0 <= i < rest.len() && (#[trigger] rest[i]).0 == key && member(rest, key)
                        == Some(rest[i].1) && forall|j: int|
                        0 <= j < i ==> (#[trigger] rest[j]).0 != key;
                assert(members[i + 1] == rest[i]);
                assert forall|j: int| 0 <= j < i + 1 implies (#[trigger] members[j]).0 != key by {
                    if j > 0 {
                        assert(rest[j - 1] == members[j]);
                    }
                }
            } else {
                assert forall|i: int| 0 <= i < members.len() implies (#[trigger] members[i]).0
                    != key by {
                    if i > 0 {
                        assert(rest[i - 1] == members[i]);
                    }
                }
            }
        }
    }
}

/// Each kind of value is read as its own kind and as no other.
pub proof fn a_value_is_read_as_its_own_kind(v: JsonView)
    ensures
        v.as_text() is Some <==> v is Text,
        v.as_bool() is Some <==> v is Bool,
        v.as_u64() is Some ==> v is Number,
        v.as_i64() is Some ==> v is Number,
        v matches JsonView::Number { unsigned, signed, .. } ==> v.as_u64() == unsigned
            && v.as_i64() == signed,
        v matches JsonView::Bool(b) ==> v.as_bool() == Some(b),
        v matches JsonView::Text(s) ==> v.as_text() == Some(s),
{
}

proof fn lemma_escaped_front(s: Seq<char>)
    requires
        s.len() > 0,
    ensures
        escaped_all(s) == escaped(s[0]) + escaped_all(s.drop_first()),
    decreases s.len(),
{
    let rest = s.drop_first();
    if s.len() == 1 {
        assert(s.drop_last() =~= Seq::<char>::empty());
        assert(rest =~= Seq::<char>::empty());
        assert(escaped_all(s) =~= escaped(s[0]) + escaped_all(rest));
    } else {
        let before = s.drop_last();
        lemma_escaped_front(before);
        assert(before.drop_first() =~= rest.drop_last());
        assert(rest.last() == s.last());
        assert(escaped_all(s) =~= escaped(s[0]) + escaped_all(rest));
    }
}

/// A text that is spelt stands between quotes on one line: no character of it is
/// a control character, whatever the text holds.
pub proof fn a_spelt_text_is_one_line(s: Seq<char>)
    ensures
        spelled(s).len() >= 2,
        spelled(s)[0] == '"',
        spelled(s).last() == '"',
        forall|k: int| 0 <= k < spelled(s).len() ==> #[trigger] spelled(s)[k] >= ' ',
{
    lemma_no_control(s);
    let inner = escaped_all(s);
    assert forall|k: int| 0 <= k < spelled(s).len() implies #[trigger] spelled(s)[k] >= ' ' by {
        if 0 < k < spelled(s).len() - 1 {
            assert(spelled(s)[k] == inner[k - 1]);
        }
    }
}

proof fn lemma_no_control(s: Seq<char>)
    ensures
        forall|k: int| 0 <= k < escaped_all(s).len() ==> #[trigger] escaped_all(s)[k] >= ' ',
    decreases s.len(),
{
    if s.len() > 0 {
        let before = s.drop_last();
        lemma_no_control(before);
        let c = s.last();
        text::a_hex_number_is_as_wide_as_asked_for(c as nat, 0, 2);
        assert forall|k: int| 0 <= k < escaped_all(s).len() implies #[trigger] escaped_all(s)[k]
            >= ' ' by {
            let at = k - escaped_all(before).len();
            if at >= 0 {
                assert(escaped_all(s)[k] == escaped(c)[at]);
                if (c as int) < 0x20 && escaped(c).len() == 6 && at >= 4 {
                    assert(escaped(c)[at] == text::hex(c as nat, 2)[at - 4]);
                }
            } else {
                assert(escaped_all(s)[k] == escaped_all(before)[k]);
            }
        }
    }
}

/// No two texts are spelt alike.
pub proof fn texts_are_spelt_apart(a: Seq<char>, b: Seq<char>)
    ensures
        spelled(a) == spelled(b) ==> a == b,
{
    if spelled(a) == spelled(b) {
        let x = escaped_all(a);
        let y = escaped_all(b);
        assert(x =~= spelled(a).subrange(1, spelled(a).len() - 1));
        assert(y =~= spelled(b).subrange(1, spelled(b).len() - 1));
        lemma_escaped_apart(a, b);
    }
}

proof fn lemma_escaped_some(c: char)
    ensures
        escaped(c).len() >= 1,
        escaped(c)[0] == '\\' <==> escaped(c).len() > 1,
        escaped(c).len() == 1 ==> escaped(c)[0] == c,
        escaped(c).len() == 1 || escaped(c).len() == 2 || escaped(c).len() == 6,
        escaped(c).len() == 6 <==> escaped(c).len() > 1 && escaped(c)[1] == 'u',
{
    text::a_hex_number_is_as_wide_as_asked_for(c as nat, 0, 2);
}

proof fn lemma_escaped_char(c: char, d: char)
    requires
        escaped(c) == escaped(d),
    ensures
        c == d,
{
    lemma_escaped_some(c);
    lemma_escaped_some(d);
    let p = escaped(c);
    let q = escaped(d);
    if p.len() == 2 {
        assert(p[1] == q[1]);
    } else if p.len() == 6 {
        let m = c as nat;
        let n = d as nat;
        text::a_hex_number_is_as_wide_as_asked_for(m, n, 2);
        text::a_hex_number_is_as_wide_as_asked_for(m / 16, n / 16, 1);
        text::a_hex_number_is_as_wide_as_asked_for(n, m, 2);
        assert(text::hex(m, 2) =~= p.skip(4));
        assert(text::hex(n, 2) =~= q.skip(4));
        assert(text::hex(m, 2).drop_last() =~= text::hex(m / 16, 1));
        assert(text::hex(n, 2).drop_last() =~= text::hex(n / 16, 1));
        assert(m < 32 && n < 32);
        assert(m / 16 < 2 && n / 16 < 2);
    }
}

proof fn lemma_escaped_apart(a: Seq<char>, b: Seq<char>)
    requires
        escaped_all(a) == escaped_all(b),
    ensures
        a == b,
    decreases a.len(),
{
    if a.len() > 0 {
        lemma_escaped_front(a);
        lemma_escaped_some(a[0]);
    }
    if b.len() > 0 {
        lemma_escaped_front(b);
        lemma_escaped_some(b[0]);
    }
    if a.len() > 0 && b.len() > 0 {
        let whole = escaped_all(a);
        let p = escaped(a[0]);
        let q = escaped(b[0]);
        assert(whole[0] == p[0] && whole[0] == q[0]);
        if p.len() > 1 {
            assert(whole[1] == p[1]);
            assert(whole[1] == q[1]);
        }
        assert(p.len() == q.len());
        assert(p =~= whole.take(p.len() as int));
        assert(q =~= whole.take(q.len() as int));
        lemma_escaped_char(a[0], b[0]);
        assert(escaped_all(a.drop_first()) =~= whole.skip(p.len() as int));
        assert(escaped_all(b.drop_first()) =~= whole.skip(q.len() as int));
        lemma_escaped_apart(a.drop_first(), b.drop_first());
        assert(a =~= seq![a[0]] + a.drop_first());
        assert(b =~= seq![b[0]] + b.drop_first());
    } else {
        assert(a =~= b);
    }
}

/// A document says what it holds: each value as its own kind, the items of a list
/// and the members of an object one for one.
pub proof fn a_document_says_what_it_holds(j: Json, i: int)
    ensures
        j is Null ==> j@ == JsonView::Null,
        j is Bool ==> j@ == JsonView::Bool(j->Bool_0),
        j is Text ==> j@ == JsonView::Text(j->Text_0@),
        j is Number ==> j@.as_u64() == j->Number_0.unsigned && j@.as_i64() == j->Number_0.signed,
        j is Array ==> j@ is Array && j@->Array_0.len() == j->Array_0@.len(),
        j is Array && 0 <= i < j->Array_0@.len() ==> j@->Array_0[i] == j->Array_0@[i]@,
        j is Object ==> j@ is Object && j@->Object_0.len() == j->Object_0@.len(),
        j is Object && 0 <= i < j->Object_0@.len() ==> j@->Object_0[i] == (
            j->Object_0@[i].key@,
            j->Object_0@[i].value@,
        ),
{
    if j is Array {
        lemma_array(j);
    }
    if j is Object {
        lemma_object(j);
    }
}

/// A text is a document exactly where it could be read, and then the one read.
pub proof fn only_what_was_read_is_a_document(text: Seq<char>, r: Result<Json, String>)
    ensures
        parsed(text) is Some <==> read(text) is Ok,
        parsed(text) is Some ==> parsed(text)->0 == read(text)->Ok_0,
        outcome(r) is Ok <==> r is Ok,
        r is Ok ==> outcome(r)->Ok_0 == r->Ok_0@,
        r is Err ==> outcome(r)->Err_0 == r->Err_0@,
{
}

} // verus!
