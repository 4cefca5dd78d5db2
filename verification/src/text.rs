//! Text: the small operations on characters that the decisions are made of.
//!
//! A text is modelled as the sequence of its characters. Each operation is
//! first said as a spec function on such sequences and then computed.

use vstd::prelude::*;

verus! {

/// `String::push` appends one character.
pub assume_specification[ String::push ](target: &mut String, ch: char)
    ensures
        final(target)@ == old(target)@.push(ch),
;

/// `String::push_str` appends the characters of a slice.
pub assume_specification[ String::push_str ](target: &mut String, other: &str)
    ensures
        final(target)@ == old(target)@ + other@,
;

/// `==` on `str` compares the characters.
pub assume_specification[ <str as PartialEq>::eq ](left: &str, right: &str) -> (r: bool)
    ensures
        r == (left@ == right@),
;

/// What `str::to_lowercase` makes of a text.
pub uninterp spec fn lowercase(text: Seq<char>) -> Seq<char>;

/// `str::to_lowercase`: the Unicode lower case of a text, which is a function of
/// the text alone.
#[verifier::external_body]
pub(crate) fn to_lowercase(text: &str) -> (r: String)
    ensures
        r@ == lowercase(text@),
{
    text.to_lowercase()
}

// ---- owned texts ---------------------------------------------------------

/// The characters of each text of a list.
pub open spec fn texts(list: Seq<String>) -> Seq<Seq<char>> {
    list.map_values(|t: String| t@)
}

/// The characters of an optional text.
pub open spec fn opt(text: Option<String>) -> Option<Seq<char>> {
    match text {
        Some(t) => Some(t@),
        None => None,
    }
}

/// The characters of an optional slice.
pub open spec fn opt_str(text: Option<&str>) -> Option<Seq<char>> {
    match text {
        Some(t) => Some(t@),
        None => None,
    }
}

/// Whether two slices spell the same text.
pub fn same_str(a: &str, b: &str) -> (r: bool)
    ensures
        r == (a@ == b@),
{
    *a == *b
}

/// Whether an owned text spells a given slice.
pub fn same(a: &String, b: &str) -> (r: bool)
    ensures
        r == (a@ == b@),
{
    same_str(a.as_str(), b)
}

/// An owned copy of a slice.
pub fn owned(text: &str) -> (r: String)
    ensures
        r@ == text@,
{
    text.to_owned()
}

/// An owned copy of an optional slice.
pub fn owned_opt(text: Option<&str>) -> (r: Option<String>)
    ensures
        opt(r) == opt_str(text),
{
    match text {
        Some(t) => Some(owned(t)),
        None => None,
    }
}

/// A copy of an optional text.
pub fn copy_opt(text: &Option<String>) -> (r: Option<String>)
    ensures
        opt(r) == opt(*text),
{
    match text {
        Some(t) => Some(t.clone()),
        None => None,
    }
}

/// A copy of a list of texts.
pub fn copy_texts(list: &Vec<String>) -> (r: Vec<String>)
    ensures
        texts(r@) == texts(list@),
{
    let mut out: Vec<String> = Vec::new();
    let mut i: usize = 0;
    while i < list.len()
        invariant
            i <= list@.len(),
            texts(out@) == texts(list@).take(i as int),
        decreases list@.len() - i,
    {
        let ghost before = texts(out@);
        out.push(list[i].clone());
        assert(texts(out@) =~= before.push(list@[i as int]@));
        assert(texts(out@) =~= texts(list@).take(i as int + 1));
        i += 1;
    }
    assert(texts(out@) =~= texts(list@));
    out
}

/// Whether a list of texts holds a given text.
pub fn lists(list: &Vec<String>, text: &str) -> (r: bool)
    ensures
        r == texts(list@).contains(text@),
{
    let mut i: usize = 0;
    while i < list.len()
        invariant
            i <= list@.len(),
            forall|k: int| 0 <= k < i ==> (#[trigger] list@[k])@ != text@,
        decreases list@.len() - i,
    {
        if same(&list[i], text) {
            assert(texts(list@)[i as int] == text@);
            return true;
        }
        i += 1;
    }
    assert forall|k: int| 0 <= k < texts(list@).len() implies texts(list@)[k] != text@ by {
        assert(list@[k]@ != text@);
    }
    false
}

/// The characters of a slice, one by one.
pub fn to_chars(text: &str) -> (r: Vec<char>)
    ensures
        r@ == text@,
{
    let mut out: Vec<char> = Vec::new();
    for c in it: text.chars()
        invariant
            out@ == it.seq().take(it.index()),
            it.seq() == text@,
    {
        out.push(c);
    }
    out
}

/// The text of the characters `from .. to` of a list.
pub fn slice_text(chars: &Vec<char>, from: usize, to: usize) -> (r: String)
    requires
        from <= to <= chars@.len(),
    ensures
        r@ == chars@.subrange(from as int, to as int),
{
    let mut out = String::new();
    let mut i: usize = from;
    while i < to
        invariant
            from <= i <= to <= chars@.len(),
            out@ == chars@.subrange(from as int, i as int),
        decreases to - i,
    {
        out.push(chars[i]);
        i += 1;
    }
    out
}

// ---- white space ---------------------------------------------------------

/// The characters with the Unicode property `White_Space`.
pub open spec fn is_white(c: char) -> bool {
    let n = c as u32;
    ||| 0x9 <= n <= 0xd
    ||| n == 0x20
    ||| n == 0x85
    ||| n == 0xa0
    ||| n == 0x1680
    ||| 0x2000 <= n <= 0x200a
    ||| n == 0x2028
    ||| n == 0x2029
    ||| n == 0x202f
    ||| n == 0x205f
    ||| n == 0x3000
}

/// Whether a character is white space.
pub fn white(c: char) -> (r: bool)
    ensures
        r == is_white(c),
{
    let n: u32 = c as u32;
    (0x9 <= n && n <= 0xd) || n == 0x20 || n == 0x85 || n == 0xa0 || n == 0x1680 || (0x2000 <= n
        && n <= 0x200a) || n == 0x2028 || n == 0x2029 || n == 0x202f || n == 0x205f || n == 0x3000
}

/// A text without the white space it starts with.
pub open spec fn trim_start(s: Seq<char>) -> Seq<char>
    decreases s.len(),
{
    if s.len() > 0 && is_white(s[0]) {
        trim_start(s.drop_first())
    } else {
        s
    }
}

/// A text without the white space it ends with.
pub open spec fn trim_end(s: Seq<char>) -> Seq<char>
    decreases s.len(),
{
    if s.len() > 0 && is_white(s.last()) {
        trim_end(s.drop_last())
    } else {
        s
    }
}

/// A text without the white space at either end.
pub open spec fn trim(s: Seq<char>) -> Seq<char> {
    trim_end(trim_start(s))
}

/// How many characters of white space the list starts with.
fn leading_white(chars: &Vec<char>) -> (k: usize)
    ensures
        k <= chars@.len(),
        trim_start(chars@) == chars@.skip(k as int),
{
    let mut k: usize = 0;
    assert(chars@.skip(0) =~= chars@);
    while k < chars.len() && white(chars[k])
        invariant
            k <= chars@.len(),
            trim_start(chars@) == trim_start(chars@.skip(k as int)),
        decreases chars@.len() - k,
    {
        assert(chars@.skip(k as int).drop_first() =~= chars@.skip(k as int + 1));
        k += 1;
    }
    k
}

/// Where the white space that the list ends with begins.
fn trailing_white(chars: &Vec<char>) -> (k: usize)
    ensures
        k <= chars@.len(),
        trim_end(chars@) == chars@.take(k as int),
{
    let mut k: usize = chars.len();
    assert(chars@.take(k as int) =~= chars@);
    while k > 0 && white(chars[k - 1])
        invariant
            k <= chars@.len(),
            trim_end(chars@) == trim_end(chars@.take(k as int)),
        decreases k,
    {
        assert(chars@.take(k as int).drop_last() =~= chars@.take(k as int - 1));
        k -= 1;
    }
    k
}

/// `text` without the white space it ends with.
pub fn trimmed_end(text: &str) -> (r: String)
    ensures
        r@ == trim_end(text@),
{
    let chars = to_chars(text);
    let k = trailing_white(&chars);
    assert(chars@.subrange(0, k as int) =~= chars@.take(k as int));
    slice_text(&chars, 0, k)
}

/// `text` without the white space it starts with.
pub fn trimmed_start(text: &str) -> (r: String)
    ensures
        r@ == trim_start(text@),
{
    let chars = to_chars(text);
    let k = leading_white(&chars);
    assert(chars@.subrange(k as int, chars@.len() as int) =~= chars@.skip(k as int));
    slice_text(&chars, k, chars.len())
}

/// `text` without the white space at either end.
pub fn trimmed(text: &str) -> (r: String)
    ensures
        r@ == trim(text@),
{
    let front = trimmed_start(text);
    trimmed_end(front.as_str())
}

/// Whether `text` holds nothing but white space.
pub fn blank(text: &str) -> (r: bool)
    ensures
        r == (trim(text@).len() == 0),
{
    trimmed(text).as_str().is_empty()
}

/// The characters up to the first white space.
pub open spec fn until_white(s: Seq<char>) -> Seq<char>
    decreases s.len(),
{
    if s.len() == 0 || is_white(s[0]) {
        Seq::empty()
    } else {
        seq![s[0]] + until_white(s.drop_first())
    }
}

/// The first word of a text: empty where the text is blank.
pub open spec fn first_word(s: Seq<char>) -> Seq<char> {
    until_white(trim_start(s))
}

/// The first word of `text`.
pub fn leading_word(text: &str) -> (r: String)
    ensures
        r@ == first_word(text@),
{
    let front = trimmed_start(text);
    let chars = to_chars(front.as_str());
    let mut out = String::new();
    let mut i: usize = 0;
    assert(chars@.skip(0) =~= chars@);
    assert(Seq::<char>::empty() + until_white(chars@) =~= until_white(chars@));
    while i < chars.len() && !white(chars[i])
        invariant
            i <= chars@.len(),
            until_white(chars@) == out@ + until_white(chars@.skip(i as int)),
        decreases chars@.len() - i,
    {
        let ghost rest = chars@.skip(i as int);
        assert(rest.drop_first() =~= chars@.skip(i as int + 1));
        assert(out@ + (seq![rest[0]] + until_white(rest.drop_first())) =~= out@.push(rest[0])
            + until_white(rest.drop_first()));
        out.push(chars[i]);
        i += 1;
    }
    assert(until_white(chars@.skip(i as int)) =~= Seq::<char>::empty());
    out
}

// ---- letter case ---------------------------------------------------------

/// The ASCII lower case of a character.
pub open spec fn lower_char(c: char) -> char {
    if 'A' <= c <= 'Z' {
        (c as u32 + 32) as char
    } else {
        c
    }
}

/// A text with its ASCII capitals made small.
pub open spec fn ascii_lower(s: Seq<char>) -> Seq<char> {
    s.map_values(|c: char| lower_char(c))
}

fn small(c: char) -> (r: char)
    ensures
        r == lower_char(c),
{
    if 'A' <= c && c <= 'Z' {
        let n: u8 = c as u8;
        (n + 32) as char
    } else {
        c
    }
}

/// `text` with its ASCII capitals made small.
pub fn lowered(text: &str) -> (r: String)
    ensures
        r@ == ascii_lower(text@),
{
    let chars = to_chars(text);
    let mut out = String::new();
    let mut i: usize = 0;
    while i < chars.len()
        invariant
            i <= chars@.len(),
            out@ == ascii_lower(chars@).take(i as int),
        decreases chars@.len() - i,
    {
        out.push(small(chars[i]));
        assert(out@ =~= ascii_lower(chars@).take(i as int + 1));
        i += 1;
    }
    assert(out@ =~= ascii_lower(chars@));
    out
}

/// The ASCII upper case of a character.
pub open spec fn upper_char(c: char) -> char {
    if 'a' <= c <= 'z' {
        (c as u32 - 32) as char
    } else {
        c
    }
}

/// A text with its small ASCII letters made capitals.
pub open spec fn ascii_upper(s: Seq<char>) -> Seq<char> {
    s.map_values(|c: char| upper_char(c))
}

fn capital(c: char) -> (r: char)
    ensures
        r == upper_char(c),
{
    if 'a' <= c && c <= 'z' {
        let n: u8 = c as u8;
        (n - 32) as char
    } else {
        c
    }
}

/// `text` with its small ASCII letters made capitals.
pub fn raised(text: &str) -> (r: String)
    ensures
        r@ == ascii_upper(text@),
{
    let chars = to_chars(text);
    let mut out = String::new();
    let mut i: usize = 0;
    while i < chars.len()
        invariant
            i <= chars@.len(),
            out@ == ascii_upper(chars@).take(i as int),
        decreases chars@.len() - i,
    {
        out.push(capital(chars[i]));
        assert(out@ =~= ascii_upper(chars@).take(i as int + 1));
        i += 1;
    }
    assert(out@ =~= ascii_upper(chars@));
    out
}

// ---- searching -----------------------------------------------------------

/// `part` stands in `s` from position `i` on.
pub open spec fn stands_at(s: Seq<char>, part: Seq<char>, i: int) -> bool {
    0 <= i && i + part.len() <= s.len() && s.subrange(i, i + part.len() as int) == part
}

/// `part` stands somewhere in `s`.
pub open spec fn holds_text(s: Seq<char>, part: Seq<char>) -> bool {
    exists|i: int| stands_at(s, part, i)
}

/// Whether `part` stands in `chars` from position `at` on.
pub fn is_at(chars: &Vec<char>, part: &Vec<char>, at: usize) -> (r: bool)
    ensures
        r == stands_at(chars@, part@, at as int),
{
    if at > chars.len() || chars.len() - at < part.len() {
        return false;
    }
    let total = chars.len();
    let mut k: usize = 0;
    while k < part.len()
        invariant
            k <= part@.len(),
            total == chars@.len(),
            at + part@.len() <= total,
            forall|j: int| 0 <= j < k ==> chars@[at + j] == part@[j],
        decreases part@.len() - k,
    {
        if chars[at + k] != part[k] {
            assert(chars@.subrange(at as int, at + part@.len() as int)[k as int] != part@[k as int]);
            return false;
        }
        k += 1;
    }
    assert(chars@.subrange(at as int, at + part@.len() as int) =~= part@);
    true
}

/// Whether `part` stands somewhere in `text`.
pub fn holds_part(text: &str, part: &str) -> (r: bool)
    ensures
        r == holds_text(text@, part@),
{
    let chars = to_chars(text);
    let wanted = to_chars(part);
    let mut i: usize = 0;
    while i <= chars.len()
        invariant
            i <= chars@.len() + 1,
            chars@ == text@,
            wanted@ == part@,
            forall|k: int| 0 <= k < i ==> !stands_at(chars@, wanted@, k),
        decreases chars@.len() + 1 - i,
    {
        if is_at(&chars, &wanted, i) {
            return true;
        }
        if i == chars.len() {
            assert forall|k: int| !stands_at(chars@, wanted@, k) by {}
            return false;
        }
        i += 1;
    }
    false
}

/// Whether `text` starts with `part`.
pub fn starts(text: &str, part: &str) -> (r: bool)
    ensures
        r == stands_at(text@, part@, 0),
{
    let chars = to_chars(text);
    let wanted = to_chars(part);
    is_at(&chars, &wanted, 0)
}

/// A text between two others.
pub open spec fn around(before: Seq<char>, middle: Seq<char>, after: Seq<char>) -> Seq<char> {
    before + middle + after
}

/// The text between two others.
pub fn put_around(before: &str, middle: &str, after: &str) -> (r: String)
    ensures
        r@ == around(before@, middle@, after@),
{
    let mut r = owned(before);
    r.push_str(middle);
    r.push_str(after);
    r
}

// ---- order ---------------------------------------------------------------

/// Dictionary order by code points, the order in which texts are sorted.
pub open spec fn precedes(a: Seq<char>, b: Seq<char>) -> bool
    decreases a.len(),
{
    if b.len() == 0 {
        false
    } else if a.len() == 0 {
        true
    } else if a[0] == b[0] {
        precedes(a.drop_first(), b.drop_first())
    } else {
        a[0] < b[0]
    }
}

/// No text precedes itself.
pub proof fn lemma_precedes_irreflexive(a: Seq<char>)
    ensures
        !precedes(a, a),
    decreases a.len(),
{
    if a.len() > 0 {
        lemma_precedes_irreflexive(a.drop_first());
    }
}

/// Of two different texts one precedes the other.
pub proof fn lemma_precedes_total(a: Seq<char>, b: Seq<char>)
    ensures
        a == b || precedes(a, b) || precedes(b, a),
    decreases a.len(),
{
    if a.len() == 0 || b.len() == 0 {
        if a.len() == 0 && b.len() == 0 {
            assert(a =~= b);
        }
    } else if a[0] == b[0] {
        lemma_precedes_total(a.drop_first(), b.drop_first());
        if a.drop_first() == b.drop_first() {
            assert(a =~= seq![a[0]] + a.drop_first());
            assert(b =~= seq![b[0]] + b.drop_first());
        }
    }
}

/// The order of texts is transitive.
pub proof fn lemma_precedes_transitive(a: Seq<char>, b: Seq<char>, c: Seq<char>)
    requires
        precedes(a, b),
        precedes(b, c),
    ensures
        precedes(a, c),
    decreases a.len(),
{
    if a.len() > 0 && a[0] == b[0] && b[0] == c[0] {
        lemma_precedes_transitive(a.drop_first(), b.drop_first(), c.drop_first());
    }
}

/// Two texts do not precede each other.
pub proof fn lemma_precedes_antisymmetric(a: Seq<char>, b: Seq<char>)
    requires
        precedes(a, b),
    ensures
        !precedes(b, a),
        a != b,
{
    if precedes(b, a) {
        lemma_precedes_transitive(a, b, a);
    }
    lemma_precedes_irreflexive(a);
}

/// Whether `a` precedes `b`.
pub fn is_before(a: &str, b: &str) -> (r: bool)
    ensures
        r == precedes(a@, b@),
{
    let x = to_chars(a);
    let y = to_chars(b);
    let mut i: usize = 0;
    assert(x@.skip(0) =~= x@);
    assert(y@.skip(0) =~= y@);
    while i < x.len() && i < y.len()
        invariant
            i <= x@.len(),
            i <= y@.len(),
            x@ == a@,
            y@ == b@,
            precedes(x@, y@) == precedes(x@.skip(i as int), y@.skip(i as int)),
        decreases x@.len() - i,
    {
        if x[i] != y[i] {
            return x[i] < y[i];
        }
        assert(x@.skip(i as int).drop_first() =~= x@.skip(i as int + 1));
        assert(y@.skip(i as int).drop_first() =~= y@.skip(i as int + 1));
        i += 1;
    }
    i < y.len()
}

// ---- lines ---------------------------------------------------------------

/// Where the first line feed of a text stands; its length where it has none.
pub open spec fn line_end(s: Seq<char>) -> int
    decreases s.len(),
{
    if s.len() == 0 || s[0] == '\n' {
        0
    } else {
        1 + line_end(s.drop_first())
    }
}

/// A line without the carriage return it may end with.
pub open spec fn strip_return(s: Seq<char>) -> Seq<char> {
    if s.len() > 0 && s.last() == '\r' {
        s.drop_last()
    } else {
        s
    }
}

/// The lines of a text. A line ends with a line feed, or with a carriage return
/// and a line feed; the last one may lack both.
pub open spec fn lines(s: Seq<char>) -> Seq<Seq<char>>
    decreases s.len(),
    via lines_decreases
{
    if s.len() == 0 {
        Seq::empty()
    } else if line_end(s) >= s.len() {
        seq![s]
    } else {
        seq![strip_return(s.take(line_end(s)))] + lines(s.skip(line_end(s) + 1))
    }
}

#[via_fn]
proof fn lines_decreases(s: Seq<char>) {
    lemma_line_end(s);
}

proof fn lemma_line_end(s: Seq<char>)
    ensures
        0 <= line_end(s) <= s.len(),
        forall|i: int| 0 <= i < line_end(s) ==> s[i] != '\n',
        line_end(s) < s.len() ==> s[line_end(s)] == '\n',
    decreases s.len(),
{
    if s.len() > 0 && s[0] != '\n' {
        lemma_line_end(s.drop_first());
        assert forall|i: int| 0 <= i < line_end(s) implies s[i] != '\n' by {
            if i > 0 {
                assert(s.drop_first()[i - 1] != '\n');
            }
        }
    }
}

proof fn lemma_line_end_is(s: Seq<char>, k: int)
    requires
        0 <= k <= s.len(),
        forall|i: int| 0 <= i < k ==> s[i] != '\n',
        k < s.len() ==> s[k] == '\n',
    ensures
        line_end(s) == k,
{
    lemma_line_end(s);
    if line_end(s) < k {
        assert(s[line_end(s)] != '\n');
    }
    if k < line_end(s) {
        assert(s[k] != '\n');
    }
}

/// A text ends where a line ends, or is empty.
pub open spec fn ends_a_line(s: Seq<char>) -> bool {
    s.len() == 0 || s.last() == '\n'
}

/// A line put behind whole lines is one more line.
pub proof fn lemma_line_is_added(s: Seq<char>, line: Seq<char>)
    requires
        ends_a_line(s),
        !line.contains('\n'),
        line.len() > 0 ==> line.last() != '\r',
    ensures
        lines(s + line + "\n"@) == lines(s).push(line),
        ends_a_line(s + line + "\n"@),
    decreases s.len(),
{
    reveal_strlit("\n");
    let whole = s + line + "\n"@;
    let end = line + "\n"@;
    assert(whole =~= s + end);
    assert forall|i: int| 0 <= i < line.len() implies line[i] != '\n' by {
        assert(line.contains(line[i]));
    }
    if s.len() == 0 {
        assert(whole =~= end);
        lemma_line_end_is(whole, line.len() as int);
        assert(whole.take(line.len() as int) =~= line);
        assert(whole.skip(line.len() as int + 1) =~= Seq::<char>::empty());
        assert(lines(whole.skip(line.len() as int + 1)) =~= Seq::<Seq<char>>::empty());
        assert(lines(whole) =~= seq![line]);
        assert(lines(s).push(line) =~= seq![line]);
    } else {
        lemma_line_end(s);
        let k = line_end(s);
        if k == s.len() {
            assert(s[s.len() - 1] != '\n');
        }
        lemma_line_end_is(whole, k);
        let rest = s.skip(k + 1);
        assert(whole.take(k) =~= s.take(k));
        assert(whole.skip(k + 1) =~= rest + line + "\n"@);
        lemma_line_is_added(rest, line);
        let first = strip_return(s.take(k));
        assert(seq![first] + lines(rest).push(line) =~= (seq![first] + lines(rest)).push(line));
    }
}

/// The lines of `text`.
pub fn line_list(text: &str) -> (r: Vec<String>)
    ensures
        texts(r@) == lines(text@),
{
    let chars = to_chars(text);
    let mut out: Vec<String> = Vec::new();
    let mut from: usize = 0;
    assert(chars@.skip(0) =~= chars@);
    assert(texts(out@) + lines(chars@) =~= lines(chars@));
    while from < chars.len()
        invariant
            from <= chars@.len(),
            lines(chars@) == texts(out@) + lines(chars@.skip(from as int)),
        decreases chars@.len() - from,
    {
        let ghost rest = chars@.skip(from as int);
        let mut to: usize = from;
        while to < chars.len() && chars[to] != '\n'
            invariant
                from <= to <= chars@.len(),
                forall|i: int| from <= i < to ==> chars@[i] != '\n',
            decreases chars@.len() - to,
        {
            to += 1;
        }
        proof {
            lemma_line_end_is(rest, to - from);
        }
        if to == chars.len() {
            let line = slice_text(&chars, from, to);
            assert(line@ =~= rest);
            let ghost before = texts(out@);
            out.push(line);
            assert(texts(out@) =~= before + seq![rest]);
            assert(chars@.skip(to as int) =~= Seq::<char>::empty());
            assert(texts(out@) + lines(chars@.skip(to as int)) =~= texts(out@));
            from = to;
        } else {
            let mut cut: usize = to;
            if to > from && chars[to - 1] == '\r' {
                cut = to - 1;
            }
            let line = slice_text(&chars, from, cut);
            assert(line@ =~= strip_return(rest.take(to - from)));
            let ghost before = texts(out@);
            out.push(line);
            assert(texts(out@) =~= before.push(line@));
            assert(rest.skip(to - from + 1) =~= chars@.skip(to as int + 1));
            assert(before + (seq![line@] + lines(chars@.skip(to as int + 1))) =~= before.push(line@)
                + lines(chars@.skip(to as int + 1)));
            from = to + 1;
        }
    }
    assert(chars@.skip(from as int) =~= Seq::<char>::empty());
    assert(texts(out@) + lines(chars@.skip(from as int)) =~= texts(out@));
    out
}

/// Texts written one after the other with `sep` between them.
pub open spec fn joined(parts: Seq<Seq<char>>, sep: Seq<char>) -> Seq<char>
    decreases parts.len(),
{
    if parts.len() == 0 {
        Seq::empty()
    } else if parts.len() == 1 {
        parts[0]
    } else {
        joined(parts.drop_last(), sep) + sep + parts.last()
    }
}

/// The texts of a list with `sep` between them.
pub fn join(list: &Vec<String>, sep: &str) -> (r: String)
    ensures
        r@ == joined(texts(list@), sep@),
{
    let mut out = String::new();
    let mut i: usize = 0;
    while i < list.len()
        invariant
            i <= list@.len(),
            out@ == joined(texts(list@).take(i as int), sep@),
        decreases list@.len() - i,
    {
        let ghost upto = texts(list@).take(i as int + 1);
        assert(upto.drop_last() =~= texts(list@).take(i as int));
        assert(upto.last() == list@[i as int]@);
        let ghost before = out@;
        if i > 0 {
            out.push_str(sep);
        }
        out.push_str(list[i].as_str());
        assert(i == 0 ==> out@ =~= upto[0]);
        i += 1;
    }
    assert(texts(list@).take(i as int) =~= texts(list@));
    out
}

// ---- numbers -------------------------------------------------------------

/// A decimal digit.
pub open spec fn digit(d: nat) -> char {
    if d == 0 {
        '0'
    } else if d == 1 {
        '1'
    } else if d == 2 {
        '2'
    } else if d == 3 {
        '3'
    } else if d == 4 {
        '4'
    } else if d == 5 {
        '5'
    } else if d == 6 {
        '6'
    } else if d == 7 {
        '7'
    } else if d == 8 {
        '8'
    } else if d == 9 {
        '9'
    } else if d == 10 {
        'a'
    } else if d == 11 {
        'b'
    } else if d == 12 {
        'c'
    } else if d == 13 {
        'd'
    } else if d == 14 {
        'e'
    } else {
        'f'
    }
}

fn digit_char(d: u64) -> (r: char)
    requires
        d < 16,
    ensures
        r == digit(d as nat),
{
    if d == 0 {
        '0'
    } else if d == 1 {
        '1'
    } else if d == 2 {
        '2'
    } else if d == 3 {
        '3'
    } else if d == 4 {
        '4'
    } else if d == 5 {
        '5'
    } else if d == 6 {
        '6'
    } else if d == 7 {
        '7'
    } else if d == 8 {
        '8'
    } else if d == 9 {
        '9'
    } else if d == 10 {
        'a'
    } else if d == 11 {
        'b'
    } else if d == 12 {
        'c'
    } else if d == 13 {
        'd'
    } else if d == 14 {
        'e'
    } else {
        'f'
    }
}

/// A number in decimal.
pub open spec fn dec(n: nat) -> Seq<char>
    decreases n,
{
    if n < 10 {
        seq![digit(n)]
    } else {
        dec(n / 10).push(digit(n % 10))
    }
}

/// A signed number in decimal.
pub open spec fn signed_dec(n: int) -> Seq<char> {
    if n < 0 {
        seq!['-'] + dec((-n) as nat)
    } else {
        dec(n as nat)
    }
}

/// `n` in decimal.
pub fn dec_text(n: u64) -> (r: String)
    ensures
        r@ == dec(n as nat),
    decreases n,
{
    if n < 10 {
        let mut out = String::new();
        out.push(digit_char(n));
        assert(out@ =~= seq![digit(n as nat)]);
        out
    } else {
        let mut out = dec_text(n / 10);
        out.push(digit_char(n % 10));
        out
    }
}

/// `n` in decimal.
pub fn dec_usize(n: usize) -> (r: String)
    ensures
        r@ == dec(n as nat),
{
    dec_text(n as u64)
}

/// `n` in decimal.
pub fn dec_signed(n: i64) -> (r: String)
    ensures
        r@ == signed_dec(n as int),
{
    if n < 0 {
        let mut out = String::new();
        out.push('-');
        let size: u64 = if n == i64::MIN {
            0x8000_0000_0000_0000
        } else {
            (-n) as u64
        };
        let digits = dec_text(size);
        out.push_str(digits.as_str());
        assert(out@ =~= seq!['-'] + dec(size as nat));
        out
    } else {
        dec_text(n as u64)
    }
}

/// The lowest `width` hexadecimal digits of a number.
pub open spec fn hex(n: nat, width: nat) -> Seq<char>
    decreases width,
{
    if width == 0 {
        Seq::empty()
    } else {
        hex(n / 16, (width - 1) as nat).push(digit(n % 16))
    }
}

fn hex_text(n: u64, width: u32) -> (r: String)
    ensures
        r@ == hex(n as nat, width as nat),
    decreases width,
{
    if width == 0 {
        String::new()
    } else {
        let mut out = hex_text(n / 16, width - 1);
        out.push(digit_char(n % 16));
        out
    }
}

/// A 32-bit number as eight hexadecimal digits.
pub fn hex8(n: u32) -> (r: String)
    ensures
        r@ == hex(n as nat, 8),
{
    hex_text(n as u64, 8)
}

// ---- columns -------------------------------------------------------------

/// `n` times the same character.
pub open spec fn repeated(c: char, n: nat) -> Seq<char> {
    Seq::new(n, |i: int| c)
}

/// `n` times the same character.
pub fn repeat(c: char, n: usize) -> (r: String)
    ensures
        r@ == repeated(c, n as nat),
{
    let mut r = String::new();
    let mut i: usize = 0;
    while i < n
        invariant
            i <= n,
            r@ == repeated(c, i as nat),
        decreases n - i,
    {
        r.push(c);
        assert(r@ =~= repeated(c, (i + 1) as nat));
        i += 1;
    }
    r
}

/// How many blanks bring a text to a width.
pub open spec fn lacking(s: Seq<char>, width: nat) -> nat {
    if s.len() < width {
        (width - s.len()) as nat
    } else {
        0
    }
}

/// A text that fills a column from the left.
pub open spec fn left_column(s: Seq<char>, width: nat) -> Seq<char> {
    s + repeated(' ', lacking(s, width))
}

/// A text that fills a column from the right.
pub open spec fn right_column(s: Seq<char>, width: nat) -> Seq<char> {
    repeated(' ', lacking(s, width)) + s
}

fn blanks_for(text: &str, width: usize) -> (r: String)
    ensures
        r@ == repeated(' ', lacking(text@, width as nat)),
{
    let chars = to_chars(text);
    let n = chars.len();
    if n < width {
        repeat(' ', width - n)
    } else {
        repeat(' ', 0)
    }
}

/// The text, with blanks behind it up to the width.
pub fn pad_end(text: &str, width: usize) -> (r: String)
    ensures
        r@ == left_column(text@, width as nat),
{
    let mut r = owned(text);
    let blanks = blanks_for(text, width);
    r.push_str(blanks.as_str());
    r
}

/// The text, with blanks before it up to the width.
pub fn pad_start(text: &str, width: usize) -> (r: String)
    ensures
        r@ == right_column(text@, width as nat),
{
    let mut r = blanks_for(text, width);
    r.push_str(text);
    r
}

/// A text cut down to `max` characters, marked where something was cut off.
pub open spec fn cut(s: Seq<char>, max: nat) -> Seq<char> {
    if s.len() > max {
        s.take(max as int) + "…"@
    } else {
        s
    }
}

/// The text, cut down to `max` characters.
pub fn truncate_chars(text: &str, max: usize) -> (r: String)
    ensures
        r@ == cut(text@, max as nat),
{
    let chars = to_chars(text);
    if chars.len() > max {
        let mut r = slice_text(&chars, 0, max);
        assert(chars@.subrange(0, max as int) =~= chars@.take(max as int));
        r.push_str("…");
        r
    } else {
        owned(text)
    }
}

/// The last `max` characters of a text, or all of it where there are no more.
pub open spec fn last_chars(s: Seq<char>, max: nat) -> Seq<char> {
    if s.len() > max {
        s.skip(s.len() - max)
    } else {
        s
    }
}

/// The last `max` characters of the text.
pub fn last_chars_of(text: &str, max: usize) -> (r: String)
    ensures
        r@ == last_chars(text@, max as nat),
{
    let chars = to_chars(text);
    let n = chars.len();
    if n > max {
        assert(chars@.subrange(n - max, n as int) =~= chars@.skip(n - max));
        slice_text(&chars, n - max, n)
    } else {
        owned(text)
    }
}

// ---- lengths in bytes ----------------------------------------------------

/// How many bytes a character takes in UTF-8.
pub open spec fn char_bytes(c: char) -> nat {
    if (c as int) < 0x80 {
        1
    } else if (c as int) < 0x800 {
        2
    } else if (c as int) < 0x10000 {
        3
    } else {
        4
    }
}

/// How many bytes a text takes in UTF-8.
pub open spec fn byte_len(s: Seq<char>) -> nat
    decreases s.len(),
{
    if s.len() == 0 {
        0
    } else {
        char_bytes(s[0]) + byte_len(s.skip(1))
    }
}

/// The longest end of a text that takes at most `max` bytes.
pub open spec fn last_bytes(s: Seq<char>, max: nat) -> Seq<char>
    decreases s.len(),
{
    if byte_len(s) <= max || s.len() == 0 {
        s
    } else {
        last_bytes(s.skip(1), max)
    }
}

/// The end that is kept fits, and is no longer than the text.
pub proof fn lemma_end_fits(s: Seq<char>, max: nat)
    ensures
        byte_len(last_bytes(s, max)) <= max,
        last_bytes(s, max).len() <= s.len(),
    decreases s.len(),
{
    if !(byte_len(s) <= max || s.len() == 0) {
        lemma_end_fits(s.skip(1), max);
    }
}

proof fn lemma_end_is_shorter(s: Seq<char>, i: int)
    requires
        0 <= i <= s.len(),
    ensures
        byte_len(s.skip(i)) <= byte_len(s),
    decreases i,
{
    if i == 0 {
        assert(s.skip(0) =~= s);
    } else {
        assert(s.skip(1).skip(i - 1) =~= s.skip(i));
        lemma_end_is_shorter(s.skip(1), i - 1);
    }
}

proof fn lemma_longest_end(s: Seq<char>, max: nat, i: int)
    requires
        0 <= i <= s.len(),
        byte_len(s.skip(i)) <= max,
        i > 0 ==> byte_len(s.skip(i - 1)) > max,
    ensures
        last_bytes(s, max) == s.skip(i),
    decreases i,
{
    if i == 0 {
        assert(s.skip(0) =~= s);
    } else {
        lemma_end_is_shorter(s, i - 1);
        assert(s.skip(1).skip(i - 1) =~= s.skip(i));
        if i > 1 {
            assert(s.skip(1).skip(i - 2) =~= s.skip(i - 1));
        }
        lemma_longest_end(s.skip(1), max, i - 1);
    }
}

fn width(c: char) -> (r: usize)
    ensures
        r == char_bytes(c),
{
    if (c as u32) < 0x80 {
        1
    } else if (c as u32) < 0x800 {
        2
    } else if (c as u32) < 0x10000 {
        3
    } else {
        4
    }
}

/// The longest end of a text that takes at most `max` bytes.
pub fn end_of(text: &str, max: usize) -> (r: String)
    ensures
        r@ == last_bytes(text@, max as nat),
{
    let chars = to_chars(text);
    let n = chars.len();
    let mut i: usize = n;
    let mut total: usize = 0;
    assert(chars@.skip(n as int) =~= Seq::empty());
    while i > 0 && width(chars[i - 1]) <= max - total
        invariant
            n == chars@.len(),
            i <= n,
            total <= max,
            total == byte_len(chars@.skip(i as int)),
        decreases i,
    {
        assert(chars@.skip(i - 1).skip(1) =~= chars@.skip(i as int));
        total += width(chars[i - 1]);
        i -= 1;
    }
    proof {
        if i > 0 {
            assert(chars@.skip(i - 1).skip(1) =~= chars@.skip(i as int));
        }
        lemma_longest_end(chars@, max as nat, i as int);
        assert(chars@.skip(i as int) =~= chars@.subrange(i as int, n as int));
    }
    slice_text(&chars, i, n)
}

// ---- what holds of texts -------------------------------------------------

/// The space of a text is the tab, the four line breaks after it, the blank, and
/// the wide and unbreakable kinds; no printable letter, digit or sign is.
pub proof fn blanks_and_breaks_are_white(c: char)
    ensures
        is_white(' ') && is_white('\t') && is_white('\n') && is_white('\r'),
        '!' <= c <= '~' ==> !is_white(c),
        is_white('\u{a0}') && is_white('\u{2003}') && is_white('\u{3000}'),
        !is_white('\u{200b}'),
{
}

/// A trimmed text is the middle of the text: all that was cut off at either end
/// is white, and what is left neither starts nor ends so.
pub proof fn a_trimmed_text_is_the_middle(s: Seq<char>)
    ensures
        exists|i: int, j: int|
            0 <= i <= j <= s.len() && trim(s) == #[trigger] s.subrange(i, j) && (forall|k: int|
                0 <= k < i || j <= k < s.len() ==> is_white(#[trigger] s[k])),
        trim(s).len() > 0 ==> !is_white(trim(s)[0]) && !is_white(trim(s).last()),
        trim(trim(s)) == trim(s),
        (forall|k: int| 0 <= k < s.len() ==> is_white(#[trigger] s[k])) ==> trim(s).len() == 0,
{
    lemma_trim_start_is(s);
    let a = trim_start(s);
    let i = s.len() - a.len();
    assert(a =~= s.skip(i));
    lemma_trim_end_is(a);
    let b = trim_end(a);
    let j = i + b.len();
    assert(b =~= s.subrange(i, j));
    assert forall|k: int| 0 <= k < i || j <= k < s.len() implies is_white(#[trigger] s[k]) by {
        if k >= j {
            assert(a[k - i] == s[k]);
        }
    }
    if b.len() > 0 {
        assert(b[0] == a[0]);
        assert(trim_start(b) == b);
        assert(trim_end(b) == b);
    } else {
        assert(trim_start(b) == b);
        assert(trim_end(b) == b);
    }
    if forall|k: int| 0 <= k < s.len() ==> is_white(#[trigger] s[k]) {
        if b.len() > 0 {
            assert(b[0] == s[i]);
        }
    }
}

proof fn lemma_trim_start_is(s: Seq<char>)
    ensures
        trim_start(s).len() <= s.len(),
        trim_start(s) == s.skip(s.len() - trim_start(s).len()),
        forall|k: int| 0 <= k < s.len() - trim_start(s).len() ==> is_white(#[trigger] s[k]),
        trim_start(s).len() > 0 ==> !is_white(trim_start(s)[0]),
    decreases s.len(),
{
    if s.len() > 0 && is_white(s[0]) {
        let rest = s.drop_first();
        lemma_trim_start_is(rest);
        let cut = s.len() - trim_start(s).len();
        assert(trim_start(s) =~= s.skip(cut));
        assert forall|k: int| 0 <= k < cut implies is_white(#[trigger] s[k]) by {
            if k > 0 {
                assert(rest[k - 1] == s[k]);
            }
        }
    } else {
        assert(s.skip(0) =~= s);
    }
}

proof fn lemma_trim_end_is(s: Seq<char>)
    ensures
        trim_end(s).len() <= s.len(),
        trim_end(s) == s.take(trim_end(s).len() as int),
        forall|k: int| trim_end(s).len() <= k < s.len() ==> is_white(#[trigger] s[k]),
        trim_end(s).len() > 0 ==> !is_white(trim_end(s).last()),
    decreases s.len(),
{
    if s.len() > 0 && is_white(s.last()) {
        let rest = s.drop_last();
        lemma_trim_end_is(rest);
        let left = trim_end(s).len();
        assert(trim_end(s) =~= s.take(left as int));
        assert forall|k: int| left <= k < s.len() implies is_white(#[trigger] s[k]) by {
            if k < rest.len() {
                assert(rest[k] == s[k]);
            }
        }
    } else {
        assert(s.take(s.len() as int) =~= s);
    }
}

/// The first word holds no space, and is followed by a space or the end.
pub proof fn the_first_word_ends_at_a_space(s: Seq<char>)
    ensures
        forall|k: int| 0 <= k < first_word(s).len() ==> !is_white(#[trigger] first_word(s)[k]),
        first_word(s).len() <= trim_start(s).len(),
        first_word(s) == trim_start(s).take(first_word(s).len() as int),
        first_word(s).len() < trim_start(s).len() ==> is_white(
            trim_start(s)[first_word(s).len() as int],
        ),
{
    lemma_until_white_is(trim_start(s));
}

proof fn lemma_until_white_is(s: Seq<char>)
    ensures
        until_white(s).len() <= s.len(),
        until_white(s) == s.take(until_white(s).len() as int),
        forall|k: int| 0 <= k < until_white(s).len() ==> !is_white(#[trigger] until_white(s)[k]),
        until_white(s).len() < s.len() ==> is_white(s[until_white(s).len() as int]),
    decreases s.len(),
{
    if s.len() == 0 || is_white(s[0]) {
        assert(s.take(0) =~= until_white(s));
    } else {
        let rest = s.drop_first();
        lemma_until_white_is(rest);
        let word = until_white(s);
        assert(word =~= s.take(word.len() as int));
        assert forall|k: int| 0 <= k < word.len() implies !is_white(#[trigger] word[k]) by {
            if k > 0 {
                assert(word[k] == until_white(rest)[k - 1]);
            }
        }
        if word.len() < s.len() {
            assert(rest[word.len() - 1] == s[word.len() as int]);
        }
    }
}

/// One text comes before another in dictionary order where it is the beginning
/// of the other, or the smaller at the first place at which they differ.
pub proof fn the_first_difference_orders(a: Seq<char>, b: Seq<char>)
    ensures
        precedes(a, b) <==> exists|i: int|
            0 <= i <= a.len() && i < b.len() && #[trigger] a.take(i) == b.take(i) && (i == a.len()
                || a[i] < b[i]),
    decreases a.len(),
{
    if b.len() > 0 && a.len() > 0 && a[0] == b[0] {
        let x = a.drop_first();
        let y = b.drop_first();
        the_first_difference_orders(x, y);
        if precedes(x, y) {
            let i = choose|i: int|
                0 <= i <= x.len() && i < y.len() && #[trigger] x.take(i) == y.take(i) && (i
                    == x.len() || x[i] < y[i]);
            assert(a.take(i + 1) =~= b.take(i + 1)) by {
                assert forall|k: int| 0 <= k < i + 1 implies #[trigger] a[k] == b[k] by {
                    if k > 0 {
                        assert(x.take(i)[k - 1] == y.take(i)[k - 1]);
                    }
                }
            }
        }
        if exists|i: int|
            0 <= i <= a.len() && i < b.len() && #[trigger] a.take(i) == b.take(i) && (i == a.len()
                || a[i] < b[i]) {
            let i = choose|i: int|
                0 <= i <= a.len() && i < b.len() && #[trigger] a.take(i) == b.take(i) && (i
                    == a.len() || a[i] < b[i]);
            assert(i > 0);
            assert(x.take(i - 1) =~= y.take(i - 1)) by {
                assert forall|k: int| 0 <= k < i - 1 implies #[trigger] x[k] == y[k] by {
                    assert(a.take(i)[k + 1] == b.take(i)[k + 1]);
                }
            }
        }
    } else if b.len() > 0 {
        assert(a.take(0) =~= b.take(0));
        if exists|i: int|
            0 <= i <= a.len() && i < b.len() && #[trigger] a.take(i) == b.take(i) && (i == a.len()
                || a[i] < b[i]) {
            let i = choose|i: int|
                0 <= i <= a.len() && i < b.len() && #[trigger] a.take(i) == b.take(i) && (i
                    == a.len() || a[i] < b[i]);
            if i > 0 {
                assert(a.take(i)[0] == b.take(i)[0]);
            }
        }
    }
}

/// Parts are joined with the separator between them and nowhere else.
pub proof fn a_separator_stands_between_parts(
    parts: Seq<Seq<char>>,
    more: Seq<char>,
    sep: Seq<char>,
)
    ensures
        joined(Seq::empty(), sep).len() == 0,
        joined(seq![more], sep) == more,
        parts.len() > 0 ==> joined(parts.push(more), sep) == joined(parts, sep) + sep + more,
{
    assert(parts.push(more).drop_last() =~= parts);
    assert(seq![more][0] == more);
}

/// No line holds a break, and a text without breaks is one line.
pub proof fn a_line_holds_no_break(s: Seq<char>)
    ensures
        forall|i: int| 0 <= i < lines(s).len() ==> !(#[trigger] lines(s)[i]).contains('\n'),
        s.len() == 0 <==> lines(s).len() == 0,
        s.len() > 0 && !s.contains('\n') ==> lines(s) == seq![s],
    decreases s.len(),
{
    lemma_line_end(s);
    if s.len() > 0 {
        let e = line_end(s);
        if e >= s.len() {
            if s.contains('\n') {
                let k = choose|k: int| 0 <= k < s.len() && s[k] == '\n';
                assert(s[k] != '\n');
            }
            assert(lines(s)[0] == s);
        } else {
            assert(s.contains(s[e]));
            let head = strip_return(s.take(e));
            let rest = s.skip(e + 1);
            a_line_holds_no_break(rest);
            assert forall|i: int| 0 <= i < lines(s).len() implies !(#[trigger] lines(
                s,
            )[i]).contains('\n') by {
                if i == 0 {
                    assert(lines(s)[0] == head);
                    if head.contains('\n') {
                        let k = choose|k: int| 0 <= k < head.len() && head[k] == '\n';
                        assert(s[k] == '\n');
                    }
                } else {
                    assert(lines(s)[i] == lines(rest)[i - 1]);
                }
            }
        }
    }
}

/// A number is written with at least one digit, with digits alone and without
/// leading zeros, and no two numbers are written alike; one below zero has a
/// sign in front.
pub proof fn numbers_are_told_apart(a: nat, b: nat)
    ensures
        dec(a).len() > 0,
        forall|k: int| 0 <= k < dec(a).len() ==> '0' <= #[trigger] dec(a)[k] <= '9',
        a > 0 ==> dec(a)[0] != '0',
        dec(a) == dec(b) ==> a == b,
        signed_dec(a as int) == dec(a),
        a > 0 ==> signed_dec(-(a as int)) == seq!['-'] + dec(a),
    decreases a,
{
    if a >= 10 {
        numbers_are_told_apart(a / 10, b / 10);
        assert(forall|k: int| 0 <= k < dec(a / 10).len() ==> dec(a)[k] == dec(a / 10)[k]);
        assert(dec(a)[0] == dec(a / 10)[0]);
    }
    if dec(a) == dec(b) {
        assert(dec(a).last() == dec(b).last());
        if a >= 10 && b >= 10 {
            assert(dec(a / 10) =~= dec(a).drop_last());
            assert(dec(b / 10) =~= dec(b).drop_last());
        } else if a >= 10 {
            assert(dec(a / 10).len() > 0);
            assert(dec(a).len() > 1);
        } else if b >= 10 {
            lemma_dec_some(b / 10);
            assert(dec(b).len() > 1);
        }
    }
}

proof fn lemma_dec_some(n: nat)
    ensures
        dec(n).len() > 0,
{
}

/// A number in base sixteen is as wide as asked for, and numbers that fit are
/// told apart by their last digit and the rest.
pub proof fn a_hex_number_is_as_wide_as_asked_for(n: nat, m: nat, width: nat)
    ensures
        hex(n, width).len() == width,
        forall|k: int|
            0 <= k < width ==> ('0' <= #[trigger] hex(n, width)[k] <= '9') || ('a' <= hex(n, width)[k]
                <= 'f'),
        width > 0 && hex(n, width) == hex(m, width) ==> n % 16 == m % 16,
    decreases width,
{
    if width > 0 {
        a_hex_number_is_as_wide_as_asked_for(n / 16, m / 16, (width - 1) as nat);
        let before = hex(n / 16, (width - 1) as nat);
        assert(forall|k: int| 0 <= k < width - 1 ==> hex(n, width)[k] == before[k]);
        assert(hex(n, width)[width - 1] == digit(n % 16));
        if hex(n, width) == hex(m, width) {
            assert(hex(n, width).last() == hex(m, width).last());
        }
    }
}

/// Letters are put in the other case one by one, and nothing else is changed.
pub proof fn case_changes_letters_alone(s: Seq<char>, i: int)
    requires
        0 <= i < s.len(),
    ensures
        ascii_lower(s).len() == s.len(),
        ascii_upper(s).len() == s.len(),
        !('A' <= s[i] <= 'Z') ==> ascii_lower(s)[i] == s[i],
        !('a' <= s[i] <= 'z') ==> ascii_upper(s)[i] == s[i],
        'A' <= s[i] <= 'Z' ==> 'a' <= ascii_lower(s)[i] <= 'z' && ascii_lower(s)[i] as int - 'a' as int
            == s[i] as int - 'A' as int,
        'a' <= s[i] <= 'z' ==> 'A' <= ascii_upper(s)[i] <= 'Z' && ascii_upper(s)[i] as int - 'A' as int
            == s[i] as int - 'a' as int,
{
}

/// A column is at least as wide as asked for, and no wider than its text needs;
/// it is the text with blanks on the other side.
pub proof fn a_column_is_filled_with_blanks(s: Seq<char>, width: nat, k: int)
    ensures
        left_column(s, width).len() == (if s.len() < width {
            width
        } else {
            s.len()
        }),
        right_column(s, width).len() == left_column(s, width).len(),
        left_column(s, width).take(s.len() as int) == s,
        right_column(s, width).skip(right_column(s, width).len() - s.len()) == s,
        s.len() <= k < left_column(s, width).len() ==> left_column(s, width)[k] == ' ',
        0 <= k < right_column(s, width).len() - s.len() ==> right_column(s, width)[k] == ' ',
{
    assert(left_column(s, width).take(s.len() as int) =~= s);
    assert(right_column(s, width).skip(right_column(s, width).len() - s.len()) =~= s);
}

/// A text that is cut keeps its beginning and is marked; one that is short
/// enough is not touched. The last characters are the end of the text.
pub proof fn a_cut_text_keeps_its_start(s: Seq<char>, max: nat)
    ensures
        s.len() <= max ==> cut(s, max) == s && last_chars(s, max) == s,
        s.len() > max ==> cut(s, max).take(max as int) == s.take(max as int) && cut(s, max).skip(
            max as int,
        ) == "…"@,
        s.len() > max ==> last_chars(s, max).len() == max && last_chars(s, max) == s.skip(
            s.len() - max,
        ),
{
    if s.len() > max {
        assert(cut(s, max).take(max as int) =~= s.take(max as int));
        assert(cut(s, max).skip(max as int) =~= "…"@);
    }
}

/// The last bytes of a text are the longest end of it, in whole characters, that
/// fits.
pub proof fn the_longest_end_that_fits_is_kept(s: Seq<char>, max: nat)
    ensures
        byte_len(last_bytes(s, max)) <= max,
        last_bytes(s, max).len() <= s.len(),
        last_bytes(s, max) == s.skip(s.len() - last_bytes(s, max).len()),
        last_bytes(s, max).len() < s.len() ==> byte_len(
            s.skip(s.len() - last_bytes(s, max).len() - 1),
        ) > max,
        byte_len(s) <= max ==> last_bytes(s, max) == s,
    decreases s.len(),
{
    if byte_len(s) <= max || s.len() == 0 {
        assert(s.skip(0) =~= s);
    } else {
        let rest = s.skip(1);
        the_longest_end_that_fits_is_kept(rest, max);
        let left = last_bytes(rest, max).len();
        assert(rest.skip(rest.len() - left) =~= s.skip(s.len() - left));
        if left < rest.len() {
            assert(rest.skip(rest.len() - left - 1) =~= s.skip(s.len() - left - 1));
        } else {
            assert(s.skip(0) =~= s);
        }
    }
}

/// What stands in the middle of a text is held by it, and so is all that a part
/// of it holds.
pub proof fn a_text_holds_its_parts(
    before: Seq<char>,
    middle: Seq<char>,
    after: Seq<char>,
    part: Seq<char>,
)
    ensures
        holds_text(before + middle + after, middle),
        around(before, middle, after) == before + middle + after,
        holds_text(middle, part) ==> holds_text(before + middle + after, part),
        holds_text(before + middle + after, part) <==> exists|i: int|
            0 <= i && i + part.len() <= (before + middle + after).len()
                && #[trigger] (before + middle + after).subrange(i, i + part.len() as int) == part,
{
    let whole = before + middle + after;
    assert(whole.subrange(before.len() as int, before.len() as int + middle.len() as int)
        =~= middle);
    assert(stands_at(whole, middle, before.len() as int));
    if holds_text(middle, part) {
        let i = choose|i: int| stands_at(middle, part, i);
        let at = before.len() + i;
        assert(whole.subrange(at, at + part.len() as int) =~= middle.subrange(
            i,
            i + part.len() as int,
        ));
        assert(stands_at(whole, part, at));
    }
    if holds_text(whole, part) {
        let i = choose|i: int| stands_at(whole, part, i);
        assert(whole.subrange(i, i + part.len() as int) == part);
    }
    if exists|i: int|
        0 <= i && i + part.len() <= whole.len() && #[trigger] whole.subrange(
            i,
            i + part.len() as int,
        ) == part {
        let i = choose|i: int|
            0 <= i && i + part.len() <= whole.len() && #[trigger] whole.subrange(
                i,
                i + part.len() as int,
            ) == part;
        assert(stands_at(whole, part, i));
    }
}

/// Texts in a list, and a text that may be there, are taken one for one.
pub proof fn a_list_is_taken_one_for_one(list: Seq<String>, t: Option<String>, i: int)
    ensures
        texts(list).len() == list.len(),
        0 <= i < list.len() ==> texts(list)[i] == list[i]@,
        t is Some <==> opt(t) is Some,
        t is Some ==> opt(t)->0 == t->0@,
{
}

/// A character takes one to four bytes, by its number.
pub proof fn a_character_takes_up_to_four_bytes(c: char, s: Seq<char>)
    ensures
        1 <= char_bytes(c) <= 4,
        char_bytes(c) == 1 <==> (c as int) < 0x80,
        char_bytes(c) <= 2 <==> (c as int) < 0x800,
        char_bytes(c) <= 3 <==> (c as int) < 0x10000,
        byte_len(seq![c] + s) == char_bytes(c) + byte_len(s),
        byte_len(Seq::empty()) == 0,
{
    assert((seq![c] + s).skip(1) =~= s);
}

/// A break ends a line: what stands before the first one is the first line,
/// without the return that may end it, and the lines of the rest follow.
pub proof fn a_break_ends_a_line(first: Seq<char>, rest: Seq<char>)
    requires
        !first.contains('\n'),
    ensures
        lines(first + seq!['\n'] + rest).len() == 1 + lines(rest).len(),
        lines(first + seq!['\n'] + rest).skip(1) == lines(rest),
        first.len() > 0 && first.last() == '\r' ==> lines(first + seq!['\n'] + rest)[0]
            == first.drop_last(),
        first.len() == 0 || first.last() != '\r' ==> lines(first + seq!['\n'] + rest)[0] == first,
{
    let s = first + seq!['\n'] + rest;
    let k = first.len() as int;
    assert forall|i: int| 0 <= i < k implies s[i] != '\n' by {
        assert(first.contains(first[i]));
    }
    assert(s[k] == '\n');
    lemma_line_end_is(s, k);
    assert(s.take(k) =~= first);
    assert(s.skip(k + 1) =~= rest);
    assert(lines(s).skip(1) =~= lines(rest));
}

} // verus!
