//! Text as sequences of Unicode scalar values: trimming, searching, splitting
//! and ordering.
//!
//! Every function here is stated over `Seq<char>`, the view of `str` and
//! `String`.
use vstd::prelude::*;
use vstd::utf8::encode_utf8;
use vstd::utf8::is_ascii_chars;

verus! {

// ---------------------------------------------------------------------------
// Characters
// ---------------------------------------------------------------------------
/// The characters with the Unicode property `White_Space`.
pub open spec fn white_space(c: char) -> bool {
    ||| '\u{9}' <= c <= '\u{d}'
    ||| c == ' '
    ||| c == '\u{85}'
    ||| c == '\u{a0}'
    ||| c == '\u{1680}'
    ||| '\u{2000}' <= c <= '\u{200a}'
    ||| c == '\u{2028}'
    ||| c == '\u{2029}'
    ||| c == '\u{202f}'
    ||| c == '\u{205f}'
    ||| c == '\u{3000}'
}

/// `char::is_whitespace` tests the Unicode property `White_Space`, whose
/// members are the ones that `white_space` lists.
pub assume_specification[ char::is_whitespace ](c: char) -> (res: bool)
    ensures
        res == white_space(c),
;

/// `String::push` appends one character to the end of the string.
pub assume_specification[ String::push ](s: &mut String, c: char)
    ensures
        final(s)@ == old(s)@.push(c),
;

pub open spec fn is_ascii_upper(c: char) -> bool {
    'A' <= c <= 'Z'
}

pub open spec fn is_ascii_lower(c: char) -> bool {
    'a' <= c <= 'z'
}

pub open spec fn is_ascii_letter(c: char) -> bool {
    is_ascii_upper(c) || is_ascii_lower(c)
}

/// The lower-case form of an ASCII letter, any other character unchanged.
pub open spec fn ascii_lower(c: char) -> char {
    if is_ascii_upper(c) {
        (c as u8 + 32) as char
    } else {
        c
    }
}

/// The upper-case form of an ASCII letter, any other character unchanged.
pub open spec fn ascii_upper(c: char) -> char {
    if is_ascii_lower(c) {
        (c as u8 - 32) as char
    } else {
        c
    }
}

/// Executable form of `ascii_lower`.
pub fn lower_char(c: char) -> (res: char)
    ensures
        res == ascii_lower(c),
{
    if c >= 'A' && c <= 'Z' {
        (c as u8 + 32) as char
    } else {
        c
    }
}

/// Executable form of `ascii_upper`.
pub fn upper_char(c: char) -> (res: char)
    ensures
        res == ascii_upper(c),
{
    if c >= 'a' && c <= 'z' {
        (c as u8 - 32) as char
    } else {
        c
    }
}

/// A set of characters that trimming removes from the ends of a text.
#[derive(Clone, Copy)]
pub enum CharClass {
    /// White space.
    White,
    /// The full stop.
    Stop,
    /// Separators, quotes and brackets that surround a phrase.
    Wrapping,
    /// What surrounds a word of a question: as above, with braces, question and
    /// exclamation marks.
    Asking,
}

impl CharClass {
    pub open spec fn holds(self, c: char) -> bool {
        match self {
            CharClass::White => white_space(c),
            CharClass::Stop => c == '.',
            CharClass::Wrapping => c == ',' || c == ';' || c == ':' || c == '"' || c == '\'' || c
                == '(' || c == ')' || c == '[' || c == ']',
            CharClass::Asking => c == ',' || c == ';' || c == ':' || c == '"' || c == '\'' || c
                == '(' || c == ')' || c == '[' || c == ']' || c == '{' || c == '}' || c == '?' || c
                == '!',
        }
    }

    /// Whether the class holds the character.
    pub fn has(self, c: char) -> (res: bool)
        ensures
            res == self.holds(c),
    {
        match self {
            CharClass::White => c.is_whitespace(),
            CharClass::Stop => c == '.',
            CharClass::Wrapping => c == ',' || c == ';' || c == ':' || c == '"' || c == '\'' || c
                == '(' || c == ')' || c == '[' || c == ']',
            CharClass::Asking => c == ',' || c == ';' || c == ':' || c == '"' || c == '\'' || c
                == '(' || c == ')' || c == '[' || c == ']' || c == '{' || c == '}' || c == '?' || c
                == '!',
        }
    }
}

// ---------------------------------------------------------------------------
// Views
// ---------------------------------------------------------------------------
/// The views of a sequence of strings.
pub open spec fn views(s: Seq<String>) -> Seq<Seq<char>> {
    Seq::new(s.len(), |i: int| s[i]@)
}

/// The view of an optional string.
pub open spec fn opt_view(s: Option<String>) -> Option<Seq<char>> {
    match s {
        Some(t) => Some(t@),
        None => None,
    }
}

/// The view of an optional borrowed text.
pub open spec fn opt_str_view(s: Option<&str>) -> Option<Seq<char>> {
    match s {
        Some(t) => Some(t@),
        None => None,
    }
}

pub proof fn lemma_views_push(s: Seq<String>, x: String)
    ensures
        views(s.push(x)) == views(s).push(x@),
{
    assert(views(s.push(x)) =~= views(s).push(x@));
}

/// The characters of a text, in order.
pub fn chars_of(s: &str) -> (res: Vec<char>)
    ensures
        res@ == s@,
{
    let mut out: Vec<char> = Vec::new();
    for c in it: s.chars()
        invariant
            out@ == it.seq().take(it.index() as int),
            it.seq() == s@,
    {
        out.push(c);
    }
    out
}

/// A copy of a text.
pub fn copy_text(s: &str) -> (res: String)
    ensures
        res@ == s@,
{
    s.to_owned()
}

/// A copy of a list of strings.
pub fn copy_texts(s: &Vec<String>) -> (res: Vec<String>)
    ensures
        views(res@) == views(s@),
{
    let mut out: Vec<String> = Vec::new();
    for i in 0..s.len()
        invariant
            views(out@) == views(s@).take(i as int),
    {
        let ghost before = out@;
        let item = copy_text(s[i].as_str());
        proof {
            lemma_views_push(before, item);
        }
        out.push(item);
        assert(views(out@) =~= views(s@).take(i + 1));
    }
    assert(views(s@).take(s.len() as int) =~= views(s@));
    out
}

/// A copy of an optional string.
pub fn copy_opt(s: &Option<String>) -> (res: Option<String>)
    ensures
        opt_view(res) == opt_view(*s),
{
    match s {
        Some(t) => Some(copy_text(t.as_str())),
        None => None,
    }
}

/// The text that a slice of characters spells.
pub fn text_from(chars: &Vec<char>, from: usize, to: usize) -> (res: String)
    requires
        from <= to <= chars.len(),
    ensures
        res@ == chars@.subrange(from as int, to as int),
{
    let mut out = String::new();
    for i in from..to
        invariant
            to <= chars.len(),
            out@ == chars@.subrange(from as int, i as int),
    {
        out.push(chars[i]);
        assert(out@ =~= chars@.subrange(from as int, i + 1));
    }
    out
}

// ---------------------------------------------------------------------------
// Equality, containment, order
// ---------------------------------------------------------------------------
/// The number of bytes of the UTF-8 form of a text.
pub open spec fn byte_count(s: Seq<char>) -> nat {
    encode_utf8(s).len()
}

/// The length of a text in bytes.
pub fn byte_len(s: &str) -> (res: usize)
    ensures
        res == byte_count(s@),
{
    s.as_bytes().len()
}

/// Whether two texts hold the same characters.
pub fn text_eq(a: &str, b: &str) -> (res: bool)
    ensures
        res == (a@ == b@),
{
    let x = a.as_bytes();
    let y = b.as_bytes();
    proof {
        broadcast use vstd::utf8::encode_utf8_decode_utf8;

        assert(vstd::utf8::decode_utf8(encode_utf8(a@)) == a@);
        assert(vstd::utf8::decode_utf8(encode_utf8(b@)) == b@);
    }
    if x.len() != y.len() {
        return false;
    }
    for i in 0..x.len()
        invariant
            x@ == encode_utf8(a@),
            y@ == encode_utf8(b@),
            x.len() == y.len(),
            forall|j: int| 0 <= j < i ==> x@[j] == y@[j],
    {
        if x[i] != y[i] {
            return false;
        }
    }
    assert(x@ =~= y@);
    true
}

/// Whether a list holds a text.
pub fn has_text(list: &Vec<String>, item: &str) -> (res: bool)
    ensures
        res == views(list@).contains(item@),
{
    for i in 0..list.len()
        invariant
            forall|j: int| 0 <= j < i ==> views(list@)[j] != item@,
    {
        if text_eq(list[i].as_str(), item) {
            assert(views(list@)[i as int] == item@);
            return true;
        }
    }
    false
}

/// Lexicographic order by scalar value, which is also the order of the UTF-8
/// bytes.
pub open spec fn text_before(a: Seq<char>, b: Seq<char>) -> bool
    decreases a.len(),
{
    if b.len() == 0 {
        false
    } else if a.len() == 0 {
        true
    } else if a[0] != b[0] {
        a[0] < b[0]
    } else {
        text_before(a.drop_first(), b.drop_first())
    }
}

/// Two texts with a common start are ordered by what follows it.
proof fn lemma_text_before_skip(a: Seq<char>, b: Seq<char>, n: int)
    requires
        0 <= n <= a.len(),
        n <= b.len(),
        forall|j: int| 0 <= j < n ==> a[j] == b[j],
    ensures
        text_before(a, b) == text_before(a.skip(n), b.skip(n)),
    decreases n,
{
    if n == 0 {
        assert(a.skip(0) =~= a);
        assert(b.skip(0) =~= b);
    } else {
        let x = a.drop_first();
        let y = b.drop_first();
        assert forall|j: int| 0 <= j < n - 1 implies x[j] == y[j] by {
            assert(a[j + 1] == b[j + 1]);
        }
        lemma_text_before_skip(x, y, n - 1);
        assert(x.skip(n - 1) =~= a.skip(n));
        assert(y.skip(n - 1) =~= b.skip(n));
    }
}

/// Of two texts exactly one holds: the first comes before, the second comes
/// before, or they are equal.
pub proof fn law_text_order_total(a: Seq<char>, b: Seq<char>)
    ensures
        text_before(a, b) || text_before(b, a) || a == b,
        !(text_before(a, b) && text_before(b, a)),
        a == b ==> !text_before(a, b),
    decreases a.len(),
{
    if a.len() > 0 && b.len() > 0 && a[0] == b[0] {
        law_text_order_total(a.drop_first(), b.drop_first());
        if a.drop_first() == b.drop_first() {
            assert(a =~= seq![a[0]] + a.drop_first());
            assert(b =~= seq![b[0]] + b.drop_first());
        }
    } else if a.len() == 0 && b.len() == 0 {
        assert(a =~= b);
    }
}

/// The order of texts is transitive.
pub proof fn law_text_order_transitive(a: Seq<char>, b: Seq<char>, c: Seq<char>)
    requires
        text_before(a, b),
        text_before(b, c),
    ensures
        text_before(a, c),
    decreases a.len(),
{
    if a.len() > 0 && a[0] == b[0] && b[0] == c[0] {
        law_text_order_transitive(a.drop_first(), b.drop_first(), c.drop_first());
    }
}

/// Whether a text comes before another one.
pub fn text_lt(a: &str, b: &str) -> (res: bool)
    ensures
        res == text_before(a@, b@),
{
    let x = chars_of(a);
    let y = chars_of(b);
    let mut i: usize = 0;
    while i < x.len() && i < y.len() && x[i] == y[i]
        invariant
            i <= x.len(),
            i <= y.len(),
            forall|j: int| 0 <= j < i ==> x@[j] == y@[j],
        decreases x.len() - i,
    {
        i = i + 1;
    }
    proof {
        lemma_text_before_skip(x@, y@, i as int);
    }
    if i >= y.len() {
        false
    } else if i >= x.len() {
        true
    } else {
        x[i] < y[i]
    }
}

// ---------------------------------------------------------------------------
// Trimming
// ---------------------------------------------------------------------------
/// A text without the leading characters of a class.
pub open spec fn trimmed_start(s: Seq<char>, class: CharClass) -> Seq<char>
    decreases s.len(),
{
    if s.len() > 0 && class.holds(s[0]) {
        trimmed_start(s.drop_first(), class)
    } else {
        s
    }
}

/// A text without the trailing characters of a class.
pub open spec fn trimmed_end(s: Seq<char>, class: CharClass) -> Seq<char>
    decreases s.len(),
{
    if s.len() > 0 && class.holds(s.last()) {
        trimmed_end(s.drop_last(), class)
    } else {
        s
    }
}

/// A text without the characters of a class at either end.
pub open spec fn trimmed_both(s: Seq<char>, class: CharClass) -> Seq<char> {
    trimmed_end(trimmed_start(s, class), class)
}

/// A text without the white space at either end.
pub open spec fn trimmed(s: Seq<char>) -> Seq<char> {
    trimmed_both(s, CharClass::White)
}

proof fn lemma_trimmed_start_skip(s: Seq<char>, class: CharClass, n: int)
    requires
        0 <= n <= s.len(),
        forall|j: int| 0 <= j < n ==> class.holds(s[j]),
    ensures
        trimmed_start(s, class) == trimmed_start(s.skip(n), class),
    decreases n,
{
    if n == 0 {
        assert(s.skip(0) =~= s);
    } else {
        let t = s.drop_first();
        assert forall|j: int| 0 <= j < n - 1 implies class.holds(t[j]) by {
            assert(class.holds(s[j + 1]));
        }
        lemma_trimmed_start_skip(t, class, n - 1);
        assert(t.skip(n - 1) =~= s.skip(n));
    }
}

proof fn lemma_trimmed_end_take(s: Seq<char>, class: CharClass, n: int)
    requires
        0 <= n <= s.len(),
        forall|j: int| n <= j < s.len() ==> class.holds(s[j]),
    ensures
        trimmed_end(s, class) == trimmed_end(s.take(n), class),
    decreases s.len() - n,
{
    if n == s.len() {
        assert(s.take(n) =~= s);
    } else {
        let t = s.drop_last();
        lemma_trimmed_end_take(t, class, n);
        assert(t.take(n) =~= s.take(n));
    }
}

/// Removes the leading characters of a class.
pub fn trim_start_class<'a>(s: &'a str, class: CharClass) -> (res: &'a str)
    ensures
        res@ == trimmed_start(s@, class),
{
    let chars = chars_of(s);
    let mut i: usize = 0;
    while i < chars.len() && class.has(chars[i])
        invariant
            i <= chars.len(),
            forall|j: int| 0 <= j < i ==> class.holds(chars@[j]),
        decreases chars.len() - i,
    {
        i = i + 1;
    }
    proof {
        lemma_trimmed_start_skip(s@, class, i as int);
        assert(s@.skip(i as int) =~= s@.subrange(i as int, s@.len() as int));
    }
    s.substring_char(i, chars.len())
}

/// Removes the trailing characters of a class.
pub fn trim_end_class<'a>(s: &'a str, class: CharClass) -> (res: &'a str)
    ensures
        res@ == trimmed_end(s@, class),
{
    let chars = chars_of(s);
    let mut i: usize = chars.len();
    while i > 0 && class.has(chars[i - 1])
        invariant
            i <= chars.len(),
            forall|j: int| i <= j < chars.len() ==> class.holds(chars@[j]),
        decreases i,
    {
        i = i - 1;
    }
    proof {
        lemma_trimmed_end_take(s@, class, i as int);
        assert(s@.take(i as int) =~= s@.subrange(0, i as int));
    }
    s.substring_char(0, i)
}

/// Removes the characters of a class at either end.
pub fn trim_class<'a>(s: &'a str, class: CharClass) -> (res: &'a str)
    ensures
        res@ == trimmed_both(s@, class),
{
    trim_end_class(trim_start_class(s, class), class)
}

/// Removes the white space at either end.
pub fn trim<'a>(s: &'a str) -> (res: &'a str)
    ensures
        res@ == trimmed(s@),
{
    trim_class(s, CharClass::White)
}

// ---------------------------------------------------------------------------
// Searching
// ---------------------------------------------------------------------------
/// Whether a text holds a pattern at a position.
pub open spec fn occurs_at(s: Seq<char>, pat: Seq<char>, i: int) -> bool {
    0 <= i && i + pat.len() <= s.len() && s.subrange(i, i + pat.len()) == pat
}

/// Whether a text begins with a pattern.
pub open spec fn starts_with(s: Seq<char>, pat: Seq<char>) -> bool {
    occurs_at(s, pat, 0)
}

/// The first position, at or after `from`, at which a text holds a pattern.
pub open spec fn first_occurrence(s: Seq<char>, pat: Seq<char>, from: int) -> Option<int>
    decreases s.len() - from + 1,
{
    if from < 0 || from + pat.len() > s.len() {
        None
    } else if occurs_at(s, pat, from) {
        Some(from)
    } else {
        first_occurrence(s, pat, from + 1)
    }
}

/// The parts of a text before and after the first occurrence of a pattern.
pub open spec fn split_at_first(s: Seq<char>, pat: Seq<char>) -> Option<(Seq<char>, Seq<char>)> {
    match first_occurrence(s, pat, 0) {
        Some(i) => Some((s.take(i), s.skip(i + pat.len()))),
        None => None,
    }
}

/// What a text holds after a leading pattern.
pub open spec fn after_prefix(s: Seq<char>, pat: Seq<char>) -> Option<Seq<char>> {
    if starts_with(s, pat) {
        Some(s.skip(pat.len() as int))
    } else {
        None
    }
}

pub open spec fn opt_split_view(s: Option<(&str, &str)>) -> Option<(Seq<char>, Seq<char>)> {
    match s {
        Some((a, b)) => Some((a@, b@)),
        None => None,
    }
}

/// The first occurrence lies where nothing before it matches.
pub proof fn law_first_occurrence(s: Seq<char>, pat: Seq<char>, from: int)
    requires
        0 <= from,
    ensures
        match first_occurrence(s, pat, from) {
            Some(i) => from <= i && occurs_at(s, pat, i) && forall|j: int|
                from <= j < i ==> !#[trigger] occurs_at(s, pat, j),
            None => forall|j: int| from <= j ==> !#[trigger] occurs_at(s, pat, j),
        },
    decreases s.len() - from + 1,
{
    if from + pat.len() <= s.len() && !occurs_at(s, pat, from) {
        law_first_occurrence(s, pat, from + 1);
    }
}

/// Whether `chars` holds `pat` at position `i`.
pub fn matches_at(chars: &Vec<char>, pat: &Vec<char>, i: usize) -> (res: bool)
    requires
        i <= chars.len(),
    ensures
        res == occurs_at(chars@, pat@, i as int),
{
    if pat.len() > chars.len() - i {
        return false;
    }
    for k in 0..pat.len()
        invariant
            i + pat.len() <= chars.len(),
            forall|j: int| 0 <= j < k ==> chars@[i + j] == pat@[j],
    {
        if chars[i + k] != pat[k] {
            assert(chars@.subrange(i as int, i + pat.len())[k as int] != pat@[k as int]);
            return false;
        }
    }
    assert(chars@.subrange(i as int, i + pat.len()) =~= pat@);
    true
}

/// The first position at or after `from` at which `chars` holds `pat`.
pub fn find_from(chars: &Vec<char>, pat: &Vec<char>, from: usize) -> (res: Option<usize>)
    requires
        from <= chars.len(),
    ensures
        match res {
            Some(i) => i + pat.len() <= chars.len() && first_occurrence(
                chars@,
                pat@,
                from as int,
            ) == Some(i as int),
            None => first_occurrence(chars@, pat@, from as int) is None,
        },
{
    let mut i: usize = from;
    while i <= chars.len() && pat.len() <= chars.len() - i
        invariant
            from <= i <= chars.len(),
            first_occurrence(chars@, pat@, from as int) == first_occurrence(chars@, pat@, i as int),
        decreases chars.len() - i,
    {
        if matches_at(chars, pat, i) {
            return Some(i);
        }
        if i == chars.len() {
            assert(first_occurrence(chars@, pat@, i + 1) is None);
            return None;
        }
        i = i + 1;
    }
    None
}

/// Whether a text begins with a pattern.
pub fn has_prefix(s: &str, pat: &str) -> (res: bool)
    ensures
        res == starts_with(s@, pat@),
{
    let chars = chars_of(s);
    let p = chars_of(pat);
    matches_at(&chars, &p, 0)
}

/// What a text holds after a leading pattern.
pub fn strip_prefix<'a>(s: &'a str, pat: &str) -> (res: Option<&'a str>)
    ensures
        opt_str_view(res) == after_prefix(s@, pat@),
{
    let chars = chars_of(s);
    let p = chars_of(pat);
    if matches_at(&chars, &p, 0) {
        proof {
            assert(s@.skip(pat@.len() as int) =~= s@.subrange(pat@.len() as int, s@.len() as int));
        }
        Some(s.substring_char(p.len(), chars.len()))
    } else {
        None
    }
}

/// The parts of a text before and after the first occurrence of a pattern.
pub fn split_once<'a>(s: &'a str, pat: &str) -> (res: Option<(&'a str, &'a str)>)
    ensures
        opt_split_view(res) == split_at_first(s@, pat@),
{
    let chars = chars_of(s);
    let p = chars_of(pat);
    match find_from(&chars, &p, 0) {
        Some(i) => {
            proof {
                law_first_occurrence(s@, pat@, 0);
                assert(s@.take(i as int) =~= s@.subrange(0, i as int));
                assert(s@.skip(i + pat@.len()) =~= s@.subrange(
                    i + pat@.len(),
                    s@.len() as int,
                ));
            }
            Some((s.substring_char(0, i), s.substring_char(i + p.len(), chars.len())))
        },
        None => None,
    }
}

/// A text without the copies of a pattern at its start.
pub open spec fn without_prefixes(s: Seq<char>, pat: Seq<char>) -> Seq<char>
    decreases s.len(),
{
    if pat.len() > 0 && starts_with(s, pat) {
        without_prefixes(s.skip(pat.len() as int), pat)
    } else {
        s
    }
}

/// Removes the copies of a pattern at the start of a text.
pub fn trim_prefixes<'a>(s: &'a str, pat: &str) -> (res: &'a str)
    ensures
        res@ == without_prefixes(s@, pat@),
{
    let chars = chars_of(s);
    let p = chars_of(pat);
    proof {
        assert(s@.subrange(0, s@.len() as int) =~= s@);
    }
    if p.len() == 0 {
        return s;
    }
    let mut i: usize = 0;
    while matches_at(&chars, &p, i)
        invariant
            i <= chars.len(),
            chars@ == s@,
            p@ == pat@,
            p.len() > 0,
            without_prefixes(s@, pat@) == without_prefixes(s@.skip(i as int), pat@),
        decreases chars.len() - i,
    {
        proof {
            let t = s@.skip(i as int);
            assert(t.subrange(0, pat@.len() as int) =~= s@.subrange(i as int, i + pat@.len()));
            assert(t.skip(pat@.len() as int) =~= s@.skip(i + pat@.len()));
        }
        i = i + p.len();
    }
    proof {
        let t = s@.skip(i as int);
        if starts_with(t, pat@) {
            assert(t.subrange(0, pat@.len() as int) =~= s@.subrange(i as int, i + pat@.len()));
        }
        assert(t =~= s@.subrange(i as int, s@.len() as int));
    }
    s.substring_char(i, chars.len())
}

/// A text in which each occurrence of a pattern, found from left to right
/// without overlap, gives way to a replacement.
pub open spec fn replaced(s: Seq<char>, pat: Seq<char>, by: Seq<char>) -> Seq<char>
    decreases s.len(),
{
    if s.len() == 0 {
        s
    } else if pat.len() > 0 && starts_with(s, pat) {
        by + replaced(s.skip(pat.len() as int), pat, by)
    } else {
        seq![s[0]] + replaced(s.drop_first(), pat, by)
    }
}

/// Replaces each occurrence of a non-empty pattern.
pub fn replace_all(s: &str, pat: &str, by: &str) -> (res: String)
    requires
        pat@.len() > 0,
    ensures
        res@ == replaced(s@, pat@, by@),
{
    let chars = chars_of(s);
    let p = chars_of(pat);
    let mut out = String::new();
    let mut i: usize = 0;
    proof {
        assert(s@.skip(0) =~= s@);
    }
    while i < chars.len()
        invariant
            i <= chars.len(),
            chars@ == s@,
            p@ == pat@,
            p.len() > 0,
            replaced(s@, pat@, by@) =~= out@ + replaced(s@.skip(i as int), pat@, by@),
        decreases chars.len() - i,
    {
        let ghost t = s@.skip(i as int);
        if matches_at(&chars, &p, i) {
            proof {
                assert(t.subrange(0, pat@.len() as int) =~= s@.subrange(i as int, i + pat@.len()));
                assert(t.skip(pat@.len() as int) =~= s@.skip(i + pat@.len()));
            }
            out.append(by);
            i = i + p.len();
        } else {
            proof {
                if starts_with(t, pat@) {
                    assert(t.subrange(0, pat@.len() as int) =~= s@.subrange(
                        i as int,
                        i + pat@.len(),
                    ));
                }
                assert(t.drop_first() =~= s@.skip(i + 1));
            }
            out.push(chars[i]);
            i = i + 1;
        }
    }
    out
}

// ---------------------------------------------------------------------------
// Splitting and joining
// ---------------------------------------------------------------------------
/// The parts of a text between the occurrences of a separator.
pub open spec fn fields(s: Seq<char>, sep: char) -> Seq<Seq<char>>
    decreases s.len(),
{
    if s.len() == 0 {
        seq![Seq::empty()]
    } else {
        let f = fields(s.drop_last(), sep);
        if s.last() == sep {
            f.push(Seq::empty())
        } else {
            f.drop_last().push(f.last().push(s.last()))
        }
    }
}

pub proof fn lemma_fields_nonempty(s: Seq<char>, sep: char)
    ensures
        fields(s, sep).len() > 0,
    decreases s.len(),
{
    if s.len() > 0 {
        lemma_fields_nonempty(s.drop_last(), sep);
    }
}

/// Splits a text at each occurrence of a separator.
pub fn split_fields(s: &str, sep: char) -> (res: Vec<String>)
    ensures
        views(res@) == fields(s@, sep),
{
    let chars = chars_of(s);
    let mut out: Vec<String> = Vec::new();
    let mut current = String::new();
    proof {
        assert(views(out@).push(current@) =~= fields(s@.take(0), sep));
    }
    for i in 0..chars.len()
        invariant
            chars@ == s@,
            views(out@).push(current@) == fields(s@.take(i as int), sep),
    {
        let ghost head = s@.take(i as int);
        proof {
            assert(s@.take(i + 1).drop_last() =~= head);
            assert(views(out@).push(current@).drop_last() =~= views(out@));
        }
        if chars[i] == sep {
            let ghost before = out@;
            let ghost item = current;
            out.push(current);
            current = String::new();
            proof {
                lemma_views_push(before, item);
            }
        } else {
            current.push(chars[i]);
        }
        assert(views(out@).push(current@) =~= fields(s@.take(i + 1), sep));
    }
    proof {
        assert(s@.take(s@.len() as int) =~= s@);
        lemma_views_push(out@, current);
    }
    out.push(current);
    out
}

/// The maximal runs of characters that are no white space.
pub open spec fn words(s: Seq<char>) -> Seq<Seq<char>>
    decreases s.len(),
{
    if s.len() == 0 {
        Seq::empty()
    } else {
        let w = words(s.drop_last());
        if white_space(s.last()) {
            w
        } else if s.len() > 1 && !white_space(s[s.len() - 2]) {
            w.drop_last().push(w.last().push(s.last()))
        } else {
            w.push(seq![s.last()])
        }
    }
}

/// Splits a text at its white space.
pub fn split_words(s: &str) -> (res: Vec<String>)
    ensures
        views(res@) == words(s@),
{
    let chars = chars_of(s);
    let mut out: Vec<String> = Vec::new();
    let mut current = String::new();
    let mut open: bool = false;
    proof {
        assert(views(out@) =~= words(s@.take(0)));
    }
    for i in 0..chars.len()
        invariant
            chars@ == s@,
            open == (i > 0 && !white_space(s@[i - 1])),
            open ==> views(out@).push(current@) == words(s@.take(i as int)),
            !open ==> views(out@) == words(s@.take(i as int)) && current@.len() == 0,
    {
        proof {
            assert(s@.take(i + 1).drop_last() =~= s@.take(i as int));
            assert(views(out@).push(current@).drop_last() =~= views(out@));
        }
        if chars[i].is_whitespace() {
            if open {
                proof {
                    lemma_views_push(out@, current);
                }
                out.push(current);
                current = String::new();
                open = false;
            }
        } else {
            current.push(chars[i]);
            proof {
                if !open {
                    assert(current@ =~= seq![s@[i as int]]);
                }
            }
            open = true;
        }
        assert(open ==> views(out@).push(current@) =~= words(s@.take(i + 1)));
    }
    proof {
        assert(s@.take(s@.len() as int) =~= s@);
    }
    if open {
        proof {
            lemma_views_push(out@, current);
        }
        out.push(current);
    }
    out
}

/// Texts one after another, with a separator between neighbours.
pub open spec fn joined(parts: Seq<Seq<char>>, sep: Seq<char>) -> Seq<char>
    decreases parts.len(),
{
    if parts.len() == 0 {
        Seq::empty()
    } else if parts.len() == 1 {
        parts[0]
    } else {
        joined(parts.drop_last(), sep) + sep + parts.last()
    }
}

/// Joins texts with a separator between neighbours.
pub fn join(parts: &Vec<String>, sep: &str) -> (res: String)
    ensures
        res@ == joined(views(parts@), sep@),
{
    let mut out = String::new();
    for i in 0..parts.len()
        invariant
            out@ == joined(views(parts@).take(i as int), sep@),
    {
        if i > 0 {
            out.append(sep);
        }
        out.append(parts[i].as_str());
        proof {
            let now = views(parts@).take(i + 1);
            assert(now.drop_last() =~= views(parts@).take(i as int));
            assert(out@ =~= joined(now, sep@));
        }
    }
    proof {
        assert(views(parts@).take(parts.len() as int) =~= views(parts@));
    }
    out
}

/// A line without the carriage return that belongs to its line feed.
pub open spec fn without_return(s: Seq<char>) -> Seq<char> {
    if s.len() > 0 && s.last() == '\r' {
        s.drop_last()
    } else {
        s
    }
}

/// The lines of a text. A line ends in a line feed, with or without a carriage
/// return before it; the line feed after the last line may be missing.
pub open spec fn lines(s: Seq<char>) -> Seq<Seq<char>> {
    let f = fields(s, '\n');
    let ended = f.drop_last().map_values(|line: Seq<char>| without_return(line));
    if f.last().len() == 0 {
        ended
    } else {
        ended.push(f.last())
    }
}

/// Splits a text into its lines.
pub fn split_lines(s: &str) -> (res: Vec<String>)
    ensures
        views(res@) == lines(s@),
{
    let parts = split_fields(s, '\n');
    proof {
        lemma_fields_nonempty(s@, '\n');
    }
    let ghost f = fields(s@, '\n');
    let n: usize = parts.len() - 1;
    let mut out: Vec<String> = Vec::new();
    for i in 0..n
        invariant
            n == parts.len() - 1,
            views(parts@) == f,
            views(out@) =~= f.take(i as int).map_values(|line: Seq<char>| without_return(line)),
    {
        let chars = chars_of(parts[i].as_str());
        let end: usize = if chars.len() > 0 && chars[chars.len() - 1] == '\r' {
            chars.len() - 1
        } else {
            chars.len()
        };
        let line = text_from(&chars, 0, end);
        proof {
            assert(chars@ == f[i as int]);
            assert(line@ =~= without_return(f[i as int]));
            lemma_views_push(out@, line);
        }
        out.push(line);
    }
    proof {
        assert(f.take(n as int) =~= f.drop_last());
    }
    if !parts[n].as_str().is_empty() {
        let last = copy_text(parts[n].as_str());
        proof {
            lemma_views_push(out@, last);
        }
        out.push(last);
    }
    out
}

// ---------------------------------------------------------------------------
// Case
// ---------------------------------------------------------------------------
/// The lower-case form of a text under the Unicode case mapping, as
/// `str::to_lowercase` gives it.
pub uninterp spec fn lowercase(s: Seq<char>) -> Seq<char>;

/// `str::to_lowercase` maps a text to its Unicode lower-case form, which the
/// name `lowercase` stands for. On ASCII text that form differs only in the
/// letters `A` to `Z`.
pub assume_specification[ str::to_lowercase ](s: &str) -> (res: String)
    ensures
        res@ == lowercase(s@),
        is_ascii_chars(s@) ==> res@ == ascii_lowercase(s@),
;

/// A text with each ASCII letter in lower case.
pub open spec fn ascii_lowercase(s: Seq<char>) -> Seq<char> {
    s.map_values(|c: char| ascii_lower(c))
}

/// The lower-case form of a text: on ASCII text each letter by itself.
pub open spec fn lower_form(s: Seq<char>) -> Seq<char> {
    if is_ascii_chars(s) {
        ascii_lowercase(s)
    } else {
        lowercase(s)
    }
}

/// Whether two ASCII texts differ at most in the case of their letters.
pub open spec fn same_but_case(a: Seq<char>, b: Seq<char>) -> bool {
    is_ascii_chars(a) && is_ascii_chars(b) && ascii_lowercase(a) == ascii_lowercase(b)
}

/// Whether two texts differ only in the case of ASCII letters.
pub fn eq_ignore_ascii_case(a: &str, b: &str) -> (res: bool)
    ensures
        res == (ascii_lowercase(a@) == ascii_lowercase(b@)),
{
    let x = chars_of(a);
    let y = chars_of(b);
    if x.len() != y.len() {
        assert(ascii_lowercase(a@).len() != ascii_lowercase(b@).len());
        return false;
    }
    for i in 0..x.len()
        invariant
            x@ == a@,
            y@ == b@,
            x.len() == y.len(),
            forall|j: int| 0 <= j < i ==> ascii_lower(x@[j]) == ascii_lower(y@[j]),
    {
        if lower_char(x[i]) != lower_char(y[i]) {
            assert(ascii_lowercase(a@)[i as int] != ascii_lowercase(b@)[i as int]);
            return false;
        }
    }
    assert(ascii_lowercase(a@) =~= ascii_lowercase(b@));
    true
}

} // verus!
