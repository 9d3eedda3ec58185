//! What the functions on texts and on single-precision numbers mean, in terms of
//! characters and bits.
use crate::float::Single;
use crate::text::{
    after_prefix, ascii_lower, ascii_lowercase, ascii_upper, byte_count, fields,
    first_occurrence, is_ascii_letter, is_ascii_lower, is_ascii_upper, joined,
    law_first_occurrence, lemma_fields_nonempty, lines, lower_form, occurs_at, replaced,
    same_but_case, split_at_first, starts_with, text_before, trimmed, trimmed_both, trimmed_end,
    trimmed_start, white_space, without_prefixes, words, CharClass,
};
use vstd::prelude::*;
use vstd::utf8::encode_utf8;
use vstd::utf8::is_ascii_chars;

verus! {

// ---------------------------------------------------------------------------
// Numbers
// ---------------------------------------------------------------------------
/// What the bits of a single-precision value say. Bits above those of the two
/// infinities stand for no number. Of two numbers without the sign bit the one with
/// the smaller bits is less, of two with it the one with the greater bits; a number
/// with it is less than one without, unless both are zero. The numbers from 0 to 1
/// are those with bits up to those of 1, and the negative zero.
pub proof fn law_bits_order(a: Single, b: Single)
    ensures
        a.nan() <==> 0x7f80_0000 < a.bits < 0x8000_0000 || 0xff80_0000 < a.bits,
        a.in_unit() <==> a.bits <= 0x3f80_0000 || a.bits == 0x8000_0000,
        a.nan() || b.nan() ==> !a.less(b),
        !a.nan() && !b.nan() ==> (a.less(b) <==> if a.bits < 0x8000_0000 {
            b.bits < 0x8000_0000 && a.bits < b.bits
        } else if b.bits < 0x8000_0000 {
            a.bits != 0x8000_0000 || b.bits != 0
        } else {
            b.bits < a.bits
        }),
        a.key() < b.key() <==> (if a.bits < 0x8000_0000 {
            b.bits < 0x8000_0000 && a.bits < b.bits
        } else if b.bits < 0x8000_0000 {
            a.bits != 0x8000_0000 || b.bits != 0
        } else {
            b.bits < a.bits
        }),
{
}

/// The greater of two numbers is one of them, and neither is greater than it; the
/// smaller likewise. Where one is no number, it is the other one.
pub proof fn law_larger_smaller(a: Single, b: Single)
    ensures
        a.nan() ==> a.larger(b) == b && a.smaller(b) == b,
        b.nan() && !a.nan() ==> a.larger(b) == a && a.smaller(b) == a,
        !a.nan() && !b.nan() ==> {
            &&& a.larger(b) == a || a.larger(b) == b
            &&& a.smaller(b) == a || a.smaller(b) == b
            &&& !a.larger(b).less(a) && !a.larger(b).less(b)
            &&& !a.less(a.smaller(b)) && !b.less(a.smaller(b))
        },
{
}

// ---------------------------------------------------------------------------
// Characters
// ---------------------------------------------------------------------------
/// Which characters trimming removes.
pub proof fn law_trimmed_characters(c: char)
    ensures
        CharClass::White.holds(c) <==> white_space(c),
        white_space(c) <==> {
            ||| 9 <= c as u32 <= 13
            ||| c as u32 == 0x20
            ||| c as u32 == 0x85
            ||| c as u32 == 0xa0
            ||| c as u32 == 0x1680
            ||| 0x2000 <= c as u32 <= 0x200a
            ||| c as u32 == 0x2028
            ||| c as u32 == 0x2029
            ||| c as u32 == 0x202f
            ||| c as u32 == 0x205f
            ||| c as u32 == 0x3000
        },
        CharClass::Stop.holds(c) <==> c == '.',
        CharClass::Wrapping.holds(c) <==> seq![',', ';', ':', '"', '\'', '(', ')', '[', ']'].contains(
            c,
        ),
        CharClass::Asking.holds(c) <==> CharClass::Wrapping.holds(c) || seq![
            '{',
            '}',
            '?',
            '!',
        ].contains(c),
{
    let w = seq![',', ';', ':', '"', '\'', '(', ')', '[', ']'];
    let q = seq!['{', '}', '?', '!'];
    assert(w[0] == ',' && w[1] == ';' && w[2] == ':' && w[3] == '"' && w[4] == '\'' && w[5] == '('
        && w[6] == ')' && w[7] == '[' && w[8] == ']');
    assert(q[0] == '{' && q[1] == '}' && q[2] == '?' && q[3] == '!');
}

/// An ASCII letter and its other case are 32 apart; no other character changes.
pub proof fn law_ascii_case(c: char)
    ensures
        is_ascii_upper(c) <==> 65 <= c as u32 <= 90,
        is_ascii_lower(c) <==> 97 <= c as u32 <= 122,
        is_ascii_letter(c) <==> is_ascii_upper(c) || is_ascii_lower(c),
        ascii_lower(c) as u32 == if 65 <= c as u32 <= 90 {
            c as u32 + 32
        } else {
            c as u32 as int
        },
        ascii_upper(c) as u32 == if 97 <= c as u32 <= 122 {
            c as u32 - 32
        } else {
            c as u32 as int
        },
{
}

/// The lower-case form of an ASCII text is the text with each letter by itself in
/// lower case; and texts that differ at most in case have one lower-case form.
pub proof fn law_lower_case(s: Seq<char>, t: Seq<char>)
    ensures
        ascii_lowercase(s).len() == s.len(),
        forall|i: int|
            0 <= i < s.len() ==> #[trigger] ascii_lowercase(s)[i] == ascii_lower(s[i]),
        is_ascii_chars(s) ==> lower_form(s) == ascii_lowercase(s),
        same_but_case(s, t) <==> is_ascii_chars(s) && is_ascii_chars(t) && s.len() == t.len()
            && forall|i: int|
            0 <= i < s.len() ==> ascii_lower(#[trigger] s[i]) == ascii_lower(t[i]),
{
    if is_ascii_chars(s) && is_ascii_chars(t) && s.len() == t.len() && forall|i: int|
        0 <= i < s.len() ==> ascii_lower(#[trigger] s[i]) == ascii_lower(t[i]) {
        assert(ascii_lowercase(s) =~= ascii_lowercase(t));
    }
    if same_but_case(s, t) {
        assert(ascii_lowercase(s).len() == ascii_lowercase(t).len());
        assert forall|i: int| 0 <= i < s.len() implies ascii_lower(#[trigger] s[i]) == ascii_lower(
            t[i],
        ) by {
            assert(ascii_lowercase(s)[i] == ascii_lowercase(t)[i]);
        }
    }
}

/// The length of a text is counted in the bytes of its UTF-8 form.
pub proof fn law_byte_count(s: Seq<char>)
    ensures
        byte_count(s) == encode_utf8(s).len(),
{
}

// ---------------------------------------------------------------------------
// Order
// ---------------------------------------------------------------------------
/// Whether two texts agree before a position.
pub open spec fn agree_before(a: Seq<char>, b: Seq<char>, n: int) -> bool {
    forall|j: int| 0 <= j < n ==> #[trigger] a[j] == b[j]
}

/// A text comes before another one if and only if it is a proper start of it, or
/// has the smaller character where they first differ.
pub proof fn law_text_order(a: Seq<char>, b: Seq<char>)
    ensures
        text_before(a, b) <==> exists|n: int|
            0 <= n <= a.len() && n < b.len() && #[trigger] agree_before(a, b, n) && (n == a.len()
                || a[n] < b[n]),
    decreases a.len(),
{
    if a.len() > 0 && b.len() > 0 && a[0] == b[0] {
        let x = a.drop_first();
        let y = b.drop_first();
        law_text_order(x, y);
        if text_before(a, b) {
            let n = choose|n: int|
                0 <= n <= x.len() && n < y.len() && #[trigger] agree_before(x, y, n) && (n
                    == x.len() || x[n] < y[n]);
            assert(agree_before(a, b, n + 1)) by {
                assert forall|j: int| 0 <= j < n + 1 implies #[trigger] a[j] == b[j] by {
                    if j > 0 {
                        assert(x[j - 1] == y[j - 1]);
                    }
                }
            }
        }
        if exists|n: int|
            0 <= n <= a.len() && n < b.len() && #[trigger] agree_before(a, b, n) && (n == a.len()
                || a[n] < b[n]) {
            let n = choose|n: int|
                0 <= n <= a.len() && n < b.len() && #[trigger] agree_before(a, b, n) && (n
                    == a.len() || a[n] < b[n]);
            assert(n > 0);
            assert(agree_before(x, y, n - 1)) by {
                assert forall|j: int| 0 <= j < n - 1 implies #[trigger] x[j] == y[j] by {
                    assert(a[j + 1] == b[j + 1]);
                }
            }
        }
    } else if b.len() > 0 {
        if text_before(a, b) {
            assert(agree_before(a, b, 0));
        } else {
            assert forall|n: int|
                0 <= n <= a.len() && n < b.len() && #[trigger] agree_before(a, b, n) implies !(n
                == a.len() || a[n] < b[n]) by {
                if n > 0 {
                    assert(a[0] == b[0]);
                }
            }
        }
    }
}

// ---------------------------------------------------------------------------
// Trimming
// ---------------------------------------------------------------------------
/// Whether a text is what is left of another one when characters of a class are
/// taken from its ends, as many as there are.
pub open spec fn is_trimmed(s: Seq<char>, class: CharClass, t: Seq<char>) -> bool {
    exists|from: int, to: int|
        0 <= from <= to <= s.len() && t == #[trigger] s.subrange(from, to) && (forall|j: int|
            0 <= j < from || to <= j < s.len() ==> class.holds(#[trigger] s[j])) && (from < to
            ==> !class.holds(s[from]) && !class.holds(s[to - 1]))
}

proof fn lemma_start(s: Seq<char>, class: CharClass) -> (from: int)
    ensures
        0 <= from <= s.len(),
        trimmed_start(s, class) == s.skip(from),
        forall|j: int| 0 <= j < from ==> class.holds(#[trigger] s[j]),
        from < s.len() ==> !class.holds(s[from]),
    decreases s.len(),
{
    if s.len() > 0 && class.holds(s[0]) {
        let n = lemma_start(s.drop_first(), class);
        assert(s.drop_first().skip(n) =~= s.skip(n + 1));
        assert forall|j: int| 0 <= j < n + 1 implies class.holds(#[trigger] s[j]) by {
            if j > 0 {
                assert(s.drop_first()[j - 1] == s[j]);
            }
        }
        n + 1
    } else {
        assert(s.skip(0) =~= s);
        0
    }
}

proof fn lemma_end(s: Seq<char>, class: CharClass) -> (to: int)
    ensures
        0 <= to <= s.len(),
        trimmed_end(s, class) == s.take(to),
        forall|j: int| to <= j < s.len() ==> class.holds(#[trigger] s[j]),
        to > 0 ==> !class.holds(s[to - 1]),
    decreases s.len(),
{
    if s.len() > 0 && class.holds(s.last()) {
        let n = lemma_end(s.drop_last(), class);
        assert(s.drop_last().take(n) =~= s.take(n));
        assert forall|j: int| n <= j < s.len() implies class.holds(#[trigger] s[j]) by {
            if j < s.len() - 1 {
                assert(s.drop_last()[j] == s[j]);
            }
        }
        n
    } else {
        assert(s.take(s.len() as int) =~= s);
        s.len() as int
    }
}

/// Trimming takes the characters of a class from the ends of a text, as many as
/// there are, and nothing else.
pub proof fn law_trim(s: Seq<char>, class: CharClass)
    ensures
        is_trimmed(s, class, trimmed_both(s, class)),
        trimmed(s) == trimmed_both(s, CharClass::White),
        exists|to: int|
            0 <= to <= s.len() && trimmed_end(s, class) == #[trigger] s.take(to) && (forall|j: int|
                to <= j < s.len() ==> class.holds(#[trigger] s[j])) && (to > 0 ==> !class.holds(
                s[to - 1],
            )),
{
    let from = lemma_start(s, class);
    let rest = s.skip(from);
    let n = lemma_end(rest, class);
    let to = from + n;
    assert(rest.take(n) =~= s.subrange(from, to));
    assert forall|j: int| 0 <= j < from || to <= j < s.len() implies class.holds(
        #[trigger] s[j],
    ) by {
        if j >= to {
            assert(rest[j - from] == s[j]);
        }
    }
    if from < to {
        assert(rest[n - 1] == s[to - 1]);
    }
    assert(trimmed_both(s, class) == s.subrange(from, to));
    let e = lemma_end(s, class);
    assert(trimmed_end(s, class) == s.take(e));
}

// ---------------------------------------------------------------------------
// Searching
// ---------------------------------------------------------------------------
/// A prefix is taken off exactly where the text begins with it.
pub proof fn law_prefix(s: Seq<char>, pat: Seq<char>, rest: Seq<char>)
    ensures
        after_prefix(s, pat) == Some(rest) <==> s == pat + rest,
        after_prefix(s, pat) is None <==> !starts_with(s, pat),
        starts_with(s, pat) <==> pat.len() <= s.len() && s.take(pat.len() as int) == pat,
        starts_with(pat + rest, pat),
{
    if pat.len() <= s.len() {
        assert(s.take(pat.len() as int) =~= s.subrange(0, pat.len() as int));
        assert(s =~= s.take(pat.len() as int) + s.skip(pat.len() as int));
    }
    assert((pat + rest).subrange(0, pat.len() as int) =~= pat);
    assert((pat + rest).skip(pat.len() as int) =~= rest);
}

/// A text is split at the first place where it holds a pattern: what comes before,
/// the pattern and what comes after make up the text. It is not split where it
/// holds the pattern nowhere.
pub proof fn law_split(s: Seq<char>, pat: Seq<char>)
    ensures
        match split_at_first(s, pat) {
            Some((head, tail)) => {
                &&& s == head + pat + tail
                &&& forall|j: int|
                    0 <= j < head.len() ==> #[trigger] s.subrange(j, j + pat.len()) != pat
            },
            None => forall|j: int|
                0 <= j && j + pat.len() <= s.len() ==> #[trigger] s.subrange(j, j + pat.len())
                    != pat,
        },
{
    law_first_occurrence(s, pat, 0);
    match first_occurrence(s, pat, 0) {
        Some(i) => {
            assert(occurs_at(s, pat, i));
            assert(s =~= s.take(i) + pat + s.skip(i + pat.len())) by {
                assert(s.subrange(i, i + pat.len()) == pat);
                assert forall|k: int| 0 <= k < pat.len() implies s[i + k] == pat[k] by {
                    assert(s.subrange(i, i + pat.len())[k] == pat[k]);
                }
            }
            assert forall|j: int| 0 <= j < i implies #[trigger] s.subrange(j, j + pat.len())
                != pat by {
                assert(!occurs_at(s, pat, j));
            }
        },
        None => {
            assert forall|j: int| 0 <= j && j + pat.len() <= s.len() implies
                #[trigger] s.subrange(j, j + pat.len()) != pat by {
                assert(!occurs_at(s, pat, j));
            }
        },
    }
}

/// Copies of a pattern are taken off the start of a text until it does not begin
/// with the pattern; a text that does not begin with it stays as it is.
pub proof fn law_without_prefixes(s: Seq<char>, pat: Seq<char>)
    requires
        pat.len() > 0,
    ensures
        !starts_with(without_prefixes(s, pat), pat),
        !starts_with(s, pat) ==> without_prefixes(s, pat) == s,
        without_prefixes(pat + s, pat) == without_prefixes(s, pat),
    decreases s.len(),
{
    law_prefix(pat + s, pat, s);
    if starts_with(s, pat) {
        law_without_prefixes(s.skip(pat.len() as int), pat);
    }
}

/// A text in which a pattern is replaced: where it holds the pattern nowhere, it
/// stays; what comes before the first place where it does stays, the replacement
/// stands there, and the rest is treated likewise.
pub proof fn law_replaced(s: Seq<char>, pat: Seq<char>, by: Seq<char>)
    requires
        pat.len() > 0,
    ensures
        match split_at_first(s, pat) {
            Some((head, tail)) => replaced(s, pat, by) == head + by + replaced(tail, pat, by),
            None => replaced(s, pat, by) == s,
        },
    decreases s.len(),
{
    law_first_occurrence(s, pat, 0);
    if s.len() > 0 {
        if starts_with(s, pat) {
            assert(s.take(0) + by + replaced(s.skip(pat.len() as int), pat, by) =~= by + replaced(
                s.skip(pat.len() as int),
                pat,
                by,
            ));
        } else {
            let t = s.drop_first();
            law_replaced(t, pat, by);
            law_first_occurrence(t, pat, 0);
            lemma_occurs_shift(s, pat);
            match first_occurrence(t, pat, 0) {
                Some(i) => {
                    assert(occurs_at(s, pat, i + 1));
                    assert(first_occurrence(s, pat, 0) == Some(i + 1)) by {
                        let f = first_occurrence(s, pat, 0);
                        if f is None {
                            assert(!occurs_at(s, pat, i + 1));
                        } else {
                            let g = f->0;
                            assert(g != 0);
                            assert(occurs_at(t, pat, g - 1));
                            if g < i + 1 {
                                assert(!occurs_at(t, pat, g - 1));
                            }
                            if g > i + 1 {
                                assert(!occurs_at(s, pat, i + 1));
                            }
                        }
                    }
                    assert(s.take(i + 1) =~= seq![s[0]] + t.take(i));
                    assert(s.skip(i + 1 + pat.len()) =~= t.skip(i + pat.len()));
                    assert(replaced(s, pat, by) =~= s.take(i + 1) + by + replaced(
                        t.skip(i + pat.len()),
                        pat,
                        by,
                    ));
                },
                None => {
                    assert(first_occurrence(s, pat, 0) is None) by {
                        if first_occurrence(s, pat, 0) is Some {
                            let g = first_occurrence(s, pat, 0)->0;
                            assert(g != 0);
                            assert(occurs_at(t, pat, g - 1));
                        }
                    }
                    assert(replaced(s, pat, by) =~= s);
                },
            }
        }
    }
}

/// What a text holds after its first character, the rest holds one place before.
proof fn lemma_occurs_shift(s: Seq<char>, pat: Seq<char>)
    requires
        s.len() > 0,
    ensures
        forall|i: int|
            0 <= i ==> (#[trigger] occurs_at(s.drop_first(), pat, i) <==> occurs_at(s, pat, i + 1)),
        forall|i: int| 1 <= i && #[trigger] occurs_at(s, pat, i) ==> occurs_at(
            s.drop_first(),
            pat,
            i - 1,
        ),
{
    let t = s.drop_first();
    assert forall|i: int| 0 <= i implies (#[trigger] occurs_at(t, pat, i) <==> occurs_at(
        s,
        pat,
        i + 1,
    )) by {
        if i + pat.len() <= t.len() {
            assert(t.subrange(i, i + pat.len()) =~= s.subrange(i + 1, i + 1 + pat.len()));
        }
    }
    assert forall|i: int| 1 <= i && #[trigger] occurs_at(s, pat, i) implies occurs_at(
        t,
        pat,
        i - 1,
    ) by {
        assert(occurs_at(t, pat, i - 1) <==> occurs_at(s, pat, i - 1 + 1));
    }
}

// ---------------------------------------------------------------------------
// Splitting and joining
// ---------------------------------------------------------------------------
/// The parts of a text hold no separator, and joined by it they are the text.
pub proof fn law_fields(s: Seq<char>, sep: char)
    ensures
        fields(s, sep).len() > 0,
        forall|i: int, j: int|
            0 <= i < fields(s, sep).len() && 0 <= j < fields(s, sep)[i].len() ==> #[trigger] fields(
                s,
                sep,
            )[i][j] != sep,
        joined(fields(s, sep), seq![sep]) == s,
    decreases s.len(),
{
    let f = fields(s, sep);
    if s.len() == 0 {
        assert(f[0] =~= s);
    } else {
        let rest = s.drop_last();
        let g = fields(rest, sep);
        law_fields(rest, sep);
        assert(s =~= rest.push(s.last()));
        if s.last() == sep {
            assert(f.drop_last() =~= g);
            assert(joined(f, seq![sep]) =~= s);
        } else {
            let tail = g.last().push(s.last());
            assert(f.drop_last() =~= g.drop_last());
            assert forall|i: int, j: int|
                0 <= i < f.len() && 0 <= j < f[i].len() implies #[trigger] f[i][j] != sep by {
                if i < f.len() - 1 {
                    assert(f[i] == g[i]);
                } else if j < g.last().len() {
                    assert(f[i][j] == g[g.len() - 1][j]);
                }
            }
            assert(joined(f, seq![sep]) =~= s);
        }
    }
}

/// Texts are joined with the separator between neighbours and nowhere else.
pub proof fn law_joined(a: Seq<Seq<char>>, x: Seq<char>, sep: Seq<char>)
    ensures
        joined(Seq::empty(), sep) == Seq::<char>::empty(),
        joined(seq![x], sep) == x,
        a.len() > 0 ==> joined(a.push(x), sep) == joined(a, sep) + sep + x,
{
    if a.len() > 0 {
        assert(a.push(x).drop_last() =~= a);
    }
}

/// The words of a text are the runs of characters that are no white space: none of
/// a text of white space, the text itself where it has none, and those of both
/// sides where white space stands between.
pub proof fn law_words(a: Seq<char>, c: char, b: Seq<char>)
    requires
        white_space(c),
    ensures
        (forall|i: int| 0 <= i < a.len() ==> white_space(#[trigger] a[i])) ==> words(a).len() == 0,
        a.len() > 0 && (forall|i: int| 0 <= i < a.len() ==> !white_space(#[trigger] a[i]))
            ==> words(a) == seq![a],
        words(a + seq![c] + b) == words(a) + words(b),
{
    if forall|i: int| 0 <= i < a.len() ==> white_space(#[trigger] a[i]) {
        lemma_no_words(a);
    }
    if a.len() > 0 && (forall|i: int| 0 <= i < a.len() ==> !white_space(#[trigger] a[i])) {
        lemma_one_word(a);
    }
    lemma_words_apart(a, c, b);
}

proof fn lemma_no_words(a: Seq<char>)
    requires
        forall|i: int| 0 <= i < a.len() ==> white_space(#[trigger] a[i]),
    ensures
        words(a).len() == 0,
    decreases a.len(),
{
    if a.len() > 0 {
        lemma_no_words(a.drop_last());
        assert(white_space(a[a.len() - 1]));
    }
}

proof fn lemma_one_word(a: Seq<char>)
    requires
        a.len() > 0,
        forall|i: int| 0 <= i < a.len() ==> !white_space(#[trigger] a[i]),
    ensures
        words(a) == seq![a],
    decreases a.len(),
{
    assert(!white_space(a[a.len() - 1]));
    let head = a.drop_last();
    if a.len() > 1 {
        assert forall|i: int| 0 <= i < head.len() implies !white_space(#[trigger] head[i]) by {
            assert(head[i] == a[i]);
        }
        lemma_one_word(head);
        assert(!white_space(a[a.len() - 2]));
        assert(head.push(a.last()) =~= a);
        assert(words(a) =~= seq![a]);
    } else {
        assert(words(head) =~= Seq::empty());
        assert(seq![a.last()] =~= a);
        assert(words(a) =~= seq![a]);
    }
}

proof fn lemma_words_apart(a: Seq<char>, c: char, b: Seq<char>)
    requires
        white_space(c),
    ensures
        words(a + seq![c] + b) == words(a) + words(b),
    decreases b.len(),
{
    let s = a + seq![c] + b;
    if b.len() == 0 {
        assert(s.drop_last() =~= a);
        assert(s.last() == c);
        assert(words(a) + words(b) =~= words(a));
    } else {
        let rest = b.drop_last();
        lemma_words_apart(a, c, rest);
        assert(s.drop_last() =~= a + seq![c] + rest);
        assert(s.last() == b.last());
        if b.len() == 1 {
            assert(s[s.len() - 2] == c);
        } else {
            assert(s[s.len() - 2] == b[b.len() - 2]);
            if !white_space(b[b.len() - 2]) {
                lemma_last_word(rest);
            }
        }
        assert(words(s) =~= words(a) + words(b));
    }
}

/// A text that ends in a word has one.
proof fn lemma_last_word(s: Seq<char>)
    requires
        s.len() > 0,
        !white_space(s.last()),
    ensures
        words(s).len() > 0,
{
}

/// The lines of a text: none of an empty one; one that holds no line feed is one
/// line; a line feed ends a line, which a carriage return before it does not belong
/// to.
pub proof fn law_lines(a: Seq<char>, b: Seq<char>)
    requires
        !a.contains('\n'),
    ensures
        lines(a) == if a.len() == 0 {
            Seq::empty()
        } else {
            seq![a]
        },
        lines(a + seq!['\n'] + b) == seq![
            if a.len() > 0 && a.last() == '\r' {
                a.drop_last()
            } else {
                a
            },
        ] + lines(b),
{
    lemma_fields_none(a, '\n');
    lemma_fields_apart(a, '\n', b);
    lemma_fields_nonempty(b, '\n');
    let f = fields(a, '\n');
    assert(f.drop_last() =~= Seq::empty());
    assert(f.drop_last().map_values(|l: Seq<char>| crate::text::without_return(l)) =~= Seq::empty());
    assert(lines(a) =~= if a.len() == 0 {
        Seq::empty()
    } else {
        seq![a]
    });
    let g = fields(a + seq!['\n'] + b, '\n');
    let h = fields(b, '\n');
    assert(g == seq![a] + h);
    assert(g.drop_last() =~= seq![a] + h.drop_last());
    assert(g.last() == h.last());
    let strip = |l: Seq<char>| crate::text::without_return(l);
    assert(g.drop_last().map_values(strip) =~= seq![crate::text::without_return(a)]
        + h.drop_last().map_values(strip));
    assert(lines(a + seq!['\n'] + b) =~= seq![crate::text::without_return(a)] + lines(b));
}

proof fn lemma_fields_none(a: Seq<char>, sep: char)
    requires
        !a.contains(sep),
    ensures
        fields(a, sep) == seq![a],
    decreases a.len(),
{
    if a.len() == 0 {
        assert(a =~= Seq::empty());
    } else {
        let head = a.drop_last();
        assert(!head.contains(sep)) by {
            if head.contains(sep) {
                let i = choose|i: int| 0 <= i < head.len() && head[i] == sep;
                assert(a[i] == sep);
            }
        }
        lemma_fields_none(head, sep);
        assert(a[a.len() - 1] != sep);
        assert(head.push(a.last()) =~= a);
        assert(fields(a, sep) =~= seq![a]);
    }
}

proof fn lemma_fields_apart(a: Seq<char>, sep: char, b: Seq<char>)
    requires
        !a.contains(sep),
    ensures
        fields(a + seq![sep] + b, sep) == seq![a] + fields(b, sep),
    decreases b.len(),
{
    let s = a + seq![sep] + b;
    lemma_fields_none(a, sep);
    if b.len() == 0 {
        assert(s.drop_last() =~= a);
        assert(fields(s, sep) =~= seq![a] + fields(b, sep));
    } else {
        let rest = b.drop_last();
        lemma_fields_apart(a, sep, rest);
        lemma_fields_nonempty(rest, sep);
        assert(s.drop_last() =~= a + seq![sep] + rest);
        assert(s.last() == b.last());
        let f = seq![a] + fields(rest, sep);
        assert(f.last() == fields(rest, sep).last());
        assert(f.drop_last() =~= seq![a] + fields(rest, sep).drop_last());
        assert(fields(s, sep) =~= seq![a] + fields(b, sep));
    }
}

} // verus!
