//! Character classes and slicing helpers shared by the parsers.
//!
//! Text is modelled as `Seq<char>`. Executable code reads a `&str` once into a
//! `Vec<char>`, works on index ranges of it, and builds the strings it hands
//! out character by character.

use vstd::prelude::*;

verus! {

/// The characters with the Unicode property `White_Space`.
pub open spec fn is_whitespace(c: char) -> bool {
    let n = c as u32;
    ||| 0x09 <= n <= 0x0D
    ||| n == 0x20
    ||| n == 0x85
    ||| n == 0xA0
    ||| n == 0x1680
    ||| 0x2000 <= n <= 0x200A
    ||| n == 0x2028
    ||| n == 0x2029
    ||| n == 0x202F
    ||| n == 0x205F
    ||| n == 0x3000
}

/// Space, tab, line feed, form feed and carriage return.
pub open spec fn is_ascii_whitespace(c: char) -> bool {
    c == ' ' || c == '\t' || c == '\n' || c == '\x0C' || c == '\r'
}

/// `0` to `9`.
pub open spec fn is_ascii_digit(c: char) -> bool {
    '0' <= c && c <= '9'
}

/// `a` to `z` and `A` to `Z`.
pub open spec fn is_ascii_letter(c: char) -> bool {
    ('a' <= c && c <= 'z') || ('A' <= c && c <= 'Z')
}

/// An upper-case ASCII letter becomes its lower-case form; any other
/// character stays as it is.
pub open spec fn ascii_lower(c: char) -> char {
    if 'A' <= c && c <= 'Z' {
        ((c as u8) + 32) as char
    } else {
        c
    }
}

/// `s` without its leading whitespace.
pub open spec fn trim_start(s: Seq<char>) -> Seq<char>
    decreases s.len(),
{
    if s.len() > 0 && is_whitespace(s.first()) {
        trim_start(s.drop_first())
    } else {
        s
    }
}

/// `s` without its trailing whitespace.
pub open spec fn trim_end(s: Seq<char>) -> Seq<char>
    decreases s.len(),
{
    if s.len() > 0 && is_whitespace(s.last()) {
        trim_end(s.drop_last())
    } else {
        s
    }
}

/// `s` without leading and trailing whitespace.
pub open spec fn trim(s: Seq<char>) -> Seq<char> {
    trim_end(trim_start(s))
}

/// Whether `s` holds nothing but whitespace.
pub open spec fn is_blank(s: Seq<char>) -> bool {
    forall|i: int| 0 <= i < s.len() ==> is_whitespace(#[trigger] s[i])
}

/// The index of the first occurrence of `c` in `s` at or after `from`, or the
/// length of `s` where there is none.
pub open spec fn find_from(s: Seq<char>, c: char, from: int) -> int
    decreases s.len() - from,
{
    if from < 0 || from >= s.len() {
        s.len() as int
    } else if s[from] == c {
        from
    } else {
        find_from(s, c, from + 1)
    }
}

/// `find_from` stays inside `from..=s.len()`, skips no occurrence and stops
/// on one.
pub proof fn lemma_find_from(s: Seq<char>, c: char, from: int)
    requires
        0 <= from <= s.len(),
    ensures
        from <= find_from(s, c, from) <= s.len(),
        forall|i: int| from <= i < find_from(s, c, from) ==> s[i] != c,
        find_from(s, c, from) < s.len() ==> s[find_from(s, c, from)] == c,
    decreases s.len() - from,
{
    if from < s.len() && s[from] != c {
        lemma_find_from(s, c, from + 1);
    }
}

/// Two texts that agree from `from` up to an occurrence of `c` in the first
/// have their first `c` from `from` on at the same place.
pub proof fn lemma_find_from_agrees(a: Seq<char>, b: Seq<char>, c: char, from: int)
    requires
        0 <= from <= find_from(a, c, from) < a.len(),
        find_from(a, c, from) < b.len(),
        forall|i: int| from <= i <= find_from(a, c, from) ==> a[i] == b[i],
    ensures
        find_from(b, c, from) == find_from(a, c, from),
    decreases a.len() - from,
{
    if a[from] != c {
        lemma_find_from(a, c, from + 1);
        lemma_find_from_agrees(a, b, c, from + 1);
    }
}

/// A string is trimmed to nothing exactly when it is blank.
pub proof fn lemma_trim_blank(s: Seq<char>)
    ensures
        trim(s).len() == 0 <==> is_blank(s),
    decreases s.len(),
{
    lemma_trim_start_shape(s);
    let t = trim_start(s);
    lemma_trim_end_shape(t);
    let k = s.len() - t.len();
    if trim(s).len() == 0 {
        assert forall|i: int| 0 <= i < s.len() implies is_whitespace(#[trigger] s[i]) by {
            if i >= k {
                assert(t[i - k] == s[i]);
            }
        }
    } else {
        let j = trim(s).len() - 1;
        assert(!is_whitespace(t[j]));
        assert(t[j] == s[j + k]);
    }
}

/// `trim_start` drops a whitespace prefix and stops before the first
/// character that is no whitespace.
pub proof fn lemma_trim_start_shape(s: Seq<char>)
    ensures
        trim_start(s).len() <= s.len(),
        trim_start(s) == s.subrange(s.len() - trim_start(s).len(), s.len() as int),
        forall|i: int| 0 <= i < s.len() - trim_start(s).len() ==> is_whitespace(#[trigger] s[i]),
        trim_start(s).len() > 0 ==> !is_whitespace(trim_start(s).first()),
    decreases s.len(),
{
    if s.len() > 0 && is_whitespace(s.first()) {
        let r = s.drop_first();
        lemma_trim_start_shape(r);
        let k = r.len() - trim_start(r).len();
        assert(r.subrange(k, r.len() as int) == s.subrange(k + 1, s.len() as int));
        assert forall|i: int| 0 <= i < s.len() - trim_start(s).len() implies is_whitespace(
            #[trigger] s[i],
        ) by {
            if i > 0 {
                assert(s[i] == r[i - 1]);
            }
        }
    } else {
        assert(s == s.subrange(0, s.len() as int));
    }
}

/// `trim_end` drops a whitespace suffix and stops behind the last character
/// that is no whitespace.
pub proof fn lemma_trim_end_shape(s: Seq<char>)
    ensures
        trim_end(s).len() <= s.len(),
        trim_end(s) == s.subrange(0, trim_end(s).len() as int),
        forall|i: int| trim_end(s).len() <= i < s.len() ==> is_whitespace(#[trigger] s[i]),
        trim_end(s).len() > 0 ==> !is_whitespace(trim_end(s).last()),
    decreases s.len(),
{
    if s.len() > 0 && is_whitespace(s.last()) {
        let r = s.drop_last();
        lemma_trim_end_shape(r);
        assert(r.subrange(0, trim_end(r).len() as int) == s.subrange(
            0,
            trim_end(r).len() as int,
        ));
        assert forall|i: int| trim_end(s).len() <= i < s.len() implies is_whitespace(
            #[trigger] s[i],
        ) by {
            if i < r.len() {
                assert(s[i] == r[i]);
            }
        }
    } else {
        assert(s == s.subrange(0, s.len() as int));
    }
}

/// The index of the first ASCII whitespace in `s` at or after `from`, or the
/// length of `s` where there is none.
pub open spec fn word_end(s: Seq<char>, from: int) -> int
    decreases s.len() - from,
{
    if from < 0 || from >= s.len() {
        s.len() as int
    } else if is_ascii_whitespace(s[from]) {
        from
    } else {
        word_end(s, from + 1)
    }
}

/// `word_end` stays inside `from..=s.len()` and passes no whitespace.
pub proof fn lemma_word_end(s: Seq<char>, from: int)
    requires
        0 <= from <= s.len(),
    ensures
        from <= word_end(s, from) <= s.len(),
        forall|i: int| from <= i < word_end(s, from) ==> !is_ascii_whitespace(s[i]),
        word_end(s, from) < s.len() ==> is_ascii_whitespace(s[word_end(s, from)]),
    decreases s.len() - from,
{
    if from < s.len() && !is_ascii_whitespace(s[from]) {
        lemma_word_end(s, from + 1);
    }
}

/// The words of `s` from index `from` on: its maximal runs of characters
/// that are no ASCII whitespace, in order.
pub open spec fn words_from(s: Seq<char>, from: int) -> Seq<Seq<char>>
    decreases s.len() - from,
{
    if from < 0 || from >= s.len() {
        Seq::empty()
    } else if is_ascii_whitespace(s[from]) {
        words_from(s, from + 1)
    } else {
        proof {
            lemma_word_end(s, from + 1);
        }
        seq![s.subrange(from, word_end(s, from + 1))] + words_from(s, word_end(s, from + 1))
    }
}

/// The words of `s`.
pub open spec fn words(s: Seq<char>) -> Seq<Seq<char>> {
    words_from(s, 0)
}

/// Whether `s` holds no ASCII whitespace.
pub open spec fn is_word(s: Seq<char>) -> bool {
    s.len() > 0 && forall|i: int| 0 <= i < s.len() ==> !is_ascii_whitespace(#[trigger] s[i])
}

/// Behind a prefix `p`, a word ends where it ends without the prefix.
pub proof fn lemma_word_end_shift(p: Seq<char>, r: Seq<char>, j: int)
    requires
        0 <= j <= r.len(),
    ensures
        word_end(p + r, p.len() + j) == p.len() + word_end(r, j),
    decreases r.len() - j,
{
    if j < r.len() {
        assert((p + r)[p.len() + j] == r[j]);
        if !is_ascii_whitespace(r[j]) {
            lemma_word_end_shift(p, r, j + 1);
        }
    }
}

/// Behind a prefix `p`, the words are those found without the prefix.
pub proof fn lemma_words_from_shift(p: Seq<char>, r: Seq<char>, j: int)
    requires
        0 <= j <= r.len(),
    ensures
        words_from(p + r, p.len() + j) == words_from(r, j),
    decreases r.len() - j,
{
    if j < r.len() {
        assert((p + r)[p.len() + j] == r[j]);
        if is_ascii_whitespace(r[j]) {
            lemma_words_from_shift(p, r, j + 1);
        } else {
            lemma_word_end(r, j + 1);
            lemma_word_end_shift(p, r, j + 1);
            let e = word_end(r, j + 1);
            lemma_words_from_shift(p, r, e);
            assert((p + r).subrange(p.len() + j, p.len() + e) == r.subrange(j, e));
        }
    }
}

/// Whitespace in front of a text adds no word.
pub proof fn lemma_words_skip_space(c: char, r: Seq<char>)
    requires
        is_ascii_whitespace(c),
    ensures
        words(seq![c] + r) == words(r),
{
    lemma_words_from_shift(seq![c], r, 0);
}

/// A word in front of a text that is empty or starts with whitespace is the
/// first of the words, and the text's words follow.
pub proof fn lemma_words_leading_word(w: Seq<char>, r: Seq<char>)
    requires
        is_word(w),
        r.len() == 0 || is_ascii_whitespace(r[0]),
    ensures
        words(w + r) == seq![w] + words(r),
{
    let s = w + r;
    assert(s[0] == w[0]);
    lemma_word_end(s, 1);
    let e = word_end(s, 1);
    if e < w.len() {
        assert(s[e] == w[e]);
    }
    if e > w.len() {
        assert(s[w.len() as int] == r[0]);
    }
    assert(s.subrange(0, e) == w);
    lemma_words_from_shift(w, r, 0);
}

/// Whether `a` comes before `b` in the order of dictionaries: at the first
/// place where they differ `a` has the smaller character, or `a` ends there
/// and `b` goes on. This is the order of `str`.
pub open spec fn text_lt(a: Seq<char>, b: Seq<char>) -> bool
    decreases a.len(),
{
    if b.len() == 0 {
        false
    } else if a.len() == 0 {
        true
    } else if a[0] != b[0] {
        a[0] < b[0]
    } else {
        text_lt(a.drop_first(), b.drop_first())
    }
}

/// Whether the texts rise strictly in the order of dictionaries.
pub open spec fn texts_rise(texts: Seq<Seq<char>>) -> bool {
    forall|i: int, j: int|
        0 <= i < j < texts.len() ==> text_lt(#[trigger] texts[i], #[trigger] texts[j])
}

/// No text comes before itself.
pub proof fn lemma_text_lt_irreflexive(a: Seq<char>)
    ensures
        !text_lt(a, a),
    decreases a.len(),
{
    if a.len() > 0 {
        lemma_text_lt_irreflexive(a.drop_first());
    }
}

/// What comes before a text that comes before a third comes before the
/// third.
pub proof fn lemma_text_lt_transitive(a: Seq<char>, b: Seq<char>, c: Seq<char>)
    requires
        text_lt(a, b),
        text_lt(b, c),
    ensures
        text_lt(a, c),
    decreases a.len(),
{
    if a.len() > 0 && a[0] == b[0] && b[0] == c[0] {
        lemma_text_lt_transitive(a.drop_first(), b.drop_first(), c.drop_first());
    }
}

/// Of two texts that differ, one comes before the other.
pub proof fn lemma_text_lt_total(a: Seq<char>, b: Seq<char>)
    ensures
        text_lt(a, b) || text_lt(b, a) || a == b,
    decreases a.len(),
{
    if a.len() > 0 && b.len() > 0 && a[0] == b[0] {
        lemma_text_lt_total(a.drop_first(), b.drop_first());
        if a.drop_first() == b.drop_first() {
            assert(a == seq![a[0]] + a.drop_first());
            assert(b == seq![b[0]] + b.drop_first());
        }
    } else if a.len() == 0 && b.len() == 0 {
        assert(a == b);
    }
}

/// Texts that rise strictly hold no text twice.
pub proof fn lemma_texts_rise_distinct(texts: Seq<Seq<char>>)
    requires
        texts_rise(texts),
    ensures
        texts.no_duplicates(),
{
    assert forall|i: int, j: int| 0 <= i < texts.len() && 0 <= j < texts.len() && i != j implies texts[i]
        != texts[j] by {
        lemma_text_lt_irreflexive(texts[i]);
        if i < j {
            assert(text_lt(texts[i], texts[j]));
        } else {
            assert(text_lt(texts[j], texts[i]));
        }
    }
}

/// Whether `c` has the Unicode property `White_Space`.
pub fn char_is_whitespace(c: char) -> (b: bool)
    ensures
        b == is_whitespace(c),
{
    let n: u32 = c as u32;
    (0x09 <= n && n <= 0x0D) || n == 0x20 || n == 0x85 || n == 0xA0 || n == 0x1680 || (0x2000 <= n
        && n <= 0x200A) || n == 0x2028 || n == 0x2029 || n == 0x202F || n == 0x205F || n == 0x3000
}

/// Whether `c` is ASCII whitespace.
pub fn char_is_ascii_whitespace(c: char) -> (b: bool)
    ensures
        b == is_ascii_whitespace(c),
{
    c == ' ' || c == '\t' || c == '\n' || c == '\x0C' || c == '\r'
}

/// Whether `c` is an ASCII digit.
pub fn char_is_ascii_digit(c: char) -> (b: bool)
    ensures
        b == is_ascii_digit(c),
{
    '0' <= c && c <= '9'
}

/// Whether `c` is an ASCII letter.
pub fn char_is_ascii_letter(c: char) -> (b: bool)
    ensures
        b == is_ascii_letter(c),
{
    ('a' <= c && c <= 'z') || ('A' <= c && c <= 'Z')
}

/// The lower-case form of an ASCII letter, any other character unchanged.
pub fn char_ascii_lower(c: char) -> (r: char)
    ensures
        r == ascii_lower(c),
{
    if 'A' <= c && c <= 'Z' {
        ((c as u8) + 32) as char
    } else {
        c
    }
}

/// The characters of `s`, in order.
pub fn chars_of(s: &str) -> (v: Vec<char>)
    ensures
        v@ == s@,
{
    let mut v: Vec<char> = Vec::new();
    for c in it: s.chars()
        invariant
            v@ == it.seq().take(it.index() as int),
            it.seq() == s@,
    {
        v.push(c);
    }
    v
}

/// `String::push`: the string afterwards is the string before with `c`
/// appended.
#[verifier::external_body]
fn push_char(s: &mut String, c: char)
    ensures
        final(s)@ == old(s)@.push(c),
{
    s.push(c)
}

/// Appends the characters `v[lo..hi]` to `out`.
pub fn append_chars(out: &mut String, v: &Vec<char>, lo: usize, hi: usize)
    requires
        lo <= hi <= v.len(),
    ensures
        final(out)@ == old(out)@ + v@.subrange(lo as int, hi as int),
{
    let mut i: usize = lo;
    while i < hi
        invariant
            lo <= i <= hi <= v.len(),
            out@ == old(out)@ + v@.subrange(lo as int, i as int),
        decreases hi - i,
    {
        push_char(out, v[i]);
        assert(v@.subrange(lo as int, i + 1) == v@.subrange(lo as int, i as int).push(v@[i as int]));
        i += 1;
    }
}

/// The characters `v[lo..hi]` as a string.
pub fn string_of(v: &Vec<char>, lo: usize, hi: usize) -> (s: String)
    requires
        lo <= hi <= v.len(),
    ensures
        s@ == v@.subrange(lo as int, hi as int),
{
    let mut s = String::new();
    append_chars(&mut s, v, lo, hi);
    s
}

/// The bounds of `v[lo..hi]` without its leading and trailing whitespace.
pub fn trim_range(v: &Vec<char>, lo: usize, hi: usize) -> (r: (usize, usize))
    requires
        lo <= hi <= v.len(),
    ensures
        lo <= r.0 <= r.1 <= hi,
        v@.subrange(r.0 as int, r.1 as int) == trim(v@.subrange(lo as int, hi as int)),
{
    let mut a: usize = lo;
    while a < hi && char_is_whitespace(v[a])
        invariant
            lo <= a <= hi <= v.len(),
            trim_start(v@.subrange(lo as int, hi as int)) == trim_start(
                v@.subrange(a as int, hi as int),
            ),
        decreases hi - a,
    {
        assert(v@.subrange(a as int, hi as int).drop_first() == v@.subrange(a + 1, hi as int));
        a += 1;
    }
    let mut b: usize = hi;
    while b > a && char_is_whitespace(v[b - 1])
        invariant
            a <= b <= hi <= v.len(),
            trim_end(v@.subrange(a as int, hi as int)) == trim_end(v@.subrange(a as int, b as int)),
        decreases b - a,
    {
        assert(v@.subrange(a as int, b as int).drop_last() == v@.subrange(a as int, b - 1));
        b -= 1;
    }
    (a, b)
}

/// The index of the first `c` in `v[from..hi]`, or `hi` where there is none.
pub fn find_char(v: &Vec<char>, c: char, from: usize, hi: usize) -> (r: usize)
    requires
        from <= hi <= v.len(),
    ensures
        r == find_from(v@.subrange(0, hi as int), c, from as int),
        from <= r <= hi,
{
    let ghost s = v@.subrange(0, hi as int);
    let mut i: usize = from;
    while i < hi && v[i] != c
        invariant
            from <= i <= hi <= v.len(),
            s == v@.subrange(0, hi as int),
            find_from(s, c, from as int) == find_from(s, c, i as int),
        decreases hi - i,
    {
        i += 1;
    }
    i
}

/// The bounds of the words of `v`, in order.
pub fn split_ascii_whitespace(v: &Vec<char>) -> (r: Vec<(usize, usize)>)
    ensures
        r.len() == words(v@).len(),
        forall|k: int| 0 <= k < r.len() ==> (#[trigger] r[k]).0 < r[k].1 <= v.len(),
        forall|k: int|
            0 <= k < r.len() ==> v@.subrange(r[k].0 as int, r[k].1 as int) == #[trigger] words(
                v@,
            )[k],
{
    let mut r: Vec<(usize, usize)> = Vec::new();
    let mut i: usize = 0;
    while i < v.len()
        invariant
            i <= v.len(),
            words(v@).len() == r.len() + words_from(v@, i as int).len(),
            forall|k: int| 0 <= k < r.len() ==> (#[trigger] r[k]).0 < r[k].1 <= v.len(),
            forall|k: int|
                0 <= k < r.len() ==> v@.subrange(r[k].0 as int, r[k].1 as int)
                    == #[trigger] words(v@)[k],
            forall|k: int|
                0 <= k < words_from(v@, i as int).len() ==> words(v@)[r.len() + k]
                    == #[trigger] words_from(v@, i as int)[k],
        decreases v.len() - i,
    {
        if char_is_ascii_whitespace(v[i]) {
            i += 1;
        } else {
            let start = i;
            i += 1;
            while i < v.len() && !char_is_ascii_whitespace(v[i])
                invariant
                    start < i <= v.len(),
                    word_end(v@, start + 1) == word_end(v@, i as int),
                decreases v.len() - i,
            {
                i += 1;
            }
            proof {
                let rest = words_from(v@, i as int);
                let here = words_from(v@, start as int);
                assert(here == seq![v@.subrange(start as int, i as int)] + rest);
                assert(here[0] == v@.subrange(start as int, i as int));
                assert(words(v@)[r.len() as int] == here[0]);
                assert forall|k: int| 0 <= k < rest.len() implies words(v@)[r.len() + 1 + k]
                    == #[trigger] rest[k] by {
                    assert(here[k + 1] == rest[k]);
                }
            }
            r.push((start, i));
        }
    }
    r
}

/// Whether `a` comes before `b` in the order of dictionaries.
pub fn text_before(a: &str, b: &str) -> (r: bool)
    ensures
        r == text_lt(a@, b@),
{
    let x = chars_of(a);
    let y = chars_of(b);
    let mut i: usize = 0;
    assert(x@.skip(0) == x@ && y@.skip(0) == y@);
    while i < x.len() && i < y.len() && x[i] == y[i]
        invariant
            i <= x.len(),
            i <= y.len(),
            x@ == a@,
            y@ == b@,
            text_lt(a@, b@) == text_lt(x@.skip(i as int), y@.skip(i as int)),
        decreases x.len() - i,
    {
        assert(x@.skip(i as int).drop_first() == x@.skip(i + 1));
        assert(y@.skip(i as int).drop_first() == y@.skip(i + 1));
        i += 1;
    }
    if i >= y.len() {
        false
    } else if i >= x.len() {
        true
    } else {
        x[i] < y[i]
    }
}

} // verus!
