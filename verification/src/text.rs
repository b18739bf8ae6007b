//! Characters and strings: the few facts taken from the standard library,
//! and the character-level routines built on them.

use vstd::prelude::*;

verus! {

/// `String::push` appends one character at the end.
pub assume_specification[ String::push ](s: &mut String, ch: char)
    ensures
        final(s)@ == old(s)@.push(ch),
;

/// `str::eq` holds exactly when both strings have the same characters.
pub assume_specification[ <str as PartialEq>::eq ](a: &str, b: &str) -> (r: bool)
    ensures
        r == (a@ == b@),
;

/// The lowercase form of a string as Unicode defines it. It is a function
/// of the whole string, not of each character alone.
pub uninterp spec fn unicode_lowercase(s: Seq<char>) -> Seq<char>;

/// Whether a character has the Unicode property `White_Space`.
pub uninterp spec fn unicode_whitespace(c: char) -> bool;

/// Whether a character is alphabetic or numeric in Unicode's sense.
pub uninterp spec fn unicode_alphanumeric(c: char) -> bool;

/// `str::to_lowercase` returns the lowercase form of the string.
pub assume_specification[ str::to_lowercase ](s: &str) -> (r: String)
    ensures
        r@ == unicode_lowercase(s@),
;

/// `char::is_whitespace` tells whether the character is white space.
pub assume_specification[ char::is_whitespace ](c: char) -> (r: bool)
    ensures
        r == unicode_whitespace(c),
;

/// `char::is_alphanumeric` tells whether the character is a letter or a digit.
pub assume_specification[ char::is_alphanumeric ](c: char) -> (r: bool)
    ensures
        r == unicode_alphanumeric(c),
;

/// The characters of a string, in order.
pub fn chars_of(s: &str) -> (v: Vec<char>)
    ensures
        v@ == s@,
{
    let mut v: Vec<char> = Vec::new();
    for c in it: s.chars()
        invariant
            it.seq() == s@,
            v@ == it.seq().take(it.index()),
    {
        v.push(c);
    }
    v
}

/// The string made of `chars[from..to]`.
pub fn string_of(chars: &Vec<char>, from: usize, to: usize) -> (s: String)
    requires
        from <= to <= chars.len(),
    ensures
        s@ == chars@.subrange(from as int, to as int),
{
    let mut s = String::new();
    let mut i: usize = from;
    while i < to
        invariant
            from <= i <= to <= chars.len(),
            s@ == chars@.subrange(from as int, i as int),
        decreases to - i,
    {
        s.push(chars[i]);
        i += 1;
    }
    s
}

/// Strict lexicographic order on character sequences, by code point.
pub open spec fn lex_less(a: Seq<char>, b: Seq<char>) -> bool
    decreases a.len(),
{
    if b.len() == 0 {
        false
    } else if a.len() == 0 {
        true
    } else if a[0] != b[0] {
        (a[0] as u32) < (b[0] as u32)
    } else {
        lex_less(a.skip(1), b.skip(1))
    }
}

/// Whether `a` comes strictly before `b` in lexicographic order.
pub fn is_lex_less(a: &Vec<char>, b: &Vec<char>) -> (r: bool)
    ensures
        r == lex_less(a@, b@),
{
    let mut i: usize = 0;
    proof {
        assert(a@.skip(0) =~= a@);
        assert(b@.skip(0) =~= b@);
    }
    while i < a.len() && i < b.len()
        invariant
            i <= a.len(),
            i <= b.len(),
            lex_less(a@, b@) == lex_less(a@.skip(i as int), b@.skip(i as int)),
        decreases a.len() - i,
    {
        if a[i] != b[i] {
            assert(a@.skip(i as int)[0] == a@[i as int]);
            assert(b@.skip(i as int)[0] == b@[i as int]);
            return (a[i] as u32) < (b[i] as u32);
        }
        proof {
            assert(a@.skip(i as int).skip(1) =~= a@.skip(i as int + 1));
            assert(b@.skip(i as int).skip(1) =~= b@.skip(i as int + 1));
        }
        i += 1;
    }
    i < b.len()
}

/// Of two texts, at most one comes strictly before the other.
pub proof fn lemma_lex_asymmetric(a: Seq<char>, b: Seq<char>)
    ensures
        !(lex_less(a, b) && lex_less(b, a)),
    decreases a.len(),
{
    if a.len() > 0 && b.len() > 0 && a[0] == b[0] {
        lemma_lex_asymmetric(a.skip(1), b.skip(1));
    }
}

/// Of two different texts, one comes strictly before the other.
pub proof fn lemma_lex_total(a: Seq<char>, b: Seq<char>)
    requires
        a != b,
    ensures
        lex_less(a, b) || lex_less(b, a),
    decreases a.len(),
{
    if a.len() > 0 && b.len() > 0 && a[0] == b[0] {
        if a.skip(1) == b.skip(1) {
            assert(a =~= seq![a[0]] + a.skip(1));
            assert(b =~= seq![b[0]] + b.skip(1));
        }
        lemma_lex_total(a.skip(1), b.skip(1));
    } else if a.len() == 0 && b.len() == 0 {
        assert(a =~= b);
    } else if a.len() > 0 && b.len() > 0 {
        vstd::utf8::char_u32_cast(a[0], a[0] as u32);
        vstd::utf8::char_u32_cast(b[0], b[0] as u32);
    }
}

/// The strict order is transitive.
pub proof fn lemma_lex_transitive(a: Seq<char>, b: Seq<char>, c: Seq<char>)
    requires
        lex_less(a, b),
        lex_less(b, c),
    ensures
        lex_less(a, c),
    decreases a.len(),
{
    if a.len() > 0 && a[0] == b[0] && b[0] == c[0] {
        lemma_lex_transitive(a.skip(1), b.skip(1), c.skip(1));
    }
}

/// `a` comes before `b` or is `b`.
pub open spec fn lex_le(a: Seq<char>, b: Seq<char>) -> bool {
    !lex_less(b, a)
}

/// The order with equality is transitive.
pub proof fn lemma_lex_le_transitive(a: Seq<char>, b: Seq<char>, c: Seq<char>)
    requires
        lex_le(a, b),
        lex_le(b, c),
    ensures
        lex_le(a, c),
{
    if lex_less(c, a) {
        if a == b {
        } else {
            lemma_lex_total(a, b);
            lemma_lex_transitive(c, a, b);
        }
    }
}

/// How many characters stand at `from` before the next `stop`, or before
/// the end where no `stop` follows.
pub open spec fn run_len(s: Seq<char>, from: int, stop: char) -> nat
    decreases s.len() - from,
{
    if from < 0 || from >= s.len() || s[from] == stop {
        0
    } else {
        1 + run_len(s, from + 1, stop)
    }
}

/// The index of the next `stop` at or after `from`, or the length.
pub fn run_end(chars: &Vec<char>, from: usize, stop: char) -> (end: usize)
    requires
        from <= chars.len(),
    ensures
        end == from + run_len(chars@, from as int, stop),
        from <= end <= chars.len(),
        end < chars.len() ==> chars@[end as int] == stop,
        forall|i: int| from <= i < end ==> chars@[i] != stop,
{
    let mut i: usize = from;
    while i < chars.len() && chars[i] != stop
        invariant
            from <= i <= chars.len(),
            run_len(chars@, from as int, stop) == (i - from) + run_len(chars@, i as int, stop),
            forall|j: int| from <= j < i ==> chars@[j] != stop,
        decreases chars.len() - i,
    {
        i += 1;
    }
    i
}

/// A run never reaches past the end of the text.
pub proof fn lemma_run_len_bound(s: Seq<char>, from: int, stop: char)
    requires
        0 <= from <= s.len(),
    ensures
        from + run_len(s, from, stop) <= s.len(),
    decreases s.len() - from,
{
    if from < s.len() && s[from] != stop {
        lemma_run_len_bound(s, from + 1, stop);
    }
}

/// How often `c` occurs in `s`.
pub open spec fn count_of(s: Seq<char>, c: char) -> nat
    decreases s.len(),
{
    if s.len() == 0 {
        0
    } else {
        count_of(s.drop_last(), c) + if s.last() == c {
            1nat
        } else {
            0nat
        }
    }
}

/// How many lines the text has: one for each line feed, and one more for
/// what follows the last line feed, unless nothing follows it.
pub open spec fn line_count(s: Seq<char>) -> nat {
    count_of(s, '\n') + if s.len() > 0 && s.last() != '\n' {
        1nat
    } else {
        0nat
    }
}

/// Counts the lines of `content`.
pub fn count_lines(content: &str) -> (n: usize)
    ensures
        n == line_count(content@),
{
    let chars = chars_of(content);
    let mut n: usize = 0;
    let mut i: usize = 0;
    while i < chars.len()
        invariant
            i <= chars.len(),
            n == count_of(chars@.take(i as int), '\n'),
            n + (if i > 0 && chars@[i - 1] != '\n' { 1nat } else { 0nat }) <= i,
        decreases chars.len() - i,
    {
        proof {
            assert(chars@.take(i + 1).drop_last() =~= chars@.take(i as int));
        }
        if chars[i] == '\n' {
            n += 1;
        }
        i += 1;
    }
    proof {
        assert(chars@.take(i as int) =~= chars@);
    }
    if chars.len() > 0 && chars[chars.len() - 1] != '\n' {
        n += 1;
    }
    n
}

/// A character together with what Unicode says of it: the routines that
/// scan text read the two marks and never ask again.
#[derive(Clone, Copy, Debug)]
pub struct Glyph {
    pub ch: char,
    /// The character is white space.
    pub space: bool,
    /// The character is a letter or a digit.
    pub word: bool,
}

/// The glyph of a character.
pub open spec fn glyph_of(c: char) -> Glyph {
    Glyph { ch: c, space: unicode_whitespace(c), word: unicode_alphanumeric(c) }
}

/// The glyphs of a text, character by character.
pub open spec fn glyphs_of(s: Seq<char>) -> Seq<Glyph> {
    s.map_values(|c: char| glyph_of(c))
}

/// The characters of a sequence of glyphs.
pub open spec fn letters_of(g: Seq<Glyph>) -> Seq<char> {
    g.map_values(|x: Glyph| x.ch)
}

/// Marks every character of `s`.
pub fn classify(s: &str) -> (v: Vec<Glyph>)
    ensures
        v@ == glyphs_of(s@),
{
    let mut v: Vec<Glyph> = Vec::new();
    for c in it: s.chars()
        invariant
            it.seq() == s@,
            v@ == glyphs_of(it.seq().take(it.index())),
    {
        let g = Glyph { ch: c, space: c.is_whitespace(), word: c.is_alphanumeric() };
        proof {
            let seen = it.seq().take(it.index());
            assert(g == glyph_of(c));
            assert(it.seq().take(it.index() + 1) =~= seen.push(c));
            assert(glyphs_of(seen.push(c)) =~= glyphs_of(seen).push(g));
        }
        v.push(g);
    }
    proof {
        assert(s@.take(s@.len() as int) =~= s@);
    }
    v
}

/// The characters of `glyphs`, without their marks.
pub fn letters(glyphs: &Vec<Glyph>) -> (v: Vec<char>)
    ensures
        v@ == letters_of(glyphs@),
{
    let mut v: Vec<char> = Vec::new();
    let mut i: usize = 0;
    while i < glyphs.len()
        invariant
            i <= glyphs.len(),
            v@ == letters_of(glyphs@.take(i as int)),
        decreases glyphs.len() - i,
    {
        proof {
            assert(letters_of(glyphs@.take(i + 1)) =~= letters_of(glyphs@.take(i as int)).push(
                glyphs@[i as int].ch,
            ));
        }
        v.push(glyphs[i].ch);
        i += 1;
    }
    proof {
        assert(glyphs@.take(i as int) =~= glyphs@);
    }
    v
}

/// The first index in `from..to` whose glyph is no white space, or `to`.
pub open spec fn skip_space(g: Seq<Glyph>, from: int, to: int) -> int
    decreases to - from,
{
    if 0 <= from < to && from < g.len() && g[from].space {
        skip_space(g, from + 1, to)
    } else {
        from
    }
}

/// The end of `from..to` once the white space at its end is cut off.
pub open spec fn drop_space(g: Seq<Glyph>, from: int, to: int) -> int
    decreases to - from,
{
    if from < to && 0 < to <= g.len() && g[to - 1].space {
        drop_space(g, from, to - 1)
    } else {
        to
    }
}

/// Skipping white space stays inside the span.
pub proof fn lemma_skip_space_bounds(g: Seq<Glyph>, from: int, to: int)
    requires
        from <= to,
    ensures
        from <= skip_space(g, from, to) <= to,
    decreases to - from,
{
    if 0 <= from < to && from < g.len() && g[from].space {
        lemma_skip_space_bounds(g, from + 1, to);
    }
}

/// Cutting white space off the end stays inside the span.
pub proof fn lemma_drop_space_bounds(g: Seq<Glyph>, from: int, to: int)
    requires
        from <= to,
    ensures
        from <= drop_space(g, from, to) <= to,
    decreases to - from,
{
    if from < to && 0 < to <= g.len() && g[to - 1].space {
        lemma_drop_space_bounds(g, from, to - 1);
    }
}

/// Cuts the white space off both ends of `from..to`. What is left starts
/// and ends with a glyph that is no white space, or is empty.
pub fn trim_span(glyphs: &Vec<Glyph>, from: usize, to: usize) -> (span: (usize, usize))
    requires
        from <= to <= glyphs.len(),
    ensures
        span.0 == skip_space(glyphs@, from as int, to as int),
        span.1 == drop_space(glyphs@, span.0 as int, to as int),
        from <= span.0 <= span.1 <= to,
        forall|i: int| from <= i < span.0 ==> glyphs@[i].space,
        forall|i: int| span.1 <= i < to ==> glyphs@[i].space,
        span.0 < span.1 ==> !glyphs@[span.0 as int].space && !glyphs@[span.1 - 1].space,
{
    let mut a: usize = from;
    while a < to && glyphs[a].space
        invariant
            from <= a <= to <= glyphs.len(),
            skip_space(glyphs@, from as int, to as int) == skip_space(glyphs@, a as int, to as int),
            forall|i: int| from <= i < a ==> glyphs@[i].space,
        decreases to - a,
    {
        a += 1;
    }
    let mut b: usize = to;
    while a < b && glyphs[b - 1].space
        invariant
            a <= b <= to <= glyphs.len(),
            drop_space(glyphs@, a as int, to as int) == drop_space(glyphs@, a as int, b as int),
            forall|i: int| b <= i < to ==> glyphs@[i].space,
        decreases b - a,
    {
        b -= 1;
    }
    (a, b)
}

/// Whether `text` starts with `prefix`.
pub fn has_prefix(text: &str, prefix: &str) -> (r: bool)
    ensures
        r == prefix@.is_prefix_of(text@),
{
    let t = chars_of(text);
    let p = chars_of(prefix);
    if p.len() > t.len() {
        return false;
    }
    let mut i: usize = 0;
    while i < p.len()
        invariant
            i <= p.len() <= t.len(),
            p@ == prefix@,
            t@ == text@,
            forall|k: int| 0 <= k < i ==> p@[k] == t@[k],
        decreases p.len() - i,
    {
        if p[i] != t[i] {
            assert(t@.subrange(0, p@.len() as int)[i as int] != p@[i as int]);
            return false;
        }
        i += 1;
    }
    assert(t@.subrange(0, p@.len() as int) =~= p@);
    true
}

} // verus!
