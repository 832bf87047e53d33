//! Text primitives: prefixes, trimming, splitting, decimal numbers, padding.
//!
//! Text is modelled as `Seq<char>`, the view of `str` and `String`.
use vstd::prelude::*;
use vstd::utf8::{encode_utf8, is_char_boundary};

verus! {

/// `String::push` appends one character to the end of the string.
pub assume_specification[ String::push ](s: &mut String, ch: char)
    ensures
        final(s)@ == old(s)@.push(ch),
;

// ── Whitespace and trimming ──────────────────────────────────────────────────

/// The characters with the Unicode property `White_Space`.
pub open spec fn is_white(c: char) -> bool {
    let u = c as u32;
    ||| 0x09 <= u <= 0x0d
    ||| u == 0x20
    ||| u == 0x85
    ||| u == 0xa0
    ||| u == 0x1680
    ||| 0x2000 <= u <= 0x200a
    ||| u == 0x2028
    ||| u == 0x2029
    ||| u == 0x202f
    ||| u == 0x205f
    ||| u == 0x3000
}

/// `s` without its leading white space.
pub open spec fn trim_start(s: Seq<char>) -> Seq<char>
    decreases s.len(),
{
    if s.len() > 0 && is_white(s[0]) {
        trim_start(s.drop_first())
    } else {
        s
    }
}

/// `s` without its trailing white space.
pub open spec fn trim_end(s: Seq<char>) -> Seq<char>
    decreases s.len(),
{
    if s.len() > 0 && is_white(s.last()) {
        trim_end(s.drop_last())
    } else {
        s
    }
}

/// `s` without leading and trailing white space.
pub open spec fn trim(s: Seq<char>) -> Seq<char> {
    trim_end(trim_start(s))
}

/// Whether a character is white space.
pub fn white(c: char) -> (r: bool)
    ensures
        r == is_white(c),
{
    let u = c as u32;
    (0x09 <= u && u <= 0x0d) || u == 0x20 || u == 0x85 || u == 0xa0 || u == 0x1680 || (0x2000 <= u
        && u <= 0x200a) || u == 0x2028 || u == 0x2029 || u == 0x202f || u == 0x205f || u == 0x3000
}

/// Whether a text holds no white space.
pub open spec fn is_word(s: Seq<char>) -> bool {
    forall|i: int| 0 <= i < s.len() ==> !is_white(#[trigger] s[i])
}

/// The characters of `s`.
pub fn chars_of(s: &str) -> (v: Vec<char>)
    ensures
        v@ == s@,
{
    let mut v: Vec<char> = Vec::new();
    for c in it: s.chars()
        invariant
            v@ == s@.take(it.index()),
            it.seq() == s@,
    {
        v.push(c);
        assert(s@.take(it.index() + 1) == s@.take(it.index()).push(c));
    }
    assert(s@.take(s@.len() as int) == s@);
    v
}

/// Whether a text holds no white space.
pub fn word_only(s: &str) -> (r: bool)
    ensures
        r == is_word(s@),
{
    let cs = chars_of(s);
    let mut i: usize = 0;
    while i < cs.len()
        invariant
            cs@ == s@,
            i <= cs@.len(),
            forall|j: int| 0 <= j < i ==> !is_white(#[trigger] s@[j]),
        decreases cs.len() - i,
    {
        if white(cs[i]) {
            assert(is_white(s@[i as int]));
            return false;
        }
        i = i + 1;
    }
    true
}

/// `s` without its trailing white space.
pub fn trimmed_end(s: &str) -> (r: &str)
    ensures
        r@ == trim_end(s@),
{
    let cs = chars_of(s);
    let mut end: usize = cs.len();
    assert(s@.take(end as int) == s@);
    while end > 0 && white(cs[end - 1])
        invariant
            cs@ == s@,
            end <= cs.len(),
            trim_end(s@) == trim_end(s@.take(end as int)),
        decreases end,
    {
        assert(s@.take(end as int).drop_last() == s@.take(end - 1));
        end = end - 1;
    }
    assert(end > 0 ==> s@.take(end as int).last() == cs@[end - 1]);
    s.substring_char(0, end)
}

/// `s` without leading and trailing white space.
pub fn trimmed(s: &str) -> (r: &str)
    ensures
        r@ == trim(s@),
{
    let cs = chars_of(s);
    let mut start: usize = 0;
    assert(s@.skip(0) == s@);
    while start < cs.len() && white(cs[start])
        invariant
            cs@ == s@,
            start <= cs.len(),
            trim_start(s@) == trim_start(s@.skip(start as int)),
        decreases cs.len() - start,
    {
        assert(s@.skip(start as int).drop_first() == s@.skip(start + 1));
        start = start + 1;
    }
    trimmed_end(s.substring_char(start, cs.len()))
}

/// Text that neither starts nor ends in white space is left alone by `trim`.
pub proof fn lemma_trim_clean(s: Seq<char>)
    requires
        s.len() > 0 ==> !is_white(s[0]) && !is_white(s.last()),
    ensures
        trim(s) == s,
{
}

/// Trimming the end of a row of texts trims the second one only, where the first
/// one does not end in white space.
pub proof fn lemma_trim_end_concat(a: Seq<char>, b: Seq<char>)
    requires
        a.len() > 0,
        !is_white(a.last()),
    ensures
        trim_end(a + b) == a + trim_end(b),
    decreases b.len(),
{
    if b.len() > 0 {
        assert((a + b).last() == b.last());
        if is_white(b.last()) {
            assert((a + b).drop_last() =~= a + b.drop_last());
            lemma_trim_end_concat(a, b.drop_last());
        }
    } else {
        assert(a + b =~= a);
    }
}

// ── Comparing ────────────────────────────────────────────────────────────────

/// Whether `s` starts with `p`.
pub open spec fn has_prefix(s: Seq<char>, p: Seq<char>) -> bool {
    p.len() <= s.len() && s.take(p.len() as int) == p
}

/// Text that differs from `p` in one place does not start with `p`.
pub proof fn lemma_not_prefix(s: Seq<char>, p: Seq<char>, i: int)
    requires
        0 <= i < p.len(),
        i < s.len() ==> s[i] != p[i],
    ensures
        !has_prefix(s, p),
        s != p,
{
    if has_prefix(s, p) {
        assert(s.take(p.len() as int)[i] == s[i]);
    }
}

/// Whether `p` occurs somewhere in `s`.
pub open spec fn has_infix(s: Seq<char>, p: Seq<char>) -> bool {
    exists|i: int| 0 <= i <= s.len() - p.len() && #[trigger] has_prefix(s.skip(i), p)
}

fn chars_match_at(s: &Vec<char>, at: usize, p: &Vec<char>) -> (r: bool)
    requires
        at + p@.len() <= s@.len(),
    ensures
        r == has_prefix(s@.skip(at as int), p@),
{
    let mut i: usize = 0;
    while i < p.len()
        invariant
            i <= p@.len(),
            at + p@.len() <= s.len(),
            forall|j: int| 0 <= j < i ==> s@[at + j] == p@[j],
        decreases p.len() - i,
    {
        if s[at + i] != p[i] {
            assert(s@.skip(at as int).take(p@.len() as int)[i as int] == s@[at + i]);
            return false;
        }
        i = i + 1;
    }
    assert(s@.skip(at as int).take(p@.len() as int) == p@);
    true
}

/// Whether `a` and `b` are the same text.
pub fn same(a: &str, b: &str) -> (r: bool)
    ensures
        r == (a@ == b@),
{
    let x = chars_of(a);
    let y = chars_of(b);
    if x.len() != y.len() {
        return false;
    }
    let r = chars_match_at(&x, 0, &y);
    assert(x@.skip(0) == x@);
    assert(x@.take(y@.len() as int) == x@);
    r
}

/// Whether `s` starts with `p`.
pub fn starts_with(s: &str, p: &str) -> (r: bool)
    ensures
        r == has_prefix(s@, p@),
{
    let x = chars_of(s);
    let y = chars_of(p);
    if y.len() > x.len() {
        return false;
    }
    assert(x@.skip(0) == x@);
    chars_match_at(&x, 0, &y)
}

/// Whether `p` occurs somewhere in `s`.
pub fn contains(s: &str, p: &str) -> (r: bool)
    ensures
        r == has_infix(s@, p@),
{
    let x = chars_of(s);
    let y = chars_of(p);
    if y.len() > x.len() {
        return false;
    }
    let last: usize = x.len() - y.len();
    let mut i: usize = 0;
    while i <= last
        invariant
            x@ == s@,
            y@ == p@,
            last + y@.len() == x@.len(),
            i <= last + 1,
            forall|j: int| 0 <= j < i ==> !#[trigger] has_prefix(x@.skip(j), y@),
        decreases last + 1 - i,
    {
        if chars_match_at(&x, i, &y) {
            return true;
        }
        if i == last {
            return false;
        }
        i = i + 1;
    }
    false
}

/// What follows the prefix `p` of `s`, when `s` has that prefix.
pub open spec fn after_prefix(s: Seq<char>, p: Seq<char>) -> Option<Seq<char>> {
    if has_prefix(s, p) {
        Some(s.skip(p.len() as int))
    } else {
        None
    }
}

/// The view of an optional text.
pub open spec fn opt_str(o: Option<&str>) -> Option<Seq<char>> {
    match o {
        Some(s) => Some(s@),
        None => None,
    }
}

/// The view of an optional owned text.
pub open spec fn opt_string(o: Option<String>) -> Option<Seq<char>> {
    match o {
        Some(s) => Some(s@),
        None => None,
    }
}

/// What follows the prefix `p` of `s`, when `s` has that prefix.
pub fn strip_prefix<'a>(s: &'a str, p: &str) -> (r: Option<&'a str>)
    ensures
        opt_str(r) == after_prefix(s@, p@),
{
    if starts_with(s, p) {
        let n = s.unicode_len();
        let r = s.substring_char(p.unicode_len(), n);
        assert(r@ == s@.skip(p@.len() as int));
        Some(r)
    } else {
        None
    }
}

// ── Splitting ────────────────────────────────────────────────────────────────

/// The place of the first `c` in `s`, or the length of `s` when there is none.
pub open spec fn first_at(s: Seq<char>, c: char) -> nat
    decreases s.len(),
{
    if s.len() == 0 || s[0] == c {
        0
    } else {
        1 + first_at(s.drop_first(), c)
    }
}

/// The parts of `s` before and after the first `c`, when there is one.
pub open spec fn split_first(s: Seq<char>, c: char) -> Option<(Seq<char>, Seq<char>)> {
    let i = first_at(s, c);
    if i < s.len() {
        Some((s.take(i as int), s.skip(i as int + 1)))
    } else {
        None
    }
}

/// The pieces of `s` between the separators `c`; always at least one.
pub open spec fn split_all(s: Seq<char>, c: char) -> Seq<Seq<char>>
    decreases s.len(),
{
    let i = first_at(s, c);
    if i < s.len() {
        seq![s.take(i as int)] + split_all(s.skip(i as int + 1), c)
    } else {
        seq![s]
    }
}

/// `first_at` is a place that holds `c`, with none before it.
pub proof fn lemma_first_at(s: Seq<char>, c: char)
    ensures
        first_at(s, c) <= s.len(),
        first_at(s, c) < s.len() ==> s[first_at(s, c) as int] == c,
        forall|j: int| 0 <= j < first_at(s, c) ==> s[j] != c,
    decreases s.len(),
{
    if s.len() > 0 && s[0] != c {
        lemma_first_at(s.drop_first(), c);
        assert forall|j: int| 0 <= j < first_at(s, c) implies s[j] != c by {
            if j > 0 {
                assert(s.drop_first()[j - 1] == s[j]);
            }
        }
    }
}

/// The first `c` is where an occurrence with none before it is.
pub proof fn lemma_first_at_is(s: Seq<char>, c: char, i: int)
    requires
        0 <= i <= s.len(),
        i < s.len() ==> s[i] == c,
        forall|j: int| 0 <= j < i ==> s[j] != c,
    ensures
        first_at(s, c) == i,
{
    lemma_first_at(s, c);
    let k = first_at(s, c) as int;
    if k < i {
        assert(s[k] != c);
    }
}

/// The parts of `s` before and after the first `c`, when there is one.
pub fn split_once<'a>(s: &'a str, c: char) -> (r: Option<(&'a str, &'a str)>)
    ensures
        match r {
            Some(p) => split_first(s@, c) == Some((p.0@, p.1@)),
            None => split_first(s@, c) is None,
        },
{
    let cs = chars_of(s);
    let mut i: usize = 0;
    while i < cs.len() && cs[i] != c
        invariant
            i <= cs@.len(),
            forall|j: int| 0 <= j < i ==> cs@[j] != c,
        decreases cs.len() - i,
    {
        i = i + 1;
    }
    proof {
        lemma_first_at_is(s@, c, i as int);
    }
    if i < cs.len() {
        let a = s.substring_char(0, i);
        let b = s.substring_char(i + 1, cs.len());
        assert(a@ == s@.take(i as int));
        assert(b@ == s@.skip(i + 1));
        Some((a, b))
    } else {
        None
    }
}

/// The views of a list of text slices.
pub open spec fn strs(v: Seq<&str>) -> Seq<Seq<char>> {
    Seq::new(v.len(), |i: int| v[i]@)
}

/// The views of a list of owned texts.
pub open spec fn texts(v: Seq<String>) -> Seq<Seq<char>> {
    Seq::new(v.len(), |i: int| v[i]@)
}

/// The pieces of `s` between the separators `c`.
pub fn split_on<'a>(s: &'a str, c: char) -> (r: Vec<&'a str>)
    ensures
        strs(r@) == split_all(s@, c),
{
    let mut out: Vec<&'a str> = Vec::new();
    let mut rest: &'a str = s;
    loop
        invariant
            split_all(s@, c) == strs(out@) + split_all(rest@, c),
        decreases rest@.len(),
    {
        let ghost before = out@;
        match split_once(rest, c) {
            Some((a, b)) => {
                out.push(a);
                assert(strs(out@) == strs(before) + seq![a@]);
                assert(strs(before) + (seq![a@] + split_all(b@, c)) == strs(out@) + split_all(
                    b@,
                    c,
                ));
                rest = b;
            },
            None => {
                out.push(rest);
                assert(strs(out@) == strs(before) + seq![rest@]);
                return out;
            },
        }
    }
}

/// The place of the last `c` in `s`, when there is one.
pub open spec fn last_at(s: Seq<char>, c: char) -> Option<int>
    decreases s.len(),
{
    if s.len() == 0 {
        None
    } else if s.last() == c {
        Some(s.len() - 1)
    } else {
        last_at(s.drop_last(), c)
    }
}

/// The parts of `s` before and after the last `c`, when there is one.
pub open spec fn split_last(s: Seq<char>, c: char) -> Option<(Seq<char>, Seq<char>)> {
    match last_at(s, c) {
        Some(i) => Some((s.take(i), s.skip(i + 1))),
        None => None,
    }
}

/// The last `c` of a text is one that holds `c`.
pub proof fn lemma_last_at(s: Seq<char>, c: char)
    ensures
        match last_at(s, c) {
            Some(i) => 0 <= i < s.len() && s[i] == c,
            None => forall|i: int| 0 <= i < s.len() ==> #[trigger] s[i] != c,
        },
    decreases s.len(),
{
    if s.len() > 0 && s.last() != c {
        let t = s.drop_last();
        lemma_last_at(t, c);
        match last_at(t, c) {
            Some(i) => {
                assert(t[i] == s[i]);
            },
            None => {
                assert forall|i: int| 0 <= i < s.len() implies #[trigger] s[i] != c by {
                    if i < t.len() {
                        assert(t[i] == s[i]);
                    }
                }
            },
        }
    }
}

/// A text is split at a `c` that has none behind it.
pub proof fn lemma_last_at_is(a: Seq<char>, c: char, b: Seq<char>)
    requires
        forall|i: int| 0 <= i < b.len() ==> #[trigger] b[i] != c,
    ensures
        split_last(a + seq![c] + b, c) == Some((a, b)),
    decreases b.len(),
{
    let s = a + seq![c] + b;
    if b.len() > 0 {
        assert(s.last() == b.last());
        let d = b.drop_last();
        assert forall|i: int| 0 <= i < d.len() implies #[trigger] d[i] != c by {
            assert(d[i] == b[i]);
        }
        lemma_last_at_is(a, c, d);
        assert(s.drop_last() =~= a + seq![c] + d);
        lemma_last_at(a + seq![c] + d, c);
        assert(last_at(s, c) == last_at(a + seq![c] + d, c));
        let i = last_at(s, c)->0;
        assert((a + seq![c] + d).take(i).len() == a.len());
    }
    assert(s.take(a.len() as int) =~= a);
    assert(s.skip(a.len() as int + 1) =~= b);
}

/// The parts of `s` before and after the last `c`, when there is one.
pub fn rsplit_once<'a>(s: &'a str, c: char) -> (r: Option<(&'a str, &'a str)>)
    ensures
        match r {
            Some(p) => split_last(s@, c) == Some((p.0@, p.1@)),
            None => split_last(s@, c) is None,
        },
{
    let cs = chars_of(s);
    let mut i: usize = cs.len();
    assert(s@.take(i as int) == s@);
    while i > 0
        invariant
            cs@ == s@,
            i <= cs@.len(),
            last_at(s@, c) == last_at(s@.take(i as int), c),
        decreases i,
    {
        assert(s@.take(i as int).last() == cs@[i - 1]);
        if cs[i - 1] == c {
            let a = s.substring_char(0, i - 1);
            let b = s.substring_char(i, cs.len());
            assert(a@ == s@.take(i - 1));
            assert(b@ == s@.skip(i as int));
            return Some((a, b));
        }
        assert(s@.take(i as int).drop_last() == s@.take(i - 1));
        i = i - 1;
    }
    None
}

/// The leading part of `s` up to its first white space.
pub open spec fn word_head(s: Seq<char>) -> Seq<char>
    decreases s.len(),
{
    if s.len() == 0 || is_white(s[0]) {
        Seq::empty()
    } else {
        seq![s[0]] + word_head(s.drop_first())
    }
}

/// The first word of `s`: empty when `s` is all white space.
pub open spec fn first_word_of(s: Seq<char>) -> Seq<char> {
    word_head(trim_start(s))
}

/// The first word of `s`: empty when `s` is all white space.
pub fn first_word(s: &str) -> (r: &str)
    ensures
        r@ == first_word_of(s@),
{
    let cs = chars_of(s);
    let mut start: usize = 0;
    assert(s@.skip(0) == s@);
    while start < cs.len() && white(cs[start])
        invariant
            cs@ == s@,
            start <= cs.len(),
            trim_start(s@) == trim_start(s@.skip(start as int)),
        decreases cs.len() - start,
    {
        assert(s@.skip(start as int).drop_first() == s@.skip(start + 1));
        start = start + 1;
    }
    assert(trim_start(s@) == s@.skip(start as int));
    let mut end: usize = start;
    assert(s@.subrange(start as int, end as int) + word_head(s@.skip(end as int)) == word_head(
        s@.skip(start as int),
    ));
    while end < cs.len() && !white(cs[end])
        invariant
            cs@ == s@,
            start <= end <= cs.len(),
            s@.subrange(start as int, end as int) + word_head(s@.skip(end as int)) == word_head(
                s@.skip(start as int),
            ),
        decreases cs.len() - end,
    {
        assert(s@.skip(end as int).drop_first() == s@.skip(end + 1));
        assert(s@.subrange(start as int, end + 1) == s@.subrange(start as int, end as int).push(
            s@[end as int],
        ));
        assert(s@.subrange(start as int, end as int) + (seq![s@[end as int]] + word_head(
            s@.skip(end + 1),
        )) == s@.subrange(start as int, end + 1) + word_head(s@.skip(end + 1)));
        end = end + 1;
    }
    assert(word_head(s@.skip(end as int)) == Seq::<char>::empty());
    assert(s@.subrange(start as int, end as int) + Seq::<char>::empty() == s@.subrange(
        start as int,
        end as int,
    ));
    s.substring_char(start, end)
}

/// The lines of a text file, each trimmed, without the empty ones.
pub open spec fn entries_of(contents: Seq<char>) -> Seq<Seq<char>> {
    split_all(contents, '\n').map_values(|l: Seq<char>| trim(l)).filter(|l: Seq<char>| l.len() > 0)
}

/// The lines of a text file, each trimmed, without the empty ones.
pub fn entries<'a>(contents: &'a str) -> (r: Vec<&'a str>)
    ensures
        strs(r@) == entries_of(contents@),
{
    let lines = split_on(contents, '\n');
    let ghost trims = split_all(contents@, '\n').map_values(|l: Seq<char>| trim(l));
    let ghost full = |l: Seq<char>| l.len() > 0;
    let mut out: Vec<&'a str> = Vec::new();
    let mut i: usize = 0;
    proof {
        reveal(Seq::filter);
    }
    while i < lines.len()
        invariant
            i <= lines@.len(),
            strs(lines@) == split_all(contents@, '\n'),
            trims == split_all(contents@, '\n').map_values(|l: Seq<char>| trim(l)),
            full == (|l: Seq<char>| l.len() > 0),
            strs(out@) == trims.take(i as int).filter(full),
        decreases lines.len() - i,
    {
        let t = trimmed(lines[i]);
        let ghost before = out@;
        proof {
            reveal(Seq::filter);
            assert(strs(lines@)[i as int] == lines@[i as int]@);
            assert(trims.take(i + 1).drop_last() == trims.take(i as int));
        }
        if t.unicode_len() > 0 {
            out.push(t);
            assert(strs(out@) == strs(before).push(t@));
        }
        i = i + 1;
    }
    assert(trims.take(i as int) == trims);
    out
}

/// Filtering by a property that all items have keeps them all.
pub proof fn lemma_filter_all<T>(s: Seq<T>, p: spec_fn(T) -> bool)
    requires
        forall|i: int| 0 <= i < s.len() ==> p(#[trigger] s[i]),
    ensures
        s.filter(p) == s,
    decreases s.len(),
{
    reveal(Seq::filter);
    if s.len() > 0 {
        let t = s.drop_last();
        assert forall|i: int| 0 <= i < t.len() implies p(#[trigger] t[i]) by {
            assert(t[i] == s[i]);
        }
        lemma_filter_all(t, p);
        assert(p(s[s.len() - 1]));
        assert(t.push(s.last()) =~= s);
    } else {
        assert(s.filter(p) =~= s);
    }
}

/// Filtering keeps the items with the property, and no others.
pub proof fn lemma_filter_has<T>(s: Seq<T>, p: spec_fn(T) -> bool, x: T)
    ensures
        s.filter(p).contains(x) <==> s.contains(x) && p(x),
    decreases s.len(),
{
    reveal(Seq::filter);
    if s.len() > 0 {
        let t = s.drop_last();
        lemma_filter_has(t, p, x);
        let f = s.filter(p);
        if s.contains(x) && p(x) {
            let i = choose|i: int| 0 <= i < s.len() && s[i] == x;
            if i < t.len() {
                assert(t[i] == x);
                let j = choose|j: int| 0 <= j < t.filter(p).len() && t.filter(p)[j] == x;
                assert(f[j] == x);
            } else {
                assert(f.last() == x);
                assert(f[f.len() - 1] == x);
            }
        }
        if f.contains(x) {
            let j = choose|j: int| 0 <= j < f.len() && f[j] == x;
            if j < t.filter(p).len() {
                assert(t.filter(p)[j] == x);
                let i = choose|i: int| 0 <= i < t.len() && t[i] == x;
                assert(s[i] == x);
            } else {
                assert(s[s.len() - 1] == x);
            }
        }
    }
}

proof fn lemma_split_has(s: Seq<char>, c: char, i: int, j: int)
    requires
        0 <= i <= j <= s.len(),
        i > 0 ==> s[i - 1] == c,
        j < s.len() ==> s[j] == c,
        forall|k: int| i <= k < j ==> #[trigger] s[k] != c,
    ensures
        split_all(s, c).contains(s.subrange(i, j)),
    decreases s.len(),
{
    lemma_first_at(s, c);
    let f = first_at(s, c) as int;
    let all = split_all(s, c);
    if i == 0 {
        lemma_first_at_is(s, c, j);
        assert(s.subrange(0, j) =~= s.take(j));
        assert(j == s.len() ==> s.take(j) =~= s);
        assert(all[0] == s.subrange(i, j));
    } else {
        if f >= i {
            assert(s[i - 1] != c);
        }
        let rest = s.skip(f + 1);
        lemma_split_has(rest, c, i - f - 1, j - f - 1);
        assert(rest.subrange(i - f - 1, j - f - 1) =~= s.subrange(i, j));
        let k = choose|k: int|
            0 <= k < split_all(rest, c).len() && split_all(rest, c)[k] == s.subrange(i, j);
        assert(all[k + 1] == s.subrange(i, j));
    }
}

/// A line of a text file that neither starts nor ends in white space is among its
/// entries.
pub proof fn lemma_line_is_entry(a: Seq<char>, line: Seq<char>, b: Seq<char>)
    requires
        line.len() > 0,
        !is_white(line[0]),
        !is_white(line.last()),
        forall|i: int| 0 <= i < line.len() ==> #[trigger] line[i] != '\n',
    ensures
        entries_of(a + seq!['\n'] + line + seq!['\n'] + b).contains(line),
{
    let s = a + seq!['\n'] + line + seq!['\n'] + b;
    let i = a.len() as int + 1;
    let j = i + line.len();
    assert forall|k: int| i <= k < j implies #[trigger] s[k] != '\n' by {
        assert(s[k] == line[k - i]);
    }
    lemma_split_has(s, '\n', i, j);
    assert(s.subrange(i, j) =~= line);
    lemma_trim_clean(line);
    let lines = split_all(s, '\n');
    let trims = lines.map_values(|l: Seq<char>| trim(l));
    let k = choose|k: int| 0 <= k < lines.len() && lines[k] == line;
    assert(trims[k] == line);
    lemma_filter_has(trims, |l: Seq<char>| l.len() > 0, line);
}

// ── Lower case ───────────────────────────────────────────────────────────────

/// The lower-case form of a text, by the Unicode case mapping.
pub uninterp spec fn lowercase(s: Seq<char>) -> Seq<char>;

/// `str::to_lowercase`: the lower-case form of `s`. It is a function of the text
/// alone; nothing more is claimed of it.
#[verifier::external_body]
pub(crate) fn lower(s: &str) -> (r: String)
    ensures
        r@ == lowercase(s@),
{
    s.to_lowercase()
}

/// The lower-case form of a text; that of the empty text is empty.
pub open spec fn lower_word(s: Seq<char>) -> Seq<char> {
    if s.len() == 0 {
        Seq::empty()
    } else {
        lowercase(s)
    }
}

/// The lower-case form of a text; that of the empty text is empty.
pub fn lowered(s: &str) -> (r: String)
    ensures
        r@ == lower_word(s@),
{
    if s.unicode_len() == 0 {
        String::new()
    } else {
        lower(s)
    }
}

// ── Decimal numbers ──────────────────────────────────────────────────────────

/// The character of a decimal digit.
pub open spec fn digit_of(d: nat) -> char {
    ('0' as u32 + d) as char
}

/// Whether `c` is an ASCII decimal digit.
pub open spec fn is_digit(c: char) -> bool {
    '0' <= c <= '9'
}

/// The value of an ASCII decimal digit.
pub open spec fn digit_value(c: char) -> nat {
    (c as u32 - '0' as u32) as nat
}

/// The decimal numeral of `n`, without leading zeros.
pub open spec fn decimal_of(n: nat) -> Seq<char>
    decreases n,
{
    if n < 10 {
        seq![digit_of(n)]
    } else {
        decimal_of(n / 10).push(digit_of(n % 10))
    }
}

/// The decimal numeral of an integer, with a minus sign when it is negative.
pub open spec fn decimal_int(n: int) -> Seq<char> {
    if n < 0 {
        seq!['-'] + decimal_of((-n) as nat)
    } else {
        decimal_of(n as nat)
    }
}

/// Whether every character of `s` is a decimal digit.
pub open spec fn all_digits(s: Seq<char>) -> bool {
    forall|i: int| 0 <= i < s.len() ==> is_digit(#[trigger] s[i])
}

/// The number that a row of decimal digits stands for.
pub open spec fn digits_value(s: Seq<char>) -> nat
    decreases s.len(),
{
    if s.len() == 0 {
        0
    } else {
        10 * digits_value(s.drop_last()) + digit_value(s.last())
    }
}

/// `s` without one leading plus sign.
pub open spec fn unsigned_part(s: Seq<char>) -> Seq<char> {
    if s.len() > 0 && s[0] == '+' {
        s.skip(1)
    } else {
        s
    }
}

/// The number that `s` spells: an optional plus sign and at least one digit,
/// with a value that fits the machine word.
pub open spec fn usize_of(s: Seq<char>) -> Option<usize> {
    let d = unsigned_part(s);
    if d.len() > 0 && all_digits(d) && digits_value(d) <= usize::MAX {
        Some(digits_value(d) as usize)
    } else {
        None
    }
}

/// The signed number that `s` spells: an optional sign and at least one digit,
/// with a value that fits.
pub open spec fn i64_of(s: Seq<char>) -> Option<i64> {
    let negative = s.len() > 0 && s[0] == '-';
    let d = if negative {
        s.skip(1)
    } else {
        unsigned_part(s)
    };
    let v = if negative {
        -digits_value(d)
    } else {
        digits_value(d) as int
    };
    if d.len() > 0 && all_digits(d) && i64::MIN <= v <= i64::MAX {
        Some(v as i64)
    } else {
        None
    }
}

fn digit(d: u8) -> (c: char)
    requires
        d < 10,
    ensures
        c == digit_of(d as nat),
{
    (48u8 + d) as char
}

/// The decimal numeral of `n`.
pub fn decimal(n: u128) -> (r: String)
    ensures
        r@ == decimal_of(n as nat),
    decreases n,
{
    if n < 10 {
        let mut s = String::new();
        s.push(digit(n as u8));
        assert(s@ == seq![digit_of(n as nat)]);
        s
    } else {
        let mut s = decimal(n / 10);
        s.push(digit((n % 10) as u8));
        s
    }
}

/// The decimal numeral of `n`, with a minus sign when it is negative.
pub fn decimal_signed(n: i64) -> (r: String)
    ensures
        r@ == decimal_int(n as int),
{
    if n < 0 {
        let mut s = String::new();
        s.push('-');
        let d = decimal((-(n as i128)) as u128);
        s.append(d.as_str());
        assert(s@ == seq!['-'] + d@);
        s
    } else {
        decimal(n as u128)
    }
}

proof fn lemma_value_step(s: Seq<char>, i: int)
    requires
        0 <= i < s.len(),
    ensures
        digits_value(s.take(i + 1)) == 10 * digits_value(s.take(i)) + digit_value(s[i]),
{
    assert(s.take(i + 1).drop_last() == s.take(i));
}

proof fn lemma_value_monotone(s: Seq<char>, i: int)
    requires
        0 <= i <= s.len(),
    ensures
        digits_value(s.take(i)) <= digits_value(s),
    decreases s.len() - i,
{
    if i < s.len() {
        lemma_value_step(s, i);
        lemma_value_monotone(s, i + 1);
    } else {
        assert(s.take(i) == s);
    }
}

/// The number that the digits from `start` on spell, if they do and it fits.
fn digits_from(cs: &Vec<char>, start: usize) -> (r: Option<u64>)
    requires
        start <= cs@.len(),
    ensures
        ({
            let d = cs@.skip(start as int);
            r == if d.len() > 0 && all_digits(d) && digits_value(d) <= u64::MAX {
                Some(digits_value(d) as u64)
            } else {
                None
            }
        }),
{
    let ghost d = cs@.skip(start as int);
    if start == cs.len() {
        return None;
    }
    let mut value: u64 = 0;
    let mut i: usize = start;
    while i < cs.len()
        invariant
            d == cs@.skip(start as int),
            d.len() > 0,
            start <= i <= cs@.len(),
            value == digits_value(d.take(i - start)),
            all_digits(d.take(i - start)),
        decreases cs.len() - i,
    {
        let c = cs[i];
        assert(d[i - start] == c);
        if c < '0' || c > '9' {
            return None;
        }
        let v = (c as u32 - '0' as u32) as u64;
        proof {
            lemma_value_step(d, i - start);
            lemma_value_monotone(d, i - start + 1);
            assert(d.take(i - start + 1) == d.take(i - start).push(c));
        }
        match value.checked_mul(10) {
            Some(x) => match x.checked_add(v) {
                Some(y) => {
                    value = y;
                },
                None => {
                    return None;
                },
            },
            None => {
                return None;
            },
        }
        i = i + 1;
    }
    assert(d.take(i - start) == d);
    Some(value)
}

/// The number that `s` spells, if it spells one.
pub fn parse_usize(s: &str) -> (r: Option<usize>)
    ensures
        r == usize_of(s@),
{
    let cs = chars_of(s);
    let start: usize = if cs.len() > 0 && cs[0] == '+' { 1 } else { 0 };
    assert(unsigned_part(s@) =~= cs@.skip(start as int));
    match digits_from(&cs, start) {
        Some(v) => if v <= usize::MAX as u64 {
            Some(v as usize)
        } else {
            None
        },
        None => None,
    }
}

/// The signed number that `s` spells, if it spells one.
pub fn parse_i64(s: &str) -> (r: Option<i64>)
    ensures
        r == i64_of(s@),
{
    let cs = chars_of(s);
    if cs.len() > 0 && cs[0] == '-' {
        match digits_from(&cs, 1) {
            Some(v) => if v <= 0x8000_0000_0000_0000 {
                Some((-(v as i128)) as i64)
            } else {
                None
            },
            None => None,
        }
    } else {
        let start: usize = if cs.len() > 0 && cs[0] == '+' { 1 } else { 0 };
        assert(unsigned_part(s@) =~= cs@.skip(start as int));
        match digits_from(&cs, start) {
            Some(v) => if v <= 0x7fff_ffff_ffff_ffff {
                Some(v as i64)
            } else {
                None
            },
            None => None,
        }
    }
}

/// A decimal numeral is a nonempty row of digits that stands for its number.
pub proof fn lemma_decimal_value(n: nat)
    ensures
        decimal_of(n).len() > 0,
        all_digits(decimal_of(n)),
        digits_value(decimal_of(n)) == n,
    decreases n,
{
    if n >= 10 {
        lemma_decimal_value(n / 10);
        assert(decimal_of(n).drop_last() == decimal_of(n / 10));
    } else {
        assert(digits_value(decimal_of(n).drop_last()) == 0);
    }
}

/// A number reads back from its decimal numeral.
pub proof fn lemma_decimal_reads_back(n: usize)
    ensures
        usize_of(decimal_of(n as nat)) == Some(n),
{
    lemma_decimal_value(n as nat);
    assert(is_digit(decimal_of(n as nat)[0]));
}

/// A signed number reads back from its decimal numeral.
pub proof fn lemma_signed_reads_back(n: i64)
    ensures
        i64_of(decimal_int(n as int)) == Some(n),
{
    let m = if n < 0 {
        -(n as int)
    } else {
        n as int
    };
    lemma_decimal_value(m as nat);
    assert(is_digit(decimal_of(m as nat)[0]));
    if n < 0 {
        assert(decimal_int(n as int).skip(1) =~= decimal_of(m as nat));
    }
}

// ── Layout of text ───────────────────────────────────────────────────────────

/// `n` spaces.
pub open spec fn spaces_of(n: int) -> Seq<char> {
    Seq::new(if n < 0 { 0 } else { n as nat }, |i: int| ' ')
}

/// `s` filled up with spaces on the right to `width` characters.
pub open spec fn pad_right_of(s: Seq<char>, width: nat) -> Seq<char> {
    s + spaces_of(width - s.len())
}

/// `n` spaces.
pub fn spaces(n: usize) -> (r: String)
    ensures
        r@ == spaces_of(n as int),
{
    let mut s = String::new();
    let mut i: usize = 0;
    assert(s@ == spaces_of(0));
    while i < n
        invariant
            i <= n,
            s@ == spaces_of(i as int),
        decreases n - i,
    {
        s.push(' ');
        i = i + 1;
        assert(s@ == spaces_of(i as int));
    }
    s
}

/// `s` filled up with spaces on the right to `width` characters.
pub fn pad_right(s: &str, width: usize) -> (r: String)
    ensures
        r@ == pad_right_of(s@, width as nat),
{
    let mut r = s.to_owned();
    let n = s.unicode_len();
    if n < width {
        let gap = spaces(width - n);
        r.append(gap.as_str());
    } else {
        assert(s@ + spaces_of(width - s@.len()) == s@);
    }
    r
}

/// The texts in a row, with `sep` between them.
pub open spec fn join_of(v: Seq<Seq<char>>, sep: Seq<char>) -> Seq<char>
    decreases v.len(),
{
    if v.len() == 0 {
        Seq::empty()
    } else if v.len() == 1 {
        v[0]
    } else {
        join_of(v.drop_last(), sep) + sep + v.last()
    }
}

/// The texts in a row, with `sep` between them.
pub fn join(v: &Vec<String>, sep: &str) -> (r: String)
    ensures
        r@ == join_of(texts(v@), sep@),
{
    let mut out = String::new();
    let mut i: usize = 0;
    let ghost all = texts(v@);
    while i < v.len()
        invariant
            i <= v@.len(),
            all == texts(v@),
            out@ == join_of(all.take(i as int), sep@),
        decreases v.len() - i,
    {
        assert(all.take(i + 1).drop_last() == all.take(i as int));
        assert(all.take(i + 1).last() == v@[i as int]@);
        if i > 0 {
            out.append(sep);
        }
        out.append(v[i].as_str());
        i = i + 1;
    }
    assert(all.take(i as int) == all);
    out
}

/// The length of a text in bytes of UTF-8.
pub open spec fn byte_len_of(s: Seq<char>) -> nat {
    encode_utf8(s).len()
}

/// The length of a text in bytes of UTF-8.
pub fn byte_len(s: &str) -> (n: usize)
    ensures
        n == byte_len_of(s@),
{
    s.as_bytes().len()
}

/// The bytes of two texts in a row are those of the one and then those of the
/// other, and the row can be cut between them.
pub proof fn lemma_bytes_concat(a: Seq<char>, b: Seq<char>)
    ensures
        encode_utf8(a + b) == encode_utf8(a) + encode_utf8(b),
        is_char_boundary(encode_utf8(a + b), byte_len_of(a) as int),
    decreases a.len(),
{
    vstd::utf8::encode_utf8_valid_utf8(a + b);
    if a.len() == 0 {
        assert(a + b =~= b);
        assert(encode_utf8(a) + encode_utf8(b) =~= encode_utf8(b));
    } else {
        let t = a.drop_first();
        assert((a + b).drop_first() =~= t + b);
        lemma_bytes_concat(t, b);
        vstd::utf8::encode_utf8_first_scalar(a + b);
        vstd::utf8::encode_utf8_first_scalar(a);
        let bytes = encode_utf8(a + b);
        assert(bytes =~= encode_utf8(a) + encode_utf8(b));
        assert(vstd::utf8::pop_first_scalar(bytes) =~= encode_utf8(t + b));
    }
}

} // verus!
