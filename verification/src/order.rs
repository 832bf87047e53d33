//! Alphabetical order without regard to case, and removal of repeats.
use vstd::prelude::*;
use crate::text::{chars_of, lower, lowercase, same, texts};

verus! {

/// Lexicographic order of texts by code point.
pub open spec fn lex_le(a: Seq<char>, b: Seq<char>) -> bool
    decreases a.len(),
{
    if a.len() == 0 {
        true
    } else if b.len() == 0 {
        false
    } else {
        a[0] < b[0] || (a[0] == b[0] && lex_le(a.drop_first(), b.drop_first()))
    }
}

/// Order of names without regard to case.
pub open spec fn name_le(a: Seq<char>, b: Seq<char>) -> bool {
    lex_le(lowercase(a), lowercase(b))
}

/// `x` put into `s` behind the last name that is not greater.
pub open spec fn insert_name(s: Seq<Seq<char>>, x: Seq<char>) -> Seq<Seq<char>>
    decreases s.len(),
{
    if s.len() == 0 || name_le(s.last(), x) {
        s.push(x)
    } else {
        insert_name(s.drop_last(), x).push(s.last())
    }
}

/// The names in alphabetical order without regard to case; names that are equal
/// but for case keep their order (see `sorting_is_stable`).
pub open spec fn sort_of(s: Seq<Seq<char>>) -> Seq<Seq<char>>
    decreases s.len(),
{
    if s.len() == 0 {
        Seq::empty()
    } else {
        insert_name(sort_of(s.drop_last()), s.last())
    }
}

/// The names without those that equal the one just before them.
pub open spec fn dedup_of(s: Seq<Seq<char>>) -> Seq<Seq<char>>
    decreases s.len(),
{
    if s.len() < 2 {
        s
    } else if s[s.len() - 1] == s[s.len() - 2] {
        dedup_of(s.drop_last())
    } else {
        dedup_of(s.drop_last()).push(s.last())
    }
}

/// Whether the names are in alphabetical order without regard to case.
pub open spec fn in_order(s: Seq<Seq<char>>) -> bool {
    forall|i: int, j: int| 0 <= i <= j < s.len() ==> name_le(#[trigger] s[i], #[trigger] s[j])
}

/// The names of `s` whose lower-case form is `k`, in their order.
pub open spec fn spelled(s: Seq<Seq<char>>, k: Seq<char>) -> Seq<Seq<char>> {
    s.filter(|x: Seq<char>| lowercase(x) == k)
}

proof fn lemma_lex_total(a: Seq<char>, b: Seq<char>)
    ensures
        lex_le(a, a),
        lex_le(a, b) || lex_le(b, a),
    decreases a.len(),
{
    if a.len() > 0 {
        lemma_lex_total(a.drop_first(), if b.len() > 0 { b.drop_first() } else { b });
    }
}

proof fn lemma_lex_trans(a: Seq<char>, b: Seq<char>, c: Seq<char>)
    requires
        lex_le(a, b),
        lex_le(b, c),
    ensures
        lex_le(a, c),
    decreases a.len(),
{
    if a.len() > 0 && a[0] == b[0] && b[0] == c[0] {
        lemma_lex_trans(a.drop_first(), b.drop_first(), c.drop_first());
    }
}

proof fn lemma_lex_antisym(a: Seq<char>, b: Seq<char>)
    requires
        lex_le(a, b),
        lex_le(b, a),
    ensures
        a == b,
    decreases a.len(),
{
    if a.len() > 0 {
        lemma_lex_antisym(a.drop_first(), b.drop_first());
        assert(a == seq![a[0]] + a.drop_first());
        assert(b == seq![b[0]] + b.drop_first());
    } else {
        assert(a == b);
    }
}

proof fn lemma_insert_splits(s: Seq<Seq<char>>, x: Seq<char>, p: int)
    requires
        0 <= p <= s.len(),
        p > 0 ==> name_le(s[p - 1], x),
        forall|j: int| p <= j < s.len() ==> !name_le(#[trigger] s[j], x),
    ensures
        insert_name(s, x) == s.take(p).push(x) + s.skip(p),
    decreases s.len(),
{
    if s.len() == p {
        assert(s.take(p) == s);
        assert(s.take(p).push(x) + s.skip(p) == s.push(x));
    } else {
        let t = s.drop_last();
        assert forall|j: int| p <= j < t.len() implies !name_le(#[trigger] t[j], x) by {
            assert(t[j] == s[j]);
        }
        assert(!name_le(s[s.len() - 1], x));
        lemma_insert_splits(t, x, p);
        assert(t.take(p) == s.take(p));
        assert(t.skip(p).push(s.last()) == s.skip(p));
        assert(insert_name(s, x) == (s.take(p).push(x) + t.skip(p)).push(s.last()));
        assert((s.take(p).push(x) + t.skip(p)).push(s.last()) == s.take(p).push(x) + s.skip(p));
    }
}

/// Whether `a` comes before `b` or equals it in lexicographic order.
fn before_or_same(a: &Vec<char>, b: &Vec<char>) -> (r: bool)
    ensures
        r == lex_le(a@, b@),
{
    let mut i: usize = 0;
    assert(a@.skip(0) == a@);
    assert(b@.skip(0) == b@);
    while i < a.len() && i < b.len()
        invariant
            i <= a@.len(),
            i <= b@.len(),
            lex_le(a@, b@) == lex_le(a@.skip(i as int), b@.skip(i as int)),
        decreases a.len() - i,
    {
        assert(a@.skip(i as int)[0] == a@[i as int]);
        assert(b@.skip(i as int)[0] == b@[i as int]);
        if a[i] < b[i] {
            return true;
        }
        if a[i] > b[i] {
            return false;
        }
        assert(a@.skip(i as int).drop_first() == a@.skip(i + 1));
        assert(b@.skip(i as int).drop_first() == b@.skip(i + 1));
        i = i + 1;
    }
    i >= a.len()
}

/// The names in alphabetical order without regard to case.
pub fn sort_names(v: &Vec<String>) -> (r: Vec<String>)
    ensures
        texts(r@) == sort_of(texts(v@)),
{
    let mut out: Vec<String> = Vec::new();
    let mut keys: Vec<Vec<char>> = Vec::new();
    let mut i: usize = 0;
    let ghost all = texts(v@);
    assert(texts(out@) == sort_of(all.take(0)));
    while i < v.len()
        invariant
            i <= v@.len(),
            all == texts(v@),
            texts(out@) == sort_of(all.take(i as int)),
            keys@.len() == out@.len(),
            out@.len() == i,
            forall|j: int| 0 <= j < keys@.len() ==> (#[trigger] keys@[j])@ == lowercase(out@[j]@),
        decreases v.len() - i,
    {
        let low = lower(v[i].as_str());
        let key = chars_of(low.as_str());
        let mut p: usize = out.len();
        while p > 0 && !before_or_same(&keys[p - 1], &key)
            invariant
                p <= out@.len(),
                i < v@.len(),
                keys@.len() == out@.len(),
                key@ == lowercase(v@[i as int]@),
                forall|j: int|
                    0 <= j < keys@.len() ==> (#[trigger] keys@[j])@ == lowercase(out@[j]@),
                forall|j: int|
                    p <= j < out@.len() ==> !name_le(#[trigger] texts(out@)[j], v@[i as int]@),
            decreases p,
        {
            assert(texts(out@)[p - 1] == out@[p - 1]@);
            assert(keys@[p - 1]@ == lowercase(out@[p - 1]@));
            p = p - 1;
        }
        let ghost before = out@;
        let ghost old_keys = keys@;
        proof {
            if p > 0 {
                assert(texts(before)[p - 1] == before[p - 1]@);
                assert(keys@[p - 1]@ == lowercase(out@[p - 1]@));
            }
            lemma_insert_splits(texts(before), v@[i as int]@, p as int);
            assert(all.take(i + 1).drop_last() == all.take(i as int));
            assert(all.take(i + 1).last() == v@[i as int]@);
        }
        out.insert(p, v[i].clone());
        keys.insert(p, key);
        proof {
            assert(texts(out@) == texts(before).take(p as int).push(v@[i as int]@) + texts(
                before,
            ).skip(p as int));
            assert forall|j: int| 0 <= j < keys@.len() implies (#[trigger] keys@[j])@ == lowercase(
                out@[j]@,
            ) by {
                if j < p {
                    assert(keys@[j] == old_keys[j]);
                } else if j > p {
                    assert(keys@[j] == old_keys[j - 1]);
                }
            }
        }
        i = i + 1;
    }
    assert(all.take(i as int) == all);
    out
}

/// The names without those that equal the one just before them.
pub fn dedup_names(v: &Vec<String>) -> (r: Vec<String>)
    ensures
        texts(r@) == dedup_of(texts(v@)),
{
    let mut out: Vec<String> = Vec::new();
    let mut i: usize = 0;
    let ghost all = texts(v@);
    assert(texts(out@) == dedup_of(all.take(0)));
    while i < v.len()
        invariant
            i <= v@.len(),
            all == texts(v@),
            texts(out@) == dedup_of(all.take(i as int)),
        decreases v.len() - i,
    {
        assert(all.take(i + 1).drop_last() == all.take(i as int));
        let ghost before = out@;
        if i == 0 || !same(v[i].as_str(), v[i - 1].as_str()) {
            out.push(v[i].clone());
            assert(texts(out@) == texts(before).push(v@[i as int]@));
            if i == 0 {
                assert(all.take(1) == seq![v@[0]@]);
                assert(texts(out@) == all.take(1));
            }
        }
        i = i + 1;
    }
    assert(all.take(i as int) == all);
    out
}

// ── What sorting promises ────────────────────────────────────────────────────

proof fn lemma_filter_push(s: Seq<Seq<char>>, x: Seq<char>, k: Seq<char>)
    ensures
        spelled(s.push(x), k) == if lowercase(x) == k {
            spelled(s, k).push(x)
        } else {
            spelled(s, k)
        },
{
    reveal(Seq::filter);
    assert(s.push(x).drop_last() == s);
}

proof fn lemma_spelled_empty(s: Seq<Seq<char>>, k: Seq<char>)
    requires
        forall|j: int| 0 <= j < s.len() ==> lowercase(#[trigger] s[j]) != k,
    ensures
        spelled(s, k) == Seq::<Seq<char>>::empty(),
    decreases s.len(),
{
    reveal(Seq::filter);
    if s.len() > 0 {
        assert(s == s.drop_last().push(s.last()));
        lemma_filter_push(s.drop_last(), s.last(), k);
        assert(lowercase(s[s.len() - 1]) != k);
        assert forall|j: int| 0 <= j < s.drop_last().len() implies lowercase(
            #[trigger] s.drop_last()[j],
        ) != k by {
            assert(s.drop_last()[j] == s[j]);
        }
        lemma_spelled_empty(s.drop_last(), k);
    }
}

proof fn lemma_insert_sorted(s: Seq<Seq<char>>, x: Seq<char>)
    requires
        in_order(s),
    ensures
        in_order(insert_name(s, x)),
        insert_name(s, x).len() == s.len() + 1,
        forall|i: int|
            0 <= i < s.len() + 1 ==> #[trigger] insert_name(s, x)[i] == x || s.contains(
                insert_name(s, x)[i],
            ),
        forall|k: Seq<char>| #[trigger]
            spelled(insert_name(s, x), k) == spelled(s.push(x), k),
    decreases s.len(),
{
    let r = insert_name(s, x);
    if s.len() == 0 || name_le(s.last(), x) {
        assert forall|i: int, j: int| 0 <= i <= j < r.len() implies name_le(
            #[trigger] r[i],
            #[trigger] r[j],
        ) by {
            lemma_lex_total(lowercase(x), lowercase(x));
            if j == s.len() && i < j {
                assert(name_le(s[i], s[s.len() - 1]));
                lemma_lex_trans(lowercase(s[i]), lowercase(s.last()), lowercase(x));
            } else if i < s.len() {
                assert(name_le(s[i], s[j]));
            }
        }
        assert forall|i: int| 0 <= i < s.len() + 1 implies #[trigger] r[i] == x || s.contains(
            r[i],
        ) by {
            if i < s.len() {
                assert(s[i] == r[i]);
            }
        }
    } else {
        let t = s.drop_last();
        let l = s.last();
        assert forall|i: int, j: int| 0 <= i <= j < t.len() implies name_le(
            #[trigger] t[i],
            #[trigger] t[j],
        ) by {
            assert(name_le(s[i], s[j]));
        }
        lemma_insert_sorted(t, x);
        let q = insert_name(t, x);
        lemma_lex_total(lowercase(x), lowercase(l));
        assert forall|i: int, j: int| 0 <= i <= j < r.len() implies name_le(
            #[trigger] r[i],
            #[trigger] r[j],
        ) by {
            if j < q.len() {
                assert(name_le(q[i], q[j]));
            } else if i < q.len() {
                if q[i] != x {
                    assert(t.contains(q[i]));
                    let m = choose|m: int| 0 <= m < t.len() && t[m] == q[i];
                    assert(name_le(s[m], s[s.len() - 1]));
                }
            } else {
                lemma_lex_total(lowercase(l), lowercase(l));
            }
        }
        assert forall|i: int| 0 <= i < s.len() + 1 implies #[trigger] r[i] == x || s.contains(
            r[i],
        ) by {
            if i < q.len() {
                if q[i] != x {
                    assert(t.contains(q[i]));
                    let m = choose|m: int| 0 <= m < t.len() && t[m] == q[i];
                    assert(s[m] == r[i]);
                }
            } else {
                assert(s[s.len() - 1] == r[i]);
            }
        }
        assert forall|k: Seq<char>| #[trigger] spelled(r, k) == spelled(s.push(x), k) by {
            lemma_filter_push(q, l, k);
            lemma_filter_push(t, x, k);
            assert(spelled(q, k) == spelled(t.push(x), k));
            assert(s == t.push(l));
            lemma_filter_push(t, l, k);
            lemma_filter_push(s, x, k);
            if lowercase(l) == k && lowercase(x) == k {
                lemma_lex_total(k, k);
            }
        }
    }
}

/// Sorting puts the names in order and keeps, for every lower-case form, the
/// names of that form as they were: none lost, none added, none swapped.
pub proof fn sorting_is_stable(s: Seq<Seq<char>>)
    ensures
        in_order(sort_of(s)),
        sort_of(s).len() == s.len(),
        forall|k: Seq<char>| #[trigger] spelled(sort_of(s), k) == spelled(s, k),
    decreases s.len(),
{
    if s.len() > 0 {
        let t = s.drop_last();
        sorting_is_stable(t);
        lemma_insert_sorted(sort_of(t), s.last());
        assert forall|k: Seq<char>| #[trigger] spelled(sort_of(s), k) == spelled(s, k) by {
            lemma_filter_push(sort_of(t), s.last(), k);
            lemma_filter_push(t, s.last(), k);
            assert(s == t.push(s.last()));
            assert(spelled(sort_of(t), k) == spelled(t, k));
            assert(spelled(insert_name(sort_of(t), s.last()), k) == spelled(
                sort_of(t).push(s.last()),
                k,
            ));
        }
    } else {
        assert(sort_of(s) == s);
    }
}

proof fn lemma_last_key_le(a: Seq<Seq<char>>, b: Seq<Seq<char>>)
    requires
        a.len() > 0,
        in_order(b),
        spelled(a, lowercase(a.last())) == spelled(b, lowercase(a.last())),
    ensures
        b.len() > 0,
        name_le(a.last(), b.last()),
{
    let k = lowercase(a.last());
    assert(a == a.drop_last().push(a.last()));
    lemma_filter_push(a.drop_last(), a.last(), k);
    assert(spelled(a, k).len() > 0);
    if forall|j: int| 0 <= j < b.len() ==> lowercase(#[trigger] b[j]) != k {
        lemma_spelled_empty(b, k);
        assert(spelled(b, k).len() == 0);
    } else {
        let j = choose|j: int| 0 <= j < b.len() && lowercase(#[trigger] b[j]) == k;
        assert(name_le(b[j], b[b.len() - 1]));
    }
}

proof fn lemma_ordered_unique(a: Seq<Seq<char>>, b: Seq<Seq<char>>)
    requires
        in_order(a),
        in_order(b),
        forall|k: Seq<char>| #[trigger] spelled(a, k) == spelled(b, k),
    ensures
        a == b,
    decreases a.len(),
{
    if a.len() == 0 && b.len() == 0 {
        assert(a == b);
    } else if a.len() == 0 {
        lemma_last_key_le(b, a);
    } else {
        lemma_last_key_le(a, b);
        lemma_last_key_le(b, a);
        lemma_lex_antisym(lowercase(a.last()), lowercase(b.last()));
        let k = lowercase(a.last());
        let a1 = a.drop_last();
        let b1 = b.drop_last();
        assert(a == a1.push(a.last()));
        assert(b == b1.push(b.last()));
        lemma_filter_push(a1, a.last(), k);
        lemma_filter_push(b1, b.last(), k);
        assert(spelled(a, k).last() == a.last());
        assert(spelled(b, k).last() == b.last());
        assert forall|j: Seq<char>| #[trigger] spelled(a1, j) == spelled(b1, j) by {
            lemma_filter_push(a1, a.last(), j);
            lemma_filter_push(b1, b.last(), j);
            assert(spelled(a, j) == spelled(b, j));
            if j == k {
                assert(spelled(a, j).drop_last() == spelled(a1, j));
                assert(spelled(b, j).drop_last() == spelled(b1, j));
            }
        }
        assert forall|i: int, j: int| 0 <= i <= j < a1.len() implies name_le(
            #[trigger] a1[i],
            #[trigger] a1[j],
        ) by {
            assert(name_le(a[i], a[j]));
        }
        assert forall|i: int, j: int| 0 <= i <= j < b1.len() implies name_le(
            #[trigger] b1[i],
            #[trigger] b1[j],
        ) by {
            assert(name_le(b[i], b[j]));
        }
        lemma_ordered_unique(a1, b1);
    }
}

/// There is one way only to sort names stably: a list in order that keeps, for
/// every lower-case form, the names of that form as they were is the sorted list.
pub proof fn sorting_is_unique(s: Seq<Seq<char>>, r: Seq<Seq<char>>)
    requires
        in_order(r),
        forall|k: Seq<char>| #[trigger] spelled(r, k) == spelled(s, k),
    ensures
        r == sort_of(s),
{
    sorting_is_stable(s);
    assert forall|k: Seq<char>| #[trigger] spelled(r, k) == spelled(sort_of(s), k) by {
        assert(spelled(sort_of(s), k) == spelled(s, k));
    }
    lemma_ordered_unique(r, sort_of(s));
}

proof fn lemma_dedup_shape(s: Seq<Seq<char>>)
    ensures
        s.len() > 0 ==> dedup_of(s).len() > 0 && dedup_of(s).last() == s.last(),
        forall|i: int|
            0 <= i < dedup_of(s).len() - 1 ==> #[trigger] dedup_of(s)[i] != dedup_of(s)[i + 1],
        forall|x: Seq<char>| #[trigger] dedup_of(s).contains(x) <==> s.contains(x),
    decreases s.len(),
{
    if s.len() >= 2 {
        let t = s.drop_last();
        lemma_dedup_shape(t);
        let d = dedup_of(s);
        assert forall|x: Seq<char>| #[trigger] d.contains(x) <==> s.contains(x) by {
            assert(dedup_of(t).contains(x) <==> t.contains(x));
            if s.contains(x) {
                let i = choose|i: int| 0 <= i < s.len() && s[i] == x;
                if i < t.len() {
                    assert(t[i] == x);
                } else if s[s.len() - 1] == s[s.len() - 2] {
                    assert(t[t.len() - 1] == x);
                } else {
                    assert(d[d.len() - 1] == x);
                }
                if t.contains(x) {
                    let j = choose|j: int| 0 <= j < dedup_of(t).len() && dedup_of(t)[j] == x;
                    assert(d[j] == x);
                }
            }
            if d.contains(x) {
                let i = choose|i: int| 0 <= i < d.len() && d[i] == x;
                if i < dedup_of(t).len() {
                    assert(dedup_of(t)[i] == x);
                    let j = choose|j: int| 0 <= j < t.len() && t[j] == x;
                    assert(s[j] == x);
                } else {
                    assert(s[s.len() - 1] == x);
                }
            }
        }
        assert forall|i: int| 0 <= i < d.len() - 1 implies #[trigger] d[i] != d[i + 1] by {
            if i + 1 < dedup_of(t).len() {
                assert(dedup_of(t)[i] != dedup_of(t)[i + 1]);
            }
        }
    }
}

/// Removing repeats leaves no two neighbours alike, and neither loses a name nor
/// adds one.
pub proof fn dedup_keeps_names(s: Seq<Seq<char>>)
    ensures
        forall|i: int|
            0 <= i < dedup_of(s).len() - 1 ==> #[trigger] dedup_of(s)[i] != dedup_of(s)[i + 1],
        forall|x: Seq<char>| #[trigger] dedup_of(s).contains(x) <==> s.contains(x),
{
    lemma_dedup_shape(s);
}

} // verus!
