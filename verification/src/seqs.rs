use vstd::prelude::*;

use crate::text::{chars_eq, push_chars, push_str};

verus! {

/// `s` with later repeats of an element removed: the distinct elements in
/// the order they first occur.
pub open spec fn dedup<A>(s: Seq<A>) -> Seq<A>
    decreases s.len(),
{
    if s.len() == 0 {
        s
    } else {
        let d = dedup(s.drop_last());
        if d.contains(s.last()) {
            d
        } else {
            d.push(s.last())
        }
    }
}

/// How often `x` occurs in `s`.
pub open spec fn count_of<A>(s: Seq<A>, x: A) -> nat
    decreases s.len(),
{
    if s.len() == 0 {
        0
    } else {
        count_of(s.drop_last(), x) + if s.last() == x {
            1nat
        } else {
            0nat
        }
    }
}

/// The parts joined with `sep` between them (`[T]::join`).
pub open spec fn join(parts: Seq<Seq<char>>, sep: Seq<char>) -> Seq<char>
    decreases parts.len(),
{
    if parts.len() == 0 {
        Seq::empty()
    } else if parts.len() == 1 {
        parts[0]
    } else {
        join(parts.drop_last(), sep) + sep + parts.last()
    }
}

/// An element is in the deduplicated sequence exactly when it is in the
/// sequence, and it occurs there once.
pub proof fn lemma_dedup_contains<A>(s: Seq<A>, x: A)
    ensures
        dedup(s).contains(x) <==> s.contains(x),
        s.contains(x) <==> count_of(s, x) > 0,
    decreases s.len(),
{
    if s.len() > 0 {
        let t = s.drop_last();
        lemma_dedup_contains(t, x);
        lemma_dedup_contains(t, s.last());
        if t.contains(x) {
            let i = choose|i: int| 0 <= i < t.len() && t[i] == x;
            assert(s[i] == x);
        }
        if s.contains(x) && s.last() != x {
            let i = choose|i: int| 0 <= i < s.len() && s[i] == x;
            assert(t[i] == x);
        }
        if s.last() == x {
            assert(s[s.len() - 1] == x);
        }
        let d = dedup(t);
        if !d.contains(s.last()) && d.push(s.last()).contains(x) && !d.contains(x) {
            let i = choose|i: int| 0 <= i < d.push(s.last()).len() && d.push(s.last())[i] == x;
            assert(i == d.len());
        }
        if d.contains(x) && !d.contains(s.last()) {
            let i = choose|i: int| 0 <= i < d.len() && d[i] == x;
            assert(d.push(s.last())[i] == x);
        }
        if !d.contains(s.last()) {
            assert(d.push(s.last())[d.len() as int] == s.last());
        }
    }
}

/// The deduplicated sequence holds no element twice.
pub proof fn lemma_dedup_unique<A>(s: Seq<A>)
    ensures
        dedup(s).no_duplicates(),
    decreases s.len(),
{
    if s.len() > 0 {
        lemma_dedup_unique(s.drop_last());
        let d = dedup(s.drop_last());
        if !d.contains(s.last()) {
            let e = d.push(s.last());
            assert forall|i: int, j: int| 0 <= i < e.len() && 0 <= j < e.len() && i != j implies e[i] != e[j] by {
                if i == d.len() {
                    assert(e[j] == d[j]);
                } else if j == d.len() {
                    assert(e[i] == d[i]);
                }
            }
        }
    }
}

/// One more element extends the deduplicated sequence by it, unless it is
/// already there.
pub proof fn lemma_dedup_push<A>(s: Seq<A>, x: A)
    ensures
        dedup(s.push(x)) == if dedup(s).contains(x) {
            dedup(s)
        } else {
            dedup(s).push(x)
        },
        forall|y: A| #[trigger] count_of(s.push(x), y) == count_of(s, y) + if x == y {
            1nat
        } else {
            0nat
        },
{
    assert(s.push(x).drop_last() =~= s);
}

/// Whether `v` holds a sequence equal to `x`.
pub fn index_of_chars(v: &Vec<Vec<char>>, x: &[char]) -> (r: Option<usize>)
    ensures
        match r {
            Some(i) => i < v@.len() && v@[i as int]@ == x@,
            None => forall|i: int| 0 <= i < v@.len() ==> v@[i]@ != x@,
        },
{
    let n = v.len();
    let mut i: usize = 0;
    while i < n
        invariant
            n == v@.len(),
            i <= n,
            forall|j: int| 0 <= j < i ==> v@[j]@ != x@,
        decreases n - i,
    {
        if chars_eq(v[i].as_slice(), x) {
            return Some(i);
        }
        i = i + 1;
    }
    None
}

/// The views of a sequence of strings.
pub open spec fn string_views(v: Seq<String>) -> Seq<Seq<char>> {
    v.map_values(|s: String| s@)
}

/// The views of a vector of character vectors.
pub open spec fn views(v: Seq<Vec<char>>) -> Seq<Seq<char>> {
    v.map_values(|x: Vec<char>| x@)
}

/// The distinct character sequences of `items`, in first-occurrence order,
/// each with the number of times it occurs.
pub fn distinct_with_counts(items: &Vec<Vec<char>>) -> (r: (Vec<Vec<char>>, Vec<usize>))
    ensures
        views(r.0@) == dedup(views(items@)),
        r.1@.len() == r.0@.len(),
        forall|j: int| 0 <= j < r.0@.len() ==> #[trigger] r.1@[j] == count_of(views(items@), r.0@[j]@),
{
    let n = items.len();
    let mut distinct: Vec<Vec<char>> = Vec::new();
    let mut counts: Vec<usize> = Vec::new();
    let mut i: usize = 0;
    while i < n
        invariant
            n == items@.len(),
            i <= n,
            views(distinct@) == dedup(views(items@).take(i as int)),
            counts@.len() == distinct@.len(),
            forall|j: int| 0 <= j < distinct@.len() ==> #[trigger] counts@[j] == count_of(views(items@).take(i as int), distinct@[j]@),
            forall|j: int| 0 <= j < counts@.len() ==> #[trigger] counts@[j] <= i,
        decreases n - i,
    {
        let ghost pre = views(items@).take(i as int);
        let ghost x = items@[i as int]@;
        proof {
            assert(views(items@).take(i + 1) =~= pre.push(x));
            lemma_dedup_push(pre, x);
            lemma_dedup_contains(pre, x);
            lemma_dedup_unique(pre);
        }
        let ghost old_distinct = distinct@;
        let ghost old_counts = counts@;
        match index_of_chars(&distinct, items[i].as_slice()) {
            Some(j) => {
                proof {
                    assert(views(distinct@)[j as int] == x);
                    assert(dedup(pre).contains(x));
                }
                let c = counts[j];
                counts.set(j, c + 1);
                assert forall|k: int| 0 <= k < distinct@.len() implies #[trigger] counts@[k] == count_of(pre.push(x), distinct@[k]@) by {
                    if k == j {
                        assert(distinct@[k]@ == x);
                    } else {
                        assert(views(distinct@)[k] == distinct@[k]@);
                        assert(distinct@[k]@ != x);
                    }
                }
            },
            None => {
                proof {
                    assert(!dedup(pre).contains(x)) by {
                        if dedup(pre).contains(x) {
                            let k = choose|k: int| 0 <= k < dedup(pre).len() && dedup(pre)[k] == x;
                            assert(views(distinct@)[k] == distinct@[k]@);
                        }
                    }
                    assert(count_of(pre, x) == 0);
                }
                distinct.push(items[i].clone());
                counts.push(1);
                assert(views(distinct@) =~= views(old_distinct).push(x));
                assert forall|k: int| 0 <= k < distinct@.len() implies #[trigger] counts@[k] == count_of(pre.push(x), distinct@[k]@) by {
                    if k < old_distinct.len() {
                        assert(distinct@[k] == old_distinct[k]);
                        assert(views(old_distinct)[k] == old_distinct[k]@);
                        assert(old_distinct[k]@ != x) by {
                            if old_distinct[k]@ == x {
                                assert(dedup(pre)[k] == x);
                            }
                        }
                    }
                }
            },
        }
        i = i + 1;
    }
    assert(views(items@).take(n as int) =~= views(items@));
    (distinct, counts)
}

/// The parts joined with `sep`.
pub fn join_chars(parts: &Vec<Vec<char>>, sep: &str) -> (out: String)
    ensures
        out@ == join(views(parts@), sep@),
{
    let mut out = String::new();
    let n = parts.len();
    let mut i: usize = 0;
    while i < n
        invariant
            n == parts@.len(),
            i <= n,
            out@ == join(views(parts@).take(i as int), sep@),
        decreases n - i,
    {
        let ghost pre = views(parts@).take(i as int);
        assert(views(parts@).take(i + 1).drop_last() =~= pre);
        if i > 0 {
            push_str(&mut out, sep);
        }
        push_chars(&mut out, parts[i].as_slice());
        if i == 0 {
            assert(Seq::<char>::empty() + parts@[0]@ =~= parts@[0]@);
        }
        i = i + 1;
    }
    assert(views(parts@).take(n as int) =~= views(parts@));
    out
}

/// The strings joined with `sep`.
pub fn join_strings(parts: &Vec<String>, sep: &str) -> (out: String)
    ensures
        out@ == join(string_views(parts@), sep@),
{
    let mut out = String::new();
    let n = parts.len();
    let mut i: usize = 0;
    while i < n
        invariant
            n == parts@.len(),
            i <= n,
            out@ == join(string_views(parts@).take(i as int), sep@),
        decreases n - i,
    {
        let ghost pre = string_views(parts@).take(i as int);
        assert(string_views(parts@).take(i + 1).drop_last() =~= pre);
        if i > 0 {
            push_str(&mut out, sep);
        }
        push_str(&mut out, parts[i].as_str());
        if i == 0 {
            assert(Seq::<char>::empty() + parts@[0]@ =~= parts@[0]@);
        }
        i = i + 1;
    }
    assert(string_views(parts@).take(n as int) =~= string_views(parts@));
    out
}

/// The index of the first element of `s` that satisfies `p`, or -1.
pub open spec fn find_first<T>(s: Seq<T>, p: spec_fn(T) -> bool) -> int
    decreases s.len(),
{
    if s.len() == 0 {
        -1
    } else if p(s[0]) {
        0
    } else {
        let r = find_first(s.drop_first(), p);
        if r < 0 {
            -1
        } else {
            r + 1
        }
    }
}

/// `find_first` is the first index whose element satisfies `p`, or -1 when
/// no element does.
pub proof fn lemma_find_first<T>(s: Seq<T>, p: spec_fn(T) -> bool, k: int)
    requires
        0 <= k <= s.len(),
        forall|j: int| 0 <= j < k ==> !p(#[trigger] s[j]),
        k < s.len() ==> p(s[k]),
    ensures
        find_first(s, p) == if k < s.len() { k } else { -1 },
    decreases s.len(),
{
    if s.len() > 0 && k > 0 {
        let t = s.drop_first();
        assert forall|j: int| 0 <= j < k - 1 implies !p(#[trigger] t[j]) by {
            assert(t[j] == s[j + 1]);
        }
        if k < s.len() {
            assert(t[k - 1] == s[k]);
        }
        lemma_find_first(t, p, k - 1);
    }
}

/// The number of elements of `s` that satisfy `p`.
pub open spec fn count_where<T>(s: Seq<T>, p: spec_fn(T) -> bool) -> nat
    decreases s.len(),
{
    if s.len() == 0 {
        0
    } else {
        count_where(s.drop_last(), p) + if p(s.last()) {
            1nat
        } else {
            0nat
        }
    }
}

/// A count over a prefix is at most the prefix's length.
pub proof fn lemma_count_where_le<T>(s: Seq<T>, p: spec_fn(T) -> bool)
    ensures
        count_where(s, p) <= s.len(),
    decreases s.len(),
{
    if s.len() > 0 {
        lemma_count_where_le(s.drop_last(), p);
    }
}

/// The pieces one after the other.
pub open spec fn concat(pieces: Seq<Seq<char>>) -> Seq<char>
    decreases pieces.len(),
{
    if pieces.len() == 0 {
        Seq::empty()
    } else {
        concat(pieces.drop_last()) + pieces.last()
    }
}

/// Concatenating one more piece appends it.
pub proof fn lemma_concat_push(pieces: Seq<Seq<char>>, x: Seq<char>)
    ensures
        concat(pieces.push(x)) == concat(pieces) + x,
{
    assert(pieces.push(x).drop_last() =~= pieces);
}

/// A sequence has two different elements exactly when dropping repeats
/// leaves more than one.
pub proof fn lemma_dedup_len_two<A>(s: Seq<A>)
    ensures
        dedup(s).len() > 1 <==> exists|i: int, j: int| 0 <= i < s.len() && 0 <= j < s.len() && s[i] != s[j],
{
    lemma_dedup_unique(s);
    let d = dedup(s);
    if d.len() > 1 {
        assert(d.contains(d[0]) && d.contains(d[1]));
        lemma_dedup_contains(s, d[0]);
        lemma_dedup_contains(s, d[1]);
        let i = choose|i: int| 0 <= i < s.len() && s[i] == d[0];
        let j = choose|j: int| 0 <= j < s.len() && s[j] == d[1];
        assert(s[i] != s[j]);
    }
    if exists|i: int, j: int| 0 <= i < s.len() && 0 <= j < s.len() && s[i] != s[j] {
        let (i, j) = choose|i: int, j: int| 0 <= i < s.len() && 0 <= j < s.len() && s[i] != s[j];
        assert(s.contains(s[i]) && s.contains(s[j]));
        lemma_dedup_contains(s, s[i]);
        lemma_dedup_contains(s, s[j]);
        let a = choose|a: int| 0 <= a < d.len() && d[a] == s[i];
        let b = choose|b: int| 0 <= b < d.len() && d[b] == s[j];
        assert(a != b);
    }
}

} // verus!
