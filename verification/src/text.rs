use vstd::prelude::*;

verus! {

// ---------------------------------------------------------------------------
// Specification of the text operations the checks are written in terms of.
// ---------------------------------------------------------------------------

/// Unicode `White_Space`, the set that `char::is_whitespace` tests.
pub open spec fn is_ws(c: char) -> bool {
    ||| c == ' '
    ||| ('\t' <= c && c <= '\r')
    ||| c == '\u{85}'
    ||| c == '\u{a0}'
    ||| c == '\u{1680}'
    ||| ('\u{2000}' <= c && c <= '\u{200a}')
    ||| c == '\u{2028}'
    ||| c == '\u{2029}'
    ||| c == '\u{202f}'
    ||| c == '\u{205f}'
    ||| c == '\u{3000}'
}

/// `s` without its leading white space.
pub open spec fn trim_start(s: Seq<char>) -> Seq<char>
    decreases s.len(),
{
    if s.len() > 0 && is_ws(s[0]) {
        trim_start(s.drop_first())
    } else {
        s
    }
}

/// `s` without its trailing white space.
pub open spec fn trim_end(s: Seq<char>) -> Seq<char>
    decreases s.len(),
{
    if s.len() > 0 && is_ws(s.last()) {
        trim_end(s.drop_last())
    } else {
        s
    }
}

/// `s` without leading and trailing white space (`str::trim`).
pub open spec fn trim(s: Seq<char>) -> Seq<char> {
    trim_end(trim_start(s))
}

/// The ASCII digit for `d` (`0 <= d < 10`).
pub open spec fn digit_char(d: nat) -> char {
    ((d + 48) as u32) as char
}

/// The decimal representation of `n`, without leading zeros.
pub open spec fn dec(n: nat) -> Seq<char>
    decreases n,
{
    if n < 10 {
        seq![digit_char(n)]
    } else {
        dec(n / 10).push(digit_char(n % 10))
    }
}

/// `needle` occurs in `hay` starting at index `i`.
pub open spec fn occurs_at(hay: Seq<char>, needle: Seq<char>, i: int) -> bool {
    0 <= i && i + needle.len() <= hay.len() && hay.subrange(i, i + needle.len()) == needle
}

/// `needle` occurs somewhere in `hay` (`str::contains`).
pub open spec fn contains(hay: Seq<char>, needle: Seq<char>) -> bool {
    exists|i: int| occurs_at(hay, needle, i)
}

/// The index of the first occurrence of `needle` in `hay`, or -1.
pub open spec fn index_of(hay: Seq<char>, needle: Seq<char>) -> int
    decreases hay.len(),
{
    if occurs_at(hay, needle, 0) {
        0
    } else if hay.len() == 0 {
        -1
    } else {
        let r = index_of(hay.drop_first(), needle);
        if r < 0 {
            -1
        } else {
            r + 1
        }
    }
}

/// The characters of `s` before its first white space.
pub open spec fn take_until_ws(s: Seq<char>) -> Seq<char>
    decreases s.len(),
{
    if s.len() == 0 || is_ws(s[0]) {
        Seq::empty()
    } else {
        seq![s[0]] + take_until_ws(s.drop_first())
    }
}

/// The pieces of `s` between occurrences of `c` (`str::split` with a char).
/// There is always at least one piece.
pub open spec fn split_on(s: Seq<char>, c: char) -> Seq<Seq<char>>
    decreases s.len(),
{
    if s.len() == 0 {
        seq![Seq::<char>::empty()]
    } else if s[0] == c {
        seq![Seq::<char>::empty()] + split_on(s.drop_first(), c)
    } else {
        let rest = split_on(s.drop_first(), c);
        rest.update(0, seq![s[0]] + rest[0])
    }
}

/// `s` without one trailing carriage return.
pub open spec fn strip_cr(s: Seq<char>) -> Seq<char> {
    if s.len() > 0 && s.last() == '\r' {
        s.drop_last()
    } else {
        s
    }
}

/// The lines of `s` (`str::lines`): split at `\n`, a `\r` before the `\n`
/// removed, and no empty last line after a final `\n`.
pub open spec fn lines(s: Seq<char>) -> Seq<Seq<char>> {
    let pieces = split_on(s, '\n');
    let n: int = if s.len() == 0 {
        0
    } else if s.last() == '\n' {
        pieces.len() - 1
    } else {
        pieces.len() as int
    };
    Seq::new(n as nat, |i: int| if i < pieces.len() - 1 { strip_cr(pieces[i]) } else { pieces[i] })
}


/// `c` with ASCII upper case letters mapped to lower case.
pub open spec fn ascii_lower(c: char) -> char {
    if 'A' <= c && c <= 'Z' {
        ((c as u32) + 32) as char
    } else {
        c
    }
}

/// ASCII case-insensitive equality (`str::eq_ignore_ascii_case`).
pub open spec fn eq_ignore_ascii_case(a: Seq<char>, b: Seq<char>) -> bool {
    a.len() == b.len() && forall|i: int| 0 <= i < a.len() ==> ascii_lower(#[trigger] a[i]) == ascii_lower(b[i])
}

/// `s` with ASCII letters lowered (`str::to_ascii_lowercase`).
pub open spec fn lower_ascii(s: Seq<char>) -> Seq<char> {
    s.map_values(|c: char| ascii_lower(c))
}

/// `n` (below 100) as exactly two digits.
pub open spec fn two_digits(n: nat) -> Seq<char> {
    seq![digit_char(n / 10), digit_char(n % 10)]
}

/// `ns` nanoseconds printed as seconds with two decimals, rounding halves
/// up.
///
/// A count of nanoseconds is an exact decimal, so a half is a true tie
/// here and goes up. Printing with `{:.2}` the `f64` that such a count
/// stands for rounds its binary form instead, which may lie just below
/// the tie (2.005 s prints as "2.00") or sit on it and go to the even
/// digit; that form is not kept here, so such ties print one step higher.
pub open spec fn fixed2_ns(ns: nat) -> Seq<char> {
    let c = (ns + 5_000_000) / 10_000_000;
    dec(c / 100) + seq!['.'] + two_digits(c % 100)
}

/// `ns` nanoseconds printed as seconds with one decimal, rounding halves
/// up (a tie goes up here, where `{:.1}` on an `f64` may give the lower
/// digit: 0.25 s prints as "0.2" and 0.35 s as "0.3" there).
pub open spec fn fixed1_ns(ns: nat) -> Seq<char> {
    let t = (ns + 50_000_000) / 100_000_000;
    dec(t / 10) + seq!['.', digit_char(t % 10)]
}

/// The size of `x`.
pub open spec fn magnitude(x: int) -> nat {
    if x < 0 {
        (-x) as nat
    } else {
        x as nat
    }
}

/// A minus sign when `x` is negative (also where the digits round to zero).
pub open spec fn sign_of(x: int) -> Seq<char> {
    if x < 0 {
        seq!['-']
    } else {
        Seq::<char>::empty()
    }
}

/// `ns` nanoseconds printed as seconds with two decimals and their sign.
pub open spec fn signed_fixed2_ns(ns: int) -> Seq<char> {
    sign_of(ns) + fixed2_ns(magnitude(ns))
}

/// `ns` nanoseconds printed as seconds with one decimal and their sign.
pub open spec fn signed_fixed1_ns(ns: int) -> Seq<char> {
    sign_of(ns) + fixed1_ns(magnitude(ns))
}

/// `thousandths / 1000` printed with one decimal, rounding halves up (as
/// with `fixed1_ns`, a tie goes up).
pub open spec fn fixed1(thousandths: nat) -> Seq<char> {
    let t = (thousandths + 50) / 100;
    dec(t / 10) + seq!['.', digit_char(t % 10)]
}

/// `tenths / 10` printed with one decimal.
pub open spec fn signed_tenths(tenths: int) -> Seq<char> {
    let a: nat = if tenths < 0 { (-tenths) as nat } else { tenths as nat };
    (if tenths < 0 { seq!['-'] } else { Seq::<char>::empty() }) + dec(a / 10) + seq![
        '.',
        digit_char(a % 10),
    ]
}

// ---------------------------------------------------------------------------
// Lemmas
// ---------------------------------------------------------------------------

proof fn lemma_occurs_shift(hay: Seq<char>, needle: Seq<char>, j: int)
    requires
        hay.len() > 0,
        0 <= j,
    ensures
        occurs_at(hay.drop_first(), needle, j) == occurs_at(hay, needle, j + 1),
{
    if j + needle.len() <= hay.len() - 1 {
        assert(hay.drop_first().subrange(j, j + needle.len()) =~= hay.subrange(j + 1, j + 1 + needle.len()));
    }
}

/// The first occurrence of `needle` is at `k` (or nowhere, for `k == -1`).
pub proof fn lemma_index_of(hay: Seq<char>, needle: Seq<char>, k: int)
    requires
        k == -1 || occurs_at(hay, needle, k),
        forall|j: int| 0 <= j && (k == -1 || j < k) ==> !occurs_at(hay, needle, j),
    ensures
        index_of(hay, needle) == k,
    decreases hay.len(),
{
    if occurs_at(hay, needle, 0) {
    } else if hay.len() == 0 {
        if k >= 0 {
            assert(k == 0 || k > 0);
        }
    } else {
        let t = hay.drop_first();
        assert forall|j: int| 0 <= j && (k - 1 < 0 || j < k - 1) implies !occurs_at(t, needle, j) by {
            lemma_occurs_shift(hay, needle, j);
        }
        if k >= 1 {
            lemma_occurs_shift(hay, needle, k - 1);
            lemma_index_of(t, needle, k - 1);
        } else {
            if k == 0 {
                assert(false);
            }
            assert forall|j: int| 0 <= j implies !occurs_at(t, needle, j) by {
                lemma_occurs_shift(hay, needle, j);
            }
            lemma_index_of(t, needle, -1);
        }
    }
}

pub proof fn lemma_split_on_len(s: Seq<char>, c: char)
    ensures
        split_on(s, c).len() >= 1,
    decreases s.len(),
{
    if s.len() > 0 {
        lemma_split_on_len(s.drop_first(), c);
    }
}

/// Splitting `s` starting from index `i`, in terms of the character there.
proof fn lemma_split_on_step(s: Seq<char>, c: char, i: int)
    requires
        0 <= i < s.len(),
    ensures
        s[i] == c ==> split_on(s.skip(i), c) == seq![Seq::<char>::empty()] + split_on(s.skip(i + 1), c),
        s[i] != c ==> split_on(s.skip(i), c) == split_on(s.skip(i + 1), c).update(
            0,
            seq![s[i]] + split_on(s.skip(i + 1), c)[0],
        ),
{
    assert(s.skip(i).drop_first() =~= s.skip(i + 1));
    assert(s.skip(i)[0] == s[i]);
}

proof fn lemma_trim_start_skip(s: Seq<char>, a: int)
    requires
        0 <= a <= s.len(),
        forall|j: int| 0 <= j < a ==> is_ws(#[trigger] s[j]),
        a == s.len() || !is_ws(s[a]),
    ensures
        trim_start(s) == s.skip(a),
    decreases a,
{
    if a == 0 {
        assert(s.skip(0) =~= s);
    } else {
        assert(is_ws(s[0]));
        let t = s.drop_first();
        assert forall|j: int| 0 <= j < a - 1 implies is_ws(#[trigger] t[j]) by {
            assert(t[j] == s[j + 1]);
        }
        lemma_trim_start_skip(t, a - 1);
        assert(t.skip(a - 1) =~= s.skip(a));
    }
}

proof fn lemma_trim_end_take(s: Seq<char>, b: int)
    requires
        0 <= b <= s.len(),
        forall|j: int| b <= j < s.len() ==> is_ws(#[trigger] s[j]),
        b == 0 || !is_ws(s[b - 1]),
    ensures
        trim_end(s) == s.take(b),
    decreases s.len() - b,
{
    if b == s.len() {
        assert(s.take(b) =~= s);
    } else {
        assert(is_ws(s.last()));
        let t = s.drop_last();
        lemma_trim_end_take(t, b);
        assert(t.take(b) =~= s.take(b));
    }
}

// ---------------------------------------------------------------------------
// Executable text operations
// ---------------------------------------------------------------------------

/// Appends one character to `s` (`String::push`).
#[verifier::external_body]
pub(crate) fn push_char(s: &mut String, c: char)
    ensures
        final(s)@ == old(s)@.push(c),
{
    s.push(c);
}

/// Appends `t` to `s`.
pub fn push_str(s: &mut String, t: &str)
    ensures
        final(s)@ == old(s)@ + t@,
{
    s.append(t);
}

/// An owned copy of `s`.
pub fn owned(s: &str) -> (out: String)
    ensures
        out@ == s@,
{
    String::from_str(s)
}

/// The characters of `s`, in order.
pub fn chars_of(s: &str) -> (out: Vec<char>)
    ensures
        out@ == s@,
{
    let mut out: Vec<char> = Vec::new();
    for c in it: s.chars()
        invariant
            out@ == it.seq().take(it.index() as int),
            it.seq() == s@,
    {
        out.push(c);
    }
    out
}

/// Appends the characters of `cs` to `s`.
pub fn push_chars(s: &mut String, cs: &[char])
    ensures
        final(s)@ == old(s)@ + cs@,
{
    let n = cs.len();
    let mut i: usize = 0;
    while i < n
        invariant
            n == cs@.len(),
            i <= n,
            s@ == old(s)@ + cs@.take(i as int),
        decreases n - i,
    {
        push_char(s, cs[i]);
        assert(cs@.take(i as int).push(cs@[i as int]) =~= cs@.take(i + 1));
        i = i + 1;
    }
    assert(cs@.take(n as int) =~= cs@);
}

/// A string holding the characters of `cs`.
pub fn string_of(cs: &[char]) -> (out: String)
    ensures
        out@ == cs@,
{
    let mut out = String::new();
    push_chars(&mut out, cs);
    assert(Seq::<char>::empty() + cs@ =~= cs@);
    out
}

/// Whether two character sequences are equal.
pub fn chars_eq(a: &[char], b: &[char]) -> (r: bool)
    ensures
        r == (a@ == b@),
{
    if a.len() != b.len() {
        return false;
    }
    let n = a.len();
    let mut i: usize = 0;
    while i < n
        invariant
            n == a@.len(),
            n == b@.len(),
            i <= n,
            forall|j: int| 0 <= j < i ==> a@[j] == b@[j],
        decreases n - i,
    {
        if a[i] != b[i] {
            return false;
        }
        i = i + 1;
    }
    assert(a@ =~= b@);
    true
}

/// Whether two strings are equal.
pub fn str_eq(a: &str, b: &str) -> (r: bool)
    ensures
        r == (a@ == b@),
{
    let av = chars_of(a);
    let bv = chars_of(b);
    chars_eq(av.as_slice(), bv.as_slice())
}

/// Whether `needle` occurs in `hay` at index `i`.
pub fn occurs_at_exec(hay: &[char], needle: &[char], i: usize) -> (r: bool)
    ensures
        r == occurs_at(hay@, needle@, i as int),
{
    if i > hay.len() || needle.len() > hay.len() - i {
        return false;
    }
    let n = needle.len();
    let end = i + n;
    let mut k: usize = 0;
    while k < n
        invariant
            n == needle@.len(),
            end == i + n,
            end <= hay@.len(),
            k <= n,
            forall|j: int| 0 <= j < k ==> hay@[i + j] == needle@[j],
        decreases n - k,
    {
        if hay[i + k] != needle[k] {
            assert(hay@.subrange(i as int, i + n)[k as int] != needle@[k as int]);
            return false;
        }
        k = k + 1;
    }
    assert(hay@.subrange(i as int, i + n) =~= needle@);
    true
}

/// Whether `needle` occurs in `hay`.
pub fn contains_exec(hay: &[char], needle: &[char]) -> (r: bool)
    ensures
        r == contains(hay@, needle@),
{
    if needle.len() == 0 {
        assert(hay@.subrange(0, 0) =~= needle@);
        assert(occurs_at(hay@, needle@, 0));
        return true;
    }
    if needle.len() > hay.len() {
        assert(!contains(hay@, needle@));
        return false;
    }
    let stop = hay.len() - needle.len() + 1;
    let mut i: usize = 0;
    while i < stop
        invariant
            stop == hay@.len() - needle@.len() + 1,
            i <= stop,
            forall|j: int| 0 <= j < i ==> !occurs_at(hay@, needle@, j),
        decreases stop - i,
    {
        if occurs_at_exec(hay, needle, i) {
            return true;
        }
        i = i + 1;
    }
    false
}

/// Whether `c` is white space (`char::is_whitespace`).
pub fn is_ws_exec(c: char) -> (r: bool)
    ensures
        r == is_ws(c),
{
    c == ' ' || ('\t' <= c && c <= '\r') || c == '\u{85}' || c == '\u{a0}' || c == '\u{1680}'
        || ('\u{2000}' <= c && c <= '\u{200a}') || c == '\u{2028}' || c == '\u{2029}'
        || c == '\u{202f}' || c == '\u{205f}' || c == '\u{3000}'
}

/// `s` without leading and trailing white space.
pub fn trim_chars(s: &[char]) -> (out: Vec<char>)
    ensures
        out@ == trim(s@),
{
    let n = s.len();
    let mut a: usize = 0;
    while a < n && is_ws_exec(s[a])
        invariant
            n == s@.len(),
            a <= n,
            forall|j: int| 0 <= j < a ==> is_ws(#[trigger] s@[j]),
        decreases n - a,
    {
        a = a + 1;
    }
    proof {
        lemma_trim_start_skip(s@, a as int);
    }
    let mut b: usize = n;
    while b > a && is_ws_exec(s[b - 1])
        invariant
            n == s@.len(),
            a <= b <= n,
            forall|j: int| b <= j < n ==> is_ws(#[trigger] s@[j]),
        decreases b,
    {
        b = b - 1;
    }
    let ghost t = s@.skip(a as int);
    proof {
        assert forall|j: int| b - a <= j < t.len() implies is_ws(#[trigger] t[j]) by {
            assert(t[j] == s@[a + j]);
        }
        if b > a {
            assert(t[b - a - 1] == s@[b - 1]);
        }
        lemma_trim_end_take(t, b - a);
    }
    let mut out: Vec<char> = Vec::new();
    let mut i: usize = a;
    while i < b
        invariant
            n == s@.len(),
            a <= i <= b <= n,
            out@ == s@.subrange(a as int, i as int),
        decreases b - i,
    {
        out.push(s[i]);
        assert(s@.subrange(a as int, i as int).push(s@[i as int]) =~= s@.subrange(
            a as int,
            i + 1,
        ));
        i = i + 1;
    }
    assert(t.take(b - a) =~= s@.subrange(a as int, b as int));
    out
}

/// Appends the decimal representation of `n` to `s`.
pub fn push_decimal(s: &mut String, n: u64)
    ensures
        final(s)@ == old(s)@ + dec(n as nat),
    decreases n,
{
    if n >= 10 {
        push_decimal(s, n / 10);
    }
    let d = (n % 10) as u8;
    let c = (d + 48) as char;
    assert(c == digit_char((n % 10) as nat));
    push_char(s, c);
    if n >= 10 {
        assert(dec(n as nat) == dec((n / 10) as nat).push(digit_char((n % 10) as nat)));
    }
}

/// The decimal representation of `n`.
pub fn decimal(n: u64) -> (out: String)
    ensures
        out@ == dec(n as nat),
{
    let mut out = String::new();
    push_decimal(&mut out, n);
    assert(Seq::<char>::empty() + dec(n as nat) =~= dec(n as nat));
    out
}

/// The pieces of `s` between occurrences of `c`.
pub fn split_chars(s: &[char], c: char) -> (out: Vec<Vec<char>>)
    ensures
        out@.len() == split_on(s@, c).len(),
        forall|k: int| 0 <= k < out@.len() ==> #[trigger] out@[k]@ == split_on(s@, c)[k],
{
    let n = s.len();
    let mut done: Vec<Vec<char>> = Vec::new();
    let mut cur: Vec<char> = Vec::new();
    let mut i: usize = 0;
    proof {
        lemma_split_on_len(s@, c);
        assert(s@.skip(0) =~= s@);
        let r = split_on(s@, c);
        assert(r.update(0, Seq::<char>::empty() + r[0]) =~= r);
    }
    while i < n
        invariant
            n == s@.len(),
            i <= n,
            split_on(s@, c) == done@.map_values(|v: Vec<char>| v@) + ({
                let r = split_on(s@.skip(i as int), c);
                r.update(0, cur@ + r[0])
            }),
        decreases n - i,
    {
        let ghost r = split_on(s@.skip(i as int), c);
        let ghost r1 = split_on(s@.skip(i + 1), c);
        let ghost old_done = done@.map_values(|v: Vec<char>| v@);
        let ghost old_cur = cur@;
        proof {
            lemma_split_on_step(s@, c, i as int);
            lemma_split_on_len(s@.skip(i + 1), c);
        }
        if s[i] == c {
            let piece = cur;
            done.push(piece);
            cur = Vec::new();
            proof {
                assert(done@.map_values(|v: Vec<char>| v@) =~= old_done.push(old_cur));
                assert(r.update(0, old_cur + r[0]) =~= seq![old_cur] + r1);
                assert(r1.update(0, cur@ + r1[0]) =~= r1);
                assert(old_done + (seq![old_cur] + r1) =~= old_done.push(old_cur) + r1);
            }
        } else {
            cur.push(s[i]);
            proof {
                assert(done@.map_values(|v: Vec<char>| v@) =~= old_done);
                assert(cur@ == old_cur.push(s@[i as int]));
                assert(old_cur + (seq![s@[i as int]] + r1[0]) =~= cur@ + r1[0]);
                assert(r.update(0, old_cur + r[0]) =~= r1.update(0, cur@ + r1[0]));
            }
        }
        i = i + 1;
    }
    let ghost before = done@.map_values(|v: Vec<char>| v@);
    proof {
        assert(s@.skip(n as int) =~= Seq::<char>::empty());
        let r = split_on(s@.skip(n as int), c);
        assert(r =~= seq![Seq::<char>::empty()]);
        assert(r.update(0, cur@ + r[0]) =~= seq![cur@]);
    }
    done.push(cur);
    proof {
        assert(done@.map_values(|v: Vec<char>| v@) =~= before.push(done@[done@.len() - 1]@));
        assert(before + seq![done@[done@.len() - 1]@] =~= before.push(done@[done@.len() - 1]@));
        assert forall|k: int| 0 <= k < done@.len() implies #[trigger] done@[k]@ == split_on(
            s@,
            c,
        )[k] by {
            assert(done@.map_values(|v: Vec<char>| v@)[k] == done@[k]@);
        }
    }
    done
}

/// `s` without one trailing carriage return.
pub fn strip_cr_chars(s: Vec<char>) -> (out: Vec<char>)
    ensures
        out@ == strip_cr(s@),
{
    let mut s = s;
    if s.len() > 0 && s[s.len() - 1] == '\r' {
        s.pop();
    }
    s
}

/// The lines of `s`.
pub fn lines_of(s: &[char]) -> (out: Vec<Vec<char>>)
    ensures
        out@.len() == lines(s@).len(),
        forall|k: int| 0 <= k < out@.len() ==> #[trigger] out@[k]@ == lines(s@)[k],
{
    let pieces = split_chars(s, '\n');
    proof {
        lemma_split_on_len(s@, '\n');
    }
    let count: usize = if s.len() == 0 {
        0
    } else if s[s.len() - 1] == '\n' {
        pieces.len() - 1
    } else {
        pieces.len()
    };
    proof {
        lemma_split_on_len(s@, '\n');
    }
    let mut out: Vec<Vec<char>> = Vec::new();
    let mut k: usize = 0;
    while k < count
        invariant
            count == lines(s@).len(),
            count <= pieces@.len(),
            pieces@.len() == split_on(s@, '\n').len(),
            forall|j: int| 0 <= j < pieces@.len() ==> #[trigger] pieces@[j]@ == split_on(
                s@,
                '\n',
            )[j],
            k <= count,
            out@.len() == k,
            forall|j: int| 0 <= j < k ==> #[trigger] out@[j]@ == lines(s@)[j],
        decreases count - k,
    {
        let piece = pieces[k].clone();
        assert(piece@ == pieces@[k as int]@);
        if k + 1 < pieces.len() {
            let p = strip_cr_chars(piece);
            out.push(p);
        } else {
            out.push(piece);
        }
        k = k + 1;
    }
    out
}

/// `c` with ASCII upper case letters mapped to lower case.
pub fn ascii_lower_exec(c: char) -> (r: char)
    ensures
        r == ascii_lower(c),
{
    if 'A' <= c && c <= 'Z' {
        let v = (c as u32) + 32;
        let b = v as u8;
        (b as char)
    } else {
        c
    }
}

/// ASCII case-insensitive equality of two character sequences.
pub fn eq_ignore_ascii_case_exec(a: &[char], b: &[char]) -> (r: bool)
    ensures
        r == eq_ignore_ascii_case(a@, b@),
{
    if a.len() != b.len() {
        return false;
    }
    let n = a.len();
    let mut i: usize = 0;
    while i < n
        invariant
            n == a@.len(),
            n == b@.len(),
            i <= n,
            forall|j: int| 0 <= j < i ==> ascii_lower(#[trigger] a@[j]) == ascii_lower(b@[j]),
        decreases n - i,
    {
        if ascii_lower_exec(a[i]) != ascii_lower_exec(b[i]) {
            return false;
        }
        i = i + 1;
    }
    true
}

/// `s` with ASCII letters lowered.
pub fn lower_ascii_exec(s: &[char]) -> (out: Vec<char>)
    ensures
        out@ == lower_ascii(s@),
{
    let n = s.len();
    let mut out: Vec<char> = Vec::new();
    let mut i: usize = 0;
    while i < n
        invariant
            n == s@.len(),
            i <= n,
            out@ == lower_ascii(s@.take(i as int)),
        decreases n - i,
    {
        out.push(ascii_lower_exec(s[i]));
        assert(lower_ascii(s@.take(i + 1)) =~= lower_ascii(s@.take(i as int)).push(ascii_lower(s@[i as int])));
        i = i + 1;
    }
    assert(s@.take(n as int) =~= s@);
    out
}

/// Appends `n` (below 100) as two digits.
pub fn push_two_digits(s: &mut String, n: u64)
    requires
        n < 100,
    ensures
        final(s)@ == old(s)@ + two_digits(n as nat),
{
    let hi = (n / 10) as u8;
    let lo = (n % 10) as u8;
    push_char(s, (hi + 48) as char);
    push_char(s, (lo + 48) as char);
    assert(old(s)@.push(digit_char((n / 10) as nat)).push(digit_char((n % 10) as nat)) =~= old(s)@
        + two_digits(n as nat));
}

/// Appends `ns` nanoseconds as seconds with two decimals.
pub fn push_fixed2_ns(s: &mut String, ns: u64)
    ensures
        final(s)@ == old(s)@ + fixed2_ns(ns as nat),
{
    let c = (((ns as u128) + 5_000_000) / 10_000_000) as u64;
    let ghost s0 = s@;
    push_decimal(s, c / 100);
    push_char(s, '.');
    push_two_digits(s, c % 100);
    assert(s@ =~= s0 + fixed2_ns(ns as nat));
}

/// Appends `ns` nanoseconds as seconds with one decimal.
pub fn push_fixed1_ns(s: &mut String, ns: u64)
    ensures
        final(s)@ == old(s)@ + fixed1_ns(ns as nat),
{
    let t = (((ns as u128) + 50_000_000) / 100_000_000) as u64;
    let ghost s0 = s@;
    push_decimal(s, t / 10);
    push_char(s, '.');
    let d = (t % 10) as u8;
    push_char(s, (d + 48) as char);
    assert(s@ =~= s0 + fixed1_ns(ns as nat));
}

/// The size of `x`, with a minus sign appended first when it is negative.
fn push_sign(s: &mut String, x: i64) -> (m: u64)
    ensures
        final(s)@ == old(s)@ + sign_of(x as int),
        m as nat == magnitude(x as int),
{
    if x < 0 {
        push_char(s, '-');
        (-(x as i128)) as u64
    } else {
        x as u64
    }
}

/// Appends `ns` nanoseconds as seconds with two decimals and their sign.
pub fn push_signed_fixed2_ns(s: &mut String, ns: i64)
    ensures
        final(s)@ == old(s)@ + signed_fixed2_ns(ns as int),
{
    let ghost s0 = s@;
    let m = push_sign(s, ns);
    push_fixed2_ns(s, m);
    assert(s@ =~= s0 + signed_fixed2_ns(ns as int));
}

/// Appends `ns` nanoseconds as seconds with one decimal and their sign.
pub fn push_signed_fixed1_ns(s: &mut String, ns: i64)
    ensures
        final(s)@ == old(s)@ + signed_fixed1_ns(ns as int),
{
    let ghost s0 = s@;
    let m = push_sign(s, ns);
    push_fixed1_ns(s, m);
    assert(s@ =~= s0 + signed_fixed1_ns(ns as int));
}

/// Appends `thousandths / 1000` with one decimal.
pub fn push_fixed1(s: &mut String, thousandths: u64)
    ensures
        final(s)@ == old(s)@ + fixed1(thousandths as nat),
{
    let t = (((thousandths as u128) + 50) / 100) as u64;
    let ghost s0 = s@;
    push_decimal(s, t / 10);
    push_char(s, '.');
    let d = (t % 10) as u8;
    push_char(s, (d + 48) as char);
    assert(s@ =~= s0 + fixed1(thousandths as nat));
}

/// Appends `tenths / 10` with one decimal.
pub fn push_signed_tenths(s: &mut String, tenths: i64)
    ensures
        final(s)@ == old(s)@ + signed_tenths(tenths as int),
{
    let ghost s0 = s@;
    let a: u64 = if tenths < 0 {
        push_char(s, '-');
        (-(tenths as i128)) as u64
    } else {
        tenths as u64
    };
    let ghost s1 = s@;
    push_decimal(s, a / 10);
    push_char(s, '.');
    let d = (a % 10) as u8;
    push_char(s, (d + 48) as char);
    assert(s@ =~= s0 + signed_tenths(tenths as int));
}

/// The index of the first occurrence of `needle` in `hay`.
pub fn index_of_exec(hay: &[char], needle: &[char]) -> (r: Option<usize>)
    ensures
        match r {
            Some(i) => i as int == index_of(hay@, needle@) && i + needle@.len() <= hay.len(),
            None => index_of(hay@, needle@) == -1,
        },
{
    if needle.len() == 0 {
        assert(hay@.subrange(0, 0) =~= needle@);
        proof {
            lemma_index_of(hay@, needle@, 0);
        }
        return Some(0);
    }
    if needle.len() > hay.len() {
        proof {
            lemma_index_of(hay@, needle@, -1);
        }
        return None;
    }
    let stop = hay.len() - needle.len() + 1;
    let mut i: usize = 0;
    while i < stop
        invariant
            stop == hay@.len() - needle@.len() + 1,
            i <= stop,
            forall|j: int| 0 <= j < i ==> !occurs_at(hay@, needle@, j),
        decreases stop - i,
    {
        if occurs_at_exec(hay, needle, i) {
            proof {
                lemma_index_of(hay@, needle@, i as int);
            }
            return Some(i);
        }
        i = i + 1;
    }
    proof {
        lemma_index_of(hay@, needle@, -1);
    }
    None
}

/// The characters of `s` before its first white space.
pub fn take_until_ws_exec(s: &[char]) -> (out: Vec<char>)
    ensures
        out@ == take_until_ws(s@),
{
    let n = s.len();
    let mut i: usize = 0;
    while i < n && !is_ws_exec(s[i])
        invariant
            n == s@.len(),
            i <= n,
            forall|j: int| 0 <= j < i ==> !is_ws(#[trigger] s@[j]),
        decreases n - i,
    {
        i = i + 1;
    }
    proof {
        lemma_take_until_ws(s@, i as int);
    }
    let mut out: Vec<char> = Vec::new();
    let mut k: usize = 0;
    while k < i
        invariant
            i <= n,
            n == s@.len(),
            k <= i,
            out@ == s@.take(k as int),
        decreases i - k,
    {
        out.push(s[k]);
        assert(s@.take(k as int).push(s@[k as int]) =~= s@.take(k + 1));
        k = k + 1;
    }
    out
}

proof fn lemma_take_until_ws(s: Seq<char>, i: int)
    requires
        0 <= i <= s.len(),
        forall|j: int| 0 <= j < i ==> !is_ws(#[trigger] s[j]),
        i == s.len() || is_ws(s[i]),
    ensures
        take_until_ws(s) == s.take(i),
    decreases i,
{
    if i == 0 {
        assert(s.take(0) =~= Seq::<char>::empty());
    } else {
        let t = s.drop_first();
        assert(!is_ws(s[0]));
        assert forall|j: int| 0 <= j < i - 1 implies !is_ws(#[trigger] t[j]) by {
            assert(t[j] == s[j + 1]);
        }
        if i < s.len() {
            assert(t[i - 1] == s[i]);
        }
        lemma_take_until_ws(t, i - 1);
        assert(seq![s[0]] + t.take(i - 1) =~= s.take(i));
    }
}

/// `s` with every leading repetition of `p` removed (`str::trim_start_matches`).
pub open spec fn trim_start_matches(s: Seq<char>, p: Seq<char>) -> Seq<char>
    decreases s.len(),
{
    if p.len() > 0 && p.len() <= s.len() && s.take(p.len() as int) == p {
        trim_start_matches(s.skip(p.len() as int), p)
    } else {
        s
    }
}

/// `s` with every trailing repetition of `p` removed (`str::trim_end_matches`).
pub open spec fn trim_end_matches(s: Seq<char>, p: Seq<char>) -> Seq<char>
    decreases s.len(),
{
    if p.len() > 0 && p.len() <= s.len() && s.skip(s.len() - p.len()) == p {
        trim_end_matches(s.take(s.len() - p.len()), p)
    } else {
        s
    }
}

/// `s` starts with `p`.
pub open spec fn starts_with(s: Seq<char>, p: Seq<char>) -> bool {
    p.len() <= s.len() && s.take(p.len() as int) == p
}

/// `s` ends with `p`.
pub open spec fn ends_with(s: Seq<char>, p: Seq<char>) -> bool {
    p.len() <= s.len() && s.skip(s.len() - p.len()) == p
}

/// Whether `s` starts with `p`.
pub fn starts_with_exec(s: &[char], p: &[char]) -> (r: bool)
    ensures
        r == starts_with(s@, p@),
{
    if p.len() > s.len() {
        return false;
    }
    let r = occurs_at_exec(s, p, 0);
    assert(s@.subrange(0, p@.len() as int) =~= s@.take(p@.len() as int));
    r
}

/// Whether `s` ends with `p`.
pub fn ends_with_exec(s: &[char], p: &[char]) -> (r: bool)
    ensures
        r == ends_with(s@, p@),
{
    if p.len() > s.len() {
        return false;
    }
    let r = occurs_at_exec(s, p, s.len() - p.len());
    assert(s@.subrange(s@.len() - p@.len(), s@.len() as int) =~= s@.skip(s@.len() - p@.len()));
    r
}

/// `s` with every leading repetition of `p` removed.
pub fn trim_start_matches_exec(s: &[char], p: &[char]) -> (out: Vec<char>)
    ensures
        out@ == trim_start_matches(s@, p@),
{
    let n = s.len();
    let m = p.len();
    let mut i: usize = 0;
    assert(s@.skip(0) =~= s@);
    if m == 0 {
        return chars_from_index(s, 0);
    }
    while m <= n - i && occurs_at_exec(s, p, i)
        invariant
            n == s@.len(),
            m == p@.len(),
            m > 0,
            i <= n,
            trim_start_matches(s@, p@) == trim_start_matches(s@.skip(i as int), p@),
        decreases n - i,
    {
        assert(s@.subrange(i as int, i + m) =~= s@.skip(i as int).take(m as int));
        assert(s@.skip(i as int).skip(m as int) =~= s@.skip(i + m));
        i = i + m;
    }
    proof {
        if m <= n - i {
            assert(s@.subrange(i as int, i + m) =~= s@.skip(i as int).take(m as int));
        }
    }
    chars_from_index(s, i)
}

/// The characters of `s` from index `i` on.
pub fn chars_from_index(s: &[char], i: usize) -> (out: Vec<char>)
    requires
        i <= s@.len(),
    ensures
        out@ == s@.skip(i as int),
{
    let mut out: Vec<char> = Vec::new();
    let n = s.len();
    let mut j: usize = i;
    while j < n
        invariant
            n == s@.len(),
            i <= j <= n,
            out@ == s@.subrange(i as int, j as int),
        decreases n - j,
    {
        out.push(s[j]);
        assert(s@.subrange(i as int, j + 1) =~= s@.subrange(i as int, j as int).push(s@[j as int]));
        j = j + 1;
    }
    assert(s@.subrange(i as int, n as int) =~= s@.skip(i as int));
    out
}

/// The first `k` characters of `s`.
pub fn chars_prefix(s: &[char], k: usize) -> (out: Vec<char>)
    requires
        k <= s@.len(),
    ensures
        out@ == s@.take(k as int),
{
    let mut out: Vec<char> = Vec::new();
    let mut j: usize = 0;
    while j < k
        invariant
            k <= s@.len(),
            j <= k,
            out@ == s@.take(j as int),
        decreases k - j,
    {
        out.push(s[j]);
        assert(s@.take(j + 1) =~= s@.take(j as int).push(s@[j as int]));
        j = j + 1;
    }
    out
}

/// `s` with every trailing repetition of `p` removed.
pub fn trim_end_matches_exec(s: &[char], p: &[char]) -> (out: Vec<char>)
    ensures
        out@ == trim_end_matches(s@, p@),
{
    let n = s.len();
    let m = p.len();
    let mut k: usize = n;
    assert(s@.take(n as int) =~= s@);
    if m == 0 {
        return chars_prefix(s, n);
    }
    while m <= k && occurs_at_exec(s, p, k - m)
        invariant
            n == s@.len(),
            m == p@.len(),
            m > 0,
            k <= n,
            trim_end_matches(s@, p@) == trim_end_matches(s@.take(k as int), p@),
        decreases k,
    {
        let ghost t = s@.take(k as int);
        assert(s@.subrange(k - m, k as int) =~= t.skip(t.len() - m));
        assert(t.take(t.len() - m) =~= s@.take(k - m));
        k = k - m;
    }
    proof {
        let t = s@.take(k as int);
        if m <= k {
            assert(s@.subrange(k - m, k as int) =~= t.skip(t.len() - m));
        }
    }
    chars_prefix(s, k)
}

/// The decimal representation of a signed integer (`{}` of an integer).
pub open spec fn signed_dec(n: int) -> Seq<char> {
    if n < 0 {
        seq!['-'] + dec((-n) as nat)
    } else {
        dec(n as nat)
    }
}

/// Appends the decimal representation of `n`.
pub fn push_signed_decimal(s: &mut String, n: i64)
    ensures
        final(s)@ == old(s)@ + signed_dec(n as int),
{
    if n < 0 {
        let ghost o = s@;
        push_char(s, '-');
        let m: u64 = (0i128 - (n as i128)) as u64;
        push_decimal(s, m);
        assert(s@ =~= o + signed_dec(n as int));
    } else {
        push_decimal(s, n as u64);
    }
}

} // verus!
