use vstd::prelude::*;

use crate::seqs::string_views;
use crate::text::{chars_eq, chars_of, owned, string_of};

verus! {

// Paths are held as text with `/` as the separator. The functions below
// follow `std::path::Path` for paths whose last component names a file
// (no trailing separator).

/// The index of the last `c` in `s`, or -1 when there is none.
pub open spec fn last_index_of(s: Seq<char>, c: char) -> int
    decreases s.len(),
{
    if s.len() == 0 {
        -1
    } else if s.last() == c {
        s.len() - 1
    } else {
        last_index_of(s.drop_last(), c)
    }
}

/// The last component of `p` (`Path::file_name`).
pub open spec fn file_name(p: Seq<char>) -> Option<Seq<char>> {
    let name = p.skip(last_index_of(p, '/') + 1);
    if name.len() == 0 || name == seq!['.'] || name == seq!['.', '.'] {
        None
    } else {
        Some(name)
    }
}

/// The extension of `p` (`Path::extension`): the text after the last dot
/// of the file name, unless the only dot opens the name.
pub open spec fn extension(p: Seq<char>) -> Option<Seq<char>> {
    match file_name(p) {
        None => None,
        Some(name) => {
            let d = last_index_of(name, '.');
            if d <= 0 {
                None
            } else {
                Some(name.skip(d + 1))
            }
        },
    }
}

/// The file name of `p` without its extension (`Path::file_stem`).
pub open spec fn file_stem(p: Seq<char>) -> Option<Seq<char>> {
    match file_name(p) {
        None => None,
        Some(name) => {
            let d = last_index_of(name, '.');
            if d <= 0 {
                Some(name)
            } else {
                Some(name.take(d))
            }
        },
    }
}

/// The text of `p` up to and including its last separator: joining a name
/// to it gives a sibling of the file that `p` names.
pub open spec fn dir_prefix(p: Seq<char>) -> Seq<char> {
    p.take(last_index_of(p, '/') + 1)
}

/// `ext` is one of the media container extensions.
pub open spec fn is_media_extension(ext: Seq<char>) -> bool {
    ext == seq!['m', 'p', '4'] || ext == seq!['m', 'o', 'v'] || ext == seq!['m', 'k', 'v']
}

/// `p` names a media file by its extension.
pub open spec fn is_media_path(p: Seq<char>) -> bool {
    match extension(p) {
        Some(ext) => is_media_extension(ext),
        None => false,
    }
}

pub proof fn lemma_last_index_of(s: Seq<char>, c: char)
    ensures
        -1 <= last_index_of(s, c) < s.len(),
        last_index_of(s, c) >= 0 ==> s[last_index_of(s, c)] == c,
        forall|j: int| last_index_of(s, c) < j < s.len() ==> s[j] != c,
    decreases s.len(),
{
    if s.len() > 0 && s.last() != c {
        let t = s.drop_last();
        lemma_last_index_of(t, c);
        assert forall|j: int| last_index_of(s, c) < j < s.len() implies s[j] != c by {
            if j < t.len() {
                assert(t[j] == s[j]);
            }
        }
    }
}

proof fn lemma_last_index_of_unique(s: Seq<char>, c: char, k: int)
    requires
        -1 <= k < s.len(),
        k >= 0 ==> s[k] == c,
        forall|j: int| k < j < s.len() ==> s[j] != c,
    ensures
        last_index_of(s, c) == k,
    decreases s.len(),
{
    if s.len() > 0 && s.last() != c {
        let t = s.drop_last();
        assert forall|j: int| k < j < t.len() implies t[j] != c by {
            assert(t[j] == s[j]);
        }
        if k >= 0 {
            assert(t[k] == s[k]);
        }
        lemma_last_index_of_unique(t, c, k);
    }
}

/// The index of the last `c` in `s`.
pub fn last_index_of_exec(s: &[char], c: char) -> (r: Option<usize>)
    ensures
        match r {
            Some(i) => i as int == last_index_of(s@, c) && i < s.len(),
            None => last_index_of(s@, c) == -1,
        },
{
    let mut i: usize = s.len();
    while i > 0
        invariant
            i <= s@.len(),
            forall|j: int| i <= j < s@.len() ==> s@[j] != c,
        decreases i,
    {
        if s[i - 1] == c {
            proof {
                lemma_last_index_of_unique(s@, c, i - 1);
            }
            return Some(i - 1);
        }
        i = i - 1;
    }
    proof {
        lemma_last_index_of_unique(s@, c, -1);
    }
    None
}

/// The characters of `s` from index `from` on.
pub fn chars_from(s: &[char], from: usize) -> (out: Vec<char>)
    requires
        from <= s@.len(),
    ensures
        out@ == s@.skip(from as int),
{
    let n = s.len();
    let mut out: Vec<char> = Vec::new();
    let mut i: usize = from;
    while i < n
        invariant
            n == s@.len(),
            from <= i <= n,
            out@ == s@.subrange(from as int, i as int),
        decreases n - i,
    {
        out.push(s[i]);
        assert(s@.subrange(from as int, i as int).push(s@[i as int]) =~= s@.subrange(
            from as int,
            i + 1,
        ));
        i = i + 1;
    }
    assert(s@.subrange(from as int, n as int) =~= s@.skip(from as int));
    out
}

/// The first `to` characters of `s`.
pub fn chars_until(s: &[char], to: usize) -> (out: Vec<char>)
    requires
        to <= s@.len(),
    ensures
        out@ == s@.take(to as int),
{
    let mut out: Vec<char> = Vec::new();
    let mut i: usize = 0;
    while i < to
        invariant
            to <= s@.len(),
            i <= to,
            out@ == s@.take(i as int),
        decreases to - i,
    {
        out.push(s[i]);
        assert(s@.take(i as int).push(s@[i as int]) =~= s@.take(i + 1));
        i = i + 1;
    }
    out
}

/// The last component of `p`.
pub fn file_name_chars(p: &[char]) -> (r: Option<Vec<char>>)
    ensures
        match r {
            Some(v) => file_name(p@) == Some(v@),
            None => file_name(p@) is None,
        },
{
    proof {
        lemma_last_index_of(p@, '/');
    }
    let start: usize = match last_index_of_exec(p, '/') {
        Some(i) => i + 1,
        None => 0,
    };
    let name = chars_from(p, start);
    let dot = ['.'];
    let dotdot = ['.', '.'];
    assert(dot@ =~= seq!['.']);
    assert(dotdot@ =~= seq!['.', '.']);
    if name.len() == 0 || chars_eq(name.as_slice(), dot.as_slice()) || chars_eq(
        name.as_slice(),
        dotdot.as_slice(),
    ) {
        None
    } else {
        Some(name)
    }
}

/// The extension of `p`.
pub fn extension_chars(p: &[char]) -> (r: Option<Vec<char>>)
    ensures
        match r {
            Some(v) => extension(p@) == Some(v@),
            None => extension(p@) is None,
        },
{
    match file_name_chars(p) {
        None => None,
        Some(name) => {
            proof {
                lemma_last_index_of(name@, '.');
            }
            match last_index_of_exec(name.as_slice(), '.') {
                Some(d) => {
                    if d == 0 {
                        None
                    } else {
                        Some(chars_from(name.as_slice(), d + 1))
                    }
                },
                None => None,
            }
        },
    }
}

/// The file name of `p` without its extension.
pub fn file_stem_chars(p: &[char]) -> (r: Option<Vec<char>>)
    ensures
        match r {
            Some(v) => file_stem(p@) == Some(v@),
            None => file_stem(p@) is None,
        },
{
    match file_name_chars(p) {
        None => None,
        Some(name) => {
            proof {
                lemma_last_index_of(name@, '.');
            }
            match last_index_of_exec(name.as_slice(), '.') {
                Some(d) => {
                    if d == 0 {
                        Some(name)
                    } else {
                        Some(chars_until(name.as_slice(), d))
                    }
                },
                None => Some(name),
            }
        },
    }
}

/// The text of `p` up to and including its last separator.
pub fn dir_prefix_chars(p: &[char]) -> (r: Vec<char>)
    ensures
        r@ == dir_prefix(p@),
{
    proof {
        lemma_last_index_of(p@, '/');
    }
    match last_index_of_exec(p, '/') {
        Some(i) => chars_until(p, i + 1),
        None => chars_until(p, 0),
    }
}

/// The file name of `path`, or `fallback` when it has none.
pub fn file_name_or(path: &str, fallback: &str) -> (r: String)
    ensures
        r@ == match file_name(path@) {
            Some(n) => n,
            None => fallback@,
        },
{
    let p = chars_of(path);
    match file_name_chars(p.as_slice()) {
        Some(n) => string_of(n.as_slice()),
        None => owned(fallback),
    }
}

/// Whether `ext` is one of the media container extensions.
pub fn is_media_extension_exec(ext: &[char]) -> (r: bool)
    ensures
        r == is_media_extension(ext@),
{
    let mp4 = ['m', 'p', '4'];
    let mov = ['m', 'o', 'v'];
    let mkv = ['m', 'k', 'v'];
    assert(mp4@ =~= seq!['m', 'p', '4']);
    assert(mov@ =~= seq!['m', 'o', 'v']);
    assert(mkv@ =~= seq!['m', 'k', 'v']);
    chars_eq(ext, mp4.as_slice()) || chars_eq(ext, mov.as_slice()) || chars_eq(ext, mkv.as_slice())
}

/// Whether `path` names a media file (`.mp4`, `.mov` or `.mkv`, case
/// sensitive).
pub fn is_media_candidate(path: &str) -> (r: bool)
    ensures
        r == is_media_path(path@),
{
    let p = chars_of(path);
    match extension_chars(p.as_slice()) {
        Some(ext) => is_media_extension_exec(ext.as_slice()),
        None => false,
    }
}

/// `x` comes before `y` in path order: the separator comes before every
/// other character, so paths order component by component.
pub open spec fn char_before(x: char, y: char) -> bool {
    (x == '/' && y != '/') || (x != '/' && y != '/' && x < y)
}

/// `a` comes before `b` in path order (`PathBuf`'s order for paths
/// without `.` or `..` components or repeated separators).
pub open spec fn path_lt(a: Seq<char>, b: Seq<char>) -> bool
    decreases a.len(),
{
    if a.len() == 0 {
        b.len() > 0
    } else if b.len() == 0 {
        false
    } else if a[0] != b[0] {
        char_before(a[0], b[0])
    } else {
        path_lt(a.drop_first(), b.drop_first())
    }
}

/// `s` is in path order.
pub open spec fn sorted_paths(s: Seq<Seq<char>>) -> bool {
    forall|i: int, j: int| 0 <= i < j < s.len() ==> !path_lt(#[trigger] s[j], #[trigger] s[i])
}

/// Path order is irreflexive.
pub proof fn lemma_path_lt_irrefl(a: Seq<char>)
    ensures
        !path_lt(a, a),
    decreases a.len(),
{
    if a.len() > 0 {
        lemma_path_lt_irrefl(a.drop_first());
    }
}

/// Path order is asymmetric.
pub proof fn lemma_path_lt_asym(a: Seq<char>, b: Seq<char>)
    requires
        path_lt(a, b),
    ensures
        !path_lt(b, a),
    decreases a.len(),
{
    if a.len() > 0 && b.len() > 0 && a[0] == b[0] {
        lemma_path_lt_asym(a.drop_first(), b.drop_first());
    }
}

/// Path order is transitive.
pub proof fn lemma_path_lt_trans(a: Seq<char>, b: Seq<char>, c: Seq<char>)
    requires
        path_lt(a, b),
        path_lt(b, c),
    ensures
        path_lt(a, c),
    decreases a.len(),
{
    if a.len() > 0 && b.len() > 0 && c.len() > 0 {
        if a[0] == b[0] && b[0] == c[0] {
            lemma_path_lt_trans(a.drop_first(), b.drop_first(), c.drop_first());
        }
    }
}

/// Path order is total on distinct paths.
pub proof fn lemma_path_lt_total(a: Seq<char>, b: Seq<char>)
    requires
        a != b,
    ensures
        path_lt(a, b) || path_lt(b, a),
    decreases a.len(),
{
    if a.len() > 0 && b.len() > 0 && a[0] == b[0] {
        if a.drop_first() == b.drop_first() {
            assert(a =~= seq![a[0]] + a.drop_first());
            assert(b =~= seq![b[0]] + b.drop_first());
        }
        lemma_path_lt_total(a.drop_first(), b.drop_first());
    } else if a.len() == 0 && b.len() == 0 {
        assert(a =~= b);
    } else if a.len() > 0 && b.len() > 0 {
        assert(a[0] != b[0]);
    }
}

/// Whether `a` comes before `b` in path order.
pub fn path_lt_exec(a: &[char], b: &[char]) -> (r: bool)
    ensures
        r == path_lt(a@, b@),
{
    let mut i: usize = 0;
    assert(a@.skip(0) =~= a@ && b@.skip(0) =~= b@);
    loop
        invariant
            i <= a@.len(),
            i <= b@.len(),
            path_lt(a@, b@) == path_lt(a@.skip(i as int), b@.skip(i as int)),
        decreases a@.len() - i,
    {
        if i == a.len() {
            return i < b.len();
        }
        if i == b.len() {
            return false;
        }
        let x = a[i];
        let y = b[i];
        assert(a@.skip(i as int)[0] == x && b@.skip(i as int)[0] == y);
        if x != y {
            if x == '/' {
                return true;
            }
            if y == '/' {
                return false;
            }
            return x < y;
        }
        assert(a@.skip(i as int).drop_first() =~= a@.skip(i + 1));
        assert(b@.skip(i as int).drop_first() =~= b@.skip(i + 1));
        i = i + 1;
    }
}

/// The paths of `v` in path order.
pub fn sort_paths(v: Vec<String>) -> (out: Vec<String>)
    ensures
        sorted_paths(string_views(out@)),
        string_views(out@).to_multiset() == string_views(v@).to_multiset(),
{
    broadcast use vstd::seq_lib::group_to_multiset_ensures;

    let n = v.len();
    let mut out: Vec<String> = Vec::new();
    let mut keys: Vec<Vec<char>> = Vec::new();
    let mut i: usize = 0;
    while i < n
        invariant
            n == v@.len(),
            i <= n,
            keys@.len() == out@.len(),
            forall|k: int| 0 <= k < out@.len() ==> #[trigger] keys@[k]@ == out@[k]@,
            sorted_paths(string_views(out@)),
            string_views(out@).to_multiset() == string_views(v@.take(i as int)).to_multiset(),
        decreases n - i,
    {
        let x = v[i].clone();
        let xk = chars_of(x.as_str());
        let m = out.len();
        let mut j: usize = 0;
        while j < m && !path_lt_exec(xk.as_slice(), keys[j].as_slice())
            invariant
                m == out@.len(),
                keys@.len() == m,
                forall|k: int| 0 <= k < m ==> #[trigger] keys@[k]@ == out@[k]@,
                j <= m,
                xk@ == x@,
                forall|k: int| 0 <= k < j ==> !path_lt(x@, #[trigger] string_views(out@)[k]),
            decreases m - j,
        {
            assert(string_views(out@)[j as int] == out@[j as int]@);
            j = j + 1;
        }
        let ghost old_views = string_views(out@);
        proof {
            if j < m {
                assert(old_views[j as int] == out@[j as int]@);
                assert(path_lt(x@, old_views[j as int]));
            }
        }
        out.insert(j, x);
        keys.insert(j, xk);
        let ghost new_views = string_views(out@);
        proof {
            assert(new_views =~= old_views.insert(j as int, x@));
            assert forall|a: int, b: int| 0 <= a < b < new_views.len() implies !path_lt(#[trigger] new_views[b], #[trigger] new_views[a]) by {
                if a == j {
                    // b > j: new_views[b] == old_views[b - 1], which is not before x
                    let y = old_views[b - 1];
                    if path_lt(y, x@) {
                        if b - 1 == j {
                            lemma_path_lt_asym(x@, y);
                        } else {
                            lemma_path_lt_trans(y, x@, old_views[j as int]);
                        }
                    }
                } else if b == j {
                    // a < j: x is not before old_views[a]
                } else {
                    let oa = if a < j { a } else { a - 1 };
                    let ob = if b < j { b } else { b - 1 };
                    assert(new_views[a] == old_views[oa] && new_views[b] == old_views[ob]);
                }
            }
            assert(string_views(v@.take(i + 1)) =~= string_views(v@.take(i as int)).push(x@));
            vstd::seq_lib::to_multiset_insert(old_views, j as int, x@);
            vstd::seq_lib::to_multiset_build(string_views(v@.take(i as int)), x@);
            assert(forall|k: int| 0 <= k < out@.len() ==> #[trigger] keys@[k]@ == out@[k]@);
        }
        i = i + 1;
    }
    assert(v@.take(n as int) =~= v@);
    out
}

} // verus!
