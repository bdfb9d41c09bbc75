//! Character-level path conventions: base names, stems, extensions,
//! `/`-separated components and prefixes. Paths are plain strings here; the
//! file system itself is never touched.

use vstd::prelude::*;

verus! {

/// The index of the last occurrence of `c` in `p`, or `-1` if `c` does not
/// occur.
pub open spec fn last_index_of(p: Seq<char>, c: char) -> int
    decreases p.len(),
{
    if p.len() == 0 {
        -1
    } else if p[p.len() - 1] == c {
        p.len() - 1
    } else {
        last_index_of(p.drop_last(), c)
    }
}

pub proof fn lemma_last_index_of(p: Seq<char>, c: char)
    ensures
        -1 <= last_index_of(p, c) < p.len(),
        last_index_of(p, c) >= 0 ==> p[last_index_of(p, c)] == c,
        forall|i: int| last_index_of(p, c) < i < p.len() ==> p[i] != c,
    decreases p.len(),
{
    if p.len() > 0 && p[p.len() - 1] != c {
        lemma_last_index_of(p.drop_last(), c);
        assert(forall|i: int| 0 <= i < p.len() - 1 ==> p.drop_last()[i] == p[i]);
    }
}

/// The part of `p` after its last `/`: the whole of `p` when it holds no
/// separator, empty when it ends with one.
pub open spec fn basename(p: Seq<char>) -> Seq<char> {
    if last_index_of(p, '/') == -1 {
        p
    } else {
        p.subrange(last_index_of(p, '/') + 1, p.len() as int)
    }
}

/// The base name with its extension stripped: everything before the last `.`
/// of the base name, unless that `.` is the base name's first character or
/// there is none, in which case the whole base name.
pub open spec fn stem_of(b: Seq<char>) -> Seq<char> {
    if last_index_of(b, '.') > 0 {
        b.subrange(0, last_index_of(b, '.'))
    } else {
        b
    }
}

/// The name a script takes from its file: the stem of the base name, or
/// `script` where the base name is empty.
pub open spec fn script_name(p: Seq<char>) -> Seq<char> {
    if basename(p).len() == 0 {
        "script"@
    } else {
        stem_of(basename(p))
    }
}

/// Whether the path's base name carries the source extension `m`: the part
/// after the base name's last `.` is exactly `m`, and that `.` is not the
/// base name's first character.
pub open spec fn has_m_extension(p: Seq<char>) -> bool {
    &&& last_index_of(basename(p), '.') > 0
    &&& basename(p).subrange(last_index_of(basename(p), '.') + 1, basename(p).len() as int)
        == "m"@
}

/// `p[i..j]` is one whole `/`-separated component of `p`.
pub open spec fn component_at(p: Seq<char>, i: int, j: int) -> bool {
    &&& 0 <= i <= j <= p.len()
    &&& (i == 0 || p[i - 1] == '/')
    &&& (j == p.len() || p[j] == '/')
    &&& forall|k: int| i <= k < j ==> p[k] != '/'
}

/// Some `/`-separated component of `p` equals `c`.
pub open spec fn has_component(p: Seq<char>, c: Seq<char>) -> bool {
    exists|i: int, j: int| component_at(p, i, j) && p.subrange(i, j) == c
}

/// A component's end is determined by its start.
pub proof fn lemma_component_end_unique(p: Seq<char>, i: int, j1: int, j2: int)
    requires
        component_at(p, i, j1),
        component_at(p, i, j2),
    ensures
        j1 == j2,
{
    if j1 < j2 {
        assert(p[j1] != '/');
    }
    if j2 < j1 {
        assert(p[j2] != '/');
    }
}

/// Whether `s[i..j]` equals the whole of `t`.
pub(crate) fn range_matches(s: &str, i: usize, j: usize, t: &str) -> (r: bool)
    requires
        i <= j <= s@.len(),
    ensures
        r == (s@.subrange(i as int, j as int) == t@),
{
    let n = t.unicode_len();
    if j - i != n {
        return false;
    }
    let mut k: usize = 0;
    while k < n
        invariant
            i <= j <= s@.len(),
            n == t@.len(),
            j - i == n,
            0 <= k <= n,
            forall|m: int| 0 <= m < k ==> s@[i + m] == t@[m],
        decreases n - k,
    {
        if s.get_char(i + k) != t.get_char(k) {
            assert(s@.subrange(i as int, j as int)[k as int] != t@[k as int]);
            return false;
        }
        k += 1;
    }
    proof {
        assert(s@.subrange(i as int, j as int) =~= t@);
    }
    true
}

/// Whether `a` and `b` hold the same characters.
pub(crate) fn str_eq(a: &str, b: &str) -> (r: bool)
    ensures
        r == (a@ == b@),
{
    let n = a.unicode_len();
    let m = b.unicode_len();
    if n != m {
        return false;
    }
    let r = range_matches(a, 0, n, b);
    proof {
        assert(a@.subrange(0, n as int) =~= a@);
    }
    r
}

/// `pre`, read as a `/`-separated path, is a leading part of `p`: its
/// characters start `p` and end at a component boundary. One trailing
/// separator on `pre` is ignored, and an empty `pre` prefixes every path.
pub open spec fn path_starts_with(p: Seq<char>, pre: Seq<char>) -> bool {
    let q = if pre.len() > 0 && pre[pre.len() - 1] == '/' {
        pre.drop_last()
    } else {
        pre
    };
    q.len() == 0 || (q.is_prefix_of(p) && (p.len() == q.len() || p[q.len() as int] == '/'))
}

/// Whether `pre` is a component-wise path prefix of `p`.
pub(crate) fn path_prefix_matches(p: &str, pre: &str) -> (r: bool)
    ensures
        r == path_starts_with(p@, pre@),
{
    let plen = p.unicode_len();
    let mut m = pre.unicode_len();
    if m > 0 && pre.get_char(m - 1) == '/' {
        m -= 1;
    }
    let ghost q = if pre@.len() > 0 && pre@[pre@.len() - 1] == '/' {
        pre@.drop_last()
    } else {
        pre@
    };
    proof {
        assert(q =~= pre@.subrange(0, m as int));
    }
    if m == 0 {
        return true;
    }
    if m > plen {
        return false;
    }
    let mut k: usize = 0;
    while k < m
        invariant
            m <= plen == p@.len(),
            m <= pre@.len(),
            0 <= k <= m,
            q == pre@.subrange(0, m as int),
            path_starts_with(p@, pre@) == (q.len() == 0 || (q.is_prefix_of(p@) && (p@.len()
                == q.len() || p@[q.len() as int] == '/'))),
            forall|j: int| 0 <= j < k ==> p@[j] == pre@[j],
        decreases m - k,
    {
        if p.get_char(k) != pre.get_char(k) {
            proof {
                assert(q[k as int] == pre@[k as int]);
                assert(q[k as int] != p@[k as int]);
                assert(!q.is_prefix_of(p@));
            }
            return false;
        }
        k += 1;
    }
    proof {
        assert(q =~= p@.subrange(0, m as int));
        assert(q.is_prefix_of(p@));
    }
    if plen == m {
        return true;
    }
    p.get_char(m) == '/'
}

/// The script name of `path` as an owned string.
pub(crate) fn script_name_of(path: &str) -> (r: String)
    ensures
        r@ == script_name(path@),
{
    proof {
        lemma_last_index_of(path@, '/');
    }
    let n = path.unicode_len();
    let bstart = match find_last_char(path, '/') {
        Some(li) => li + 1,
        None => 0,
    };
    proof {
        assert(basename(path@) =~= path@.subrange(bstart as int, n as int));
    }
    if bstart == n {
        let r = "script".to_owned();
        return r;
    }
    // look for a dot strictly after the base name's first character
    let mut d: usize = n;
    let mut found: bool = false;
    while d > bstart + 1 && !found
        invariant
            bstart < n == path@.len(),
            bstart < d <= n,
            found ==> bstart < d < n && path@[d as int] == '.',
            found ==> forall|k: int| d < k < n ==> path@[k] != '.',
            !found ==> forall|k: int| d <= k < n ==> path@[k] != '.',
        decreases d,
    {
        if path.get_char(d - 1) == '.' {
            d -= 1;
            found = true;
        } else {
            d -= 1;
        }
    }
    proof {
        lemma_last_index_of(basename(path@), '.');
    }
    if found {
        proof {
            let b = basename(path@);
            assert(b[d - bstart] == '.');
            assert(forall|k: int| d - bstart < k < b.len() ==> b[k] != '.');
            let li = last_index_of(b, '.');
            if li > d - bstart {
                assert(b[li] != '.');
            }
            if li < d - bstart {
                assert(b[d - bstart] != '.');
            }
            assert(li == d - bstart);
            assert(stem_of(b) =~= path@.subrange(bstart as int, d as int));
        }
        let r = path.substring_char(bstart, d).to_owned();
        r
    } else {
        proof {
            let b = basename(path@);
            assert(forall|k: int| 1 <= k < b.len() ==> b[k] != '.');
            let li = last_index_of(b, '.');
            if li > 0 {
                assert(b[li] != '.');
            }
            assert(li <= 0);
            assert(stem_of(b) =~= path@.subrange(bstart as int, n as int));
        }
        let r = path.substring_char(bstart, n).to_owned();
        r
    }
}

/// The index of the last `c` in `path`, if any.
pub(crate) fn find_last_char(path: &str, c: char) -> (r: Option<usize>)
    ensures
        r matches Some(i) ==> i == last_index_of(path@, c),
        r is None ==> last_index_of(path@, c) == -1,
{
    proof {
        lemma_last_index_of(path@, c);
    }
    let n = path.unicode_len();
    let mut k: usize = n;
    while k > 0
        invariant
            n == path@.len(),
            0 <= k <= n,
            forall|i: int| k <= i < n ==> path@[i] != c,
        decreases k,
    {
        k -= 1;
        if path.get_char(k) == c {
            proof {
                lemma_last_index_of(path@, c);
                let li = last_index_of(path@, c);
                if li > k {
                    assert(path@[li] != c);
                }
                if li < k {
                    assert(path@[k as int] != c);
                }
            }
            return Some(k);
        }
    }
    None
}

/// Whether the path's base name carries the `m` extension.
pub(crate) fn path_has_m_extension(path: &str) -> (r: bool)
    ensures
        r == has_m_extension(path@),
{
    proof {
        lemma_last_index_of(path@, '/');
    }
    let n = path.unicode_len();
    let bstart = match find_last_char(path, '/') {
        Some(li) => li + 1,
        None => 0,
    };
    proof {
        assert(basename(path@) =~= path@.subrange(bstart as int, n as int));
        lemma_last_index_of(basename(path@), '.');
    }
    if n < 2 || bstart > n - 2 {
        // too short for a stem, a dot and the letter
        return false;
    }
    if path.get_char(n - 1) != 'm' || path.get_char(n - 2) != '.' {
        proof {
            let b = basename(path@);
            if last_index_of(b, '.') > 0 {
                let li = last_index_of(b, '.');
                if b.subrange(li + 1, b.len() as int) == "m"@ {
                    proof_m_literal();
                    assert(b.subrange(li + 1, b.len() as int).len() == 1);
                    assert(li == b.len() - 2);
                    assert(b[b.len() - 2] == '.');
                    assert(b[b.len() - 1] == 'm');
                    assert(false);
                }
            }
        }
        return false;
    }
    // the dot just before the final character is the last dot
    let r = n - 2 > bstart;
    proof {
        proof_m_literal();
        let b = basename(path@);
        assert(b[b.len() - 2] == '.');
        assert(last_index_of(b, '.') == b.len() - 2);
        assert(b.subrange(b.len() - 1, b.len() as int) =~= "m"@);
        assert(has_m_extension(path@) == (b.len() - 2 > 0));
    }
    r
}

proof fn proof_m_literal()
    ensures
        "m"@.len() == 1,
        "m"@[0] == 'm',
{
    reveal_strlit("m");
}

/// Whether the path's base name equals `t`.
pub(crate) fn basename_matches(path: &str, t: &str) -> (r: bool)
    ensures
        r == (basename(path@) == t@),
{
    proof {
        lemma_last_index_of(path@, '/');
    }
    let n = path.unicode_len();
    let bstart = match find_last_char(path, '/') {
        Some(li) => li + 1,
        None => 0,
    };
    proof {
        assert(basename(path@) =~= path@.subrange(bstart as int, n as int));
    }
    range_matches(path, bstart, n, t)
}

/// Whether some `/`-separated component of `path` equals `comp`.
pub(crate) fn path_has_component(path: &str, comp: &str) -> (r: bool)
    requires
        comp@.len() > 0,
    ensures
        r == has_component(path@, comp@),
{
    let n = path.unicode_len();
    let mut start: usize = 0;
    loop
        invariant
            n == path@.len(),
            comp@.len() > 0,
            0 <= start <= n,
            start == 0 || path@[start - 1] == '/',
            forall|i: int, j: int|
                component_at(path@, i, j) && i < start ==> path@.subrange(i, j) != comp@,
        decreases n - start,
    {
        // find this component's end: the next separator, or the path's end
        let mut j: usize = start;
        while j < n && path.get_char(j) != '/'
            invariant
                n == path@.len(),
                start <= j <= n,
                forall|k: int| start <= k < j ==> path@[k] != '/',
            decreases n - j,
        {
            j += 1;
        }
        assert(component_at(path@, start as int, j as int));
        if range_matches(path, start, j, comp) {
            return true;
        }
        proof {
            // no component starts inside this one, and this one's end is fixed
            assert forall|i: int, j2: int|
                component_at(path@, i, j2) && i <= j implies path@.subrange(i, j2) != comp@ by {
                if i < start {
                } else if i == start {
                    lemma_component_end_unique(path@, i, j2, j as int);
                } else {
                    assert(path@[i - 1] != '/');
                }
            }
        }
        if j == n {
            proof {
                assert forall|i: int, j2: int|
                    component_at(path@, i, j2) implies path@.subrange(i, j2) != comp@ by {
                    assert(i <= path@.len());
                    if i > j as int {
                        assert(path@[i - 1] != '/');
                    }
                }
            }
            return false;
        }
        start = j + 1;
    }
}

} // verus!
