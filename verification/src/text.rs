//! Verified helpers over `&str` and `String`, specified against `Seq<char>`
//! views: substring occurrence, search from either end, slicing and
//! concatenation.

use vstd::prelude::*;

verus! {

/// `n` occurs in `h` starting at position `i`.
pub open spec fn occurs_at(h: Seq<char>, n: Seq<char>, i: int) -> bool {
    0 <= i && i + n.len() <= h.len() && h.subrange(i, i + n.len()) == n
}

/// `n` occurs somewhere in `h`.
pub open spec fn contains_seq(h: Seq<char>, n: Seq<char>) -> bool {
    exists|i: int| occurs_at(h, n, i)
}

/// `i` is the leftmost position at which `n` occurs in `h`.
pub open spec fn first_occurrence(h: Seq<char>, n: Seq<char>, i: int) -> bool {
    occurs_at(h, n, i) && forall|j: int| 0 <= j < i ==> !occurs_at(h, n, j)
}

/// `i` is the rightmost position at which `n` occurs in `h`.
pub open spec fn last_occurrence(h: Seq<char>, n: Seq<char>, i: int) -> bool {
    occurs_at(h, n, i) && forall|j: int| j > i ==> !occurs_at(h, n, j)
}

pub open spec fn starts_with_seq(h: Seq<char>, p: Seq<char>) -> bool {
    occurs_at(h, p, 0)
}

pub open spec fn ends_with_seq(h: Seq<char>, s: Seq<char>) -> bool {
    occurs_at(h, s, h.len() - s.len())
}

/// Whether `h[i..i+|n|]` equals `n`.
pub fn matches_at(h: &str, n: &str, i: usize) -> (r: bool)
    requires
        i + n@.len() <= h@.len(),
        h@.len() <= usize::MAX,
    ensures
        r == occurs_at(h@, n@, i as int),
{
    let n_len: usize = n.unicode_len();
    let mut j: usize = 0;
    while j < n_len
        invariant
            0 <= j <= n_len,
            n_len == n@.len(),
            i + n_len <= h@.len(),
            h@.len() <= usize::MAX,
            forall|k: int| 0 <= k < j ==> h@[i + k] == n@[k],
        decreases n_len - j,
    {
        if h.get_char(i + j) != n.get_char(j) {
            proof {
                assert(h@.subrange(i as int, i + n@.len())[j as int] != n@[j as int]);
            }
            return false;
        }
        j += 1;
    }
    proof {
        assert(h@.subrange(i as int, i + n@.len()) =~= n@);
    }
    true
}

/// Position of the leftmost occurrence of `n` in `h`, if any.
pub fn find_sub(h: &str, n: &str) -> (r: Option<usize>)
    ensures
        match r {
            Some(i) => first_occurrence(h@, n@, i as int) && i + n@.len() <= h@.len(),
            None => !contains_seq(h@, n@),
        },
{
    let h_len: usize = h.unicode_len();
    let n_len: usize = n.unicode_len();
    if n_len > h_len {
        proof {
            assert(forall|i: int| !occurs_at(h@, n@, i));
        }
        return None;
    }
    let bound: usize = h_len - n_len;
    let mut i: usize = 0;
    loop
        invariant
            h_len == h@.len(),
            n_len == n@.len(),
            n_len <= h_len,
            bound == h_len - n_len,
            0 <= i <= bound,
            forall|j: int| 0 <= j < i ==> !occurs_at(h@, n@, j),
        decreases bound - i,
    {
        if matches_at(h, n, i) {
            return Some(i);
        }
        if i == bound {
            proof {
                assert(forall|j: int| occurs_at(h@, n@, j) ==> 0 <= j <= h@.len() - n@.len());
            }
            return None;
        }
        i += 1;
    }
}

/// Position of the leftmost occurrence of `n` in `h`, as a recursive
/// function, or `None` if `n` does not occur.
pub open spec fn first_pos(h: Seq<char>, n: Seq<char>) -> Option<int>
    decreases h.len(),
{
    if h.len() < n.len() {
        None
    } else if occurs_at(h, n, 0) {
        Some(0)
    } else if h.len() == n.len() {
        None
    } else {
        match first_pos(h.drop_first(), n) {
            Some(i) => Some(i + 1),
            None => None,
        }
    }
}

/// `first_pos` finds exactly the leftmost occurrence.
pub proof fn lemma_first_pos(h: Seq<char>, n: Seq<char>)
    ensures
        match first_pos(h, n) {
            Some(i) => first_occurrence(h, n, i),
            None => !contains_seq(h, n),
        },
    decreases h.len(),
{
    if h.len() < n.len() {
        assert(forall|i: int| !occurs_at(h, n, i));
    } else if occurs_at(h, n, 0) {
    } else if h.len() == n.len() {
        assert(forall|i: int| occurs_at(h, n, i) ==> i == 0);
    } else {
        lemma_first_pos(h.drop_first(), n);
        let ht = h.drop_first();
        assert forall|j: int| 0 <= j && j + 1 + n.len() <= h.len() implies occurs_at(h, n, j + 1)
            == occurs_at(ht, n, j) by {
            assert(ht.subrange(j, j + n.len()) =~= h.subrange(j + 1, j + 1 + n.len()));
        }
        match first_pos(ht, n) {
            Some(i) => {
                assert(occurs_at(h, n, i + 1));
                assert forall|j: int| 0 <= j < i + 1 implies !occurs_at(h, n, j) by {
                    if j > 0 {
                        assert(!occurs_at(ht, n, j - 1));
                    }
                }
            },
            None => {
                assert forall|j: int| true implies !occurs_at(h, n, j) by {
                    if j > 0 && j + n.len() <= h.len() {
                        assert(!occurs_at(ht, n, j - 1));
                    }
                }
            },
        }
    }
}

/// Position of the leftmost occurrence of `n` in `h`, matching `first_pos`.
pub fn ffirst_pos(h: &str, n: &str) -> (r: Option<usize>)
    ensures
        match r {
            Some(i) => first_pos(h@, n@) == Some(i as int) && i + n@.len() <= h@.len(),
            None => first_pos(h@, n@) is None,
        },
{
    let r = find_sub(h, n);
    proof {
        lemma_first_pos(h@, n@);
        match r {
            Some(i) => {
                assert(first_pos(h@, n@) is Some);
                let j = first_pos(h@, n@)->Some_0;
                assert(occurs_at(h@, n@, j));
                assert(occurs_at(h@, n@, i as int));
                assert(j == i as int);
            },
            None => {
                assert(first_pos(h@, n@) is None);
            },
        }
    }
    r
}

/// Position of the rightmost occurrence of `n` in `h`, as a recursive
/// function (scanning from the end), or `None` if `n` does not occur.
pub open spec fn last_pos(h: Seq<char>, n: Seq<char>) -> Option<int>
    decreases h.len(),
{
    if h.len() < n.len() {
        None
    } else if occurs_at(h, n, h.len() - n.len()) {
        Some(h.len() - n.len())
    } else if h.len() == n.len() {
        None
    } else {
        last_pos(h.drop_last(), n)
    }
}

/// `last_pos` finds exactly the rightmost occurrence.
pub proof fn lemma_last_pos(h: Seq<char>, n: Seq<char>)
    ensures
        match last_pos(h, n) {
            Some(i) => last_occurrence(h, n, i),
            None => !contains_seq(h, n),
        },
    decreases h.len(),
{
    if h.len() < n.len() {
        assert(forall|i: int| !occurs_at(h, n, i));
    } else if occurs_at(h, n, h.len() - n.len()) {
        assert(forall|j: int| j > h.len() - n.len() ==> !occurs_at(h, n, j));
    } else if h.len() == n.len() {
        assert(forall|i: int| !occurs_at(h, n, i));
    } else {
        lemma_last_pos(h.drop_last(), n);
        let hd = h.drop_last();
        assert forall|j: int| j + n.len() < h.len() implies occurs_at(h, n, j) == occurs_at(
            hd,
            n,
            j,
        ) by {
            if 0 <= j {
                assert(hd.subrange(j, j + n.len()) =~= h.subrange(j, j + n.len()));
            }
        }
        match last_pos(hd, n) {
            Some(i) => {
                assert(occurs_at(h, n, i));
                assert(forall|j: int| i < j && j + n.len() < h.len() ==> !occurs_at(h, n, j));
            },
            None => {
                assert(forall|j: int| j + n.len() < h.len() ==> !occurs_at(h, n, j));
            },
        }
    }
}

/// Position of the rightmost occurrence of `n` in `h`, matching `last_pos`.
pub fn rlast_pos(h: &str, n: &str) -> (r: Option<usize>)
    ensures
        match r {
            Some(i) => last_pos(h@, n@) == Some(i as int) && i + n@.len() <= h@.len(),
            None => last_pos(h@, n@) is None,
        },
{
    let h_len: usize = h.unicode_len();
    let n_len: usize = n.unicode_len();
    if h_len < n_len {
        return None;
    }
    proof {
        assert(h@.subrange(0, h@.len() as int) =~= h@);
    }
    let mut end: usize = h_len;
    loop
        invariant
            h_len == h@.len(),
            n_len == n@.len(),
            n_len <= end <= h_len,
            last_pos(h@, n@) == last_pos(h@.subrange(0, end as int), n@),
        decreases end,
    {
        proof {
            assert(h@.subrange(0, end as int).subrange(
                end - n_len,
                end as int,
            ) =~= h@.subrange(end - n_len, end as int));
        }
        if matches_at(h, n, end - n_len) {
            proof {
                assert(occurs_at(h@.subrange(0, end as int), n@, end - n_len));
            }
            return Some(end - n_len);
        }
        proof {
            assert(!occurs_at(h@.subrange(0, end as int), n@, end - n_len));
        }
        if end == n_len {
            return None;
        }
        proof {
            assert(h@.subrange(0, end as int).drop_last() =~= h@.subrange(0, end - 1));
        }
        end -= 1;
    }
}

/// Whether `n` occurs anywhere in `h`.
pub fn contains_sub(h: &str, n: &str) -> (r: bool)
    ensures
        r == contains_seq(h@, n@),
{
    find_sub(h, n).is_some()
}

pub fn starts_with_str(h: &str, p: &str) -> (r: bool)
    ensures
        r == starts_with_seq(h@, p@),
{
    let h_len: usize = h.unicode_len();
    let p_len: usize = p.unicode_len();
    if p_len > h_len {
        return false;
    }
    matches_at(h, p, 0)
}

pub fn ends_with_str(h: &str, s: &str) -> (r: bool)
    ensures
        r == ends_with_seq(h@, s@),
{
    let h_len: usize = h.unicode_len();
    let s_len: usize = s.unicode_len();
    if s_len > h_len {
        return false;
    }
    matches_at(h, s, h_len - s_len)
}

pub fn str_eq(a: &str, b: &str) -> (r: bool)
    ensures
        r == (a@ == b@),
{
    let a_len: usize = a.unicode_len();
    let b_len: usize = b.unicode_len();
    if a_len != b_len {
        return false;
    }
    let r = matches_at(a, b, 0);
    proof {
        assert(a@.subrange(0, a@.len() as int) =~= a@);
        if r {
            assert(a@ =~= b@);
        }
    }
    r
}

/// A freshly owned copy of `s[from..to]` (in characters).
pub fn substr_copy(s: &str, from: usize, to: usize) -> (r: String)
    requires
        from <= to <= s@.len(),
    ensures
        r@ == s@.subrange(from as int, to as int),
{
    String::from_str(s.substring_char(from, to))
}

pub fn concat2(a: &str, b: &str) -> (r: String)
    ensures
        r@ == a@ + b@,
{
    let mut r = String::from_str(a);
    r.append(b);
    r
}

pub fn concat3(a: &str, b: &str, c: &str) -> (r: String)
    ensures
        r@ == a@ + b@ + c@,
{
    let mut r = String::from_str(a);
    r.append(b);
    r.append(c);
    r
}

} // verus!
