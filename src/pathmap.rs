//! Records keyed by relative path, held in a vector sorted by path.
//!
//! A walk or a catalog query hands over records in any order, possibly with a
//! path repeated; such a sequence denotes a map in which the last record for a
//! path wins. Indexing sorts it by path and keeps that record.
use vstd::prelude::*;
use crate::order::{compare_paths, lemma_path_lt_asymmetric, lemma_path_lt_transitive, path_lt};

verus! {

/// A record identified by a relative path.
pub trait PathKeyed: Sized {
    spec fn key(&self) -> Seq<char>;

    fn path(&self) -> (r: &String)
        ensures
            r@ == self.key(),
    ;

    fn duplicate(&self) -> (r: Self)
        ensures
            r == *self,
    ;
}

impl PathKeyed for String {
    open spec fn key(&self) -> Seq<char> {
        self@
    }

    fn path(&self) -> (r: &String) {
        self
    }

    fn duplicate(&self) -> (r: Self) {
        self.clone()
    }
}

/// Paths strictly increase along `s`; so no path occurs twice.
pub open spec fn sorted_by_key<T: PathKeyed>(s: Seq<T>) -> bool {
    forall|i: int, j: int| 0 <= i < j < s.len() ==> path_lt(#[trigger] s[i].key(), #[trigger] s[j].key())
}

/// Some record among the first `n` of `s` has path `p`.
pub open spec fn has_key_before<T: PathKeyed>(s: Seq<T>, n: int, p: Seq<char>) -> bool {
    exists|i: int| 0 <= i < n && i < s.len() && #[trigger] s[i].key() == p
}

pub open spec fn has_key<T: PathKeyed>(s: Seq<T>, p: Seq<char>) -> bool {
    has_key_before(s, s.len() as int, p)
}

/// The record that `s` holds for `p`: the last one with that path.
pub open spec fn last_with_key<T: PathKeyed>(s: Seq<T>, p: Seq<char>) -> Option<T>
    decreases s.len(),
{
    if s.len() == 0 {
        None
    } else if s.last().key() == p {
        Some(s.last())
    } else {
        last_with_key(s.drop_last(), p)
    }
}

pub proof fn lemma_last_with_key_none<T: PathKeyed>(s: Seq<T>, p: Seq<char>)
    requires
        !has_key(s, p),
    ensures
        last_with_key(s, p) is None,
    decreases s.len(),
{
    if s.len() > 0 {
        assert(s.last().key() != p) by {
            if s.last().key() == p {
                assert(s[s.len() - 1].key() == p);
            }
        }
        assert forall|i: int| 0 <= i < s.drop_last().len() implies #[trigger] s.drop_last()[i].key() != p by {
            assert(s[i].key() != p);
        }
        lemma_last_with_key_none(s.drop_last(), p);
    }
}

pub proof fn lemma_last_with_key_some<T: PathKeyed>(s: Seq<T>, p: Seq<char>)
    requires
        last_with_key(s, p) is Some,
    ensures
        exists|i: int| 0 <= i < s.len() && s[i] == last_with_key(s, p)->0 && #[trigger] s[i].key() == p,
    decreases s.len(),
{
    if s.last().key() != p {
        lemma_last_with_key_some(s.drop_last(), p);
        let i = choose|i: int| 0 <= i < s.drop_last().len() && s.drop_last()[i] == last_with_key(s.drop_last(), p)->0 && #[trigger] s.drop_last()[i].key() == p;
        assert(s[i] == s.drop_last()[i]);
    } else {
        assert(s[s.len() - 1].key() == p);
    }
}

/// Appending a record whose path lies above every path so far keeps the
/// sequence sorted.
pub proof fn lemma_push_sorted<T: PathKeyed>(s: Seq<T>, x: T)
    requires
        sorted_by_key(s),
        forall|i: int| 0 <= i < s.len() ==> path_lt(#[trigger] s[i].key(), x.key()),
    ensures
        sorted_by_key(s.push(x)),
{
    let t = s.push(x);
    assert forall|i: int, j: int| 0 <= i < j < t.len() implies path_lt(#[trigger] t[i].key(), #[trigger] t[j].key()) by {
        assert(t[i] == s[i]);
        if j < s.len() {
            assert(t[j] == s[j]);
        }
    }
}

pub proof fn lemma_has_key_push<T: PathKeyed>(s: Seq<T>, x: T, q: Seq<char>)
    ensures
        has_key(s.push(x), q) == (has_key(s, q) || x.key() == q),
{
    let t = s.push(x);
    if has_key(s, q) {
        let i = choose|i: int| 0 <= i < s.len() && #[trigger] s[i].key() == q;
        assert(t[i] == s[i]);
    }
    if x.key() == q {
        assert(t[s.len() as int] == x);
    }
    if has_key(t, q) {
        let i = choose|i: int| 0 <= i < t.len() && #[trigger] t[i].key() == q;
        if i < s.len() {
            assert(t[i] == s[i]);
        }
    }
}

pub proof fn lemma_has_key_before_step<T: PathKeyed>(s: Seq<T>, k: int, q: Seq<char>)
    requires
        0 <= k < s.len(),
    ensures
        has_key_before(s, k + 1, q) == (has_key_before(s, k, q) || s[k].key() == q),
{
    if has_key_before(s, k + 1, q) && !has_key_before(s, k, q) {
        let i = choose|i: int| 0 <= i < k + 1 && i < s.len() && #[trigger] s[i].key() == q;
        assert(i == k);
    }
}

/// A path that a sequence holds a record for occurs in it.
pub proof fn lemma_last_with_key_has_key<T: PathKeyed>(s: Seq<T>, q: Seq<char>)
    ensures
        (last_with_key(s, q) is Some) == has_key(s, q),
{
    if last_with_key(s, q) is Some {
        lemma_last_with_key_some(s, q);
    } else if has_key(s, q) {
        let i = choose|i: int| 0 <= i < s.len() && #[trigger] s[i].key() == q;
        lemma_last_with_key_none_inv(s, q, i);
    }
}

proof fn lemma_last_with_key_none_inv<T: PathKeyed>(s: Seq<T>, q: Seq<char>, i: int)
    requires
        0 <= i < s.len(),
        s[i].key() == q,
    ensures
        last_with_key(s, q) is Some,
    decreases s.len(),
{
    if s.last().key() != q {
        assert(i != s.len() - 1);
        assert(s.drop_last()[i] == s[i]);
        lemma_last_with_key_none_inv(s.drop_last(), q, i);
    }
}

/// In a sorted sequence the record with path `p` is the one at its index.
pub proof fn lemma_last_with_key_at<T: PathKeyed>(s: Seq<T>, k: int)
    requires
        sorted_by_key(s),
        0 <= k < s.len(),
    ensures
        last_with_key(s, s[k].key()) == Some(s[k]),
    decreases s.len(),
{
    if k < s.len() - 1 {
        assert(path_lt(s[k].key(), s[s.len() - 1].key()));
        lemma_path_lt_asymmetric(s[k].key(), s.last().key());
        assert(sorted_by_key(s.drop_last())) by {
            assert forall|i: int, j: int| 0 <= i < j < s.drop_last().len() implies path_lt(
                #[trigger] s.drop_last()[i].key(),
                #[trigger] s.drop_last()[j].key(),
            ) by {
                assert(path_lt(s[i].key(), s[j].key()));
            }
        }
        lemma_last_with_key_at(s.drop_last(), k);
        assert(s.drop_last()[k] == s[k]);
    }
}

/// A sorted sequence's record for `p` is determined by which records carry `p`.
pub proof fn lemma_last_with_key_sorted<T: PathKeyed>(s: Seq<T>, p: Seq<char>)
    requires
        sorted_by_key(s),
    ensures
        has_key(s, p) ==> exists|k: int| 0 <= k < s.len() && #[trigger] s[k].key() == p && last_with_key(s, p) == Some(s[k]),
        !has_key(s, p) ==> last_with_key(s, p) is None,
{
    if has_key(s, p) {
        let k = choose|k: int| 0 <= k < s.len() && #[trigger] s[k].key() == p;
        lemma_last_with_key_at(s, k);
    } else {
        lemma_last_with_key_none(s, p);
    }
}

/// Looks `p` up by binary search: `Ok` with its index, or `Err` with the
/// index at which it would be inserted.
pub fn find_path<T: PathKeyed>(s: &Vec<T>, p: &str) -> (r: Result<usize, usize>)
    requires
        sorted_by_key(s@),
    ensures
        match r {
            Ok(k) => k < s@.len() && s@[k as int].key() == p@,
            Err(k) => {
                &&& k <= s@.len()
                &&& !has_key(s@, p@)
                &&& forall|i: int| 0 <= i < k ==> path_lt(#[trigger] s@[i].key(), p@)
                &&& forall|i: int| k <= i < s@.len() ==> path_lt(p@, #[trigger] s@[i].key())
            },
        },
{
    let mut lo: usize = 0;
    let mut hi: usize = s.len();
    while lo < hi
        invariant
            lo <= hi <= s@.len(),
            sorted_by_key(s@),
            forall|i: int| 0 <= i < lo ==> path_lt(#[trigger] s@[i].key(), p@),
            forall|i: int| hi <= i < s@.len() ==> path_lt(p@, #[trigger] s@[i].key()),
        decreases hi - lo,
    {
        let mid = lo + (hi - lo) / 2;
        let c = compare_paths(s[mid].path().as_str(), p);
        match c {
            core::cmp::Ordering::Equal => {
                return Ok(mid);
            },
            core::cmp::Ordering::Less => {
                assert forall|i: int| 0 <= i < mid + 1 implies path_lt(#[trigger] s@[i].key(), p@) by {
                    if i < mid {
                        lemma_path_lt_transitive(s@[i].key(), s@[mid as int].key(), p@);
                    }
                }
                lo = mid + 1;
            },
            core::cmp::Ordering::Greater => {
                assert forall|i: int| mid <= i < s@.len() implies path_lt(p@, #[trigger] s@[i].key()) by {
                    if i > mid {
                        lemma_path_lt_transitive(p@, s@[mid as int].key(), s@[i].key());
                    }
                }
                hi = mid;
            },
        }
    }
    assert forall|i: int| 0 <= i < s@.len() implies #[trigger] s@[i].key() != p@ by {
        if i < lo {
            lemma_path_lt_asymmetric(s@[i].key(), p@);
        } else {
            lemma_path_lt_asymmetric(p@, s@[i].key());
        }
    }
    Err(lo)
}

/// The record that a sorted sequence holds for `p`.
pub fn lookup<'a, T: PathKeyed>(s: &'a Vec<T>, p: &str) -> (r: Option<&'a T>)
    requires
        sorted_by_key(s@),
    ensures
        match r {
            Some(x) => last_with_key(s@, p@) == Some(*x),
            None => last_with_key(s@, p@) is None,
        },
{
    match find_path(s, p) {
        Ok(k) => {
            proof {
                lemma_last_with_key_at(s@, k as int);
            }
            Some(&s[k])
        },
        Err(_) => {
            proof {
                lemma_last_with_key_none(s@, p@);
            }
            None
        },
    }
}

/// Sorts records by path; where a path repeats, the last record wins.
pub fn index_by_path<T: PathKeyed>(items: &Vec<T>) -> (r: Vec<T>)
    ensures
        sorted_by_key(r@),
        forall|p: Seq<char>| #[trigger] last_with_key(r@, p) == last_with_key(items@, p),
{
    let mut r: Vec<T> = Vec::new();
    let mut i: usize = 0;
    while i < items.len()
        invariant
            i <= items@.len(),
            sorted_by_key(r@),
            forall|p: Seq<char>| #[trigger] last_with_key(r@, p) == last_with_key(items@.subrange(0, i as int), p),
        decreases items@.len() - i,
    {
        let x = items[i].duplicate();
        let ghost q = x.key();
        let ghost old_r = r@;
        let ghost pre = items@.subrange(0, i as int);
        let ghost post = items@.subrange(0, i + 1);
        assert(post.drop_last() =~= pre);
        assert(post.last() == x);
        match find_path(&r, x.path().as_str()) {
            Ok(k) => {
                r.set(k, x);
                assert forall|a: int, b: int| 0 <= a < b < r@.len() implies path_lt(#[trigger] r@[a].key(), #[trigger] r@[b].key()) by {
                    assert(path_lt(old_r[a].key(), old_r[b].key()));
                }
                assert forall|p: Seq<char>| #[trigger] last_with_key(r@, p) == last_with_key(post, p) by {
                    lemma_last_with_key_sorted(old_r, p);
                    lemma_last_with_key_sorted(r@, p);
                    if p == q {
                        lemma_last_with_key_at(r@, k as int);
                    } else {
                        if has_key(old_r, p) {
                            let m = choose|m: int| 0 <= m < old_r.len() && #[trigger] old_r[m].key() == p && last_with_key(old_r, p) == Some(old_r[m]);
                            assert(r@[m] == old_r[m]);
                            lemma_last_with_key_at(r@, m);
                        } else {
                            assert forall|m: int| 0 <= m < r@.len() implies #[trigger] r@[m].key() != p by {
                                if m != k {
                                    assert(r@[m] == old_r[m]);
                                    assert(old_r[m].key() != p);
                                }
                            }
                        }
                    }
                }
            },
            Err(k) => {
                r.insert(k, x);
                assert forall|a: int, b: int| 0 <= a < b < r@.len() implies path_lt(#[trigger] r@[a].key(), #[trigger] r@[b].key()) by {
                    if b < k {
                        assert(path_lt(old_r[a].key(), old_r[b].key()));
                    } else if b == k {
                    } else if a < k {
                        assert(r@[b] == old_r[b - 1]);
                        lemma_path_lt_transitive(old_r[a].key(), q, old_r[b - 1].key());
                    } else if a == k {
                        assert(r@[b] == old_r[b - 1]);
                    } else {
                        assert(path_lt(old_r[a - 1].key(), old_r[b - 1].key()));
                    }
                }
                assert forall|p: Seq<char>| #[trigger] last_with_key(r@, p) == last_with_key(post, p) by {
                    lemma_last_with_key_sorted(old_r, p);
                    lemma_last_with_key_sorted(r@, p);
                    if p == q {
                        lemma_last_with_key_at(r@, k as int);
                    } else {
                        if has_key(old_r, p) {
                            let m = choose|m: int| 0 <= m < old_r.len() && #[trigger] old_r[m].key() == p && last_with_key(old_r, p) == Some(old_r[m]);
                            if m < k {
                                assert(r@[m] == old_r[m]);
                                lemma_last_with_key_at(r@, m);
                            } else {
                                assert(r@[m + 1] == old_r[m]);
                                lemma_last_with_key_at(r@, m + 1);
                            }
                        } else {
                            assert forall|m: int| 0 <= m < r@.len() implies #[trigger] r@[m].key() != p by {
                                if m < k {
                                    assert(r@[m] == old_r[m]);
                                    assert(old_r[m].key() != p);
                                } else if m > k {
                                    assert(r@[m] == old_r[m - 1]);
                                    assert(old_r[m - 1].key() != p);
                                }
                            }
                        }
                    }
                }
            },
        }
        i = i + 1;
    }
    assert(items@.subrange(0, i as int) =~= items@);
    r
}

/// The union of the paths of two sorted sequences, sorted.
pub fn merge_paths<A: PathKeyed, B: PathKeyed>(a: &Vec<A>, b: &Vec<B>) -> (r: Vec<String>)
    requires
        sorted_by_key(a@),
        sorted_by_key(b@),
    ensures
        sorted_by_key(r@),
        forall|p: Seq<char>| #[trigger] has_key(r@, p) == (has_key(a@, p) || has_key(b@, p)),
{
    let mut r: Vec<String> = Vec::new();
    let mut i: usize = 0;
    let mut j: usize = 0;
    while i < a.len() || j < b.len()
        invariant
            i <= a@.len(),
            j <= b@.len(),
            sorted_by_key(a@),
            sorted_by_key(b@),
            sorted_by_key(r@),
            forall|k: int| 0 <= k < r@.len() && i < a@.len() ==> path_lt(#[trigger] r@[k].key(), a@[i as int].key()),
            forall|k: int| 0 <= k < r@.len() && j < b@.len() ==> path_lt(#[trigger] r@[k].key(), b@[j as int].key()),
            forall|p: Seq<char>| #[trigger] has_key(r@, p) == (has_key_before(a@, i as int, p) || has_key_before(b@, j as int, p)),
        decreases a@.len() + b@.len() - i - j,
    {
        let ghost old_r = r@;
        assert(forall|p: Seq<char>| #[trigger] has_key(old_r, p) == (has_key_before(a@, i as int, p) || has_key_before(b@, j as int, p)));
        let take_a: bool;
        let take_b: bool;
        if i == a.len() {
            take_a = false;
            take_b = true;
        } else if j == b.len() {
            take_a = true;
            take_b = false;
        } else {
            match compare_paths(a[i].path().as_str(), b[j].path().as_str()) {
                core::cmp::Ordering::Less => {
                    take_a = true;
                    take_b = false;
                },
                core::cmp::Ordering::Greater => {
                    take_a = false;
                    take_b = true;
                },
                core::cmp::Ordering::Equal => {
                    take_a = true;
                    take_b = true;
                },
            }
        }
        let x: String = if take_a {
            a[i].path().clone()
        } else {
            b[j].path().clone()
        };
        let ghost q = x@;
        r.push(x);
        proof {
            assert(r@[old_r.len() as int] == x);
            assert forall|k1: int, k2: int| 0 <= k1 < k2 < r@.len() implies path_lt(#[trigger] r@[k1].key(), #[trigger] r@[k2].key()) by {
                if k2 < old_r.len() {
                    assert(r@[k1] == old_r[k1] && r@[k2] == old_r[k2]);
                } else {
                    assert(r@[k1] == old_r[k1]);
                }
            }
        }
        let ni: usize = if take_a { i + 1 } else { i };
        let nj: usize = if take_b { j + 1 } else { j };
        proof {
            assert forall|k: int| 0 <= k < r@.len() && ni < a@.len() implies path_lt(#[trigger] r@[k].key(), a@[ni as int].key()) by {
                if take_a {
                    assert(path_lt(a@[i as int].key(), a@[ni as int].key()));
                    if k < old_r.len() {
                        assert(r@[k] == old_r[k]);
                        lemma_path_lt_transitive(old_r[k].key(), a@[i as int].key(), a@[ni as int].key());
                    }
                } else {
                    if k < old_r.len() {
                        assert(r@[k] == old_r[k]);
                    }
                }
            }
            assert forall|k: int| 0 <= k < r@.len() && nj < b@.len() implies path_lt(#[trigger] r@[k].key(), b@[nj as int].key()) by {
                if take_b {
                    assert(path_lt(b@[j as int].key(), b@[nj as int].key()));
                    if k < old_r.len() {
                        assert(r@[k] == old_r[k]);
                        lemma_path_lt_transitive(old_r[k].key(), b@[j as int].key(), b@[nj as int].key());
                    }
                } else {
                    if k < old_r.len() {
                        assert(r@[k] == old_r[k]);
                    }
                }
            }
            assert forall|p: Seq<char>| #[trigger] has_key(r@, p) == (has_key_before(a@, ni as int, p) || has_key_before(b@, nj as int, p)) by {
                if has_key(r@, p) {
                    let k = choose|k: int| 0 <= k < r@.len() && #[trigger] r@[k].key() == p;
                    if k < old_r.len() {
                        assert(old_r[k].key() == p);
                        assert(has_key(old_r, p));
                    } else if take_a {
                        assert(a@[i as int].key() == p);
                    } else {
                        assert(b@[j as int].key() == p);
                    }
                }
                if has_key_before(a@, ni as int, p) {
                    let k = choose|k: int| 0 <= k < ni && k < a@.len() && #[trigger] a@[k].key() == p;
                    if k < i {
                        assert(has_key_before(a@, i as int, p));
                        assert(has_key(old_r, p));
                        let m = choose|m: int| 0 <= m < old_r.len() && #[trigger] old_r[m].key() == p;
                        assert(r@[m] == old_r[m]);
                    } else {
                        assert(r@[old_r.len() as int].key() == p);
                    }
                }
                if has_key_before(b@, nj as int, p) {
                    let k = choose|k: int| 0 <= k < nj && k < b@.len() && #[trigger] b@[k].key() == p;
                    if k < j {
                        assert(has_key_before(b@, j as int, p));
                        assert(has_key(old_r, p));
                        let m = choose|m: int| 0 <= m < old_r.len() && #[trigger] old_r[m].key() == p;
                        assert(r@[m] == old_r[m]);
                    } else {
                        assert(r@[old_r.len() as int].key() == p);
                    }
                }
            }
        }
        i = ni;
        j = nj;
    }
    r
}

} // verus!
