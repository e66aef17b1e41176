//! Absolute paths of the shared namespace: `/` is the root, segments are
//! separated by single `/`, none is empty, and only the root ends in `/`.

use vstd::prelude::*;
use vstd::string::*;

verus! {

pub open spec fn root_path() -> Seq<char> {
    seq!['/']
}

pub open spec fn valid_path(p: Seq<char>) -> bool {
    &&& p.len() > 0
    &&& p[0] == '/'
    &&& (p.len() == 1 || p.last() != '/')
    &&& forall|i: int| 0 <= i < p.len() - 1 && p[i] == '/' ==> #[trigger] p[i + 1] != '/'
}

/// The index of the last `/` before position `i`, or -1.
pub open spec fn last_slash_before(p: Seq<char>, i: int) -> int
    decreases i,
{
    if i <= 0 {
        -1
    } else if p[i - 1] == '/' {
        i - 1
    } else {
        last_slash_before(p, i - 1)
    }
}

pub open spec fn last_slash(p: Seq<char>) -> int {
    last_slash_before(p, p.len() as int)
}

/// The directory that holds `p`; the root for a top-level entry.
pub open spec fn parent_path(p: Seq<char>) -> Seq<char> {
    if last_slash(p) <= 0 {
        root_path()
    } else {
        p.take(last_slash(p))
    }
}

/// `q` lies strictly below `p`.
pub open spec fn is_descendant(q: Seq<char>, p: Seq<char>) -> bool {
    if p == root_path() {
        q != p && q.len() > 0 && q[0] == '/'
    } else {
        q.len() > p.len() && q.take(p.len() as int) == p && q[p.len() as int] == '/'
    }
}

/// `q` is `p` or lies below it.
pub open spec fn in_subtree(q: Seq<char>, p: Seq<char>) -> bool {
    q == p || is_descendant(q, p)
}

proof fn lemma_last_slash_before(p: Seq<char>, i: int)
    requires
        0 <= i <= p.len(),
    ensures
        -1 <= last_slash_before(p, i) < i,
        last_slash_before(p, i) >= 0 ==> p[last_slash_before(p, i)] == '/',
        forall|j: int| last_slash_before(p, i) < j < i ==> p[j] != '/',
    decreases i,
{
    if i > 0 && p[i - 1] != '/' {
        lemma_last_slash_before(p, i - 1);
    }
}

pub proof fn lemma_last_slash(p: Seq<char>)
    ensures
        -1 <= last_slash(p) < p.len(),
        last_slash(p) >= 0 ==> p[last_slash(p)] == '/',
        forall|j: int| last_slash(p) < j < p.len() ==> p[j] != '/',
{
    lemma_last_slash_before(p, p.len() as int);
}

/// A valid path other than the root lies below its parent, which is valid.
pub proof fn lemma_parent(q: Seq<char>)
    requires
        valid_path(q),
        q != root_path(),
    ensures
        valid_path(parent_path(q)),
        is_descendant(q, parent_path(q)),
        parent_path(q).len() < q.len(),
{
    lemma_last_slash(q);
    let k = last_slash(q);
    assert(q.len() > 1) by {
        if q.len() == 1 {
            assert(q =~= root_path());
        }
    }
    assert(k >= 0);
    if k > 0 {
        let pp = q.take(k);
        assert(q[k - 1] != '/') by {
            if q[k - 1] == '/' {
                assert(q[(k - 1) + 1] != '/');
            }
        }
        assert forall|i: int| 0 <= i < pp.len() - 1 && pp[i] == '/' implies #[trigger] pp[i + 1] != '/' by {
            assert(q[i] == '/');
        }
        assert(pp.take(0) == pp.take(0));
        if pp == root_path() {
            assert(pp.len() == 1);
            assert(q[0] == '/');
            assert(q[1] == '/');
        }
        assert(q.take(pp.len() as int) =~= pp);
    }
}

pub proof fn lemma_descendant_transitive(q: Seq<char>, m: Seq<char>, p: Seq<char>)
    requires
        valid_path(p),
        is_descendant(q, m),
        is_descendant(m, p),
    ensures
        is_descendant(q, p),
{
    if p == root_path() {
        if m == root_path() {
        } else {
            assert(q[0] == q.take(m.len() as int)[0]);
            assert(q.len() > 1);
        }
    } else {
        assert(p.len() >= 2) by {
            if p.len() == 1 {
                assert(p =~= root_path());
            }
        }
        assert(q.take(p.len() as int) =~= m.take(p.len() as int)) by {
            assert forall|i: int| 0 <= i < p.len() implies q.take(p.len() as int)[i] == m.take(p.len() as int)[i] by {
                assert(q.take(m.len() as int)[i] == q[i]);
            }
        }
        assert(q[p.len() as int] == q.take(m.len() as int)[p.len() as int]);
    }
}

/// What lies below a child of `p` lies below `p` too.
pub proof fn lemma_parent_in_subtree(q: Seq<char>, p: Seq<char>)
    requires
        valid_path(q),
        valid_path(p),
        q != root_path(),
        in_subtree(parent_path(q), p),
    ensures
        is_descendant(q, p),
{
    lemma_parent(q);
    if parent_path(q) != p {
        lemma_descendant_transitive(q, parent_path(q), p);
    }
}

/// The last `/` is the one with no `/` after it.
pub proof fn lemma_last_slash_at(p: Seq<char>, k: int)
    requires
        0 <= k < p.len(),
        p[k] == '/',
        forall|j: int| k < j < p.len() ==> p[j] != '/',
    ensures
        last_slash(p) == k,
{
    lemma_last_slash(p);
}

/// A path that starts with `x` and goes on with `suf`, which starts at a `/`,
/// has its last `/` inside `suf`.
pub proof fn lemma_last_slash_concat(x: Seq<char>, suf: Seq<char>)
    requires
        suf.len() > 0,
        suf[0] == '/',
    ensures
        last_slash(suf) >= 0,
        last_slash(x + suf) == x.len() + last_slash(suf),
{
    lemma_last_slash(suf);
    let l = last_slash(suf);
    let y = x + suf;
    assert(l >= 0) by {
        if l < 0 {
            assert(suf[0] != '/');
        }
    }
    assert(y[x.len() + l] == '/');
    assert forall|j: int| x.len() + l < j < y.len() implies y[j] != '/' by {
        assert(y[j] == suf[j - x.len()]);
    }
    lemma_last_slash_at(y, x.len() + l);
}

/// The parent of a path below `x` is found by taking the parent of its part below `x`.
pub proof fn lemma_parent_concat(x: Seq<char>, suf: Seq<char>)
    requires
        x.len() > 0,
        suf.len() > 0,
        suf[0] == '/',
    ensures
        last_slash(suf) >= 0,
        parent_path(x + suf) == x + suf.take(last_slash(suf)),
{
    lemma_last_slash_concat(x, suf);
    lemma_last_slash(suf);
    assert((x + suf).take(x.len() + last_slash(suf)) =~= x + suf.take(last_slash(suf)));
}

/// Going up from a path strictly below `b` stays within `b`'s subtree.
pub proof fn lemma_parent_stays(q: Seq<char>, b: Seq<char>)
    requires
        valid_path(q),
        valid_path(b),
        is_descendant(q, b),
    ensures
        in_subtree(parent_path(q), b),
{
    assert(q != root_path()) by {
        if q == root_path() {
            if b != root_path() {
                assert(b.len() >= 2) by {
                    if b.len() == 1 {
                        assert(b =~= root_path());
                    }
                }
            }
        }
    }
    lemma_parent(q);
    lemma_last_slash(q);
    if b == root_path() {
        let pp = parent_path(q);
        if pp != root_path() {
            assert(pp[0] == '/');
        }
    } else {
        let n = b.len() as int;
        let k = last_slash(q);
        assert(q[n] == '/');
        assert(k >= n);
        let pp = q.take(k);
        assert(parent_path(q) == pp);
        assert(pp.take(n) =~= q.take(n));
        if k == n {
            assert(pp =~= b);
        } else {
            assert(pp[n] == q[n]);
        }
    }
}

/// Replaces the prefix `a` of `q` by `b`.
pub open spec fn rebase(q: Seq<char>, a: Seq<char>, b: Seq<char>) -> Seq<char> {
    b + q.skip(a.len() as int)
}

/// What follows `a` in a path of its subtree is empty or starts at a `/`.
pub proof fn lemma_subtree_suffix(q: Seq<char>, a: Seq<char>)
    requires
        valid_path(a),
        a != root_path(),
        in_subtree(q, a),
    ensures
        q.len() >= a.len(),
        q.take(a.len() as int) == a,
        q == a + q.skip(a.len() as int),
        q.skip(a.len() as int).len() == 0 || q.skip(a.len() as int)[0] == '/',
{
    if q == a {
        assert(q.take(a.len() as int) =~= a);
    }
    assert(q =~= q.take(a.len() as int) + q.skip(a.len() as int));
}

/// A path of `a`'s subtree, moved under `b`, is a valid path of `b`'s subtree.
pub proof fn lemma_rebase(q: Seq<char>, a: Seq<char>, b: Seq<char>)
    requires
        valid_path(a),
        valid_path(b),
        valid_path(q),
        a != root_path(),
        b != root_path(),
        in_subtree(q, a),
    ensures
        valid_path(rebase(q, a, b)),
        in_subtree(rebase(q, a, b), b),
        rebase(q, a, b).skip(b.len() as int) == q.skip(a.len() as int),
        rebase(rebase(q, a, b), b, a) == q,
{
    lemma_subtree_suffix(q, a);
    let suf = q.skip(a.len() as int);
    let r = b + suf;
    assert(b.len() >= 2) by {
        if b.len() == 1 {
            assert(b =~= root_path());
        }
    }
    assert(a.len() >= 2) by {
        if a.len() == 1 {
            assert(a =~= root_path());
        }
    }
    assert(r.skip(b.len() as int) =~= suf);
    assert(rebase(r, b, a) =~= q);
    assert forall|i: int| 0 <= i < r.len() - 1 && r[i] == '/' implies #[trigger] r[i + 1] != '/' by {
        if i < b.len() - 1 {
            assert(r[i] == b[i]);
            assert(r[i + 1] == b[i + 1]);
        } else if i == b.len() - 1 {
            assert(r[i] == b.last());
        } else {
            let j = i - b.len() + a.len();
            assert(r[i] == q[j]);
            assert(r[i + 1] == q[j + 1]);
        }
    }
    if suf.len() == 0 {
        assert(r =~= b);
    } else {
        assert(r.last() == q.last());
        assert(r.take(b.len() as int) =~= b);
        assert(r[b.len() as int] == suf[0]);
    }
}

/// Distinct paths of `a`'s subtree stay distinct when moved under `b`.
pub proof fn lemma_rebase_injective(q1: Seq<char>, q2: Seq<char>, a: Seq<char>, b: Seq<char>)
    requires
        valid_path(a),
        a != root_path(),
        in_subtree(q1, a),
        in_subtree(q2, a),
        rebase(q1, a, b) == rebase(q2, a, b),
    ensures
        q1 == q2,
{
    lemma_subtree_suffix(q1, a);
    lemma_subtree_suffix(q2, a);
    assert(rebase(q1, a, b).skip(b.len() as int) =~= q1.skip(a.len() as int));
    assert(rebase(q2, a, b).skip(b.len() as int) =~= q2.skip(a.len() as int));
}

/// Moving commutes with going up, below the moved path.
pub proof fn lemma_rebase_parent(q: Seq<char>, a: Seq<char>, b: Seq<char>)
    requires
        valid_path(a),
        a != root_path(),
        b.len() > 0,
        is_descendant(q, a),
    ensures
        rebase(parent_path(q), a, b) == parent_path(rebase(q, a, b)),
{
    lemma_subtree_suffix(q, a);
    let suf = q.skip(a.len() as int);
    assert(suf.len() > 0);
    lemma_parent_concat(a, suf);
    lemma_parent_concat(b, suf);
    let l = last_slash(suf);
    assert((a + suf.take(l)).skip(a.len() as int) =~= suf.take(l));
}

/// Whether two strings hold the same characters.
pub fn str_eq(a: &str, b: &str) -> (r: bool)
    ensures
        r == (a@ == b@),
{
    let n = a.unicode_len();
    if n != b.unicode_len() {
        return false;
    }
    let mut i: usize = 0;
    while i < n
        invariant
            n == a@.len(),
            n == b@.len(),
            i <= n,
            forall|j: int| 0 <= j < i ==> a@[j] == b@[j],
        decreases n - i,
    {
        if a.get_char(i) != b.get_char(i) {
            return false;
        }
        i = i + 1;
    }
    assert(a@ =~= b@);
    true
}

/// The last segment of a path; empty for the root.
pub open spec fn basename(p: Seq<char>) -> Seq<char> {
    p.skip(last_slash(p) + 1)
}

/// The last segment of `p`.
pub fn base_name(p: &str) -> (r: String)
    ensures
        r@ == basename(p@),
{
    proof { lemma_last_slash(p@); }
    let n = p.unicode_len();
    let mut k: usize = n;
    while k > 0 && p.get_char(k - 1) != '/'
        invariant
            n == p@.len(),
            k <= n,
            last_slash(p@) == last_slash_before(p@, k as int),
        decreases k,
    {
        k = k - 1;
    }
    let base = p.substring_char(k, n);
    assert(base@ =~= basename(p@));
    base.to_owned()
}

/// The path of the entry named `name` in directory `parent`.
pub open spec fn join_path(parent: Seq<char>, name: Seq<char>) -> Seq<char> {
    if parent == root_path() {
        root_path() + name
    } else {
        parent + root_path() + name
    }
}

/// The path of the entry named `name` in directory `parent`.
pub fn child_path(parent: &str, name: &str) -> (r: String)
    ensures
        r@ == join_path(parent@, name@),
{
    proof { reveal_strlit("/"); }
    let mut r = parent.to_owned();
    if !str_eq(parent, "/") {
        r.append("/");
    }
    assert("/"@ =~= root_path());
    r.append(name);
    r
}

/// A path other than the root is its parent joined with its last segment.
pub proof fn lemma_join_parent_basename(q: Seq<char>)
    requires
        valid_path(q),
        q != root_path(),
    ensures
        join_path(parent_path(q), basename(q)) == q,
{
    lemma_last_slash(q);
    let k = last_slash(q);
    assert(k >= 0);
    if k == 0 {
        assert(root_path() + q.skip(1) =~= q);
    } else {
        assert(k >= 2) by {
            if k == 1 {
                assert(q[0int + 1] != '/');
            }
        }
        assert(q.take(k) != root_path()) by {
            assert(q.take(k).len() == k);
        }
        assert(q.take(k) + root_path() + q.skip(k + 1) =~= q);
    }
}

/// Whether `p` is a valid path.
pub fn check_path(p: &str) -> (r: bool)
    ensures
        r == valid_path(p@),
{
    let n = p.unicode_len();
    if n == 0 {
        return false;
    }
    if p.get_char(0) != '/' {
        return false;
    }
    if n > 1 && p.get_char(n - 1) == '/' {
        return false;
    }
    let mut i: usize = 0;
    while i + 1 < n
        invariant
            n == p@.len(),
            n > 0,
            i < n,
            forall|j: int| 0 <= j < i && p@[j] == '/' ==> #[trigger] p@[j + 1] != '/',
        decreases n - i,
    {
        if p.get_char(i) == '/' && p.get_char(i + 1) == '/' {
            return false;
        }
        i = i + 1;
    }
    true
}

/// The parent directory of a path.
pub fn parent_of(p: &str) -> (r: String)
    ensures
        r@ == parent_path(p@),
{
    proof { lemma_last_slash(p@); }
    let n = p.unicode_len();
    let mut k: usize = n;
    while k > 0 && p.get_char(k - 1) != '/'
        invariant
            n == p@.len(),
            k <= n,
            last_slash(p@) == last_slash_before(p@, k as int),
        decreases k,
    {
        k = k - 1;
    }
    proof { reveal_strlit("/"); }
    if k <= 1 {
        assert(seq!['/'] =~= root_path());
        "/".to_owned()
    } else {
        p.substring_char(0, k - 1).to_owned()
    }
}

/// Whether `q` is `p` or lies below it.
pub fn within(q: &str, p: &str) -> (r: bool)
    requires
        valid_path(p@),
    ensures
        r == in_subtree(q@, p@),
{
    let n = p.unicode_len();
    let m = q.unicode_len();
    if n == 1 {
        assert(p@ =~= root_path());
        return m > 0 && q.get_char(0) == '/';
    }
    if m < n {
        return false;
    }
    let mut i: usize = 0;
    while i < n
        invariant
            n == p@.len(),
            m == q@.len(),
            n <= m,
            i <= n,
            forall|j: int| 0 <= j < i ==> q@[j] == p@[j],
        decreases n - i,
    {
        if q.get_char(i) != p.get_char(i) {
            assert(q@.take(n as int)[i as int] != p@[i as int]);
            return false;
        }
        i = i + 1;
    }
    assert(q@.take(n as int) =~= p@);
    if m == n {
        assert(q@ =~= p@);
        true
    } else {
        q.get_char(n) == '/'
    }
}

} // verus!
