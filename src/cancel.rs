//! Echo suppression. When a change seen on one side is applied to the other,
//! the watcher of that other side will soon report it back; the registry
//! remembers what that report should look like so it can be dropped.
//!
//! A token records, for a path, the state that the echo will show: `Some(t)`
//! for content identified by `t` (an etag, or a local content key), `None`
//! for a path that is expected to be gone. It holds until its deadline (a
//! time in the caller's clock); an expired token suppresses nothing.

use vstd::prelude::*;
use crate::paths::str_eq;

verus! {

pub struct CancelToken {
    pub path: String,
    pub expect: Option<String>,
    pub deadline: u64,
}

/// What a token says: the expected state and until when.
pub struct TokenView {
    pub state: Option<Seq<char>>,
    pub deadline: u64,
}

impl CancelToken {
    pub open spec fn view(&self) -> TokenView {
        TokenView { state: expect_view(self.expect), deadline: self.deadline }
    }
}

pub open spec fn expect_view(o: Option<String>) -> Option<Seq<char>> {
    match o {
        Some(s) => Some(s@),
        None => None,
    }
}

/// At time `now`, the token of `p` is live and expects `observed`.
pub open spec fn token_matches(m: Map<Seq<char>, TokenView>, p: Seq<char>, observed: Option<Seq<char>>, now: u64) -> bool {
    m.contains_key(p) && m[p].state == observed && now <= m[p].deadline
}

/// Whether an observed state is the expected one.
pub fn same_expect(a: &Option<String>, b: &Option<String>) -> (r: bool)
    ensures
        r == (expect_view(*a) == expect_view(*b)),
{
    match (a, b) {
        (Some(x), Some(y)) => str_eq(x.as_str(), y.as_str()),
        (None, None) => true,
        _ => false,
    }
}

/// Suppressions for one direction, at most one per path.
pub struct CancelMap {
    pub tokens: Vec<CancelToken>,
}

pub open spec fn tokens_unique(s: Seq<CancelToken>) -> bool {
    forall|i: int, j: int|
        0 <= i < s.len() && 0 <= j < s.len() && i != j ==> #[trigger] s[i].path@ != #[trigger] s[j].path@
}

pub open spec fn tokens_map(s: Seq<CancelToken>) -> Map<Seq<char>, TokenView> {
    Map::new(
        |p: Seq<char>| exists|i: int| 0 <= i < s.len() && #[trigger] s[i].path@ == p,
        |p: Seq<char>| s[choose|i: int| 0 <= i < s.len() && #[trigger] s[i].path@ == p]@,
    )
}

proof fn lemma_tokens_entry(s: Seq<CancelToken>, i: int)
    requires
        tokens_unique(s),
        0 <= i < s.len(),
    ensures
        tokens_map(s).contains_key(s[i].path@),
        tokens_map(s)[s[i].path@] == s[i]@,
{
}

impl CancelMap {
    pub open spec fn wf(&self) -> bool {
        tokens_unique(self.tokens@)
    }

    /// Path to token.
    pub open spec fn view(&self) -> Map<Seq<char>, TokenView> {
        tokens_map(self.tokens@)
    }

    pub fn new() -> (r: CancelMap)
        ensures
            r.wf(),
            r@ == Map::<Seq<char>, TokenView>::empty(),
    {
        let r = CancelMap { tokens: Vec::new() };
        assert(r@ =~= Map::<Seq<char>, TokenView>::empty());
        r
    }

    fn position(&self, p: &str) -> (r: Option<usize>)
        ensures
            r matches Some(i) ==> i < self.tokens@.len() && self.tokens@[i as int].path@ == p@,
            r is None ==> forall|i: int| 0 <= i < self.tokens@.len() ==> self.tokens@[i].path@ != p@,
    {
        let mut i: usize = 0;
        while i < self.tokens.len()
            invariant
                i <= self.tokens@.len(),
                forall|j: int| 0 <= j < i ==> self.tokens@[j].path@ != p@,
            decreases self.tokens@.len() - i,
        {
            if str_eq(self.tokens[i].path.as_str(), p) {
                return Some(i);
            }
            i = i + 1;
        }
        None
    }

    /// The expected state recorded for `p`.
    pub fn get(&self, p: &str) -> (r: Option<Option<String>>)
        requires
            self.wf(),
        ensures
            r is Some <==> self@.contains_key(p@),
            r matches Some(e) ==> expect_view(e) == self@[p@].state,
    {
        match self.position(p) {
            Some(i) => {
                proof { lemma_tokens_entry(self.tokens@, i as int); }
                Some(copy_expect(&self.tokens[i].expect))
            },
            None => None,
        }
    }

    /// Removes the token of `p`, if any.
    pub fn forget(&mut self, p: &str)
        requires
            old(self).wf(),
        ensures
            final(self).wf(),
            final(self)@ == old(self)@.remove(p@),
    {
        match self.position(p) {
            None => {
                assert(self@ =~= self@.remove(p@));
            },
            Some(i) => {
                let ghost s = self.tokens@;
                self.tokens.remove(i);
                proof {
                    let t = self.tokens@;
                    assert forall|a: int| 0 <= a < t.len() implies #[trigger] t[a] == (if a < i { s[a] } else { s[a + 1] }) by {}
                    assert(tokens_unique(t)) by {
                        assert forall|a: int, b: int| 0 <= a < t.len() && 0 <= b < t.len() && a != b implies
                            #[trigger] t[a].path@ != #[trigger] t[b].path@ by {
                            let a2 = if a < i { a } else { a + 1 };
                            let b2 = if b < i { b } else { b + 1 };
                            assert(t[a] == s[a2]);
                            assert(t[b] == s[b2]);
                        }
                    }
                    let target = tokens_map(s).remove(p@);
                    assert forall|q: Seq<char>| #[trigger] tokens_map(t).contains_key(q) <==> target.contains_key(q) by {
                        if tokens_map(t).contains_key(q) {
                            let a = choose|a: int| 0 <= a < t.len() && #[trigger] t[a].path@ == q;
                            let a2 = if a < i { a } else { a + 1 };
                            assert(s[a2].path@ == q);
                            assert(a2 != i);
                        }
                        if target.contains_key(q) {
                            let a = choose|a: int| 0 <= a < s.len() && #[trigger] s[a].path@ == q;
                            assert(a != i);
                            if a < i {
                                assert(t[a].path@ == q);
                            } else {
                                assert(t[a - 1].path@ == q);
                            }
                        }
                    }
                    assert forall|q: Seq<char>| tokens_map(t).contains_key(q) implies #[trigger] tokens_map(t)[q] == target[q] by {
                        let a = choose|a: int| 0 <= a < t.len() && #[trigger] t[a].path@ == q;
                        let a2 = if a < i { a } else { a + 1 };
                        lemma_tokens_entry(t, a);
                        lemma_tokens_entry(s, a2);
                    }
                    assert(tokens_map(t) =~= target);
                }
            },
        }
    }

    /// Records that the next event on `p`, up to time `deadline`, should show
    /// `expect`, replacing an earlier token of `p`.
    pub fn record(&mut self, p: String, expect: Option<String>, deadline: u64)
        requires
            old(self).wf(),
        ensures
            final(self).wf(),
            final(self)@ == old(self)@.insert(p@, TokenView { state: expect_view(expect), deadline }),
    {
        self.forget(p.as_str());
        let ghost s = self.tokens@;
        let tok = CancelToken { path: p, expect, deadline };
        self.tokens.push(tok);
        proof {
            let t = self.tokens@;
            assert(forall|a: int| 0 <= a < s.len() ==> #[trigger] t[a] == s[a]);
            assert(!tokens_map(s).contains_key(tok.path@));
            assert(tokens_unique(t));
            let target = tokens_map(s).insert(tok.path@, tok@);
            assert forall|q: Seq<char>| #[trigger] tokens_map(t).contains_key(q) <==> target.contains_key(q) by {
                if tokens_map(s).contains_key(q) {
                    let a = choose|a: int| 0 <= a < s.len() && #[trigger] s[a].path@ == q;
                    assert(t[a].path@ == q);
                }
                if q == tok.path@ {
                    assert(t[s.len() as int].path@ == q);
                }
            }
            assert forall|q: Seq<char>| tokens_map(t).contains_key(q) implies #[trigger] tokens_map(t)[q] == target[q] by {
                let a = choose|a: int| 0 <= a < t.len() && #[trigger] t[a].path@ == q;
                lemma_tokens_entry(t, a);
                if a < s.len() {
                    lemma_tokens_entry(s, a);
                }
            }
            assert(tokens_map(t) =~= target);
        }
    }

    /// Consumes the token of `p`: true when, at time `now`, it has not expired
    /// and the observed state is the expected one, so the event is an echo. A
    /// token that does not match is stale and is dropped as well.
    pub fn take_if_matches(&mut self, p: &str, observed: &Option<String>, now: u64) -> (r: bool)
        requires
            old(self).wf(),
        ensures
            final(self).wf(),
            r == token_matches(old(self)@, p@, expect_view(*observed), now),
            final(self)@ == old(self)@.remove(p@),
    {
        let hit = match self.position(p) {
            Some(i) => {
                proof { lemma_tokens_entry(self.tokens@, i as int); }
                now <= self.tokens[i].deadline && same_expect(&self.tokens[i].expect, observed)
            },
            None => false,
        };
        self.forget(p);
        hit
    }

    /// Drops the tokens whose deadline is before `now`.
    pub fn evict_expired(&mut self, now: u64)
        requires
            old(self).wf(),
        ensures
            final(self).wf(),
            final(self)@ == Map::new(
                |q: Seq<char>| old(self)@.contains_key(q) && now <= old(self)@[q].deadline,
                |q: Seq<char>| old(self)@[q],
            ),
    {
        let ghost s = self.tokens@;
        let mut kept: Vec<CancelToken> = Vec::new();
        let ghost mut src: Seq<int> = Seq::empty();
        let mut k: usize = 0;
        while k < self.tokens.len()
            invariant
                self.tokens@ == s,
                tokens_unique(s),
                k <= s.len(),
                src.len() == kept@.len(),
                forall|a: int| 0 <= a < src.len() ==> 0 <= #[trigger] src[a] < k,
                forall|a: int, b: int| 0 <= a < b < src.len() ==> #[trigger] src[a] < #[trigger] src[b],
                forall|a: int| 0 <= a < src.len() ==> (#[trigger] kept@[a])@ == s[src[a]]@ && kept@[a].path@
                    == s[src[a]].path@ && now <= s[src[a]].deadline,
                forall|j: int| 0 <= j < k && now <= #[trigger] s[j].deadline ==> exists|a: int|
                    0 <= a < src.len() && src[a] == j,
            decreases s.len() - k,
        {
            if now <= self.tokens[k].deadline {
                let t = &self.tokens[k];
                kept.push(CancelToken { path: t.path.clone(), expect: copy_expect(&t.expect), deadline: t.deadline });
                proof {
                    let old_src = src;
                    src = src.push(k as int);
                    assert forall|j: int| 0 <= j < k + 1 && now <= #[trigger] s[j].deadline implies exists|a: int|
                        0 <= a < src.len() && src[a] == j by {
                        if j < k {
                            let a = choose|a: int| 0 <= a < old_src.len() && old_src[a] == j;
                            assert(src[a] == j);
                        } else {
                            assert(src[src.len() - 1] == j);
                        }
                    }
                }
            }
            k = k + 1;
        }
        proof {
            let t = kept@;
            assert(tokens_unique(t)) by {
                assert forall|a: int, b: int| 0 <= a < t.len() && 0 <= b < t.len() && a != b implies
                    #[trigger] t[a].path@ != #[trigger] t[b].path@ by {
                    if a < b {
                        assert(src[a] < src[b]);
                    } else {
                        assert(src[b] < src[a]);
                    }
                }
            }
            let target = Map::new(
                |q: Seq<char>| tokens_map(s).contains_key(q) && now <= tokens_map(s)[q].deadline,
                |q: Seq<char>| tokens_map(s)[q],
            );
            assert forall|q: Seq<char>| #[trigger] tokens_map(t).contains_key(q) <==> target.contains_key(q) by {
                if tokens_map(t).contains_key(q) {
                    let a = choose|a: int| 0 <= a < t.len() && #[trigger] t[a].path@ == q;
                    assert(s[src[a]].path@ == q);
                    lemma_tokens_entry(s, src[a]);
                }
                if target.contains_key(q) {
                    let j = choose|j: int| 0 <= j < s.len() && #[trigger] s[j].path@ == q;
                    lemma_tokens_entry(s, j);
                    let a = choose|a: int| 0 <= a < src.len() && src[a] == j;
                    assert(t[a].path@ == q);
                }
            }
            assert forall|q: Seq<char>| tokens_map(t).contains_key(q) implies #[trigger] tokens_map(t)[q] == target[q] by {
                let a = choose|a: int| 0 <= a < t.len() && #[trigger] t[a].path@ == q;
                lemma_tokens_entry(t, a);
                lemma_tokens_entry(s, src[a]);
            }
            assert(tokens_map(t) =~= target);
        }
        self.tokens = kept;
    }

    /// Drops every token.
    pub fn clear(&mut self)
        ensures
            final(self).wf(),
            final(self)@ == Map::<Seq<char>, TokenView>::empty(),
    {
        *self = CancelMap::new();
    }
}

pub fn copy_expect(o: &Option<String>) -> (r: Option<String>)
    ensures
        expect_view(r) == expect_view(*o),
{
    match o {
        Some(s) => Some(s.clone()),
        None => None,
    }
}

/// The suppressions of both directions.
pub struct CancelRegistry {
    /// Echoes of remote-to-local applications, keyed by local path.
    pub nc2l: CancelMap,
    /// Echoes of local-to-remote pushes, keyed by remote path.
    pub l2nc: CancelMap,
}

impl CancelRegistry {
    pub open spec fn wf(&self) -> bool {
        self.nc2l.wf() && self.l2nc.wf()
    }

    pub fn new() -> (r: CancelRegistry)
        ensures
            r.wf(),
            r.nc2l@ == Map::<Seq<char>, TokenView>::empty(),
            r.l2nc@ == Map::<Seq<char>, TokenView>::empty(),
    {
        CancelRegistry { nc2l: CancelMap::new(), l2nc: CancelMap::new() }
    }

    /// Drops the expired tokens of both directions.
    pub fn evict_expired(&mut self, now: u64)
        requires
            old(self).wf(),
        ensures
            final(self).wf(),
            final(self).nc2l@ == Map::new(
                |q: Seq<char>| old(self).nc2l@.contains_key(q) && now <= old(self).nc2l@[q].deadline,
                |q: Seq<char>| old(self).nc2l@[q],
            ),
            final(self).l2nc@ == Map::new(
                |q: Seq<char>| old(self).l2nc@.contains_key(q) && now <= old(self).l2nc@[q].deadline,
                |q: Seq<char>| old(self).l2nc@[q],
            ),
    {
        self.nc2l.evict_expired(now);
        self.l2nc.evict_expired(now);
    }

    /// Forgets every suppression, as on a loss of the network.
    pub fn clear(&mut self)
        ensures
            final(self).wf(),
            final(self).nc2l@ == Map::<Seq<char>, TokenView>::empty(),
            final(self).l2nc@ == Map::<Seq<char>, TokenView>::empty(),
    {
        self.nc2l.clear();
        self.l2nc.clear();
    }
}

} // verus!
