//! The user's exclude list: one glob pattern per line, `#` starts a comment
//! line, empty lines are skipped. A path that any pattern matches takes no
//! part in synchronisation, in either direction.

use vstd::prelude::*;
use vstd::string::*;

verus! {

/// What the glob crate decides for a pattern and a text: `None` where the
/// pattern does not compile, else whether the text matches.
pub uninterp spec fn glob_match(pattern: Seq<char>, text: Seq<char>) -> Option<bool>;

/// Relies on `glob::Pattern::new` (compiles a pattern, or fails) and
/// `glob::Pattern::matches` (default options), which depend on their two
/// strings alone.
#[verifier::external_body]
fn glob_matches(pattern: &str, text: &str) -> (r: Option<bool>)
    ensures
        r == glob_match(pattern@, text@),
{
    match glob::Pattern::new(pattern) {
        Ok(p) => Some(p.matches(text)),
        Err(_) => None,
    }
}

pub open spec fn newline_from(s: Seq<char>, i: int) -> int
    decreases s.len() - i,
{
    if i < 0 || i >= s.len() {
        s.len() as int
    } else if s[i] == '\n' {
        i
    } else {
        newline_from(s, i + 1)
    }
}

/// The lines of a text; a final newline ends the last line.
pub open spec fn split_lines(s: Seq<char>) -> Seq<Seq<char>>
    decreases s.len(),
{
    if s.len() == 0 {
        seq![]
    } else {
        let k = newline_from(s, 0);
        if k < 0 || k >= s.len() {
            seq![s]
        } else {
            seq![s.take(k)] + split_lines(s.skip(k + 1))
        }
    }
}

pub open spec fn strip_cr(l: Seq<char>) -> Seq<char> {
    if l.len() > 0 && l.last() == '\r' {
        l.drop_last()
    } else {
        l
    }
}

/// The pattern that a line holds, if it is neither empty nor a comment.
pub open spec fn line_pattern(l: Seq<char>) -> Option<Seq<char>> {
    let t = strip_cr(l);
    if t.len() == 0 || t[0] == '#' {
        None
    } else {
        Some(t)
    }
}

pub open spec fn patterns_of(lines: Seq<Seq<char>>) -> Seq<Seq<char>>
    decreases lines.len(),
{
    if lines.len() == 0 {
        seq![]
    } else {
        match line_pattern(lines[0]) {
            Some(p) => seq![p] + patterns_of(lines.drop_first()),
            None => patterns_of(lines.drop_first()),
        }
    }
}

proof fn lemma_newline_from(s: Seq<char>, i: int)
    requires
        0 <= i <= s.len(),
    ensures
        i <= newline_from(s, i) <= s.len(),
        newline_from(s, i) < s.len() ==> s[newline_from(s, i)] == '\n',
    decreases s.len() - i,
{
    if i < s.len() && s[i] != '\n' {
        lemma_newline_from(s, i + 1);
    }
}

pub struct ExcludeList {
    pub patterns: Vec<String>,
}

impl ExcludeList {
    pub open spec fn view(&self) -> Seq<Seq<char>> {
        self.patterns@.map_values(|p: String| p@)
    }

    /// Whether some pattern of the list matches `p`.
    pub open spec fn excludes(&self, p: Seq<char>) -> bool {
        exists|i: int| 0 <= i < self@.len() && glob_match(#[trigger] self@[i], p) == Some(true)
    }

    /// An empty list, which excludes nothing.
    pub fn new() -> (r: ExcludeList)
        ensures
            r@.len() == 0,
    {
        ExcludeList { patterns: Vec::new() }
    }

    /// Reads the list from the text of the exclude file.
    pub fn parse(text: &str) -> (r: ExcludeList)
        ensures
            r@ == patterns_of(split_lines(text@)),
    {
        let s = text;
        let n = s.unicode_len();
        let mut pats: Vec<String> = Vec::new();
        let mut pos: usize = 0;
        assert(s@.skip(0) =~= s@);
        assert(pats@.map_values(|p: String| p@) + patterns_of(split_lines(s@)) =~= patterns_of(split_lines(s@)));
        while pos < n
            invariant
                n == s@.len(),
                pos <= n,
                patterns_of(split_lines(s@)) == pats@.map_values(|p: String| p@) + patterns_of(
                    split_lines(s@.skip(pos as int)),
                ),
            decreases n - pos,
        {
            let ghost t = s@.skip(pos as int);
            let mut k: usize = pos;
            while k < n && s.get_char(k) != '\n'
                invariant
                    n == s@.len(),
                    pos <= k <= n,
                    t == s@.skip(pos as int),
                    newline_from(t, 0) == newline_from(t, k - pos),
                decreases n - k,
            {
                assert(t[k - pos] == s@[k as int]);
                k = k + 1;
            }
            proof {
                lemma_newline_from(t, 0);
                if k < n {
                    assert(t[k - pos] == s@[k as int]);
                }
                assert(newline_from(t, 0) == k - pos);
            }
            let mut e: usize = k;
            if e > pos && s.get_char(e - 1) == '\r' {
                e = e - 1;
            }
            let line = s.substring_char(pos, e);
            let ghost whole = s@.subrange(pos as int, k as int);
            proof {
                assert(line@ == strip_cr(whole)) by {
                    if e < k {
                        assert(whole.last() == s@[k - 1]);
                        assert(whole.drop_last() =~= line@);
                    } else {
                        assert(whole =~= line@);
                    }
                }
            }
            let keep = line.unicode_len() > 0 && line.get_char(0) != '#';
            let ghost before = pats@.map_values(|p: String| p@);
            if keep {
                pats.push(line.to_owned());
            }
            let next = if k < n { k + 1 } else { n };
            proof {
                let rest = s@.skip(next as int);
                assert(t.len() > 0);
                if k < n {
                    assert(t.take(k - pos) =~= whole);
                    assert(t.skip(k - pos + 1) =~= rest);
                    assert(split_lines(t) == seq![whole] + split_lines(rest));
                } else {
                    assert(t =~= whole);
                    assert(rest.len() == 0);
                    assert(split_lines(t) == seq![whole] + split_lines(rest));
                }
                let ls = seq![whole] + split_lines(rest);
                assert(ls.drop_first() =~= split_lines(rest));
                assert(ls[0] == whole);
                if keep {
                    assert(pats@.map_values(|p: String| p@) =~= before.push(line@));
                    assert(patterns_of(ls) == seq![line@] + patterns_of(split_lines(rest)));
                    assert(before + patterns_of(ls) =~= before.push(line@) + patterns_of(split_lines(rest)));
                } else {
                    assert(pats@.map_values(|p: String| p@) =~= before);
                }
            }
            pos = next;
        }
        assert(s@.skip(n as int).len() == 0);
        assert(pats@.map_values(|p: String| p@) + Seq::<Seq<char>>::empty() =~= pats@.map_values(|p: String| p@));
        ExcludeList { patterns: pats }
    }

    /// Whether `p` is excluded from synchronisation.
    pub fn is_excluded(&self, p: &str) -> (r: bool)
        ensures
            r == self.excludes(p@),
    {
        let mut i: usize = 0;
        while i < self.patterns.len()
            invariant
                i <= self.patterns@.len(),
                forall|j: int| 0 <= j < i ==> glob_match(#[trigger] self@[j], p@) != Some(true),
            decreases self.patterns@.len() - i,
        {
            if glob_matches(self.patterns[i].as_str(), p) == Some(true) {
                assert(self@[i as int] == self.patterns@[i as int]@);
                return true;
            }
            i = i + 1;
        }
        false
    }
}

} // verus!
