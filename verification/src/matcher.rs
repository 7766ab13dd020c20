//! The substructure pattern-matching boundary.
//!
//! Evaluating a substructure pattern (a SMARTS-like expression) against a
//! molecule is the job of an external chemistry service; this engine never
//! interprets pattern text itself.  [`PatternMatcher`] is the narrow,
//! synchronous contract that such a service must satisfy: for a molecule and
//! a pattern it returns the list of matching atom-index tuples — empty, never
//! an error, when nothing matches — as a deterministic function of the
//! matcher, the molecule and the pattern text, with every returned index a
//! valid atom position.
//!
//! [`TableMatcher`] is a small matcher backed by a fixed pattern table,
//! enough to drive the engine in tests and wherever the match sets are known
//! up front.

use vstd::prelude::*;

use crate::topology::molecule::{copy_indices, Molecule};

verus! {

/// The views of a list of atom-index tuples.
pub open spec fn tuple_views(s: Seq<Vec<usize>>) -> Seq<Seq<usize>> {
    s.map_values(|v: Vec<usize>| v@)
}

/// Every index of the tuple is a valid atom position among `n` atoms.
pub open spec fn valid_tuple(t: Seq<usize>, n: int) -> bool {
    forall|k: int| 0 <= k < t.len() ==> (#[trigger] t[k]) < n
}

/// Every index of every tuple is a valid atom position among `n` atoms.
pub open spec fn matches_valid(ms: Seq<Seq<usize>>, n: int) -> bool {
    forall|t: int| 0 <= t < ms.len() ==> valid_tuple(#[trigger] ms[t], n)
}

/// A substructure pattern-matching service.
///
/// Chemical correctness of the matches is the service's own responsibility;
/// what the engine relies on, and what every implementation must guarantee,
/// is that the answer is a function of the matcher state, the molecule and
/// the pattern text alone (so repeated queries agree), that an empty answer —
/// not an error — reports "no match", and that every returned index is a
/// valid atom position of the queried molecule.
pub trait PatternMatcher: Sized {
    /// The atom-index tuples, in a fixed order, that `pattern` selects in
    /// `molecule` according to this matcher.  A verified implementation
    /// overrides this with its actual match function; the default models a
    /// matcher that matches nothing, so an implementation that keeps it must
    /// answer every query with the empty list.
    open spec fn pattern_matches(&self, molecule: Molecule, pattern: Seq<char>) -> Seq<
        Seq<usize>,
    > {
        Seq::empty()
    }

    /// Evaluate `pattern` against `molecule`.
    fn match_pattern(&self, molecule: &Molecule, pattern: &String) -> (r: Vec<Vec<usize>>)
        ensures
            tuple_views(r@) == self.pattern_matches(*molecule, pattern@),
            matches_valid(tuple_views(r@), molecule.atoms@.len() as int),
    ;
}

/// The tuples of the first table entry whose pattern text equals `pattern`,
/// scanning from entry `i`; empty if no entry matches.
pub open spec fn table_lookup_from(
    entries: Seq<(String, Vec<Vec<usize>>)>,
    pattern: Seq<char>,
    i: int,
) -> Seq<Seq<usize>>
    decreases entries.len() - i,
{
    if i < 0 || i >= entries.len() {
        Seq::empty()
    } else if entries[i].0@ == pattern {
        tuple_views(entries[i].1@)
    } else {
        table_lookup_from(entries, pattern, i + 1)
    }
}

/// The tuples that a [`TableMatcher`] with the given table answers for
/// `pattern`: the first matching entry's tuples, restricted to those whose
/// indices are valid for a molecule with `n` atoms.
pub open spec fn table_matches(
    entries: Seq<(String, Vec<Vec<usize>>)>,
    pattern: Seq<char>,
    n: int,
) -> Seq<Seq<usize>> {
    restrict_valid(table_lookup_from(entries, pattern, 0), n)
}

/// The subsequence of `ms` made of the tuples valid for `n` atoms.
pub open spec fn restrict_valid(ms: Seq<Seq<usize>>, n: int) -> Seq<Seq<usize>>
    decreases ms.len(),
{
    if ms.len() == 0 {
        Seq::empty()
    } else {
        let rest = restrict_valid(ms.drop_last(), n);
        if valid_tuple(ms.last(), n) {
            rest.push(ms.last())
        } else {
            rest
        }
    }
}

proof fn lemma_restrict_valid_is_valid(ms: Seq<Seq<usize>>, n: int)
    ensures
        matches_valid(restrict_valid(ms, n), n),
    decreases ms.len(),
{
    if ms.len() > 0 {
        lemma_restrict_valid_is_valid(ms.drop_last(), n);
    }
}

/// A matcher answering from a fixed table of (pattern text, tuple list)
/// entries; the first entry with the queried pattern text answers, and
/// tuples with out-of-range indices are dropped.
pub struct TableMatcher {
    pub entries: Vec<(String, Vec<Vec<usize>>)>,
}

impl TableMatcher {
    pub fn new(entries: Vec<(String, Vec<Vec<usize>>)>) -> (r: Self)
        ensures
            r.entries == entries,
    {
        Self { entries }
    }
}

fn tuple_is_valid(t: &Vec<usize>, n: usize) -> (r: bool)
    ensures
        r == valid_tuple(t@, n as int),
{
    let mut k: usize = 0;
    while k < t.len()
        invariant
            k <= t@.len(),
            forall|l: int| 0 <= l < k ==> (#[trigger] t@[l]) < n,
        decreases t@.len() - k,
    {
        if t[k] >= n {
            return false;
        }
        k = k + 1;
    }
    true
}

fn restrict_tuples(ts: &Vec<Vec<usize>>, n: usize) -> (r: Vec<Vec<usize>>)
    ensures
        tuple_views(r@) == restrict_valid(tuple_views(ts@), n as int),
{
    let mut r: Vec<Vec<usize>> = Vec::new();
    let mut i: usize = 0;
    proof {
        assert(tuple_views(ts@).take(0) =~= Seq::<Seq<usize>>::empty());
        assert(tuple_views(r@) =~= restrict_valid(tuple_views(ts@).take(0), n as int));
    }
    while i < ts.len()
        invariant
            i <= ts@.len(),
            tuple_views(r@) == restrict_valid(tuple_views(ts@).take(i as int), n as int),
        decreases ts@.len() - i,
    {
        let ghost pre = tuple_views(ts@).take(i as int);
        let ghost cur = tuple_views(ts@).take(i + 1);
        proof {
            assert(cur.drop_last() =~= pre);
            assert(cur.last() == tuple_views(ts@)[i as int]);
            assert(tuple_views(ts@)[i as int] == ts@[i as int]@);
        }
        if tuple_is_valid(&ts[i], n) {
            let c = copy_indices(&ts[i]);
            r.push(c);
            proof {
                assert(tuple_views(r@).drop_last() =~= restrict_valid(pre, n as int));
                assert(tuple_views(r@) =~= restrict_valid(cur, n as int));
            }
        }
        i = i + 1;
    }
    proof {
        assert(tuple_views(ts@).take(ts@.len() as int) =~= tuple_views(ts@));
    }
    r
}

impl PatternMatcher for TableMatcher {
    open spec fn pattern_matches(&self, molecule: Molecule, pattern: Seq<char>) -> Seq<
        Seq<usize>,
    > {
        table_matches(self.entries@, pattern, molecule.atoms@.len() as int)
    }

    fn match_pattern(&self, molecule: &Molecule, pattern: &String) -> (r: Vec<Vec<usize>>) {
        let n = molecule.atoms.len();
        let mut i: usize = 0;
        while i < self.entries.len()
            invariant
                i <= self.entries@.len(),
                n == molecule.atoms@.len(),
                table_lookup_from(self.entries@, pattern@, 0) == table_lookup_from(
                    self.entries@,
                    pattern@,
                    i as int,
                ),
            decreases self.entries@.len() - i,
        {
            if self.entries[i].0 == *pattern {
                let r = restrict_tuples(&self.entries[i].1, n);
                proof {
                    assert(self.entries@[i as int].0@ == pattern@);
                    assert(table_lookup_from(self.entries@, pattern@, i as int) == tuple_views(
                        self.entries@[i as int].1@,
                    ));
                    assert(tuple_views(r@) == restrict_valid(
                        table_lookup_from(self.entries@, pattern@, 0),
                        n as int,
                    ));
                    assert(tuple_views(r@) == table_matches(
                        self.entries@,
                        pattern@,
                        molecule.atoms@.len() as int,
                    ));
                    lemma_restrict_valid_is_valid(
                        tuple_views(self.entries@[i as int].1@),
                        n as int,
                    );
                    assert(matches_valid(tuple_views(r@), molecule.atoms@.len() as int));
                }
                return r;
            }
            proof {
                assert(table_lookup_from(self.entries@, pattern@, i as int) == table_lookup_from(
                    self.entries@,
                    pattern@,
                    i + 1,
                ));
            }
            i = i + 1;
        }
        proof {
            assert(tuple_views(Seq::<Vec<usize>>::empty()) =~= Seq::<Seq<usize>>::empty());
            assert(restrict_valid(Seq::<Seq<usize>>::empty(), n as int) =~= Seq::<
                Seq<usize>,
            >::empty());
        }
        Vec::new()
    }
}

} // verus!
