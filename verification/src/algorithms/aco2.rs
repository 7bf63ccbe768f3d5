//! Building a path choice by choice, as the ants of an ant colony do.
//!
//! How much each choice weighs is a matter of real numbers, which the caller
//! keeps. What is here is the part that does not depend on them: which
//! choices are open at each step, where a draw falls among running sums,
//! and that the path built visits every node once.

use crate::rng::{Script, UniformRng, UNIT};
use crate::search_space::{Bitstring, SearchSpace};
use vstd::prelude::*;

verus! {

/// The number of `false` items: the nodes not yet visited.
pub open spec fn free_count(visited: Seq<bool>) -> nat
    decreases visited.len(),
{
    if visited.len() == 0 {
        0
    } else {
        free_count(visited.drop_last()) + if visited.last() {
            0nat
        } else {
            1nat
        }
    }
}

/// Where some node is free, there is a free node.
pub proof fn lemma_free_exists(visited: Seq<bool>)
    requires
        free_count(visited) > 0,
    ensures
        exists|i: int| 0 <= i < visited.len() && !#[trigger] visited[i],
    decreases visited.len(),
{
    if visited.len() > 0 {
        if visited.last() {
            lemma_free_exists(visited.drop_last());
            let i = choose|i: int| 0 <= i < visited.drop_last().len() && !#[trigger] visited.drop_last()[i];
            assert(!visited[i]);
        } else {
            assert(!visited[visited.len() - 1]);
        }
    }
}

/// Visiting a free node leaves one free node less.
pub proof fn lemma_free_visit(visited: Seq<bool>, i: int)
    requires
        0 <= i < visited.len(),
        !visited[i],
    ensures
        free_count(visited.update(i, true)) == free_count(visited) - 1,
    decreases visited.len(),
{
    let after = visited.update(i, true);
    if i == visited.len() - 1 {
        assert(after.drop_last() =~= visited.drop_last());
    } else {
        lemma_free_visit(visited.drop_last(), i);
        assert(after.drop_last() =~= visited.drop_last().update(i, true));
    }
}

/// With no node visited, every node is free.
pub proof fn lemma_free_all(visited: Seq<bool>)
    requires
        forall|i: int| 0 <= i < visited.len() ==> !#[trigger] visited[i],
    ensures
        free_count(visited) == visited.len(),
    decreases visited.len(),
{
    if visited.len() > 0 {
        let front = visited.drop_last();
        assert forall|i: int| 0 <= i < front.len() implies !#[trigger] front[i] by {
            assert(front[i] == visited[i]);
        }
        lemma_free_all(front);
        assert(!visited[visited.len() - 1]);
    }
}

/// `candidates` lists, in rising order, the nodes below `n` that `path`
/// does not hold.
pub open spec fn is_candidates(candidates: Seq<usize>, path: Seq<usize>, n: nat) -> bool {
    &&& forall|i: int, j: int| 0 <= i < j < candidates.len() ==> candidates[i] < candidates[j]
    &&& forall|i: int|
        0 <= i < candidates.len() ==> (#[trigger] candidates[i]) < n && !path.contains(
            candidates[i],
        )
    &&& forall|c: usize| c < n && !path.contains(c) ==> #[trigger] candidates.contains(c)
}

/// The position taken among `count` candidates for the answer `k`: `k`
/// itself, or the last one where `k` is past the end.
pub open spec fn clamped(k: usize, count: nat) -> int {
    if k < count {
        k as int
    } else {
        count - 1
    }
}

/// `next` is the node that the chooser picked after `path`: asked with the
/// last node of `path`, the candidates then open and the draw, it gave the
/// position of `next` among them.
pub open spec fn step_guided<C: Fn(usize, &Vec<usize>, u64) -> usize>(
    chooser: C,
    path: Seq<usize>,
    n: nat,
    draw: u64,
    next: usize,
) -> bool {
    exists|candidates: Vec<usize>, k: usize| #[trigger]
        call_ensures(chooser, (path.last(), &candidates, draw), k) && is_candidates(
            candidates@,
            path,
            n,
        ) && candidates@.len() > 0 && next == candidates@[clamped(k, candidates@.len())]
}

/// Each node of `tour` but the first is the one that the chooser picked
/// after the nodes before it, with the draw of that step.
pub open spec fn guided<C: Fn(usize, &Vec<usize>, u64) -> usize>(
    chooser: C,
    tour: Seq<usize>,
    n: nat,
    draws: Seq<u64>,
) -> bool {
    &&& draws.len() == tour.len() - 1
    &&& forall|i: int| 0 <= i < draws.len() ==> (#[trigger] draws[i]) < UNIT
    &&& forall|i: int|
        0 <= i < tour.len() - 1 ==> step_guided(
            chooser,
            #[trigger] tour.take(i + 1),
            n,
            draws[i],
            tour[i + 1],
        )
}

/// A scripted source holds the `count` draws from the unit interval that a
/// construction reads.
pub open spec fn units_ready(script: Script, count: int) -> bool {
    &&& script.units.len() >= count
    &&& forall|i: int| 0 <= i < count ==> (#[trigger] script.units[i]) < UNIT
}

/// Builds paths from running sums of weights.
pub struct PartialSumConstructor {}

impl PartialSumConstructor {
    /// Where a draw falls among `count` running sums. `below(i)` says
    /// whether the `i`-th running sum, as a share of the total, is below
    /// the draw. The result is the first position whose sum is not below
    /// it; the last position where every sum before it is.
    pub fn locate<B: Fn(usize) -> bool>(&self, count: usize, below: B) -> (k: usize)
        requires
            count > 0,
            forall|i: usize| i < count ==> call_requires(below, (i,)),
        ensures
            k < count,
            forall|i: usize| i < k ==> call_ensures(below, (i,), true),
            k < count - 1 ==> call_ensures(below, (k,), false),
    {
        let mut k: usize = 0;
        while k < count - 1
            invariant
                count > 0,
                k <= count - 1,
                forall|i: usize| i < count ==> call_requires(below, (i,)),
                forall|i: usize| i < k ==> call_ensures(below, (i,), true),
            decreases count - 1 - k,
        {
            if !below(k) {
                return k;
            }
            k += 1;
        }
        k
    }

    /// A path through all `size` nodes that starts at `start`. At each
    /// step a number is drawn from the unit interval, and the chooser is
    /// asked with the node reached, the nodes not yet visited, in rising
    /// order, and the draw. It answers with a position among the nodes not
    /// yet visited; an answer past the end counts as the last position.
    pub fn construct<R: UniformRng, C: Fn(usize, &Vec<usize>, u64) -> usize>(
        &self,
        size: usize,
        start: usize,
        rng: &mut R,
        chooser: &C,
    ) -> (path: Vec<usize>)
        requires
            start < size,
            forall|current: usize, candidates: &Vec<usize>, draw: u64|
                candidates@.len() > 0 && draw < UNIT ==> call_requires(
                    *chooser,
                    (current, candidates, draw),
                ),
            old(rng).script() matches Some(s) ==> units_ready(s, size - 1),
        ensures
            crate::search_space::is_permutation(path@),
            path@.len() == size,
            path@[0] == start,
            exists|draws: Seq<u64>| #[trigger]
                guided(*chooser, path@, size as nat, draws) && (old(rng).script() matches Some(s)
                    ==> draws == s.units.take(size - 1)),
            match old(rng).script() {
                Some(s) => final(rng).script() == Some(s.skip_units(size - 1)),
                None => final(rng).script() is None,
            },
    {
        let ghost before = rng.script();
        let mut visited: Vec<bool> = Vec::new();
        let mut i: usize = 0;
        while i < size
            invariant
                i <= size,
                visited@.len() == i,
                forall|k: int| 0 <= k < i ==> !#[trigger] visited@[k],
            decreases size - i,
        {
            visited.push(false);
            i += 1;
        }
        proof {
            lemma_free_all(visited@);
            lemma_free_visit(visited@, start as int);
        }
        visited.set(start, true);
        let mut path: Vec<usize> = Vec::new();
        path.push(start);
        let mut current = start;
        let ghost mut draws: Seq<u64> = Seq::empty();
        proof {
            assert forall|c: usize| c < size implies (visited@[c as int] <==> path@.contains(c)) by {
                if c == start {
                    assert(path@[0] == c);
                }
            }
            if let Some(s) = before {
                assert(s.units.skip(0) =~= s.units);
                assert(draws =~= s.units.take(0));
            }
        }
        while path.len() < size
            invariant
                1 <= path@.len() <= size,
                visited@.len() == size,
                path@[0] == start,
                current == path@.last(),
                forall|current: usize, candidates: &Vec<usize>, draw: u64|
                    candidates@.len() > 0 && draw < UNIT ==> call_requires(
                        *chooser,
                        (current, candidates, draw),
                    ),
                forall|c: usize| c < size ==> (#[trigger] visited@[c as int] <==> path@.contains(c)),
                forall|k: int| 0 <= k < path@.len() ==> (#[trigger] path@[k]) < size,
                forall|a: int, b: int| 0 <= a < b < path@.len() ==> path@[a] != path@[b],
                free_count(visited@) == size - path@.len(),
                guided(*chooser, path@, size as nat, draws),
                match before {
                    Some(s) => units_ready(s, size - 1) && draws == s.units.take(path@.len() - 1)
                        && rng.script() == Some(s.skip_units(path@.len() - 1)),
                    None => rng.script() is None,
                },
            decreases size - path@.len(),
        {
            let mut candidates: Vec<usize> = Vec::new();
            let mut c: usize = 0;
            while c < size
                invariant
                    c <= size,
                    visited@.len() == size,
                    forall|a: int, b: int|
                        0 <= a < b < candidates@.len() ==> candidates@[a] < candidates@[b],
                    forall|a: int|
                        0 <= a < candidates@.len() ==> (#[trigger] candidates@[a]) < c
                            && !visited@[candidates@[a] as int],
                    forall|e: usize|
                        e < c && !visited@[e as int] ==> #[trigger] candidates@.contains(e),
                decreases size - c,
            {
                if !visited[c] {
                    let ghost before = candidates@;
                    candidates.push(c);
                    proof {
                        assert forall|e: usize| e < c + 1 && !visited@[e as int] implies #[trigger]
                            candidates@.contains(e) by {
                            if e < c {
                                assert(before.contains(e));
                                let at = choose|at: int| 0 <= at < before.len() && before[at] == e;
                                assert(candidates@[at] == e);
                            } else {
                                assert(candidates@[candidates@.len() - 1] == e);
                            }
                        }
                    }
                }
                c += 1;
            }
            proof {
                lemma_free_exists(visited@);
                let free = choose|i: int| 0 <= i < visited@.len() && !#[trigger] visited@[i];
                assert(candidates@.contains(free as usize));
                assert(is_candidates(candidates@, path@, size as nat));
                if let Some(s) = before {
                    let at = path@.len() - 1;
                    assert(s.skip_units(at).units[0] == s.units[at]);
                }
            }
            let draw = rng.random_unit();
            let k = chooser(current, &candidates, draw);
            let next = if k < candidates.len() {
                candidates[k]
            } else {
                candidates[candidates.len() - 1]
            };
            let ghost walked = path@;
            let ghost drawn = draws;
            proof {
                assert(next == candidates@[clamped(k, candidates@.len())]);
                assert(!visited@[next as int]);
                lemma_free_visit(visited@, next as int);
                assert(step_guided(*chooser, walked, size as nat, draw, next));
            }
            visited.set(next, true);
            path.push(next);
            current = next;
            proof {
                draws = draws.push(draw);
                assert forall|e: usize| e < size implies (#[trigger] visited@[e as int]
                    <==> path@.contains(e)) by {
                    if e == next {
                        assert(path@[path@.len() - 1] == e);
                    } else {
                        if walked.contains(e) {
                            let at = choose|at: int| 0 <= at < walked.len() && walked[at] == e;
                            assert(path@[at] == e);
                        }
                        if path@.contains(e) {
                            let at = choose|at: int| 0 <= at < path@.len() && path@[at] == e;
                            assert(walked[at] == e);
                        }
                    }
                }
                assert forall|a: int, b: int| 0 <= a < b < path@.len() implies path@[a]
                    != path@[b] by {
                    if b == path@.len() - 1 {
                        assert(walked[a] == path@[a]);
                        if path@[a] == next {
                            assert(walked.contains(next));
                        }
                    }
                }
                assert forall|i: int| 0 <= i < path@.len() - 1 implies step_guided(
                    *chooser,
                    #[trigger] path@.take(i + 1),
                    size as nat,
                    draws[i],
                    path@[i + 1],
                ) by {
                    if i < walked.len() - 1 {
                        assert(path@.take(i + 1) =~= walked.take(i + 1));
                        assert(draws[i] == drawn[i]);
                        assert(step_guided(
                            *chooser,
                            walked.take(i + 1),
                            size as nat,
                            drawn[i],
                            walked[i + 1],
                        ));
                    } else {
                        assert(path@.take(i + 1) =~= walked);
                    }
                }
                assert forall|i: int| 0 <= i < draws.len() implies (#[trigger] draws[i]) < UNIT by {
                    if i < drawn.len() {
                        assert(draws[i] == drawn[i]);
                    }
                }
                if let Some(s) = before {
                    let at = walked.len() - 1;
                    assert(draws =~= s.units.take(at + 1));
                    assert(s.units.skip(at).skip(1) =~= s.units.skip(at + 1));
                    assert(s.skip_units(at).skip_units(1) == s.skip_units(at + 1));
                }
            }
        }
        proof {
            assert(guided(*chooser, path@, size as nat, draws));
        }
        path
    }
}

/// Turns a path of choices into a candidate.
pub trait Translator<S: SearchSpace> {
    /// The value of the candidate that the path stands for.
    spec fn translated(&self, path: Seq<usize>) -> S::V;

    fn translate(&self, path: &Vec<usize>) -> (made: S)
        ensures
            made@ == self.translated(path@),
    ;
}

/// Reads a path of zeros and ones as a bit string: the choice 1 is the bit
/// that is set.
pub struct Temp {}

impl Translator<Bitstring> for Temp {
    open spec fn translated(&self, path: Seq<usize>) -> Seq<bool> {
        Seq::new(path.len(), |i: int| path[i] == 1)
    }

    fn translate(&self, path: &Vec<usize>) -> (made: Bitstring) {
        let mut translated: Vec<bool> = Vec::with_capacity(path.len());
        let mut i: usize = 0;
        while i < path.len()
            invariant
                i <= path@.len(),
                translated@.len() == i,
                forall|k: int| 0 <= k < i ==> (#[trigger] translated@[k]) == (path@[k] == 1),
            decreases path.len() - i,
        {
            translated.push(path[i] == 1);
            i += 1;
        }
        let made = Bitstring::new(translated);
        proof {
            assert(made@ =~= self.translated(path@));
        }
        made
    }
}

} // verus!
