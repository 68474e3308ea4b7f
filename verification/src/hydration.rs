//! Bounded-concurrency hydration of search candidates.
//!
//! The engine resolves candidates first and then fetches each candidate's
//! tags and objects. Those per-candidate fetches are independent, so a
//! driver may run several at once; this module is the scheduler that
//! decides which fetch starts next. It admits candidates in order while
//! fewer than [`HYDRATION_LIMIT`] are in flight, writes each result back
//! into the slot of the candidate it was fetched for (so the final order
//! is the candidate order, whatever order fetches finish in), and fails
//! fast: after one reported failure no further task is handed out and the
//! whole run yields the error, never a partial result.
//!
//! A driver loop — sequential or overlapping its fetches — repeatedly asks
//! [`Hydrator::next_task`] for a slot, performs the two fetches for that
//! candidate, and hands the outcome back through [`Hydrator::complete`] or
//! [`Hydrator::report_failure`]; [`Hydrator::finish`] then assembles the
//! aggregates.

use vstd::prelude::*;
use vstd::pervasive::VecAdditionalExecFns;

use crate::data::{DbError, Item, ItemIncomplete, ItemObject, ItemView, Tag};

verus! {

/// The fixed bound on in-flight hydration fetches.
pub const HYDRATION_LIMIT: usize = 10;

/// How many of the first `n` result slots are filled.
pub open spec fn count_done(rs: Seq<Option<(Vec<Tag>, Vec<ItemObject>)>>, n: int) -> int
    decreases n,
{
    if n <= 0 {
        0
    } else {
        count_done(rs, n - 1) + if rs[n - 1] is Some {
            1int
        } else {
            0int
        }
    }
}

/// The count never exceeds the prefix length.
proof fn lemma_count_done_le(rs: Seq<Option<(Vec<Tag>, Vec<ItemObject>)>>, n: int)
    ensures
        0 <= count_done(rs, n) <= vstd::math::max(n, 0),
    decreases n,
{
    if n > 0 {
        lemma_count_done_le(rs, n - 1);
    }
}

/// A full count means every slot of the prefix is filled.
proof fn lemma_count_done_full(rs: Seq<Option<(Vec<Tag>, Vec<ItemObject>)>>, n: int)
    requires
        count_done(rs, n) == n,
        0 <= n <= rs.len(),
    ensures
        forall|k: int| 0 <= k < n ==> (#[trigger] rs[k]) is Some,
    decreases n,
{
    if n > 0 {
        lemma_count_done_le(rs, n - 1);
        lemma_count_done_full(rs, n - 1);
    }
}

/// An empty slot keeps the count strictly below the prefix length.
proof fn lemma_count_done_lt(rs: Seq<Option<(Vec<Tag>, Vec<ItemObject>)>>, n: int, idx: int)
    requires
        0 <= idx < n,
        rs[idx] is None,
    ensures
        count_done(rs, n) < n,
    decreases n,
{
    if idx == n - 1 {
        lemma_count_done_le(rs, n - 1);
    } else {
        lemma_count_done_lt(rs, n - 1, idx);
    }
}

/// Filling one empty slot of the prefix raises the count by one.
proof fn lemma_count_done_update(
    rs: Seq<Option<(Vec<Tag>, Vec<ItemObject>)>>,
    v: Option<(Vec<Tag>, Vec<ItemObject>)>,
    n: int,
    idx: int,
)
    requires
        0 <= idx < n <= rs.len(),
        rs[idx] is None,
        v is Some,
    ensures
        count_done(rs.update(idx, v), n) == count_done(rs, n) + 1,
    decreases n,
{
    if idx == n - 1 {
        assert forall|m: int| 0 <= m < n - 1 implies count_done(rs.update(idx, v), m) == count_done(
            rs,
            m,
        ) by {
            lemma_count_done_agree(rs.update(idx, v), rs, m);
        }
        assert(count_done(rs.update(idx, v), n - 1) == count_done(rs, n - 1)) by {
            lemma_count_done_agree(rs.update(idx, v), rs, n - 1);
        }
    } else {
        lemma_count_done_update(rs, v, n - 1, idx);
    }
}

/// Counting only looks at the prefix.
proof fn lemma_count_done_agree(
    rs1: Seq<Option<(Vec<Tag>, Vec<ItemObject>)>>,
    rs2: Seq<Option<(Vec<Tag>, Vec<ItemObject>)>>,
    n: int,
)
    requires
        forall|k: int| 0 <= k < n ==> rs1[k] == rs2[k],
    ensures
        count_done(rs1, n) == count_done(rs2, n),
    decreases n,
{
    if n > 0 {
        lemma_count_done_agree(rs1, rs2, n - 1);
    }
}

/// The hydration scheduler: candidates in admission order, one result
/// slot per candidate, the admission cursor, the completion count, and
/// the first reported failure.
pub struct Hydrator {
    pub candidates: Vec<ItemIncomplete>,
    pub results: Vec<Option<(Vec<Tag>, Vec<ItemObject>)>>,
    pub next: usize,
    pub done: usize,
    pub failed: Option<DbError>,
}

impl Hydrator {
    /// Scheduler well-formedness: one slot per candidate, admission in
    /// order, at most [`HYDRATION_LIMIT`] tasks in flight, and a
    /// completion count consistent with the slots.
    pub open spec fn inv(self) -> bool {
        &&& self.results@.len() == self.candidates@.len()
        &&& self.next <= self.candidates@.len()
        &&& self.done <= self.next
        &&& self.next - self.done <= HYDRATION_LIMIT
        &&& (forall|k: int|
            self.next <= k < self.results@.len() ==> (#[trigger] self.results@[k]) is None)
        &&& self.done == count_done(self.results@, self.next as int)
    }

    /// A scheduler over the given candidates, with nothing admitted yet.
    pub fn new(candidates: Vec<ItemIncomplete>) -> (r: Hydrator)
        ensures
            r.inv(),
            r.candidates@ == candidates@,
            r.results@.len() == candidates@.len(),
            r.next == 0,
            r.done == 0,
            r.failed is None,
    {
        let n = candidates.len();
        let mut results: Vec<Option<(Vec<Tag>, Vec<ItemObject>)>> = Vec::new();
        let mut i: usize = 0;
        while i < n
            invariant
                i <= n,
                results@.len() == i,
                forall|k: int| 0 <= k < i ==> (#[trigger] results@[k]) is None,
            decreases n - i,
        {
            results.push(None);
            i += 1;
        }
        Hydrator { candidates, results, next: 0, done: 0, failed: None }
    }

    /// Hands out the slot of the next candidate to hydrate, if one may
    /// start: none is handed out once a failure was reported (fail-fast
    /// cancellation), when every candidate was admitted, or while
    /// [`HYDRATION_LIMIT`] fetches are already in flight.
    pub fn next_task(&mut self) -> (r: Option<usize>)
        requires
            old(self).inv(),
        ensures
            final(self).inv(),
            final(self).candidates@ == old(self).candidates@,
            final(self).results@ == old(self).results@,
            final(self).done == old(self).done,
            final(self).failed == old(self).failed,
            match r {
                Some(idx) => old(self).failed is None && idx == old(self).next && old(self).next
                    < old(self).candidates@.len() && old(self).next - old(self).done
                    < HYDRATION_LIMIT && final(self).next == old(self).next + 1,
                None => final(self).next == old(self).next && (old(self).failed is Some || old(
                    self,
                ).next == old(self).candidates@.len() || old(self).next - old(self).done
                    >= HYDRATION_LIMIT),
            },
    {
        if self.failed.is_some() {
            return None;
        }
        if self.next >= self.candidates.len() {
            return None;
        }
        if self.next - self.done >= HYDRATION_LIMIT {
            return None;
        }
        let idx = self.next;
        self.next = self.next + 1;
        proof {
            assert(self.results@[idx as int] is None);
        }
        Some(idx)
    }

    /// Writes a successful fetch back into the slot of the candidate it
    /// was performed for.
    pub fn complete(&mut self, idx: usize, tags: Vec<Tag>, objects: Vec<ItemObject>)
        requires
            old(self).inv(),
            idx < old(self).next,
            old(self).results@[idx as int] is None,
        ensures
            final(self).inv(),
            final(self).candidates@ == old(self).candidates@,
            final(self).results@ == old(self).results@.update(idx as int, Some((tags, objects))),
            final(self).next == old(self).next,
            final(self).done == old(self).done + 1,
            final(self).failed == old(self).failed,
    {
        proof {
            lemma_count_done_lt(self.results@, self.next as int, idx as int);
            lemma_count_done_update(
                self.results@,
                Some((tags, objects)),
                self.next as int,
                idx as int,
            );
        }
        self.results.set(idx, Some((tags, objects)));
        self.done = self.done + 1;
    }

    /// Records a failed fetch. The first reported error is kept; the run
    /// can only end in that error from here on.
    pub fn report_failure(&mut self, err: DbError)
        requires
            old(self).inv(),
        ensures
            final(self).inv(),
            final(self).candidates@ == old(self).candidates@,
            final(self).results@ == old(self).results@,
            final(self).next == old(self).next,
            final(self).done == old(self).done,
            final(self).failed is Some,
            (old(self).failed is None ==> final(self).failed == Some(err)),
            (old(self).failed is Some ==> final(self).failed == old(self).failed),
    {
        if self.failed.is_none() {
            self.failed = Some(err);
        }
    }

    /// Whether the run is over: a failure was reported, or every
    /// candidate's fetch has completed.
    pub fn is_finished(&self) -> (r: bool)
        ensures
            r == (self.failed is Some || self.done == self.candidates@.len()),
    {
        self.failed.is_some() || self.done == self.candidates.len()
    }

    /// Assembles the run's outcome. A reported failure yields exactly
    /// that error and no items — never a partial result. Otherwise every
    /// candidate is returned, in candidate order, assembled with the
    /// fetch written into its slot.
    pub fn finish(self) -> (r: Result<Vec<Item>, DbError>)
        requires
            self.inv(),
            self.failed is Some || self.done == self.candidates@.len(),
        ensures
            (self.failed matches Some(e) ==> r matches Err(e2) && e2 == e),
            (self.failed is None ==> (r matches Ok(out) && out@.len() == self.candidates@.len()
                && (forall|k: int|
                0 <= k < out@.len() ==> (self.results@[k] matches Some(p) && (
                #[trigger] out@[k])@ == (ItemView {
                    id: self.candidates@[k]@.id,
                    name: self.candidates@[k]@.name,
                    category: self.candidates@[k]@.category,
                    tags: p.0@.map_values(|t: Tag| t@),
                    objects: p.1@.map_values(|o: ItemObject| o@),
                }))))),
    {
        let Hydrator { mut candidates, mut results, next, done, failed } = self;
        match failed {
            Some(e) => {
                return Err(e);
            },
            None => {},
        }
        let ghost cands0 = candidates@;
        let ghost results0 = results@;
        proof {
            lemma_count_done_full(results0, next as int);
        }
        let mut out: Vec<Item> = Vec::new();
        while candidates.len() > 0
            invariant
                candidates@.len() == results@.len(),
                out@.len() + candidates@.len() == cands0.len(),
                cands0.len() == results0.len(),
                candidates@ == cands0.subrange(out@.len() as int, cands0.len() as int),
                results@ == results0.subrange(out@.len() as int, results0.len() as int),
                forall|k: int| 0 <= k < results0.len() ==> (#[trigger] results0[k]) is Some,
                forall|k: int|
                    0 <= k < out@.len() ==> (results0[k] matches Some(p) && (
                    #[trigger] out@[k])@ == (ItemView {
                        id: cands0[k]@.id,
                        name: cands0[k]@.name,
                        category: cands0[k]@.category,
                        tags: p.0@.map_values(|t: Tag| t@),
                        objects: p.1@.map_values(|o: ItemObject| o@),
                    })),
            decreases candidates.len(),
        {
            let ghost n_done = out@.len() as int;
            let cand = candidates.remove(0);
            let slot = results.remove(0);
            proof {
                assert(cand == cands0[n_done]);
                assert(slot == results0[n_done]);
            }
            let (tags, objects) = match slot {
                Some(p) => p,
                None => {
                    proof {
                        assert(false);
                    }
                    return Err(DbError::ItemNotFound);
                },
            };
            let it = Item { id: cand.id, name: cand.name, category: cand.category, tags, objects };
            out.push(it);
            proof {
                assert(candidates@ =~= cands0.subrange(out@.len() as int, cands0.len() as int));
                assert(results@ =~= results0.subrange(out@.len() as int, results0.len() as int));
            }
        }
        Ok(out)
    }
}

} // verus!
