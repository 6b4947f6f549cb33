//! A recycling allocator for 64-bit identifiers.
//!
//! [`Unique64`] hands out `u64` identifiers one at a time. No two
//! currently-active identifiers ever share a value; an identifier that its
//! holder no longer needs can be released back into the allocator, and
//! released identifiers are reissued before the counter ever advances to a
//! fresh value. Memory use is proportional to the number of currently
//! released identifiers, never to the number ever issued.

use vstd::prelude::*;

verus! {

broadcast use vstd::set::group_set_axioms;

/// The single misuse error: an attempt to release an identifier that is not
/// currently active, either because it was already released (double release)
/// or because it was never issued at all. This signals a caller bug, not a
/// condition to recover from.
#[derive(Clone, Copy, Debug, PartialEq, Eq, Structural)]
pub struct InvalidRelease;

/// An allocator of unique `u64` identifiers.
///
/// It keeps a counter holding the smallest identifier never yet issued, and a
/// pool of identifiers that were issued and later released. Allocation drains
/// the pool before it advances the counter; release returns an active
/// identifier to the pool.
pub struct Unique64 {
    available_ids: Vec<u64>,
    next_id: u64,
}

impl Unique64 {
    /// The smallest identifier this allocator has never issued.
    pub closed spec fn next(self) -> u64 {
        self.next_id
    }

    /// The identifiers that were issued, then released, and now await reissue.
    pub closed spec fn released(self) -> Set<u64> {
        self.available_ids@.to_set()
    }

    /// Well-formedness: the released pool holds no duplicates, and only
    /// identifiers that were actually issued, i.e. strictly below the counter.
    pub closed spec fn wf(self) -> bool {
        &&& self.available_ids@.no_duplicates()
        &&& forall|i: int|
            0 <= i < self.available_ids@.len() ==> self.available_ids@[i] < self.next_id
    }

    /// An identifier is active iff it was issued and has not been released.
    pub open spec fn is_active(self, id: u64) -> bool {
        id < self.next() && !self.released().contains(id)
    }

    /// The set of currently active identifiers. It is derived from the
    /// counter and the released pool, never stored.
    pub open spec fn active(self) -> Set<u64> {
        Set::new(|id: u64| self.is_active(id))
    }

    /// A fresh allocator: counter at zero, nothing released, nothing active.
    pub fn new() -> (r: Self)
        ensures
            r.wf(),
            r.next() == 0,
            r.released() == Set::<u64>::empty(),
    {
        let r = Unique64 { available_ids: Vec::new(), next_id: 0 };
        proof {
            assert(r.released() =~= Set::<u64>::empty());
        }
        r
    }

    /// The current value of the counter: every identifier ever issued is
    /// strictly below it.
    pub fn next_id(&self) -> (r: u64)
        ensures
            r == self.next(),
    {
        self.next_id
    }

    /// How many identifiers are currently released and awaiting reissue.
    pub fn released_count(&self) -> (n: usize)
        requires
            self.wf(),
        ensures
            n == self.released().len(),
    {
        proof {
            self.available_ids@.unique_seq_to_set();
        }
        self.available_ids.len()
    }

    /// Whether `id` is currently in the released pool.
    pub fn is_released(&self, id: u64) -> (b: bool)
        ensures
            b == self.released().contains(id),
    {
        let n = self.available_ids.len();
        let mut i: usize = 0;
        while i < n
            invariant
                n == self.available_ids@.len(),
                0 <= i <= n,
                forall|j: int| 0 <= j < i ==> self.available_ids@[j] != id,
            decreases n - i,
        {
            if self.available_ids[i] == id {
                proof {
                    assert(self.available_ids@.contains(id));
                }
                return true;
            }
            i = i + 1;
        }
        proof {
            assert(!self.available_ids@.contains(id));
        }
        false
    }

    /// Allocate an identifier.
    ///
    /// If any released identifier is waiting, one of them — no particular
    /// one — is taken back out of the pool and reissued; the counter does not
    /// move. Only when the pool is empty is the counter's own value issued and
    /// the counter advanced by one. Either way the result was not active
    /// before the call and is active after it, so no two active identifiers
    /// ever collide. The counter never decreases.
    pub fn get_next(&mut self) -> (r: u64)
        requires
            old(self).wf(),
            old(self).released().is_empty() ==> old(self).next() < u64::MAX,
        ensures
            final(self).wf(),
            !old(self).is_active(r),
            final(self).is_active(r),
            final(self).active() == old(self).active().insert(r),
            old(self).next() <= final(self).next(),
            old(self).released().is_empty() ==> ({
                &&& r == old(self).next()
                &&& final(self).next() == old(self).next() + 1
                &&& final(self).released() == old(self).released()
            }),
            !old(self).released().is_empty() ==> ({
                &&& old(self).released().contains(r)
                &&& final(self).next() == old(self).next()
                &&& final(self).released() == old(self).released().remove(r)
            }),
    {
        if self.available_ids.len() > 0 {
            let ghost s = self.available_ids@;
            let selection = self.available_ids.pop().unwrap();
            proof {
                assert(s.to_set().contains(selection));
                assert(!old(self).released().is_empty());
                lemma_drop_last_to_set(s);
                assert(self.available_ids@ == s.subrange(0, s.len() - 1));
                assert(self.released() =~= old(self).released().remove(selection));
                lemma_active_after_reissue(*old(self), *self, selection);
            }
            selection
        } else {
            let selection = self.next_id;
            self.next_id = self.next_id + 1;
            proof {
                assert(old(self).available_ids@.len() == 0);
                assert(old(self).released() =~= Set::<u64>::empty());
                assert(self.released() == old(self).released());
                lemma_active_after_fresh_issue(*old(self), *self, selection);
            }
            selection
        }
    }

    /// Release the active identifier `value` back into the allocator, making
    /// it eligible for reissue. The counter does not move; exactly `value`
    /// stops being active.
    ///
    /// Releasing an identifier that is not currently active — already
    /// released, or never issued — is a caller bug, ruled out by the
    /// precondition. [`Unique64::try_remove`] checks the same condition at
    /// run time instead.
    pub fn remove(&mut self, value: u64)
        requires
            old(self).wf(),
            old(self).is_active(value),
        ensures
            final(self).wf(),
            final(self).next() == old(self).next(),
            final(self).released() == old(self).released().insert(value),
            final(self).active() == old(self).active().remove(value),
    {
        proof {
            assert(!old(self).available_ids@.contains(value));
            lemma_push_to_set(old(self).available_ids@, value);
        }
        self.available_ids.push(value);
        proof {
            lemma_active_after_release(*old(self), *self, value);
        }
    }

    /// Release `value` if it is currently active; report the misuse
    /// otherwise.
    ///
    /// Returns `Ok(())` exactly when `value` is active — issued and not yet
    /// released — and then behaves as [`Unique64::remove`]. Returns
    /// `Err(InvalidRelease)` exactly when `value` is already released or was
    /// never issued, and then leaves the allocator unchanged.
    pub fn try_remove(&mut self, value: u64) -> (r: Result<(), InvalidRelease>)
        requires
            old(self).wf(),
        ensures
            final(self).wf(),
            final(self).next() == old(self).next(),
            r is Ok <==> old(self).is_active(value),
            r is Ok ==> final(self).released() == old(self).released().insert(value),
            r is Ok ==> final(self).active() == old(self).active().remove(value),
            r is Err ==> *final(self) == *old(self),
    {
        if value >= self.next_id {
            return Err(InvalidRelease);
        }
        if self.is_released(value) {
            return Err(InvalidRelease);
        }
        self.remove(value);
        Ok(())
    }

    /// Every released identifier lies strictly below the counter: a released
    /// identifier was, by definition, previously issued.
    pub proof fn lemma_released_below_next(self, id: u64)
        requires
            self.wf(),
            self.released().contains(id),
        ensures
            id < self.next(),
    {
        let i = choose|i: int|
            0 <= i < self.available_ids@.len() && self.available_ids@[i] == id;
        assert(self.available_ids@[i] < self.next_id);
    }

    /// The released pool is always a finite set.
    pub proof fn lemma_released_finite(self)
        ensures
            self.released().finite(),
    {
        broadcast use vstd::seq_lib::seq_to_set_is_finite;

    }

    /// Uniqueness: the identifiers issued so far — those strictly below the
    /// counter — split exactly into the released ones and the active ones,
    /// and nothing at or above the counter is ever active or released. Since
    /// the active identifiers form a set, and [`Unique64::get_next`] only
    /// ever returns an identifier that was not active, no two simultaneously
    /// active identifiers can share a value.
    pub proof fn lemma_issued_partition(self, id: u64)
        requires
            self.wf(),
        ensures
            !(self.active().contains(id) && self.released().contains(id)),
            id < self.next() <==> self.active().contains(id) || self.released().contains(id),
    {
        if self.released().contains(id) {
            self.lemma_released_below_next(id);
        }
    }
}

/// For a duplicate-free sequence, dropping the last element removes exactly
/// that element from the sequence's set of values.
proof fn lemma_drop_last_to_set(s: Seq<u64>)
    requires
        s.len() > 0,
        s.no_duplicates(),
    ensures
        s.subrange(0, s.len() - 1).no_duplicates(),
        s.subrange(0, s.len() - 1).to_set() =~= s.to_set().remove(s[s.len() - 1]),
{
    let t = s.subrange(0, s.len() - 1);
    let last = s[s.len() - 1];
    assert forall|x: u64| t.to_set().contains(x) implies s.to_set().remove(last).contains(x) by {
        let i = choose|i: int| 0 <= i < t.len() && t[i] == x;
        assert(s[i] == x);
        assert(s.contains(x));
    }
    assert forall|x: u64| s.to_set().remove(last).contains(x) implies t.to_set().contains(x) by {
        let i = choose|i: int| 0 <= i < s.len() && s[i] == x;
        assert(i != s.len() - 1);
        assert(t[i] == x);
        assert(t.contains(x));
    }
}

/// Pushing a value that a duplicate-free sequence does not yet hold keeps it
/// duplicate-free and adds exactly that value to its set of values.
proof fn lemma_push_to_set(s: Seq<u64>, v: u64)
    requires
        s.no_duplicates(),
        !s.contains(v),
    ensures
        s.push(v).no_duplicates(),
        s.push(v).to_set() =~= s.to_set().insert(v),
{
    let t = s.push(v);
    assert forall|i: int, j: int|
        0 <= i < t.len() && 0 <= j < t.len() && i != j implies t[i] != t[j] by {
        if i < s.len() && j < s.len() {
            assert(s[i] == t[i] && s[j] == t[j]);
        } else if i < s.len() {
            assert(s[i] == t[i] && t[j] == v);
        } else {
            assert(t[i] == v && s[j] == t[j]);
        }
    }
    assert forall|x: u64| t.to_set().contains(x) implies s.to_set().insert(v).contains(x) by {
        let i = choose|i: int| 0 <= i < t.len() && t[i] == x;
        if i < s.len() {
            assert(s.contains(x));
        }
    }
    assert forall|x: u64| s.to_set().insert(v).contains(x) implies t.to_set().contains(x) by {
        if x == v {
            assert(t[s.len() as int] == x);
        } else {
            let i = choose|i: int| 0 <= i < s.len() && s[i] == x;
            assert(t[i] == x);
        }
        assert(t.contains(x));
    }
}

/// Releasing an active identifier makes it, and nothing else, stop being
/// active.
proof fn lemma_active_after_release(pre: Unique64, post: Unique64, v: u64)
    requires
        pre.is_active(v),
        post.next() == pre.next(),
        post.released() == pre.released().insert(v),
    ensures
        post.active() == pre.active().remove(v),
{
    assert forall|id: u64|
        post.active().contains(id) <==> pre.active().remove(v).contains(id) by {}
    assert(post.active() =~= pre.active().remove(v));
}

/// Reissuing a released identifier makes it, and nothing else, active.
proof fn lemma_active_after_reissue(pre: Unique64, post: Unique64, r: u64)
    requires
        pre.wf(),
        pre.released().contains(r),
        post.next() == pre.next(),
        post.released() == pre.released().remove(r),
    ensures
        !pre.is_active(r),
        post.is_active(r),
        post.active() == pre.active().insert(r),
{
    pre.lemma_released_below_next(r);
    assert forall|id: u64|
        post.active().contains(id) <==> pre.active().insert(r).contains(id) by {}
    assert(post.active() =~= pre.active().insert(r));
}

/// Issuing the counter's own value makes it, and nothing else, active.
proof fn lemma_active_after_fresh_issue(pre: Unique64, post: Unique64, r: u64)
    requires
        pre.wf(),
        r == pre.next(),
        pre.next() < u64::MAX,
        post.next() == pre.next() + 1,
        post.released() == pre.released(),
    ensures
        !pre.is_active(r),
        post.is_active(r),
        post.active() == pre.active().insert(r),
{
    assert forall|id: u64|
        post.active().contains(id) <==> pre.active().insert(r).contains(id) by {}
    assert(post.active() =~= pre.active().insert(r));
}

impl Default for Unique64 {
    /// Default construction is a fresh allocator, exactly as
    /// [`Unique64::new`] builds it.
    fn default() -> (r: Self)
        ensures
            r.wf(),
            r.next() == 0,
            r.released() == Set::<u64>::empty(),
    {
        Unique64::new()
    }
}

} // verus!
