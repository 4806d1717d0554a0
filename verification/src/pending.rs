//! Correlation of picker requests with their responses.
//!
//! The daemon reserves a slot under a request's handle before writing
//! the request, fills it when the response with that handle arrives, and
//! answers every slot still open with `Cancelled` when the picker UI
//! disconnects. At most one slot exists per handle.

use vstd::prelude::*;

use crate::keyed::{
    distinct_keys, entries_map, lemma_lookup_absent, lemma_lookup_found, lemma_lookup_push,
    lemma_lookup_remove, lemma_map_after, lookup,
};
use crate::protocol::{response_handle, response_handle_of, PickerResponse};

verus! {

/// Open correlation slots, each holding what is needed to hand a
/// response to its waiter (`T`).
pub struct PendingRequests<T> {
    slots: Vec<(String, T)>,
}

impl<T> View for PendingRequests<T> {
    type V = Map<Seq<char>, T>;

    closed spec fn view(&self) -> Map<Seq<char>, T> {
        entries_map(self.slots@)
    }
}

/// Why a slot could not be reserved.
#[derive(Debug, PartialEq, Eq)]
pub enum ReserveError {
    /// A request with this handle is already waiting.
    DuplicateHandle,
}

impl<T> PendingRequests<T> {
    #[verifier::type_invariant]
    spec fn handles_unique(self) -> bool {
        distinct_keys(self.slots@)
    }

    /// No open slots.
    pub fn new() -> (p: PendingRequests<T>)
        ensures
            p@ == Map::<Seq<char>, T>::empty(),
    {
        let p = PendingRequests { slots: Vec::new() };
        assert(p@ =~= Map::<Seq<char>, T>::empty());
        p
    }

    /// Whether no slot is open.
    pub fn is_empty(&self) -> (r: bool)
        ensures
            r == (self@ == Map::<Seq<char>, T>::empty()),
    {
        if self.slots.len() == 0 {
            assert(self@ =~= Map::<Seq<char>, T>::empty());
            true
        } else {
            assert(self@.contains_key(self.slots@[0].0@));
            false
        }
    }

    /// Reserve the slot for `handle`. Fails, leaving the slots as they
    /// were, if a request with the same handle is already waiting.
    pub fn reserve(&mut self, handle: String, waiter: T) -> (r: Result<(), ReserveError>)
        ensures
            old(self)@.contains_key(handle@) ==> r == Err::<(), ReserveError>(
                ReserveError::DuplicateHandle,
            ) && final(self)@ == old(self)@,
            !old(self)@.contains_key(handle@) ==> r is Ok && final(self)@ == old(self)@.insert(
                handle@,
                waiter,
            ),
    {
        proof {
            use_type_invariant(&*self);
        }
        let ghost s = self.slots@;
        let n = self.slots.len();
        let mut i: usize = 0;
        while i < n
            invariant
                n == self.slots@.len(),
                self.slots@ == s,
                s == old(self).slots@,
                i <= n,
                forall|j: int| 0 <= j < i ==> s[j].0@ != handle@,
            decreases n - i,
        {
            if self.slots[i].0 == handle {
                proof {
                    lemma_lookup_found(s, i as int, handle@);
                }
                return Err(ReserveError::DuplicateHandle);
            }
            i = i + 1;
        }
        proof {
            lemma_lookup_absent(s, handle@);
        }
        let ghost e = (handle, waiter);
        let mut slots: Vec<(String, T)> = Vec::new();
        std::mem::swap(&mut slots, &mut self.slots);
        slots.push((handle, waiter));
        proof {
            assert(slots@ == s.push(e));
            assert forall|a: int, b: int|
                0 <= a < b < slots@.len() implies #[trigger] slots@[a].0@
                != #[trigger] slots@[b].0@ by {
                if b < s.len() {
                    assert(slots@[a] == s[a] && slots@[b] == s[b]);
                } else {
                    assert(slots@[a] == s[a]);
                }
            }
        }
        std::mem::swap(&mut slots, &mut self.slots);
        proof {
            assert(self.slots@ == s.push(e));
            assert forall|k: Seq<char>|
                #![trigger lookup(self.slots@, k)]
                lookup(self.slots@, k) == (if k == e.0@ {
                    Some(e.1)
                } else {
                    lookup(s, k)
                }) by {
                lemma_lookup_push(s, e, k);
            }
            lemma_map_after(self.slots@, s, e.0@, Some(e.1));
        }
        Ok(())
    }

    /// Close the slot for `handle` and hand back its waiter, if one is
    /// open.
    pub fn take(&mut self, handle: &str) -> (r: Option<T>)
        ensures
            match r {
                Some(w) => old(self)@.contains_key(handle@) && old(self)@[handle@] == w,
                None => !old(self)@.contains_key(handle@),
            },
            final(self)@ == old(self)@.remove(handle@),
    {
        proof {
            use_type_invariant(&*self);
        }
        let h = String::from_str(handle);
        let ghost s = self.slots@;
        let n = self.slots.len();
        let mut i: usize = 0;
        while i < n
            invariant
                n == self.slots@.len(),
                self.slots@ == s,
                s == old(self).slots@,
                distinct_keys(s),
                h@ == handle@,
                i <= n,
                forall|j: int| 0 <= j < i ==> s[j].0@ != handle@,
            decreases n - i,
        {
            if self.slots[i].0 == h {
                proof {
                    lemma_lookup_found(s, i as int, handle@);
                }
                let mut slots: Vec<(String, T)> = Vec::new();
                std::mem::swap(&mut slots, &mut self.slots);
                let (_, w) = slots.remove(i);
                proof {
                    let u = slots@;
                    assert(u == s.remove(i as int));
                    assert forall|j: int| 0 <= j < u.len() implies u[j].0@ != handle@ by {
                        if j < i {
                            assert(u[j] == s[j]);
                        } else {
                            assert(u[j] == s[j + 1]);
                        }
                    }
                    lemma_lookup_absent(u, handle@);
                    assert forall|k: Seq<char>|
                        #![trigger lookup(u, k)]
                        lookup(u, k) == (if k == handle@ {
                            None
                        } else {
                            lookup(s, k)
                        }) by {
                        if k != handle@ {
                            lemma_lookup_remove(s, i as int, k);
                        }
                    }
                    lemma_map_after(u, s, handle@, None);
                    assert forall|a: int, b: int|
                        0 <= a < b < u.len() implies #[trigger] u[a].0@ != #[trigger] u[b].0@ by {
                        let a2 = if a < i {
                            a
                        } else {
                            a + 1
                        };
                        let b2 = if b < i {
                            b
                        } else {
                            b + 1
                        };
                        assert(u[a] == s[a2] && u[b] == s[b2]);
                    }
                }
                std::mem::swap(&mut slots, &mut self.slots);
                return Some(w);
            }
            i = i + 1;
        }
        proof {
            lemma_lookup_absent(s, handle@);
            assert(old(self)@.remove(handle@) =~= old(self)@);
        }
        None
    }

    /// Close every slot and hand back all of them, each handle once.
    pub fn drain(&mut self) -> (all: Vec<(String, T)>)
        ensures
            final(self)@ == Map::<Seq<char>, T>::empty(),
            distinct_keys(all@),
            entries_map(all@) == old(self)@,
    {
        proof {
            use_type_invariant(&*self);
        }
        let mut all: Vec<(String, T)> = Vec::new();
        std::mem::swap(&mut all, &mut self.slots);
        assert(self@ =~= Map::<Seq<char>, T>::empty());
        all
    }

    /// The picker UI went away: close every slot and answer each waiter
    /// with `Cancelled` for its own handle, so no caller waits forever.
    pub fn cancel_all(&mut self) -> (answers: Vec<(T, PickerResponse)>)
        ensures
            final(self)@ == Map::<Seq<char>, T>::empty(),
            answers@.len() == old(self)@.len(),
            forall|i: int|
                0 <= i < answers@.len() ==> ({
                    let h = response_handle_of(#[trigger] answers@[i].1);
                    &&& answers@[i].1 matches PickerResponse::Cancelled { .. }
                    &&& old(self)@.contains_key(h)
                    &&& old(self)@[h] == answers@[i].0
                }),
            forall|i: int, j: int|
                0 <= i < j < answers@.len() ==> response_handle_of(#[trigger] answers@[i].1)
                    != response_handle_of(#[trigger] answers@[j].1),
            old(self)@.dom().finite(),
            forall|h: Seq<char>|
                #[trigger] old(self)@.contains_key(h) ==> exists|i: int|
                    0 <= i < answers@.len() && response_handle_of(answers@[i].1) == h
                        && answers@[i].0 == old(self)@[h],
    {
        let mut all = self.drain();
        let ghost slots = all@;
        let mut answers: Vec<(T, PickerResponse)> = Vec::new();
        while all.len() > 0
            invariant
                distinct_keys(slots),
                all@.len() + answers@.len() == slots.len(),
                all@ == slots.subrange(0, all@.len() as int),
                forall|i: int|
                    0 <= i < answers@.len() ==> #[trigger] answers@[i] == (
                        slots[slots.len() - 1 - i].1,
                        PickerResponse::Cancelled { handle: slots[slots.len() - 1 - i].0 },
                    ),
            decreases all.len(),
        {
            let (handle, waiter) = all.pop().unwrap();
            assert(all@ == slots.subrange(0, all@.len() as int));
            answers.push((waiter, PickerResponse::Cancelled { handle }));
        }
        proof {
            lemma_distinct_len(slots);
            assert forall|i: int| 0 <= i < answers@.len() implies ({
                let h = response_handle_of(#[trigger] answers@[i].1);
                &&& answers@[i].1 matches PickerResponse::Cancelled { .. }
                &&& old(self)@.contains_key(h)
                &&& old(self)@[h] == answers@[i].0
            }) by {
                let k = slots.len() - 1 - i;
                assert forall|j: int| 0 <= j < k implies slots[j].0@ != slots[k].0@ by {}
                lemma_lookup_found(slots, k, slots[k].0@);
            }
            assert forall|h: Seq<char>| #[trigger] old(self)@.contains_key(h) implies exists|i: int|
                0 <= i < answers@.len() && response_handle_of(answers@[i].1) == h
                    && answers@[i].0 == old(self)@[h] by {
                crate::keyed::lemma_lookup_some(slots, h);
                let j = choose|j: int|
                    0 <= j < slots.len() && slots[j].0@ == h && slots[j].1 == lookup(slots, h)->0;
                let i = slots.len() - 1 - j;
                assert(answers@[i] == (
                    slots[j].1,
                    PickerResponse::Cancelled { handle: slots[j].0 },
                ));
                assert(response_handle_of(answers@[i].1) == h);
            }
        }
        answers
    }

    /// Hand `response` to the waiter of its handle: close that slot and
    /// return the waiter with the response, or `None` (an unsolicited or
    /// stale response) if no slot is open for the handle.
    pub fn deliver(&mut self, response: PickerResponse) -> (r: Option<(T, PickerResponse)>)
        ensures
            match r {
                Some((w, resp)) => old(self)@.contains_key(response_handle_of(response))
                    && old(self)@[response_handle_of(response)] == w && resp == response,
                None => !old(self)@.contains_key(response_handle_of(response)),
            },
            final(self)@ == old(self)@.remove(response_handle_of(response)),
    {
        match self.take(response_handle(&response)) {
            Some(w) => Some((w, response)),
            None => None,
        }
    }
}

/// With distinct keys, the map has one key per entry.
proof fn lemma_distinct_len<T>(s: Seq<(String, T)>)
    requires
        distinct_keys(s),
    ensures
        entries_map(s).len() == s.len(),
        entries_map(s).dom().finite(),
    decreases s.len(),
{
    if s.len() == 0 {
        assert(entries_map(s).dom() =~= Set::<Seq<char>>::empty());
    } else {
        let t = s.drop_last();
        let e = s.last();
        assert(distinct_keys(t));
        lemma_distinct_len(t);
        assert forall|j: int| 0 <= j < t.len() implies t[j].0@ != e.0@ by {
            assert(t[j] == s[j]);
        }
        assert(t.push(e) =~= s);
        assert forall|k: Seq<char>|
            #![trigger lookup(s, k)]
            lookup(s, k) == (if k == e.0@ {
                Some(e.1)
            } else {
                lookup(t, k)
            }) by {
            lemma_lookup_push(t, e, k);
        }
        lemma_map_after(s, t, e.0@, Some(e.1));
        lemma_lookup_absent(t, e.0@);
        assert(!entries_map(t).contains_key(e.0@));
    }
}

/// A response reaches the request that reserved its handle: after
/// reserving a free handle, delivering a response with that handle
/// yields that request's waiter and leaves the other slots as they were.
pub proof fn lemma_reserve_then_deliver<T>(open: Map<Seq<char>, T>, handle: Seq<char>, waiter: T)
    requires
        !open.contains_key(handle),
    ensures
        open.insert(handle, waiter).contains_key(handle),
        open.insert(handle, waiter)[handle] == waiter,
        open.insert(handle, waiter).remove(handle) == open,
{
    assert(open.insert(handle, waiter).remove(handle) =~= open);
}

} // verus!
