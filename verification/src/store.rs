//! The booking store: every booking ever created, the append-only id log,
//! the active index of bookings still competing for dates, and the pending
//! withdrawal claims.

use vstd::prelude::*;

use crate::indexes::assoc_get;
use crate::indexes::assoc_map;
use crate::indexes::assoc_remove;
use crate::indexes::assoc_set;
use crate::indexes::clone_bytes;
use crate::indexes::find_id;
use crate::indexes::id_views;
use crate::indexes::keys_distinct;
use crate::indexes::lemma_id_views_len;
use crate::structures::BookingData;
use crate::structures::BookingState;
use crate::structures::BookingView;

verus! {

/// A recorded claim `(account, amount)` the account may settle: the host's
/// until a booking is canceled, the guest's afterwards.
#[derive(Clone, Copy, Debug, PartialEq, Eq, Structural)]
pub struct PendingClaim {
    pub account: u64,
    pub amount: u64,
}

impl View for PendingClaim {
    type V = PendingClaim;

    open spec fn view(&self) -> PendingClaim {
        *self
    }
}

/// The states in which a booking competes for its place's calendar.
pub open spec fn is_active_state(state: BookingState) -> bool {
    ||| state == BookingState::Created
    ||| state == BookingState::Confirmed
    ||| state == BookingState::OwnerCanWithdraw
}

/// Mathematical model of the store.
#[verifier::ext_equal]
pub struct StoreView {
    /// Every booking id ever created, in creation order, kept even after
    /// rejection or completion.
    pub booking_ids: Seq<Seq<u8>>,
    /// Every booking record, by id; records are mutated, never deleted.
    pub bookings: Map<Seq<u8>, BookingView>,
    /// The ids still competing for their place's dates.
    pub active: Seq<Seq<u8>>,
    /// The pending withdrawal claim referencing each booking, if any.
    pub pending: Map<Seq<u8>, PendingClaim>,
}

impl StoreView {
    /// The store's invariants: the active index holds each id once, holds
    /// only persisted ids, holds exactly the bookings in a competing state,
    /// and no persisted booking ends before it starts.
    pub open spec fn wf(self) -> bool {
        &&& self.active.no_duplicates()
        &&& forall|k: Seq<u8>| #[trigger] self.active.contains(k) ==> self.bookings.dom().contains(k)
        &&& forall|k: Seq<u8>| #[trigger] self.bookings.dom().contains(k) ==> (self.active.contains(
            k,
        ) <==> is_active_state(self.bookings[k].state))
        &&& forall|k: Seq<u8>| #[trigger] self.bookings.dom().contains(k)
            ==> self.bookings[k].end_date > self.bookings[k].start_date
    }
}

/// The ids on the active index whose booking belongs to `place`, in index
/// order.
pub open spec fn filter_place(
    active: Seq<Seq<u8>>,
    bookings: Map<Seq<u8>, BookingView>,
    place: Seq<u8>,
) -> Seq<Seq<u8>>
    decreases active.len(),
{
    if active.len() == 0 {
        active
    } else {
        let d = filter_place(active.drop_last(), bookings, place);
        if bookings.dom().contains(active.last()) && bookings[active.last()].place_id == place {
            d.push(active.last())
        } else {
            d
        }
    }
}

/// The active index with the one occurrence of `k` swap-removed: the last
/// entry takes its slot, so the order is not preserved.
pub open spec fn remove_active_id(s: Seq<Seq<u8>>, k: Seq<u8>) -> Seq<Seq<u8>> {
    if s.contains(k) {
        s.update(s.index_of(k), s.last()).drop_last()
    } else {
        s
    }
}

/// Swap-removing an id from a duplicate-free index drops exactly that id.
pub proof fn lemma_remove_active_id(s: Seq<Seq<u8>>, k: Seq<u8>)
    requires
        s.no_duplicates(),
    ensures
        remove_active_id(s, k).no_duplicates(),
        forall|x: Seq<u8>| #[trigger] remove_active_id(s, k).contains(x) <==> (s.contains(x) && x
            != k),
{
    if s.contains(k) {
        let i = s.index_of(k);
        assert(0 <= i < s.len() && s[i] == k);
        let t = remove_active_id(s, k);
        assert forall|x: Seq<u8>| #[trigger] t.contains(x) implies s.contains(x) && x != k by {
            let j = choose|j: int| 0 <= j < t.len() && t[j] == x;
            if j == i {
                assert(s[s.len() - 1] == x);
                if x == k {
                    assert(s[i] == s[s.len() - 1]);
                    assert(false);
                }
            } else {
                assert(s[j] == x);
                if x == k {
                    assert(false);
                }
            }
        }
        assert forall|x: Seq<u8>| s.contains(x) && x != k implies #[trigger] t.contains(x) by {
            let j = choose|j: int| 0 <= j < s.len() && s[j] == x;
            if j == i {
                assert(false);
            } else if j == s.len() - 1 {
                assert(i < t.len());
                assert(t[i] == x);
            } else {
                assert(t[j] == x);
            }
        }
        assert forall|a: int, b: int| 0 <= a < b < t.len() implies t[a] != t[b] by {
            assert(t[a] == if a == i {
                s[s.len() - 1]
            } else {
                s[a]
            });
            assert(t[b] == if b == i {
                s[s.len() - 1]
            } else {
                s[b]
            });
        }
    }
}

/// The booking store.
pub struct BookingsStore {
    pub booking_ids: Vec<Vec<u8>>,
    pub bookings: Vec<(Vec<u8>, BookingData)>,
    pub active: Vec<Vec<u8>>,
    pub pending: Vec<(Vec<u8>, PendingClaim)>,
}

impl View for BookingsStore {
    type V = StoreView;

    open spec fn view(&self) -> StoreView {
        StoreView {
            booking_ids: id_views(self.booking_ids@),
            bookings: assoc_map(self.bookings@),
            active: id_views(self.active@),
            pending: assoc_map(self.pending@),
        }
    }
}

impl BookingsStore {
    /// The representation keeps each key at most once.
    pub open spec fn inv(&self) -> bool {
        &&& keys_distinct(self.bookings@)
        &&& keys_distinct(self.pending@)
        &&& self@.wf()
    }

    /// An empty store.
    pub fn new() -> (r: BookingsStore)
        ensures
            r.inv(),
            r@.booking_ids == Seq::<Seq<u8>>::empty(),
            r@.bookings == Map::<Seq<u8>, BookingView>::empty(),
            r@.active == Seq::<Seq<u8>>::empty(),
            r@.pending == Map::<Seq<u8>, PendingClaim>::empty(),
    {
        let r = BookingsStore {
            booking_ids: Vec::new(),
            bookings: Vec::new(),
            active: Vec::new(),
            pending: Vec::new(),
        };
        proof {
            assert(r@.booking_ids =~= Seq::<Seq<u8>>::empty());
            assert(r@.active =~= Seq::<Seq<u8>>::empty());
        }
        r
    }

    /// Every booking id ever created, in creation order.
    pub fn get_all_bookings(&self) -> (r: &Vec<Vec<u8>>)
        ensures
            id_views(r@) == self@.booking_ids,
    {
        &self.booking_ids
    }

    /// The active bookings of one place, in index order.
    pub fn get_place_bookings(&self, place_id: &Vec<u8>) -> (r: Vec<Vec<u8>>)
        requires
            self.inv(),
        ensures
            id_views(r@) == filter_place(self@.active, self@.bookings, place_id@),
    {
        proof {
            crate::indexes::lemma_assoc_map_properties(self.bookings@);
        }
        let ghost active0 = self@.active;
        let mut out: Vec<Vec<u8>> = Vec::new();
        let mut i: usize = 0;
        while i < self.active.len()
            invariant
                i <= self.active.len(),
                active0 == self@.active,
                self.inv(),
                id_views(out@) == filter_place(
                    active0.subrange(0, i as int),
                    self@.bookings,
                    place_id@,
                ),
            decreases self.active.len() - i,
        {
            proof {
                assert(active0.subrange(0, i + 1).drop_last() =~= active0.subrange(0, i as int));
                assert(active0.subrange(0, i + 1).last() == active0[i as int]);
            }
            match assoc_get(&self.bookings, &self.active[i]) {
                Some(b) => {
                    if crate::indexes::bytes_eq(&b.place_id, place_id) {
                        out.push(clone_bytes(&self.active[i]));
                        proof {
                            assert(id_views(out@) =~= filter_place(
                                active0.subrange(0, i as int),
                                self@.bookings,
                                place_id@,
                            ).push(active0[i as int]));
                        }
                    }
                },
                None => {
                    proof {
                        assert(active0[i as int] == self@.active[i as int]);
                        assert(self@.active.contains(active0[i as int]));
                        assert(false);
                    }
                },
            }
            i = i + 1;
        }
        proof {
            assert(active0.subrange(0, active0.len() as int) =~= active0);
        }
        out
    }

    /// The pending withdrawal claims of one account: every `(booking, amount)`
    /// pair it may settle, in no particular order.
    pub fn get_pending_booking_withdraws_by_account(&self, account: u64) -> (r: Vec<(Vec<u8>, u64)>)
        requires
            self.inv(),
        ensures
            forall|i: int|
                0 <= i < r@.len() ==> self@.pending.dom().contains((#[trigger] r@[i]).0@)
                    && self@.pending[r@[i].0@] == (PendingClaim { account, amount: r@[i].1 }),
            forall|k: Seq<u8>| #[trigger] self@.pending.dom().contains(k) && self@.pending[k].account
                == account ==> exists|i: int| 0 <= i < r@.len() && (#[trigger] r@[i]).0@ == k,
            forall|a: int, b: int| 0 <= a < b < r@.len() ==> (#[trigger] r@[a]).0@ != (
            #[trigger] r@[b]).0@,
    {
        proof {
            crate::indexes::lemma_assoc_map_properties(self.pending@);
        }
        let ghost entries = self.pending@;
        let mut out: Vec<(Vec<u8>, u64)> = Vec::new();
        let mut i: usize = 0;
        while i < self.pending.len()
            invariant
                i <= self.pending.len(),
                entries == self.pending@,
                self.inv(),
                forall|oi: int|
                    0 <= oi < out@.len() ==> self@.pending.dom().contains((#[trigger] out@[oi]).0@)
                        && self@.pending[out@[oi].0@] == (PendingClaim {
                        account,
                        amount: out@[oi].1,
                    }),
                forall|j: int|
                    0 <= j < i && (#[trigger] entries[j]).1.account == account ==> exists|oi: int|
                        0 <= oi < out@.len() && (#[trigger] out@[oi]).0@ == entries[j].0@,
                forall|oi: int|
                    0 <= oi < out@.len() ==> exists|j: int|
                        0 <= j < i && (#[trigger] entries[j]).0@ == (#[trigger] out@[oi]).0@,
                forall|a: int, b: int| 0 <= a < b < out@.len() ==> (#[trigger] out@[a]).0@ != (
                #[trigger] out@[b]).0@,
            decreases self.pending.len() - i,
        {
            let entry = &self.pending[i];
            if entry.1.account == account {
                let ghost out0 = out@;
                out.push((clone_bytes(&entry.0), entry.1.amount));
                proof {
                    crate::indexes::lemma_assoc_map_properties(self.pending@);
                    assert(out@[out@.len() - 1].0@ == entries[i as int].0@);
                    assert forall|a: int, b: int| 0 <= a < b < out@.len() implies (
                    #[trigger] out@[a]).0@ != (#[trigger] out@[b]).0@ by {
                        if b == out@.len() - 1 {
                            let j = choose|j: int|
                                0 <= j < i && (#[trigger] entries[j]).0@ == out@[a].0@;
                            assert(entries[j].0@ != entries[i as int].0@);
                        } else {
                            assert(out0[a].0@ != out0[b].0@);
                        }
                    }
                    assert forall|oi: int| 0 <= oi < out@.len() implies exists|j: int|
                        0 <= j < i + 1 && (#[trigger] entries[j]).0@ == (#[trigger] out@[oi]).0@ by {
                        if oi < out@.len() - 1 {
                            let j = choose|j: int|
                                0 <= j < i && (#[trigger] entries[j]).0@ == out0[oi].0@;
                            assert(entries[j].0@ == out@[oi].0@);
                        } else {
                            assert(entries[i as int].0@ == out@[oi].0@);
                        }
                    }
                    assert forall|j: int|
                        0 <= j < i + 1 && (#[trigger] entries[j]).1.account
                            == account implies exists|oi: int|
                        0 <= oi < out@.len() && (#[trigger] out@[oi]).0@ == entries[j].0@ by {
                        if j < i {
                            let oi = choose|oi: int|
                                0 <= oi < out0.len() && (#[trigger] out0[oi]).0@ == entries[j].0@;
                            assert(out@[oi].0@ == entries[j].0@);
                        } else {
                            assert(out@[out@.len() - 1].0@ == entries[j].0@);
                        }
                    }
                }
            }
            i = i + 1;
        }
        proof {
            crate::indexes::lemma_assoc_map_properties(entries);
            assert forall|k: Seq<u8>|
                #[trigger] self@.pending.dom().contains(k) && self@.pending[k].account
                    == account implies exists|i: int|
                0 <= i < out@.len() && (#[trigger] out@[i]).0@ == k by {
                let j = choose|j: int| 0 <= j < entries.len() && (#[trigger] entries[j]).0@ == k;
                assert(entries[j].1.account == account);
            }
        }
        out
    }

    /// Resolve a booking id.
    pub fn get_booking_by_id(&self, booking_id: &Vec<u8>) -> (r: Option<&BookingData>)
        requires
            self.inv(),
        ensures
            match r {
                Some(b) => self@.bookings.dom().contains(booking_id@) && self@.bookings[booking_id@]
                    == b@,
                None => !self@.bookings.dom().contains(booking_id@),
            },
    {
        assoc_get(&self.bookings, booking_id)
    }

    /// The representation's key discipline alone, without the view invariant;
    /// what the raw mutation helpers below preserve while a command is midway.
    pub open spec fn rep_inv(&self) -> bool {
        &&& keys_distinct(self.bookings@)
        &&& keys_distinct(self.pending@)
    }

    /// Bind `booking_id` to `data`, replacing any existing record.
    pub(crate) fn set_booking(&mut self, booking_id: Vec<u8>, data: BookingData)
        requires
            old(self).rep_inv(),
        ensures
            final(self).rep_inv(),
            final(self)@ == (StoreView {
                bookings: old(self)@.bookings.insert(booking_id@, data@),
                ..old(self)@
            }),
    {
        assoc_set(&mut self.bookings, booking_id, data);
        proof {
            assert(self@ =~= (StoreView {
                bookings: old(self)@.bookings.insert(booking_id@, data@),
                ..old(self)@
            }));
        }
    }

    /// Append `booking_id` to the append-only log.
    pub(crate) fn push_booking_id(&mut self, booking_id: Vec<u8>)
        ensures
            final(self).bookings@ == old(self).bookings@,
            final(self).pending@ == old(self).pending@,
            final(self)@ == (StoreView {
                booking_ids: old(self)@.booking_ids.push(booking_id@),
                ..old(self)@
            }),
    {
        proof {
            lemma_id_views_len(self.booking_ids@);
        }
        self.booking_ids.push(booking_id);
        proof {
            assert(self@.booking_ids =~= old(self)@.booking_ids.push(booking_id@));
            assert(self@ =~= (StoreView {
                booking_ids: old(self)@.booking_ids.push(booking_id@),
                ..old(self)@
            }));
        }
    }

    /// Append `booking_id` to the active index.
    pub(crate) fn push_active(&mut self, booking_id: Vec<u8>)
        ensures
            final(self).bookings@ == old(self).bookings@,
            final(self).pending@ == old(self).pending@,
            final(self)@ == (StoreView {
                active: old(self)@.active.push(booking_id@),
                ..old(self)@
            }),
    {
        proof {
            lemma_id_views_len(self.active@);
        }
        self.active.push(booking_id);
        proof {
            assert(self@.active =~= old(self)@.active.push(booking_id@));
            assert(self@ =~= (StoreView {
                active: old(self)@.active.push(booking_id@),
                ..old(self)@
            }));
        }
    }

    /// Swap-remove `booking_id` from the active index; says whether it was
    /// there, and moves nothing when it was not.
    pub(crate) fn remove_active(&mut self, booking_id: &Vec<u8>) -> (found: bool)
        requires
            old(self)@.active.no_duplicates(),
        ensures
            found == old(self)@.active.contains(booking_id@),
            final(self).bookings@ == old(self).bookings@,
            final(self).pending@ == old(self).pending@,
            final(self)@ == (StoreView {
                active: remove_active_id(old(self)@.active, booking_id@),
                ..old(self)@
            }),
    {
        let ghost a0 = self@.active;
        match find_id(&self.active, booking_id) {
            Some(i) => {
                proof {
                    lemma_id_views_len(self.active@);
                    assert(a0[i as int] == booking_id@);
                    assert(a0.contains(booking_id@));
                    let j = a0.index_of(booking_id@);
                    assert(0 <= j < a0.len() && a0[j] == booking_id@);
                    assert(i == j);
                }
                self.active.swap_remove(i);
                proof {
                    lemma_id_views_len(self.active@);
                    assert(self@.active =~= a0.update(a0.index_of(booking_id@), a0.last()).drop_last());
                    assert(self@ =~= (StoreView {
                        active: remove_active_id(a0, booking_id@),
                        ..old(self)@
                    }));
                }
                true
            },
            None => {
                proof {
                    assert(self@ =~= (StoreView { active: remove_active_id(a0, booking_id@), ..old(self)@ }));
                }
                false
            },
        }
    }

    /// Bind `booking_id` to `claim`, replacing any existing claim for it.
    pub(crate) fn set_pending(&mut self, booking_id: Vec<u8>, claim: PendingClaim)
        requires
            old(self).rep_inv(),
        ensures
            final(self).rep_inv(),
            final(self)@ == (StoreView {
                pending: old(self)@.pending.insert(booking_id@, claim),
                ..old(self)@
            }),
    {
        assoc_set(&mut self.pending, booking_id, claim);
        proof {
            assert(self@ =~= (StoreView {
                pending: old(self)@.pending.insert(booking_id@, claim),
                ..old(self)@
            }));
        }
    }

    /// Drop the claim referencing `booking_id`, if any.
    pub(crate) fn remove_pending(&mut self, booking_id: &Vec<u8>)
        requires
            old(self).rep_inv(),
        ensures
            final(self).rep_inv(),
            final(self)@ == (StoreView {
                pending: old(self)@.pending.remove(booking_id@),
                ..old(self)@
            }),
    {
        let _ = assoc_remove(&mut self.pending, booking_id);
        proof {
            assert(self@ =~= (StoreView {
                pending: old(self)@.pending.remove(booking_id@),
                ..old(self)@
            }));
        }
    }
}

} // verus!
