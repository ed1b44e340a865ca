//! The guarantees the lifecycle gives across commands, stated and proved over
//! the same specification functions the commands' contracts use.

use vstd::prelude::*;

use crate::escrow::free_of;
use crate::escrow::reserved_of;
use crate::escrow::EscrowView;
use crate::functions::date_conflict;
use crate::functions::lemma_overlapping_ids;
use crate::functions::overlapping_ids;
use crate::functions::spec_available;
use crate::functions::spec_cancel_all;
use crate::functions::spec_checkin;
use crate::functions::spec_confirm_booking;
use crate::functions::spec_create_booking;
use crate::functions::spec_do_cancel;
use crate::functions::spec_reject_booking;
use crate::functions::spec_withdraw_booking;
use crate::places::RegistryView;
use crate::store::is_active_state;
use crate::store::lemma_remove_active_id;
use crate::store::PendingClaim;
use crate::store::StoreView;
use crate::structures::BookingState;
use crate::structures::BookingView;
use crate::structures::Error;

verus! {

/// No persisted booking ends at or before its start: part of the store's
/// well-formedness, which every command's contract preserves.
pub proof fn lemma_booking_dates_valid(s: StoreView, booking_id: Seq<u8>)
    requires
        s.wf(),
        s.bookings.dom().contains(booking_id),
    ensures
        s.bookings[booking_id].end_date > s.bookings[booking_id].start_date,
{
}

/// The booking id is deterministic: two successful creations with the same
/// guest, place, raw dates and amount, against the same registry record,
/// yield the same id — whatever the store, the ledger and the clock looked
/// like at the time.
pub proof fn lemma_create_id_deterministic(
    s1: StoreView,
    e1: EscrowView,
    s2: StoreView,
    e2: EscrowView,
    p: RegistryView,
    sender: u64,
    place_id: Seq<u8>,
    start_date: u64,
    end_date: u64,
    amount: u64,
    now1: u64,
    now2: u64,
)
    requires
        spec_create_booking(s1, e1, p, sender, place_id, start_date, end_date, amount, now1) is Ok,
        spec_create_booking(s2, e2, p, sender, place_id, start_date, end_date, amount, now2) is Ok,
    ensures
        spec_create_booking(s1, e1, p, sender, place_id, start_date, end_date, amount, now1)->Ok_0.2
            == spec_create_booking(
            s2,
            e2,
            p,
            sender,
            place_id,
            start_date,
            end_date,
            amount,
            now2,
        )->Ok_0.2,
{
}

/// Creating a booking twice with the same inputs never yields a second
/// record: the id is a function of the creation fields alone, so as long as
/// the guest could still cover the amount, the second submission is refused
/// as a duplicate and changes nothing.
pub proof fn lemma_duplicate_create_rejected(
    s: StoreView,
    e: EscrowView,
    p: RegistryView,
    sender: u64,
    place_id: Seq<u8>,
    start_date: u64,
    end_date: u64,
    amount: u64,
    now: u64,
)
    requires
        spec_create_booking(s, e, p, sender, place_id, start_date, end_date, amount, now) is Ok,
        amount <= free_of(
            spec_create_booking(s, e, p, sender, place_id, start_date, end_date, amount, now)->Ok_0.1,
            sender,
        ),
    ensures
        ({
            let (s1, e1, id) = spec_create_booking(
                s,
                e,
                p,
                sender,
                place_id,
                start_date,
                end_date,
                amount,
                now,
            )->Ok_0;
            &&& s1.bookings.dom().contains(id)
            &&& spec_create_booking(s1, e1, p, sender, place_id, start_date, end_date, amount, now)
                == Err::<(StoreView, EscrowView, Seq<u8>), Error>(Error::BookingAlreadyExists)
        }),
{
    let (s1, e1, id) = spec_create_booking(
        s,
        e,
        p,
        sender,
        place_id,
        start_date,
        end_date,
        amount,
        now,
    )->Ok_0;
    assert forall|k: Seq<u8>|
        (#[trigger] s1.active.contains(k) && s1.bookings.dom().contains(k)
            && s1.bookings[k].place_id == place_id && s1.bookings[k].state
            != BookingState::Created) implies !date_conflict(
        s1.bookings[id].start_date,
        s1.bookings[id].end_date,
        s1.bookings[k].start_date,
        s1.bookings[k].end_date,
    ) by {
        if k != id {
            let j = choose|j: int| 0 <= j < s1.active.len() && s1.active[j] == k;
            assert(s.active[j] == k);
            assert(s.active.contains(k));
        }
    }
}

/// Escrow intake at creation: a successful `create` increases the guest's
/// reserved balance by exactly the booked amount, taken from the free
/// balance.
pub proof fn lemma_create_reserves_amount(
    s: StoreView,
    e: EscrowView,
    p: RegistryView,
    sender: u64,
    place_id: Seq<u8>,
    start_date: u64,
    end_date: u64,
    amount: u64,
    now: u64,
)
    requires
        e.wf(),
        spec_create_booking(s, e, p, sender, place_id, start_date, end_date, amount, now) is Ok,
    ensures
        ({
            let (s1, e1, id) = spec_create_booking(
                s,
                e,
                p,
                sender,
                place_id,
                start_date,
                end_date,
                amount,
                now,
            )->Ok_0;
            &&& reserved_of(e1, sender) == reserved_of(e, sender) + amount
            &&& free_of(e1, sender) == free_of(e, sender) - amount
            &&& s1.bookings[id].amount == amount
            &&& s1.pending.dom().contains(id) && s1.pending[id].amount == amount
        }),
{
    if e.accounts.dom().contains(sender) {
        assert(e.accounts[sender].free + e.accounts[sender].reserved <= u64::MAX);
    }
}

/// Escrow settlement to the host: when the host withdraws a checked-in
/// booking whose amount is still reserved on the guest's account, exactly
/// that amount leaves the guest's reservation and lands on the host's free
/// balance; the guest's free balance is untouched, the record completes, and
/// the claim is settled.
pub proof fn lemma_host_withdraw_settles_escrow(
    s: StoreView,
    e: EscrowView,
    sender: u64,
    booking_id: Seq<u8>,
)
    requires
        e.wf(),
        s.bookings.dom().contains(booking_id),
        s.bookings[booking_id].state == BookingState::OwnerCanWithdraw,
        s.bookings[booking_id].guest != s.bookings[booking_id].host,
        reserved_of(e, s.bookings[booking_id].guest) >= s.bookings[booking_id].amount,
        spec_withdraw_booking(s, e, sender, booking_id) is Ok,
    ensures
        ({
            let b = s.bookings[booking_id];
            let (s1, e1) = spec_withdraw_booking(s, e, sender, booking_id)->Ok_0;
            &&& reserved_of(e1, b.guest) == reserved_of(e, b.guest) - b.amount
            &&& free_of(e1, b.guest) == free_of(e, b.guest)
            &&& free_of(e1, b.host) == free_of(e, b.host) + b.amount
            &&& reserved_of(e1, b.host) == reserved_of(e, b.host)
            &&& s1.bookings[booking_id].state == BookingState::Completed
            &&& !s1.pending.dom().contains(booking_id)
        }),
{
    let b = s.bookings[booking_id];
    if e.accounts.dom().contains(b.guest) {
        assert(e.accounts[b.guest].free + e.accounts[b.guest].reserved <= u64::MAX);
    }
    if e.accounts.dom().contains(b.host) {
        assert(e.accounts[b.host].free + e.accounts[b.host].reserved <= u64::MAX);
    }
}

/// Escrow return to the guest: rejecting a freshly created booking moves its
/// amount from the guest's reservation to a pending claim, and the guest's
/// withdrawal then completes the booking with the reservation gone and the
/// full amount back in the guest's free balance. Stated for a guest whose
/// only reservation is this booking's escrow.
pub proof fn lemma_reject_then_withdraw_restores_escrow(
    s: StoreView,
    e: EscrowView,
    booking_id: Seq<u8>,
)
    requires
        s.wf(),
        s.bookings.dom().contains(booking_id),
        s.bookings[booking_id].state == BookingState::Created,
        s.bookings[booking_id].guest != s.bookings[booking_id].host,
        reserved_of(e, s.bookings[booking_id].guest) == s.bookings[booking_id].amount,
        free_of(e, s.bookings[booking_id].guest) + s.bookings[booking_id].amount <= u64::MAX,
    ensures
        ({
            let b = s.bookings[booking_id];
            let r1 = spec_reject_booking(s, e, b.host, booking_id);
            &&& r1 is Ok
            &&& ({
                let (s1, e1) = r1->Ok_0;
                let r2 = spec_withdraw_booking(s1, e1, b.guest, booking_id);
                &&& s1.pending.dom().contains(booking_id) && s1.pending[booking_id]
                    == (PendingClaim { account: b.guest, amount: b.amount })
                &&& reserved_of(e1, b.guest) == 0
                &&& r2 is Ok
                &&& ({
                    let (s2, e2) = r2->Ok_0;
                    &&& s2.bookings[booking_id].state == BookingState::Completed
                    &&& reserved_of(e2, b.guest) == 0
                    &&& free_of(e2, b.guest) == free_of(e, b.guest) + b.amount
                    &&& free_of(e2, b.host) == free_of(e, b.host)
                    &&& !s2.pending.dom().contains(booking_id)
                })
            })
        }),
{
    let b = s.bookings[booking_id];
    assert(s.active.contains(booking_id));
}

/// Checkin timing: as the guest of a confirmed booking, checking in fails
/// with the timing error exactly when attempted strictly before the booking's
/// start, and at or after the start it succeeds, moving the record from
/// `Confirmed` to `OwnerCanWithdraw` and changing nothing else.
pub proof fn lemma_checkin_timing(s: StoreView, sender: u64, booking_id: Seq<u8>, now: u64)
    requires
        s.bookings.dom().contains(booking_id),
        sender == s.bookings[booking_id].guest,
        s.bookings[booking_id].state == BookingState::Confirmed,
    ensures
        (now < s.bookings[booking_id].start_date) <==> (spec_checkin(s, sender, booking_id, now)
            == Err::<StoreView, Error>(Error::CheckinNotAvailableYet)),
        now >= s.bookings[booking_id].start_date ==> (spec_checkin(s, sender, booking_id, now)
            matches Ok(s1) && s1.bookings[booking_id].state == BookingState::OwnerCanWithdraw
            && s1.active == s.active && s1.pending == s.pending && s1.booking_ids == s.booking_ids
            && (forall|k: Seq<u8>| k != booking_id && #[trigger] s1.bookings.dom().contains(k)
                ==> s.bookings.dom().contains(k) && s1.bookings[k] == s.bookings[k])),
{
}

/// What one cancellation of the eviction sweep does, id by id.
proof fn lemma_do_cancel_effects(s: StoreView, e: EscrowView, booking_id: Seq<u8>)
    requires
        s.wf(),
        s.active.contains(booking_id),
    ensures
        spec_do_cancel(s, e, booking_id) is Ok,
        ({
            let (s1, e1) = spec_do_cancel(s, e, booking_id)->Ok_0;
            &&& s1.wf()
            &&& s1.booking_ids == s.booking_ids
            &&& s1.bookings[booking_id] == (BookingView {
                state: BookingState::Rejected,
                ..s.bookings[booking_id]
            })
            &&& !s1.active.contains(booking_id)
            &&& s1.pending[booking_id] == (PendingClaim {
                account: s.bookings[booking_id].guest,
                amount: s.bookings[booking_id].amount,
            }) && s1.pending.dom().contains(booking_id)
            &&& s1.bookings == s.bookings.insert(
                booking_id,
                BookingView { state: BookingState::Rejected, ..s.bookings[booking_id] },
            )
            &&& s1.pending == s.pending.insert(
                booking_id,
                PendingClaim {
                    account: s.bookings[booking_id].guest,
                    amount: s.bookings[booking_id].amount,
                },
            )
            &&& forall|x: Seq<u8>| #[trigger] s1.active.contains(x) <==> (s.active.contains(x) && x
                != booking_id)
        }),
{
    let (s1, e1) = spec_do_cancel(s, e, booking_id)->Ok_0;
    lemma_remove_active_id(s.active, booking_id);
    assert forall|k: Seq<u8>| #[trigger] s1.active.contains(k) implies s1.bookings.dom().contains(
        k,
    ) by {
        assert(s.active.contains(k));
    }
    assert forall|k: Seq<u8>| #[trigger] s1.bookings.dom().contains(k) implies (s1.active.contains(
        k,
    ) <==> is_active_state(s1.bookings[k].state)) by {
        if k != booking_id {
            assert(s.bookings.dom().contains(k));
        }
    }
    assert forall|k: Seq<u8>| #[trigger] s1.bookings.dom().contains(k) implies s1.bookings[k].end_date
        > s1.bookings[k].start_date by {
        if k != booking_id {
            assert(s.bookings.dom().contains(k));
        }
    }
}

/// What the whole eviction sweep does: it goes through, and every listed id
/// ends `Rejected`, off the active index, with its guest's claim recorded;
/// everything else keeps its record.
proof fn lemma_cancel_all_effects(s: StoreView, e: EscrowView, ids: Seq<Seq<u8>>)
    requires
        s.wf(),
        ids.no_duplicates(),
        forall|j: int| 0 <= j < ids.len() ==> s.active.contains(#[trigger] ids[j]),
    ensures
        spec_cancel_all(s, e, ids) is Ok,
        ({
            let (s1, e1) = spec_cancel_all(s, e, ids)->Ok_0;
            &&& s1.wf()
            &&& s1.booking_ids == s.booking_ids
            &&& forall|x: Seq<u8>| #[trigger] ids.contains(x) ==> s1.bookings[x] == (BookingView {
                state: BookingState::Rejected,
                ..s.bookings[x]
            }) && !s1.active.contains(x) && s1.pending.dom().contains(x) && s1.pending[x]
                == (PendingClaim { account: s.bookings[x].guest, amount: s.bookings[x].amount })
            &&& forall|x: Seq<u8>| !(#[trigger] ids.contains(x)) ==> ((s1.bookings.dom().contains(
                x,
            ) <==> s.bookings.dom().contains(x)) && (s.bookings.dom().contains(x)
                ==> s1.bookings[x] == s.bookings[x]) && (s1.active.contains(x)
                <==> s.active.contains(x)) && (s1.pending.dom().contains(x)
                <==> s.pending.dom().contains(x)) && (s.pending.dom().contains(x)
                ==> s1.pending[x] == s.pending[x]))
        }),
    decreases ids.len(),
{
    if ids.len() > 0 {
        let first = ids[0];
        assert(s.active.contains(first));
        lemma_do_cancel_effects(s, e, first);
        let (sa, ea) = spec_do_cancel(s, e, first)->Ok_0;
        let rest = ids.drop_first();
        assert forall|j: int| 0 <= j < rest.len() implies sa.active.contains(
            #[trigger] rest[j],
        ) by {
            assert(rest[j] == ids[j + 1]);
            assert(s.active.contains(ids[j + 1]));
            assert(ids[j + 1] != first);
        }
        assert(rest.no_duplicates());
        lemma_cancel_all_effects(sa, ea, rest);
        let (s1, e1) = spec_cancel_all(sa, ea, rest)->Ok_0;
        assert forall|x: Seq<u8>| #[trigger] ids.contains(x) implies s1.bookings[x] == (BookingView {
            state: BookingState::Rejected,
            ..s.bookings[x]
        }) && !s1.active.contains(x) && s1.pending.dom().contains(x) && s1.pending[x]
            == (PendingClaim { account: s.bookings[x].guest, amount: s.bookings[x].amount }) by {
            let j = choose|j: int| 0 <= j < ids.len() && ids[j] == x;
            if j == 0 {
                assert(!rest.contains(x)) by {
                    if rest.contains(x) {
                        let jj = choose|jj: int| 0 <= jj < rest.len() && rest[jj] == x;
                        assert(ids[jj + 1] == x);
                        assert(false);
                    }
                }
                assert(sa.bookings[x] == (BookingView {
                    state: BookingState::Rejected,
                    ..s.bookings[x]
                }));
                assert(!sa.active.contains(x));
            } else {
                assert(rest[j - 1] == x);
                assert(rest.contains(x));
                assert(x != first);
                assert(sa.bookings[x] == s.bookings[x]);
                assert(s1.bookings[x] == (BookingView {
                    state: BookingState::Rejected,
                    ..sa.bookings[x]
                }));
            }
        }
        assert forall|x: Seq<u8>| !(#[trigger] ids.contains(x)) implies ((s1.bookings.dom().contains(
            x,
        ) <==> s.bookings.dom().contains(x)) && (s.bookings.dom().contains(x) ==> s1.bookings[x]
            == s.bookings[x]) && (s1.active.contains(x) <==> s.active.contains(x)) && (
        s1.pending.dom().contains(x) <==> s.pending.dom().contains(x)) && (s.pending.dom().contains(
            x,
        ) ==> s1.pending[x] == s.pending[x])) by {
            assert(x != first) by {
                if x == first {
                    assert(ids[0] == x);
                }
            }
            assert(!rest.contains(x)) by {
                if rest.contains(x) {
                    let jj = choose|jj: int| 0 <= jj < rest.len() && rest[jj] == x;
                    assert(ids[jj + 1] == x);
                }
            }
            assert(sa.active.contains(x) <==> s.active.contains(x));
        }
    }
}

/// Confirm eviction: confirming a booking auto-rejects every *other* active
/// booking of the same place whose range conflicts with it under
/// [`date_conflict`], each ending `Rejected`, off the active index, and with
/// its escrowed amount recorded as its own guest's pending claim.
pub proof fn lemma_confirm_evicts_overlapping(
    s: StoreView,
    e: EscrowView,
    sender: u64,
    booking_id: Seq<u8>,
    now: u64,
    other: Seq<u8>,
)
    requires
        s.wf(),
        spec_confirm_booking(s, e, sender, booking_id, now) is Ok,
        s.active.contains(other),
        other != booking_id,
        s.bookings.dom().contains(other),
        s.bookings[other].place_id == s.bookings[booking_id].place_id,
        date_conflict(
            s.bookings[booking_id].start_date,
            s.bookings[booking_id].end_date,
            s.bookings[other].start_date,
            s.bookings[other].end_date,
        ),
    ensures
        ({
            let (s1, e1) = spec_confirm_booking(s, e, sender, booking_id, now)->Ok_0;
            &&& s1.bookings[other].state == BookingState::Rejected
            &&& !s1.active.contains(other)
            &&& s1.pending.dom().contains(other)
            &&& s1.pending[other] == (PendingClaim {
                account: s.bookings[other].guest,
                amount: s.bookings[other].amount,
            })
            &&& s1.bookings[booking_id].state == BookingState::Confirmed
        }),
{
    let b = s.bookings[booking_id];
    let ids = overlapping_ids(s.active, s.bookings, b.place_id, booking_id, b.start_date, b.end_date);
    lemma_overlapping_ids(s.active, s.bookings, b.place_id, booking_id, b.start_date, b.end_date);
    assert(ids.contains(other));
    assert forall|j: int| 0 <= j < ids.len() implies s.active.contains(#[trigger] ids[j]) by {
        assert(ids.contains(ids[j]));
    }
    lemma_cancel_all_effects(s, e, ids);
    assert(!ids.contains(booking_id));
}

/// Availability refuses exactly the three containment/equality conflicts: a
/// range strictly containing a non-`Created` active booking of the place, one
/// matching it exactly, or one strictly contained in it, is unavailable; any
/// other candidate — a partial overlap included — is available.
pub proof fn lemma_availability_rule(
    s: StoreView,
    place: Seq<u8>,
    start_date: u64,
    end_date: u64,
    other: Seq<u8>,
)
    requires
        s.active.contains(other),
        s.bookings.dom().contains(other),
        s.bookings[other].place_id == place,
        s.bookings[other].state != BookingState::Created,
        date_conflict(
            start_date,
            end_date,
            s.bookings[other].start_date,
            s.bookings[other].end_date,
        ),
    ensures
        !spec_available(s, place, start_date, end_date),
{
}

} // verus!
