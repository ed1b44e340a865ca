//! The booking lifecycle: create, confirm, reject, check in and withdraw,
//! coordinating the store, the escrow ledger and the listing registry.

use vstd::prelude::*;

use crate::escrow::free_of;
use crate::escrow::reserved_of;
use crate::escrow::spec_reserve;
use crate::escrow::spec_transfer;
use crate::escrow::spec_unreserve;
use crate::escrow::Escrow;
use crate::escrow::EscrowView;
use crate::hashing::booking_id_of;
use crate::hashing::compute_booking_id;
use crate::indexes::clone_bytes;
use crate::indexes::id_views;
use crate::places::PlaceRegistry;
use crate::places::RegistryView;
use crate::store::is_active_state;
use crate::store::lemma_remove_active_id;
use crate::store::remove_active_id;
use crate::store::BookingsStore;
use crate::store::PendingClaim;
use crate::store::StoreView;
use crate::structures::BookingData;
use crate::structures::BookingHashingData;
use crate::structures::BookingState;
use crate::structures::BookingView;
use crate::structures::Error;
use crate::utils::calculate_total_amount;
use crate::utils::modify_timestamp;
use crate::utils::spec_modify_timestamp;
use crate::utils::spec_total_amount;

verus! {

/// The exact date-conflict rule: a candidate range conflicts with an existing
/// one only when it strictly contains it, matches it on both bounds, or is
/// strictly contained in it. A partial overlap that is not a containment —
/// shifted ranges sharing one boundary, or crossing ranges — is deliberately
/// *not* a conflict under this rule.
pub open spec fn date_conflict(
    candidate_start: u64,
    candidate_end: u64,
    booked_start: u64,
    booked_end: u64,
) -> bool {
    ||| (candidate_start < booked_start && candidate_end > booked_end)
    ||| (candidate_start == booked_start && candidate_end == booked_end)
    ||| (candidate_start > booked_start && candidate_end < booked_end)
}

/// Decide [`date_conflict`].
fn dates_conflict(
    candidate_start: u64,
    candidate_end: u64,
    booked_start: u64,
    booked_end: u64,
) -> (r: bool)
    ensures
        r == date_conflict(candidate_start, candidate_end, booked_start, booked_end),
{
    (candidate_start < booked_start && candidate_end > booked_end) || (candidate_start
        == booked_start && candidate_end == booked_end) || (candidate_start > booked_start
        && candidate_end < booked_end)
}

/// Whether `place` is free for the candidate range: no active booking of the
/// place that has left state `Created` conflicts with it under
/// [`date_conflict`].
pub open spec fn spec_available(v: StoreView, place: Seq<u8>, start_date: u64, end_date: u64) -> bool {
    forall|k: Seq<u8>|
        (#[trigger] v.active.contains(k) && v.bookings.dom().contains(k)
            && v.bookings[k].place_id == place && v.bookings[k].state != BookingState::Created)
            ==> !date_conflict(start_date, end_date, v.bookings[k].start_date, v.bookings[k].end_date)
}

/// The *other* active bookings of `place` whose range conflicts with the
/// candidate range, whatever their state, in active-index order.
pub open spec fn overlapping_ids(
    active: Seq<Seq<u8>>,
    bookings: Map<Seq<u8>, BookingView>,
    place: Seq<u8>,
    exclude: Seq<u8>,
    start_date: u64,
    end_date: u64,
) -> Seq<Seq<u8>>
    decreases active.len(),
{
    if active.len() == 0 {
        active
    } else {
        let d = overlapping_ids(active.drop_last(), bookings, place, exclude, start_date, end_date);
        let k = active.last();
        if k != exclude && bookings.dom().contains(k) && bookings[k].place_id == place
            && date_conflict(start_date, end_date, bookings[k].start_date, bookings[k].end_date) {
            d.push(k)
        } else {
            d
        }
    }
}

/// The overlapping ids are exactly the other conflicting active ids, each
/// held once when the active index holds each id once.
pub proof fn lemma_overlapping_ids(
    active: Seq<Seq<u8>>,
    bookings: Map<Seq<u8>, BookingView>,
    place: Seq<u8>,
    exclude: Seq<u8>,
    start_date: u64,
    end_date: u64,
)
    requires
        active.no_duplicates(),
    ensures
        overlapping_ids(active, bookings, place, exclude, start_date, end_date).no_duplicates(),
        forall|k: Seq<u8>| #[trigger] overlapping_ids(
            active,
            bookings,
            place,
            exclude,
            start_date,
            end_date,
        ).contains(k) <==> (active.contains(k) && k != exclude && bookings.dom().contains(k)
            && bookings[k].place_id == place && date_conflict(
            start_date,
            end_date,
            bookings[k].start_date,
            bookings[k].end_date,
        )),
    decreases active.len(),
{
    if active.len() > 0 {
        let dl = active.drop_last();
        lemma_overlapping_ids(dl, bookings, place, exclude, start_date, end_date);
        let d = overlapping_ids(dl, bookings, place, exclude, start_date, end_date);
        let o = overlapping_ids(active, bookings, place, exclude, start_date, end_date);
        assert forall|k: Seq<u8>| #[trigger] o.contains(k) implies (active.contains(k) && k
            != exclude && bookings.dom().contains(k) && bookings[k].place_id == place
            && date_conflict(start_date, end_date, bookings[k].start_date, bookings[k].end_date)) by {
            let j = choose|j: int| 0 <= j < o.len() && o[j] == k;
            if j < d.len() {
                assert(d[j] == k);
                assert(d.contains(k));
                let i = choose|i: int| 0 <= i < dl.len() && dl[i] == k;
                assert(active[i] == k);
            } else {
                assert(k == active.last());
                assert(active[active.len() - 1] == k);
            }
        }
        assert forall|k: Seq<u8>| (active.contains(k) && k != exclude && bookings.dom().contains(k)
            && bookings[k].place_id == place && date_conflict(
            start_date,
            end_date,
            bookings[k].start_date,
            bookings[k].end_date,
        )) implies #[trigger] o.contains(k) by {
            let i = choose|i: int| 0 <= i < active.len() && active[i] == k;
            if i < active.len() - 1 {
                assert(dl[i] == k);
                assert(dl.contains(k));
                assert(d.contains(k));
                let j = choose|j: int| 0 <= j < d.len() && d[j] == k;
                assert(o[j] == k);
            } else {
                assert(o[o.len() - 1] == k);
            }
        }
        if o.len() > d.len() {
            assert forall|a: int, b: int| 0 <= a < b < o.len() implies o[a] != o[b] by {
                if b == o.len() - 1 {
                    assert(d.contains(o[a]));
                    assert(dl.contains(o[a]));
                    if o[a] == active.last() {
                        let i = choose|i: int| 0 <= i < dl.len() && dl[i] == o[a];
                        assert(active[i] == active[active.len() - 1]);
                        assert(false);
                    }
                } else {
                    assert(d[a] != d[b]);
                }
            }
        }
    }
}

/// What canceling a booking does: the record moves to `Rejected`, the id
/// leaves the place's active index (its absence there means index corruption
/// and fails the command), the guest's escrowed amount is unreserved, the
/// host's pending claim for the booking is dropped, and the guest gains the
/// claim `(booking_id, amount)` instead.
pub open spec fn spec_do_cancel(s: StoreView, e: EscrowView, booking_id: Seq<u8>) -> Result<
    (StoreView, EscrowView),
    Error,
> {
    if !(s.bookings.dom().contains(booking_id) && s.active.contains(booking_id)) {
        Err(Error::BookingNotFound)
    } else {
        let b = s.bookings[booking_id];
        Ok(
            (
                StoreView {
                    booking_ids: s.booking_ids,
                    bookings: s.bookings.insert(
                        booking_id,
                        BookingView { state: BookingState::Rejected, ..b },
                    ),
                    active: remove_active_id(s.active, booking_id),
                    pending: s.pending.insert(
                        booking_id,
                        PendingClaim { account: b.guest, amount: b.amount },
                    ),
                },
                spec_unreserve(e, b.guest, b.amount),
            ),
        )
    }
}

/// Two instants normalized to the same place's check-in and check-out hours
/// never coincide: the hours differ, and whole days cannot absorb a
/// difference of at most 22 hours.
proof fn lemma_normalized_dates_strict(
    fs: u64,
    fe: u64,
    ms_s: u64,
    ms_e: u64,
    checkin_hour: u32,
    checkout_hour: u32,
)
    requires
        0 < checkout_hour < checkin_hour <= 23,
        fs == ms_s - ms_s % crate::MILLIS_PER_DAY + (checkin_hour as u64) * crate::MILLIS_PER_HOUR,
        fe == ms_e - ms_e % crate::MILLIS_PER_DAY + (checkout_hour as u64) * crate::MILLIS_PER_HOUR,
        fe >= fs,
    ensures
        fe > fs,
{
    let day = crate::MILLIS_PER_DAY as int;
    let hour = crate::MILLIS_PER_HOUR as int;
    let ds = ms_s - ms_s % crate::MILLIS_PER_DAY;
    let de = ms_e - ms_e % crate::MILLIS_PER_DAY;
    assert(ds == day * ((ms_s as int) / day));
    assert(de == day * ((ms_e as int) / day));
    if fe == fs {
        let q1 = (ms_s as int) / day;
        let q2 = (ms_e as int) / day;
        let rhs = (checkin_hour - checkout_hour) * hour;
        assert(day * q2 - day * q1 == rhs);
        assert(hour <= rhs <= 22 * hour);
        let diff = q2 - q1;
        assert(day * diff == rhs) by (nonlinear_arith)
            requires
                day * q2 - day * q1 == rhs,
                diff == q2 - q1,
        ;
        assert(false) by (nonlinear_arith)
            requires
                day * diff == rhs,
                3_600_000 <= rhs <= 79_200_000,
                day == 86_400_000,
        ;
    }
}

/// What creating a booking does, in guard order: the raw dates must be
/// ordered; the place must exist and not belong to the guest; both dates are
/// normalized to the place's hours; the normalized start must lie in the
/// future; the range must be available; the submitted amount must equal the
/// computed price to the unit; the guest must have the free balance; and the
/// content-addressed id must be fresh. Then the record is persisted in state
/// `Created`, indexed, the guest's amount is reserved, and the host gains the
/// pending claim.
pub open spec fn spec_create_booking(
    s: StoreView,
    e: EscrowView,
    p: RegistryView,
    sender: u64,
    place_id: Seq<u8>,
    start_date: u64,
    end_date: u64,
    amount: u64,
    now: u64,
) -> Result<(StoreView, EscrowView, Seq<u8>), Error> {
    if end_date <= start_date {
        Err(Error::InvalidDates)
    } else if !p.places.dom().contains(place_id) {
        Err(Error::PlaceNotFound)
    } else {
        let place = p.places[place_id];
        if place.owner == sender {
            Err(Error::CannotBookOwnedPlace)
        } else {
            match spec_modify_timestamp(start_date, place.checkin_hour) {
                Err(er) => Err(er),
                Ok(formatted_start) => match spec_modify_timestamp(end_date, place.checkout_hour) {
                    Err(er) => Err(er),
                    Ok(formatted_end) => if formatted_start <= now {
                        Err(Error::InvalidStartDate)
                    } else if !spec_available(s, place_id, formatted_start, formatted_end) {
                        Err(Error::BookingDatesNotAvailable)
                    } else {
                        match spec_total_amount(formatted_start, formatted_end, place.price_per_night) {
                            Err(er) => Err(er),
                            Ok(expected) => if amount < expected {
                                Err(Error::AmountTooLow)
                            } else if amount > expected {
                                Err(Error::AmountTooHigh)
                            } else if free_of(e, sender) < amount {
                                Err(Error::NotEnoughFreeBalance)
                            } else {
                                let id = booking_id_of(
                                    place_id,
                                    place.owner,
                                    sender,
                                    formatted_start,
                                    formatted_end,
                                    amount,
                                );
                                if s.bookings.dom().contains(id) {
                                    Err(Error::BookingAlreadyExists)
                                } else {
                                    let b = BookingView {
                                        place_id,
                                        host: place.owner,
                                        guest: sender,
                                        start_date: formatted_start,
                                        end_date: formatted_end,
                                        amount,
                                        state: BookingState::Created,
                                    };
                                    Ok(
                                        (
                                            StoreView {
                                                booking_ids: s.booking_ids.push(id),
                                                bookings: s.bookings.insert(id, b),
                                                active: s.active.push(id),
                                                pending: s.pending.insert(
                                                    id,
                                                    PendingClaim { account: place.owner, amount },
                                                ),
                                            },
                                            spec_reserve(e, sender, amount)->Ok_0,
                                            id,
                                        ),
                                    )
                                }
                            },
                        }
                    },
                },
            }
        }
    }
}

/// Cancel the listed bookings in order, threading the store and the ledger.
pub open spec fn spec_cancel_all(s: StoreView, e: EscrowView, ids: Seq<Seq<u8>>) -> Result<
    (StoreView, EscrowView),
    Error,
>
    decreases ids.len(),
{
    if ids.len() == 0 {
        Ok((s, e))
    } else {
        match spec_do_cancel(s, e, ids[0]) {
            Err(er) => Err(er),
            Ok((s1, e1)) => spec_cancel_all(s1, e1, ids.drop_first()),
        }
    }
}

/// What confirming a booking does: only its host may confirm, only from state
/// `Created`, and only strictly before the booking's start; every other
/// active booking whose range conflicts under [`date_conflict`] is canceled
/// as by [`spec_do_cancel`], and the booking itself becomes `Confirmed`.
pub open spec fn spec_confirm_booking(
    s: StoreView,
    e: EscrowView,
    sender: u64,
    booking_id: Seq<u8>,
    now: u64,
) -> Result<(StoreView, EscrowView), Error> {
    if !s.bookings.dom().contains(booking_id) {
        Err(Error::BookingNotFound)
    } else {
        let b = s.bookings[booking_id];
        if sender != b.host {
            Err(Error::NotPlaceOwner)
        } else if b.state != BookingState::Created {
            Err(Error::WrongState)
        } else if now >= b.start_date {
            Err(Error::CannotConfirmOutdatedBooking)
        } else {
            let ids = overlapping_ids(
                s.active,
                s.bookings,
                b.place_id,
                booking_id,
                b.start_date,
                b.end_date,
            );
            match spec_cancel_all(s, e, ids) {
                Err(er) => Err(er),
                Ok((s1, e1)) => Ok(
                    (
                        StoreView {
                            bookings: s1.bookings.insert(
                                booking_id,
                                BookingView { state: BookingState::Confirmed, ..b },
                            ),
                            ..s1
                        },
                        e1,
                    ),
                ),
            }
        }
    }
}

/// What rejecting a booking does: only its host may reject, only from state
/// `Created`; the cancel procedure of [`spec_do_cancel`] runs once.
pub open spec fn spec_reject_booking(
    s: StoreView,
    e: EscrowView,
    sender: u64,
    booking_id: Seq<u8>,
) -> Result<(StoreView, EscrowView), Error> {
    if !s.bookings.dom().contains(booking_id) {
        Err(Error::BookingNotFound)
    } else {
        let b = s.bookings[booking_id];
        if sender != b.host {
            Err(Error::NotPlaceOwner)
        } else if b.state != BookingState::Created {
            Err(Error::WrongState)
        } else {
            spec_do_cancel(s, e, booking_id)
        }
    }
}

/// What checking in does: only the booking's guest may check in, only from
/// state `Confirmed`, and only at or after the booking's start; the record
/// moves to `OwnerCanWithdraw` and nothing else changes.
pub open spec fn spec_checkin(s: StoreView, sender: u64, booking_id: Seq<u8>, now: u64) -> Result<
    StoreView,
    Error,
> {
    if !s.bookings.dom().contains(booking_id) {
        Err(Error::BookingNotFound)
    } else {
        let b = s.bookings[booking_id];
        if sender != b.guest {
            Err(Error::NotPlaceGuest)
        } else if b.state != BookingState::Confirmed {
            Err(Error::WrongState)
        } else if now < b.start_date {
            Err(Error::CheckinNotAvailableYet)
        } else {
            Ok(
                StoreView {
                    bookings: s.bookings.insert(
                        booking_id,
                        BookingView { state: BookingState::OwnerCanWithdraw, ..b },
                    ),
                    ..s
                },
            )
        }
    }
}

/// What the guest's withdrawal does: only the booking's guest may settle; the
/// escrowed amount is unreserved once more, the pending claim is dropped, and
/// the record completes.
pub open spec fn spec_guest_withdraw(
    s: StoreView,
    e: EscrowView,
    sender: u64,
    booking_id: Seq<u8>,
) -> Result<(StoreView, EscrowView), Error> {
    let b = s.bookings[booking_id];
    if sender != b.guest {
        Err(Error::NotPlaceGuest)
    } else {
        Ok(
            (
                StoreView {
                    bookings: s.bookings.insert(
                        booking_id,
                        BookingView { state: BookingState::Completed, ..b },
                    ),
                    pending: s.pending.remove(booking_id),
                    ..s
                },
                spec_unreserve(e, b.guest, b.amount),
            ),
        )
    }
}

/// What the host's withdrawal does: only the booking's host may settle; the
/// guest's escrowed amount is unreserved and then transferred to the host,
/// keeping the guest's account alive; the pending claim and the active index
/// entry are dropped and the record completes. A failing transfer aborts the
/// command with no mutation.
pub open spec fn spec_host_withdraw(
    s: StoreView,
    e: EscrowView,
    sender: u64,
    booking_id: Seq<u8>,
) -> Result<(StoreView, EscrowView), Error> {
    let b = s.bookings[booking_id];
    if sender != b.host {
        Err(Error::NotPlaceOwner)
    } else {
        let e1 = spec_unreserve(e, b.guest, b.amount);
        match spec_transfer(e1, b.guest, b.host, b.amount, true) {
            Err(er) => Err(er),
            Ok(e2) => if !s.active.contains(booking_id) {
                Err(Error::BookingNotFound)
            } else {
                Ok(
                    (
                        StoreView {
                            bookings: s.bookings.insert(
                                booking_id,
                                BookingView { state: BookingState::Completed, ..b },
                            ),
                            pending: s.pending.remove(booking_id),
                            active: remove_active_id(s.active, booking_id),
                            ..s
                        },
                        e2,
                    ),
                )
            },
        }
    }
}

/// What withdrawing does: the settlement path is picked by the booking's
/// state — the guest settles a rejected booking back, the host settles a
/// checked-in one, `Withdrawable` is reserved for a refund policy and not
/// supported, and every other state refuses.
pub open spec fn spec_withdraw_booking(
    s: StoreView,
    e: EscrowView,
    sender: u64,
    booking_id: Seq<u8>,
) -> Result<(StoreView, EscrowView), Error> {
    if !s.bookings.dom().contains(booking_id) {
        Err(Error::BookingNotFound)
    } else {
        match s.bookings[booking_id].state {
            BookingState::Rejected => spec_guest_withdraw(s, e, sender, booking_id),
            BookingState::UserCanWithdraw => spec_guest_withdraw(s, e, sender, booking_id),
            BookingState::Withdrawable => Err(Error::NotImplemented),
            BookingState::OwnerCanWithdraw => spec_host_withdraw(s, e, sender, booking_id),
            _ => Err(Error::WrongState),
        }
    }
}

impl BookingsStore {
    /// Whether the place is free for the candidate range: scans the active
    /// bookings and flags only the three containment/equality conflicts of
    /// [`date_conflict`].
    pub fn check_availability(&self, place_id: &Vec<u8>, start_date: u64, end_date: u64) -> (r:
        bool)
        requires
            self.inv(),
        ensures
            r == spec_available(self@, place_id@, start_date, end_date),
    {
        let ghost active0 = self@.active;
        let mut i: usize = 0;
        while i < self.active.len()
            invariant
                i <= self.active.len(),
                active0 == self@.active,
                self.inv(),
                forall|j: int|
                    0 <= j < i ==> {
                        let k = #[trigger] active0[j];
                        (self@.bookings.dom().contains(k) && self@.bookings[k].place_id == place_id@
                            && self@.bookings[k].state != BookingState::Created) ==> !date_conflict(
                            start_date,
                            end_date,
                            self@.bookings[k].start_date,
                            self@.bookings[k].end_date,
                        )
                    },
            decreases self.active.len() - i,
        {
            match crate::indexes::assoc_get(&self.bookings, &self.active[i]) {
                Some(booking) => {
                    let skip = match booking.state {
                        BookingState::Created => true,
                        _ => false,
                    };
                    if !skip && crate::indexes::bytes_eq(&booking.place_id, place_id)
                        && dates_conflict(start_date, end_date, booking.start_date, booking.end_date) {
                        proof {
                            assert(active0[i as int] == self@.active[i as int]);
                            assert(self@.active.contains(active0[i as int]));
                        }
                        return false;
                    }
                },
                None => {
                    proof {
                        assert(self@.active.contains(active0[i as int]));
                        assert(false);
                    }
                },
            }
            i = i + 1;
        }
        proof {
            assert forall|k: Seq<u8>|
                (#[trigger] self@.active.contains(k) && self@.bookings.dom().contains(k)
                    && self@.bookings[k].place_id == place_id@ && self@.bookings[k].state
                    != BookingState::Created) implies !date_conflict(
                start_date,
                end_date,
                self@.bookings[k].start_date,
                self@.bookings[k].end_date,
            ) by {
                let j = choose|j: int| 0 <= j < active0.len() && active0[j] == k;
                assert(active0[j] == k);
            }
        }
        true
    }

    /// Every *other* active booking of the place whose range conflicts with
    /// the candidate range, whatever its state; what a confirmation evicts.
    pub fn get_overlapping_bookings(
        &self,
        place_id: &Vec<u8>,
        booking_id_to_confirm: &Vec<u8>,
        booking_start_date: u64,
        booking_end_date: u64,
    ) -> (r: Vec<Vec<u8>>)
        requires
            self.inv(),
        ensures
            id_views(r@) == overlapping_ids(
                self@.active,
                self@.bookings,
                place_id@,
                booking_id_to_confirm@,
                booking_start_date,
                booking_end_date,
            ),
    {
        let ghost active0 = self@.active;
        let mut out: Vec<Vec<u8>> = Vec::new();
        let mut i: usize = 0;
        while i < self.active.len()
            invariant
                i <= self.active.len(),
                active0 == self@.active,
                self.inv(),
                id_views(out@) == overlapping_ids(
                    active0.subrange(0, i as int),
                    self@.bookings,
                    place_id@,
                    booking_id_to_confirm@,
                    booking_start_date,
                    booking_end_date,
                ),
            decreases self.active.len() - i,
        {
            proof {
                assert(active0.subrange(0, i + 1).drop_last() =~= active0.subrange(0, i as int));
                assert(active0.subrange(0, i + 1).last() == active0[i as int]);
            }
            if !crate::indexes::bytes_eq(&self.active[i], booking_id_to_confirm) {
                match crate::indexes::assoc_get(&self.bookings, &self.active[i]) {
                    Some(booking) => {
                        if crate::indexes::bytes_eq(&booking.place_id, place_id) && dates_conflict(
                            booking_start_date,
                            booking_end_date,
                            booking.start_date,
                            booking.end_date,
                        ) {
                            out.push(clone_bytes(&self.active[i]));
                            proof {
                                assert(id_views(out@) =~= overlapping_ids(
                                    active0.subrange(0, i as int),
                                    self@.bookings,
                                    place_id@,
                                    booking_id_to_confirm@,
                                    booking_start_date,
                                    booking_end_date,
                                ).push(active0[i as int]));
                            }
                        }
                    },
                    None => {
                        proof {
                            assert(self@.active.contains(active0[i as int]));
                            assert(false);
                        }
                    },
                }
            }
            i = i + 1;
        }
        proof {
            assert(active0.subrange(0, active0.len() as int) =~= active0);
        }
        out
    }

    /// Cancel one booking: mark it `Rejected`, drop it from the active index,
    /// release the guest's escrow, and move the pending claim from the host
    /// to the guest. Fails with no mutation when the booking or its active
    /// index entry is missing.
    fn do_cancel_booking(&mut self, escrow: &mut Escrow, booking_id: &Vec<u8>) -> (r: Result<
        (),
        Error,
    >)
        requires
            old(self).inv(),
            old(escrow).inv(),
        ensures
            final(self).inv(),
            final(escrow).inv(),
            match r {
                Ok(_) => spec_do_cancel(old(self)@, old(escrow)@, booking_id@) == Ok::<_, Error>(
                    (final(self)@, final(escrow)@),
                ),
                Err(e) => final(self)@ == old(self)@ && final(escrow)@ == old(escrow)@
                    && spec_do_cancel(old(self)@, old(escrow)@, booking_id@) == Err::<
                    (StoreView, EscrowView),
                    _,
                >(e),
            },
    {
        let ghost s0 = self@;
        let ghost e0 = escrow@;
        let (updated, guest, amount) = match self.get_booking_by_id(booking_id) {
            Some(b) => {
                (
                    BookingData {
                        place_id: clone_bytes(&b.place_id),
                        host: b.host,
                        guest: b.guest,
                        start_date: b.start_date,
                        end_date: b.end_date,
                        amount: b.amount,
                        state: BookingState::Rejected,
                    },
                    b.guest,
                    b.amount,
                )
            },
            None => {
                return Err(Error::BookingNotFound);
            },
        };
        if !self.remove_active(booking_id) {
            return Err(Error::BookingNotFound);
        }
        proof {
            lemma_remove_active_id(s0.active, booking_id@);
        }
        self.set_booking(clone_bytes(booking_id), updated);
        escrow.unreserve(guest, amount);
        self.remove_pending(booking_id);
        self.set_pending(clone_bytes(booking_id), PendingClaim { account: guest, amount });
        proof {
            let s1 = self@;
            let expected = spec_do_cancel(s0, e0, booking_id@)->Ok_0;
            assert(s1.pending =~= s0.pending.insert(
                booking_id@,
                PendingClaim { account: guest, amount },
            ));
            assert(s1 =~= expected.0);
            assert forall|k: Seq<u8>| #[trigger] s1.active.contains(k) implies s1.bookings.dom().contains(
                k,
            ) by {
                assert(s0.active.contains(k));
            }
            assert forall|k: Seq<u8>| #[trigger] s1.bookings.dom().contains(k) implies (
            s1.active.contains(k) <==> is_active_state(s1.bookings[k].state)) by {
                if k != booking_id@ {
                    assert(s0.bookings.dom().contains(k));
                }
            }
            assert forall|k: Seq<u8>| #[trigger] s1.bookings.dom().contains(k) implies s1.bookings[k].end_date
                > s1.bookings[k].start_date by {
                if k != booking_id@ {
                    assert(s0.bookings.dom().contains(k));
                }
            }
        }
        Ok(())
    }

    /// Create a booking for a place over a raw date range; on success the
    /// content-addressed booking id is returned, the record is persisted in
    /// state `Created`, and the amount moves into the guest's reserve.
    pub fn create_booking(
        &mut self,
        escrow: &mut Escrow,
        places: &PlaceRegistry,
        sender: u64,
        place_id: &Vec<u8>,
        start_date: u64,
        end_date: u64,
        amount: u64,
        now: u64,
    ) -> (r: Result<Vec<u8>, Error>)
        requires
            old(self).inv(),
            old(escrow).inv(),
            places.inv(),
        ensures
            final(self).inv(),
            final(escrow).inv(),
            match r {
                Ok(id) => spec_create_booking(
                    old(self)@,
                    old(escrow)@,
                    places@,
                    sender,
                    place_id@,
                    start_date,
                    end_date,
                    amount,
                    now,
                ) == Ok::<_, Error>((final(self)@, final(escrow)@, id@)),
                Err(e) => final(self)@ == old(self)@ && final(escrow)@ == old(escrow)@
                    && spec_create_booking(
                    old(self)@,
                    old(escrow)@,
                    places@,
                    sender,
                    place_id@,
                    start_date,
                    end_date,
                    amount,
                    now,
                ) == Err::<(StoreView, EscrowView, Seq<u8>), _>(e),
            },
    {
        let ghost s0 = self@;
        let ghost e0 = escrow@;
        if end_date <= start_date {
            return Err(Error::InvalidDates);
        }
        let place = match places.get_place_by_id(place_id) {
            Some(p) => p,
            None => {
                return Err(Error::PlaceNotFound);
            },
        };
        if place.owner == sender {
            return Err(Error::CannotBookOwnedPlace);
        }
        let formatted_start = match modify_timestamp(start_date, place.checkin_hour) {
            Ok(t) => t,
            Err(e) => {
                return Err(e);
            },
        };
        let formatted_end = match modify_timestamp(end_date, place.checkout_hour) {
            Ok(t) => t,
            Err(e) => {
                return Err(e);
            },
        };
        if formatted_start <= now {
            return Err(Error::InvalidStartDate);
        }
        if !self.check_availability(place_id, formatted_start, formatted_end) {
            return Err(Error::BookingDatesNotAvailable);
        }
        let expected_amount = match calculate_total_amount(
            formatted_start,
            formatted_end,
            place.price_per_night,
        ) {
            Ok(a) => a,
            Err(e) => {
                return Err(e);
            },
        };
        if amount < expected_amount {
            return Err(Error::AmountTooLow);
        }
        if amount > expected_amount {
            return Err(Error::AmountTooHigh);
        }
        if !escrow.can_reserve(sender, amount) {
            return Err(Error::NotEnoughFreeBalance);
        }
        let hashing_data = BookingHashingData {
            place_id: clone_bytes(place_id),
            host: place.owner,
            guest: sender,
            start_date: formatted_start,
            end_date: formatted_end,
            amount,
        };
        let booking_id = compute_booking_id(&hashing_data);
        if self.get_booking_by_id(&booking_id).is_some() {
            return Err(Error::BookingAlreadyExists);
        }
        proof {
            crate::utils::lemma_to_millis_range(start_date);
            crate::utils::lemma_to_millis_range(end_date);
            lemma_normalized_dates_strict(
                formatted_start,
                formatted_end,
                crate::utils::spec_to_millis(start_date)->Ok_0,
                crate::utils::spec_to_millis(end_date)->Ok_0,
                place@.checkin_hour,
                place@.checkout_hour,
            );
        }
        let booking_data = BookingData::new(
            clone_bytes(place_id),
            place.owner,
            sender,
            formatted_start,
            formatted_end,
            amount,
        );
        let host = place.owner;
        self.set_booking(clone_bytes(&booking_id), booking_data);
        self.push_booking_id(clone_bytes(&booking_id));
        proof {
            assert(!s0.active.contains(booking_id@));
        }
        self.push_active(clone_bytes(&booking_id));
        match escrow.reserve(sender, amount) {
            Ok(_) => {},
            Err(_) => {
                proof {
                    assert(false);
                }
            },
        }
        self.set_pending(clone_bytes(&booking_id), PendingClaim { account: host, amount });
        proof {
            let s1 = self@;
            let expected = spec_create_booking(
                s0,
                e0,
                places@,
                sender,
                place_id@,
                start_date,
                end_date,
                amount,
                now,
            )->Ok_0;
            assert(s1 =~= expected.0);
            assert(escrow@ =~= expected.1);
            assert forall|k: Seq<u8>| #[trigger] s1.active.contains(k) implies s1.bookings.dom().contains(
                k,
            ) by {
                if k != booking_id@ {
                    let j = choose|j: int| 0 <= j < s1.active.len() && s1.active[j] == k;
                    assert(s0.active[j] == k);
                    assert(s0.active.contains(k));
                }
            }
            assert forall|a: int, b: int| 0 <= a < b < s1.active.len() implies s1.active[a]
                != s1.active[b] by {
                if b == s1.active.len() - 1 {
                    assert(s0.active.contains(s0.active[a]));
                }
            }
            assert forall|k: Seq<u8>| #[trigger] s1.bookings.dom().contains(k) implies (
            s1.active.contains(k) <==> is_active_state(s1.bookings[k].state)) by {
                if k != booking_id@ {
                    assert(s0.bookings.dom().contains(k));
                    assert forall|j: int| 0 <= j < s1.active.len() && #[trigger] s1.active[j] == k implies j
                        < s0.active.len() by {
                        if j == s1.active.len() - 1 {
                            assert(s1.active[j] == booking_id@);
                        }
                    }
                    assert(s1.active.contains(k) <==> s0.active.contains(k)) by {
                        if s0.active.contains(k) {
                            let j = choose|j: int| 0 <= j < s0.active.len() && s0.active[j] == k;
                            assert(s1.active[j] == k);
                        }
                        if s1.active.contains(k) {
                            let j = choose|j: int| 0 <= j < s1.active.len() && s1.active[j] == k;
                            assert(s0.active[j] == k);
                        }
                    }
                } else {
                    assert(s1.active[s1.active.len() - 1] == k);
                }
            }
            assert forall|k: Seq<u8>| #[trigger] s1.bookings.dom().contains(k) implies s1.bookings[k].end_date
                > s1.bookings[k].start_date by {
                if k != booking_id@ {
                    assert(s0.bookings.dom().contains(k));
                }
            }
        }
        Ok(booking_id)
    }

    /// Confirm a booking as its host, strictly before its start: every other
    /// active booking of the place whose range conflicts is auto-rejected and
    /// its guest's escrow released, then the booking becomes `Confirmed`.
    pub fn confirm_booking(
        &mut self,
        escrow: &mut Escrow,
        sender: u64,
        booking_id: &Vec<u8>,
        now: u64,
    ) -> (r: Result<Vec<u8>, Error>)
        requires
            old(self).inv(),
            old(escrow).inv(),
        ensures
            final(self).inv(),
            final(escrow).inv(),
            match r {
                Ok(id) => id@ == booking_id@ && spec_confirm_booking(
                    old(self)@,
                    old(escrow)@,
                    sender,
                    booking_id@,
                    now,
                ) == Ok::<_, Error>((final(self)@, final(escrow)@)),
                Err(e) => final(self)@ == old(self)@ && final(escrow)@ == old(escrow)@
                    && spec_confirm_booking(old(self)@, old(escrow)@, sender, booking_id@, now)
                    == Err::<(StoreView, EscrowView), _>(e),
            },
    {
        let ghost s0 = self@;
        let ghost e0 = escrow@;
        let (place_id_of_booking, booking_start, booking_end, updated) = match self
            .get_booking_by_id(booking_id) {
            Some(b) => {
                if sender != b.host {
                    return Err(Error::NotPlaceOwner);
                }
                let is_created = match b.state {
                    BookingState::Created => true,
                    _ => false,
                };
                if !is_created {
                    return Err(Error::WrongState);
                }
                if now >= b.start_date {
                    return Err(Error::CannotConfirmOutdatedBooking);
                }
                (
                    clone_bytes(&b.place_id),
                    b.start_date,
                    b.end_date,
                    BookingData {
                        place_id: clone_bytes(&b.place_id),
                        host: b.host,
                        guest: b.guest,
                        start_date: b.start_date,
                        end_date: b.end_date,
                        amount: b.amount,
                        state: BookingState::Confirmed,
                    },
                )
            },
            None => {
                return Err(Error::BookingNotFound);
            },
        };
        let ghost b0 = s0.bookings[booking_id@];
        let to_cancel = self.get_overlapping_bookings(
            &place_id_of_booking,
            booking_id,
            booking_start,
            booking_end,
        );
        let ghost ids = id_views(to_cancel@);
        proof {
            lemma_overlapping_ids(
                s0.active,
                s0.bookings,
                b0.place_id,
                booking_id@,
                b0.start_date,
                b0.end_date,
            );
            assert forall|j: int| 0 <= j < ids.len() implies (#[trigger] ids[j]) != booking_id@
                && s0.active.contains(ids[j]) by {
                assert(ids.contains(ids[j]));
            }
            assert(ids.skip(0) =~= ids);
        }
        let mut i: usize = 0;
        while i < to_cancel.len()
            invariant
                i <= to_cancel.len(),
                ids == id_views(to_cancel@),
                ids.no_duplicates(),
                forall|j: int| 0 <= j < ids.len() ==> (#[trigger] ids[j]) != booking_id@,
                self.inv(),
                escrow.inv(),
                spec_cancel_all(s0, e0, ids) == spec_cancel_all(self@, escrow@, ids.skip(i as int)),
                forall|j: int| i <= j < ids.len() ==> self@.active.contains(#[trigger] ids[j]),
                self@.bookings.dom().contains(booking_id@),
                self@.bookings[booking_id@] == b0,
                self@.active.contains(booking_id@),
            decreases to_cancel.len() - i,
        {
            let ghost s_pre = self@;
            let ghost e_pre = escrow@;
            proof {
                assert(ids.skip(i as int)[0] == ids[i as int]);
                assert(self@.active.contains(ids[i as int]));
            }
            match self.do_cancel_booking(escrow, &to_cancel[i]) {
                Ok(_) => {},
                Err(_) => {
                    proof {
                        assert(false);
                    }
                },
            }
            proof {
                assert(ids.skip(i as int).drop_first() =~= ids.skip(i + 1));
                lemma_remove_active_id(s_pre.active, ids[i as int]);
                assert forall|j: int| i + 1 <= j < ids.len() implies self@.active.contains(
                    #[trigger] ids[j],
                ) by {
                    assert(ids[j] != ids[i as int]);
                    assert(s_pre.active.contains(ids[j]));
                }
                assert(self@.active.contains(booking_id@));
            }
            i = i + 1;
        }
        proof {
            assert(ids.skip(ids.len() as int).len() == 0);
            assert(spec_cancel_all(s0, e0, ids) == Ok::<_, Error>((self@, escrow@)));
        }
        let ghost s_folded = self@;
        self.set_booking(clone_bytes(booking_id), updated);
        proof {
            let s1 = self@;
            let expected = spec_confirm_booking(s0, e0, sender, booking_id@, now)->Ok_0;
            assert(s1 =~= expected.0);
            assert forall|k: Seq<u8>| #[trigger] s1.active.contains(k) implies s1.bookings.dom().contains(
                k,
            ) by {
                assert(s_folded.active.contains(k));
            }
            assert forall|k: Seq<u8>| #[trigger] s1.bookings.dom().contains(k) implies (
            s1.active.contains(k) <==> is_active_state(s1.bookings[k].state)) by {
                if k != booking_id@ {
                    assert(s_folded.bookings.dom().contains(k));
                }
            }
            assert forall|k: Seq<u8>| #[trigger] s1.bookings.dom().contains(k) implies s1.bookings[k].end_date
                > s1.bookings[k].start_date by {
                if k != booking_id@ {
                    assert(s_folded.bookings.dom().contains(k));
                }
            }
        }
        Ok(clone_bytes(booking_id))
    }

    /// Reject a booking as its host, from state `Created`: the cancel
    /// procedure releases the guest's escrow and records the guest's claim.
    pub fn reject_booking(&mut self, escrow: &mut Escrow, sender: u64, booking_id: &Vec<u8>) -> (r:
        Result<Vec<u8>, Error>)
        requires
            old(self).inv(),
            old(escrow).inv(),
        ensures
            final(self).inv(),
            final(escrow).inv(),
            match r {
                Ok(id) => id@ == booking_id@ && spec_reject_booking(
                    old(self)@,
                    old(escrow)@,
                    sender,
                    booking_id@,
                ) == Ok::<_, Error>((final(self)@, final(escrow)@)),
                Err(e) => final(self)@ == old(self)@ && final(escrow)@ == old(escrow)@
                    && spec_reject_booking(old(self)@, old(escrow)@, sender, booking_id@) == Err::<
                    (StoreView, EscrowView),
                    _,
                >(e),
            },
    {
        match self.get_booking_by_id(booking_id) {
            Some(b) => {
                if sender != b.host {
                    return Err(Error::NotPlaceOwner);
                }
                let is_created = match b.state {
                    BookingState::Created => true,
                    _ => false,
                };
                if !is_created {
                    return Err(Error::WrongState);
                }
            },
            None => {
                return Err(Error::BookingNotFound);
            },
        }
        match self.do_cancel_booking(escrow, booking_id) {
            Ok(_) => Ok(clone_bytes(booking_id)),
            Err(e) => Err(e),
        }
    }

    /// Check in as the booking's guest, at or after the booking's start: the
    /// record moves from `Confirmed` to `OwnerCanWithdraw`, marking the stay
    /// ready for the host's settlement.
    pub fn checkin(&mut self, sender: u64, booking_id: &Vec<u8>, now: u64) -> (r: Result<
        Vec<u8>,
        Error,
    >)
        requires
            old(self).inv(),
        ensures
            final(self).inv(),
            match r {
                Ok(id) => id@ == booking_id@ && spec_checkin(old(self)@, sender, booking_id@, now)
                    == Ok::<_, Error>(final(self)@),
                Err(e) => final(self)@ == old(self)@ && spec_checkin(
                    old(self)@,
                    sender,
                    booking_id@,
                    now,
                ) == Err::<StoreView, _>(e),
            },
    {
        let ghost s0 = self@;
        let updated = match self.get_booking_by_id(booking_id) {
            Some(b) => {
                if sender != b.guest {
                    return Err(Error::NotPlaceGuest);
                }
                let is_confirmed = match b.state {
                    BookingState::Confirmed => true,
                    _ => false,
                };
                if !is_confirmed {
                    return Err(Error::WrongState);
                }
                if now < b.start_date {
                    return Err(Error::CheckinNotAvailableYet);
                }
                BookingData {
                    place_id: clone_bytes(&b.place_id),
                    host: b.host,
                    guest: b.guest,
                    start_date: b.start_date,
                    end_date: b.end_date,
                    amount: b.amount,
                    state: BookingState::OwnerCanWithdraw,
                }
            },
            None => {
                return Err(Error::BookingNotFound);
            },
        };
        self.set_booking(clone_bytes(booking_id), updated);
        proof {
            let s1 = self@;
            assert(s1 =~= spec_checkin(s0, sender, booking_id@, now)->Ok_0);
            assert forall|k: Seq<u8>| #[trigger] s1.active.contains(k) implies s1.bookings.dom().contains(
                k,
            ) by {
                assert(s0.active.contains(k));
            }
            assert forall|k: Seq<u8>| #[trigger] s1.bookings.dom().contains(k) implies (
            s1.active.contains(k) <==> is_active_state(s1.bookings[k].state)) by {
                if k != booking_id@ {
                    assert(s0.bookings.dom().contains(k));
                }
            }
            assert forall|k: Seq<u8>| #[trigger] s1.bookings.dom().contains(k) implies s1.bookings[k].end_date
                > s1.bookings[k].start_date by {
                if k != booking_id@ {
                    assert(s0.bookings.dom().contains(k));
                }
            }
        }
        Ok(clone_bytes(booking_id))
    }

    /// Perform the settlement as the guest of the place: release the escrowed
    /// amount once more, drop the booking's pending claim, and complete the
    /// record.
    fn guest_withdraw_booking(&mut self, escrow: &mut Escrow, sender: u64, booking_id: &Vec<u8>)
        -> (r: Result<Vec<u8>, Error>)
        requires
            old(self).inv(),
            old(escrow).inv(),
            old(self)@.bookings.dom().contains(booking_id@),
            !is_active_state(old(self)@.bookings[booking_id@].state),
        ensures
            final(self).inv(),
            final(escrow).inv(),
            match r {
                Ok(id) => id@ == booking_id@ && spec_guest_withdraw(
                    old(self)@,
                    old(escrow)@,
                    sender,
                    booking_id@,
                ) == Ok::<_, Error>((final(self)@, final(escrow)@)),
                Err(e) => final(self)@ == old(self)@ && final(escrow)@ == old(escrow)@
                    && spec_guest_withdraw(old(self)@, old(escrow)@, sender, booking_id@) == Err::<
                    (StoreView, EscrowView),
                    _,
                >(e),
            },
    {
        let ghost s0 = self@;
        let ghost e0 = escrow@;
        let (updated_completed, guest, amount) = match self.get_booking_by_id(booking_id) {
            Some(b) => {
                (
                    BookingData {
                        place_id: clone_bytes(&b.place_id),
                        host: b.host,
                        guest: b.guest,
                        start_date: b.start_date,
                        end_date: b.end_date,
                        amount: b.amount,
                        state: BookingState::Completed,
                    },
                    b.guest,
                    b.amount,
                )
            },
            None => {
                proof {
                    assert(false);
                }
                return Err(Error::BookingNotFound);
            },
        };
        if sender != guest {
            return Err(Error::NotPlaceGuest);
        }
        escrow.unreserve(guest, amount);
        self.remove_pending(booking_id);
        self.set_booking(clone_bytes(booking_id), updated_completed);
        proof {
            let s1 = self@;
            let expected = spec_guest_withdraw(s0, e0, sender, booking_id@)->Ok_0;
            assert(s1 =~= expected.0);
            assert forall|k: Seq<u8>| #[trigger] s1.active.contains(k) implies s1.bookings.dom().contains(
                k,
            ) by {
                assert(s0.active.contains(k));
            }
            assert forall|k: Seq<u8>| #[trigger] s1.bookings.dom().contains(k) implies (
            s1.active.contains(k) <==> is_active_state(s1.bookings[k].state)) by {
                if k != booking_id@ {
                    assert(s0.bookings.dom().contains(k));
                }
            }
            assert forall|k: Seq<u8>| #[trigger] s1.bookings.dom().contains(k) implies s1.bookings[k].end_date
                > s1.bookings[k].start_date by {
                if k != booking_id@ {
                    assert(s0.bookings.dom().contains(k));
                }
            }
        }
        Ok(clone_bytes(booking_id))
    }

    /// Perform the settlement as the owner of the place: release the guest's
    /// escrowed amount and transfer it over, keeping the guest's account
    /// alive, then retire the booking from the pending claims and the active
    /// index and complete the record. A refused transfer aborts the command
    /// with no mutation.
    fn host_withdraw_booking(&mut self, escrow: &mut Escrow, sender: u64, booking_id: &Vec<u8>)
        -> (r: Result<Vec<u8>, Error>)
        requires
            old(self).inv(),
            old(escrow).inv(),
            old(self)@.bookings.dom().contains(booking_id@),
            is_active_state(old(self)@.bookings[booking_id@].state),
        ensures
            final(self).inv(),
            final(escrow).inv(),
            match r {
                Ok(id) => id@ == booking_id@ && spec_host_withdraw(
                    old(self)@,
                    old(escrow)@,
                    sender,
                    booking_id@,
                ) == Ok::<_, Error>((final(self)@, final(escrow)@)),
                Err(e) => final(self)@ == old(self)@ && final(escrow)@ == old(escrow)@
                    && spec_host_withdraw(old(self)@, old(escrow)@, sender, booking_id@) == Err::<
                    (StoreView, EscrowView),
                    _,
                >(e),
            },
    {
        let ghost s0 = self@;
        let ghost e0 = escrow@;
        let (updated_completed, guest, host, amount) = match self.get_booking_by_id(booking_id) {
            Some(b) => {
                (
                    BookingData {
                        place_id: clone_bytes(&b.place_id),
                        host: b.host,
                        guest: b.guest,
                        start_date: b.start_date,
                        end_date: b.end_date,
                        amount: b.amount,
                        state: BookingState::Completed,
                    },
                    b.guest,
                    b.host,
                    b.amount,
                )
            },
            None => {
                proof {
                    assert(false);
                }
                return Err(Error::BookingNotFound);
            },
        };
        if sender != host {
            return Err(Error::NotPlaceOwner);
        }
        let guest_free = escrow.free_balance(guest);
        let guest_reserved = escrow.reserved_balance(guest);
        proof {
            if e0.accounts.dom().contains(guest) {
                assert(e0.accounts[guest].free + e0.accounts[guest].reserved <= u64::MAX);
            }
        }
        let moved = if amount <= guest_reserved {
            amount
        } else {
            guest_reserved
        };
        let freed = guest_free + moved;
        let ghost e1 = spec_unreserve(e0, guest, amount);
        proof {
            assert(free_of(e1, guest) == freed && reserved_of(e1, guest) == guest_reserved
                - moved);
        }
        if amount > freed {
            return Err(Error::NotEnoughFreeBalance);
        }
        if freed - amount < escrow.existential_deposit {
            return Err(Error::TransferWouldKillAccount);
        }
        if guest != host {
            let host_total = escrow.total_balance(host);
            proof {
                assert(crate::escrow::balance_of(e1, host) == crate::escrow::balance_of(e0, host));
            }
            if amount > u64::MAX - host_total {
                return Err(Error::ArithmeticOverflow);
            }
        }
        escrow.unreserve(guest, amount);
        match escrow.transfer(guest, host, amount, true) {
            Ok(_) => {},
            Err(_) => {
                proof {
                    assert(false);
                }
            },
        }
        self.remove_pending(booking_id);
        let found = self.remove_active(booking_id);
        proof {
            assert(s0.bookings.dom().contains(booking_id@));
            assert(found);
            lemma_remove_active_id(s0.active, booking_id@);
        }
        self.set_booking(clone_bytes(booking_id), updated_completed);
        proof {
            let s1 = self@;
            let expected = spec_host_withdraw(s0, e0, sender, booking_id@)->Ok_0;
            assert(s1 =~= expected.0);
            assert(escrow@ =~= expected.1);
            assert forall|k: Seq<u8>| #[trigger] s1.active.contains(k) implies s1.bookings.dom().contains(
                k,
            ) by {
                assert(s0.active.contains(k));
            }
            assert forall|k: Seq<u8>| #[trigger] s1.bookings.dom().contains(k) implies (
            s1.active.contains(k) <==> is_active_state(s1.bookings[k].state)) by {
                if k != booking_id@ {
                    assert(s0.bookings.dom().contains(k));
                }
            }
            assert forall|k: Seq<u8>| #[trigger] s1.bookings.dom().contains(k) implies s1.bookings[k].end_date
                > s1.bookings[k].start_date by {
                if k != booking_id@ {
                    assert(s0.bookings.dom().contains(k));
                }
            }
        }
        Ok(clone_bytes(booking_id))
    }

    /// Settle a booking: the guest reclaims the escrow of a rejected booking,
    /// or the host collects the escrow of a checked-in one. `Withdrawable` is
    /// reserved for a refund-policy extension and not supported.
    pub fn withdraw_booking(&mut self, escrow: &mut Escrow, sender: u64, booking_id: &Vec<u8>) -> (r:
        Result<Vec<u8>, Error>)
        requires
            old(self).inv(),
            old(escrow).inv(),
        ensures
            final(self).inv(),
            final(escrow).inv(),
            match r {
                Ok(id) => id@ == booking_id@ && spec_withdraw_booking(
                    old(self)@,
                    old(escrow)@,
                    sender,
                    booking_id@,
                ) == Ok::<_, Error>((final(self)@, final(escrow)@)),
                Err(e) => final(self)@ == old(self)@ && final(escrow)@ == old(escrow)@
                    && spec_withdraw_booking(old(self)@, old(escrow)@, sender, booking_id@) == Err::<
                    (StoreView, EscrowView),
                    _,
                >(e),
            },
    {
        let state = match self.get_booking_by_id(booking_id) {
            Some(b) => b.state,
            None => {
                return Err(Error::BookingNotFound);
            },
        };
        match state {
            BookingState::Rejected => self.guest_withdraw_booking(escrow, sender, booking_id),
            BookingState::UserCanWithdraw => self.guest_withdraw_booking(
                escrow,
                sender,
                booking_id,
            ),
            BookingState::Withdrawable => Err(Error::NotImplemented),
            BookingState::OwnerCanWithdraw => self.host_withdraw_booking(escrow, sender, booking_id),
            _ => Err(Error::WrongState),
        }
    }

    /// Updating a booking is not supported: it is reserved for future work,
    /// and refuses rather than silently succeeding.
    pub fn update_booking(
        &mut self,
        sender: u64,
        booking_id: &Vec<u8>,
        place_id: &Vec<u8>,
        start_date: u64,
        end_date: u64,
        amount: u64,
    ) -> (r: Result<Vec<u8>, Error>)
        ensures
            final(self)@ == old(self)@,
            r == Err::<Vec<u8>, Error>(Error::NotImplemented),
    {
        let _ = (sender, booking_id, place_id, start_date, end_date, amount);
        Err(Error::NotImplemented)
    }

    /// A guest-initiated cancellation is not supported: it is reserved for a
    /// refund-policy extension, and refuses rather than silently succeeding.
    pub fn cancel_booking(&mut self, sender: u64, booking_id: &Vec<u8>) -> (r: Result<
        Vec<u8>,
        Error,
    >)
        ensures
            final(self)@ == old(self)@,
            r == Err::<Vec<u8>, Error>(Error::NotImplemented),
    {
        let _ = (sender, booking_id);
        Err(Error::NotImplemented)
    }
}

} // verus!
