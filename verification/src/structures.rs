//! Booking records and their lifecycle states.

use vstd::prelude::*;

verus! {

/// Lifecycle state of a booking.
///
/// `Withdrawable` and `UserCanWithdraw` are reserved extension points for a
/// refund policy that is not implemented; no command produces them yet.
#[derive(Clone, Copy, Debug, PartialEq, Eq, Structural)]
pub enum BookingState {
    Created,
    Confirmed,
    Rejected,
    Withdrawable,
    UserCanWithdraw,
    OwnerCanWithdraw,
    Completed,
}

/// A booking record: a reservation agreement for a date range on a place,
/// with an escrowed amount and a lifecycle state.
///
/// `start_date` and `end_date` are instants in milliseconds since the Unix
/// epoch, already normalized to the place's check-in / check-out hour.
#[derive(Clone, Debug, PartialEq, Eq)]
pub struct BookingData {
    pub place_id: Vec<u8>,
    pub host: u64,
    pub guest: u64,
    pub start_date: u64,
    pub end_date: u64,
    pub amount: u64,
    pub state: BookingState,
}

/// Mathematical model of a booking record.
pub struct BookingView {
    pub place_id: Seq<u8>,
    pub host: u64,
    pub guest: u64,
    pub start_date: u64,
    pub end_date: u64,
    pub amount: u64,
    pub state: BookingState,
}

impl View for BookingData {
    type V = BookingView;

    open spec fn view(&self) -> BookingView {
        BookingView {
            place_id: self.place_id@,
            host: self.host,
            guest: self.guest,
            start_date: self.start_date,
            end_date: self.end_date,
            amount: self.amount,
            state: self.state,
        }
    }
}

impl BookingData {
    /// Build a fresh record in state `Created`.
    pub fn new(
        place_id: Vec<u8>,
        host: u64,
        guest: u64,
        start_date: u64,
        end_date: u64,
        amount: u64,
    ) -> (r: BookingData)
        ensures
            r@ == (BookingView {
                place_id: place_id@,
                host,
                guest,
                start_date,
                end_date,
                amount,
                state: BookingState::Created,
            }),
    {
        BookingData { place_id, host, guest, start_date, end_date, amount, state: BookingState::Created }
    }
}

/// The immutable creation fields of a booking: exactly the input of the
/// content-addressed identifier. The mutable `state` is deliberately absent.
#[derive(Clone, Debug)]
pub struct BookingHashingData {
    pub place_id: Vec<u8>,
    pub host: u64,
    pub guest: u64,
    pub start_date: u64,
    pub end_date: u64,
    pub amount: u64,
}

impl BookingHashingData {
    /// Project a record onto its hashing fields.
    pub fn from(from: BookingData) -> (r: BookingHashingData)
        ensures
            r.place_id@ == from.place_id@,
            r.host == from.host,
            r.guest == from.guest,
            r.start_date == from.start_date,
            r.end_date == from.end_date,
            r.amount == from.amount,
    {
        let BookingData { place_id, host, guest, start_date, end_date, amount, state: _ } = from;
        BookingHashingData { place_id, host, guest, start_date, end_date, amount }
    }
}

/// Why a booking command was refused.
#[derive(Clone, Copy, Debug, PartialEq, Eq, Structural)]
pub enum Error {
    /// Booking id not found.
    BookingNotFound,
    /// Booking id already exists.
    BookingAlreadyExists,
    /// Booking dates are not available.
    BookingDatesNotAvailable,
    /// Owner cannot book its own place.
    CannotBookOwnedPlace,
    /// Account does not have enough free balance to book.
    NotEnoughFreeBalance,
    /// `end_date` cannot be less than the `start_date`.
    InvalidDates,
    /// `start_date` cannot be less or equal to the current moment.
    InvalidStartDate,
    /// Caller is not the place owner.
    NotPlaceOwner,
    /// Caller is not the place guest.
    NotPlaceGuest,
    /// State is not correct.
    WrongState,
    /// Cannot confirm a booking whose start has already passed.
    CannotConfirmOutdatedBooking,
    /// Check-in attempted before the booking's start.
    CheckinNotAvailableYet,
    /// The referenced place does not exist.
    PlaceNotFound,
    /// Desired hour of day out of the `0..=23` range.
    DesiredTimeOutOfRange,
    /// Timestamp precision is neither seconds (10 digits) nor milliseconds (13 digits).
    BadTimestampPrecision,
    /// Submitted amount is less than the computed price.
    AmountTooLow,
    /// Submitted amount exceeds the computed price.
    AmountTooHigh,
    /// Checked arithmetic overflowed.
    ArithmeticOverflow,
    /// Checked arithmetic underflowed.
    ArithmeticUnderflow,
    /// The settlement transfer would drop the payer below the existential minimum.
    TransferWouldKillAccount,
    /// The command is reserved for a refund-policy extension and not supported.
    NotImplemented,
}

/// Domain notification emitted by app code after a successful command.
#[derive(Clone, Debug, PartialEq, Eq)]
pub enum Event {
    /// A new booking has been created.
    BookingPlaced { id: Vec<u8>, sender: u64 },
    /// A booking has been updated.
    BookingUpdated { id: Vec<u8>, sender: u64, state: BookingState },
    /// A booking has been canceled.
    BookingCanceled { id: Vec<u8>, sender: u64 },
}

} // verus!
