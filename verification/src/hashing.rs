//! Content-addressed identifiers: a canonical serialization of a record's
//! immutable creation fields, hashed with Blake2b-256.

use vstd::prelude::*;

use crate::places::PlaceType;
use crate::structures::BookingHashingData;

verus! {

/// The 32-byte Blake2b-256 digest of a byte string; a pure function of the
/// bytes, computed by the outside hashing crate.
pub uninterp spec fn blake2_of(bytes: Seq<u8>) -> Seq<u8>;

/// Relies on `frame_support::sp_runtime::traits::BlakeTwo256` (its
/// `Hash::hash`, which is `sp_io::hashing::blake2_256`): the 32-byte
/// Blake2b-256 digest of the input bytes, a function of those bytes alone.
#[verifier::external_body]
fn blake2_256_digest(bytes: &Vec<u8>) -> (r: Vec<u8>)
    ensures
        r@ == blake2_of(bytes@),
        r@.len() == 32,
{
    let h = <frame_support::sp_runtime::traits::BlakeTwo256 as frame_support::sp_runtime::traits::Hash>::hash(
        bytes.as_slice(),
    );
    h.as_bytes().to_vec()
}

/// The eight little-endian bytes of a 64-bit value.
pub open spec fn u64_le_bytes(x: u64) -> Seq<u8> {
    seq![
        x as u8,
        (x >> 8) as u8,
        (x >> 16) as u8,
        (x >> 24) as u8,
        (x >> 32) as u8,
        (x >> 40) as u8,
        (x >> 48) as u8,
        (x >> 56) as u8,
    ]
}

/// Append the little-endian bytes of `x` to `out`.
fn push_u64_le(out: &mut Vec<u8>, x: u64)
    ensures
        final(out)@ == old(out)@ + u64_le_bytes(x),
{
    out.push(#[verifier::truncate] (x as u8));
    out.push(#[verifier::truncate] ((x >> 8) as u8));
    out.push(#[verifier::truncate] ((x >> 16) as u8));
    out.push(#[verifier::truncate] ((x >> 24) as u8));
    out.push(#[verifier::truncate] ((x >> 32) as u8));
    out.push(#[verifier::truncate] ((x >> 40) as u8));
    out.push(#[verifier::truncate] ((x >> 48) as u8));
    out.push(#[verifier::truncate] ((x >> 56) as u8));
    assert(out@ =~= old(out)@ + u64_le_bytes(x));
}

/// A byte string in the canonical serialization: its length first, so that
/// adjacent variable-length fields cannot run into each other.
pub open spec fn len_prefixed(b: Seq<u8>) -> Seq<u8> {
    u64_le_bytes(b.len() as u64) + b
}

/// Append `b`, prefixed with its length, to `out`.
fn push_len_prefixed(out: &mut Vec<u8>, b: &Vec<u8>)
    ensures
        final(out)@ == old(out)@ + len_prefixed(b@),
{
    push_u64_le(out, b.len() as u64);
    let mut i: usize = 0;
    while i < b.len()
        invariant
            i <= b.len(),
            out@ == old(out)@ + u64_le_bytes(b@.len() as u64) + b@.subrange(0, i as int),
        decreases b.len() - i,
    {
        out.push(b[i]);
        i = i + 1;
        assert(out@ =~= old(out)@ + u64_le_bytes(b@.len() as u64) + b@.subrange(0, i as int));
    }
    assert(b@.subrange(0, b@.len() as int) =~= b@);
}

/// The canonical preimage of a booking id: the place, the two parties, the
/// normalized date range and the escrowed amount. The mutable state is never
/// part of the preimage.
pub open spec fn booking_id_preimage(
    place_id: Seq<u8>,
    host: u64,
    guest: u64,
    start_date: u64,
    end_date: u64,
    amount: u64,
) -> Seq<u8> {
    len_prefixed(place_id) + u64_le_bytes(host) + u64_le_bytes(guest) + u64_le_bytes(start_date)
        + u64_le_bytes(end_date) + u64_le_bytes(amount)
}

/// The content-addressed identifier of a booking: resubmitting the same
/// creation fields always yields the same id.
pub open spec fn booking_id_of(
    place_id: Seq<u8>,
    host: u64,
    guest: u64,
    start_date: u64,
    end_date: u64,
    amount: u64,
) -> Seq<u8> {
    blake2_of(
        booking_id_preimage(place_id, host, guest, start_date, end_date, amount),
    )
}

/// Derive the booking id from the hashing fields.
pub fn compute_booking_id(data: &BookingHashingData) -> (r: Vec<u8>)
    ensures
        r@ == booking_id_of(
            data.place_id@,
            data.host,
            data.guest,
            data.start_date,
            data.end_date,
            data.amount,
        ),
        r@.len() == 32,
{
    let mut bytes: Vec<u8> = Vec::new();
    push_len_prefixed(&mut bytes, &data.place_id);
    push_u64_le(&mut bytes, data.host);
    push_u64_le(&mut bytes, data.guest);
    push_u64_le(&mut bytes, data.start_date);
    push_u64_le(&mut bytes, data.end_date);
    push_u64_le(&mut bytes, data.amount);
    proof {
        assert(bytes@ =~= booking_id_preimage(
            data.place_id@,
            data.host,
            data.guest,
            data.start_date,
            data.end_date,
            data.amount,
        ));
    }
    blake2_256_digest(&bytes)
}

/// One byte standing for each place kind in the canonical serialization.
pub open spec fn spec_place_type_tag(t: PlaceType) -> u8 {
    match t {
        PlaceType::Apartment => 0,
        PlaceType::House => 1,
        PlaceType::Van => 2,
        PlaceType::Boat => 3,
    }
}

/// Exec counterpart of [`spec_place_type_tag`].
fn place_type_tag(t: &PlaceType) -> (r: u8)
    ensures
        r == spec_place_type_tag(*t),
{
    match t {
        PlaceType::Apartment => 0,
        PlaceType::House => 1,
        PlaceType::Van => 2,
        PlaceType::Boat => 3,
    }
}

/// The canonical serialization of a list of image references.
pub open spec fn images_bytes(images: Seq<Seq<u8>>) -> Seq<u8>
    decreases images.len(),
{
    if images.len() == 0 {
        Seq::empty()
    } else {
        images_bytes(images.drop_last()) + len_prefixed(images.last())
    }
}

/// Append every image, length-prefixed, to `out`.
fn push_images(out: &mut Vec<u8>, images: &Vec<Vec<u8>>)
    ensures
        final(out)@ == old(out)@ + images_bytes(images@.map_values(|v: Vec<u8>| v@)),
{
    let ghost views = images@.map_values(|v: Vec<u8>| v@);
    let mut i: usize = 0;
    while i < images.len()
        invariant
            i <= images.len(),
            views == images@.map_values(|v: Vec<u8>| v@),
            out@ == old(out)@ + images_bytes(views.subrange(0, i as int)),
        decreases images.len() - i,
    {
        proof {
            assert(views.subrange(0, i + 1).drop_last() =~= views.subrange(0, i as int));
            assert(views.subrange(0, i + 1).last() == views[i as int]);
        }
        push_len_prefixed(out, &images[i]);
        i = i + 1;
    }
    proof {
        assert(views.subrange(0, views.len() as int) =~= views);
    }
}

/// The canonical preimage of a place id: the immutable descriptive fields of
/// the place at creation time.
pub open spec fn place_id_preimage(
    place_type: PlaceType,
    name: Seq<u8>,
    address: Seq<u8>,
    description: Seq<u8>,
    images: Seq<Seq<u8>>,
    number_of_floors: u8,
) -> Seq<u8> {
    seq![spec_place_type_tag(place_type)] + len_prefixed(name) + len_prefixed(address)
        + len_prefixed(description) + u64_le_bytes(images.len() as u64) + images_bytes(images)
        + seq![number_of_floors]
}

/// The content-addressed identifier of a place.
pub open spec fn place_id_of(
    place_type: PlaceType,
    name: Seq<u8>,
    address: Seq<u8>,
    description: Seq<u8>,
    images: Seq<Seq<u8>>,
    number_of_floors: u8,
) -> Seq<u8> {
    blake2_of(place_id_preimage(place_type, name, address, description, images, number_of_floors))
}

/// Derive the place id from the descriptive fields.
pub fn compute_place_id(
    place_type: &PlaceType,
    name: &Vec<u8>,
    address: &Vec<u8>,
    description: &Vec<u8>,
    images: &Vec<Vec<u8>>,
    number_of_floors: u8,
) -> (r: Vec<u8>)
    ensures
        r@ == place_id_of(
            *place_type,
            name@,
            address@,
            description@,
            images@.map_values(|v: Vec<u8>| v@),
            number_of_floors,
        ),
        r@.len() == 32,
{
    let mut bytes: Vec<u8> = Vec::new();
    bytes.push(place_type_tag(place_type));
    push_len_prefixed(&mut bytes, name);
    push_len_prefixed(&mut bytes, address);
    push_len_prefixed(&mut bytes, description);
    push_u64_le(&mut bytes, images.len() as u64);
    push_images(&mut bytes, images);
    bytes.push(number_of_floors);
    proof {
        assert(bytes@ =~= place_id_preimage(
            *place_type,
            name@,
            address@,
            description@,
            images@.map_values(|v: Vec<u8>| v@),
            number_of_floors,
        ));
    }
    blake2_256_digest(&bytes)
}

} // verus!
