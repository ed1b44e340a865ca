//! The listing registry: bookable places with an owner, a nightly price and
//! check-in / check-out hours.

use vstd::prelude::*;

use crate::hashing::compute_place_id;
use crate::hashing::place_id_of;
use crate::indexes::assoc_get;
use crate::indexes::assoc_map;
use crate::indexes::assoc_remove;
use crate::indexes::assoc_set;
use crate::indexes::clone_bytes;
use crate::indexes::clone_id_list;
use crate::indexes::dedup_first;
use crate::indexes::dedup_ids;
use crate::indexes::extend_ids;
use crate::indexes::find_id;
use crate::indexes::id_views;
use crate::indexes::keys_distinct;
use crate::indexes::lemma_dedup_first;
use crate::indexes::lemma_id_views_len;
use crate::indexes::lemma_merge_ids;
use crate::indexes::merge_ids;

verus! {

/// What kind of place is offered.
#[derive(Clone, Copy, Debug, PartialEq, Eq, Structural)]
pub enum PlaceType {
    Apartment,
    House,
    Van,
    Boat,
}

/// A record of who touched a place and when.
#[derive(Clone, Copy, Debug, PartialEq, Eq, Structural)]
pub struct AuditTrail {
    pub account: u64,
    pub block: u64,
    pub time: u64,
}

impl AuditTrail {
    /// Build a trail entry; the block number and moment come from the caller's
    /// clock, which the registry itself never reads.
    pub fn new(account: u64, block: u64, time: u64) -> (r: AuditTrail)
        ensures
            r == (AuditTrail { account, block, time }),
    {
        AuditTrail { account, block, time }
    }
}

/// A bookable place.
#[derive(Clone, Debug, PartialEq, Eq)]
pub struct PlaceData {
    /// The place type.
    pub place_type: PlaceType,
    /// The name of the place.
    pub name: Vec<u8>,
    /// The address of the place.
    pub address: Vec<u8>,
    /// A reference to an external description, kept off the ledger.
    pub description: Vec<u8>,
    /// The price of one night.
    pub price_per_night: u64,
    /// The hour picked by the owner for the check-in, `0..=23`.
    pub checkin_hour: u32,
    /// The hour picked by the owner for the check-out, `0..=23`.
    pub checkout_hour: u32,
    /// Whether the place can receive bookings.
    pub active: bool,
    /// References to external images, each held once.
    pub images: Vec<Vec<u8>>,
    /// The number of floors of the place.
    pub number_of_floors: u8,
    /// The owner of the place.
    pub owner: u64,
    /// Audit trailing.
    pub on_chain_creation: AuditTrail,
    pub on_chain_update: Option<AuditTrail>,
}

/// Mathematical model of a place.
#[verifier::ext_equal]
pub struct PlaceView {
    pub place_type: PlaceType,
    pub name: Seq<u8>,
    pub address: Seq<u8>,
    pub description: Seq<u8>,
    pub price_per_night: u64,
    pub checkin_hour: u32,
    pub checkout_hour: u32,
    pub active: bool,
    pub images: Seq<Seq<u8>>,
    pub number_of_floors: u8,
    pub owner: u64,
    pub on_chain_creation: AuditTrail,
    pub on_chain_update: Option<AuditTrail>,
}

impl View for PlaceData {
    type V = PlaceView;

    open spec fn view(&self) -> PlaceView {
        PlaceView {
            place_type: self.place_type,
            name: self.name@,
            address: self.address@,
            description: self.description@,
            price_per_night: self.price_per_night,
            checkin_hour: self.checkin_hour,
            checkout_hour: self.checkout_hour,
            active: self.active,
            images: id_views(self.images@),
            number_of_floors: self.number_of_floors,
            owner: self.owner,
            on_chain_creation: self.on_chain_creation,
            on_chain_update: self.on_chain_update,
        }
    }
}

impl PlaceData {
    /// Build a fresh, active place owned by its creator. `images` must already
    /// be deduplicated; a missing floor count means one floor.
    pub fn new(
        place_type: PlaceType,
        name: Vec<u8>,
        address: Vec<u8>,
        description: Vec<u8>,
        price_per_night: u64,
        checkin_hour: u32,
        checkout_hour: u32,
        images: Vec<Vec<u8>>,
        number_of_floors: Option<u8>,
        created_by: u64,
        created_at: AuditTrail,
    ) -> (r: PlaceData)
        ensures
            r@ == (PlaceView {
                place_type,
                name: name@,
                address: address@,
                description: description@,
                price_per_night,
                checkin_hour,
                checkout_hour,
                active: true,
                images: id_views(images@),
                number_of_floors: spec_floors_or_one(number_of_floors),
                owner: created_by,
                on_chain_creation: created_at,
                on_chain_update: None,
            }),
    {
        let number_of_floors = match number_of_floors {
            Some(n) => n,
            None => 1,
        };
        PlaceData {
            place_type,
            name,
            address,
            description,
            price_per_night,
            checkin_hour,
            checkout_hour,
            active: true,
            images,
            number_of_floors,
            owner: created_by,
            on_chain_creation: created_at,
            on_chain_update: None,
        }
    }
}

/// A missing floor count means one floor.
pub open spec fn spec_floors_or_one(number_of_floors: Option<u8>) -> u8 {
    match number_of_floors {
        Some(n) => n,
        None => 1,
    }
}

/// The fields of a place that feed its content-addressed identifier.
#[derive(Clone, Debug)]
pub struct PlaceHashingData {
    pub place_type: PlaceType,
    pub name: Vec<u8>,
    pub address: Vec<u8>,
    pub description: Vec<u8>,
    pub images: Vec<Vec<u8>>,
    pub number_of_floors: u8,
}

impl PlaceHashingData {
    /// Project a place onto its hashing fields.
    pub fn from(from: PlaceData) -> (r: PlaceHashingData)
        ensures
            r.place_type == from.place_type,
            r.name@ == from.name@,
            r.address@ == from.address@,
            r.description@ == from.description@,
            id_views(r.images@) == from@.images,
            r.number_of_floors == from.number_of_floors,
    {
        let PlaceData { place_type, name, address, description, images, number_of_floors, .. } =
            from;
        PlaceHashingData { place_type, name, address, description, images, number_of_floors }
    }
}

/// Why a registry command was refused.
#[derive(Clone, Copy, Debug, PartialEq, Eq, Structural)]
pub enum Error {
    /// Generic error.
    UnhandledException,
    /// Place id already exists.
    PlaceAlreadyExists,
    /// Place does not exist.
    PlaceNotFound,
    /// The check-out hour must lie strictly before the check-in hour.
    CheckoutHourCannotBeGreaterThanCheckinHour,
    /// An hour lies outside `1..=23`.
    BadHoursProvided,
}

/// Domain notification emitted by app code after a successful registry command.
#[derive(Clone, Debug, PartialEq, Eq)]
pub enum Event {
    /// A new place has been created.
    PlaceCreated { id: Vec<u8>, sender: u64 },
    PlaceUpdated { id: Vec<u8>, sender: u64 },
    PlaceRemoved { id: Vec<u8>, sender: u64 },
}

/// The acceptable relation between a place's check-in and check-out hours.
pub open spec fn spec_hours_check(checkin_hour: u32, checkout_hour: u32) -> Result<(), Error> {
    if checkin_hour <= checkout_hour {
        Err(Error::CheckoutHourCannotBeGreaterThanCheckinHour)
    } else if !(checkin_hour > 0 && checkin_hour <= 23) {
        Err(Error::BadHoursProvided)
    } else if !(checkout_hour > 0 && checkout_hour <= 23) {
        Err(Error::BadHoursProvided)
    } else {
        Ok(())
    }
}

/// Check the hours: both in `1..=23`, check-in strictly after check-out, so
/// that on one calendar day a stay always ends before the next may begin.
pub fn ensure_checkin_checkout_hours_are_correct(checkin_hour: u32, checkout_hour: u32) -> (r:
    Result<(), Error>)
    ensures
        r == spec_hours_check(checkin_hour, checkout_hour),
{
    if checkin_hour <= checkout_hour {
        return Err(Error::CheckoutHourCannotBeGreaterThanCheckinHour);
    }
    if !(checkin_hour > 0 && checkin_hour <= 23) {
        return Err(Error::BadHoursProvided);
    }
    if !(checkout_hour > 0 && checkout_hour <= 23) {
        return Err(Error::BadHoursProvided);
    }
    Ok(())
}

/// Hours a persisted place always has: validated on every create and update.
pub open spec fn hours_ok(p: PlaceView) -> bool {
    &&& 0 < p.checkout_hour
    &&& p.checkout_hour < p.checkin_hour
    &&& p.checkin_hour <= 23
}

/// What holds of every persisted place: validated hours and images held once.
pub open spec fn place_ok(p: PlaceView) -> bool {
    &&& hours_ok(p)
    &&& p.images.no_duplicates()
}

/// Mathematical model of the registry.
#[verifier::ext_equal]
pub struct RegistryView {
    /// Ids of all persisted places.
    pub place_ids: Seq<Seq<u8>>,
    /// The places themselves, by id.
    pub places: Map<Seq<u8>, PlaceView>,
}

impl RegistryView {
    /// Every persisted place has validated hours, and the id list carries
    /// exactly the persisted ids, each once.
    pub open spec fn wf(self) -> bool {
        &&& forall|k: Seq<u8>| #[trigger] self.places.dom().contains(k) ==> place_ok(self.places[k])
        &&& self.place_ids.no_duplicates()
        &&& forall|k: Seq<u8>| #[trigger] self.place_ids.contains(k) <==> self.places.dom().contains(k)
    }
}

/// The listing registry: resolves a place id to the place's data.
pub struct PlaceRegistry {
    pub place_ids: Vec<Vec<u8>>,
    pub places: Vec<(Vec<u8>, PlaceData)>,
}

impl View for PlaceRegistry {
    type V = RegistryView;

    open spec fn view(&self) -> RegistryView {
        RegistryView { place_ids: id_views(self.place_ids@), places: assoc_map(self.places@) }
    }
}

impl PlaceRegistry {
    /// The representation keeps each place id at most once.
    pub open spec fn inv(&self) -> bool {
        &&& keys_distinct(self.places@)
        &&& self@.wf()
    }

    /// An empty registry.
    pub fn new() -> (r: PlaceRegistry)
        ensures
            r.inv(),
            r@.place_ids == Seq::<Seq<u8>>::empty(),
            r@.places == Map::<Seq<u8>, PlaceView>::empty(),
    {
        let r = PlaceRegistry { place_ids: Vec::new(), places: Vec::new() };
        proof {
            assert(r@.place_ids =~= Seq::<Seq<u8>>::empty());
        }
        r
    }

    /// All persisted place ids, in creation order.
    pub fn get_all_places(&self) -> (r: &Vec<Vec<u8>>)
        ensures
            id_views(r@) == self@.place_ids,
    {
        &self.place_ids
    }

    /// Resolve a place id.
    pub fn get_place_by_id(&self, place_id: &Vec<u8>) -> (r: Option<&PlaceData>)
        requires
            self.inv(),
        ensures
            match r {
                Some(p) => self@.places.dom().contains(place_id@) && self@.places[place_id@] == p@,
                None => !self@.places.dom().contains(place_id@),
            },
    {
        assoc_get(&self.places, place_id)
    }

    /// Persist a new place under its content-addressed id.
    pub fn create_place(
        &mut self,
        sender: u64,
        place_type: PlaceType,
        name: Vec<u8>,
        address: Vec<u8>,
        description: Vec<u8>,
        price_per_night: u64,
        checkin_hour: u32,
        checkout_hour: u32,
        images: Vec<Vec<u8>>,
        number_of_floors: Option<u8>,
        block: u64,
        time: u64,
    ) -> (r: Result<Vec<u8>, Error>)
        requires
            old(self).inv(),
        ensures
            final(self).inv(),
            match r {
                Ok(id) => spec_create_place(
                    old(self)@,
                    sender,
                    place_type,
                    name@,
                    address@,
                    description@,
                    price_per_night,
                    checkin_hour,
                    checkout_hour,
                    id_views(images@),
                    number_of_floors,
                    AuditTrail { account: sender, block, time },
                ) == Ok::<_, Error>((final(self)@, id@)),
                Err(e) => final(self)@ == old(self)@ && spec_create_place(
                    old(self)@,
                    sender,
                    place_type,
                    name@,
                    address@,
                    description@,
                    price_per_night,
                    checkin_hour,
                    checkout_hour,
                    id_views(images@),
                    number_of_floors,
                    AuditTrail { account: sender, block, time },
                ) == Err::<(RegistryView, Seq<u8>), _>(e),
            },
    {
        let ghost v0 = self@;
        let ghost orig_images = id_views(images@);
        match ensure_checkin_checkout_hours_are_correct(checkin_hour, checkout_hour) {
            Ok(_) => {},
            Err(e) => {
                return Err(e);
            },
        }
        let images = dedup_ids(&images);
        proof {
            lemma_dedup_first(orig_images);
        }
        let floors = match number_of_floors {
            Some(n) => n,
            None => 1,
        };
        let place_id = compute_place_id(
            &place_type,
            &name,
            &address,
            &description,
            &images,
            floors,
        );
        if assoc_get(&self.places, &place_id).is_some() {
            return Err(Error::PlaceAlreadyExists);
        }
        let audit = AuditTrail::new(sender, block, time);
        let place_data = PlaceData::new(
            place_type,
            name,
            address,
            description,
            price_per_night,
            checkin_hour,
            checkout_hour,
            images,
            Some(floors),
            sender,
            audit,
        );
        let ghost pv = place_data@;
        let id_for_index = clone_bytes(&place_id);
        let id_for_data = clone_bytes(&place_id);
        assoc_set(&mut self.places, id_for_data, place_data);
        self.place_ids.push(id_for_index);
        proof {
            lemma_id_views_len(self.place_ids@);
            assert(self@.place_ids =~= v0.place_ids.push(place_id@));
            assert forall|k: Seq<u8>| #[trigger] self@.places.dom().contains(k) implies place_ok(
                self@.places[k],
            ) by {
                if k != place_id@ {
                    assert(v0.places.dom().contains(k));
                }
            }
            assert forall|k: Seq<u8>| #[trigger] self@.place_ids.contains(k) implies self@.places.dom().contains(
                k,
            ) by {
                let j = choose|j: int| 0 <= j < self@.place_ids.len() && self@.place_ids[j] == k;
                if j < v0.place_ids.len() {
                    assert(v0.place_ids[j] == k);
                    assert(v0.place_ids.contains(k));
                }
            }
            assert forall|k: Seq<u8>| #[trigger] self@.places.dom().contains(k) implies self@.place_ids.contains(
                k,
            ) by {
                if k == place_id@ {
                    assert(self@.place_ids[v0.place_ids.len() as int] == k);
                } else {
                    assert(v0.places.dom().contains(k));
                    assert(v0.place_ids.contains(k));
                    let j = choose|j: int| 0 <= j < v0.place_ids.len() && v0.place_ids[j] == k;
                    assert(self@.place_ids[j] == k);
                }
            }
            assert forall|a: int, b: int|
                0 <= a < b < self@.place_ids.len() implies self@.place_ids[a]
                != self@.place_ids[b] by {
                if b == self@.place_ids.len() - 1 {
                    assert(v0.place_ids.contains(v0.place_ids[a]));
                }
            }
            assert(spec_create_place(
                v0,
                sender,
                place_type,
                pv.name,
                pv.address,
                pv.description,
                price_per_night,
                checkin_hour,
                checkout_hour,
                orig_images,
                number_of_floors,
                audit,
            ) matches Ok((v1, id)) && v1 =~= self@ && id == place_id@);
        }
        Ok(place_id)
    }

    /// Rewrite an existing place in place; the id never changes, even where
    /// the fields feeding it did.
    pub fn update_place(
        &mut self,
        place_id: &Vec<u8>,
        place_type: Option<PlaceType>,
        name: Option<Vec<u8>>,
        address: Option<Vec<u8>>,
        description: Option<Vec<u8>>,
        price_per_night: Option<u64>,
        checkin_hour: Option<u32>,
        checkout_hour: Option<u32>,
        images: Option<Vec<Vec<u8>>>,
        number_of_floors: Option<u8>,
        sender: u64,
        block: u64,
        time: u64,
    ) -> (r: Result<Vec<u8>, Error>)
        requires
            old(self).inv(),
        ensures
            final(self).inv(),
            match r {
                Ok(id) => id@ == place_id@ && spec_update_place(
                    old(self)@,
                    place_id@,
                    place_type,
                    opt_view(name),
                    opt_view(address),
                    opt_view(description),
                    price_per_night,
                    checkin_hour,
                    checkout_hour,
                    opt_id_views(images),
                    number_of_floors,
                    AuditTrail { account: sender, block, time },
                ) == Ok::<_, Error>(final(self)@),
                Err(e) => final(self)@ == old(self)@ && spec_update_place(
                    old(self)@,
                    place_id@,
                    place_type,
                    opt_view(name),
                    opt_view(address),
                    opt_view(description),
                    price_per_night,
                    checkin_hour,
                    checkout_hour,
                    opt_id_views(images),
                    number_of_floors,
                    AuditTrail { account: sender, block, time },
                ) == Err::<RegistryView, _>(e),
            },
    {
        let ghost v0 = self@;
        let ghost gname = opt_view(name);
        let ghost gaddress = opt_view(address);
        let ghost gdescription = opt_view(description);
        let current = match assoc_get(&self.places, place_id) {
            Some(p) => p,
            None => {
                return Err(Error::UnhandledException);
            },
        };
        let ghost p0 = current@;
        let new_checkin_hour = match checkin_hour {
            Some(h) => h,
            None => current.checkin_hour,
        };
        let new_checkout_hour = match checkout_hour {
            Some(h) => h,
            None => current.checkout_hour,
        };
        match ensure_checkin_checkout_hours_are_correct(new_checkin_hour, new_checkout_hour) {
            Ok(_) => {},
            Err(e) => {
                return Err(e);
            },
        }
        let new_place_type = match place_type {
            Some(t) => t,
            None => current.place_type,
        };
        let new_name = match name {
            Some(n) => n,
            None => clone_bytes(&current.name),
        };
        let new_address = match address {
            Some(a) => a,
            None => clone_bytes(&current.address),
        };
        let new_description = match description {
            Some(d) => d,
            None => clone_bytes(&current.description),
        };
        let new_price_per_night = match price_per_night {
            Some(p) => p,
            None => current.price_per_night,
        };
        let new_number_of_floors = match number_of_floors {
            Some(n) => n,
            None => current.number_of_floors,
        };
        let mut new_images = clone_id_list(&current.images);
        match &images {
            Some(extra) => {
                proof {
                    lemma_merge_ids(p0.images, id_views(extra@));
                }
                extend_ids(&mut new_images, extra);
            },
            None => {},
        }
        let updated = PlaceData {
            place_type: new_place_type,
            name: new_name,
            address: new_address,
            description: new_description,
            price_per_night: new_price_per_night,
            checkin_hour: new_checkin_hour,
            checkout_hour: new_checkout_hour,
            active: current.active,
            images: new_images,
            number_of_floors: new_number_of_floors,
            owner: current.owner,
            on_chain_creation: current.on_chain_creation,
            on_chain_update: Some(AuditTrail::new(sender, block, time)),
        };
        let ghost q = updated@;
        assoc_set(&mut self.places, clone_bytes(place_id), updated);
        proof {
            assert(spec_update_fields(
                p0,
                place_type,
                gname,
                gaddress,
                gdescription,
                price_per_night,
                checkin_hour,
                checkout_hour,
                opt_id_views(images),
                number_of_floors,
                AuditTrail { account: sender, block, time },
            ) matches Ok(qq) && qq =~= q);
            assert(self@.place_ids == v0.place_ids);
            assert forall|k: Seq<u8>| #[trigger] self@.places.dom().contains(k)
                <==> v0.places.dom().contains(k) by {}
            assert forall|k: Seq<u8>| #[trigger] self@.places.dom().contains(k) implies place_ok(
                self@.places[k],
            ) by {
                if k != place_id@ {
                    assert(v0.places.dom().contains(k));
                }
            }
        }
        Ok(clone_bytes(place_id))
    }

    /// Drop a place from the registry and from the id list; the order of the
    /// remaining ids is not preserved.
    pub fn remove_place(&mut self, place_id: &Vec<u8>) -> (r: Result<Vec<u8>, Error>)
        requires
            old(self).inv(),
        ensures
            final(self).inv(),
            match r {
                Ok(id) => id@ == place_id@ && old(self)@.places.dom().contains(place_id@)
                    && final(self)@.places == old(self)@.places.remove(place_id@)
                    && (forall|k: Seq<u8>| #[trigger] final(self)@.place_ids.contains(k)
                        <==> (old(self)@.place_ids.contains(k) && k != place_id@)),
                Err(e) => e == Error::PlaceNotFound && !old(self)@.places.dom().contains(place_id@)
                    && final(self)@ == old(self)@,
            },
    {
        let ghost v0 = self@;
        if assoc_get(&self.places, place_id).is_none() {
            return Err(Error::PlaceNotFound);
        }
        match find_id(&self.place_ids, place_id) {
            Some(i) => {
                let ghost ids0 = id_views(self.place_ids@);
                self.place_ids.swap_remove(i);
                proof {
                    lemma_id_views_len(self.place_ids@);
                    let ids1 = id_views(self.place_ids@);
                    assert forall|k: Seq<u8>| #[trigger] ids1.contains(k) implies ids0.contains(k)
                        && k != place_id@ by {
                        let j = choose|j: int| 0 <= j < ids1.len() && ids1[j] == k;
                        assert(ids0[i as int] == place_id@);
                        if j == i {
                            assert(ids0[ids0.len() - 1] == k);
                            if k == place_id@ {
                                assert(ids0[i as int] == ids0[ids0.len() - 1]);
                                assert(false);
                            }
                        } else {
                            assert(ids0[j] == k);
                            if k == place_id@ {
                                assert(false);
                            }
                        }
                    }
                    assert forall|k: Seq<u8>|
                        ids0.contains(k) && k != place_id@ implies #[trigger] ids1.contains(k) by {
                        let j = choose|j: int| 0 <= j < ids0.len() && ids0[j] == k;
                        if j == i {
                            assert(ids0[i as int] == place_id@);
                        } else if j == ids0.len() - 1 {
                            if i < ids1.len() {
                                assert(ids1[i as int] == k);
                            }
                        } else {
                            assert(ids1[j] == k);
                        }
                    }
                    assert forall|a: int, b: int| 0 <= a < b < ids1.len() implies ids1[a]
                        != ids1[b] by {
                        assert(ids1[a] == if a == i { ids0[ids0.len() - 1] } else { ids0[a] });
                        assert(ids1[b] == if b == i { ids0[ids0.len() - 1] } else { ids0[b] });
                    }
                }
            },
            None => {
                proof {
                    assert(v0.place_ids.contains(place_id@) == v0.places.dom().contains(place_id@));
                    assert(false);
                }
            },
        }
        let _ = assoc_remove(&mut self.places, place_id);
        proof {
            assert forall|k: Seq<u8>| #[trigger] self@.place_ids.contains(k)
                <==> self@.places.dom().contains(k) by {
                assert(v0.place_ids.contains(k) == v0.places.dom().contains(k));
            }
        }
        Ok(clone_bytes(place_id))
    }
}

/// A given option, or the current value where none was given.
pub open spec fn opt_or<T>(o: Option<T>, d: T) -> T {
    match o {
        Some(x) => x,
        None => d,
    }
}

/// The views of an optional byte string.
pub open spec fn opt_view(o: Option<Vec<u8>>) -> Option<Seq<u8>> {
    match o {
        Some(v) => Some(v@),
        None => None,
    }
}

/// The views of an optional id list.
pub open spec fn opt_id_views(o: Option<Vec<Vec<u8>>>) -> Option<Seq<Seq<u8>>> {
    match o {
        Some(v) => Some(id_views(v@)),
        None => None,
    }
}

/// What updating a place does to its record: every given field replaces the
/// current one, the merged hours are re-validated, given images are united
/// with the current ones, and the update is audit-trailed. The owner, the
/// activity flag and the creation trail never change.
pub open spec fn spec_update_fields(
    p: PlaceView,
    place_type: Option<PlaceType>,
    name: Option<Seq<u8>>,
    address: Option<Seq<u8>>,
    description: Option<Seq<u8>>,
    price_per_night: Option<u64>,
    checkin_hour: Option<u32>,
    checkout_hour: Option<u32>,
    images: Option<Seq<Seq<u8>>>,
    number_of_floors: Option<u8>,
    updated_at: AuditTrail,
) -> Result<PlaceView, Error> {
    let cih = opt_or(checkin_hour, p.checkin_hour);
    let coh = opt_or(checkout_hour, p.checkout_hour);
    match spec_hours_check(cih, coh) {
        Err(e) => Err(e),
        Ok(_) => Ok(
            PlaceView {
                place_type: opt_or(place_type, p.place_type),
                name: opt_or(name, p.name),
                address: opt_or(address, p.address),
                description: opt_or(description, p.description),
                price_per_night: opt_or(price_per_night, p.price_per_night),
                checkin_hour: cih,
                checkout_hour: coh,
                active: p.active,
                images: match images {
                    Some(new) => merge_ids(p.images, new),
                    None => p.images,
                },
                number_of_floors: opt_or(number_of_floors, p.number_of_floors),
                owner: p.owner,
                on_chain_creation: p.on_chain_creation,
                on_chain_update: Some(updated_at),
            },
        ),
    }
}

/// What updating a place does to the registry: the place must exist, its
/// record is rewritten in place, and the id list is untouched.
pub open spec fn spec_update_place(
    v: RegistryView,
    place_id: Seq<u8>,
    place_type: Option<PlaceType>,
    name: Option<Seq<u8>>,
    address: Option<Seq<u8>>,
    description: Option<Seq<u8>>,
    price_per_night: Option<u64>,
    checkin_hour: Option<u32>,
    checkout_hour: Option<u32>,
    images: Option<Seq<Seq<u8>>>,
    number_of_floors: Option<u8>,
    updated_at: AuditTrail,
) -> Result<RegistryView, Error> {
    if !v.places.dom().contains(place_id) {
        Err(Error::UnhandledException)
    } else {
        match spec_update_fields(
            v.places[place_id],
            place_type,
            name,
            address,
            description,
            price_per_night,
            checkin_hour,
            checkout_hour,
            images,
            number_of_floors,
            updated_at,
        ) {
            Err(e) => Err(e),
            Ok(q) => Ok(RegistryView { place_ids: v.place_ids, places: v.places.insert(place_id, q) }),
        }
    }
}

/// What creating a place does: validate the hours, deduplicate the images,
/// derive the content-addressed id, refuse a duplicate, and persist a fresh
/// active place.
pub open spec fn spec_create_place(
    v: RegistryView,
    sender: u64,
    place_type: PlaceType,
    name: Seq<u8>,
    address: Seq<u8>,
    description: Seq<u8>,
    price_per_night: u64,
    checkin_hour: u32,
    checkout_hour: u32,
    images: Seq<Seq<u8>>,
    number_of_floors: Option<u8>,
    created_at: AuditTrail,
) -> Result<(RegistryView, Seq<u8>), Error> {
    match spec_hours_check(checkin_hour, checkout_hour) {
        Err(e) => Err(e),
        Ok(_) => {
            let imgs = dedup_first(images);
            let floors = spec_floors_or_one(number_of_floors);
            let id = place_id_of(place_type, name, address, description, imgs, floors);
            if v.places.dom().contains(id) {
                Err(Error::PlaceAlreadyExists)
            } else {
                let p = PlaceView {
                    place_type,
                    name,
                    address,
                    description,
                    price_per_night,
                    checkin_hour,
                    checkout_hour,
                    active: true,
                    images: imgs,
                    number_of_floors: floors,
                    owner: sender,
                    on_chain_creation: created_at,
                    on_chain_update: None,
                };
                Ok(
                    (
                        RegistryView {
                            place_ids: v.place_ids.push(id),
                            places: v.places.insert(id, p),
                        },
                        id,
                    ),
                )
            }
        },
    }
}

} // verus!
