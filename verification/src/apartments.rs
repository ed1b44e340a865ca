//! Draft data for an apartments directory; not yet wired into the booking
//! lifecycle.

use vstd::prelude::*;

verus! {

/// A country code, as raw bytes.
pub type CountryCode = Vec<u8>;

/// A region code, as raw bytes.
pub type RegionCode = Vec<u8>;

/// A city code, as raw bytes.
pub type CityCode = Vec<u8>;

/// Contact and location data of a doctor on call for an apartment building.
#[derive(Clone, Debug, PartialEq, Eq)]
pub struct DoctorInfo {
    pub name: Vec<u8>,
    pub email: Vec<u8>,
    pub country: CountryCode,
    pub region: RegionCode,
    pub city: CityCode,
    pub address: Vec<u8>,
    pub latitude: Option<Vec<u8>>,
    pub longitude: Option<Vec<u8>>,
    pub profile_image: Option<Vec<u8>>,
}

} // verus!
