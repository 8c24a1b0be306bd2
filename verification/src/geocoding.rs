//! The library's model of a geocoding service response.
//!
//! The service hands back candidates whose address parts arrive as a loose
//! bag of typed components. The pipeline only ever reads the component type
//! tags, the component names, and the coordinate, so exactly those are
//! modeled here as plain values; fetching a response over the wire stays
//! outside the library.

use vstd::prelude::*;
use crate::decimal::FixedDecimal;

verus! {

/// The component type tags the pipeline distinguishes; every other tag of
/// the service is `Other`.
#[derive(Clone, Copy, Debug, PartialEq, Eq, Structural)]
pub enum PlaceType {
    StreetNumber,
    Route,
    Locality,
    AdministrativeAreaLevel1,
    AdministrativeAreaLevel2,
    Country,
    PostalCode,
    Other,
}

/// One typed component of a candidate's address.
#[derive(Clone, Debug)]
pub struct AddressComponent {
    /// The component's full text.
    pub long_name: String,
    /// Every type tag the service attached to the component.
    pub types: Vec<PlaceType>,
}

/// Mathematical value of an [`AddressComponent`].
pub struct AddressComponentV {
    pub long_name: Seq<char>,
    pub types: Seq<PlaceType>,
}

impl View for AddressComponent {
    type V = AddressComponentV;

    open spec fn view(&self) -> AddressComponentV {
        AddressComponentV { long_name: self.long_name@, types: self.types@ }
    }
}

/// One candidate of a geocoding response: its address components and its
/// coordinate.
#[derive(Clone, Debug)]
pub struct Geocoding {
    /// The components applicable to this address.
    pub address_components: Vec<AddressComponent>,
    /// Geocoded latitude.
    pub lat: FixedDecimal,
    /// Geocoded longitude.
    pub lng: FixedDecimal,
}

/// Mathematical value of a [`Geocoding`].
pub struct GeocodingV {
    pub address_components: Seq<AddressComponentV>,
    pub lat: FixedDecimal,
    pub lng: FixedDecimal,
}

impl View for Geocoding {
    type V = GeocodingV;

    open spec fn view(&self) -> GeocodingV {
        GeocodingV {
            address_components: self.address_components@.map_values(|c: AddressComponent| c@),
            lat: self.lat@,
            lng: self.lng@,
        }
    }
}

impl Geocoding {
    /// The coordinate stays within the decimal bounds.
    pub open spec fn wf(self) -> bool {
        self.lat.wf() && self.lng.wf()
    }
}

/// What can go wrong for one record on its way through the service.
#[derive(Debug)]
pub enum GeocodingError {
    /// The service credential is missing from the environment.
    EnvVarError(String),
    /// The service itself failed: transport, authentication, quota or a
    /// malformed response; carries the underlying message.
    GoogleMapsError(String),
    /// The record lacks the fields needed to form a query.
    FileAddressNotFound,
    /// The service answered with zero candidates.
    NoApiResult,
}

/// Mathematical value of a [`GeocodingError`].
pub enum GeocodingErrorV {
    EnvVarError(Seq<char>),
    GoogleMapsError(Seq<char>),
    FileAddressNotFound,
    NoApiResult,
}

impl Clone for GeocodingError {
    /// An exact copy of the cause.
    fn clone(&self) -> (r: Self)
        ensures
            r == *self,
    {
        match self {
            GeocodingError::EnvVarError(m) => GeocodingError::EnvVarError(m.clone()),
            GeocodingError::GoogleMapsError(m) => GeocodingError::GoogleMapsError(m.clone()),
            GeocodingError::FileAddressNotFound => GeocodingError::FileAddressNotFound,
            GeocodingError::NoApiResult => GeocodingError::NoApiResult,
        }
    }
}

impl View for GeocodingError {
    type V = GeocodingErrorV;

    open spec fn view(&self) -> GeocodingErrorV {
        match self {
            GeocodingError::EnvVarError(m) => GeocodingErrorV::EnvVarError(m@),
            GeocodingError::GoogleMapsError(m) => GeocodingErrorV::GoogleMapsError(m@),
            GeocodingError::FileAddressNotFound => GeocodingErrorV::FileAddressNotFound,
            GeocodingError::NoApiResult => GeocodingErrorV::NoApiResult,
        }
    }
}

} // verus!
