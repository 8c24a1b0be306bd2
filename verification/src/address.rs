//! The address record: one site before and after geocoding.
//!
//! A record keeps its input ("old") fields strictly apart from the geocoded
//! ("new") fields, so the drift between the recorded and the found location
//! stays reconstructable. Reading records from rows of table cells and
//! laying them out again as rows is the library's logic; the table file
//! itself is read and written outside.

use vstd::prelude::*;
use vstd::string::StringExecFns;
use crate::decimal::{
    dec_val_of, digit_string, fits, format_decimal, format_u64, haversine_meters, parse_decimal,
    scale_of, spec_format, valid_dec_string, FixedDecimal,
};
use crate::geocoding::{AddressComponentV, Geocoding, GeocodingV, PlaceType};

verus! {

/// `Some` text or `None`, viewed as character sequences.
pub open spec fn opt_text(o: Option<String>) -> Option<Seq<char>> {
    match o {
        Option::Some(s) => Option::Some(s@),
        Option::None => Option::None,
    }
}

/// One address under evaluation. Input cells that were empty are `None`;
/// the geocoded fields stay `None` until a lookup succeeds.
#[derive(Debug)]
pub struct Address {
    /// Name of the site, from the input.
    pub site_name: Option<String>,
    /// Name of the site's group, from the input.
    pub group_name: Option<String>,
    /// Free-text address line, from the input.
    pub old_full_address: Option<String>,
    /// Composed address found by the service.
    pub new_full_address: Option<String>,
    /// Locality, from the input.
    pub old_locality: Option<String>,
    /// Locality found by the service.
    pub new_locality: Option<String>,
    /// Postal code, from the input.
    pub old_postal_code: Option<String>,
    /// Postal code found by the service.
    pub new_postal_code: Option<String>,
    /// First administrative area, from the input.
    pub old_administrative_area_level1: Option<String>,
    /// First administrative area found by the service.
    pub new_administrative_area_level1: Option<String>,
    /// Second administrative area, from the input.
    pub old_administrative_area_level2: Option<String>,
    /// Second administrative area found by the service.
    pub new_administrative_area_level2: Option<String>,
    /// Recorded latitude, from the input.
    pub old_lat: FixedDecimal,
    /// Recorded longitude, from the input.
    pub old_lng: FixedDecimal,
    /// Latitude found by the service.
    pub new_lat: FixedDecimal,
    /// Longitude found by the service.
    pub new_lng: FixedDecimal,
    /// Street number found by the service.
    pub street_number: Option<String>,
    /// Route found by the service.
    pub route: Option<String>,
    /// Country found by the service.
    pub country: Option<String>,
    /// Whole-meter great-circle distance between the recorded and the found
    /// coordinate; zero until a lookup succeeds.
    pub meter_distance: u64,
}

/// Mathematical value of an [`Address`].
pub struct AddressV {
    pub site_name: Option<Seq<char>>,
    pub group_name: Option<Seq<char>>,
    pub old_full_address: Option<Seq<char>>,
    pub new_full_address: Option<Seq<char>>,
    pub old_locality: Option<Seq<char>>,
    pub new_locality: Option<Seq<char>>,
    pub old_postal_code: Option<Seq<char>>,
    pub new_postal_code: Option<Seq<char>>,
    pub old_administrative_area_level1: Option<Seq<char>>,
    pub new_administrative_area_level1: Option<Seq<char>>,
    pub old_administrative_area_level2: Option<Seq<char>>,
    pub new_administrative_area_level2: Option<Seq<char>>,
    pub old_lat: FixedDecimal,
    pub old_lng: FixedDecimal,
    pub new_lat: FixedDecimal,
    pub new_lng: FixedDecimal,
    pub street_number: Option<Seq<char>>,
    pub route: Option<Seq<char>>,
    pub country: Option<Seq<char>>,
    pub meter_distance: u64,
}

impl View for Address {
    type V = AddressV;

    open spec fn view(&self) -> AddressV {
        AddressV {
            site_name: opt_text(self.site_name),
            group_name: opt_text(self.group_name),
            old_full_address: opt_text(self.old_full_address),
            new_full_address: opt_text(self.new_full_address),
            old_locality: opt_text(self.old_locality),
            new_locality: opt_text(self.new_locality),
            old_postal_code: opt_text(self.old_postal_code),
            new_postal_code: opt_text(self.new_postal_code),
            old_administrative_area_level1: opt_text(self.old_administrative_area_level1),
            new_administrative_area_level1: opt_text(self.new_administrative_area_level1),
            old_administrative_area_level2: opt_text(self.old_administrative_area_level2),
            new_administrative_area_level2: opt_text(self.new_administrative_area_level2),
            old_lat: self.old_lat,
            old_lng: self.old_lng,
            new_lat: self.new_lat,
            new_lng: self.new_lng,
            street_number: opt_text(self.street_number),
            route: opt_text(self.route),
            country: opt_text(self.country),
            meter_distance: self.meter_distance,
        }
    }
}

impl AddressV {
    /// Every coordinate of the record stays within the decimal bounds.
    pub open spec fn wf(self) -> bool {
        &&& self.old_lat.wf()
        &&& self.old_lng.wf()
        &&& self.new_lat.wf()
        &&& self.new_lng.wf()
    }
}

impl Address {
    /// Every coordinate of the record stays within the decimal bounds.
    pub open spec fn wf(self) -> bool {
        self.view().wf()
    }
}

/// Copies optional text.
fn clone_opt_string(o: &Option<String>) -> (r: Option<String>)
    ensures
        r == *o,
{
    match o {
        Option::Some(s) => Option::Some(s.clone()),
        Option::None => Option::None,
    }
}

impl Clone for Address {
    /// An exact copy of the record.
    fn clone(&self) -> (r: Self)
        ensures
            r == *self,
    {
        Address {
            site_name: clone_opt_string(&self.site_name),
            group_name: clone_opt_string(&self.group_name),
            old_full_address: clone_opt_string(&self.old_full_address),
            new_full_address: clone_opt_string(&self.new_full_address),
            old_locality: clone_opt_string(&self.old_locality),
            new_locality: clone_opt_string(&self.new_locality),
            old_postal_code: clone_opt_string(&self.old_postal_code),
            new_postal_code: clone_opt_string(&self.new_postal_code),
            old_administrative_area_level1: clone_opt_string(
                &self.old_administrative_area_level1,
            ),
            new_administrative_area_level1: clone_opt_string(
                &self.new_administrative_area_level1,
            ),
            old_administrative_area_level2: clone_opt_string(
                &self.old_administrative_area_level2,
            ),
            new_administrative_area_level2: clone_opt_string(
                &self.new_administrative_area_level2,
            ),
            old_lat: self.old_lat,
            old_lng: self.old_lng,
            new_lat: self.new_lat,
            new_lng: self.new_lng,
            street_number: clone_opt_string(&self.street_number),
            route: clone_opt_string(&self.route),
            country: clone_opt_string(&self.country),
            meter_distance: self.meter_distance,
        }
    }
}

/// The query text a record asks the service to geocode: group, address
/// line, locality and postal code, joined by commas — or nothing, when any
/// of the four is absent.
pub open spec fn spec_query(a: AddressV) -> Option<Seq<char>> {
    match (a.group_name, a.old_full_address, a.old_locality, a.old_postal_code) {
        (Option::Some(g), Option::Some(ad), Option::Some(l), Option::Some(p)) => Option::Some(
            g + ", "@ + ad + ", "@ + l + ", "@ + p,
        ),
        _ => Option::None,
    }
}

/// The composed service address: street number and route when both were
/// found, the route alone when only it was, nothing otherwise.
pub open spec fn spec_full_address(
    street_number: Option<Seq<char>>,
    route: Option<Seq<char>>,
) -> Option<Seq<char>> {
    match (street_number, route) {
        (Option::Some(n), Option::Some(r)) => Option::Some(n + " "@ + r),
        (Option::None, Option::Some(r)) => Option::Some(r),
        _ => Option::None,
    }
}

/// Composes the service's street number and route into the record's new
/// full address.
pub fn compose_full_address(street_number: &Option<String>, route: &Option<String>) -> (r: Option<
    String,
>)
    ensures
        opt_text(r) == spec_full_address(opt_text(*street_number), opt_text(*route)),
{
    match (street_number, route) {
        (Option::Some(n), Option::Some(rt)) => {
            let mut out = n.clone();
            out.append(" ");
            out.append(rt.as_str());
            proof {
                assert(out@ =~= n@ + " "@ + rt@);
            }
            Option::Some(out)
        },
        (Option::None, Option::Some(rt)) => Option::Some(rt.clone()),
        _ => Option::None,
    }
}

// ---------------------------------------------------------------------------
// Mapping a candidate's typed components onto record fields.
// ---------------------------------------------------------------------------

/// The seven record fields a candidate's components can populate.
pub struct ComponentFields {
    pub street_number: Option<Seq<char>>,
    pub route: Option<Seq<char>>,
    pub locality: Option<Seq<char>>,
    pub administrative_area_level1: Option<Seq<char>>,
    pub administrative_area_level2: Option<Seq<char>>,
    pub country: Option<Seq<char>>,
    pub postal_code: Option<Seq<char>>,
}

/// No field populated yet.
pub open spec fn empty_fields() -> ComponentFields {
    ComponentFields {
        street_number: Option::None,
        route: Option::None,
        locality: Option::None,
        administrative_area_level1: Option::None,
        administrative_area_level2: Option::None,
        country: Option::None,
        postal_code: Option::None,
    }
}

/// One type tag of a component populates the matching field with the
/// component's text; an unknown tag changes nothing. A later writer wins.
pub open spec fn apply_tag(f: ComponentFields, t: PlaceType, name: Seq<char>) -> ComponentFields {
    match t {
        PlaceType::StreetNumber => ComponentFields { street_number: Option::Some(name), ..f },
        PlaceType::Route => ComponentFields { route: Option::Some(name), ..f },
        PlaceType::Locality => ComponentFields { locality: Option::Some(name), ..f },
        PlaceType::AdministrativeAreaLevel1 => ComponentFields {
            administrative_area_level1: Option::Some(name),
            ..f
        },
        PlaceType::AdministrativeAreaLevel2 => ComponentFields {
            administrative_area_level2: Option::Some(name),
            ..f
        },
        PlaceType::Country => ComponentFields { country: Option::Some(name), ..f },
        PlaceType::PostalCode => ComponentFields { postal_code: Option::Some(name), ..f },
        PlaceType::Other => f,
    }
}

/// A component's tags applied in order.
pub open spec fn apply_tags(f: ComponentFields, ts: Seq<PlaceType>, name: Seq<char>) -> ComponentFields
    decreases ts.len(),
{
    if ts.len() == 0 {
        f
    } else {
        apply_tag(apply_tags(f, ts.drop_last(), name), ts.last(), name)
    }
}

/// A candidate's components applied in order.
pub open spec fn apply_components(f: ComponentFields, cs: Seq<AddressComponentV>) -> ComponentFields
    decreases cs.len(),
{
    if cs.len() == 0 {
        f
    } else {
        apply_tags(apply_components(f, cs.drop_last()), cs.last().types, cs.last().long_name)
    }
}

/// The record a successful lookup leaves behind: the input fields kept, the
/// geocoded fields taken from the candidate's components, the new full
/// address composed, and the drift distance attached.
pub open spec fn spec_parse_geocoding_result(g: GeocodingV, a: AddressV) -> AddressV {
    let f = apply_components(empty_fields(), g.address_components);
    AddressV {
        street_number: f.street_number,
        route: f.route,
        country: f.country,
        new_full_address: spec_full_address(f.street_number, f.route),
        new_locality: f.locality,
        new_administrative_area_level1: f.administrative_area_level1,
        new_administrative_area_level2: f.administrative_area_level2,
        new_postal_code: f.postal_code,
        new_lat: g.lat,
        new_lng: g.lng,
        meter_distance: haversine_meters(
            a.old_lat.mantissa as int,
            a.old_lat.scale as nat,
            a.old_lng.mantissa as int,
            a.old_lng.scale as nat,
            g.lat.mantissa as int,
            g.lat.scale as nat,
            g.lng.mantissa as int,
            g.lng.scale as nat,
        ),
        ..a
    }
}

impl Address {
    /// Reconciles a record with the best candidate the service returned:
    /// every component type tag populates its matching field, the last
    /// writer winning; the drift distance is computed from the recorded and
    /// the found coordinate.
    pub fn parse_geocoding_result(result: &Geocoding, address_obj: Address) -> (r: Address)
        requires
            address_obj.wf(),
            result.wf(),
        ensures
            r@ == spec_parse_geocoding_result(result@, address_obj@),
            r.wf(),
    {
        let mut street_number: Option<String> = Option::None;
        let mut route: Option<String> = Option::None;
        let mut locality: Option<String> = Option::None;
        let mut administrative_area_level2: Option<String> = Option::None;
        let mut administrative_area_level1: Option<String> = Option::None;
        let mut country: Option<String> = Option::None;
        let mut postal_code: Option<String> = Option::None;
        let ghost cs = result@.address_components;
        let ncomp = result.address_components.len();
        let mut i: usize = 0;
        while i < ncomp
            invariant
                i <= ncomp,
                ncomp == result.address_components@.len(),
                cs == result@.address_components,
                cs.len() == ncomp,
                ({
                    let f = apply_components(empty_fields(), cs.subrange(0, i as int));
                    &&& opt_text(street_number) == f.street_number
                    &&& opt_text(route) == f.route
                    &&& opt_text(locality) == f.locality
                    &&& opt_text(administrative_area_level1) == f.administrative_area_level1
                    &&& opt_text(administrative_area_level2) == f.administrative_area_level2
                    &&& opt_text(country) == f.country
                    &&& opt_text(postal_code) == f.postal_code
                }),
            decreases ncomp - i,
        {
            let component = &result.address_components[i];
            let ghost name = component@.long_name;
            let ghost ts = component@.types;
            let ghost fstart = apply_components(empty_fields(), cs.subrange(0, i as int));
            let ntypes = component.types.len();
            let mut j: usize = 0;
            while j < ntypes
                invariant
                    j <= ntypes,
                    ntypes == component.types@.len(),
                    name == component@.long_name,
                    ts == component@.types,
                    ({
                        let f = apply_tags(fstart, ts.subrange(0, j as int), name);
                        &&& opt_text(street_number) == f.street_number
                        &&& opt_text(route) == f.route
                        &&& opt_text(locality) == f.locality
                        &&& opt_text(administrative_area_level1) == f.administrative_area_level1
                        &&& opt_text(administrative_area_level2) == f.administrative_area_level2
                        &&& opt_text(country) == f.country
                        &&& opt_text(postal_code) == f.postal_code
                    }),
                decreases ntypes - j,
            {
                let t = component.types[j];
                match t {
                    PlaceType::StreetNumber => {
                        street_number = Option::Some(component.long_name.clone());
                    },
                    PlaceType::Route => {
                        route = Option::Some(component.long_name.clone());
                    },
                    PlaceType::Locality => {
                        locality = Option::Some(component.long_name.clone());
                    },
                    PlaceType::AdministrativeAreaLevel1 => {
                        administrative_area_level1 = Option::Some(component.long_name.clone());
                    },
                    PlaceType::AdministrativeAreaLevel2 => {
                        administrative_area_level2 = Option::Some(component.long_name.clone());
                    },
                    PlaceType::Country => {
                        country = Option::Some(component.long_name.clone());
                    },
                    PlaceType::PostalCode => {
                        postal_code = Option::Some(component.long_name.clone());
                    },
                    PlaceType::Other => {},
                }
                proof {
                    assert(ts.subrange(0, j as int + 1).drop_last() =~= ts.subrange(0, j as int));
                    assert(ts.subrange(0, j as int + 1).last() == ts[j as int]);
                }
                j = j + 1;
            }
            proof {
                assert(ts.subrange(0, ntypes as int) =~= ts);
                assert(cs.subrange(0, i as int + 1).drop_last() =~= cs.subrange(0, i as int));
                assert(cs.subrange(0, i as int + 1).last() == cs[i as int]);
                assert(cs[i as int] == result.address_components@[i as int]@);
            }
            i = i + 1;
        }
        proof {
            assert(cs.subrange(0, ncomp as int) =~= cs);
        }
        let full_address = compose_full_address(&street_number, &route);
        let distance = crate::decimal::distance_meters(
            &address_obj.old_lat,
            &address_obj.old_lng,
            &result.lat,
            &result.lng,
        );
        Address {
            street_number,
            new_full_address: full_address,
            route,
            new_locality: locality,
            new_administrative_area_level2: administrative_area_level2,
            new_administrative_area_level1: administrative_area_level1,
            country,
            new_postal_code: postal_code,
            new_lat: result.lat,
            new_lng: result.lng,
            meter_distance: distance,
            ..address_obj
        }
    }

    /// The query text this record asks the service for, or `None` when the
    /// group, address line, locality or postal code is missing.
    pub fn get_address_with_group_name(&self) -> (r: Option<String>)
        ensures
            opt_text(r) == spec_query(self@),
    {
        match (&self.group_name, &self.old_full_address, &self.old_locality, &self.old_postal_code) {
            (Option::Some(g), Option::Some(ad), Option::Some(l), Option::Some(p)) => {
                let mut out = g.clone();
                out.append(", ");
                out.append(ad.as_str());
                out.append(", ");
                out.append(l.as_str());
                out.append(", ");
                out.append(p.as_str());
                proof {
                    assert(out@ =~= g@ + ", "@ + ad@ + ", "@ + l@ + ", "@ + p@);
                }
                Option::Some(out)
            },
            _ => Option::None,
        }
    }
}

// ---------------------------------------------------------------------------
// A record as one readable line.
// ---------------------------------------------------------------------------

/// A present field followed by a space; nothing for an absent one.
pub open spec fn opt_disp(o: Option<Seq<char>>) -> Seq<char> {
    match o {
        Option::Some(s) => s + " "@,
        Option::None => Seq::empty(),
    }
}

/// The readable line of a record: each present identity field followed by a
/// space, then the recorded coordinate pair.
pub open spec fn spec_display(a: AddressV) -> Seq<char> {
    opt_disp(a.site_name) + opt_disp(a.old_full_address) + opt_disp(a.old_locality) + opt_disp(
        a.old_postal_code,
    ) + opt_disp(a.old_administrative_area_level1) + opt_disp(a.old_administrative_area_level2)
        + spec_format(a.old_lat) + " "@ + spec_format(a.old_lng)
}

/// Appends a present field and a space to `out`.
fn append_opt_field(out: &mut String, field: &Option<String>)
    ensures
        final(out)@ == old(out)@ + opt_disp(opt_text(*field)),
{
    match field {
        Option::Some(t) => {
            out.append(t.as_str());
            out.append(" ");
            proof {
                assert(final(out)@ =~= old(out)@ + (t@ + " "@));
            }
        },
        Option::None => {
            proof {
                assert(final(out)@ =~= old(out)@ + Seq::<char>::empty());
            }
        },
    }
}

impl Address {
    /// The record as one readable line.
    pub fn to_display_string(&self) -> (r: String)
        requires
            self.wf(),
        ensures
            r@ == spec_display(self@),
    {
        let mut out = String::new();
        append_opt_field(&mut out, &self.site_name);
        append_opt_field(&mut out, &self.old_full_address);
        append_opt_field(&mut out, &self.old_locality);
        append_opt_field(&mut out, &self.old_postal_code);
        append_opt_field(&mut out, &self.old_administrative_area_level1);
        append_opt_field(&mut out, &self.old_administrative_area_level2);
        let lat_s = format_decimal(&self.old_lat);
        out.append(lat_s.as_str());
        out.append(" ");
        let lng_s = format_decimal(&self.old_lng);
        out.append(lng_s.as_str());
        proof {
            assert(out@ =~= spec_display(self@));
        }
        out
    }
}

// ---------------------------------------------------------------------------
// Records from input rows, and records laid out as output rows.
// ---------------------------------------------------------------------------

/// What can go wrong around the record table.
#[derive(Clone, Debug)]
pub enum AddressError {
    /// Reading or writing the table failed; carries the underlying message.
    IoError(String),
    /// The input file does not exist; carries its path.
    FileNotFound(String),
    /// The table layer itself failed; carries the underlying message.
    CsvError(String),
    /// The input held no record at all.
    InvalidCsvFormat,
    /// A row could not be read as a record.
    DeserializationError,
    /// The input file's name has no stem to derive the output name from.
    InvalidOriginalFileName,
    /// The input file's name is no valid text.
    FileNameConversionFailed,
}

/// A row of table cells, viewed as character sequences.
pub open spec fn row_view(row: Vec<String>) -> Seq<Seq<char>> {
    row@.map_values(|s: String| s@)
}

/// Rows of table cells, viewed as character sequences.
pub open spec fn rows_view(rows: Vec<Vec<String>>) -> Seq<Seq<Seq<char>>> {
    rows@.map_values(|r: Vec<String>| row_view(r))
}

/// An input row is nine cells — site, group, address, city, zip, the two
/// administrative areas, latitude, longitude — whose two coordinate cells
/// hold decimal text within this library's bounds.
pub open spec fn spec_row_ok(row: Seq<Seq<char>>) -> bool {
    &&& row.len() == 9
    &&& valid_dec_string(row[7])
    &&& fits(row[7])
    &&& valid_dec_string(row[8])
    &&& fits(row[8])
}

/// An empty cell is an absent value.
pub open spec fn opt_of_cell(cell: Seq<char>) -> Option<Seq<char>> {
    if cell.len() == 0 {
        Option::None
    } else {
        Option::Some(cell)
    }
}

/// An absent value is an empty cell.
pub open spec fn cell_of_opt(o: Option<Seq<char>>) -> Seq<char> {
    match o {
        Option::Some(s) => s,
        Option::None => Seq::empty(),
    }
}

/// The record an input row denotes: identity fields from the cells, the
/// recorded coordinate parsed, every geocoded field still absent.
pub open spec fn spec_record_of_row(row: Seq<Seq<char>>) -> AddressV {
    AddressV {
        site_name: opt_of_cell(row[0]),
        group_name: opt_of_cell(row[1]),
        old_full_address: opt_of_cell(row[2]),
        new_full_address: Option::None,
        old_locality: opt_of_cell(row[3]),
        new_locality: Option::None,
        old_postal_code: opt_of_cell(row[4]),
        new_postal_code: Option::None,
        old_administrative_area_level1: opt_of_cell(row[5]),
        new_administrative_area_level1: Option::None,
        old_administrative_area_level2: opt_of_cell(row[6]),
        new_administrative_area_level2: Option::None,
        old_lat: FixedDecimal { mantissa: dec_val_of(row[7]) as i64, scale: scale_of(row[7]) as u32 },
        old_lng: FixedDecimal { mantissa: dec_val_of(row[8]) as i64, scale: scale_of(row[8]) as u32 },
        new_lat: FixedDecimal { mantissa: 0, scale: 0 },
        new_lng: FixedDecimal { mantissa: 0, scale: 0 },
        street_number: Option::None,
        route: Option::None,
        country: Option::None,
        meter_distance: 0,
    }
}

/// An empty cell becomes an absent value; any other cell is kept.
fn cell_to_opt(cell: &String) -> (r: Option<String>)
    ensures
        opt_text(r) == opt_of_cell(cell@),
{
    if cell.as_str().is_empty() {
        Option::None
    } else {
        Option::Some(cell.clone())
    }
}

/// Reads one input row as a record. Returns `Ok` exactly when the row has
/// the nine expected cells and both coordinate cells parse.
pub fn record_from_input_row(row: &Vec<String>) -> (r: Result<Address, AddressError>)
    ensures
        match r {
            Ok(a) => {
                &&& spec_row_ok(row_view(*row))
                &&& a@ == spec_record_of_row(row_view(*row))
                &&& a.wf()
            },
            Err(e) => !spec_row_ok(row_view(*row)) && e is DeserializationError,
        },
{
    if row.len() != 9 {
        return Err(AddressError::DeserializationError);
    }
    let lat = match parse_decimal(row[7].as_str()) {
        Option::Some(d) => d,
        Option::None => {
            return Err(AddressError::DeserializationError);
        },
    };
    let lng = match parse_decimal(row[8].as_str()) {
        Option::Some(d) => d,
        Option::None => {
            return Err(AddressError::DeserializationError);
        },
    };
    Ok(
        Address {
            site_name: cell_to_opt(&row[0]),
            group_name: cell_to_opt(&row[1]),
            old_full_address: cell_to_opt(&row[2]),
            new_full_address: Option::None,
            old_locality: cell_to_opt(&row[3]),
            new_locality: Option::None,
            old_postal_code: cell_to_opt(&row[4]),
            new_postal_code: Option::None,
            old_administrative_area_level1: cell_to_opt(&row[5]),
            new_administrative_area_level1: Option::None,
            old_administrative_area_level2: cell_to_opt(&row[6]),
            new_administrative_area_level2: Option::None,
            old_lat: lat,
            old_lng: lng,
            new_lat: FixedDecimal { mantissa: 0, scale: 0 },
            new_lng: FixedDecimal { mantissa: 0, scale: 0 },
            street_number: Option::None,
            route: Option::None,
            country: Option::None,
            meter_distance: 0,
        },
    )
}

/// The records of one input table.
#[derive(Clone, Debug)]
pub struct Addresses {
    /// The records, in row order.
    pub addresses: Vec<Address>,
}

impl Addresses {
    /// Reads the rows of an input table as records. An input without a
    /// single row is an error, not an empty run; a row that cannot be read
    /// fails the whole input.
    pub fn new(rows: &Vec<Vec<String>>) -> (r: Result<Self, AddressError>)
        ensures
            match r {
                Ok(a) => {
                    &&& rows@.len() > 0
                    &&& a.addresses@.len() == rows@.len()
                    &&& forall|i: int|
                        0 <= i < rows@.len() ==> spec_row_ok(#[trigger] rows_view(*rows)[i])
                    &&& forall|i: int|
                        0 <= i < rows@.len() ==> (#[trigger] a.addresses@[i])@
                            == spec_record_of_row(rows_view(*rows)[i]) && a.addresses@[i].wf()
                },
                Err(e) => {
                    if rows@.len() == 0 {
                        e is InvalidCsvFormat
                    } else {
                        (exists|i: int|
                            0 <= i < rows@.len() && !spec_row_ok(#[trigger] rows_view(*rows)[i]))
                            && e is DeserializationError
                    }
                },
            },
    {
        if rows.len() == 0 {
            return Err(AddressError::InvalidCsvFormat);
        }
        let mut addresses: Vec<Address> = Vec::new();
        let n = rows.len();
        let mut i: usize = 0;
        while i < n
            invariant
                i <= n,
                n == rows@.len(),
                addresses@.len() == i,
                forall|k: int| 0 <= k < i ==> spec_row_ok(#[trigger] rows_view(*rows)[k]),
                forall|k: int|
                    0 <= k < i ==> (#[trigger] addresses@[k])@ == spec_record_of_row(
                        rows_view(*rows)[k],
                    ) && addresses@[k].wf(),
            decreases n - i,
        {
            match record_from_input_row(&rows[i]) {
                Ok(a) => {
                    addresses.push(a);
                },
                Err(_) => {
                    proof {
                        assert(rows_view(*rows)[i as int] == row_view(rows@[i as int]));
                        assert(!spec_row_ok(rows_view(*rows)[i as int]));
                    }
                    return Err(AddressError::DeserializationError);
                },
            }
            i = i + 1;
        }
        Ok(Addresses { addresses })
    }
}

// ---------------------------------------------------------------------------
// Records laid out as output rows.
// ---------------------------------------------------------------------------

/// The output row of a record: each identity field beside its geocoded
/// counterpart, both coordinates old and new, and the drift distance.
pub open spec fn spec_output_row(a: AddressV) -> Seq<Seq<char>> {
    seq![
        cell_of_opt(a.site_name),
        cell_of_opt(a.group_name),
        cell_of_opt(a.old_full_address),
        cell_of_opt(a.new_full_address),
        cell_of_opt(a.old_locality),
        cell_of_opt(a.new_locality),
        cell_of_opt(a.old_postal_code),
        cell_of_opt(a.new_postal_code),
        cell_of_opt(a.old_administrative_area_level1),
        cell_of_opt(a.new_administrative_area_level1),
        cell_of_opt(a.old_administrative_area_level2),
        cell_of_opt(a.new_administrative_area_level2),
        spec_format(a.old_lat),
        spec_format(a.new_lat),
        spec_format(a.old_lng),
        spec_format(a.new_lng),
        digit_string(a.meter_distance as nat),
    ]
}

/// A present value is kept as its cell; an absent one becomes the empty
/// cell.
fn opt_to_cell(o: &Option<String>) -> (r: String)
    ensures
        r@ == cell_of_opt(opt_text(*o)),
{
    match o {
        Option::Some(s) => s.clone(),
        Option::None => String::new(),
    }
}

/// Lays one record out as its output row.
pub fn record_to_output_row(a: &Address) -> (r: Vec<String>)
    requires
        a.wf(),
    ensures
        row_view(r) == spec_output_row(a@),
{
    let mut row: Vec<String> = Vec::new();
    row.push(opt_to_cell(&a.site_name));
    row.push(opt_to_cell(&a.group_name));
    row.push(opt_to_cell(&a.old_full_address));
    row.push(opt_to_cell(&a.new_full_address));
    row.push(opt_to_cell(&a.old_locality));
    row.push(opt_to_cell(&a.new_locality));
    row.push(opt_to_cell(&a.old_postal_code));
    row.push(opt_to_cell(&a.new_postal_code));
    row.push(opt_to_cell(&a.old_administrative_area_level1));
    row.push(opt_to_cell(&a.new_administrative_area_level1));
    row.push(opt_to_cell(&a.old_administrative_area_level2));
    row.push(opt_to_cell(&a.new_administrative_area_level2));
    row.push(format_decimal(&a.old_lat));
    row.push(format_decimal(&a.new_lat));
    row.push(format_decimal(&a.old_lng));
    row.push(format_decimal(&a.new_lng));
    row.push(format_u64(a.meter_distance));
    proof {
        assert(row_view(row) =~= spec_output_row(a@));
    }
    row
}

/// The column names of the output table, one per cell of
/// `spec_output_row`, in that order.
pub open spec fn spec_output_header() -> Seq<Seq<char>> {
    seq![
        "site"@,
        "group"@,
        "old_address"@,
        "new_address"@,
        "old_city"@,
        "new_city"@,
        "old_zip"@,
        "new_zip"@,
        "old_administrative_area_level1"@,
        "new_administrative_area_level1"@,
        "old_administrative_area_level2"@,
        "new_administrative_area_level2"@,
        "old_lat"@,
        "new_lat"@,
        "old_lng"@,
        "new_lng"@,
        "meter_distance"@,
    ]
}

/// The column names of the output table, matching `spec_output_row`.
pub fn output_header() -> (r: Vec<String>)
    ensures
        r@.len() == 17,
        row_view(r) == spec_output_header(),
{
    let mut h: Vec<String> = Vec::new();
    h.push("site".to_owned());
    h.push("group".to_owned());
    h.push("old_address".to_owned());
    h.push("new_address".to_owned());
    h.push("old_city".to_owned());
    h.push("new_city".to_owned());
    h.push("old_zip".to_owned());
    h.push("new_zip".to_owned());
    h.push("old_administrative_area_level1".to_owned());
    h.push("new_administrative_area_level1".to_owned());
    h.push("old_administrative_area_level2".to_owned());
    h.push("new_administrative_area_level2".to_owned());
    h.push("old_lat".to_owned());
    h.push("new_lat".to_owned());
    h.push("old_lng".to_owned());
    h.push("new_lng".to_owned());
    h.push("meter_distance".to_owned());
    proof {
        assert(row_view(h) =~= spec_output_header());
    }
    h
}

/// Where the output table goes: a sibling of the input, named after its
/// stem, under the results directory.
pub fn output_file_path(stem: &str) -> (r: String)
    ensures
        r@ == "./results/"@ + stem@ + "_gmaps_version.csv"@,
{
    let mut out = "./results/".to_owned();
    out.append(stem);
    out.append("_gmaps_version.csv");
    proof {
        assert(out@ =~= "./results/"@ + stem@ + "_gmaps_version.csv"@);
    }
    out
}

/// The output table of a finished run, ready to be written: its path, its
/// header row and one row per record.
pub struct CsvTable {
    /// Where the table should be written.
    pub file_path: String,
    /// The column names.
    pub header: Vec<String>,
    /// One output row per record, in order.
    pub rows: Vec<Vec<String>>,
}

impl Addresses {
    /// Lays the finished records out as the output table beside the input
    /// file's stem.
    pub fn addresses_to_csv(adresses: Vec<Address>, original_file_stem: &str) -> (r: CsvTable)
        requires
            forall|i: int| 0 <= i < adresses@.len() ==> (#[trigger] adresses@[i]).wf(),
        ensures
            r.file_path@ == "./results/"@ + original_file_stem@ + "_gmaps_version.csv"@,
            r.header@.len() == 17,
            row_view(r.header) == spec_output_header(),
            r.rows@.len() == adresses@.len(),
            forall|i: int|
                0 <= i < adresses@.len() ==> row_view(#[trigger] r.rows@[i]) == spec_output_row(
                    adresses@[i]@,
                ),
    {
        let file_path = output_file_path(original_file_stem);
        let header = output_header();
        let mut rows: Vec<Vec<String>> = Vec::new();
        let n = adresses.len();
        let mut i: usize = 0;
        while i < n
            invariant
                i <= n,
                n == adresses@.len(),
                forall|k: int| 0 <= k < n ==> (#[trigger] adresses@[k]).wf(),
                rows@.len() == i,
                forall|k: int|
                    0 <= k < i ==> row_view(#[trigger] rows@[k]) == spec_output_row(
                        adresses@[k]@,
                    ),
            decreases n - i,
        {
            rows.push(record_to_output_row(&adresses[i]));
            i = i + 1;
        }
        CsvTable { file_path, header, rows }
    }
}

// ---------------------------------------------------------------------------
// The output row of a record reads back as the record's input fields.
// ---------------------------------------------------------------------------

/// The nine input columns of an output row.
pub open spec fn input_columns(row: Seq<Seq<char>>) -> Seq<Seq<char>> {
    seq![row[0], row[1], row[2], row[4], row[6], row[8], row[10], row[12], row[14]]
}

/// The record with its input fields kept and every geocoded field cleared,
/// as a fresh read of the input columns yields it.
pub open spec fn input_reset(a: AddressV) -> AddressV {
    AddressV {
        new_full_address: Option::None,
        new_locality: Option::None,
        new_postal_code: Option::None,
        new_administrative_area_level1: Option::None,
        new_administrative_area_level2: Option::None,
        new_lat: FixedDecimal { mantissa: 0, scale: 0 },
        new_lng: FixedDecimal { mantissa: 0, scale: 0 },
        street_number: Option::None,
        route: Option::None,
        country: Option::None,
        meter_distance: 0,
        ..a
    }
}

/// Writing a record as an output row and reading the nine input columns
/// back yields a record with the same input fields and no geocoded ones.
/// An identity field that is present but empty cannot survive the trip: its
/// cell is indistinguishable from an absent value's.
pub proof fn lemma_output_row_round_trip(a: AddressV)
    requires
        a.wf(),
        a.site_name != Option::Some(Seq::<char>::empty()),
        a.group_name != Option::Some(Seq::<char>::empty()),
        a.old_full_address != Option::Some(Seq::<char>::empty()),
        a.old_locality != Option::Some(Seq::<char>::empty()),
        a.old_postal_code != Option::Some(Seq::<char>::empty()),
        a.old_administrative_area_level1 != Option::Some(Seq::<char>::empty()),
        a.old_administrative_area_level2 != Option::Some(Seq::<char>::empty()),
    ensures
        spec_row_ok(input_columns(spec_output_row(a))),
        spec_record_of_row(input_columns(spec_output_row(a))) == input_reset(a),
{
    let row = input_columns(spec_output_row(a));
    crate::decimal::lemma_format_parses_back(a.old_lat);
    crate::decimal::lemma_format_parses_back(a.old_lng);
    lemma_cell_round_trip(a.site_name);
    lemma_cell_round_trip(a.group_name);
    lemma_cell_round_trip(a.old_full_address);
    lemma_cell_round_trip(a.old_locality);
    lemma_cell_round_trip(a.old_postal_code);
    lemma_cell_round_trip(a.old_administrative_area_level1);
    lemma_cell_round_trip(a.old_administrative_area_level2);
    assert(spec_record_of_row(row) == input_reset(a));
}

/// Reconciling a record with a candidate touches only the geocoded fields:
/// stripped of those, the parsed record is the input record again.
pub proof fn lemma_parse_keeps_input_fields(g: GeocodingV, a: AddressV)
    ensures
        input_reset(spec_parse_geocoding_result(g, a)) == input_reset(a),
{
}

/// A present, nonempty value survives the cell round trip; an absent one
/// comes back absent.
proof fn lemma_cell_round_trip(o: Option<Seq<char>>)
    requires
        o != Option::Some(Seq::<char>::empty()),
    ensures
        opt_of_cell(cell_of_opt(o)) == o,
{
    match o {
        Option::Some(s) => {
            if s.len() == 0 {
                assert(s =~= Seq::<char>::empty());
            }
        },
        Option::None => {},
    }
}

} // verus!
