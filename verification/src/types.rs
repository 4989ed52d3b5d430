//! The typed records that mirror the API's JSON schema.
//!
//! Numeric fields that the API reports as JSON numbers of arbitrary
//! precision are carried as [`Decimal`]: the decimal token itself, kept
//! character for character, so that decoding and re-encoding a response
//! never changes a value.

use vstd::prelude::*;
use crate::digits::{int_seq, lemma_wf_int_seq, push_u64_chars};
use crate::error::AirlyError;
use crate::json::wf_num;

verus! {

/// A JSON number, kept as its decimal token.
#[derive(Debug, Clone, PartialEq)]
pub struct Decimal {
    text: Vec<char>,
}

impl Decimal {
    /// The token this decimal carries.
    pub closed spec fn tok(self) -> Seq<char> {
        self.text@
    }

    /// Wraps a number token, refusing anything that is not a well-formed
    /// JSON number.
    pub fn new(text: Vec<char>) -> (r: Result<Decimal, AirlyError>)
        ensures
            r is Ok <==> wf_num(text@),
            r matches Ok(d) ==> d.tok() == text@,
            r matches Err(e) ==> e == AirlyError::InvalidInput,
    {
        if crate::json::check_num(&text) {
            Ok(Decimal { text })
        } else {
            Err(AirlyError::InvalidInput)
        }
    }

    /// The decimal for a whole number.
    pub fn from_int(n: i64) -> (r: Decimal)
        ensures
            r.tok() == int_seq(n as int),
            wf_num(r.tok()),
    {
        let mut text: Vec<char> = Vec::new();
        if n < 0 {
            text.push('-');
            let m: u64 = ((-(n + 1)) as u64) + 1;
            proof {
                assert(m == (-(n as int)) as nat);
            }
            push_u64_chars(&mut text, m);
            proof {
                assert(text@ =~= int_seq(n as int));
                lemma_wf_int_seq(n as int);
            }
        } else {
            push_u64_chars(&mut text, n as u64);
            proof {
                assert(text@ =~= int_seq(n as int));
                lemma_wf_int_seq(n as int);
            }
        }
        Decimal { text }
    }

    /// The characters of the token.
    pub fn chars(&self) -> (r: &Vec<char>)
        ensures
            r@ == self.tok(),
    {
        &self.text
    }
}

/// A latitude and longitude as the API reports them.
#[derive(Debug, Clone, PartialEq)]
pub struct Location {
    pub latitude: Decimal,
    pub longitude: Decimal,
}

/// The postal address of an installation.
#[derive(Debug, Clone, PartialEq)]
pub struct Address {
    pub country: String,
    pub city: String,
    pub street: String,
    pub number: String,
    pub display_address1: Option<String>,
    pub display_address2: Option<String>,
}

/// The sponsor of an installation.
#[derive(Debug, Clone, PartialEq)]
pub struct Sponsor {
    pub id: i32,
    pub name: String,
    pub description: Option<String>,
    pub logo: Option<String>,
    pub link: Option<String>,
}

/// A registered monitoring station.
#[derive(Debug, Clone, PartialEq)]
pub struct Installation {
    /// ID of the installation.
    pub id: i32,
    /// Location latitude and longitude.
    pub location: Location,
    /// Address on which the installation is registered.
    pub address: Address,
    /// Elevation over the sea level.
    pub elevation: Decimal,
    /// Whether this is a first-party sensor.
    pub airly: bool,
    /// Sponsor of the installation.
    pub sponsor: Sponsor,
}

/// One raw pollutant or weather reading.
#[derive(Debug, Clone, PartialEq)]
pub struct Value {
    /// Name of this measurement.
    pub name: Option<String>,
    /// Value of this measurement.
    pub value: Option<Decimal>,
}

/// A computed air-quality index.
#[derive(Debug, Clone, PartialEq)]
pub struct Index {
    /// Name of this index.
    pub name: Option<String>,
    /// Index numerical value.
    pub value: Option<Decimal>,
    /// Index level name.
    pub level: Option<String>,
    /// Text describing this air quality level.
    pub description: Option<String>,
    /// Advice regarding air quality.
    pub advice: Option<String>,
    /// Color representing this index level.
    pub color: Option<String>,
}

/// A regulatory standard comparison.
#[derive(Debug, Clone, PartialEq)]
pub struct Standard {
    /// Name of this standard.
    pub name: Option<String>,
    /// Pollutant described by this standard.
    pub pollutant: Option<String>,
    /// Limit value of the pollutant.
    pub limit: Option<Decimal>,
    /// Pollutant measurement as percent of the allowable limit.
    pub percent: Option<Decimal>,
}

/// Readings averaged over a time window, with derived indexes and
/// standard comparisons.
#[derive(Debug, Clone, PartialEq)]
pub struct AveragedValues {
    /// Left bound of the averaging period, inclusive, UTC.
    pub from_date_time: Option<String>,
    /// Right bound of the averaging period, exclusive, UTC.
    pub till_date_time: Option<String>,
    /// Raw measurements, averaged over the period.
    pub values: Vec<Value>,
    /// Indexes calculated from the values.
    pub indexes: Vec<Index>,
    /// Standard limits with the measurements as percentages of them.
    pub standards: Vec<Standard>,
}

/// The measurements of one installation or place: the current reading,
/// the past readings, and the forecast.
#[derive(Debug, Clone, PartialEq)]
pub struct Measurements {
    pub current: Option<AveragedValues>,
    pub history: Vec<AveragedValues>,
    pub forecast: Vec<AveragedValues>,
}

/// An air-quality index identifier.
#[derive(Debug, Clone, PartialEq)]
pub struct IndexType {
    /// Name of this index.
    pub name: Option<String>,
    /// A level descriptor of this index.
    pub level: Option<IndexLevel>,
}

/// One level of an air-quality index.
#[derive(Debug, Clone, PartialEq)]
pub struct IndexLevel {
    /// Minimum index value for this level.
    pub min_value: Option<i32>,
    /// Maximum index value for this level.
    pub max_value: Option<i32>,
    /// Values range for this index level.
    pub value: Option<String>,
    /// Name of this index level.
    pub level: Option<String>,
    /// Text describing this index level.
    pub description: Option<String>,
    /// Color representing this index level.
    pub color: Option<String>,
}

/// Metadata describing one measurable quantity.
#[derive(Debug, Clone, PartialEq)]
pub struct MeasurementType {
    /// Short name of this measurement type.
    pub name: Option<String>,
    /// Label of this measurement type.
    pub label: Option<String>,
    /// Unit of this measurement type.
    pub unit: Option<String>,
}

// ---------------------------------------------------------------------------
// The mathematical values of the records.
//
// Contracts speak of records through these mirrors: a `String` becomes its
// character sequence, a `Decimal` its token, a `Vec` a sequence of mirrored
// elements. Two records with equal mirrors agree in every field.
// ---------------------------------------------------------------------------

/// The mathematical value of a `Location`.
pub struct LocationV {
    pub latitude: Seq<char>,
    pub longitude: Seq<char>,
}

/// The mathematical value of an `Address`.
pub struct AddressV {
    pub country: Seq<char>,
    pub city: Seq<char>,
    pub street: Seq<char>,
    pub number: Seq<char>,
    pub display_address1: Option<Seq<char>>,
    pub display_address2: Option<Seq<char>>,
}

/// The mathematical value of a `Sponsor`.
pub struct SponsorV {
    pub id: i32,
    pub name: Seq<char>,
    pub description: Option<Seq<char>>,
    pub logo: Option<Seq<char>>,
    pub link: Option<Seq<char>>,
}

/// The mathematical value of an `Installation`.
pub struct InstallationV {
    pub id: i32,
    pub location: LocationV,
    pub address: AddressV,
    pub elevation: Seq<char>,
    pub airly: bool,
    pub sponsor: SponsorV,
}

/// The mathematical value of a `Value`.
pub struct ValueV {
    pub name: Option<Seq<char>>,
    pub value: Option<Seq<char>>,
}

/// The mathematical value of an `Index`.
pub struct IndexV {
    pub name: Option<Seq<char>>,
    pub value: Option<Seq<char>>,
    pub level: Option<Seq<char>>,
    pub description: Option<Seq<char>>,
    pub advice: Option<Seq<char>>,
    pub color: Option<Seq<char>>,
}

/// The mathematical value of a `Standard`.
pub struct StandardV {
    pub name: Option<Seq<char>>,
    pub pollutant: Option<Seq<char>>,
    pub limit: Option<Seq<char>>,
    pub percent: Option<Seq<char>>,
}

/// The mathematical value of an `AveragedValues`.
pub struct AveragedValuesV {
    pub from_date_time: Option<Seq<char>>,
    pub till_date_time: Option<Seq<char>>,
    pub values: Seq<ValueV>,
    pub indexes: Seq<IndexV>,
    pub standards: Seq<StandardV>,
}

/// The mathematical value of a `Measurements`.
pub struct MeasurementsV {
    pub current: Option<AveragedValuesV>,
    pub history: Seq<AveragedValuesV>,
    pub forecast: Seq<AveragedValuesV>,
}

/// The mathematical value of an `IndexLevel`.
pub struct IndexLevelV {
    pub min_value: Option<i32>,
    pub max_value: Option<i32>,
    pub value: Option<Seq<char>>,
    pub level: Option<Seq<char>>,
    pub description: Option<Seq<char>>,
    pub color: Option<Seq<char>>,
}

/// The mathematical value of an `IndexType`.
pub struct IndexTypeV {
    pub name: Option<Seq<char>>,
    pub level: Option<IndexLevelV>,
}

/// The mathematical value of a `MeasurementType`.
pub struct MeasurementTypeV {
    pub name: Option<Seq<char>>,
    pub label: Option<Seq<char>>,
    pub unit: Option<Seq<char>>,
}

/// The view of an optional string.
pub open spec fn vw_opt_str(o: Option<String>) -> Option<Seq<char>> {
    match o {
        Some(s) => Some(s@),
        None => None,
    }
}

/// The view of an optional decimal.
pub open spec fn vw_opt_dec(o: Option<Decimal>) -> Option<Seq<char>> {
    match o {
        Some(d) => Some(d.tok()),
        None => None,
    }
}

/// The view of a `Location`.
pub open spec fn vw_location(l: Location) -> LocationV {
    LocationV { latitude: l.latitude.tok(), longitude: l.longitude.tok() }
}

/// The view of an `Address`.
pub open spec fn vw_address(a: Address) -> AddressV {
    AddressV {
        country: a.country@,
        city: a.city@,
        street: a.street@,
        number: a.number@,
        display_address1: vw_opt_str(a.display_address1),
        display_address2: vw_opt_str(a.display_address2),
    }
}

/// The view of a `Sponsor`.
pub open spec fn vw_sponsor(sp: Sponsor) -> SponsorV {
    SponsorV {
        id: sp.id,
        name: sp.name@,
        description: vw_opt_str(sp.description),
        logo: vw_opt_str(sp.logo),
        link: vw_opt_str(sp.link),
    }
}

/// The view of an `Installation`.
pub open spec fn vw_installation(inst: Installation) -> InstallationV {
    InstallationV {
        id: inst.id,
        location: vw_location(inst.location),
        address: vw_address(inst.address),
        elevation: inst.elevation.tok(),
        airly: inst.airly,
        sponsor: vw_sponsor(inst.sponsor),
    }
}

/// The view of a `Value`.
pub open spec fn vw_value(v: Value) -> ValueV {
    ValueV { name: vw_opt_str(v.name), value: vw_opt_dec(v.value) }
}

/// The view of an `Index`.
pub open spec fn vw_index(ix: Index) -> IndexV {
    IndexV {
        name: vw_opt_str(ix.name),
        value: vw_opt_dec(ix.value),
        level: vw_opt_str(ix.level),
        description: vw_opt_str(ix.description),
        advice: vw_opt_str(ix.advice),
        color: vw_opt_str(ix.color),
    }
}

/// The view of a `Standard`.
pub open spec fn vw_standard(st: Standard) -> StandardV {
    StandardV {
        name: vw_opt_str(st.name),
        pollutant: vw_opt_str(st.pollutant),
        limit: vw_opt_dec(st.limit),
        percent: vw_opt_dec(st.percent),
    }
}

/// The views of a list of values.
pub open spec fn vw_value_seq(vs: Seq<Value>) -> Seq<ValueV> {
    Seq::new(vs.len(), |k: int| if 0 <= k < vs.len() {
        vw_value(vs[k])
    } else {
        ValueV { name: None, value: None }
    })
}

/// The views of a list of indexes.
pub open spec fn vw_index_seq(vs: Seq<Index>) -> Seq<IndexV> {
    Seq::new(vs.len(), |k: int| if 0 <= k < vs.len() {
        vw_index(vs[k])
    } else {
        IndexV {
            name: None,
            value: None,
            level: None,
            description: None,
            advice: None,
            color: None,
        }
    })
}

/// The views of a list of standards.
pub open spec fn vw_standard_seq(vs: Seq<Standard>) -> Seq<StandardV> {
    Seq::new(vs.len(), |k: int| if 0 <= k < vs.len() {
        vw_standard(vs[k])
    } else {
        StandardV { name: None, pollutant: None, limit: None, percent: None }
    })
}

/// The view of an `AveragedValues`.
pub open spec fn vw_averaged(a: AveragedValues) -> AveragedValuesV {
    AveragedValuesV {
        from_date_time: vw_opt_str(a.from_date_time),
        till_date_time: vw_opt_str(a.till_date_time),
        values: vw_value_seq(a.values@),
        indexes: vw_index_seq(a.indexes@),
        standards: vw_standard_seq(a.standards@),
    }
}

/// The views of a list of averaged values.
pub open spec fn vw_averaged_seq(vs: Seq<AveragedValues>) -> Seq<AveragedValuesV> {
    Seq::new(vs.len(), |k: int| if 0 <= k < vs.len() {
        vw_averaged(vs[k])
    } else {
        AveragedValuesV {
            from_date_time: None,
            till_date_time: None,
            values: Seq::empty(),
            indexes: Seq::empty(),
            standards: Seq::empty(),
        }
    })
}

/// The view of a `Measurements`.
pub open spec fn vw_measurements(m: Measurements) -> MeasurementsV {
    MeasurementsV {
        current: match m.current {
            Some(a) => Some(vw_averaged(a)),
            None => None,
        },
        history: vw_averaged_seq(m.history@),
        forecast: vw_averaged_seq(m.forecast@),
    }
}

/// The view of an `IndexLevel`.
pub open spec fn vw_index_level(il: IndexLevel) -> IndexLevelV {
    IndexLevelV {
        min_value: il.min_value,
        max_value: il.max_value,
        value: vw_opt_str(il.value),
        level: vw_opt_str(il.level),
        description: vw_opt_str(il.description),
        color: vw_opt_str(il.color),
    }
}

/// The view of an `IndexType`.
pub open spec fn vw_index_type(it: IndexType) -> IndexTypeV {
    IndexTypeV {
        name: vw_opt_str(it.name),
        level: match it.level {
            Some(il) => Some(vw_index_level(il)),
            None => None,
        },
    }
}

/// The views of a list of index types.
pub open spec fn vw_index_type_seq(vs: Seq<IndexType>) -> Seq<IndexTypeV> {
    Seq::new(vs.len(), |k: int| if 0 <= k < vs.len() {
        vw_index_type(vs[k])
    } else {
        IndexTypeV { name: None, level: None }
    })
}

/// The view of a `MeasurementType`.
pub open spec fn vw_measurement_type(mt: MeasurementType) -> MeasurementTypeV {
    MeasurementTypeV {
        name: vw_opt_str(mt.name),
        label: vw_opt_str(mt.label),
        unit: vw_opt_str(mt.unit),
    }
}

/// The views of a list of measurement types.
pub open spec fn vw_measurement_type_seq(vs: Seq<MeasurementType>) -> Seq<MeasurementTypeV> {
    Seq::new(vs.len(), |k: int| if 0 <= k < vs.len() {
        vw_measurement_type(vs[k])
    } else {
        MeasurementTypeV { name: None, label: None, unit: None }
    })
}

/// An arbitrary placeholder mirror, used only outside a sequence's range.
pub open spec fn dummy_installation_v() -> InstallationV {
    InstallationV {
        id: 0,
        location: LocationV { latitude: Seq::empty(), longitude: Seq::empty() },
        address: AddressV {
            country: Seq::empty(),
            city: Seq::empty(),
            street: Seq::empty(),
            number: Seq::empty(),
            display_address1: None,
            display_address2: None,
        },
        elevation: Seq::empty(),
        airly: false,
        sponsor: SponsorV {
            id: 0,
            name: Seq::empty(),
            description: None,
            logo: None,
            link: None,
        },
    }
}

/// The views of a list of installations.
pub open spec fn vw_installation_seq(vs: Seq<Installation>) -> Seq<InstallationV> {
    Seq::new(vs.len(), |k: int| if 0 <= k < vs.len() {
        vw_installation(vs[k])
    } else {
        dummy_installation_v()
    })
}

// ---------------------------------------------------------------------------
// Well-formed mirrors: every number token is a well-formed JSON number.
// ---------------------------------------------------------------------------

/// An absent token is well formed; a present one must be a number token.
pub open spec fn wf_opt_num(o: Option<Seq<char>>) -> bool {
    match o {
        Some(t) => wf_num(t),
        None => true,
    }
}

/// Every token of the mirror is well formed.
pub open spec fn wf_value_v(v: ValueV) -> bool {
    wf_opt_num(v.value)
}

/// Every token of the mirror is well formed.
pub open spec fn wf_index_v(ix: IndexV) -> bool {
    wf_opt_num(ix.value)
}

/// Every token of the mirror is well formed.
pub open spec fn wf_standard_v(st: StandardV) -> bool {
    wf_opt_num(st.limit) && wf_opt_num(st.percent)
}

/// Every token of the mirror is well formed.
pub open spec fn wf_averaged_v(a: AveragedValuesV) -> bool {
    &&& forall|k: int| 0 <= k < a.values.len() ==> wf_value_v(#[trigger] a.values[k])
    &&& forall|k: int| 0 <= k < a.indexes.len() ==> wf_index_v(#[trigger] a.indexes[k])
    &&& forall|k: int| 0 <= k < a.standards.len() ==> wf_standard_v(#[trigger] a.standards[k])
}

/// Every token of the mirror is well formed.
pub open spec fn wf_measurements_v(m: MeasurementsV) -> bool {
    &&& match m.current {
        Some(a) => wf_averaged_v(a),
        None => true,
    }
    &&& forall|k: int| 0 <= k < m.history.len() ==> wf_averaged_v(#[trigger] m.history[k])
    &&& forall|k: int| 0 <= k < m.forecast.len() ==> wf_averaged_v(#[trigger] m.forecast[k])
}

/// Every token of the mirror is well formed.
pub open spec fn wf_location_v(l: LocationV) -> bool {
    wf_num(l.latitude) && wf_num(l.longitude)
}

/// Every token of the mirror is well formed.
pub open spec fn wf_installation_v(inst: InstallationV) -> bool {
    wf_location_v(inst.location) && wf_num(inst.elevation)
}

} // verus!
