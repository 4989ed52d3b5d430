//! Mapping between JSON trees and the typed records.
//!
//! `tree_*` gives the canonical JSON tree of a record's mathematical
//! value: members in a fixed order, absent optional fields omitted. The
//! decoders accept members in any order and ignore unknown keys, and are
//! proved complete for the canonical trees: decoding the canonical tree of
//! any value yields that value back. Together with the JSON round-trip
//! theorem this makes serializing and re-parsing a record the identity.

use vstd::prelude::*;
use crate::digits::int_seq;
use crate::error::AirlyError;
use crate::json::{jv, jv_mem_seq, wf_num, Json, JsonV, Member};
use crate::strutil::{chars_of, string_of};
use vstd::string::StringExecFns;

verus! {

/// The value of the first member with the given key, if any.
pub open spec fn lookup(ms: Seq<(Seq<char>, JsonV)>, key: Seq<char>) -> Option<JsonV>
    decreases ms.len(),
{
    if ms.len() == 0 {
        None
    } else if ms[0].0 == key {
        Some(ms[0].1)
    } else {
        lookup(ms.drop_first(), key)
    }
}


/// Finding a key in a concatenation searches the parts in order.
pub proof fn lemma_lookup_app(a: Seq<(Seq<char>, JsonV)>, b: Seq<(Seq<char>, JsonV)>, key: Seq<
    char,
>)
    ensures
        lookup(a + b, key) == match lookup(a, key) {
            Some(v) => Some(v),
            None => lookup(b, key),
        },
    decreases a.len(),
{
    if a.len() == 0 {
        assert(a + b =~= b);
    } else {
        lemma_lookup_app(a.drop_first(), b, key);
        assert((a + b).drop_first() =~= a.drop_first() + b);
        assert((a + b)[0] == a[0]);
    }
}

// ---------------------------------------------------------------------------
// The canonical trees of the records.
// ---------------------------------------------------------------------------

/// One object member.
pub open spec fn m_one(key: Seq<char>, v: JsonV) -> Seq<(Seq<char>, JsonV)> {
    seq![(key, v)]
}


/// The member for an optional subtree field: absent when the field is.
pub open spec fn m_opt(key: Seq<char>, o: Option<JsonV>) -> Seq<(Seq<char>, JsonV)> {
    match o {
        Some(v) => seq![(key, v)],
        None => Seq::empty(),
    }
}

/// The member for an optional string field: absent when the field is.
pub open spec fn m_opt_str(key: Seq<char>, o: Option<Seq<char>>) -> Seq<(Seq<char>, JsonV)> {
    match o {
        Some(sv) => seq![(key, JsonV::Str(sv))],
        None => Seq::empty(),
    }
}

/// The member for an optional numeric field: absent when the field is.
pub open spec fn m_opt_num(key: Seq<char>, o: Option<Seq<char>>) -> Seq<(Seq<char>, JsonV)> {
    match o {
        Some(t) => seq![(key, JsonV::Num(t))],
        None => Seq::empty(),
    }
}

/// The member for an optional whole-number field: absent when the field
/// is.
pub open spec fn m_opt_int(key: Seq<char>, o: Option<i32>) -> Seq<(Seq<char>, JsonV)> {
    match o {
        Some(n) => seq![(key, JsonV::Num(int_seq(n as int)))],
        None => Seq::empty(),
    }
}

/// The canonical tree of a location.
pub open spec fn tree_location(l: crate::types::LocationV) -> JsonV {
    JsonV::Obj(
        m_one("latitude"@, JsonV::Num(l.latitude)) + m_one("longitude"@, JsonV::Num(l.longitude)),
    )
}

/// The canonical tree of an address.
pub open spec fn tree_address(a: crate::types::AddressV) -> JsonV {
    JsonV::Obj(
        m_one("country"@, JsonV::Str(a.country)) + m_one("city"@, JsonV::Str(a.city)) + m_one(
            "street"@,
            JsonV::Str(a.street),
        ) + m_one("number"@, JsonV::Str(a.number)) + m_opt_str(
            "displayAddress1"@,
            a.display_address1,
        ) + m_opt_str("displayAddress2"@, a.display_address2),
    )
}

/// The canonical tree of a sponsor.
pub open spec fn tree_sponsor(sp: crate::types::SponsorV) -> JsonV {
    JsonV::Obj(
        m_one("id"@, JsonV::Num(int_seq(sp.id as int))) + m_one("name"@, JsonV::Str(sp.name))
            + m_opt_str("description"@, sp.description) + m_opt_str("logo"@, sp.logo)
            + m_opt_str("link"@, sp.link),
    )
}

/// The canonical tree of an installation.
pub open spec fn tree_installation(inst: crate::types::InstallationV) -> JsonV {
    JsonV::Obj(
        m_one("id"@, JsonV::Num(int_seq(inst.id as int))) + m_one("location"@, tree_location(
            inst.location,
        )) + m_one("address"@, tree_address(inst.address)) + m_one("elevation"@, JsonV::Num(
            inst.elevation,
        )) + m_one("airly"@, JsonV::Bool(inst.airly)) + m_one("sponsor"@, tree_sponsor(
            inst.sponsor,
        )),
    )
}

/// The canonical tree of one reading.
pub open spec fn tree_value(v: crate::types::ValueV) -> JsonV {
    JsonV::Obj(m_opt_str("name"@, v.name) + m_opt_num("value"@, v.value))
}

/// The canonical tree of one index.
pub open spec fn tree_index(ix: crate::types::IndexV) -> JsonV {
    JsonV::Obj(
        m_opt_str("name"@, ix.name) + m_opt_num("value"@, ix.value) + m_opt_str(
            "level"@,
            ix.level,
        ) + m_opt_str("description"@, ix.description) + m_opt_str("advice"@, ix.advice)
            + m_opt_str("color"@, ix.color),
    )
}

/// The canonical tree of one standard comparison.
pub open spec fn tree_standard(st: crate::types::StandardV) -> JsonV {
    JsonV::Obj(
        m_opt_str("name"@, st.name) + m_opt_str("pollutant"@, st.pollutant) + m_opt_num(
            "limit"@,
            st.limit,
        ) + m_opt_num("percent"@, st.percent),
    )
}

/// The canonical trees of a list of readings.
pub open spec fn tree_value_seq(vs: Seq<crate::types::ValueV>) -> Seq<JsonV>
    decreases vs.len(),
{
    if vs.len() == 0 {
        Seq::empty()
    } else {
        seq![tree_value(vs[0])] + tree_value_seq(vs.drop_first())
    }
}

/// The canonical trees of a list of indexes.
pub open spec fn tree_index_seq(vs: Seq<crate::types::IndexV>) -> Seq<JsonV>
    decreases vs.len(),
{
    if vs.len() == 0 {
        Seq::empty()
    } else {
        seq![tree_index(vs[0])] + tree_index_seq(vs.drop_first())
    }
}

/// The canonical trees of a list of standard comparisons.
pub open spec fn tree_standard_seq(vs: Seq<crate::types::StandardV>) -> Seq<JsonV>
    decreases vs.len(),
{
    if vs.len() == 0 {
        Seq::empty()
    } else {
        seq![tree_standard(vs[0])] + tree_standard_seq(vs.drop_first())
    }
}

/// The canonical tree of an averaged reading.
pub open spec fn tree_averaged(a: crate::types::AveragedValuesV) -> JsonV {
    JsonV::Obj(
        m_opt_str("fromDateTime"@, a.from_date_time) + m_opt_str("tillDateTime"@, a.till_date_time)
            + m_one("values"@, JsonV::Arr(tree_value_seq(a.values))) + m_one(
            "indexes"@,
            JsonV::Arr(tree_index_seq(a.indexes)),
        ) + m_one("standards"@, JsonV::Arr(tree_standard_seq(a.standards))),
    )
}

/// The canonical trees of a list of averaged readings.
pub open spec fn tree_averaged_seq(vs: Seq<crate::types::AveragedValuesV>) -> Seq<JsonV>
    decreases vs.len(),
{
    if vs.len() == 0 {
        Seq::empty()
    } else {
        seq![tree_averaged(vs[0])] + tree_averaged_seq(vs.drop_first())
    }
}

/// The canonical tree of a measurements bundle.
pub open spec fn tree_measurements(m: crate::types::MeasurementsV) -> JsonV {
    JsonV::Obj(
        m_opt("current"@, match m.current {
            Some(a) => Some(tree_averaged(a)),
            None => None,
        }) + m_one("history"@, JsonV::Arr(tree_averaged_seq(m.history))) + m_one(
            "forecast"@,
            JsonV::Arr(tree_averaged_seq(m.forecast)),
        ),
    )
}

/// The canonical tree of an index level.
pub open spec fn tree_index_level(il: crate::types::IndexLevelV) -> JsonV {
    JsonV::Obj(
        m_opt_int("minValue"@, il.min_value) + m_opt_int("mixValue"@, il.max_value) + m_opt_str(
            "value"@,
            il.value,
        ) + m_opt_str("level"@, il.level) + m_opt_str("description"@, il.description)
            + m_opt_str("color"@, il.color),
    )
}

/// The canonical tree of an index type.
pub open spec fn tree_index_type(it: crate::types::IndexTypeV) -> JsonV {
    JsonV::Obj(
        m_opt_str("name"@, it.name) + m_opt("level"@, match it.level {
            Some(il) => Some(tree_index_level(il)),
            None => None,
        }),
    )
}

/// The canonical trees of a list of index types.
pub open spec fn tree_index_type_seq(vs: Seq<crate::types::IndexTypeV>) -> Seq<JsonV>
    decreases vs.len(),
{
    if vs.len() == 0 {
        Seq::empty()
    } else {
        seq![tree_index_type(vs[0])] + tree_index_type_seq(vs.drop_first())
    }
}

/// The canonical tree of a measurement type.
pub open spec fn tree_measurement_type(mt: crate::types::MeasurementTypeV) -> JsonV {
    JsonV::Obj(
        m_opt_str("name"@, mt.name) + m_opt_str("label"@, mt.label) + m_opt_str("unit"@, mt.unit),
    )
}

/// The canonical trees of a list of measurement types.
pub open spec fn tree_measurement_type_seq(vs: Seq<crate::types::MeasurementTypeV>) -> Seq<
    JsonV,
>
    decreases vs.len(),
{
    if vs.len() == 0 {
        Seq::empty()
    } else {
        seq![tree_measurement_type(vs[0])] + tree_measurement_type_seq(vs.drop_first())
    }
}

/// The canonical trees of a list of installations.
pub open spec fn tree_installation_seq(vs: Seq<crate::types::InstallationV>) -> Seq<JsonV>
    decreases vs.len(),
{
    if vs.len() == 0 {
        Seq::empty()
    } else {
        seq![tree_installation(vs[0])] + tree_installation_seq(vs.drop_first())
    }
}

// ---------------------------------------------------------------------------
// Finding and reading members.
// ---------------------------------------------------------------------------

/// Whether the characters of `v` spell exactly `s`.
fn eq_chars_str(v: &Vec<char>, s: &str) -> (r: bool)
    ensures
        r == (v@ == s@),
{
    let n = s.unicode_len();
    if v.len() != n {
        proof {
            assert(v@.len() != s@.len());
        }
        return false;
    }
    let mut k: usize = 0;
    while k < n
        invariant
            k <= n,
            n == s@.len(),
            v@.len() == n,
            forall|i: int| 0 <= i < k ==> v@[i] == s@[i],
        decreases n - k,
    {
        if v[k] != s.get_char(k) {
            return false;
        }
        k += 1;
    }
    proof {
        assert(v@ =~= s@);
    }
    true
}

/// The value of the first member with the given key, if any.
fn find_member<'a>(ms: &'a Vec<Member>, key: &str) -> (r: Option<&'a Json>)
    ensures
        match r {
            Some(j) => lookup(jv_mem_seq(ms@), key@) == Some(jv(*j)),
            None => lookup(jv_mem_seq(ms@), key@) is None,
        },
{
    let ghost all = jv_mem_seq(ms@);
    let mut k: usize = 0;
    proof {
        assert(all.skip(0) =~= all);
    }
    while k < ms.len()
        invariant
            k <= ms@.len(),
            all == jv_mem_seq(ms@),
            lookup(all, key@) == lookup(all.skip(k as int), key@),
        decreases ms@.len() - k,
    {
        proof {
            assert(all.skip(k as int)[0] == all[k as int]);
            assert(all[k as int] == (ms@[k as int].key@, jv(ms@[k as int].value)));
            assert(all.skip(k as int).drop_first() =~= all.skip(k as int + 1));
        }
        if eq_chars_str(&ms[k].key, key) {
            return Some(&ms[k].value);
        }
        k += 1;
    }
    proof {
        assert(all.skip(ms@.len() as int).len() == 0);
    }
    None
}

/// Reads a required boolean field.
fn get_bool(ms: &Vec<Member>, key: &str) -> (r: Result<bool, ()>)
    ensures
        match lookup(jv_mem_seq(ms@), key@) {
            Some(JsonV::Bool(b)) => r == Ok::<bool, ()>(b),
            _ => true,
        },
{
    match find_member(ms, key) {
        Some(Json::Bool(b)) => Ok(*b),
        _ => Err(()),
    }
}

/// Reads a required string field.
fn get_string(ms: &Vec<Member>, key: &str) -> (r: Result<String, ()>)
    ensures
        match lookup(jv_mem_seq(ms@), key@) {
            Some(JsonV::Str(sv)) => r matches Ok(s) && s@ == sv,
            _ => true,
        },
{
    match find_member(ms, key) {
        Some(Json::Str(cs)) => Ok(string_of(cs)),
        _ => Err(()),
    }
}

/// Reads an optional string field: absent and null both mean absent.
fn get_opt_string(ms: &Vec<Member>, key: &str) -> (r: Result<Option<String>, ()>)
    ensures
        (lookup(jv_mem_seq(ms@), key@) is None || lookup(jv_mem_seq(ms@), key@) == Some(
            JsonV::Null,
        )) ==> (r matches Ok(o) && o is None),
        match lookup(jv_mem_seq(ms@), key@) {
            Some(JsonV::Str(sv)) => r matches Ok(o) && o matches Some(s) && s@ == sv,
            _ => true,
        },
{
    match find_member(ms, key) {
        Some(Json::Str(cs)) => Ok(Some(string_of(cs))),
        Some(Json::Null) => Ok(None),
        None => Ok(None),
        _ => Err(()),
    }
}

/// Reads a required numeric field as its token.
fn get_dec(ms: &Vec<Member>, key: &str) -> (r: Result<crate::types::Decimal, ()>)
    ensures
        match lookup(jv_mem_seq(ms@), key@) {
            Some(JsonV::Num(t)) => wf_num(t) ==> (r matches Ok(d) && d.tok() == t),
            _ => true,
        },
        r matches Ok(d) ==> wf_num(d.tok()),
{
    match find_member(ms, key) {
        Some(Json::Num(tok)) => {
            match crate::types::Decimal::new(tok.clone()) {
                Ok(d) => Ok(d),
                Err(_) => Err(()),
            }
        },
        _ => Err(()),
    }
}

/// Reads an optional numeric field as its token: absent and null both
/// mean absent.
fn get_opt_dec(ms: &Vec<Member>, key: &str) -> (r: Result<Option<crate::types::Decimal>, ()>)
    ensures
        (lookup(jv_mem_seq(ms@), key@) is None || lookup(jv_mem_seq(ms@), key@) == Some(
            JsonV::Null,
        )) ==> (r matches Ok(o) && o is None),
        match lookup(jv_mem_seq(ms@), key@) {
            Some(JsonV::Num(t)) => wf_num(t) ==> (r matches Ok(o) && o matches Some(d)
                && d.tok() == t),
            _ => true,
        },
        match r {
            Ok(Some(d)) => wf_num(d.tok()),
            _ => true,
        },
{
    match find_member(ms, key) {
        Some(Json::Num(tok)) => {
            match crate::types::Decimal::new(tok.clone()) {
                Ok(d) => Ok(Some(d)),
                Err(_) => Err(()),
            }
        },
        Some(Json::Null) => Ok(None),
        None => Ok(None),
        _ => Err(()),
    }
}

/// Reads the number a whole-number token denotes, when it fits a 32-bit
/// integer.
fn parse_i32_token(t: &Vec<char>) -> (r: Option<i32>)
    ensures
        forall|n: i32| t@ == #[trigger] int_seq(n as int) ==> r == Some(n),
{
    proof {
        assert forall|n: i32| t@ == int_seq(n as int) implies t@.len() >= 1 by {
            crate::digits::lemma_int_seq_shape(n as int);
        }
    }
    if t.len() == 0 {
        return None;
    }
    let neg = t[0] == '-';
    let start: usize = if neg { 1 } else { 0 };
    proof {
        assert forall|n: i32| t@ == int_seq(n as int) implies (neg <==> n < 0) by {
            crate::digits::lemma_int_seq_shape(n as int);
        }
    }
    if start >= t.len() {
        proof {
            assert forall|n: i32| t@ == int_seq(n as int) implies false by {
                crate::digits::lemma_int_seq_shape(n as int);
                crate::digits::lemma_dec_seq_digits((-(n as int)) as nat);
            }
        }
        return None;
    }
    let ghost digs = t@.skip(start as int);
    proof {
        assert forall|n: i32| t@ == int_seq(n as int) implies digs =~= crate::digits::dec_seq(
            (if n < 0 { -(n as int) } else { n as int }) as nat,
        ) && crate::digits::digits_val(digs) == (if n < 0 { -(n as int) } else { n as int })
            && (forall|i: int| 0 <= i < digs.len() ==> crate::json::is_digit(
            #[trigger] digs[i],
        )) by {
            crate::digits::lemma_int_seq_shape(n as int);
            let m = (if n < 0 { -(n as int) } else { n as int }) as nat;
            crate::digits::lemma_dec_seq_digits(m);
            crate::digits::lemma_digits_val_dec_seq(m);
            if n >= 0 {
                assert(digs =~= crate::digits::dec_seq(m));
            }
        }
    }
    let mut acc: u64 = 0;
    let mut k = start;
    while k < t.len()
        invariant
            t@.len() >= 1,
            neg == (t@[0] == '-'),
            start == (if neg { 1int } else { 0int }),
            start <= k <= t@.len(),
            digs == t@.skip(start as int),
            acc == crate::digits::digits_val(digs.take(k - start)),
            acc <= 0xFFFF_FFFF,
        decreases t@.len() - k,
    {
        let c = t[k];
        proof {
            assert(digs.take(k - start + 1).drop_last() =~= digs.take(k - start));
            assert(digs.take(k - start + 1).last() == digs[k - start]);
            assert(digs[k - start] == t@[k as int]);
        }
        if !crate::json::is_digit_exec(c) {
            proof {
                assert forall|n: i32| t@ == int_seq(n as int) implies false by {
                    crate::digits::lemma_int_seq_shape(n as int);
                    let m = (if n < 0 { -(n as int) } else { n as int }) as nat;
                    crate::digits::lemma_dec_seq_digits(m);
                    assert(digs =~= crate::digits::dec_seq(m));
                    assert(crate::json::is_digit(digs[k - start]));
                }
            }
            return None;
        }
        let d: u64 = (c as u32 - '0' as u32) as u64;
        proof {
            assert(d == crate::digits::digit_val(c));
        }
        if acc > 429_496_728 || acc * 10 + d > 0xFFFF_FFFF {
            proof {
                assert forall|n: i32| t@ == int_seq(n as int) implies false by {
                    crate::digits::lemma_int_seq_shape(n as int);
                    let m = (if n < 0 { -(n as int) } else { n as int }) as nat;
                    crate::digits::lemma_dec_seq_digits(m);
                    crate::digits::lemma_digits_val_dec_seq(m);
                    assert(digs =~= crate::digits::dec_seq(m));
                    assert(crate::digits::digits_val(digs) == m);
                    crate::digits::lemma_digits_val_prefix(digs, k - start + 1);
                    assert(digs.take(k - start + 1).drop_last() =~= digs.take(k - start));
                    assert(digs.take(k - start + 1).last() == digs[k - start]);
                    assert(digs[k - start] == t@[k as int]);
                    assert(crate::digits::digits_val(digs.take(k - start + 1)) == crate::digits::digits_val(
                        digs.take(k - start),
                    ) * 10 + crate::digits::digit_val(digs.take(k - start + 1).last()));
                    assert(crate::digits::digits_val(digs.take(k - start + 1)) == acc * 10 + d);
                    assert(crate::digits::digits_val(digs) <= 0x8000_0000);
                }
            }
            return None;
        }
        acc = acc * 10 + d;
        k += 1;
    }
    proof {
        assert(digs.take(t@.len() - start) =~= digs);
    }
    if neg {
        if acc > 2_147_483_648 {
            proof {
                assert forall|n: i32| t@ == int_seq(n as int) implies false by {}
            }
            return None;
        }
        if acc == 2_147_483_648 {
            Some(i32::MIN)
        } else {
            Some(-(acc as i32))
        }
    } else {
        if acc > 2_147_483_647 {
            proof {
                assert forall|n: i32| t@ == int_seq(n as int) implies false by {}
            }
            return None;
        }
        Some(acc as i32)
    }
}

/// Reads a required whole-number field.
fn get_i32(ms: &Vec<Member>, key: &str) -> (r: Result<i32, ()>)
    ensures
        match lookup(jv_mem_seq(ms@), key@) {
            Some(JsonV::Num(t)) => forall|n: i32| t == #[trigger] int_seq(n as int) ==> r
                == Ok::<i32, ()>(n),
            _ => true,
        },
{
    match find_member(ms, key) {
        Some(Json::Num(tok)) => {
            match parse_i32_token(tok) {
                Some(n) => Ok(n),
                None => Err(()),
            }
        },
        _ => Err(()),
    }
}

/// Reads an optional whole-number field: absent and null both mean
/// absent.
fn get_opt_i32(ms: &Vec<Member>, key: &str) -> (r: Result<Option<i32>, ()>)
    ensures
        (lookup(jv_mem_seq(ms@), key@) is None || lookup(jv_mem_seq(ms@), key@) == Some(
            JsonV::Null,
        )) ==> r == Ok::<Option<i32>, ()>(None),
        match lookup(jv_mem_seq(ms@), key@) {
            Some(JsonV::Num(t)) => forall|n: i32| t == #[trigger] int_seq(n as int) ==> r
                == Ok::<Option<i32>, ()>(Some(n)),
            _ => true,
        },
{
    match find_member(ms, key) {
        Some(Json::Num(tok)) => {
            match parse_i32_token(tok) {
                Some(n) => Ok(Some(n)),
                None => Err(()),
            }
        },
        Some(Json::Null) => Ok(None),
        None => Ok(None),
        _ => Err(()),
    }
}


// ---------------------------------------------------------------------------
// Decoding trees into records.
// ---------------------------------------------------------------------------

/// Where each key of the canonical tree of a location leads.
proof fn lemma_lookups_location(l: crate::types::LocationV, ms: Seq<(Seq<char>, JsonV)>)
    requires
        ms == tree_location(l)->Obj_0,
    ensures
        lookup(ms, "latitude"@) == Some(JsonV::Num(l.latitude)),
        lookup(ms, "longitude"@) == Some(JsonV::Num(l.longitude)),
{
    reveal_with_fuel(lookup, 3);
    reveal_strlit("latitude");
    assert("latitude"@ =~= seq!['l', 'a', 't', 'i', 't', 'u', 'd', 'e']);
    reveal_strlit("longitude");
    assert("longitude"@ =~= seq!['l', 'o', 'n', 'g', 'i', 't', 'u', 'd', 'e']);
    let g0 = m_one("latitude"@, JsonV::Num(l.latitude));
    let g1 = m_one("longitude"@, JsonV::Num(l.longitude));
    assert(ms == g0 + g1);
    lemma_lookup_app(g0, g1, "latitude"@);
    lemma_lookup_app(g0, g1, "longitude"@);
}

/// Decodes a location from its JSON tree.
fn from_json_location(j: &Json) -> (r: Result<crate::types::Location, ()>)
    ensures
        forall|v: crate::types::LocationV| crate::types::wf_location_v(v) && jv(*j) == tree_location(v) ==> (
        r matches Ok(out) && crate::types::vw_location(out) == v),
        r matches Ok(out) ==> crate::types::wf_location_v(crate::types::vw_location(out)),
{
    match j {
        Json::Obj(ms) => {
            proof {
                assert forall|v: crate::types::LocationV| crate::types::wf_location_v(v) && jv(*j) == tree_location(
                    v,
                ) implies ({
                    &&& lookup(jv_mem_seq(ms@), "latitude"@) == Some(JsonV::Num(v.latitude))
                    &&& lookup(jv_mem_seq(ms@), "longitude"@) == Some(JsonV::Num(v.longitude))
                }) by {
                    lemma_lookups_location(v, jv_mem_seq(ms@));
                }
            }
            let latitude = match get_dec(ms, "latitude") {
                Ok(x) => x,
                Err(_) => {
                    return Err(());
                },
            };
            let longitude = match get_dec(ms, "longitude") {
                Ok(x) => x,
                Err(_) => {
                    return Err(());
                },
            };
            Ok(crate::types::Location { latitude, longitude })
        },
        _ => Err(()),
    }
}

/// Where each key of the canonical tree of an address leads.
proof fn lemma_lookups_address(a: crate::types::AddressV, ms: Seq<(Seq<char>, JsonV)>)
    requires
        ms == tree_address(a)->Obj_0,
    ensures
        lookup(ms, "country"@) == Some(JsonV::Str(a.country)),
        lookup(ms, "city"@) == Some(JsonV::Str(a.city)),
        lookup(ms, "street"@) == Some(JsonV::Str(a.street)),
        lookup(ms, "number"@) == Some(JsonV::Str(a.number)),
        lookup(ms, "displayAddress1"@) == (match a.display_address1 { Some(sv) => Some(JsonV::Str(sv)), None => None::<JsonV> }),
        lookup(ms, "displayAddress2"@) == (match a.display_address2 { Some(sv) => Some(JsonV::Str(sv)), None => None::<JsonV> }),
{
    reveal_with_fuel(lookup, 3);
    reveal_strlit("country");
    assert("country"@ =~= seq!['c', 'o', 'u', 'n', 't', 'r', 'y']);
    reveal_strlit("city");
    assert("city"@ =~= seq!['c', 'i', 't', 'y']);
    reveal_strlit("street");
    assert("street"@ =~= seq!['s', 't', 'r', 'e', 'e', 't']);
    reveal_strlit("number");
    assert("number"@ =~= seq!['n', 'u', 'm', 'b', 'e', 'r']);
    reveal_strlit("displayAddress1");
    assert("displayAddress1"@ =~= seq!['d', 'i', 's', 'p', 'l', 'a', 'y', 'A', 'd', 'd', 'r', 'e', 's', 's', '1']);
    reveal_strlit("displayAddress2");
    assert("displayAddress2"@ =~= seq!['d', 'i', 's', 'p', 'l', 'a', 'y', 'A', 'd', 'd', 'r', 'e', 's', 's', '2']);
    let g0 = m_one("country"@, JsonV::Str(a.country));
    let g1 = m_one("city"@, JsonV::Str(a.city));
    let g2 = m_one("street"@, JsonV::Str(a.street));
    let g3 = m_one("number"@, JsonV::Str(a.number));
    let g4 = m_opt_str("displayAddress1"@, a.display_address1);
    let g5 = m_opt_str("displayAddress2"@, a.display_address2);
    assert(ms == g0 + g1 + g2 + g3 + g4 + g5);
    lemma_lookup_app(g0 + g1 + g2 + g3 + g4, g5, "country"@);
    lemma_lookup_app(g0 + g1 + g2 + g3, g4, "country"@);
    lemma_lookup_app(g0 + g1 + g2, g3, "country"@);
    lemma_lookup_app(g0 + g1, g2, "country"@);
    lemma_lookup_app(g0, g1, "country"@);
    lemma_lookup_app(g0 + g1 + g2 + g3 + g4, g5, "city"@);
    lemma_lookup_app(g0 + g1 + g2 + g3, g4, "city"@);
    lemma_lookup_app(g0 + g1 + g2, g3, "city"@);
    lemma_lookup_app(g0 + g1, g2, "city"@);
    lemma_lookup_app(g0, g1, "city"@);
    lemma_lookup_app(g0 + g1 + g2 + g3 + g4, g5, "street"@);
    lemma_lookup_app(g0 + g1 + g2 + g3, g4, "street"@);
    lemma_lookup_app(g0 + g1 + g2, g3, "street"@);
    lemma_lookup_app(g0 + g1, g2, "street"@);
    lemma_lookup_app(g0, g1, "street"@);
    lemma_lookup_app(g0 + g1 + g2 + g3 + g4, g5, "number"@);
    lemma_lookup_app(g0 + g1 + g2 + g3, g4, "number"@);
    lemma_lookup_app(g0 + g1 + g2, g3, "number"@);
    lemma_lookup_app(g0 + g1, g2, "number"@);
    lemma_lookup_app(g0, g1, "number"@);
    lemma_lookup_app(g0 + g1 + g2 + g3 + g4, g5, "displayAddress1"@);
    lemma_lookup_app(g0 + g1 + g2 + g3, g4, "displayAddress1"@);
    lemma_lookup_app(g0 + g1 + g2, g3, "displayAddress1"@);
    lemma_lookup_app(g0 + g1, g2, "displayAddress1"@);
    lemma_lookup_app(g0, g1, "displayAddress1"@);
    lemma_lookup_app(g0 + g1 + g2 + g3 + g4, g5, "displayAddress2"@);
    lemma_lookup_app(g0 + g1 + g2 + g3, g4, "displayAddress2"@);
    lemma_lookup_app(g0 + g1 + g2, g3, "displayAddress2"@);
    lemma_lookup_app(g0 + g1, g2, "displayAddress2"@);
    lemma_lookup_app(g0, g1, "displayAddress2"@);
}

/// Decodes an address from its JSON tree.
fn from_json_address(j: &Json) -> (r: Result<crate::types::Address, ()>)
    ensures
        forall|v: crate::types::AddressV| jv(*j) == tree_address(v) ==> (
        r matches Ok(out) && crate::types::vw_address(out) == v),
{
    match j {
        Json::Obj(ms) => {
            proof {
                assert forall|v: crate::types::AddressV| jv(*j) == tree_address(
                    v,
                ) implies ({
                    &&& lookup(jv_mem_seq(ms@), "country"@) == Some(JsonV::Str(v.country))
                    &&& lookup(jv_mem_seq(ms@), "city"@) == Some(JsonV::Str(v.city))
                    &&& lookup(jv_mem_seq(ms@), "street"@) == Some(JsonV::Str(v.street))
                    &&& lookup(jv_mem_seq(ms@), "number"@) == Some(JsonV::Str(v.number))
                    &&& lookup(jv_mem_seq(ms@), "displayAddress1"@) == (match v.display_address1 { Some(sv) => Some(JsonV::Str(sv)), None => None::<JsonV> })
                    &&& lookup(jv_mem_seq(ms@), "displayAddress2"@) == (match v.display_address2 { Some(sv) => Some(JsonV::Str(sv)), None => None::<JsonV> })
                }) by {
                    lemma_lookups_address(v, jv_mem_seq(ms@));
                }
            }
            let country = match get_string(ms, "country") {
                Ok(x) => x,
                Err(_) => {
                    return Err(());
                },
            };
            let city = match get_string(ms, "city") {
                Ok(x) => x,
                Err(_) => {
                    return Err(());
                },
            };
            let street = match get_string(ms, "street") {
                Ok(x) => x,
                Err(_) => {
                    return Err(());
                },
            };
            let number = match get_string(ms, "number") {
                Ok(x) => x,
                Err(_) => {
                    return Err(());
                },
            };
            let display_address1 = match get_opt_string(ms, "displayAddress1") {
                Ok(x) => x,
                Err(_) => {
                    return Err(());
                },
            };
            let display_address2 = match get_opt_string(ms, "displayAddress2") {
                Ok(x) => x,
                Err(_) => {
                    return Err(());
                },
            };
            Ok(crate::types::Address { country, city, street, number, display_address1, display_address2 })
        },
        _ => Err(()),
    }
}

/// Where each key of the canonical tree of a sponsor leads.
proof fn lemma_lookups_sponsor(sp: crate::types::SponsorV, ms: Seq<(Seq<char>, JsonV)>)
    requires
        ms == tree_sponsor(sp)->Obj_0,
    ensures
        lookup(ms, "id"@) == Some(JsonV::Num(int_seq(sp.id as int))),
        lookup(ms, "name"@) == Some(JsonV::Str(sp.name)),
        lookup(ms, "description"@) == (match sp.description { Some(sv) => Some(JsonV::Str(sv)), None => None::<JsonV> }),
        lookup(ms, "logo"@) == (match sp.logo { Some(sv) => Some(JsonV::Str(sv)), None => None::<JsonV> }),
        lookup(ms, "link"@) == (match sp.link { Some(sv) => Some(JsonV::Str(sv)), None => None::<JsonV> }),
{
    reveal_with_fuel(lookup, 3);
    reveal_strlit("id");
    assert("id"@ =~= seq!['i', 'd']);
    reveal_strlit("name");
    assert("name"@ =~= seq!['n', 'a', 'm', 'e']);
    reveal_strlit("description");
    assert("description"@ =~= seq!['d', 'e', 's', 'c', 'r', 'i', 'p', 't', 'i', 'o', 'n']);
    reveal_strlit("logo");
    assert("logo"@ =~= seq!['l', 'o', 'g', 'o']);
    reveal_strlit("link");
    assert("link"@ =~= seq!['l', 'i', 'n', 'k']);
    let g0 = m_one("id"@, JsonV::Num(int_seq(sp.id as int)));
    let g1 = m_one("name"@, JsonV::Str(sp.name));
    let g2 = m_opt_str("description"@, sp.description);
    let g3 = m_opt_str("logo"@, sp.logo);
    let g4 = m_opt_str("link"@, sp.link);
    assert(ms == g0 + g1 + g2 + g3 + g4);
    lemma_lookup_app(g0 + g1 + g2 + g3, g4, "id"@);
    lemma_lookup_app(g0 + g1 + g2, g3, "id"@);
    lemma_lookup_app(g0 + g1, g2, "id"@);
    lemma_lookup_app(g0, g1, "id"@);
    lemma_lookup_app(g0 + g1 + g2 + g3, g4, "name"@);
    lemma_lookup_app(g0 + g1 + g2, g3, "name"@);
    lemma_lookup_app(g0 + g1, g2, "name"@);
    lemma_lookup_app(g0, g1, "name"@);
    lemma_lookup_app(g0 + g1 + g2 + g3, g4, "description"@);
    lemma_lookup_app(g0 + g1 + g2, g3, "description"@);
    lemma_lookup_app(g0 + g1, g2, "description"@);
    lemma_lookup_app(g0, g1, "description"@);
    lemma_lookup_app(g0 + g1 + g2 + g3, g4, "logo"@);
    lemma_lookup_app(g0 + g1 + g2, g3, "logo"@);
    lemma_lookup_app(g0 + g1, g2, "logo"@);
    lemma_lookup_app(g0, g1, "logo"@);
    lemma_lookup_app(g0 + g1 + g2 + g3, g4, "link"@);
    lemma_lookup_app(g0 + g1 + g2, g3, "link"@);
    lemma_lookup_app(g0 + g1, g2, "link"@);
    lemma_lookup_app(g0, g1, "link"@);
}

/// Decodes a sponsor from its JSON tree.
fn from_json_sponsor(j: &Json) -> (r: Result<crate::types::Sponsor, ()>)
    ensures
        forall|v: crate::types::SponsorV| jv(*j) == tree_sponsor(v) ==> (
        r matches Ok(out) && crate::types::vw_sponsor(out) == v),
{
    match j {
        Json::Obj(ms) => {
            proof {
                assert forall|v: crate::types::SponsorV| jv(*j) == tree_sponsor(
                    v,
                ) implies ({
                    &&& lookup(jv_mem_seq(ms@), "id"@) == Some(JsonV::Num(int_seq(v.id as int)))
                    &&& lookup(jv_mem_seq(ms@), "name"@) == Some(JsonV::Str(v.name))
                    &&& lookup(jv_mem_seq(ms@), "description"@) == (match v.description { Some(sv) => Some(JsonV::Str(sv)), None => None::<JsonV> })
                    &&& lookup(jv_mem_seq(ms@), "logo"@) == (match v.logo { Some(sv) => Some(JsonV::Str(sv)), None => None::<JsonV> })
                    &&& lookup(jv_mem_seq(ms@), "link"@) == (match v.link { Some(sv) => Some(JsonV::Str(sv)), None => None::<JsonV> })
                }) by {
                    lemma_lookups_sponsor(v, jv_mem_seq(ms@));
                }
            }
            let id = match get_i32(ms, "id") {
                Ok(x) => x,
                Err(_) => {
                    return Err(());
                },
            };
            let name = match get_string(ms, "name") {
                Ok(x) => x,
                Err(_) => {
                    return Err(());
                },
            };
            let description = match get_opt_string(ms, "description") {
                Ok(x) => x,
                Err(_) => {
                    return Err(());
                },
            };
            let logo = match get_opt_string(ms, "logo") {
                Ok(x) => x,
                Err(_) => {
                    return Err(());
                },
            };
            let link = match get_opt_string(ms, "link") {
                Ok(x) => x,
                Err(_) => {
                    return Err(());
                },
            };
            Ok(crate::types::Sponsor { id, name, description, logo, link })
        },
        _ => Err(()),
    }
}

/// Where each key of the canonical tree of an installation leads.
proof fn lemma_lookups_installation(inst: crate::types::InstallationV, ms: Seq<(Seq<char>, JsonV)>)
    requires
        ms == tree_installation(inst)->Obj_0,
    ensures
        lookup(ms, "id"@) == Some(JsonV::Num(int_seq(inst.id as int))),
        lookup(ms, "location"@) == Some(tree_location(inst.location)),
        lookup(ms, "address"@) == Some(tree_address(inst.address)),
        lookup(ms, "elevation"@) == Some(JsonV::Num(inst.elevation)),
        lookup(ms, "airly"@) == Some(JsonV::Bool(inst.airly)),
        lookup(ms, "sponsor"@) == Some(tree_sponsor(inst.sponsor)),
{
    reveal_with_fuel(lookup, 3);
    reveal_strlit("id");
    assert("id"@ =~= seq!['i', 'd']);
    reveal_strlit("location");
    assert("location"@ =~= seq!['l', 'o', 'c', 'a', 't', 'i', 'o', 'n']);
    reveal_strlit("address");
    assert("address"@ =~= seq!['a', 'd', 'd', 'r', 'e', 's', 's']);
    reveal_strlit("elevation");
    assert("elevation"@ =~= seq!['e', 'l', 'e', 'v', 'a', 't', 'i', 'o', 'n']);
    reveal_strlit("airly");
    assert("airly"@ =~= seq!['a', 'i', 'r', 'l', 'y']);
    reveal_strlit("sponsor");
    assert("sponsor"@ =~= seq!['s', 'p', 'o', 'n', 's', 'o', 'r']);
    let g0 = m_one("id"@, JsonV::Num(int_seq(inst.id as int)));
    let g1 = m_one("location"@, tree_location(inst.location));
    let g2 = m_one("address"@, tree_address(inst.address));
    let g3 = m_one("elevation"@, JsonV::Num(inst.elevation));
    let g4 = m_one("airly"@, JsonV::Bool(inst.airly));
    let g5 = m_one("sponsor"@, tree_sponsor(inst.sponsor));
    assert(ms == g0 + g1 + g2 + g3 + g4 + g5);
    lemma_lookup_app(g0 + g1 + g2 + g3 + g4, g5, "id"@);
    lemma_lookup_app(g0 + g1 + g2 + g3, g4, "id"@);
    lemma_lookup_app(g0 + g1 + g2, g3, "id"@);
    lemma_lookup_app(g0 + g1, g2, "id"@);
    lemma_lookup_app(g0, g1, "id"@);
    lemma_lookup_app(g0 + g1 + g2 + g3 + g4, g5, "location"@);
    lemma_lookup_app(g0 + g1 + g2 + g3, g4, "location"@);
    lemma_lookup_app(g0 + g1 + g2, g3, "location"@);
    lemma_lookup_app(g0 + g1, g2, "location"@);
    lemma_lookup_app(g0, g1, "location"@);
    lemma_lookup_app(g0 + g1 + g2 + g3 + g4, g5, "address"@);
    lemma_lookup_app(g0 + g1 + g2 + g3, g4, "address"@);
    lemma_lookup_app(g0 + g1 + g2, g3, "address"@);
    lemma_lookup_app(g0 + g1, g2, "address"@);
    lemma_lookup_app(g0, g1, "address"@);
    lemma_lookup_app(g0 + g1 + g2 + g3 + g4, g5, "elevation"@);
    lemma_lookup_app(g0 + g1 + g2 + g3, g4, "elevation"@);
    lemma_lookup_app(g0 + g1 + g2, g3, "elevation"@);
    lemma_lookup_app(g0 + g1, g2, "elevation"@);
    lemma_lookup_app(g0, g1, "elevation"@);
    lemma_lookup_app(g0 + g1 + g2 + g3 + g4, g5, "airly"@);
    lemma_lookup_app(g0 + g1 + g2 + g3, g4, "airly"@);
    lemma_lookup_app(g0 + g1 + g2, g3, "airly"@);
    lemma_lookup_app(g0 + g1, g2, "airly"@);
    lemma_lookup_app(g0, g1, "airly"@);
    lemma_lookup_app(g0 + g1 + g2 + g3 + g4, g5, "sponsor"@);
    lemma_lookup_app(g0 + g1 + g2 + g3, g4, "sponsor"@);
    lemma_lookup_app(g0 + g1 + g2, g3, "sponsor"@);
    lemma_lookup_app(g0 + g1, g2, "sponsor"@);
    lemma_lookup_app(g0, g1, "sponsor"@);
}

/// Decodes an installation from its JSON tree.
fn from_json_installation(j: &Json) -> (r: Result<crate::types::Installation, ()>)
    ensures
        forall|v: crate::types::InstallationV| crate::types::wf_installation_v(v) && jv(*j) == tree_installation(v) ==> (
        r matches Ok(out) && crate::types::vw_installation(out) == v),
        r matches Ok(out) ==> crate::types::wf_installation_v(crate::types::vw_installation(out)),
{
    match j {
        Json::Obj(ms) => {
            proof {
                assert forall|v: crate::types::InstallationV| crate::types::wf_installation_v(v) && jv(*j) == tree_installation(
                    v,
                ) implies ({
                    &&& lookup(jv_mem_seq(ms@), "id"@) == Some(JsonV::Num(int_seq(v.id as int)))
                    &&& lookup(jv_mem_seq(ms@), "location"@) == Some(tree_location(v.location))
                    &&& lookup(jv_mem_seq(ms@), "address"@) == Some(tree_address(v.address))
                    &&& lookup(jv_mem_seq(ms@), "elevation"@) == Some(JsonV::Num(v.elevation))
                    &&& lookup(jv_mem_seq(ms@), "airly"@) == Some(JsonV::Bool(v.airly))
                    &&& lookup(jv_mem_seq(ms@), "sponsor"@) == Some(tree_sponsor(v.sponsor))
                }) by {
                    lemma_lookups_installation(v, jv_mem_seq(ms@));
                }
            }
            let id = match get_i32(ms, "id") {
                Ok(x) => x,
                Err(_) => {
                    return Err(());
                },
            };
            let location = match find_member(ms, "location") {
                Some(jj) => match from_json_location(jj) {
                    Ok(x) => x,
                    Err(_) => {
                        return Err(());
                    },
                },
                None => {
                    return Err(());
                },
            };
            let address = match find_member(ms, "address") {
                Some(jj) => match from_json_address(jj) {
                    Ok(x) => x,
                    Err(_) => {
                        return Err(());
                    },
                },
                None => {
                    return Err(());
                },
            };
            let elevation = match get_dec(ms, "elevation") {
                Ok(x) => x,
                Err(_) => {
                    return Err(());
                },
            };
            let airly = match get_bool(ms, "airly") {
                Ok(x) => x,
                Err(_) => {
                    return Err(());
                },
            };
            let sponsor = match find_member(ms, "sponsor") {
                Some(jj) => match from_json_sponsor(jj) {
                    Ok(x) => x,
                    Err(_) => {
                        return Err(());
                    },
                },
                None => {
                    return Err(());
                },
            };
            Ok(crate::types::Installation { id, location, address, elevation, airly, sponsor })
        },
        _ => Err(()),
    }
}

/// Where each key of the canonical tree of a reading leads.
proof fn lemma_lookups_value(v: crate::types::ValueV, ms: Seq<(Seq<char>, JsonV)>)
    requires
        ms == tree_value(v)->Obj_0,
    ensures
        lookup(ms, "name"@) == (match v.name { Some(sv) => Some(JsonV::Str(sv)), None => None::<JsonV> }),
        lookup(ms, "value"@) == (match v.value { Some(t) => Some(JsonV::Num(t)), None => None::<JsonV> }),
{
    reveal_with_fuel(lookup, 3);
    reveal_strlit("name");
    assert("name"@ =~= seq!['n', 'a', 'm', 'e']);
    reveal_strlit("value");
    assert("value"@ =~= seq!['v', 'a', 'l', 'u', 'e']);
    let g0 = m_opt_str("name"@, v.name);
    let g1 = m_opt_num("value"@, v.value);
    assert(ms == g0 + g1);
    lemma_lookup_app(g0, g1, "name"@);
    lemma_lookup_app(g0, g1, "value"@);
}

/// Decodes a reading from its JSON tree.
fn from_json_value(j: &Json) -> (r: Result<crate::types::Value, ()>)
    ensures
        forall|v: crate::types::ValueV| crate::types::wf_value_v(v) && jv(*j) == tree_value(v) ==> (
        r matches Ok(out) && crate::types::vw_value(out) == v),
        r matches Ok(out) ==> crate::types::wf_value_v(crate::types::vw_value(out)),
{
    match j {
        Json::Obj(ms) => {
            proof {
                assert forall|v: crate::types::ValueV| crate::types::wf_value_v(v) && jv(*j) == tree_value(
                    v,
                ) implies ({
                    &&& lookup(jv_mem_seq(ms@), "name"@) == (match v.name { Some(sv) => Some(JsonV::Str(sv)), None => None::<JsonV> })
                    &&& lookup(jv_mem_seq(ms@), "value"@) == (match v.value { Some(t) => Some(JsonV::Num(t)), None => None::<JsonV> })
                }) by {
                    lemma_lookups_value(v, jv_mem_seq(ms@));
                }
            }
            let name = match get_opt_string(ms, "name") {
                Ok(x) => x,
                Err(_) => {
                    return Err(());
                },
            };
            let value = match get_opt_dec(ms, "value") {
                Ok(x) => x,
                Err(_) => {
                    return Err(());
                },
            };
            Ok(crate::types::Value { name, value })
        },
        _ => Err(()),
    }
}

/// Where each key of the canonical tree of an index leads.
proof fn lemma_lookups_index(ix: crate::types::IndexV, ms: Seq<(Seq<char>, JsonV)>)
    requires
        ms == tree_index(ix)->Obj_0,
    ensures
        lookup(ms, "name"@) == (match ix.name { Some(sv) => Some(JsonV::Str(sv)), None => None::<JsonV> }),
        lookup(ms, "value"@) == (match ix.value { Some(t) => Some(JsonV::Num(t)), None => None::<JsonV> }),
        lookup(ms, "level"@) == (match ix.level { Some(sv) => Some(JsonV::Str(sv)), None => None::<JsonV> }),
        lookup(ms, "description"@) == (match ix.description { Some(sv) => Some(JsonV::Str(sv)), None => None::<JsonV> }),
        lookup(ms, "advice"@) == (match ix.advice { Some(sv) => Some(JsonV::Str(sv)), None => None::<JsonV> }),
        lookup(ms, "color"@) == (match ix.color { Some(sv) => Some(JsonV::Str(sv)), None => None::<JsonV> }),
{
    reveal_with_fuel(lookup, 3);
    reveal_strlit("name");
    assert("name"@ =~= seq!['n', 'a', 'm', 'e']);
    reveal_strlit("value");
    assert("value"@ =~= seq!['v', 'a', 'l', 'u', 'e']);
    reveal_strlit("level");
    assert("level"@ =~= seq!['l', 'e', 'v', 'e', 'l']);
    reveal_strlit("description");
    assert("description"@ =~= seq!['d', 'e', 's', 'c', 'r', 'i', 'p', 't', 'i', 'o', 'n']);
    reveal_strlit("advice");
    assert("advice"@ =~= seq!['a', 'd', 'v', 'i', 'c', 'e']);
    reveal_strlit("color");
    assert("color"@ =~= seq!['c', 'o', 'l', 'o', 'r']);
    let g0 = m_opt_str("name"@, ix.name);
    let g1 = m_opt_num("value"@, ix.value);
    let g2 = m_opt_str("level"@, ix.level);
    let g3 = m_opt_str("description"@, ix.description);
    let g4 = m_opt_str("advice"@, ix.advice);
    let g5 = m_opt_str("color"@, ix.color);
    assert(ms == g0 + g1 + g2 + g3 + g4 + g5);
    lemma_lookup_app(g0 + g1 + g2 + g3 + g4, g5, "name"@);
    lemma_lookup_app(g0 + g1 + g2 + g3, g4, "name"@);
    lemma_lookup_app(g0 + g1 + g2, g3, "name"@);
    lemma_lookup_app(g0 + g1, g2, "name"@);
    lemma_lookup_app(g0, g1, "name"@);
    lemma_lookup_app(g0 + g1 + g2 + g3 + g4, g5, "value"@);
    lemma_lookup_app(g0 + g1 + g2 + g3, g4, "value"@);
    lemma_lookup_app(g0 + g1 + g2, g3, "value"@);
    lemma_lookup_app(g0 + g1, g2, "value"@);
    lemma_lookup_app(g0, g1, "value"@);
    lemma_lookup_app(g0 + g1 + g2 + g3 + g4, g5, "level"@);
    lemma_lookup_app(g0 + g1 + g2 + g3, g4, "level"@);
    lemma_lookup_app(g0 + g1 + g2, g3, "level"@);
    lemma_lookup_app(g0 + g1, g2, "level"@);
    lemma_lookup_app(g0, g1, "level"@);
    lemma_lookup_app(g0 + g1 + g2 + g3 + g4, g5, "description"@);
    lemma_lookup_app(g0 + g1 + g2 + g3, g4, "description"@);
    lemma_lookup_app(g0 + g1 + g2, g3, "description"@);
    lemma_lookup_app(g0 + g1, g2, "description"@);
    lemma_lookup_app(g0, g1, "description"@);
    lemma_lookup_app(g0 + g1 + g2 + g3 + g4, g5, "advice"@);
    lemma_lookup_app(g0 + g1 + g2 + g3, g4, "advice"@);
    lemma_lookup_app(g0 + g1 + g2, g3, "advice"@);
    lemma_lookup_app(g0 + g1, g2, "advice"@);
    lemma_lookup_app(g0, g1, "advice"@);
    lemma_lookup_app(g0 + g1 + g2 + g3 + g4, g5, "color"@);
    lemma_lookup_app(g0 + g1 + g2 + g3, g4, "color"@);
    lemma_lookup_app(g0 + g1 + g2, g3, "color"@);
    lemma_lookup_app(g0 + g1, g2, "color"@);
    lemma_lookup_app(g0, g1, "color"@);
}

/// Decodes an index from its JSON tree.
fn from_json_index(j: &Json) -> (r: Result<crate::types::Index, ()>)
    ensures
        forall|v: crate::types::IndexV| crate::types::wf_index_v(v) && jv(*j) == tree_index(v) ==> (
        r matches Ok(out) && crate::types::vw_index(out) == v),
        r matches Ok(out) ==> crate::types::wf_index_v(crate::types::vw_index(out)),
{
    match j {
        Json::Obj(ms) => {
            proof {
                assert forall|v: crate::types::IndexV| crate::types::wf_index_v(v) && jv(*j) == tree_index(
                    v,
                ) implies ({
                    &&& lookup(jv_mem_seq(ms@), "name"@) == (match v.name { Some(sv) => Some(JsonV::Str(sv)), None => None::<JsonV> })
                    &&& lookup(jv_mem_seq(ms@), "value"@) == (match v.value { Some(t) => Some(JsonV::Num(t)), None => None::<JsonV> })
                    &&& lookup(jv_mem_seq(ms@), "level"@) == (match v.level { Some(sv) => Some(JsonV::Str(sv)), None => None::<JsonV> })
                    &&& lookup(jv_mem_seq(ms@), "description"@) == (match v.description { Some(sv) => Some(JsonV::Str(sv)), None => None::<JsonV> })
                    &&& lookup(jv_mem_seq(ms@), "advice"@) == (match v.advice { Some(sv) => Some(JsonV::Str(sv)), None => None::<JsonV> })
                    &&& lookup(jv_mem_seq(ms@), "color"@) == (match v.color { Some(sv) => Some(JsonV::Str(sv)), None => None::<JsonV> })
                }) by {
                    lemma_lookups_index(v, jv_mem_seq(ms@));
                }
            }
            let name = match get_opt_string(ms, "name") {
                Ok(x) => x,
                Err(_) => {
                    return Err(());
                },
            };
            let value = match get_opt_dec(ms, "value") {
                Ok(x) => x,
                Err(_) => {
                    return Err(());
                },
            };
            let level = match get_opt_string(ms, "level") {
                Ok(x) => x,
                Err(_) => {
                    return Err(());
                },
            };
            let description = match get_opt_string(ms, "description") {
                Ok(x) => x,
                Err(_) => {
                    return Err(());
                },
            };
            let advice = match get_opt_string(ms, "advice") {
                Ok(x) => x,
                Err(_) => {
                    return Err(());
                },
            };
            let color = match get_opt_string(ms, "color") {
                Ok(x) => x,
                Err(_) => {
                    return Err(());
                },
            };
            Ok(crate::types::Index { name, value, level, description, advice, color })
        },
        _ => Err(()),
    }
}

/// Where each key of the canonical tree of a standard comparison leads.
proof fn lemma_lookups_standard(st: crate::types::StandardV, ms: Seq<(Seq<char>, JsonV)>)
    requires
        ms == tree_standard(st)->Obj_0,
    ensures
        lookup(ms, "name"@) == (match st.name { Some(sv) => Some(JsonV::Str(sv)), None => None::<JsonV> }),
        lookup(ms, "pollutant"@) == (match st.pollutant { Some(sv) => Some(JsonV::Str(sv)), None => None::<JsonV> }),
        lookup(ms, "limit"@) == (match st.limit { Some(t) => Some(JsonV::Num(t)), None => None::<JsonV> }),
        lookup(ms, "percent"@) == (match st.percent { Some(t) => Some(JsonV::Num(t)), None => None::<JsonV> }),
{
    reveal_with_fuel(lookup, 3);
    reveal_strlit("name");
    assert("name"@ =~= seq!['n', 'a', 'm', 'e']);
    reveal_strlit("pollutant");
    assert("pollutant"@ =~= seq!['p', 'o', 'l', 'l', 'u', 't', 'a', 'n', 't']);
    reveal_strlit("limit");
    assert("limit"@ =~= seq!['l', 'i', 'm', 'i', 't']);
    reveal_strlit("percent");
    assert("percent"@ =~= seq!['p', 'e', 'r', 'c', 'e', 'n', 't']);
    let g0 = m_opt_str("name"@, st.name);
    let g1 = m_opt_str("pollutant"@, st.pollutant);
    let g2 = m_opt_num("limit"@, st.limit);
    let g3 = m_opt_num("percent"@, st.percent);
    assert(ms == g0 + g1 + g2 + g3);
    lemma_lookup_app(g0 + g1 + g2, g3, "name"@);
    lemma_lookup_app(g0 + g1, g2, "name"@);
    lemma_lookup_app(g0, g1, "name"@);
    lemma_lookup_app(g0 + g1 + g2, g3, "pollutant"@);
    lemma_lookup_app(g0 + g1, g2, "pollutant"@);
    lemma_lookup_app(g0, g1, "pollutant"@);
    lemma_lookup_app(g0 + g1 + g2, g3, "limit"@);
    lemma_lookup_app(g0 + g1, g2, "limit"@);
    lemma_lookup_app(g0, g1, "limit"@);
    lemma_lookup_app(g0 + g1 + g2, g3, "percent"@);
    lemma_lookup_app(g0 + g1, g2, "percent"@);
    lemma_lookup_app(g0, g1, "percent"@);
}

/// Decodes a standard comparison from its JSON tree.
fn from_json_standard(j: &Json) -> (r: Result<crate::types::Standard, ()>)
    ensures
        forall|v: crate::types::StandardV| crate::types::wf_standard_v(v) && jv(*j) == tree_standard(v) ==> (
        r matches Ok(out) && crate::types::vw_standard(out) == v),
        r matches Ok(out) ==> crate::types::wf_standard_v(crate::types::vw_standard(out)),
{
    match j {
        Json::Obj(ms) => {
            proof {
                assert forall|v: crate::types::StandardV| crate::types::wf_standard_v(v) && jv(*j) == tree_standard(
                    v,
                ) implies ({
                    &&& lookup(jv_mem_seq(ms@), "name"@) == (match v.name { Some(sv) => Some(JsonV::Str(sv)), None => None::<JsonV> })
                    &&& lookup(jv_mem_seq(ms@), "pollutant"@) == (match v.pollutant { Some(sv) => Some(JsonV::Str(sv)), None => None::<JsonV> })
                    &&& lookup(jv_mem_seq(ms@), "limit"@) == (match v.limit { Some(t) => Some(JsonV::Num(t)), None => None::<JsonV> })
                    &&& lookup(jv_mem_seq(ms@), "percent"@) == (match v.percent { Some(t) => Some(JsonV::Num(t)), None => None::<JsonV> })
                }) by {
                    lemma_lookups_standard(v, jv_mem_seq(ms@));
                }
            }
            let name = match get_opt_string(ms, "name") {
                Ok(x) => x,
                Err(_) => {
                    return Err(());
                },
            };
            let pollutant = match get_opt_string(ms, "pollutant") {
                Ok(x) => x,
                Err(_) => {
                    return Err(());
                },
            };
            let limit = match get_opt_dec(ms, "limit") {
                Ok(x) => x,
                Err(_) => {
                    return Err(());
                },
            };
            let percent = match get_opt_dec(ms, "percent") {
                Ok(x) => x,
                Err(_) => {
                    return Err(());
                },
            };
            Ok(crate::types::Standard { name, pollutant, limit, percent })
        },
        _ => Err(()),
    }
}

/// Where each key of the canonical tree of an averaged reading leads.
proof fn lemma_lookups_averaged(a: crate::types::AveragedValuesV, ms: Seq<(Seq<char>, JsonV)>)
    requires
        ms == tree_averaged(a)->Obj_0,
    ensures
        lookup(ms, "fromDateTime"@) == (match a.from_date_time { Some(sv) => Some(JsonV::Str(sv)), None => None::<JsonV> }),
        lookup(ms, "tillDateTime"@) == (match a.till_date_time { Some(sv) => Some(JsonV::Str(sv)), None => None::<JsonV> }),
        lookup(ms, "values"@) == Some(JsonV::Arr(tree_value_seq(a.values))),
        lookup(ms, "indexes"@) == Some(JsonV::Arr(tree_index_seq(a.indexes))),
        lookup(ms, "standards"@) == Some(JsonV::Arr(tree_standard_seq(a.standards))),
{
    reveal_with_fuel(lookup, 3);
    reveal_strlit("fromDateTime");
    assert("fromDateTime"@ =~= seq!['f', 'r', 'o', 'm', 'D', 'a', 't', 'e', 'T', 'i', 'm', 'e']);
    reveal_strlit("tillDateTime");
    assert("tillDateTime"@ =~= seq!['t', 'i', 'l', 'l', 'D', 'a', 't', 'e', 'T', 'i', 'm', 'e']);
    reveal_strlit("values");
    assert("values"@ =~= seq!['v', 'a', 'l', 'u', 'e', 's']);
    reveal_strlit("indexes");
    assert("indexes"@ =~= seq!['i', 'n', 'd', 'e', 'x', 'e', 's']);
    reveal_strlit("standards");
    assert("standards"@ =~= seq!['s', 't', 'a', 'n', 'd', 'a', 'r', 'd', 's']);
    let g0 = m_opt_str("fromDateTime"@, a.from_date_time);
    let g1 = m_opt_str("tillDateTime"@, a.till_date_time);
    let g2 = m_one("values"@, JsonV::Arr(tree_value_seq(a.values)));
    let g3 = m_one("indexes"@, JsonV::Arr(tree_index_seq(a.indexes)));
    let g4 = m_one("standards"@, JsonV::Arr(tree_standard_seq(a.standards)));
    assert(ms == g0 + g1 + g2 + g3 + g4);
    lemma_lookup_app(g0 + g1 + g2 + g3, g4, "fromDateTime"@);
    lemma_lookup_app(g0 + g1 + g2, g3, "fromDateTime"@);
    lemma_lookup_app(g0 + g1, g2, "fromDateTime"@);
    lemma_lookup_app(g0, g1, "fromDateTime"@);
    lemma_lookup_app(g0 + g1 + g2 + g3, g4, "tillDateTime"@);
    lemma_lookup_app(g0 + g1 + g2, g3, "tillDateTime"@);
    lemma_lookup_app(g0 + g1, g2, "tillDateTime"@);
    lemma_lookup_app(g0, g1, "tillDateTime"@);
    lemma_lookup_app(g0 + g1 + g2 + g3, g4, "values"@);
    lemma_lookup_app(g0 + g1 + g2, g3, "values"@);
    lemma_lookup_app(g0 + g1, g2, "values"@);
    lemma_lookup_app(g0, g1, "values"@);
    lemma_lookup_app(g0 + g1 + g2 + g3, g4, "indexes"@);
    lemma_lookup_app(g0 + g1 + g2, g3, "indexes"@);
    lemma_lookup_app(g0 + g1, g2, "indexes"@);
    lemma_lookup_app(g0, g1, "indexes"@);
    lemma_lookup_app(g0 + g1 + g2 + g3, g4, "standards"@);
    lemma_lookup_app(g0 + g1 + g2, g3, "standards"@);
    lemma_lookup_app(g0 + g1, g2, "standards"@);
    lemma_lookup_app(g0, g1, "standards"@);
}

/// Decodes an averaged reading from its JSON tree.
fn from_json_averaged(j: &Json) -> (r: Result<crate::types::AveragedValues, ()>)
    ensures
        forall|v: crate::types::AveragedValuesV| crate::types::wf_averaged_v(v) && jv(*j) == tree_averaged(v) ==> (
        r matches Ok(out) && crate::types::vw_averaged(out) == v),
        r matches Ok(out) ==> crate::types::wf_averaged_v(crate::types::vw_averaged(out)),
{
    match j {
        Json::Obj(ms) => {
            proof {
                assert forall|v: crate::types::AveragedValuesV| crate::types::wf_averaged_v(v) && jv(*j) == tree_averaged(
                    v,
                ) implies ({
                    &&& lookup(jv_mem_seq(ms@), "fromDateTime"@) == (match v.from_date_time { Some(sv) => Some(JsonV::Str(sv)), None => None::<JsonV> })
                    &&& lookup(jv_mem_seq(ms@), "tillDateTime"@) == (match v.till_date_time { Some(sv) => Some(JsonV::Str(sv)), None => None::<JsonV> })
                    &&& lookup(jv_mem_seq(ms@), "values"@) == Some(JsonV::Arr(tree_value_seq(v.values)))
                    &&& lookup(jv_mem_seq(ms@), "indexes"@) == Some(JsonV::Arr(tree_index_seq(v.indexes)))
                    &&& lookup(jv_mem_seq(ms@), "standards"@) == Some(JsonV::Arr(tree_standard_seq(v.standards)))
                }) by {
                    lemma_lookups_averaged(v, jv_mem_seq(ms@));
                }
            }
            let from_date_time = match get_opt_string(ms, "fromDateTime") {
                Ok(x) => x,
                Err(_) => {
                    return Err(());
                },
            };
            let till_date_time = match get_opt_string(ms, "tillDateTime") {
                Ok(x) => x,
                Err(_) => {
                    return Err(());
                },
            };
            let values = match find_member(ms, "values") {
                Some(Json::Arr(items)) => {
                    proof {
                        assert(crate::json::jv_seq(items@).skip(0) =~= crate::json::jv_seq(
                            items@,
                        ));
                    }
                    match from_json_value_list(items, 0) {
                        Ok(x) => x,
                        Err(_) => {
                            return Err(());
                        },
                    }
                },
                _ => {
                    return Err(());
                },
            };
            let indexes = match find_member(ms, "indexes") {
                Some(Json::Arr(items)) => {
                    proof {
                        assert(crate::json::jv_seq(items@).skip(0) =~= crate::json::jv_seq(
                            items@,
                        ));
                    }
                    match from_json_index_list(items, 0) {
                        Ok(x) => x,
                        Err(_) => {
                            return Err(());
                        },
                    }
                },
                _ => {
                    return Err(());
                },
            };
            let standards = match find_member(ms, "standards") {
                Some(Json::Arr(items)) => {
                    proof {
                        assert(crate::json::jv_seq(items@).skip(0) =~= crate::json::jv_seq(
                            items@,
                        ));
                    }
                    match from_json_standard_list(items, 0) {
                        Ok(x) => x,
                        Err(_) => {
                            return Err(());
                        },
                    }
                },
                _ => {
                    return Err(());
                },
            };
            Ok(crate::types::AveragedValues { from_date_time, till_date_time, values, indexes, standards })
        },
        _ => Err(()),
    }
}

/// Where each key of the canonical tree of a measurements bundle leads.
proof fn lemma_lookups_measurements(m: crate::types::MeasurementsV, ms: Seq<(Seq<char>, JsonV)>)
    requires
        ms == tree_measurements(m)->Obj_0,
    ensures
        lookup(ms, "current"@) == (match m.current { Some(x) => Some(tree_averaged(x)), None => None::<JsonV> }),
        lookup(ms, "history"@) == Some(JsonV::Arr(tree_averaged_seq(m.history))),
        lookup(ms, "forecast"@) == Some(JsonV::Arr(tree_averaged_seq(m.forecast))),
{
    reveal_with_fuel(lookup, 3);
    reveal_strlit("current");
    assert("current"@ =~= seq!['c', 'u', 'r', 'r', 'e', 'n', 't']);
    reveal_strlit("history");
    assert("history"@ =~= seq!['h', 'i', 's', 't', 'o', 'r', 'y']);
    reveal_strlit("forecast");
    assert("forecast"@ =~= seq!['f', 'o', 'r', 'e', 'c', 'a', 's', 't']);
    let g0 = m_opt("current"@, match m.current {
            Some(x) => Some(tree_averaged(x)),
            None => None,
        });
    let g1 = m_one("history"@, JsonV::Arr(tree_averaged_seq(m.history)));
    let g2 = m_one("forecast"@, JsonV::Arr(tree_averaged_seq(m.forecast)));
    assert(ms == g0 + g1 + g2);
    lemma_lookup_app(g0 + g1, g2, "current"@);
    lemma_lookup_app(g0, g1, "current"@);
    lemma_lookup_app(g0 + g1, g2, "history"@);
    lemma_lookup_app(g0, g1, "history"@);
    lemma_lookup_app(g0 + g1, g2, "forecast"@);
    lemma_lookup_app(g0, g1, "forecast"@);
}

/// Decodes a measurements bundle from its JSON tree.
fn from_json_measurements(j: &Json) -> (r: Result<crate::types::Measurements, ()>)
    ensures
        forall|v: crate::types::MeasurementsV| crate::types::wf_measurements_v(v) && jv(*j) == tree_measurements(v) ==> (
        r matches Ok(out) && crate::types::vw_measurements(out) == v),
        r matches Ok(out) ==> crate::types::wf_measurements_v(crate::types::vw_measurements(out)),
{
    match j {
        Json::Obj(ms) => {
            proof {
                assert forall|v: crate::types::MeasurementsV| crate::types::wf_measurements_v(v) && jv(*j) == tree_measurements(
                    v,
                ) implies ({
                    &&& lookup(jv_mem_seq(ms@), "current"@) == (match v.current { Some(x) => Some(tree_averaged(x)), None => None::<JsonV> })
                    &&& lookup(jv_mem_seq(ms@), "history"@) == Some(JsonV::Arr(tree_averaged_seq(v.history)))
                    &&& lookup(jv_mem_seq(ms@), "forecast"@) == Some(JsonV::Arr(tree_averaged_seq(v.forecast)))
                }) by {
                    lemma_lookups_measurements(v, jv_mem_seq(ms@));
                }
            }
            let current = match find_member(ms, "current") {
                Some(Json::Null) => None,
                Some(jj) => match from_json_averaged(jj) {
                    Ok(x) => Some(x),
                    Err(_) => {
                        return Err(());
                    },
                },
                None => None,
            };
            let history = match find_member(ms, "history") {
                Some(Json::Arr(items)) => {
                    proof {
                        assert(crate::json::jv_seq(items@).skip(0) =~= crate::json::jv_seq(
                            items@,
                        ));
                    }
                    match from_json_averaged_list(items, 0) {
                        Ok(x) => x,
                        Err(_) => {
                            return Err(());
                        },
                    }
                },
                _ => {
                    return Err(());
                },
            };
            let forecast = match find_member(ms, "forecast") {
                Some(Json::Arr(items)) => {
                    proof {
                        assert(crate::json::jv_seq(items@).skip(0) =~= crate::json::jv_seq(
                            items@,
                        ));
                    }
                    match from_json_averaged_list(items, 0) {
                        Ok(x) => x,
                        Err(_) => {
                            return Err(());
                        },
                    }
                },
                _ => {
                    return Err(());
                },
            };
            Ok(crate::types::Measurements { current, history, forecast })
        },
        _ => Err(()),
    }
}

/// Where each key of the canonical tree of an index level leads.
proof fn lemma_lookups_index_level(il: crate::types::IndexLevelV, ms: Seq<(Seq<char>, JsonV)>)
    requires
        ms == tree_index_level(il)->Obj_0,
    ensures
        lookup(ms, "minValue"@) == (match il.min_value { Some(n) => Some(JsonV::Num(int_seq(n as int))), None => None::<JsonV> }),
        lookup(ms, "mixValue"@) == (match il.max_value { Some(n) => Some(JsonV::Num(int_seq(n as int))), None => None::<JsonV> }),
        lookup(ms, "value"@) == (match il.value { Some(sv) => Some(JsonV::Str(sv)), None => None::<JsonV> }),
        lookup(ms, "level"@) == (match il.level { Some(sv) => Some(JsonV::Str(sv)), None => None::<JsonV> }),
        lookup(ms, "description"@) == (match il.description { Some(sv) => Some(JsonV::Str(sv)), None => None::<JsonV> }),
        lookup(ms, "color"@) == (match il.color { Some(sv) => Some(JsonV::Str(sv)), None => None::<JsonV> }),
{
    reveal_with_fuel(lookup, 3);
    reveal_strlit("minValue");
    assert("minValue"@ =~= seq!['m', 'i', 'n', 'V', 'a', 'l', 'u', 'e']);
    reveal_strlit("mixValue");
    assert("mixValue"@ =~= seq!['m', 'i', 'x', 'V', 'a', 'l', 'u', 'e']);
    reveal_strlit("value");
    assert("value"@ =~= seq!['v', 'a', 'l', 'u', 'e']);
    reveal_strlit("level");
    assert("level"@ =~= seq!['l', 'e', 'v', 'e', 'l']);
    reveal_strlit("description");
    assert("description"@ =~= seq!['d', 'e', 's', 'c', 'r', 'i', 'p', 't', 'i', 'o', 'n']);
    reveal_strlit("color");
    assert("color"@ =~= seq!['c', 'o', 'l', 'o', 'r']);
    let g0 = m_opt_int("minValue"@, il.min_value);
    let g1 = m_opt_int("mixValue"@, il.max_value);
    let g2 = m_opt_str("value"@, il.value);
    let g3 = m_opt_str("level"@, il.level);
    let g4 = m_opt_str("description"@, il.description);
    let g5 = m_opt_str("color"@, il.color);
    assert(ms == g0 + g1 + g2 + g3 + g4 + g5);
    lemma_lookup_app(g0 + g1 + g2 + g3 + g4, g5, "minValue"@);
    lemma_lookup_app(g0 + g1 + g2 + g3, g4, "minValue"@);
    lemma_lookup_app(g0 + g1 + g2, g3, "minValue"@);
    lemma_lookup_app(g0 + g1, g2, "minValue"@);
    lemma_lookup_app(g0, g1, "minValue"@);
    lemma_lookup_app(g0 + g1 + g2 + g3 + g4, g5, "mixValue"@);
    lemma_lookup_app(g0 + g1 + g2 + g3, g4, "mixValue"@);
    lemma_lookup_app(g0 + g1 + g2, g3, "mixValue"@);
    lemma_lookup_app(g0 + g1, g2, "mixValue"@);
    lemma_lookup_app(g0, g1, "mixValue"@);
    lemma_lookup_app(g0 + g1 + g2 + g3 + g4, g5, "value"@);
    lemma_lookup_app(g0 + g1 + g2 + g3, g4, "value"@);
    lemma_lookup_app(g0 + g1 + g2, g3, "value"@);
    lemma_lookup_app(g0 + g1, g2, "value"@);
    lemma_lookup_app(g0, g1, "value"@);
    lemma_lookup_app(g0 + g1 + g2 + g3 + g4, g5, "level"@);
    lemma_lookup_app(g0 + g1 + g2 + g3, g4, "level"@);
    lemma_lookup_app(g0 + g1 + g2, g3, "level"@);
    lemma_lookup_app(g0 + g1, g2, "level"@);
    lemma_lookup_app(g0, g1, "level"@);
    lemma_lookup_app(g0 + g1 + g2 + g3 + g4, g5, "description"@);
    lemma_lookup_app(g0 + g1 + g2 + g3, g4, "description"@);
    lemma_lookup_app(g0 + g1 + g2, g3, "description"@);
    lemma_lookup_app(g0 + g1, g2, "description"@);
    lemma_lookup_app(g0, g1, "description"@);
    lemma_lookup_app(g0 + g1 + g2 + g3 + g4, g5, "color"@);
    lemma_lookup_app(g0 + g1 + g2 + g3, g4, "color"@);
    lemma_lookup_app(g0 + g1 + g2, g3, "color"@);
    lemma_lookup_app(g0 + g1, g2, "color"@);
    lemma_lookup_app(g0, g1, "color"@);
}

/// Decodes an index level from its JSON tree.
fn from_json_index_level(j: &Json) -> (r: Result<crate::types::IndexLevel, ()>)
    ensures
        forall|v: crate::types::IndexLevelV| jv(*j) == tree_index_level(v) ==> (
        r matches Ok(out) && crate::types::vw_index_level(out) == v),
{
    match j {
        Json::Obj(ms) => {
            proof {
                assert forall|v: crate::types::IndexLevelV| jv(*j) == tree_index_level(
                    v,
                ) implies ({
                    &&& lookup(jv_mem_seq(ms@), "minValue"@) == (match v.min_value { Some(n) => Some(JsonV::Num(int_seq(n as int))), None => None::<JsonV> })
                    &&& lookup(jv_mem_seq(ms@), "mixValue"@) == (match v.max_value { Some(n) => Some(JsonV::Num(int_seq(n as int))), None => None::<JsonV> })
                    &&& lookup(jv_mem_seq(ms@), "value"@) == (match v.value { Some(sv) => Some(JsonV::Str(sv)), None => None::<JsonV> })
                    &&& lookup(jv_mem_seq(ms@), "level"@) == (match v.level { Some(sv) => Some(JsonV::Str(sv)), None => None::<JsonV> })
                    &&& lookup(jv_mem_seq(ms@), "description"@) == (match v.description { Some(sv) => Some(JsonV::Str(sv)), None => None::<JsonV> })
                    &&& lookup(jv_mem_seq(ms@), "color"@) == (match v.color { Some(sv) => Some(JsonV::Str(sv)), None => None::<JsonV> })
                }) by {
                    lemma_lookups_index_level(v, jv_mem_seq(ms@));
                }
            }
            let min_value = match get_opt_i32(ms, "minValue") {
                Ok(x) => x,
                Err(_) => {
                    return Err(());
                },
            };
            let max_value = match get_opt_i32(ms, "mixValue") {
                Ok(x) => x,
                Err(_) => {
                    return Err(());
                },
            };
            let value = match get_opt_string(ms, "value") {
                Ok(x) => x,
                Err(_) => {
                    return Err(());
                },
            };
            let level = match get_opt_string(ms, "level") {
                Ok(x) => x,
                Err(_) => {
                    return Err(());
                },
            };
            let description = match get_opt_string(ms, "description") {
                Ok(x) => x,
                Err(_) => {
                    return Err(());
                },
            };
            let color = match get_opt_string(ms, "color") {
                Ok(x) => x,
                Err(_) => {
                    return Err(());
                },
            };
            Ok(crate::types::IndexLevel { min_value, max_value, value, level, description, color })
        },
        _ => Err(()),
    }
}

/// Where each key of the canonical tree of an index type leads.
proof fn lemma_lookups_index_type(it: crate::types::IndexTypeV, ms: Seq<(Seq<char>, JsonV)>)
    requires
        ms == tree_index_type(it)->Obj_0,
    ensures
        lookup(ms, "name"@) == (match it.name { Some(sv) => Some(JsonV::Str(sv)), None => None::<JsonV> }),
        lookup(ms, "level"@) == (match it.level { Some(x) => Some(tree_index_level(x)), None => None::<JsonV> }),
{
    reveal_with_fuel(lookup, 3);
    reveal_strlit("name");
    assert("name"@ =~= seq!['n', 'a', 'm', 'e']);
    reveal_strlit("level");
    assert("level"@ =~= seq!['l', 'e', 'v', 'e', 'l']);
    let g0 = m_opt_str("name"@, it.name);
    let g1 = m_opt("level"@, match it.level {
            Some(x) => Some(tree_index_level(x)),
            None => None,
        });
    assert(ms == g0 + g1);
    lemma_lookup_app(g0, g1, "name"@);
    lemma_lookup_app(g0, g1, "level"@);
}

/// Decodes an index type from its JSON tree.
fn from_json_index_type(j: &Json) -> (r: Result<crate::types::IndexType, ()>)
    ensures
        forall|v: crate::types::IndexTypeV| jv(*j) == tree_index_type(v) ==> (
        r matches Ok(out) && crate::types::vw_index_type(out) == v),
{
    match j {
        Json::Obj(ms) => {
            proof {
                assert forall|v: crate::types::IndexTypeV| jv(*j) == tree_index_type(
                    v,
                ) implies ({
                    &&& lookup(jv_mem_seq(ms@), "name"@) == (match v.name { Some(sv) => Some(JsonV::Str(sv)), None => None::<JsonV> })
                    &&& lookup(jv_mem_seq(ms@), "level"@) == (match v.level { Some(x) => Some(tree_index_level(x)), None => None::<JsonV> })
                }) by {
                    lemma_lookups_index_type(v, jv_mem_seq(ms@));
                }
            }
            let name = match get_opt_string(ms, "name") {
                Ok(x) => x,
                Err(_) => {
                    return Err(());
                },
            };
            let level = match find_member(ms, "level") {
                Some(Json::Null) => None,
                Some(jj) => match from_json_index_level(jj) {
                    Ok(x) => Some(x),
                    Err(_) => {
                        return Err(());
                    },
                },
                None => None,
            };
            Ok(crate::types::IndexType { name, level })
        },
        _ => Err(()),
    }
}

/// Where each key of the canonical tree of a measurement type leads.
proof fn lemma_lookups_measurement_type(mt: crate::types::MeasurementTypeV, ms: Seq<(Seq<char>, JsonV)>)
    requires
        ms == tree_measurement_type(mt)->Obj_0,
    ensures
        lookup(ms, "name"@) == (match mt.name { Some(sv) => Some(JsonV::Str(sv)), None => None::<JsonV> }),
        lookup(ms, "label"@) == (match mt.label { Some(sv) => Some(JsonV::Str(sv)), None => None::<JsonV> }),
        lookup(ms, "unit"@) == (match mt.unit { Some(sv) => Some(JsonV::Str(sv)), None => None::<JsonV> }),
{
    reveal_with_fuel(lookup, 3);
    reveal_strlit("name");
    assert("name"@ =~= seq!['n', 'a', 'm', 'e']);
    reveal_strlit("label");
    assert("label"@ =~= seq!['l', 'a', 'b', 'e', 'l']);
    reveal_strlit("unit");
    assert("unit"@ =~= seq!['u', 'n', 'i', 't']);
    let g0 = m_opt_str("name"@, mt.name);
    let g1 = m_opt_str("label"@, mt.label);
    let g2 = m_opt_str("unit"@, mt.unit);
    assert(ms == g0 + g1 + g2);
    lemma_lookup_app(g0 + g1, g2, "name"@);
    lemma_lookup_app(g0, g1, "name"@);
    lemma_lookup_app(g0 + g1, g2, "label"@);
    lemma_lookup_app(g0, g1, "label"@);
    lemma_lookup_app(g0 + g1, g2, "unit"@);
    lemma_lookup_app(g0, g1, "unit"@);
}

/// Decodes a measurement type from its JSON tree.
fn from_json_measurement_type(j: &Json) -> (r: Result<crate::types::MeasurementType, ()>)
    ensures
        forall|v: crate::types::MeasurementTypeV| jv(*j) == tree_measurement_type(v) ==> (
        r matches Ok(out) && crate::types::vw_measurement_type(out) == v),
{
    match j {
        Json::Obj(ms) => {
            proof {
                assert forall|v: crate::types::MeasurementTypeV| jv(*j) == tree_measurement_type(
                    v,
                ) implies ({
                    &&& lookup(jv_mem_seq(ms@), "name"@) == (match v.name { Some(sv) => Some(JsonV::Str(sv)), None => None::<JsonV> })
                    &&& lookup(jv_mem_seq(ms@), "label"@) == (match v.label { Some(sv) => Some(JsonV::Str(sv)), None => None::<JsonV> })
                    &&& lookup(jv_mem_seq(ms@), "unit"@) == (match v.unit { Some(sv) => Some(JsonV::Str(sv)), None => None::<JsonV> })
                }) by {
                    lemma_lookups_measurement_type(v, jv_mem_seq(ms@));
                }
            }
            let name = match get_opt_string(ms, "name") {
                Ok(x) => x,
                Err(_) => {
                    return Err(());
                },
            };
            let label = match get_opt_string(ms, "label") {
                Ok(x) => x,
                Err(_) => {
                    return Err(());
                },
            };
            let unit = match get_opt_string(ms, "unit") {
                Ok(x) => x,
                Err(_) => {
                    return Err(());
                },
            };
            Ok(crate::types::MeasurementType { name, label, unit })
        },
        _ => Err(()),
    }
}

/// Decodes the elements of a JSON array as reading records, from
/// `idx` on.
fn from_json_value_list(items: &Vec<Json>, idx: usize) -> (r: Result<
    Vec<crate::types::Value>,
    (),
>)
    requires
        idx <= items@.len(),
    ensures
        forall|vs: Seq<crate::types::ValueV>|
            (forall|k: int| 0 <= k < vs.len() ==> crate::types::wf_value_v(#[trigger] vs[k]))
            && crate::json::jv_seq(items@).skip(idx as int) == tree_value_seq(vs) ==> (
            r matches Ok(out) && crate::types::vw_value_seq(out@) == vs),
        r matches Ok(out) ==> (forall|k: int|
            0 <= k < out@.len() ==> crate::types::wf_value_v(
                #[trigger] crate::types::vw_value_seq(out@)[k],
            )),
    decreases items@.len() - idx,
{
    if idx >= items.len() {
        let out: Vec<crate::types::Value> = Vec::new();
        proof {
            assert forall|vs: Seq<crate::types::ValueV>|
                (forall|k: int| 0 <= k < vs.len() ==> crate::types::wf_value_v(#[trigger] vs[k]))
            && crate::json::jv_seq(items@).skip(idx as int) == tree_value_seq(vs) implies crate::types::vw_value_seq(
                out@,
            ) == vs by {
                assert(crate::json::jv_seq(items@).skip(idx as int).len() == 0);
                assert(vs.len() == 0);
                assert(crate::types::vw_value_seq(out@) =~= vs);
            }
        }
        return Ok(out);
    }
    proof {
        assert forall|vs: Seq<crate::types::ValueV>|
            (forall|k: int| 0 <= k < vs.len() ==> crate::types::wf_value_v(#[trigger] vs[k]))
            && crate::json::jv_seq(items@).skip(idx as int) == tree_value_seq(vs) implies ({
            &&& vs.len() >= 1
            &&& crate::types::wf_value_v(vs[0]) && jv(items@[idx as int]) == tree_value(vs[0])
            &&& (forall|k: int| 0 <= k < vs.drop_first().len() ==> crate::types::wf_value_v(#[trigger] vs.drop_first()[k]))
            &&& crate::json::jv_seq(items@).skip(idx as int + 1) == tree_value_seq(vs.drop_first())
        }) by {
            assert(tree_value_seq(vs).len() >= 1);
            assert(crate::json::jv_seq(items@).skip(idx as int)[0] == jv(items@[idx as int]));
            assert(tree_value_seq(vs)[0] == tree_value(vs[0]));
            assert forall|k: int| 0 <= k < vs.drop_first().len() implies crate::types::wf_value_v(
                #[trigger] vs.drop_first()[k],
            ) by {
                assert(vs.drop_first()[k] == vs[k + 1]);
            }
            assert(crate::json::jv_seq(items@).skip(idx as int).drop_first() =~= crate::json::jv_seq(
                items@,
            ).skip(idx as int + 1));
            assert(tree_value_seq(vs).drop_first() =~= tree_value_seq(vs.drop_first()));
        }
    }
    let head = match from_json_value(&items[idx]) {
        Ok(x) => x,
        Err(_) => {
            return Err(());
        },
    };
    let mut rest = match from_json_value_list(items, idx + 1) {
        Ok(x) => x,
        Err(_) => {
            return Err(());
        },
    };
    let ghost tail = rest@;
    rest.insert(0, head);
    proof {
        assert forall|vs: Seq<crate::types::ValueV>|
            (forall|k: int| 0 <= k < vs.len() ==> crate::types::wf_value_v(#[trigger] vs[k]))
            && crate::json::jv_seq(items@).skip(idx as int) == tree_value_seq(vs) implies crate::types::vw_value_seq(
            rest@,
        ) == vs by {
            assert(crate::types::vw_value(rest@[0]) == vs[0]);
            assert(crate::types::vw_value_seq(tail) == vs.drop_first());
            assert forall|k: int| 0 <= k < vs.len() implies crate::types::vw_value_seq(rest@)[k]
                == vs[k] by {
                if k >= 1 {
                    assert(crate::types::vw_value_seq(rest@)[k] == crate::types::vw_value(
                        rest@[k],
                    ));
                    assert(rest@[k] == tail[k - 1]);
                    assert(crate::types::vw_value_seq(tail)[k - 1] == crate::types::vw_value(
                        tail[k - 1],
                    ));
                    assert(vs.drop_first()[k - 1] == vs[k]);
                }
            }
            assert(crate::types::vw_value_seq(rest@) =~= vs);
        }
        assert forall|k: int| 0 <= k < rest@.len() implies crate::types::wf_value_v(
            #[trigger] crate::types::vw_value_seq(rest@)[k],
        ) by {
            assert(crate::types::vw_value_seq(rest@)[k] == crate::types::vw_value(rest@[k]));
            if k == 0 {
                assert(crate::types::vw_value_seq(rest@)[0] == crate::types::vw_value(
                    rest@[0],
                ));
            } else {
                assert(rest@[k] == tail[k - 1]);
                assert(crate::types::vw_value_seq(tail)[k - 1] == crate::types::vw_value(
                    tail[k - 1],
                ));
            }
        }
    }
    Ok(rest)
}

/// Decodes the elements of a JSON array as index records, from
/// `idx` on.
fn from_json_index_list(items: &Vec<Json>, idx: usize) -> (r: Result<
    Vec<crate::types::Index>,
    (),
>)
    requires
        idx <= items@.len(),
    ensures
        forall|vs: Seq<crate::types::IndexV>|
            (forall|k: int| 0 <= k < vs.len() ==> crate::types::wf_index_v(#[trigger] vs[k]))
            && crate::json::jv_seq(items@).skip(idx as int) == tree_index_seq(vs) ==> (
            r matches Ok(out) && crate::types::vw_index_seq(out@) == vs),
        r matches Ok(out) ==> (forall|k: int|
            0 <= k < out@.len() ==> crate::types::wf_index_v(
                #[trigger] crate::types::vw_index_seq(out@)[k],
            )),
    decreases items@.len() - idx,
{
    if idx >= items.len() {
        let out: Vec<crate::types::Index> = Vec::new();
        proof {
            assert forall|vs: Seq<crate::types::IndexV>|
                (forall|k: int| 0 <= k < vs.len() ==> crate::types::wf_index_v(#[trigger] vs[k]))
            && crate::json::jv_seq(items@).skip(idx as int) == tree_index_seq(vs) implies crate::types::vw_index_seq(
                out@,
            ) == vs by {
                assert(crate::json::jv_seq(items@).skip(idx as int).len() == 0);
                assert(vs.len() == 0);
                assert(crate::types::vw_index_seq(out@) =~= vs);
            }
        }
        return Ok(out);
    }
    proof {
        assert forall|vs: Seq<crate::types::IndexV>|
            (forall|k: int| 0 <= k < vs.len() ==> crate::types::wf_index_v(#[trigger] vs[k]))
            && crate::json::jv_seq(items@).skip(idx as int) == tree_index_seq(vs) implies ({
            &&& vs.len() >= 1
            &&& crate::types::wf_index_v(vs[0]) && jv(items@[idx as int]) == tree_index(vs[0])
            &&& (forall|k: int| 0 <= k < vs.drop_first().len() ==> crate::types::wf_index_v(#[trigger] vs.drop_first()[k]))
            &&& crate::json::jv_seq(items@).skip(idx as int + 1) == tree_index_seq(vs.drop_first())
        }) by {
            assert(tree_index_seq(vs).len() >= 1);
            assert(crate::json::jv_seq(items@).skip(idx as int)[0] == jv(items@[idx as int]));
            assert(tree_index_seq(vs)[0] == tree_index(vs[0]));
            assert forall|k: int| 0 <= k < vs.drop_first().len() implies crate::types::wf_index_v(
                #[trigger] vs.drop_first()[k],
            ) by {
                assert(vs.drop_first()[k] == vs[k + 1]);
            }
            assert(crate::json::jv_seq(items@).skip(idx as int).drop_first() =~= crate::json::jv_seq(
                items@,
            ).skip(idx as int + 1));
            assert(tree_index_seq(vs).drop_first() =~= tree_index_seq(vs.drop_first()));
        }
    }
    let head = match from_json_index(&items[idx]) {
        Ok(x) => x,
        Err(_) => {
            return Err(());
        },
    };
    let mut rest = match from_json_index_list(items, idx + 1) {
        Ok(x) => x,
        Err(_) => {
            return Err(());
        },
    };
    let ghost tail = rest@;
    rest.insert(0, head);
    proof {
        assert forall|vs: Seq<crate::types::IndexV>|
            (forall|k: int| 0 <= k < vs.len() ==> crate::types::wf_index_v(#[trigger] vs[k]))
            && crate::json::jv_seq(items@).skip(idx as int) == tree_index_seq(vs) implies crate::types::vw_index_seq(
            rest@,
        ) == vs by {
            assert(crate::types::vw_index(rest@[0]) == vs[0]);
            assert(crate::types::vw_index_seq(tail) == vs.drop_first());
            assert forall|k: int| 0 <= k < vs.len() implies crate::types::vw_index_seq(rest@)[k]
                == vs[k] by {
                if k >= 1 {
                    assert(crate::types::vw_index_seq(rest@)[k] == crate::types::vw_index(
                        rest@[k],
                    ));
                    assert(rest@[k] == tail[k - 1]);
                    assert(crate::types::vw_index_seq(tail)[k - 1] == crate::types::vw_index(
                        tail[k - 1],
                    ));
                    assert(vs.drop_first()[k - 1] == vs[k]);
                }
            }
            assert(crate::types::vw_index_seq(rest@) =~= vs);
        }
        assert forall|k: int| 0 <= k < rest@.len() implies crate::types::wf_index_v(
            #[trigger] crate::types::vw_index_seq(rest@)[k],
        ) by {
            assert(crate::types::vw_index_seq(rest@)[k] == crate::types::vw_index(rest@[k]));
            if k == 0 {
                assert(crate::types::vw_index_seq(rest@)[0] == crate::types::vw_index(
                    rest@[0],
                ));
            } else {
                assert(rest@[k] == tail[k - 1]);
                assert(crate::types::vw_index_seq(tail)[k - 1] == crate::types::vw_index(
                    tail[k - 1],
                ));
            }
        }
    }
    Ok(rest)
}

/// Decodes the elements of a JSON array as standard-comparison records, from
/// `idx` on.
fn from_json_standard_list(items: &Vec<Json>, idx: usize) -> (r: Result<
    Vec<crate::types::Standard>,
    (),
>)
    requires
        idx <= items@.len(),
    ensures
        forall|vs: Seq<crate::types::StandardV>|
            (forall|k: int| 0 <= k < vs.len() ==> crate::types::wf_standard_v(#[trigger] vs[k]))
            && crate::json::jv_seq(items@).skip(idx as int) == tree_standard_seq(vs) ==> (
            r matches Ok(out) && crate::types::vw_standard_seq(out@) == vs),
        r matches Ok(out) ==> (forall|k: int|
            0 <= k < out@.len() ==> crate::types::wf_standard_v(
                #[trigger] crate::types::vw_standard_seq(out@)[k],
            )),
    decreases items@.len() - idx,
{
    if idx >= items.len() {
        let out: Vec<crate::types::Standard> = Vec::new();
        proof {
            assert forall|vs: Seq<crate::types::StandardV>|
                (forall|k: int| 0 <= k < vs.len() ==> crate::types::wf_standard_v(#[trigger] vs[k]))
            && crate::json::jv_seq(items@).skip(idx as int) == tree_standard_seq(vs) implies crate::types::vw_standard_seq(
                out@,
            ) == vs by {
                assert(crate::json::jv_seq(items@).skip(idx as int).len() == 0);
                assert(vs.len() == 0);
                assert(crate::types::vw_standard_seq(out@) =~= vs);
            }
        }
        return Ok(out);
    }
    proof {
        assert forall|vs: Seq<crate::types::StandardV>|
            (forall|k: int| 0 <= k < vs.len() ==> crate::types::wf_standard_v(#[trigger] vs[k]))
            && crate::json::jv_seq(items@).skip(idx as int) == tree_standard_seq(vs) implies ({
            &&& vs.len() >= 1
            &&& crate::types::wf_standard_v(vs[0]) && jv(items@[idx as int]) == tree_standard(vs[0])
            &&& (forall|k: int| 0 <= k < vs.drop_first().len() ==> crate::types::wf_standard_v(#[trigger] vs.drop_first()[k]))
            &&& crate::json::jv_seq(items@).skip(idx as int + 1) == tree_standard_seq(vs.drop_first())
        }) by {
            assert(tree_standard_seq(vs).len() >= 1);
            assert(crate::json::jv_seq(items@).skip(idx as int)[0] == jv(items@[idx as int]));
            assert(tree_standard_seq(vs)[0] == tree_standard(vs[0]));
            assert forall|k: int| 0 <= k < vs.drop_first().len() implies crate::types::wf_standard_v(
                #[trigger] vs.drop_first()[k],
            ) by {
                assert(vs.drop_first()[k] == vs[k + 1]);
            }
            assert(crate::json::jv_seq(items@).skip(idx as int).drop_first() =~= crate::json::jv_seq(
                items@,
            ).skip(idx as int + 1));
            assert(tree_standard_seq(vs).drop_first() =~= tree_standard_seq(vs.drop_first()));
        }
    }
    let head = match from_json_standard(&items[idx]) {
        Ok(x) => x,
        Err(_) => {
            return Err(());
        },
    };
    let mut rest = match from_json_standard_list(items, idx + 1) {
        Ok(x) => x,
        Err(_) => {
            return Err(());
        },
    };
    let ghost tail = rest@;
    rest.insert(0, head);
    proof {
        assert forall|vs: Seq<crate::types::StandardV>|
            (forall|k: int| 0 <= k < vs.len() ==> crate::types::wf_standard_v(#[trigger] vs[k]))
            && crate::json::jv_seq(items@).skip(idx as int) == tree_standard_seq(vs) implies crate::types::vw_standard_seq(
            rest@,
        ) == vs by {
            assert(crate::types::vw_standard(rest@[0]) == vs[0]);
            assert(crate::types::vw_standard_seq(tail) == vs.drop_first());
            assert forall|k: int| 0 <= k < vs.len() implies crate::types::vw_standard_seq(rest@)[k]
                == vs[k] by {
                if k >= 1 {
                    assert(crate::types::vw_standard_seq(rest@)[k] == crate::types::vw_standard(
                        rest@[k],
                    ));
                    assert(rest@[k] == tail[k - 1]);
                    assert(crate::types::vw_standard_seq(tail)[k - 1] == crate::types::vw_standard(
                        tail[k - 1],
                    ));
                    assert(vs.drop_first()[k - 1] == vs[k]);
                }
            }
            assert(crate::types::vw_standard_seq(rest@) =~= vs);
        }
        assert forall|k: int| 0 <= k < rest@.len() implies crate::types::wf_standard_v(
            #[trigger] crate::types::vw_standard_seq(rest@)[k],
        ) by {
            assert(crate::types::vw_standard_seq(rest@)[k] == crate::types::vw_standard(rest@[k]));
            if k == 0 {
                assert(crate::types::vw_standard_seq(rest@)[0] == crate::types::vw_standard(
                    rest@[0],
                ));
            } else {
                assert(rest@[k] == tail[k - 1]);
                assert(crate::types::vw_standard_seq(tail)[k - 1] == crate::types::vw_standard(
                    tail[k - 1],
                ));
            }
        }
    }
    Ok(rest)
}

/// Decodes the elements of a JSON array as averaged-reading records, from
/// `idx` on.
fn from_json_averaged_list(items: &Vec<Json>, idx: usize) -> (r: Result<
    Vec<crate::types::AveragedValues>,
    (),
>)
    requires
        idx <= items@.len(),
    ensures
        forall|vs: Seq<crate::types::AveragedValuesV>|
            (forall|k: int| 0 <= k < vs.len() ==> crate::types::wf_averaged_v(#[trigger] vs[k]))
            && crate::json::jv_seq(items@).skip(idx as int) == tree_averaged_seq(vs) ==> (
            r matches Ok(out) && crate::types::vw_averaged_seq(out@) == vs),
        r matches Ok(out) ==> (forall|k: int|
            0 <= k < out@.len() ==> crate::types::wf_averaged_v(
                #[trigger] crate::types::vw_averaged_seq(out@)[k],
            )),
    decreases items@.len() - idx,
{
    if idx >= items.len() {
        let out: Vec<crate::types::AveragedValues> = Vec::new();
        proof {
            assert forall|vs: Seq<crate::types::AveragedValuesV>|
                (forall|k: int| 0 <= k < vs.len() ==> crate::types::wf_averaged_v(#[trigger] vs[k]))
            && crate::json::jv_seq(items@).skip(idx as int) == tree_averaged_seq(vs) implies crate::types::vw_averaged_seq(
                out@,
            ) == vs by {
                assert(crate::json::jv_seq(items@).skip(idx as int).len() == 0);
                assert(vs.len() == 0);
                assert(crate::types::vw_averaged_seq(out@) =~= vs);
            }
        }
        return Ok(out);
    }
    proof {
        assert forall|vs: Seq<crate::types::AveragedValuesV>|
            (forall|k: int| 0 <= k < vs.len() ==> crate::types::wf_averaged_v(#[trigger] vs[k]))
            && crate::json::jv_seq(items@).skip(idx as int) == tree_averaged_seq(vs) implies ({
            &&& vs.len() >= 1
            &&& crate::types::wf_averaged_v(vs[0]) && jv(items@[idx as int]) == tree_averaged(vs[0])
            &&& (forall|k: int| 0 <= k < vs.drop_first().len() ==> crate::types::wf_averaged_v(#[trigger] vs.drop_first()[k]))
            &&& crate::json::jv_seq(items@).skip(idx as int + 1) == tree_averaged_seq(vs.drop_first())
        }) by {
            assert(tree_averaged_seq(vs).len() >= 1);
            assert(crate::json::jv_seq(items@).skip(idx as int)[0] == jv(items@[idx as int]));
            assert(tree_averaged_seq(vs)[0] == tree_averaged(vs[0]));
            assert forall|k: int| 0 <= k < vs.drop_first().len() implies crate::types::wf_averaged_v(
                #[trigger] vs.drop_first()[k],
            ) by {
                assert(vs.drop_first()[k] == vs[k + 1]);
            }
            assert(crate::json::jv_seq(items@).skip(idx as int).drop_first() =~= crate::json::jv_seq(
                items@,
            ).skip(idx as int + 1));
            assert(tree_averaged_seq(vs).drop_first() =~= tree_averaged_seq(vs.drop_first()));
        }
    }
    let head = match from_json_averaged(&items[idx]) {
        Ok(x) => x,
        Err(_) => {
            return Err(());
        },
    };
    let mut rest = match from_json_averaged_list(items, idx + 1) {
        Ok(x) => x,
        Err(_) => {
            return Err(());
        },
    };
    let ghost tail = rest@;
    rest.insert(0, head);
    proof {
        assert forall|vs: Seq<crate::types::AveragedValuesV>|
            (forall|k: int| 0 <= k < vs.len() ==> crate::types::wf_averaged_v(#[trigger] vs[k]))
            && crate::json::jv_seq(items@).skip(idx as int) == tree_averaged_seq(vs) implies crate::types::vw_averaged_seq(
            rest@,
        ) == vs by {
            assert(crate::types::vw_averaged(rest@[0]) == vs[0]);
            assert(crate::types::vw_averaged_seq(tail) == vs.drop_first());
            assert forall|k: int| 0 <= k < vs.len() implies crate::types::vw_averaged_seq(rest@)[k]
                == vs[k] by {
                if k >= 1 {
                    assert(crate::types::vw_averaged_seq(rest@)[k] == crate::types::vw_averaged(
                        rest@[k],
                    ));
                    assert(rest@[k] == tail[k - 1]);
                    assert(crate::types::vw_averaged_seq(tail)[k - 1] == crate::types::vw_averaged(
                        tail[k - 1],
                    ));
                    assert(vs.drop_first()[k - 1] == vs[k]);
                }
            }
            assert(crate::types::vw_averaged_seq(rest@) =~= vs);
        }
        assert forall|k: int| 0 <= k < rest@.len() implies crate::types::wf_averaged_v(
            #[trigger] crate::types::vw_averaged_seq(rest@)[k],
        ) by {
            assert(crate::types::vw_averaged_seq(rest@)[k] == crate::types::vw_averaged(rest@[k]));
            if k == 0 {
                assert(crate::types::vw_averaged_seq(rest@)[0] == crate::types::vw_averaged(
                    rest@[0],
                ));
            } else {
                assert(rest@[k] == tail[k - 1]);
                assert(crate::types::vw_averaged_seq(tail)[k - 1] == crate::types::vw_averaged(
                    tail[k - 1],
                ));
            }
        }
    }
    Ok(rest)
}

/// Decodes the elements of a JSON array as installation records, from
/// `idx` on.
fn from_json_installation_list(items: &Vec<Json>, idx: usize) -> (r: Result<
    Vec<crate::types::Installation>,
    (),
>)
    requires
        idx <= items@.len(),
    ensures
        forall|vs: Seq<crate::types::InstallationV>|
            (forall|k: int| 0 <= k < vs.len() ==> crate::types::wf_installation_v(#[trigger] vs[k]))
            && crate::json::jv_seq(items@).skip(idx as int) == tree_installation_seq(vs) ==> (
            r matches Ok(out) && crate::types::vw_installation_seq(out@) == vs),
        r matches Ok(out) ==> (forall|k: int|
            0 <= k < out@.len() ==> crate::types::wf_installation_v(
                #[trigger] crate::types::vw_installation_seq(out@)[k],
            )),
    decreases items@.len() - idx,
{
    if idx >= items.len() {
        let out: Vec<crate::types::Installation> = Vec::new();
        proof {
            assert forall|vs: Seq<crate::types::InstallationV>|
                (forall|k: int| 0 <= k < vs.len() ==> crate::types::wf_installation_v(#[trigger] vs[k]))
            && crate::json::jv_seq(items@).skip(idx as int) == tree_installation_seq(vs) implies crate::types::vw_installation_seq(
                out@,
            ) == vs by {
                assert(crate::json::jv_seq(items@).skip(idx as int).len() == 0);
                assert(vs.len() == 0);
                assert(crate::types::vw_installation_seq(out@) =~= vs);
            }
        }
        return Ok(out);
    }
    proof {
        assert forall|vs: Seq<crate::types::InstallationV>|
            (forall|k: int| 0 <= k < vs.len() ==> crate::types::wf_installation_v(#[trigger] vs[k]))
            && crate::json::jv_seq(items@).skip(idx as int) == tree_installation_seq(vs) implies ({
            &&& vs.len() >= 1
            &&& crate::types::wf_installation_v(vs[0]) && jv(items@[idx as int]) == tree_installation(vs[0])
            &&& (forall|k: int| 0 <= k < vs.drop_first().len() ==> crate::types::wf_installation_v(#[trigger] vs.drop_first()[k]))
            &&& crate::json::jv_seq(items@).skip(idx as int + 1) == tree_installation_seq(vs.drop_first())
        }) by {
            assert(tree_installation_seq(vs).len() >= 1);
            assert(crate::json::jv_seq(items@).skip(idx as int)[0] == jv(items@[idx as int]));
            assert(tree_installation_seq(vs)[0] == tree_installation(vs[0]));
            assert forall|k: int| 0 <= k < vs.drop_first().len() implies crate::types::wf_installation_v(
                #[trigger] vs.drop_first()[k],
            ) by {
                assert(vs.drop_first()[k] == vs[k + 1]);
            }
            assert(crate::json::jv_seq(items@).skip(idx as int).drop_first() =~= crate::json::jv_seq(
                items@,
            ).skip(idx as int + 1));
            assert(tree_installation_seq(vs).drop_first() =~= tree_installation_seq(vs.drop_first()));
        }
    }
    let head = match from_json_installation(&items[idx]) {
        Ok(x) => x,
        Err(_) => {
            return Err(());
        },
    };
    let mut rest = match from_json_installation_list(items, idx + 1) {
        Ok(x) => x,
        Err(_) => {
            return Err(());
        },
    };
    let ghost tail = rest@;
    rest.insert(0, head);
    proof {
        assert forall|vs: Seq<crate::types::InstallationV>|
            (forall|k: int| 0 <= k < vs.len() ==> crate::types::wf_installation_v(#[trigger] vs[k]))
            && crate::json::jv_seq(items@).skip(idx as int) == tree_installation_seq(vs) implies crate::types::vw_installation_seq(
            rest@,
        ) == vs by {
            assert(crate::types::vw_installation(rest@[0]) == vs[0]);
            assert(crate::types::vw_installation_seq(tail) == vs.drop_first());
            assert forall|k: int| 0 <= k < vs.len() implies crate::types::vw_installation_seq(rest@)[k]
                == vs[k] by {
                if k >= 1 {
                    assert(crate::types::vw_installation_seq(rest@)[k] == crate::types::vw_installation(
                        rest@[k],
                    ));
                    assert(rest@[k] == tail[k - 1]);
                    assert(crate::types::vw_installation_seq(tail)[k - 1] == crate::types::vw_installation(
                        tail[k - 1],
                    ));
                    assert(vs.drop_first()[k - 1] == vs[k]);
                }
            }
            assert(crate::types::vw_installation_seq(rest@) =~= vs);
        }
        assert forall|k: int| 0 <= k < rest@.len() implies crate::types::wf_installation_v(
            #[trigger] crate::types::vw_installation_seq(rest@)[k],
        ) by {
            assert(crate::types::vw_installation_seq(rest@)[k] == crate::types::vw_installation(rest@[k]));
            if k == 0 {
                assert(crate::types::vw_installation_seq(rest@)[0] == crate::types::vw_installation(
                    rest@[0],
                ));
            } else {
                assert(rest@[k] == tail[k - 1]);
                assert(crate::types::vw_installation_seq(tail)[k - 1] == crate::types::vw_installation(
                    tail[k - 1],
                ));
            }
        }
    }
    Ok(rest)
}

/// Decodes the elements of a JSON array as index-type records, from
/// `idx` on.
fn from_json_index_type_list(items: &Vec<Json>, idx: usize) -> (r: Result<
    Vec<crate::types::IndexType>,
    (),
>)
    requires
        idx <= items@.len(),
    ensures
        forall|vs: Seq<crate::types::IndexTypeV>|
            crate::json::jv_seq(items@).skip(idx as int) == tree_index_type_seq(vs) ==> (
            r matches Ok(out) && crate::types::vw_index_type_seq(out@) == vs),
    decreases items@.len() - idx,
{
    if idx >= items.len() {
        let out: Vec<crate::types::IndexType> = Vec::new();
        proof {
            assert forall|vs: Seq<crate::types::IndexTypeV>|
                crate::json::jv_seq(items@).skip(idx as int) == tree_index_type_seq(vs) implies crate::types::vw_index_type_seq(
                out@,
            ) == vs by {
                assert(crate::json::jv_seq(items@).skip(idx as int).len() == 0);
                assert(vs.len() == 0);
                assert(crate::types::vw_index_type_seq(out@) =~= vs);
            }
        }
        return Ok(out);
    }
    proof {
        assert forall|vs: Seq<crate::types::IndexTypeV>|
            crate::json::jv_seq(items@).skip(idx as int) == tree_index_type_seq(vs) implies ({
            &&& vs.len() >= 1
            &&& jv(items@[idx as int]) == tree_index_type(vs[0])
            &&& crate::json::jv_seq(items@).skip(idx as int + 1) == tree_index_type_seq(vs.drop_first())
        }) by {
            assert(tree_index_type_seq(vs).len() >= 1);
            assert(crate::json::jv_seq(items@).skip(idx as int)[0] == jv(items@[idx as int]));
            assert(tree_index_type_seq(vs)[0] == tree_index_type(vs[0]));
            assert(crate::json::jv_seq(items@).skip(idx as int).drop_first() =~= crate::json::jv_seq(
                items@,
            ).skip(idx as int + 1));
            assert(tree_index_type_seq(vs).drop_first() =~= tree_index_type_seq(vs.drop_first()));
        }
    }
    let head = match from_json_index_type(&items[idx]) {
        Ok(x) => x,
        Err(_) => {
            return Err(());
        },
    };
    let mut rest = match from_json_index_type_list(items, idx + 1) {
        Ok(x) => x,
        Err(_) => {
            return Err(());
        },
    };
    let ghost tail = rest@;
    rest.insert(0, head);
    proof {
        assert forall|vs: Seq<crate::types::IndexTypeV>|
            crate::json::jv_seq(items@).skip(idx as int) == tree_index_type_seq(vs) implies crate::types::vw_index_type_seq(
            rest@,
        ) == vs by {
            assert(crate::types::vw_index_type(rest@[0]) == vs[0]);
            assert(crate::types::vw_index_type_seq(tail) == vs.drop_first());
            assert forall|k: int| 0 <= k < vs.len() implies crate::types::vw_index_type_seq(rest@)[k]
                == vs[k] by {
                if k >= 1 {
                    assert(crate::types::vw_index_type_seq(rest@)[k] == crate::types::vw_index_type(
                        rest@[k],
                    ));
                    assert(rest@[k] == tail[k - 1]);
                    assert(crate::types::vw_index_type_seq(tail)[k - 1] == crate::types::vw_index_type(
                        tail[k - 1],
                    ));
                    assert(vs.drop_first()[k - 1] == vs[k]);
                }
            }
            assert(crate::types::vw_index_type_seq(rest@) =~= vs);
        }
    }
    Ok(rest)
}

/// Decodes the elements of a JSON array as measurement-type records, from
/// `idx` on.
fn from_json_measurement_type_list(items: &Vec<Json>, idx: usize) -> (r: Result<
    Vec<crate::types::MeasurementType>,
    (),
>)
    requires
        idx <= items@.len(),
    ensures
        forall|vs: Seq<crate::types::MeasurementTypeV>|
            crate::json::jv_seq(items@).skip(idx as int) == tree_measurement_type_seq(vs) ==> (
            r matches Ok(out) && crate::types::vw_measurement_type_seq(out@) == vs),
    decreases items@.len() - idx,
{
    if idx >= items.len() {
        let out: Vec<crate::types::MeasurementType> = Vec::new();
        proof {
            assert forall|vs: Seq<crate::types::MeasurementTypeV>|
                crate::json::jv_seq(items@).skip(idx as int) == tree_measurement_type_seq(vs) implies crate::types::vw_measurement_type_seq(
                out@,
            ) == vs by {
                assert(crate::json::jv_seq(items@).skip(idx as int).len() == 0);
                assert(vs.len() == 0);
                assert(crate::types::vw_measurement_type_seq(out@) =~= vs);
            }
        }
        return Ok(out);
    }
    proof {
        assert forall|vs: Seq<crate::types::MeasurementTypeV>|
            crate::json::jv_seq(items@).skip(idx as int) == tree_measurement_type_seq(vs) implies ({
            &&& vs.len() >= 1
            &&& jv(items@[idx as int]) == tree_measurement_type(vs[0])
            &&& crate::json::jv_seq(items@).skip(idx as int + 1) == tree_measurement_type_seq(vs.drop_first())
        }) by {
            assert(tree_measurement_type_seq(vs).len() >= 1);
            assert(crate::json::jv_seq(items@).skip(idx as int)[0] == jv(items@[idx as int]));
            assert(tree_measurement_type_seq(vs)[0] == tree_measurement_type(vs[0]));
            assert(crate::json::jv_seq(items@).skip(idx as int).drop_first() =~= crate::json::jv_seq(
                items@,
            ).skip(idx as int + 1));
            assert(tree_measurement_type_seq(vs).drop_first() =~= tree_measurement_type_seq(vs.drop_first()));
        }
    }
    let head = match from_json_measurement_type(&items[idx]) {
        Ok(x) => x,
        Err(_) => {
            return Err(());
        },
    };
    let mut rest = match from_json_measurement_type_list(items, idx + 1) {
        Ok(x) => x,
        Err(_) => {
            return Err(());
        },
    };
    let ghost tail = rest@;
    rest.insert(0, head);
    proof {
        assert forall|vs: Seq<crate::types::MeasurementTypeV>|
            crate::json::jv_seq(items@).skip(idx as int) == tree_measurement_type_seq(vs) implies crate::types::vw_measurement_type_seq(
            rest@,
        ) == vs by {
            assert(crate::types::vw_measurement_type(rest@[0]) == vs[0]);
            assert(crate::types::vw_measurement_type_seq(tail) == vs.drop_first());
            assert forall|k: int| 0 <= k < vs.len() implies crate::types::vw_measurement_type_seq(rest@)[k]
                == vs[k] by {
                if k >= 1 {
                    assert(crate::types::vw_measurement_type_seq(rest@)[k] == crate::types::vw_measurement_type(
                        rest@[k],
                    ));
                    assert(rest@[k] == tail[k - 1]);
                    assert(crate::types::vw_measurement_type_seq(tail)[k - 1] == crate::types::vw_measurement_type(
                        tail[k - 1],
                    ));
                    assert(vs.drop_first()[k - 1] == vs[k]);
                }
            }
            assert(crate::types::vw_measurement_type_seq(rest@) =~= vs);
        }
    }
    Ok(rest)
}



// ---------------------------------------------------------------------------
// Building trees from records.
// ---------------------------------------------------------------------------

/// Appending one member appends its mathematical value.
proof fn lemma_jv_mem_snoc(s: Seq<Member>, m: Member)
    ensures
        jv_mem_seq(s.push(m)) =~= jv_mem_seq(s) + seq![(m.key@, jv(m.value))],
{
    assert forall|k: int| 0 <= k < s.len() + 1 implies jv_mem_seq(s.push(m))[k] == (jv_mem_seq(
        s,
    ) + seq![(m.key@, jv(m.value))])[k] by {
        if k < s.len() {
            assert(s.push(m)[k] == s[k]);
        } else {
            assert(s.push(m)[k] == m);
        }
    }
}

/// One member, with its key spelled out.
fn make_member(key: &str, value: Json) -> (r: Member)
    ensures
        r.key@ == key@,
        r.value == value,
{
    Member { key: chars_of(key), value }
}


/// Builds the canonical tree of a value.
fn json_of_value(v: &crate::types::Value) -> (r: Json)
    ensures
        jv(r) == tree_value(crate::types::vw_value(*v)),
{
    let mut ms: Vec<Member> = Vec::new();
    let ghost gv = crate::types::vw_value(*v);
    proof {
        assert(jv_mem_seq(ms@) =~= Seq::<(Seq<char>, JsonV)>::empty());
    }
    let ghost before_name = ms@;
    match &v.name {
        Some(x) => {
            let m = make_member("name", Json::Str(crate::strutil::chars_of(x.as_str())));
            let ghost gm = m;
            ms.push(m);
            proof {
                lemma_jv_mem_snoc(before_name, gm);
            }
        },
        None => {},
    }
    proof {
        assert(jv_mem_seq(ms@) =~= jv_mem_seq(before_name) + m_opt_str("name"@, gv.name));
    }
    let ghost before_value = ms@;
    match &v.value {
        Some(x) => {
            let m = make_member("value", Json::Num(x.chars().clone()));
            let ghost gm = m;
            ms.push(m);
            proof {
                lemma_jv_mem_snoc(before_value, gm);
            }
        },
        None => {},
    }
    proof {
        assert(jv_mem_seq(ms@) =~= jv_mem_seq(before_value) + m_opt_num("value"@, gv.value));
    }
    proof {
        assert(jv_mem_seq(ms@) =~= m_opt_str("name"@, gv.name) + m_opt_num("value"@, gv.value));
    }
    Json::Obj(ms)
}

/// Builds the canonical tree of a index.
fn json_of_index(ix: &crate::types::Index) -> (r: Json)
    ensures
        jv(r) == tree_index(crate::types::vw_index(*ix)),
{
    let mut ms: Vec<Member> = Vec::new();
    let ghost gv = crate::types::vw_index(*ix);
    proof {
        assert(jv_mem_seq(ms@) =~= Seq::<(Seq<char>, JsonV)>::empty());
    }
    let ghost before_name = ms@;
    match &ix.name {
        Some(x) => {
            let m = make_member("name", Json::Str(crate::strutil::chars_of(x.as_str())));
            let ghost gm = m;
            ms.push(m);
            proof {
                lemma_jv_mem_snoc(before_name, gm);
            }
        },
        None => {},
    }
    proof {
        assert(jv_mem_seq(ms@) =~= jv_mem_seq(before_name) + m_opt_str("name"@, gv.name));
    }
    let ghost before_value = ms@;
    match &ix.value {
        Some(x) => {
            let m = make_member("value", Json::Num(x.chars().clone()));
            let ghost gm = m;
            ms.push(m);
            proof {
                lemma_jv_mem_snoc(before_value, gm);
            }
        },
        None => {},
    }
    proof {
        assert(jv_mem_seq(ms@) =~= jv_mem_seq(before_value) + m_opt_num("value"@, gv.value));
    }
    let ghost before_level = ms@;
    match &ix.level {
        Some(x) => {
            let m = make_member("level", Json::Str(crate::strutil::chars_of(x.as_str())));
            let ghost gm = m;
            ms.push(m);
            proof {
                lemma_jv_mem_snoc(before_level, gm);
            }
        },
        None => {},
    }
    proof {
        assert(jv_mem_seq(ms@) =~= jv_mem_seq(before_level) + m_opt_str("level"@, gv.level));
    }
    let ghost before_description = ms@;
    match &ix.description {
        Some(x) => {
            let m = make_member("description", Json::Str(crate::strutil::chars_of(x.as_str())));
            let ghost gm = m;
            ms.push(m);
            proof {
                lemma_jv_mem_snoc(before_description, gm);
            }
        },
        None => {},
    }
    proof {
        assert(jv_mem_seq(ms@) =~= jv_mem_seq(before_description) + m_opt_str("description"@, gv.description));
    }
    let ghost before_advice = ms@;
    match &ix.advice {
        Some(x) => {
            let m = make_member("advice", Json::Str(crate::strutil::chars_of(x.as_str())));
            let ghost gm = m;
            ms.push(m);
            proof {
                lemma_jv_mem_snoc(before_advice, gm);
            }
        },
        None => {},
    }
    proof {
        assert(jv_mem_seq(ms@) =~= jv_mem_seq(before_advice) + m_opt_str("advice"@, gv.advice));
    }
    let ghost before_color = ms@;
    match &ix.color {
        Some(x) => {
            let m = make_member("color", Json::Str(crate::strutil::chars_of(x.as_str())));
            let ghost gm = m;
            ms.push(m);
            proof {
                lemma_jv_mem_snoc(before_color, gm);
            }
        },
        None => {},
    }
    proof {
        assert(jv_mem_seq(ms@) =~= jv_mem_seq(before_color) + m_opt_str("color"@, gv.color));
    }
    proof {
        assert(jv_mem_seq(ms@) =~= m_opt_str("name"@, gv.name) + m_opt_num("value"@, gv.value) + m_opt_str("level"@, gv.level) + m_opt_str("description"@, gv.description) + m_opt_str("advice"@, gv.advice) + m_opt_str("color"@, gv.color));
    }
    Json::Obj(ms)
}

/// Builds the canonical tree of a standard.
fn json_of_standard(st: &crate::types::Standard) -> (r: Json)
    ensures
        jv(r) == tree_standard(crate::types::vw_standard(*st)),
{
    let mut ms: Vec<Member> = Vec::new();
    let ghost gv = crate::types::vw_standard(*st);
    proof {
        assert(jv_mem_seq(ms@) =~= Seq::<(Seq<char>, JsonV)>::empty());
    }
    let ghost before_name = ms@;
    match &st.name {
        Some(x) => {
            let m = make_member("name", Json::Str(crate::strutil::chars_of(x.as_str())));
            let ghost gm = m;
            ms.push(m);
            proof {
                lemma_jv_mem_snoc(before_name, gm);
            }
        },
        None => {},
    }
    proof {
        assert(jv_mem_seq(ms@) =~= jv_mem_seq(before_name) + m_opt_str("name"@, gv.name));
    }
    let ghost before_pollutant = ms@;
    match &st.pollutant {
        Some(x) => {
            let m = make_member("pollutant", Json::Str(crate::strutil::chars_of(x.as_str())));
            let ghost gm = m;
            ms.push(m);
            proof {
                lemma_jv_mem_snoc(before_pollutant, gm);
            }
        },
        None => {},
    }
    proof {
        assert(jv_mem_seq(ms@) =~= jv_mem_seq(before_pollutant) + m_opt_str("pollutant"@, gv.pollutant));
    }
    let ghost before_limit = ms@;
    match &st.limit {
        Some(x) => {
            let m = make_member("limit", Json::Num(x.chars().clone()));
            let ghost gm = m;
            ms.push(m);
            proof {
                lemma_jv_mem_snoc(before_limit, gm);
            }
        },
        None => {},
    }
    proof {
        assert(jv_mem_seq(ms@) =~= jv_mem_seq(before_limit) + m_opt_num("limit"@, gv.limit));
    }
    let ghost before_percent = ms@;
    match &st.percent {
        Some(x) => {
            let m = make_member("percent", Json::Num(x.chars().clone()));
            let ghost gm = m;
            ms.push(m);
            proof {
                lemma_jv_mem_snoc(before_percent, gm);
            }
        },
        None => {},
    }
    proof {
        assert(jv_mem_seq(ms@) =~= jv_mem_seq(before_percent) + m_opt_num("percent"@, gv.percent));
    }
    proof {
        assert(jv_mem_seq(ms@) =~= m_opt_str("name"@, gv.name) + m_opt_str("pollutant"@, gv.pollutant) + m_opt_num("limit"@, gv.limit) + m_opt_num("percent"@, gv.percent));
    }
    Json::Obj(ms)
}

/// Builds the canonical trees of a list of readings, from
/// `idx` on.
fn json_of_value_list(items: &Vec<crate::types::Value>, idx: usize) -> (r: Vec<Json>)
    requires
        idx <= items@.len(),
    ensures
        crate::json::jv_seq(r@) == tree_value_seq(crate::types::vw_value_seq(items@).skip(idx as int)),
    decreases items@.len() - idx,
{
    let ghost vws = crate::types::vw_value_seq(items@);
    if idx >= items.len() {
        let out: Vec<Json> = Vec::new();
        proof {
            assert(vws.skip(idx as int).len() == 0);
            assert(crate::json::jv_seq(out@) =~= Seq::<JsonV>::empty());
            assert(crate::json::jv_seq(out@) =~= tree_value_seq(vws.skip(idx as int)));
        }
        return out;
    }
    let head = json_of_value(&items[idx]);
    let mut rest = json_of_value_list(items, idx + 1);
    let ghost tail = rest@;
    rest.insert(0, head);
    proof {
        assert(crate::json::jv_seq(rest@) =~= seq![jv(rest@[0])] + crate::json::jv_seq(tail));
        assert(vws.skip(idx as int)[0] == crate::types::vw_value(items@[idx as int]));
        assert(vws.skip(idx as int).drop_first() =~= vws.skip(idx as int + 1));
        assert(tree_value_seq(vws.skip(idx as int)) == seq![tree_value(vws.skip(idx as int)[0])] + tree_value_seq(vws.skip(idx as int).drop_first()));
        assert(crate::json::jv_seq(rest@) =~= tree_value_seq(vws.skip(idx as int)));
    }
    rest
}

/// Builds the canonical trees of a list of index records, from
/// `idx` on.
fn json_of_index_list(items: &Vec<crate::types::Index>, idx: usize) -> (r: Vec<Json>)
    requires
        idx <= items@.len(),
    ensures
        crate::json::jv_seq(r@) == tree_index_seq(crate::types::vw_index_seq(items@).skip(idx as int)),
    decreases items@.len() - idx,
{
    let ghost vws = crate::types::vw_index_seq(items@);
    if idx >= items.len() {
        let out: Vec<Json> = Vec::new();
        proof {
            assert(vws.skip(idx as int).len() == 0);
            assert(crate::json::jv_seq(out@) =~= Seq::<JsonV>::empty());
            assert(crate::json::jv_seq(out@) =~= tree_index_seq(vws.skip(idx as int)));
        }
        return out;
    }
    let head = json_of_index(&items[idx]);
    let mut rest = json_of_index_list(items, idx + 1);
    let ghost tail = rest@;
    rest.insert(0, head);
    proof {
        assert(crate::json::jv_seq(rest@) =~= seq![jv(rest@[0])] + crate::json::jv_seq(tail));
        assert(vws.skip(idx as int)[0] == crate::types::vw_index(items@[idx as int]));
        assert(vws.skip(idx as int).drop_first() =~= vws.skip(idx as int + 1));
        assert(tree_index_seq(vws.skip(idx as int)) == seq![tree_index(vws.skip(idx as int)[0])] + tree_index_seq(vws.skip(idx as int).drop_first()));
        assert(crate::json::jv_seq(rest@) =~= tree_index_seq(vws.skip(idx as int)));
    }
    rest
}

/// Builds the canonical trees of a list of standard comparisons, from
/// `idx` on.
fn json_of_standard_list(items: &Vec<crate::types::Standard>, idx: usize) -> (r: Vec<Json>)
    requires
        idx <= items@.len(),
    ensures
        crate::json::jv_seq(r@) == tree_standard_seq(crate::types::vw_standard_seq(items@).skip(idx as int)),
    decreases items@.len() - idx,
{
    let ghost vws = crate::types::vw_standard_seq(items@);
    if idx >= items.len() {
        let out: Vec<Json> = Vec::new();
        proof {
            assert(vws.skip(idx as int).len() == 0);
            assert(crate::json::jv_seq(out@) =~= Seq::<JsonV>::empty());
            assert(crate::json::jv_seq(out@) =~= tree_standard_seq(vws.skip(idx as int)));
        }
        return out;
    }
    let head = json_of_standard(&items[idx]);
    let mut rest = json_of_standard_list(items, idx + 1);
    let ghost tail = rest@;
    rest.insert(0, head);
    proof {
        assert(crate::json::jv_seq(rest@) =~= seq![jv(rest@[0])] + crate::json::jv_seq(tail));
        assert(vws.skip(idx as int)[0] == crate::types::vw_standard(items@[idx as int]));
        assert(vws.skip(idx as int).drop_first() =~= vws.skip(idx as int + 1));
        assert(tree_standard_seq(vws.skip(idx as int)) == seq![tree_standard(vws.skip(idx as int)[0])] + tree_standard_seq(vws.skip(idx as int).drop_first()));
        assert(crate::json::jv_seq(rest@) =~= tree_standard_seq(vws.skip(idx as int)));
    }
    rest
}

/// Builds the canonical trees of a list of averaged readings, from
/// `idx` on.
fn json_of_averaged_list(items: &Vec<crate::types::AveragedValues>, idx: usize) -> (r: Vec<Json>)
    requires
        idx <= items@.len(),
    ensures
        crate::json::jv_seq(r@) == tree_averaged_seq(crate::types::vw_averaged_seq(items@).skip(idx as int)),
    decreases items@.len() - idx,
{
    let ghost vws = crate::types::vw_averaged_seq(items@);
    if idx >= items.len() {
        let out: Vec<Json> = Vec::new();
        proof {
            assert(vws.skip(idx as int).len() == 0);
            assert(crate::json::jv_seq(out@) =~= Seq::<JsonV>::empty());
            assert(crate::json::jv_seq(out@) =~= tree_averaged_seq(vws.skip(idx as int)));
        }
        return out;
    }
    let head = json_of_averaged(&items[idx]);
    let mut rest = json_of_averaged_list(items, idx + 1);
    let ghost tail = rest@;
    rest.insert(0, head);
    proof {
        assert(crate::json::jv_seq(rest@) =~= seq![jv(rest@[0])] + crate::json::jv_seq(tail));
        assert(vws.skip(idx as int)[0] == crate::types::vw_averaged(items@[idx as int]));
        assert(vws.skip(idx as int).drop_first() =~= vws.skip(idx as int + 1));
        assert(tree_averaged_seq(vws.skip(idx as int)) == seq![tree_averaged(vws.skip(idx as int)[0])] + tree_averaged_seq(vws.skip(idx as int).drop_first()));
        assert(crate::json::jv_seq(rest@) =~= tree_averaged_seq(vws.skip(idx as int)));
    }
    rest
}

/// Builds the canonical tree of an averaged reading.
fn json_of_averaged(a: &crate::types::AveragedValues) -> (r: Json)
    ensures
        jv(r) == tree_averaged(crate::types::vw_averaged(*a)),
{
    let mut ms: Vec<Member> = Vec::new();
    let ghost gv = crate::types::vw_averaged(*a);
    proof {
        assert(jv_mem_seq(ms@) =~= Seq::<(Seq<char>, JsonV)>::empty());
    }
    let ghost before_from = ms@;
    match &a.from_date_time {
        Some(x) => {
            let m = make_member("fromDateTime", Json::Str(crate::strutil::chars_of(x.as_str())));
            let ghost gm = m;
            ms.push(m);
            proof {
                lemma_jv_mem_snoc(before_from, gm);
            }
        },
        None => {},
    }
    proof {
        assert(jv_mem_seq(ms@) =~= jv_mem_seq(before_from) + m_opt_str(
            "fromDateTime"@,
            gv.from_date_time,
        ));
    }
    let ghost before_till = ms@;
    match &a.till_date_time {
        Some(x) => {
            let m = make_member("tillDateTime", Json::Str(crate::strutil::chars_of(x.as_str())));
            let ghost gm = m;
            ms.push(m);
            proof {
                lemma_jv_mem_snoc(before_till, gm);
            }
        },
        None => {},
    }
    proof {
        assert(jv_mem_seq(ms@) =~= jv_mem_seq(before_till) + m_opt_str(
            "tillDateTime"@,
            gv.till_date_time,
        ));
    }
    let ghost before_values = ms@;
    let values = json_of_value_list(&a.values, 0);
    let mv = make_member("values", Json::Arr(values));
    let ghost gmv = mv;
    ms.push(mv);
    proof {
        lemma_jv_mem_snoc(before_values, gmv);
        assert(crate::types::vw_value_seq(a.values@).skip(0) =~= crate::types::vw_value_seq(
            a.values@,
        ));
        assert(jv_mem_seq(ms@) =~= jv_mem_seq(before_values) + m_one("values"@, JsonV::Arr(
            tree_value_seq(gv.values),
        )));
    }
    let ghost before_indexes = ms@;
    let indexes = json_of_index_list(&a.indexes, 0);
    let mi = make_member("indexes", Json::Arr(indexes));
    let ghost gmi = mi;
    ms.push(mi);
    proof {
        lemma_jv_mem_snoc(before_indexes, gmi);
        assert(crate::types::vw_index_seq(a.indexes@).skip(0) =~= crate::types::vw_index_seq(
            a.indexes@,
        ));
        assert(jv_mem_seq(ms@) =~= jv_mem_seq(before_indexes) + m_one("indexes"@, JsonV::Arr(
            tree_index_seq(gv.indexes),
        )));
    }
    let ghost before_standards = ms@;
    let standards = json_of_standard_list(&a.standards, 0);
    let mst = make_member("standards", Json::Arr(standards));
    let ghost gmst = mst;
    ms.push(mst);
    proof {
        lemma_jv_mem_snoc(before_standards, gmst);
        assert(crate::types::vw_standard_seq(a.standards@).skip(0)
            =~= crate::types::vw_standard_seq(a.standards@));
        assert(jv_mem_seq(ms@) =~= jv_mem_seq(before_standards) + m_one("standards"@, JsonV::Arr(
            tree_standard_seq(gv.standards),
        )));
    }
    proof {
        assert(jv_mem_seq(ms@) =~= m_opt_str("fromDateTime"@, gv.from_date_time) + m_opt_str(
            "tillDateTime"@,
            gv.till_date_time,
        ) + m_one("values"@, JsonV::Arr(tree_value_seq(gv.values))) + m_one(
            "indexes"@,
            JsonV::Arr(tree_index_seq(gv.indexes)),
        ) + m_one("standards"@, JsonV::Arr(tree_standard_seq(gv.standards))));
    }
    Json::Obj(ms)
}

/// Builds the canonical tree of a measurements bundle.
fn json_of_measurements(m: &crate::types::Measurements) -> (r: Json)
    ensures
        jv(r) == tree_measurements(crate::types::vw_measurements(*m)),
{
    let mut ms: Vec<Member> = Vec::new();
    let ghost gv = crate::types::vw_measurements(*m);
    proof {
        assert(jv_mem_seq(ms@) =~= Seq::<(Seq<char>, JsonV)>::empty());
    }
    let ghost before_current = ms@;
    match &m.current {
        Some(a) => {
            let mc = make_member("current", json_of_averaged(a));
            let ghost gmc = mc;
            ms.push(mc);
            proof {
                lemma_jv_mem_snoc(before_current, gmc);
            }
        },
        None => {},
    }
    proof {
        assert(jv_mem_seq(ms@) =~= jv_mem_seq(before_current) + m_opt("current"@, match gv.current {
            Some(a) => Some(tree_averaged(a)),
            None => None,
        }));
    }
    let ghost before_history = ms@;
    let history = json_of_averaged_list(&m.history, 0);
    let mh = make_member("history", Json::Arr(history));
    let ghost gmh = mh;
    ms.push(mh);
    proof {
        lemma_jv_mem_snoc(before_history, gmh);
        assert(crate::types::vw_averaged_seq(m.history@).skip(0)
            =~= crate::types::vw_averaged_seq(m.history@));
        assert(jv_mem_seq(ms@) =~= jv_mem_seq(before_history) + m_one("history"@, JsonV::Arr(
            tree_averaged_seq(gv.history),
        )));
    }
    let ghost before_forecast = ms@;
    let forecast = json_of_averaged_list(&m.forecast, 0);
    let mf = make_member("forecast", Json::Arr(forecast));
    let ghost gmf = mf;
    ms.push(mf);
    proof {
        lemma_jv_mem_snoc(before_forecast, gmf);
        assert(crate::types::vw_averaged_seq(m.forecast@).skip(0)
            =~= crate::types::vw_averaged_seq(m.forecast@));
        assert(jv_mem_seq(ms@) =~= jv_mem_seq(before_forecast) + m_one("forecast"@, JsonV::Arr(
            tree_averaged_seq(gv.forecast),
        )));
    }
    proof {
        assert(jv_mem_seq(ms@) =~= m_opt("current"@, match gv.current {
            Some(a) => Some(tree_averaged(a)),
            None => None,
        }) + m_one("history"@, JsonV::Arr(tree_averaged_seq(gv.history))) + m_one(
            "forecast"@,
            JsonV::Arr(tree_averaged_seq(gv.forecast)),
        ));
    }
    Json::Obj(ms)
}



// ---------------------------------------------------------------------------
// Canonical trees of well-formed mirrors are well-formed values.
// ---------------------------------------------------------------------------

/// A concatenation of member lists is well formed exactly when both parts
/// are.
proof fn lemma_wf_members_app(a: Seq<(Seq<char>, JsonV)>, b: Seq<(Seq<char>, JsonV)>)
    ensures
        crate::json::wf_members(a + b) <==> (crate::json::wf_members(a)
            && crate::json::wf_members(b)),
    decreases a.len(),
{
    if a.len() == 0 {
        assert(a + b =~= b);
    } else {
        lemma_wf_members_app(a.drop_first(), b);
        assert((a + b).drop_first() =~= a.drop_first() + b);
        assert((a + b)[0] == a[0]);
    }
}

/// A one-member list is well formed exactly when its value is.
proof fn lemma_wf_members_one(k: Seq<char>, v: JsonV)
    ensures
        crate::json::wf_members(seq![(k, v)]) <==> crate::json::wf_v(v),
{
    assert(seq![(k, v)].drop_first() =~= Seq::<(Seq<char>, JsonV)>::empty());
    assert(crate::json::wf_members(Seq::<(Seq<char>, JsonV)>::empty()));
    assert(seq![(k, v)][0].1 == v);
}

/// The members of an optional string field are well formed.
proof fn lemma_wf_m_opt_str(k: Seq<char>, o: Option<Seq<char>>)
    ensures
        crate::json::wf_members(m_opt_str(k, o)),
{
    match o {
        Some(sv) => {
            lemma_wf_members_one(k, JsonV::Str(sv));
        },
        None => {},
    }
}

/// The members of a well-formed optional numeric field are well formed.
proof fn lemma_wf_m_opt_num(k: Seq<char>, o: Option<Seq<char>>)
    requires
        crate::types::wf_opt_num(o),
    ensures
        crate::json::wf_members(m_opt_num(k, o)),
{
    match o {
        Some(t) => {
            lemma_wf_members_one(k, JsonV::Num(t));
        },
        None => {},
    }
}

/// The members of an optional whole-number field are well formed.
proof fn lemma_wf_m_opt_int(k: Seq<char>, o: Option<i32>)
    ensures
        crate::json::wf_members(m_opt_int(k, o)),
{
    match o {
        Some(n) => {
            crate::digits::lemma_wf_int_seq(n as int);
            lemma_wf_members_one(k, JsonV::Num(int_seq(n as int)));
        },
        None => {},
    }
}

/// The canonical tree of a well-formed reading is well formed.
proof fn lemma_tree_value_wf(v: crate::types::ValueV)
    requires
        crate::types::wf_value_v(v),
    ensures
        crate::json::wf_v(tree_value(v)),
{
    lemma_wf_m_opt_str("name"@, v.name);
    lemma_wf_m_opt_num("value"@, v.value);
    lemma_wf_members_app(m_opt_str("name"@, v.name), m_opt_num("value"@, v.value));
}

/// The canonical tree of a well-formed index is well formed.
proof fn lemma_tree_index_wf(ix: crate::types::IndexV)
    requires
        crate::types::wf_index_v(ix),
    ensures
        crate::json::wf_v(tree_index(ix)),
{
    let g0 = m_opt_str("name"@, ix.name);
    let g1 = m_opt_num("value"@, ix.value);
    let g2 = m_opt_str("level"@, ix.level);
    let g3 = m_opt_str("description"@, ix.description);
    let g4 = m_opt_str("advice"@, ix.advice);
    let g5 = m_opt_str("color"@, ix.color);
    lemma_wf_m_opt_str("name"@, ix.name);
    lemma_wf_m_opt_num("value"@, ix.value);
    lemma_wf_m_opt_str("level"@, ix.level);
    lemma_wf_m_opt_str("description"@, ix.description);
    lemma_wf_m_opt_str("advice"@, ix.advice);
    lemma_wf_m_opt_str("color"@, ix.color);
    lemma_wf_members_app(g0, g1);
    lemma_wf_members_app(g0 + g1, g2);
    lemma_wf_members_app(g0 + g1 + g2, g3);
    lemma_wf_members_app(g0 + g1 + g2 + g3, g4);
    lemma_wf_members_app(g0 + g1 + g2 + g3 + g4, g5);
}

/// The canonical tree of a well-formed standard is well formed.
proof fn lemma_tree_standard_wf(st: crate::types::StandardV)
    requires
        crate::types::wf_standard_v(st),
    ensures
        crate::json::wf_v(tree_standard(st)),
{
    let g0 = m_opt_str("name"@, st.name);
    let g1 = m_opt_str("pollutant"@, st.pollutant);
    let g2 = m_opt_num("limit"@, st.limit);
    let g3 = m_opt_num("percent"@, st.percent);
    lemma_wf_m_opt_str("name"@, st.name);
    lemma_wf_m_opt_str("pollutant"@, st.pollutant);
    lemma_wf_m_opt_num("limit"@, st.limit);
    lemma_wf_m_opt_num("percent"@, st.percent);
    lemma_wf_members_app(g0, g1);
    lemma_wf_members_app(g0 + g1, g2);
    lemma_wf_members_app(g0 + g1 + g2, g3);
}

/// The canonical trees of well-formed readings are well formed.
proof fn lemma_tree_value_seq_wf(vs: Seq<crate::types::ValueV>)
    requires
        forall|k: int| 0 <= k < vs.len() ==> crate::types::wf_value_v(#[trigger] vs[k]),
    ensures
        crate::json::wf_items(tree_value_seq(vs)),
    decreases vs.len(),
{
    if vs.len() > 0 {
        lemma_tree_value_wf(vs[0]);
        assert forall|k: int| 0 <= k < vs.drop_first().len() implies crate::types::wf_value_v(
            #[trigger] vs.drop_first()[k],
        ) by {
            assert(vs.drop_first()[k] == vs[k + 1]);
        }
        lemma_tree_value_seq_wf(vs.drop_first());
        assert(tree_value_seq(vs)[0] == tree_value(vs[0]));
        assert(tree_value_seq(vs).drop_first() =~= tree_value_seq(vs.drop_first()));
    }
}

/// The canonical trees of well-formed indexes are well formed.
proof fn lemma_tree_index_seq_wf(vs: Seq<crate::types::IndexV>)
    requires
        forall|k: int| 0 <= k < vs.len() ==> crate::types::wf_index_v(#[trigger] vs[k]),
    ensures
        crate::json::wf_items(tree_index_seq(vs)),
    decreases vs.len(),
{
    if vs.len() > 0 {
        lemma_tree_index_wf(vs[0]);
        assert forall|k: int| 0 <= k < vs.drop_first().len() implies crate::types::wf_index_v(
            #[trigger] vs.drop_first()[k],
        ) by {
            assert(vs.drop_first()[k] == vs[k + 1]);
        }
        lemma_tree_index_seq_wf(vs.drop_first());
        assert(tree_index_seq(vs)[0] == tree_index(vs[0]));
        assert(tree_index_seq(vs).drop_first() =~= tree_index_seq(vs.drop_first()));
    }
}

/// The canonical trees of well-formed standards are well formed.
proof fn lemma_tree_standard_seq_wf(vs: Seq<crate::types::StandardV>)
    requires
        forall|k: int| 0 <= k < vs.len() ==> crate::types::wf_standard_v(#[trigger] vs[k]),
    ensures
        crate::json::wf_items(tree_standard_seq(vs)),
    decreases vs.len(),
{
    if vs.len() > 0 {
        lemma_tree_standard_wf(vs[0]);
        assert forall|k: int| 0 <= k < vs.drop_first().len() implies crate::types::wf_standard_v(
            #[trigger] vs.drop_first()[k],
        ) by {
            assert(vs.drop_first()[k] == vs[k + 1]);
        }
        lemma_tree_standard_seq_wf(vs.drop_first());
        assert(tree_standard_seq(vs)[0] == tree_standard(vs[0]));
        assert(tree_standard_seq(vs).drop_first() =~= tree_standard_seq(vs.drop_first()));
    }
}

/// An array of well-formed items is a well-formed value.
proof fn lemma_wf_arr(items: Seq<JsonV>)
    requires
        crate::json::wf_items(items),
    ensures
        crate::json::wf_v(JsonV::Arr(items)),
{
}

/// The canonical tree of a well-formed averaged reading is well formed.
proof fn lemma_tree_averaged_wf(a: crate::types::AveragedValuesV)
    requires
        crate::types::wf_averaged_v(a),
    ensures
        crate::json::wf_v(tree_averaged(a)),
{
    let g0 = m_opt_str("fromDateTime"@, a.from_date_time);
    let g1 = m_opt_str("tillDateTime"@, a.till_date_time);
    let g2 = m_one("values"@, JsonV::Arr(tree_value_seq(a.values)));
    let g3 = m_one("indexes"@, JsonV::Arr(tree_index_seq(a.indexes)));
    let g4 = m_one("standards"@, JsonV::Arr(tree_standard_seq(a.standards)));
    lemma_wf_m_opt_str("fromDateTime"@, a.from_date_time);
    lemma_wf_m_opt_str("tillDateTime"@, a.till_date_time);
    lemma_tree_value_seq_wf(a.values);
    lemma_tree_index_seq_wf(a.indexes);
    lemma_tree_standard_seq_wf(a.standards);
    lemma_wf_members_one("values"@, JsonV::Arr(tree_value_seq(a.values)));
    lemma_wf_members_one("indexes"@, JsonV::Arr(tree_index_seq(a.indexes)));
    lemma_wf_members_one("standards"@, JsonV::Arr(tree_standard_seq(a.standards)));
    lemma_wf_members_app(g0, g1);
    lemma_wf_members_app(g0 + g1, g2);
    lemma_wf_members_app(g0 + g1 + g2, g3);
    lemma_wf_members_app(g0 + g1 + g2 + g3, g4);
}

/// The canonical trees of well-formed averaged readings are well formed.
proof fn lemma_tree_averaged_seq_wf(vs: Seq<crate::types::AveragedValuesV>)
    requires
        forall|k: int| 0 <= k < vs.len() ==> crate::types::wf_averaged_v(#[trigger] vs[k]),
    ensures
        crate::json::wf_items(tree_averaged_seq(vs)),
    decreases vs.len(),
{
    if vs.len() > 0 {
        lemma_tree_averaged_wf(vs[0]);
        assert forall|k: int| 0 <= k < vs.drop_first().len() implies crate::types::wf_averaged_v(
            #[trigger] vs.drop_first()[k],
        ) by {
            assert(vs.drop_first()[k] == vs[k + 1]);
        }
        lemma_tree_averaged_seq_wf(vs.drop_first());
        assert(tree_averaged_seq(vs)[0] == tree_averaged(vs[0]));
        assert(tree_averaged_seq(vs).drop_first() =~= tree_averaged_seq(vs.drop_first()));
    }
}

/// The canonical tree of a well-formed measurements bundle is well
/// formed.
pub proof fn lemma_tree_measurements_wf(m: crate::types::MeasurementsV)
    requires
        crate::types::wf_measurements_v(m),
    ensures
        crate::json::wf_v(tree_measurements(m)),
{
    let g0 = m_opt("current"@, match m.current {
        Some(a) => Some(tree_averaged(a)),
        None => None,
    });
    let g1 = m_one("history"@, JsonV::Arr(tree_averaged_seq(m.history)));
    let g2 = m_one("forecast"@, JsonV::Arr(tree_averaged_seq(m.forecast)));
    match m.current {
        Some(a) => {
            lemma_tree_averaged_wf(a);
            lemma_wf_members_one("current"@, tree_averaged(a));
        },
        None => {},
    }
    lemma_tree_averaged_seq_wf(m.history);
    lemma_tree_averaged_seq_wf(m.forecast);
    lemma_wf_members_one("history"@, JsonV::Arr(tree_averaged_seq(m.history)));
    lemma_wf_members_one("forecast"@, JsonV::Arr(tree_averaged_seq(m.forecast)));
    lemma_wf_members_app(g0, g1);
    lemma_wf_members_app(g0 + g1, g2);
}

/// The canonical tree of a well-formed location is well formed.
proof fn lemma_tree_location_wf(l: crate::types::LocationV)
    requires
        crate::types::wf_location_v(l),
    ensures
        crate::json::wf_v(tree_location(l)),
{
    lemma_wf_members_one("latitude"@, JsonV::Num(l.latitude));
    lemma_wf_members_one("longitude"@, JsonV::Num(l.longitude));
    lemma_wf_members_app(
        m_one("latitude"@, JsonV::Num(l.latitude)),
        m_one("longitude"@, JsonV::Num(l.longitude)),
    );
}

/// The canonical tree of an address is well formed.
proof fn lemma_tree_address_wf(a: crate::types::AddressV)
    ensures
        crate::json::wf_v(tree_address(a)),
{
    let g0 = m_one("country"@, JsonV::Str(a.country));
    let g1 = m_one("city"@, JsonV::Str(a.city));
    let g2 = m_one("street"@, JsonV::Str(a.street));
    let g3 = m_one("number"@, JsonV::Str(a.number));
    let g4 = m_opt_str("displayAddress1"@, a.display_address1);
    let g5 = m_opt_str("displayAddress2"@, a.display_address2);
    lemma_wf_members_one("country"@, JsonV::Str(a.country));
    lemma_wf_members_one("city"@, JsonV::Str(a.city));
    lemma_wf_members_one("street"@, JsonV::Str(a.street));
    lemma_wf_members_one("number"@, JsonV::Str(a.number));
    lemma_wf_m_opt_str("displayAddress1"@, a.display_address1);
    lemma_wf_m_opt_str("displayAddress2"@, a.display_address2);
    lemma_wf_members_app(g0, g1);
    lemma_wf_members_app(g0 + g1, g2);
    lemma_wf_members_app(g0 + g1 + g2, g3);
    lemma_wf_members_app(g0 + g1 + g2 + g3, g4);
    lemma_wf_members_app(g0 + g1 + g2 + g3 + g4, g5);
}

/// The canonical tree of a sponsor is well formed.
proof fn lemma_tree_sponsor_wf(sp: crate::types::SponsorV)
    ensures
        crate::json::wf_v(tree_sponsor(sp)),
{
    let g0 = m_one("id"@, JsonV::Num(int_seq(sp.id as int)));
    let g1 = m_one("name"@, JsonV::Str(sp.name));
    let g2 = m_opt_str("description"@, sp.description);
    let g3 = m_opt_str("logo"@, sp.logo);
    let g4 = m_opt_str("link"@, sp.link);
    crate::digits::lemma_wf_int_seq(sp.id as int);
    lemma_wf_members_one("id"@, JsonV::Num(int_seq(sp.id as int)));
    lemma_wf_members_one("name"@, JsonV::Str(sp.name));
    lemma_wf_m_opt_str("description"@, sp.description);
    lemma_wf_m_opt_str("logo"@, sp.logo);
    lemma_wf_m_opt_str("link"@, sp.link);
    lemma_wf_members_app(g0, g1);
    lemma_wf_members_app(g0 + g1, g2);
    lemma_wf_members_app(g0 + g1 + g2, g3);
    lemma_wf_members_app(g0 + g1 + g2 + g3, g4);
}

/// The canonical tree of a well-formed installation is well formed.
proof fn lemma_tree_installation_wf(inst: crate::types::InstallationV)
    requires
        crate::types::wf_installation_v(inst),
    ensures
        crate::json::wf_v(tree_installation(inst)),
{
    let g0 = m_one("id"@, JsonV::Num(int_seq(inst.id as int)));
    let g1 = m_one("location"@, tree_location(inst.location));
    let g2 = m_one("address"@, tree_address(inst.address));
    let g3 = m_one("elevation"@, JsonV::Num(inst.elevation));
    let g4 = m_one("airly"@, JsonV::Bool(inst.airly));
    let g5 = m_one("sponsor"@, tree_sponsor(inst.sponsor));
    crate::digits::lemma_wf_int_seq(inst.id as int);
    lemma_tree_location_wf(inst.location);
    lemma_tree_address_wf(inst.address);
    lemma_tree_sponsor_wf(inst.sponsor);
    lemma_wf_members_one("id"@, JsonV::Num(int_seq(inst.id as int)));
    lemma_wf_members_one("location"@, tree_location(inst.location));
    lemma_wf_members_one("address"@, tree_address(inst.address));
    lemma_wf_members_one("elevation"@, JsonV::Num(inst.elevation));
    lemma_wf_members_one("airly"@, JsonV::Bool(inst.airly));
    lemma_wf_members_one("sponsor"@, tree_sponsor(inst.sponsor));
    lemma_wf_members_app(g0, g1);
    lemma_wf_members_app(g0 + g1, g2);
    lemma_wf_members_app(g0 + g1 + g2, g3);
    lemma_wf_members_app(g0 + g1 + g2 + g3, g4);
    lemma_wf_members_app(g0 + g1 + g2 + g3 + g4, g5);
}

/// The canonical trees of well-formed installations are well formed.
proof fn lemma_tree_installation_seq_wf(vs: Seq<crate::types::InstallationV>)
    requires
        forall|k: int| 0 <= k < vs.len() ==> crate::types::wf_installation_v(#[trigger] vs[k]),
    ensures
        crate::json::wf_items(tree_installation_seq(vs)),
    decreases vs.len(),
{
    if vs.len() > 0 {
        lemma_tree_installation_wf(vs[0]);
        assert forall|k: int| 0 <= k < vs.drop_first().len() implies crate::types::wf_installation_v(
            #[trigger] vs.drop_first()[k],
        ) by {
            assert(vs.drop_first()[k] == vs[k + 1]);
        }
        lemma_tree_installation_seq_wf(vs.drop_first());
        assert(tree_installation_seq(vs)[0] == tree_installation(vs[0]));
        assert(tree_installation_seq(vs).drop_first() =~= tree_installation_seq(vs.drop_first()));
    }
}

/// The canonical tree of an index level is well formed.
proof fn lemma_tree_index_level_wf(il: crate::types::IndexLevelV)
    ensures
        crate::json::wf_v(tree_index_level(il)),
{
    let g0 = m_opt_int("minValue"@, il.min_value);
    let g1 = m_opt_int("mixValue"@, il.max_value);
    let g2 = m_opt_str("value"@, il.value);
    let g3 = m_opt_str("level"@, il.level);
    let g4 = m_opt_str("description"@, il.description);
    let g5 = m_opt_str("color"@, il.color);
    lemma_wf_m_opt_int("minValue"@, il.min_value);
    lemma_wf_m_opt_int("mixValue"@, il.max_value);
    lemma_wf_m_opt_str("value"@, il.value);
    lemma_wf_m_opt_str("level"@, il.level);
    lemma_wf_m_opt_str("description"@, il.description);
    lemma_wf_m_opt_str("color"@, il.color);
    lemma_wf_members_app(g0, g1);
    lemma_wf_members_app(g0 + g1, g2);
    lemma_wf_members_app(g0 + g1 + g2, g3);
    lemma_wf_members_app(g0 + g1 + g2 + g3, g4);
    lemma_wf_members_app(g0 + g1 + g2 + g3 + g4, g5);
}

/// The canonical tree of an index type is well formed.
proof fn lemma_tree_index_type_wf(it: crate::types::IndexTypeV)
    ensures
        crate::json::wf_v(tree_index_type(it)),
{
    let g0 = m_opt_str("name"@, it.name);
    let g1 = m_opt("level"@, match it.level {
        Some(il) => Some(tree_index_level(il)),
        None => None,
    });
    lemma_wf_m_opt_str("name"@, it.name);
    match it.level {
        Some(il) => {
            lemma_tree_index_level_wf(il);
            lemma_wf_members_one("level"@, tree_index_level(il));
        },
        None => {},
    }
    lemma_wf_members_app(g0, g1);
}

/// The canonical trees of index types are well formed.
proof fn lemma_tree_index_type_seq_wf(vs: Seq<crate::types::IndexTypeV>)
    ensures
        crate::json::wf_items(tree_index_type_seq(vs)),
    decreases vs.len(),
{
    if vs.len() > 0 {
        lemma_tree_index_type_wf(vs[0]);
        lemma_tree_index_type_seq_wf(vs.drop_first());
        assert(tree_index_type_seq(vs)[0] == tree_index_type(vs[0]));
        assert(tree_index_type_seq(vs).drop_first() =~= tree_index_type_seq(vs.drop_first()));
    }
}

/// The canonical tree of a measurement type is well formed.
proof fn lemma_tree_measurement_type_wf(mt: crate::types::MeasurementTypeV)
    ensures
        crate::json::wf_v(tree_measurement_type(mt)),
{
    let g0 = m_opt_str("name"@, mt.name);
    let g1 = m_opt_str("label"@, mt.label);
    let g2 = m_opt_str("unit"@, mt.unit);
    lemma_wf_m_opt_str("name"@, mt.name);
    lemma_wf_m_opt_str("label"@, mt.label);
    lemma_wf_m_opt_str("unit"@, mt.unit);
    lemma_wf_members_app(g0, g1);
    lemma_wf_members_app(g0 + g1, g2);
}

/// The canonical trees of measurement types are well formed.
proof fn lemma_tree_measurement_type_seq_wf(vs: Seq<crate::types::MeasurementTypeV>)
    ensures
        crate::json::wf_items(tree_measurement_type_seq(vs)),
    decreases vs.len(),
{
    if vs.len() > 0 {
        lemma_tree_measurement_type_wf(vs[0]);
        lemma_tree_measurement_type_seq_wf(vs.drop_first());
        assert(tree_measurement_type_seq(vs)[0] == tree_measurement_type(vs[0]));
        assert(tree_measurement_type_seq(vs).drop_first() =~= tree_measurement_type_seq(
            vs.drop_first(),
        ));
    }
}


// ---------------------------------------------------------------------------
// The public face of the codec.
// ---------------------------------------------------------------------------

/// The canonical response text of a measurements bundle.
pub open spec fn measurements_text(m: crate::types::MeasurementsV) -> Seq<char> {
    crate::json::ser_v(tree_measurements(m))
}

/// The canonical response text of one installation.
pub open spec fn installation_text(inst: crate::types::InstallationV) -> Seq<char> {
    crate::json::ser_v(tree_installation(inst))
}

/// The canonical response text of a list of installations.
pub open spec fn installations_text(vs: Seq<crate::types::InstallationV>) -> Seq<char> {
    crate::json::ser_v(JsonV::Arr(tree_installation_seq(vs)))
}

/// The canonical response text of a list of index types.
pub open spec fn index_types_text(vs: Seq<crate::types::IndexTypeV>) -> Seq<char> {
    crate::json::ser_v(JsonV::Arr(tree_index_type_seq(vs)))
}

/// The canonical response text of a list of measurement types.
pub open spec fn measurement_types_text(vs: Seq<crate::types::MeasurementTypeV>) -> Seq<char> {
    crate::json::ser_v(JsonV::Arr(tree_measurement_type_seq(vs)))
}

/// Parsing inverts encoding for measurement bundles: the canonical text
/// of any well-formed measurements value is read back as exactly that
/// value's tree.
pub proof fn lemma_measurements_round_trip(m: crate::types::MeasurementsV)
    requires
        crate::types::wf_measurements_v(m),
    ensures
        crate::json::p_doc(measurements_text(m)) == Some(tree_measurements(m)),
{
    lemma_tree_measurements_wf(m);
    crate::json::lemma_json_round_trip(tree_measurements(m));
}

/// Writes a measurements bundle as its canonical JSON text.
pub fn serialize_measurements(m: &crate::types::Measurements) -> (r: String)
    ensures
        r@ == measurements_text(crate::types::vw_measurements(*m)),
{
    let tree = json_of_measurements(m);
    let mut s = String::new();
    crate::json::write_json(&mut s, &tree);
    proof {
        assert(s@ =~= measurements_text(crate::types::vw_measurements(*m)));
    }
    s
}

/// Decodes a measurements response body.
///
/// Complete for canonical bodies: the serialized text of any well-formed
/// measurements value decodes back to that value.
pub fn parse_measurements(body: &str) -> (r: Result<crate::types::Measurements, AirlyError>)
    ensures
        forall|m: crate::types::MeasurementsV|
            crate::types::wf_measurements_v(m) && body@ == measurements_text(m) ==> (
            r matches Ok(out) && crate::types::vw_measurements(out) == m),
        r matches Ok(out) ==> crate::types::wf_measurements_v(crate::types::vw_measurements(out)),
        r is Err ==> (r matches Err(e) && e is Deserialization),
{
    let cs = chars_of(body);
    proof {
        assert forall|m: crate::types::MeasurementsV|
            crate::types::wf_measurements_v(m) && body@ == measurements_text(
                m,
            ) implies crate::json::p_doc(cs@) == Some(tree_measurements(m)) by {
            lemma_measurements_round_trip(m);
        }
    }
    match crate::json::parse_json(&cs) {
        Some(tree) => match from_json_measurements(&tree) {
            Ok(out) => Ok(out),
            Err(_) => Err(
                AirlyError::Deserialization(String::from_str("unexpected response shape")),
            ),
        },
        None => Err(AirlyError::Deserialization(String::from_str("response body is not JSON"))),
    }
}

/// Decodes a single-installation response body.
///
/// Complete for canonical bodies: the canonical text of any well-formed
/// installation decodes back to that value.
pub fn parse_installation(body: &str) -> (r: Result<crate::types::Installation, AirlyError>)
    ensures
        forall|inst: crate::types::InstallationV|
            crate::types::wf_installation_v(inst) && body@ == installation_text(inst) ==> (
            r matches Ok(out) && crate::types::vw_installation(out) == inst),
        r matches Ok(out) ==> crate::types::wf_installation_v(crate::types::vw_installation(out)),
        r is Err ==> (r matches Err(e) && e is Deserialization),
{
    let cs = chars_of(body);
    proof {
        assert forall|inst: crate::types::InstallationV|
            crate::types::wf_installation_v(inst) && body@ == installation_text(
                inst,
            ) implies crate::json::p_doc(cs@) == Some(tree_installation(inst)) by {
            lemma_tree_installation_wf(inst);
            crate::json::lemma_json_round_trip(tree_installation(inst));
        }
    }
    match crate::json::parse_json(&cs) {
        Some(tree) => match from_json_installation(&tree) {
            Ok(out) => Ok(out),
            Err(_) => Err(
                AirlyError::Deserialization(String::from_str("unexpected response shape")),
            ),
        },
        None => Err(AirlyError::Deserialization(String::from_str("response body is not JSON"))),
    }
}

/// Decodes an installation-list response body.
///
/// Complete for canonical bodies.
pub fn parse_installations(body: &str) -> (r: Result<Vec<crate::types::Installation>, AirlyError>)
    ensures
        forall|vs: Seq<crate::types::InstallationV>|
            (forall|k: int| 0 <= k < vs.len() ==> crate::types::wf_installation_v(
                #[trigger] vs[k],
            )) && body@ == installations_text(vs) ==> (r matches Ok(out)
                && crate::types::vw_installation_seq(out@) == vs),
        r matches Ok(out) ==> (forall|k: int|
            0 <= k < out@.len() ==> crate::types::wf_installation_v(
                #[trigger] crate::types::vw_installation_seq(out@)[k],
            )),
        r is Err ==> (r matches Err(e) && e is Deserialization),
{
    let cs = chars_of(body);
    proof {
        assert forall|vs: Seq<crate::types::InstallationV>|
            (forall|k: int| 0 <= k < vs.len() ==> crate::types::wf_installation_v(
                #[trigger] vs[k],
            )) && body@ == installations_text(vs) implies crate::json::p_doc(cs@) == Some(
            JsonV::Arr(tree_installation_seq(vs)),
        ) by {
            lemma_tree_installation_seq_wf(vs);
            crate::json::lemma_json_round_trip(JsonV::Arr(tree_installation_seq(vs)));
        }
    }
    match crate::json::parse_json(&cs) {
        Some(Json::Arr(items)) => {
            proof {
                assert(crate::json::jv_seq(items@).skip(0) =~= crate::json::jv_seq(items@));
            }
            match from_json_installation_list(&items, 0) {
                Ok(out) => Ok(out),
                Err(_) => Err(
                    AirlyError::Deserialization(String::from_str("unexpected response shape")),
                ),
            }
        },
        Some(_) => Err(
            AirlyError::Deserialization(String::from_str("unexpected response shape")),
        ),
        None => Err(AirlyError::Deserialization(String::from_str("response body is not JSON"))),
    }
}

/// Decodes an index-type listing response body.
///
/// Complete for canonical bodies.
pub fn parse_index_types(body: &str) -> (r: Result<Vec<crate::types::IndexType>, AirlyError>)
    ensures
        forall|vs: Seq<crate::types::IndexTypeV>| body@ == index_types_text(vs) ==> (
        r matches Ok(out) && crate::types::vw_index_type_seq(out@) == vs),
        r is Err ==> (r matches Err(e) && e is Deserialization),
{
    let cs = chars_of(body);
    proof {
        assert forall|vs: Seq<crate::types::IndexTypeV>| body@ == index_types_text(
            vs,
        ) implies crate::json::p_doc(cs@) == Some(JsonV::Arr(tree_index_type_seq(vs))) by {
            lemma_tree_index_type_seq_wf(vs);
            crate::json::lemma_json_round_trip(JsonV::Arr(tree_index_type_seq(vs)));
        }
    }
    match crate::json::parse_json(&cs) {
        Some(Json::Arr(items)) => {
            proof {
                assert(crate::json::jv_seq(items@).skip(0) =~= crate::json::jv_seq(items@));
            }
            match from_json_index_type_list(&items, 0) {
                Ok(out) => Ok(out),
                Err(_) => Err(
                    AirlyError::Deserialization(String::from_str("unexpected response shape")),
                ),
            }
        },
        Some(_) => Err(
            AirlyError::Deserialization(String::from_str("unexpected response shape")),
        ),
        None => Err(AirlyError::Deserialization(String::from_str("response body is not JSON"))),
    }
}

/// Decodes a measurement-type listing response body.
///
/// Complete for canonical bodies.
pub fn parse_measurement_types(body: &str) -> (r: Result<
    Vec<crate::types::MeasurementType>,
    AirlyError,
>)
    ensures
        forall|vs: Seq<crate::types::MeasurementTypeV>| body@ == measurement_types_text(vs)
            ==> (r matches Ok(out) && crate::types::vw_measurement_type_seq(out@) == vs),
        r is Err ==> (r matches Err(e) && e is Deserialization),
{
    let cs = chars_of(body);
    proof {
        assert forall|vs: Seq<crate::types::MeasurementTypeV>| body@ == measurement_types_text(
            vs,
        ) implies crate::json::p_doc(cs@) == Some(JsonV::Arr(tree_measurement_type_seq(vs))) by {
            lemma_tree_measurement_type_seq_wf(vs);
            crate::json::lemma_json_round_trip(JsonV::Arr(tree_measurement_type_seq(vs)));
        }
    }
    match crate::json::parse_json(&cs) {
        Some(Json::Arr(items)) => {
            proof {
                assert(crate::json::jv_seq(items@).skip(0) =~= crate::json::jv_seq(items@));
            }
            match from_json_measurement_type_list(&items, 0) {
                Ok(out) => Ok(out),
                Err(_) => Err(
                    AirlyError::Deserialization(String::from_str("unexpected response shape")),
                ),
            }
        },
        Some(_) => Err(
            AirlyError::Deserialization(String::from_str("unexpected response shape")),
        ),
        None => Err(AirlyError::Deserialization(String::from_str("response body is not JSON"))),
    }
}

} // verus!
