//! The API client: an API key, an HTTP transport, and one operation per
//! endpoint.
//!
//! Every operation builds its URL with the verified builders of
//! [`crate::url`], performs one GET with three fixed headers (`Accept:
//! application/json`, `Accept-Language: en`, and the key under `apikey`),
//! and decodes the JSON body with the verified codec of [`crate::codec`].
//! Only the two small transport functions are trusted; everything around
//! them is verified.

use vstd::prelude::*;
use crate::codec::{
    parse_index_types, parse_installation, parse_installations, parse_measurement_types,
    parse_measurements,
};
use crate::error::AirlyError;
use crate::geo::{GeoCircle, GeoPoint};
use crate::types::{IndexType, Installation, Measurements, MeasurementType};
use crate::url;

verus! {

/// The length every API key must have.
pub const API_KEY_LEN: usize = 32;

#[verifier::external_type_specification]
#[verifier::external_body]
pub struct ExBlockingClient(reqwest::blocking::Client);

/// A character that may stand in an HTTP header value.
pub open spec fn header_safe(c: char) -> bool {
    c == '\t' || (' ' <= c && c <= '~')
}

/// A well-formed API key: exactly the required length, every character
/// fit for a header value.
pub open spec fn key_ok(key: Seq<char>) -> bool {
    key.len() == API_KEY_LEN && (forall|k: int| 0 <= k < key.len() ==> header_safe(#[trigger] key[k]))
}

/// Whether the given key is well formed.
fn check_key(s: &str) -> (r: bool)
    ensures
        r == key_ok(s@),
{
    let n = s.unicode_len();
    if n != API_KEY_LEN {
        return false;
    }
    let mut k: usize = 0;
    while k < n
        invariant
            k <= n,
            n == s@.len(),
            forall|i: int| 0 <= i < k ==> header_safe(#[trigger] s@[i]),
        decreases n - k,
    {
        let c = s.get_char(k);
        if !(c == '\t' || (' ' <= c && c <= '~')) {
            return false;
        }
        k += 1;
    }
    true
}

/// Relies on reqwest's blocking `ClientBuilder::build`: a reusable HTTP
/// transport handle, or the builder's error as text.
#[verifier::external_body]
fn new_transport() -> (r: Result<reqwest::blocking::Client, String>)
{
    match reqwest::blocking::Client::builder().build() {
        Ok(c) => Ok(c),
        Err(e) => Err(e.to_string()),
    }
}

/// Relies on reqwest's blocking `RequestBuilder::send` and
/// `Response::text`: one GET against `uri` with the three fixed headers,
/// returning the response body as text, or the transport's error as text.
/// Must not be called from inside an async runtime, where the blocking
/// client panics.
#[verifier::external_body]
fn http_get_text(client: &reqwest::blocking::Client, uri: &str, api_key: &str) -> (r: Result<
    String,
    String,
>)
{
    let sent = client
        .get(uri)
        .header("Accept", "application/json")
        .header("Accept-Language", "en")
        .header("apikey", api_key)
        .send();
    match sent {
        Ok(resp) => match resp.text() {
            Ok(t) => Ok(t),
            Err(e) => Err(e.to_string()),
        },
        Err(e) => Err(e.to_string()),
    }
}

/// A client for the air-quality API: an API key and a transport handle,
/// both reusable across any number of sequential calls.
pub struct AirlyClient {
    api_key: String,
    client: reqwest::blocking::Client,
}

impl AirlyClient {
    /// The key this client sends with every request.
    pub closed spec fn key(self) -> Seq<char> {
        self.api_key@
    }

    /// Builds a client from an API key.
    ///
    /// Fails with an invalid-key error unless the key is exactly 32
    /// header-safe characters; with a well-formed key it fails only if
    /// the transport itself cannot be set up.
    pub fn new(api_key: String) -> (r: Result<AirlyClient, AirlyError>)
        ensures
            !key_ok(api_key@) <==> r == Err::<AirlyClient, _>(AirlyError::InvalidKey),
            r matches Ok(c) ==> c.key() == api_key@,
            r matches Err(e) ==> e == AirlyError::InvalidKey || e is Transport,
    {
        if !check_key(api_key.as_str()) {
            return Err(AirlyError::InvalidKey);
        }
        match new_transport() {
            Ok(client) => Ok(AirlyClient { api_key, client }),
            Err(msg) => Err(AirlyError::Transport(msg)),
        }
    }

    /// One GET with the fixed headers; transport failures become the
    /// transport error kind.
    fn fetch(&self, uri: &String) -> (r: Result<String, AirlyError>)
        ensures
            r matches Err(e) ==> e is Transport,
    {
        match http_get_text(&self.client, uri.as_str(), self.api_key.as_str()) {
            Ok(body) => Ok(body),
            Err(msg) => Err(AirlyError::Transport(msg)),
        }
    }

    /// Fetches one installation by its id.
    ///
    /// Whatever the transport returns, a success is a decoded
    /// installation record, and a failure is a transport or
    /// deserialization error.
    pub fn get_installation(&self, id: u32) -> (r: Result<Installation, AirlyError>)
        ensures
            r matches Ok(out) ==> crate::types::wf_installation_v(
                crate::types::vw_installation(out),
            ),
            r matches Err(e) ==> e is Transport || e is Deserialization,
    {
        let uri = url::installation_url(id);
        let body = match self.fetch(&uri) {
            Ok(b) => b,
            Err(e) => {
                return Err(e);
            },
        };
        parse_installation(body.as_str())
    }

    /// Fetches the installations nearest to a circle, capped at
    /// `max_results` by the service.
    pub fn get_nearest(&self, circle: &GeoCircle, max_results: u32) -> (r: Result<
        Vec<Installation>,
        AirlyError,
    >)
        ensures
            r matches Ok(out) ==> (forall|k: int|
                0 <= k < out@.len() ==> crate::types::wf_installation_v(
                    #[trigger] crate::types::vw_installation_seq(out@)[k],
                )),
            r matches Err(e) ==> e is Transport || e is Deserialization,
    {
        let uri = url::nearest_url(circle, max_results);
        let body = match self.fetch(&uri) {
            Ok(b) => b,
            Err(e) => {
                return Err(e);
            },
        };
        parse_installations(body.as_str())
    }

    /// Lists the available index types.
    pub fn get_indices(&self) -> (r: Result<Vec<IndexType>, AirlyError>)
        ensures
            r matches Err(e) ==> e is Transport || e is Deserialization,
    {
        let uri = url::indexes_url();
        let body = match self.fetch(&uri) {
            Ok(b) => b,
            Err(e) => {
                return Err(e);
            },
        };
        parse_index_types(body.as_str())
    }

    /// Lists the available measurement types.
    pub fn get_meta_measurements(&self) -> (r: Result<Vec<MeasurementType>, AirlyError>)
        ensures
            r matches Err(e) ==> e is Transport || e is Deserialization,
    {
        let uri = url::meta_measurements_url();
        let body = match self.fetch(&uri) {
            Ok(b) => b,
            Err(e) => {
                return Err(e);
            },
        };
        parse_measurement_types(body.as_str())
    }

    /// Fetches the measurements of one installation, wind included.
    ///
    /// An index type without a name is refused with an invalid-input
    /// error before any network call.
    pub fn get_installation_measurements_with_wind(&self, id: u32, index_type: IndexType) -> (r:
        Result<Measurements, AirlyError>)
        ensures
            index_type.name is None <==> r == Err::<Measurements, _>(AirlyError::InvalidInput),
            r matches Ok(out) ==> crate::types::wf_measurements_v(
                crate::types::vw_measurements(out),
            ),
            r matches Err(e) ==> e == AirlyError::InvalidInput || e is Transport
                || e is Deserialization,
    {
        let name = match index_type.name {
            Some(n) => n,
            None => {
                return Err(AirlyError::InvalidInput);
            },
        };
        let uri = url::get_measurements_query_string(id, name, true);
        let body = match self.fetch(&uri) {
            Ok(b) => b,
            Err(e) => {
                return Err(e);
            },
        };
        parse_measurements(body.as_str())
    }

    /// Fetches the measurements of one installation, wind left out.
    ///
    /// An index type without a name is refused with an invalid-input
    /// error before any network call.
    pub fn get_installation_measurements_without_wind(&self, id: u32, index_type: IndexType) -> (
        r: Result<Measurements, AirlyError>)
        ensures
            index_type.name is None <==> r == Err::<Measurements, _>(AirlyError::InvalidInput),
            r matches Ok(out) ==> crate::types::wf_measurements_v(
                crate::types::vw_measurements(out),
            ),
            r matches Err(e) ==> e == AirlyError::InvalidInput || e is Transport
                || e is Deserialization,
    {
        let name = match index_type.name {
            Some(n) => n,
            None => {
                return Err(AirlyError::InvalidInput);
            },
        };
        let uri = url::get_measurements_query_string(id, name, false);
        let body = match self.fetch(&uri) {
            Ok(b) => b,
            Err(e) => {
                return Err(e);
            },
        };
        parse_measurements(body.as_str())
    }

    /// Fetches the measurements of the installation nearest to a circle.
    ///
    /// An index type without a name is refused with an invalid-input
    /// error before any network call.
    pub fn get_measurements_nearest(&self, index_type: IndexType, circle: &GeoCircle) -> (r:
        Result<Measurements, AirlyError>)
        ensures
            index_type.name is None <==> r == Err::<Measurements, _>(AirlyError::InvalidInput),
            r matches Ok(out) ==> crate::types::wf_measurements_v(
                crate::types::vw_measurements(out),
            ),
            r matches Err(e) ==> e == AirlyError::InvalidInput || e is Transport
                || e is Deserialization,
    {
        let name = match index_type.name {
            Some(n) => n,
            None => {
                return Err(AirlyError::InvalidInput);
            },
        };
        let uri = url::measurements_nearest_url(&name, circle);
        let body = match self.fetch(&uri) {
            Ok(b) => b,
            Err(e) => {
                return Err(e);
            },
        };
        parse_measurements(body.as_str())
    }

    /// Fetches interpolated measurements at an arbitrary point.
    ///
    /// An index type without a name is refused with an invalid-input
    /// error before any network call.
    pub fn get_measurements_point(&self, index_type: IndexType, point: &GeoPoint) -> (r: Result<
        Measurements,
        AirlyError,
    >)
        ensures
            index_type.name is None <==> r == Err::<Measurements, _>(AirlyError::InvalidInput),
            r matches Ok(out) ==> crate::types::wf_measurements_v(
                crate::types::vw_measurements(out),
            ),
            r matches Err(e) ==> e == AirlyError::InvalidInput || e is Transport
                || e is Deserialization,
    {
        let name = match index_type.name {
            Some(n) => n,
            None => {
                return Err(AirlyError::InvalidInput);
            },
        };
        let uri = url::measurements_point_url(&name, point);
        let body = match self.fetch(&uri) {
            Ok(b) => b,
            Err(e) => {
                return Err(e);
            },
        };
        parse_measurements(body.as_str())
    }
}

} // verus!
