//! The inherent-data provider's per-block decisions.
//!
//! Once per authored block the provider resolves coordinates, fetches the
//! weather there, quantizes the reading and files it in the inherent-data
//! bag.  The network calls suspend the task; everything decided between
//! them is here, as one function per suspension point: the host performs
//! the returned action and hands back what came over the wire.  Failure
//! at any step aborts provisioning for this block — fail closed, no
//! retry, never a fabricated value.

use vstd::prelude::*;

use crate::INHERENT_IDENTIFIER;
use crate::coords::unscale;
use crate::decimal::spec_render_tenths;
use crate::json::spec_weather_deci;
use crate::json::weather_body_deci;
use crate::ledger::id_eq;
use crate::quantize::EncodeError;
use crate::quantize::quantize;
use crate::quantize::spec_decode;
use crate::quantize::spec_quantize;

verus! {

/// Why coordinates could not be resolved.
#[derive(PartialEq, Eq, Debug)]
pub enum ResolveError {
    /// The geolocation reply held no comma, so no longitude.
    MissingLongitude,
    /// A transport failure while fetching the IP or the geolocation.
    Transport { message: String },
}

/// Why the weather could not be fetched.
#[derive(PartialEq, Eq, Debug)]
pub enum FetchError {
    /// A transport failure against the weather endpoint.
    Transport { message: String },
    /// The reply carried no plain decimal `current_weather.temperature`.
    MalformedBody,
}

/// Why this block's inherent data could not be provided.
#[derive(PartialEq, Eq, Debug)]
pub enum ProvideError {
    Resolve(ResolveError),
    Fetch(FetchError),
    Encode(EncodeError),
    /// An error reported back by the authoring layer, carried verbatim.
    Application { raw: Vec<u8> },
}

/// Where the coordinates came from, as a tagged choice.
#[derive(PartialEq, Eq, Debug)]
pub enum Resolution {
    /// An on-ledger order: its scaled tenths rendered back as numerals.
    FromOrder { lat: String, long: String },
    /// IP geolocation, split out of the geolocation reply.
    FromGeolocation { lat: String, long: String },
}

/// What the provider asks its host to do next.
#[derive(PartialEq, Eq, Debug)]
pub enum ProviderAction {
    /// Fetch the caller's public network address.
    FetchIp,
    /// Fetch the geolocation of `ip`.
    FetchLatLong { ip: String },
    /// Fetch the weather at the resolved coordinates.
    FetchWeather { resolution: Resolution },
    /// File `encoded` under this module's identifier in the bag.
    ProvideData { encoded: Vec<u8> },
    /// Give up provisioning for this block.
    Abort { error: ProvideError },
}

/// First decision of a cycle, from the parent block's order slot.  A live
/// order always wins: with one present the weather is fetched for it and
/// geolocation is never consulted; only with none does the fallback
/// begin.
pub fn begin_provision(order: Option<(i16, i16)>) -> (r: ProviderAction)
    ensures
        match order {
            Some((la, lo)) => r matches ProviderAction::FetchWeather {
                resolution: Resolution::FromOrder { lat, long },
            } && lat@ == spec_render_tenths(la as int) && long@ == spec_render_tenths(lo as int),
            None => r == ProviderAction::FetchIp,
        },
{
    match order {
        Some((la, lo)) => {
            let lat = unscale(la);
            let long = unscale(lo);
            ProviderAction::FetchWeather { resolution: Resolution::FromOrder { lat, long } }
        },
        None => ProviderAction::FetchIp,
    }
}

/// Decision after the public-IP fetch: the address text, exactly as it
/// came, keys the geolocation lookup; a transport failure is terminal.
pub fn ip_received(reply: Result<String, String>) -> (r: ProviderAction)
    ensures
        match reply {
            Ok(ip_text) => r matches ProviderAction::FetchLatLong { ip } && ip@ == ip_text@,
            Err(msg) => r matches ProviderAction::Abort { error } && error matches
                ProvideError::Resolve(ResolveError::Transport { message }) && message@ == msg@,
        },
{
    match reply {
        Ok(ip) => ProviderAction::FetchLatLong { ip },
        Err(message) => ProviderAction::Abort {
            error: ProvideError::Resolve(ResolveError::Transport { message }),
        },
    }
}

/// First index at or after `i` holding a comma, or the length.
pub open spec fn spec_find_comma(s: Seq<char>, i: int) -> int
    decreases s.len() - i,
{
    if 0 <= i < s.len() && s[i] != ',' {
        spec_find_comma(s, i + 1)
    } else {
        i
    }
}

/// How a geolocation reply splits: the text before the first comma is
/// the latitude, the text between the first and second comma (or the
/// end) is the longitude; with no comma there is no longitude.
pub open spec fn spec_split_latlong(s: Seq<char>) -> Option<(Seq<char>, Seq<char>)> {
    let c = spec_find_comma(s, 0);
    if c == s.len() {
        None
    } else {
        let c2 = spec_find_comma(s, c + 1);
        Some((s.subrange(0, c), s.subrange(c + 1, c2)))
    }
}

fn find_comma(s: &str, i: usize) -> (r: usize)
    requires
        i <= s@.len(),
    ensures
        r == spec_find_comma(s@, i as int),
        i <= r <= s@.len(),
{
    let n: usize = s.unicode_len();
    let mut j: usize = i;
    loop
        invariant
            n == s@.len(),
            i <= j <= n,
            spec_find_comma(s@, i as int) == spec_find_comma(s@, j as int),
        ensures
            i <= j <= n,
            j == spec_find_comma(s@, i as int),
        decreases n - j,
    {
        if j >= n {
            break ;
        }
        if s.get_char(j) == ',' {
            break ;
        }
        j = j + 1;
    }
    j
}

/// Splits a geolocation reply into its two coordinate strings.
pub fn split_latlong(s: &str) -> (r: Result<(String, String), ResolveError>)
    ensures
        match r {
            Ok((lat, long)) => spec_split_latlong(s@) == Some((lat@, long@)),
            Err(e) => spec_split_latlong(s@) is None && e == ResolveError::MissingLongitude,
        },
{
    let n: usize = s.unicode_len();
    let c = find_comma(s, 0);
    if c == n {
        return Err(ResolveError::MissingLongitude);
    }
    let c2 = find_comma(s, c + 1);
    let lat = String::from_str(s.substring_char(0, c));
    let long = String::from_str(s.substring_char(c + 1, c2));
    Ok((lat, long))
}

/// Decision after the geolocation fetch: split the reply into the two
/// coordinate strings and go fetch the weather there; a reply without a
/// longitude, or a transport failure, is terminal.
pub fn latlong_received(reply: Result<String, String>) -> (r: ProviderAction)
    ensures
        match reply {
            Ok(text) => match spec_split_latlong(text@) {
                Some((la, lo)) => r matches ProviderAction::FetchWeather {
                    resolution: Resolution::FromGeolocation { lat, long },
                } && lat@ == la && long@ == lo,
                None => r matches ProviderAction::Abort { error } && error
                    == ProvideError::Resolve(ResolveError::MissingLongitude),
            },
            Err(msg) => r matches ProviderAction::Abort { error } && error matches
                ProvideError::Resolve(ResolveError::Transport { message }) && message@ == msg@,
        },
{
    match reply {
        Ok(text) => match split_latlong(text.as_str()) {
            Ok((lat, long)) => ProviderAction::FetchWeather {
                resolution: Resolution::FromGeolocation { lat, long },
            },
            Err(e) => ProviderAction::Abort { error: ProvideError::Resolve(e) },
        },
        Err(message) => ProviderAction::Abort {
            error: ProvideError::Resolve(ResolveError::Transport { message }),
        },
    }
}

/// Decision after the weather fetch: extract the temperature, quantize
/// it, and hand back the bytes to file in the bag.  A reply of the wrong
/// shape, a temperature out of the fraction's range, or a transport
/// failure is terminal.
pub fn weather_received(reply: Result<String, String>) -> (r: ProviderAction)
    ensures
        match reply {
            Ok(body) => match spec_weather_deci(body@) {
                Some(w) => if spec_quantize(w) is Some {
                    r matches ProviderAction::ProvideData { encoded } && spec_decode(encoded@)
                        == Some(1000 * spec_quantize(w)->Some_0)
                } else {
                    r == ProviderAction::Abort {
                        error: ProvideError::Encode(EncodeError::OutOfRange),
                    }
                },
                None => r == ProviderAction::Abort {
                    error: ProvideError::Fetch(FetchError::MalformedBody),
                },
            },
            Err(msg) => r matches ProviderAction::Abort { error } && error matches
                ProvideError::Fetch(FetchError::Transport { message }) && message@ == msg@,
        },
{
    match reply {
        Ok(body) => match weather_body_deci(body.as_str()) {
            Some(deci) => match quantize(deci) {
                Ok(q) => {
                    let encoded = q.encode();
                    proof {
                        crate::quantize::lemma_decode_encode(q);
                        assert(q.ppm() == 1000 * q.numerator());
                    }
                    ProviderAction::ProvideData { encoded }
                },
                Err(e) => ProviderAction::Abort { error: ProvideError::Encode(e) },
            },
            None => ProviderAction::Abort { error: ProvideError::Fetch(FetchError::MalformedBody) },
        },
        Err(message) => ProviderAction::Abort {
            error: ProvideError::Fetch(FetchError::Transport { message }),
        },
    }
}

/// Classifies an error reported by the authoring layer: errors under any
/// other identifier are not ours and are left alone; under our own
/// identifier the error is always fatal, whatever its payload.
pub fn try_handle_error(identifier: &[u8; 8], error: &[u8]) -> (r: Option<
    Result<(), ProvideError>,
>)
    ensures
        identifier@ == INHERENT_IDENTIFIER@ ==> (r matches Some(inner) && inner matches Err(e) && (
        e matches ProvideError::Application { raw } && raw@ == error@)),
        identifier@ != INHERENT_IDENTIFIER@ ==> r is None,
{
    if id_eq(identifier, &INHERENT_IDENTIFIER) {
        Some(Err(ProvideError::Application { raw: vstd::slice::slice_to_vec(error) }))
    } else {
        None
    }
}

/// The public-IP echo endpoint.
pub fn ip_url() -> (r: String)
    ensures
        r@ == "http://icanhazip.com"@,
{
    String::from_str("http://icanhazip.com")
}

/// The geolocation endpoint for `ip`.
pub fn latlong_url(ip: &str) -> (r: String)
    ensures
        r@ == "https://ipapi.co/"@ + ip@ + "/latlong/"@,
{
    let mut url = String::from_str("https://ipapi.co/");
    url.append(ip);
    url.append("/latlong/");
    url
}

/// The weather endpoint for the resolved coordinates.
pub fn weather_url(lat: &str, long: &str) -> (r: String)
    ensures
        r@ == "https://api.open-meteo.com/v1/forecast?latitude="@ + lat@ + "&longitude="@ + long@
            + "&current_weather=true"@,
{
    let mut url = String::from_str("https://api.open-meteo.com/v1/forecast?latitude=");
    url.append(lat);
    url.append("&longitude=");
    url.append(long);
    url.append("&current_weather=true");
    url
}

} // verus!
