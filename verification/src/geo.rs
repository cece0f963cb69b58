//! Geolocation: the request for an address, and what its reply says.

use vstd::prelude::*;

use crate::addr::{is_non_public_ip, IpAddr};
use crate::results::opt_view;

verus! {

/// Where an address is, as the lookup service tells it.
///
/// A coordinate is the bit pattern of a binary64 number.
#[derive(Clone, Debug, Default)]
pub struct GeoInfo {
    pub country: String,
    pub region: String,
    pub city: String,
    pub isp: String,
    pub org: String,
    pub latitude: Option<u64>,
    pub longitude: Option<u64>,
}

/// What a [`GeoInfo`] holds.
pub struct GeoModel {
    pub country: Seq<char>,
    pub region: Seq<char>,
    pub city: Seq<char>,
    pub isp: Seq<char>,
    pub org: Seq<char>,
    pub latitude: Option<u64>,
    pub longitude: Option<u64>,
}

impl View for GeoInfo {
    type V = GeoModel;

    open spec fn view(&self) -> GeoModel {
        GeoModel {
            country: self.country@,
            region: self.region@,
            city: self.city@,
            isp: self.isp@,
            org: self.org@,
            latitude: self.latitude,
            longitude: self.longitude,
        }
    }
}

/// A JSON value. A number is the bit pattern of the binary64 number that stands
/// for it.
pub enum JsonModel {
    Null,
    Bool(bool),
    Number(u64),
    Text(Seq<char>),
    Array(Seq<JsonModel>),
    Object(Map<Seq<char>, JsonModel>),
}

/// A parsed JSON value of the `serde_json` crate.
#[verifier::external_type_specification]
#[verifier::external_body]
pub struct ExJsonValue(serde_json::Value);

/// What a parsed value holds.
pub uninterp spec fn json_model(value: serde_json::Value) -> JsonModel;

/// What `serde_json` reads from a byte string, `None` where it reports an error.
pub uninterp spec fn json_document(body: Seq<u8>) -> Option<JsonModel>;

/// `serde_json::from_slice`: parses a JSON document. The outcome depends on the
/// bytes alone; an error keeps nothing but the fact that there was one.
#[verifier::external_body]
fn parse_json(body: &[u8]) -> (r: Option<serde_json::Value>)
    ensures
        match r {
            Some(value) => json_document(body@) == Some(json_model(value)),
            None => json_document(body@) is None,
        },
{
    serde_json::from_slice(body).ok()
}

/// `serde_json::Value::get` with a string: the member of that name of an
/// object, and nothing for any other value.
#[verifier::external_body]
fn json_get<'a>(value: &'a serde_json::Value, key: &str) -> (r: Option<&'a serde_json::Value>)
    ensures
        match r {
            Some(found) => member(json_model(*value), key@) == Some(json_model(*found)),
            None => member(json_model(*value), key@) is None,
        },
{
    value.get(key)
}

/// `serde_json::Value::as_f64`, handed on as its bit pattern: the number that a
/// number value stands for, and nothing for any other value.
#[verifier::external_body]
fn json_number(value: &serde_json::Value) -> (r: Option<u64>)
    ensures
        r == number(json_model(*value)),
{
    match value.as_f64() {
        Some(x) => Some(x.to_bits()),
        None => None,
    }
}

/// `serde_json::Value::as_str`: the text of a string value, and nothing for any
/// other value.
pub assume_specification[ serde_json::Value::as_str ](value: &serde_json::Value) -> (r: Option<&str>)
    ensures
        match r {
            Some(s) => json_model(*value) == JsonModel::Text(s@),
            None => !(json_model(*value) is Text),
        },
;

/// `serde_json::Value::as_bool`: the truth of a boolean value, and nothing for
/// any other value.
pub assume_specification[ serde_json::Value::as_bool ](value: &serde_json::Value) -> (r: Option<bool>)
    ensures
        match r {
            Some(b) => json_model(*value) == JsonModel::Bool(b),
            None => !(json_model(*value) is Bool),
        },
;

/// The member of an object under `key`.
pub open spec fn member(value: JsonModel, key: Seq<char>) -> Option<JsonModel> {
    match value {
        JsonModel::Object(members) => if members.dom().contains(key) {
            Some(members[key])
        } else {
            None
        },
        _ => None,
    }
}

/// The member that is reached by `outer` and then `inner`.
pub open spec fn member_of(value: JsonModel, outer: Seq<char>, inner: Seq<char>) -> Option<
    JsonModel,
> {
    match member(value, outer) {
        Some(found) => member(found, inner),
        None => None,
    }
}

/// The text of a string; every other value, and a missing one, gives the empty
/// text.
pub open spec fn text_or_empty(value: Option<JsonModel>) -> Seq<char> {
    match value {
        Some(JsonModel::Text(s)) => s,
        _ => Seq::empty(),
    }
}

/// The number that a number value stands for.
pub open spec fn number(value: JsonModel) -> Option<u64> {
    match value {
        JsonModel::Number(bits) => Some(bits),
        _ => None,
    }
}

/// The number of the member under `key`.
pub open spec fn member_number(value: JsonModel, key: Seq<char>) -> Option<u64> {
    match member(value, key) {
        Some(found) => number(found),
        None => None,
    }
}

/// What a reply of the lookup service says: nothing where it reports failure,
/// else whatever of the location it holds.
pub open spec fn geo_of(reply: JsonModel) -> Option<GeoModel> {
    if member(reply, "success"@) == Some(JsonModel::Bool(false)) {
        None
    } else {
        Some(
            GeoModel {
                country: text_or_empty(member(reply, "country"@)),
                region: text_or_empty(member(reply, "region"@)),
                city: text_or_empty(member(reply, "city"@)),
                isp: text_or_empty(member_of(reply, "connection"@, "isp"@)),
                org: text_or_empty(member_of(reply, "connection"@, "org"@)),
                latitude: member_number(reply, "latitude"@),
                longitude: member_number(reply, "longitude"@),
            },
        )
    }
}

/// The text of the member under `key`; empty where there is none, or none that
/// is a string.
pub fn json_string(value: &serde_json::Value, key: &str) -> (r: String)
    ensures
        r@ == text_or_empty(member(json_model(*value), key@)),
{
    match json_get(value, key) {
        Some(found) => match found.as_str() {
            Some(s) => s.to_owned(),
            None => String::new(),
        },
        None => String::new(),
    }
}

fn json_string_of(value: &serde_json::Value, outer: &str, inner: &str) -> (r: String)
    ensures
        r@ == text_or_empty(member_of(json_model(*value), outer@, inner@)),
{
    match json_get(value, outer) {
        Some(found) => json_string(found, inner),
        None => String::new(),
    }
}

fn json_number_of(value: &serde_json::Value, key: &str) -> (r: Option<u64>)
    ensures
        r == member_number(json_model(*value), key@),
{
    match json_get(value, key) {
        Some(found) => json_number(found),
        None => None,
    }
}

/// Reads a parsed reply of the lookup service.
pub fn read_geo(value: &serde_json::Value) -> (r: Option<GeoInfo>)
    ensures
        opt_view(r) == geo_of(json_model(*value)),
{
    if let Some(success) = json_get(value, "success") {
        if let Some(flag) = success.as_bool() {
            if !flag {
                return None;
            }
        }
    }
    Some(
        GeoInfo {
            country: json_string(value, "country"),
            region: json_string(value, "region"),
            city: json_string(value, "city"),
            isp: json_string_of(value, "connection", "isp"),
            org: json_string_of(value, "connection", "org"),
            latitude: json_number_of(value, "latitude"),
            longitude: json_number_of(value, "longitude"),
        },
    )
}

/// Reads a reply: nothing unless its status reports success and its body can be
/// read as JSON.
pub fn geolocate_reply(success: bool, body: &[u8]) -> (r: Option<GeoInfo>)
    ensures
        match (success, json_document(body@)) {
            (true, Some(reply)) => opt_view(r) == geo_of(reply),
            _ => r is None,
        },
{
    if !success {
        return None;
    }
    match parse_json(body) {
        Some(value) => read_geo(&value),
        None => None,
    }
}

/// A lookup to be made: where, and how many milliseconds it may take.
#[derive(Clone, Debug)]
pub struct GeoRequest {
    pub url: String,
    pub timeout_ms: u64,
}

/// Three times the given timeout, as far as the type holds it.
pub open spec fn geo_timeout(timeout_ms: u64) -> int {
    if timeout_ms * 3 > u64::MAX {
        u64::MAX as int
    } else {
        timeout_ms * 3
    }
}

/// The lookup for `ip`: none for an address outside the public Internet.
pub fn geolocate_request(ip: IpAddr, timeout_ms: u64) -> (r: Option<GeoRequest>)
    ensures
        match r {
            Some(request) => {
                &&& !crate::addr::non_public(ip)
                &&& request.url@ == "https://ipwho.is/"@ + crate::addr::ip_text(ip)
                &&& request.timeout_ms == geo_timeout(timeout_ms)
            },
            None => crate::addr::non_public(ip),
        },
{
    if is_non_public_ip(ip) {
        return None;
    }
    let mut url: String = "https://ipwho.is/".to_owned();
    ip.push_text(&mut url);
    let tripled: u64 = match timeout_ms.checked_mul(3) {
        Some(t) => t,
        None => u64::MAX,
    };
    Some(GeoRequest { url, timeout_ms: tripled })
}

/// What is shown of the member under `key` is its text where it is a string, and
/// empty otherwise.
pub open spec fn shows_text(members: Map<Seq<char>, JsonModel>, key: Seq<char>, shown: Seq<char>) -> bool {
    if members.dom().contains(key) && members[key] is Text {
        members[key] == JsonModel::Text(shown)
    } else {
        shown == Seq::<char>::empty()
    }
}

/// What is shown of the member under `key` is its number where it is one, to the
/// last bit, and nothing otherwise.
pub open spec fn shows_number(
    members: Map<Seq<char>, JsonModel>,
    key: Seq<char>,
    shown: Option<u64>,
) -> bool {
    if members.dom().contains(key) && members[key] is Number {
        shown is Some && members[key] == JsonModel::Number(shown->0)
    } else {
        shown is None
    }
}

/// A reply is refused exactly where it reports failure. From any other, each text
/// and each coordinate is read as it stands in the member of its name.
pub proof fn a_reply_is_read_as_it_stands(
    value: &serde_json::Value,
    members: Map<Seq<char>, JsonModel>,
    r: Option<GeoInfo>,
)
    requires
        call_ensures(read_geo, (value,), r),
        json_model(*value) == JsonModel::Object(members),
    ensures
        r is None <==> members.dom().contains("success"@) && members["success"@]
            == JsonModel::Bool(false),
        r matches Some(geo) ==> {
            &&& shows_text(members, "country"@, geo.country@)
            &&& shows_text(members, "region"@, geo.region@)
            &&& shows_text(members, "city"@, geo.city@)
            &&& shows_number(members, "latitude"@, geo.latitude)
            &&& shows_number(members, "longitude"@, geo.longitude)
        },
{
    assert(opt_view(r) == geo_of(JsonModel::Object(members)));
    if let Some(geo) = r {
        assert(geo_of(JsonModel::Object(members)) == Some(geo@));
    }
}

/// Provider and organization are read as they stand in the object under
/// `connection`, and are empty where there is none.
pub proof fn a_connection_is_read_as_it_stands(
    value: &serde_json::Value,
    members: Map<Seq<char>, JsonModel>,
    geo: GeoInfo,
)
    requires
        call_ensures(read_geo, (value,), Some(geo)),
        json_model(*value) == JsonModel::Object(members),
    ensures
        members.dom().contains("connection"@) && members["connection"@] is Object ==> {
            let connection = members["connection"@]->Object_0;
            &&& shows_text(connection, "isp"@, geo.isp@)
            &&& shows_text(connection, "org"@, geo.org@)
        },
        !(members.dom().contains("connection"@) && members["connection"@] is Object) ==> {
            &&& geo.isp@ == Seq::<char>::empty()
            &&& geo.org@ == Seq::<char>::empty()
        },
{
    assert(opt_view(Some(geo)) == geo_of(JsonModel::Object(members)));
    assert(geo_of(JsonModel::Object(members)) == Some(geo@));
}

/// A reply that is no object reports neither failure nor anything else.
pub proof fn other_replies_say_nothing(value: &serde_json::Value, r: Option<GeoInfo>)
    requires
        call_ensures(read_geo, (value,), r),
        !(json_model(*value) is Object),
    ensures
        r matches Some(geo) && {
            &&& geo.country@.len() + geo.region@.len() + geo.city@.len() == 0
            &&& geo.isp@.len() + geo.org@.len() == 0
            &&& geo.latitude is None
            &&& geo.longitude is None
        },
{
    assert(opt_view(r) == geo_of(json_model(*value)));
    assert(geo_of(json_model(*value)) is Some);
    assert(opt_view(r) == Some(r->0@));
}

/// A member is read by its name: its text where it is a string, else nothing.
pub proof fn a_member_is_read_by_its_name(
    value: &serde_json::Value,
    key: &str,
    members: Map<Seq<char>, JsonModel>,
    r: String,
)
    requires
        call_ensures(json_string, (value, key), r),
        json_model(*value) == JsonModel::Object(members),
    ensures
        shows_text(members, key@, r@),
{
}

/// What a reply says is what its document says; a reply whose status reports no
/// success, or whose body is no document, says nothing.
pub proof fn a_reply_says_what_its_document_says(
    success: bool,
    body: &[u8],
    r: Option<GeoInfo>,
    value: &serde_json::Value,
    read: Option<GeoInfo>,
)
    requires
        call_ensures(geolocate_reply, (success, body), r),
        call_ensures(read_geo, (value,), read),
    ensures
        !success ==> r is None,
        json_document(body@) is None ==> r is None,
        success && json_document(body@) == Some(json_model(*value)) ==> opt_view(r) == opt_view(
            read,
        ),
{
}

/// An address is looked up exactly where it belongs to the public Internet, under
/// a name that ends in its text, with three times the timeout as far as that can
/// be told.
pub proof fn a_lookup_names_its_address(ip: IpAddr, timeout_ms: u64, r: Option<GeoRequest>)
    requires
        call_ensures(geolocate_request, (ip, timeout_ms), r),
    ensures
        r is None <==> crate::addr::non_public(ip),
        r matches Some(request) ==> {
            &&& "https://ipwho.is/"@.is_prefix_of(request.url@)
            &&& request.url@.skip("https://ipwho.is/"@.len() as int) == crate::addr::ip_text(ip)
            &&& timeout_ms <= request.timeout_ms <= 3 * timeout_ms
            &&& request.timeout_ms < u64::MAX ==> request.timeout_ms == 3 * timeout_ms
            &&& 3 * timeout_ms < u64::MAX ==> request.timeout_ms == 3 * timeout_ms
        },
{
    if let Some(request) = r {
        let site = "https://ipwho.is/"@;
        assert(request.url@ == site + crate::addr::ip_text(ip));
        assert(request.url@.skip(site.len() as int) =~= crate::addr::ip_text(ip));
        assert(site =~= request.url@.take(site.len() as int));
    }
}

/// No two addresses share a lookup.
pub proof fn lookups_are_told_apart(
    a: IpAddr,
    b: IpAddr,
    timeout_ms: u64,
    for_a: GeoRequest,
    for_b: GeoRequest,
)
    requires
        call_ensures(geolocate_request, (a, timeout_ms), Some(for_a)),
        call_ensures(geolocate_request, (b, timeout_ms), Some(for_b)),
        for_a.url@ == for_b.url@,
    ensures
        a == b,
{
    a_lookup_names_its_address(a, timeout_ms, Some(for_a));
    a_lookup_names_its_address(b, timeout_ms, Some(for_b));
    crate::notation::text_names_one_address(a, b);
}

} // verus!
