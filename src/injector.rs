use crate::json::{at_path, number_at, text_at, Json, JsonNumber};
use vstd::prelude::*;
use vstd::string::StringExecFns;

verus! {

pub const PRUX_ADDR: &'static str = "Prux-Addr";

pub const PRUX_CITY: &'static str = "Prux-City";

pub const PRUX_COUNTRY: &'static str = "Prux-Country";

pub const PRUX_PROVINCE: &'static str = "Prux-Province";

pub const PRUX_COORD: &'static str = "Prux-Coord";

pub const PRUX_COORD_ACCURACY: &'static str = "Prux-Coord-Accuracy";

pub const PRUX_TIMEZONE: &'static str = "Prux-Timezone";

pub const PRUX_ISP: &'static str = "Prux-Isp";

pub const PRUX_NETWORK: &'static str = "Prux-Network";

/// Header name/value pairs in the order they were set; a later pair for a
/// name replaces an earlier one.
pub open spec fn pairs_map(s: Seq<(String, String)>) -> Map<Seq<char>, Seq<char>>
    decreases s.len(),
{
    if s.len() == 0 {
        Map::empty()
    } else {
        pairs_map(s.drop_last()).insert(s.last().0@, s.last().1@)
    }
}

/// The headers to add to a request, by name.
pub struct EnrichmentSet {
    pairs: Vec<(String, String)>,
}

impl View for EnrichmentSet {
    type V = Map<Seq<char>, Seq<char>>;

    closed spec fn view(&self) -> Map<Seq<char>, Seq<char>> {
        pairs_map(self.pairs@)
    }
}

impl EnrichmentSet {
    pub fn new() -> (r: EnrichmentSet)
        ensures
            r@ == Map::<Seq<char>, Seq<char>>::empty(),
    {
        EnrichmentSet { pairs: Vec::new() }
    }

    /// Sets `name` to `value`, replacing an earlier value.
    pub fn insert(&mut self, name: String, value: String)
        ensures
            final(self)@ == old(self)@.insert(name@, value@),
    {
        self.pairs.push((name, value));
        proof {
            assert(self.pairs@.drop_last() =~= old(self).pairs@);
        }
    }

    /// The pairs in the order they were set; applying them in turn, each
    /// replacing what an earlier one set, gives this set.
    pub fn pairs(&self) -> (r: &Vec<(String, String)>)
        ensures
            pairs_map(r@) == self@,
    {
        &self.pairs
    }
}

/// `m` with `name` set to `v`, when there is a value.
pub open spec fn with_value(m: Map<Seq<char>, Seq<char>>, name: Seq<char>, v: Option<Seq<char>>) -> Map<
    Seq<char>,
    Seq<char>,
> {
    match v {
        Some(t) => m.insert(name, t),
        None => m,
    }
}

/// `"<lat>,<long>"` when the reply gives both coordinates as numbers.
pub open spec fn coord_text(j: Json) -> Option<Seq<char>> {
    match (
        number_at(j, seq!["location"@, "latitude"@]),
        number_at(j, seq!["location"@, "longitude"@]),
    ) {
        (Some(lat), Some(long)) => Some(lat.text@ + ","@ + long.text@),
        _ => None,
    }
}

pub open spec fn accuracy_text(j: Json) -> Option<Seq<char>> {
    match number_at(j, seq!["location"@, "accuracy_radius"@]) {
        Some(n) => Some(n.rounded@),
        None => None,
    }
}

/// The headers that a GeoIP reply adds to `m`: each field that the reply
/// holds with the expected type sets its header; the others are skipped.
pub open spec fn location_headers(m: Map<Seq<char>, Seq<char>>, j: Json) -> Map<Seq<char>, Seq<char>> {
    let m1 = with_value(m, PRUX_CITY@, text_at(j, seq!["city"@, "names"@, "en"@]));
    let m2 = with_value(m1, PRUX_COUNTRY@, text_at(j, seq!["country"@, "names"@, "en"@]));
    let m3 = with_value(m2, PRUX_COORD@, coord_text(j));
    let m4 = with_value(m3, PRUX_COORD_ACCURACY@, accuracy_text(j));
    let m5 = with_value(m4, PRUX_TIMEZONE@, text_at(j, seq!["location"@, "time_zone"@]));
    let m6 = with_value(m5, PRUX_PROVINCE@, text_at(j, seq!["subdivisions"@, "iso_code"@]));
    let m7 = with_value(m6, PRUX_ISP@, text_at(j, seq!["traits"@, "isp"@]));
    with_value(m7, PRUX_NETWORK@, text_at(j, seq!["traits"@, "network"@]))
}

/// The value reached by two keys.
fn lookup2<'a>(j: &'a Json, a: &str, b: &str) -> (r: Option<&'a Json>)
    ensures
        r is Some <==> at_path(*j, seq![a@, b@]) is Some,
        r matches Some(v) ==> at_path(*j, seq![a@, b@]) == Some(*v),
{
    assert(seq![a@, b@].drop_first() =~= seq![b@]);
    assert(seq![b@].drop_first() =~= Seq::<Seq<char>>::empty());
    proof {
        reveal_with_fuel(at_path, 3);
    }
    match j.get(a) {
        Some(x) => {
            match x.get(b) {
                Some(y) => Some(y),
                None => None,
            }
        },
        None => None,
    }
}

/// The value reached by three keys.
fn lookup3<'a>(j: &'a Json, a: &str, b: &str, c: &str) -> (r: Option<&'a Json>)
    ensures
        r is Some <==> at_path(*j, seq![a@, b@, c@]) is Some,
        r matches Some(v) ==> at_path(*j, seq![a@, b@, c@]) == Some(*v),
{
    assert(seq![a@, b@, c@].drop_first() =~= seq![b@, c@]);
    proof {
        reveal_with_fuel(at_path, 2);
    }
    match j.get(a) {
        Some(x) => lookup2(x, b, c),
        None => None,
    }
}

fn text_of(v: Option<&Json>) -> (r: Option<String>)
    ensures
        match v {
            Some(Json::Str(s)) => r == Some(*s),
            _ => r is None,
        },
{
    match v {
        Some(j) => match j.as_str() {
            Some(s) => Some(s.clone()),
            None => None,
        },
        None => None,
    }
}

fn number_of(v: Option<&Json>) -> (r: Option<&JsonNumber>)
    ensures
        match v {
            Some(Json::Number(n)) => r == Some(n),
            _ => r is None,
        },
{
    match v {
        Some(j) => j.as_number(),
        None => None,
    }
}

fn set_if(m: &mut EnrichmentSet, name: &str, v: Option<String>)
    ensures
        final(m)@ == with_value(
            old(m)@,
            name@,
            match v {
                Some(s) => Some(s@),
                None => None,
            },
        ),
{
    match v {
        Some(s) => m.insert(String::from_str(name), s),
        None => {},
    }
}

/// Sets `Prux-Addr` to the client address text.
pub fn add_ip_hdr(ip: &str, hdr_map: &mut EnrichmentSet)
    ensures
        final(hdr_map)@ == old(hdr_map)@.insert(PRUX_ADDR@, ip@),
{
    hdr_map.insert(String::from_str(PRUX_ADDR), String::from_str(ip));
}

/// Sets `Prux-Addr` to the client address text, then adds the location
/// headers that the GeoIP reply for that address gives.
pub fn get_location_hdr(ip: &str, json: &Json, hdr_map: &mut EnrichmentSet)
    ensures
        final(hdr_map)@ == location_headers(old(hdr_map)@.insert(PRUX_ADDR@, ip@), *json),
{
    add_ip_hdr(ip, hdr_map);
    set_if(hdr_map, PRUX_CITY, text_of(lookup3(json, "city", "names", "en")));
    set_if(hdr_map, PRUX_COUNTRY, text_of(lookup3(json, "country", "names", "en")));
    let coord = match (
        number_of(lookup2(json, "location", "latitude")),
        number_of(lookup2(json, "location", "longitude")),
    ) {
        (Some(lat), Some(long)) => {
            let mut s = lat.text.clone();
            s.append(",");
            s.append(long.text.as_str());
            Some(s)
        },
        _ => None,
    };
    set_if(hdr_map, PRUX_COORD, coord);
    let accuracy = match number_of(lookup2(json, "location", "accuracy_radius")) {
        Some(n) => Some(n.rounded.clone()),
        None => None,
    };
    set_if(hdr_map, PRUX_COORD_ACCURACY, accuracy);
    set_if(hdr_map, PRUX_TIMEZONE, text_of(lookup2(json, "location", "time_zone")));
    set_if(hdr_map, PRUX_PROVINCE, text_of(lookup2(json, "subdivisions", "iso_code")));
    set_if(hdr_map, PRUX_ISP, text_of(lookup2(json, "traits", "isp")));
    set_if(hdr_map, PRUX_NETWORK, text_of(lookup2(json, "traits", "network")));
}

/// The full set of headers for a client: `Prux-Addr`, then what the GeoIP
/// reply gives, when there is one.
pub fn enrichment_for(ip: &str, reply: Option<&Json>) -> (r: EnrichmentSet)
    ensures
        r@ == match reply {
            Some(j) => location_headers(Map::empty().insert(PRUX_ADDR@, ip@), *j),
            None => Map::empty().insert(PRUX_ADDR@, ip@),
        },
{
    let mut set = EnrichmentSet::new();
    match reply {
        Some(j) => get_location_hdr(ip, j, &mut set),
        None => add_ip_hdr(ip, &mut set),
    }
    set
}

/// Two runs of the injector on the same reply give the same headers.
pub proof fn lemma_injection_deterministic(m: Map<Seq<char>, Seq<char>>, j1: Json, j2: Json)
    requires
        j1 == j2,
    ensures
        location_headers(m, j1) == location_headers(m, j2),
{
}

} // verus!
