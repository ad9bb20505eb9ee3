//! Geocoder results and the queries built from them.
//!
//! A place found by the geocoding service becomes a `NominatimEntry`.
//! From an entry the library builds the exact text of the road query
//! for the Overpass service, and from a search string the exact URL of
//! the geocoding request.  The network transport lives outside the
//! library; everything here is plain string construction, specified to
//! the character.

use vstd::prelude::*;

use crate::numfmt::dec_rep;
use crate::numfmt::u64_to_dec;

verus! {

/// The kind of OpenStreetMap object a geocoder result refers to.
#[derive(Clone, Copy, PartialEq, Eq, Structural, Debug)]
pub enum OsmType {
    Relation,
    Way,
    Node,
    Other,
}

/// One geocoding result: a candidate place.
pub struct NominatimEntry {
    pub place_id: i64,
    pub osm_type: OsmType,
    pub osm_id: i64,
    pub display_name: String,
    /// Relevance score as received, kept as its decimal text.
    pub importance: String,
    /// Bounding box as four decimal strings: min-lat, max-lat,
    /// min-lon, max-lon.
    pub boundingbox: [String; 4],
    /// Category of the object, as the geocoder reports it.
    pub category: String,
}

/// Offset added to an object id to form an Overpass area id.
pub const AREA_RELATION_BASE: i64 = 3_600_000_000;

/// Offset added to a way id to form an Overpass area id.
pub const AREA_WAY_BASE: i64 = 2_400_000_000;

impl NominatimEntry {
    /// An entry whose object id can form an Overpass area id.
    pub open spec fn wf(&self) -> bool {
        (self.osm_type == OsmType::Relation || self.osm_type == OsmType::Way) ==> 0
            <= self.osm_id <= i64::MAX - AREA_RELATION_BASE
    }

    /// A field-for-field copy.
    pub fn duplicate(&self) -> (r: Self)
        ensures
            r == *self,
    {
        let r = NominatimEntry {
            place_id: self.place_id,
            osm_type: self.osm_type,
            osm_id: self.osm_id,
            display_name: self.display_name.clone(),
            importance: self.importance.clone(),
            boundingbox: [
                self.boundingbox[0].clone(),
                self.boundingbox[1].clone(),
                self.boundingbox[2].clone(),
                self.boundingbox[3].clone(),
            ],
            category: self.category.clone(),
        };
        proof {
            assert(r.boundingbox =~= self.boundingbox);
        }
        r
    }
}

/// The Overpass area id of an object: the relation or way id under the
/// service's fixed offsets.
pub open spec fn area_id_spec(t: OsmType, osm_id: int) -> int {
    if t == OsmType::Relation {
        AREA_RELATION_BASE + osm_id
    } else {
        AREA_WAY_BASE + osm_id
    }
}

/// Computes the Overpass area id for a relation or way.
pub fn area_id(t: OsmType, osm_id: i64) -> (r: i64)
    requires
        t == OsmType::Relation || t == OsmType::Way,
        0 <= osm_id <= i64::MAX - AREA_RELATION_BASE,
    ensures
        r == area_id_spec(t, osm_id as int),
{
    if t == OsmType::Relation {
        AREA_RELATION_BASE + osm_id
    } else {
        AREA_WAY_BASE + osm_id
    }
}

/// The road query over an Overpass area.
pub open spec fn area_query_spec(id: int) -> Seq<char> {
    "[out:json][timeout:60];\narea("@ + dec_rep(id as nat) + ")->.a;\nway(area.a)[highway];\nout geom;"@
}

/// The road query over a bounding box: the box's four decimal strings
/// reordered to min-lat, min-lon, max-lat, max-lon.
pub open spec fn bbox_query_spec(bb: Seq<String>) -> Seq<char> {
    "[out:json][timeout:60][bbox:"@ + bb[0]@ + ","@ + bb[2]@ + ","@ + bb[1]@ + ","@ + bb[3]@
        + "];\nway[highway];\nout geom;"@
}

/// The Overpass query for an entry: over the object's area for a
/// relation or way, over the entry's bounding box otherwise.
pub open spec fn overpass_query_spec(e: NominatimEntry) -> Seq<char> {
    if e.osm_type == OsmType::Relation || e.osm_type == OsmType::Way {
        area_query_spec(area_id_spec(e.osm_type, e.osm_id as int))
    } else {
        bbox_query_spec(e.boundingbox@)
    }
}

/// Builds the Overpass road query for `e`.
pub fn overpass_query(e: &NominatimEntry) -> (r: String)
    requires
        e.wf(),
    ensures
        r@ == overpass_query_spec(*e),
{
    if e.osm_type == OsmType::Relation || e.osm_type == OsmType::Way {
        let id = area_id(e.osm_type, e.osm_id);
        let mut s = String::from_str("[out:json][timeout:60];\narea(");
        let ds = u64_to_dec(id as u64);
        s.append(ds.as_str());
        s.append(")->.a;\nway(area.a)[highway];\nout geom;");
        proof {
            assert(s@ =~= overpass_query_spec(*e));
        }
        s
    } else {
        let mut s = String::from_str("[out:json][timeout:60][bbox:");
        s.append(e.boundingbox[0].as_str());
        s.append(",");
        s.append(e.boundingbox[2].as_str());
        s.append(",");
        s.append(e.boundingbox[1].as_str());
        s.append(",");
        s.append(e.boundingbox[3].as_str());
        s.append("];\nway[highway];\nout geom;");
        proof {
            assert(s@ =~= overpass_query_spec(*e));
        }
        s
    }
}

/// Characters that stand for themselves in a URL path segment.
pub open spec fn is_unreserved(c: char) -> bool {
    ||| 65 <= (c as u32) <= 90
    ||| 97 <= (c as u32) <= 122
    ||| 48 <= (c as u32) <= 57
    ||| c == '-'
    ||| c == '.'
    ||| c == '_'
    ||| c == '~'
}

/// The upper-case hexadecimal digit for `d` in `0 ..= 15`.
pub open spec fn hex_char(d: int) -> char {
    if d < 10 {
        crate::numfmt::digit_char(d)
    } else if d == 10 {
        'A'
    } else if d == 11 {
        'B'
    } else if d == 12 {
        'C'
    } else if d == 13 {
        'D'
    } else if d == 14 {
        'E'
    } else {
        'F'
    }
}

/// How one character is written in the encoded URL: unreserved ASCII
/// stands for itself, other ASCII becomes a percent escape, and code
/// points beyond ASCII pass through for the transport layer.
pub open spec fn enc_char(c: char) -> Seq<char> {
    if is_unreserved(c) || (c as u32) >= 128 {
        seq![c]
    } else {
        seq!['%', hex_char(((c as u32) / 16) as int), hex_char(((c as u32) % 16) as int)]
    }
}

/// The whole string under `enc_char`, character by character.
pub open spec fn percent_encode_spec(s: Seq<char>) -> Seq<char>
    decreases s.len(),
{
    if s.len() == 0 {
        Seq::<char>::empty()
    } else {
        percent_encode_spec(s.drop_last()) + enc_char(s.last())
    }
}

/// The upper-case hexadecimal digit character.
fn hex_char_exec(d: u32) -> (r: char)
    requires
        d < 16,
    ensures
        r == hex_char(d as int),
{
    if d == 0 {
        '0'
    } else if d == 1 {
        '1'
    } else if d == 2 {
        '2'
    } else if d == 3 {
        '3'
    } else if d == 4 {
        '4'
    } else if d == 5 {
        '5'
    } else if d == 6 {
        '6'
    } else if d == 7 {
        '7'
    } else if d == 8 {
        '8'
    } else if d == 9 {
        '9'
    } else if d == 10 {
        'A'
    } else if d == 11 {
        'B'
    } else if d == 12 {
        'C'
    } else if d == 13 {
        'D'
    } else if d == 14 {
        'E'
    } else {
        'F'
    }
}

/// Percent-encodes `s` for use as a URL path segment.
pub fn percent_encode(s: &str) -> (r: String)
    ensures
        r@ == percent_encode_spec(s@),
{
    let len = s.unicode_len();
    let mut out = String::new();
    let mut i: usize = 0;
    while i < len
        invariant
            s@.len() == len,
            i <= len,
            out@ == percent_encode_spec(s@.take(i as int)),
        decreases len - i,
    {
        let c = s.get_char(i);
        let cu = c as u32;
        let unreserved = (65 <= cu && cu <= 90) || (97 <= cu && cu <= 122) || (48 <= cu && cu
            <= 57) || c == '-' || c == '.' || c == '_' || c == '~';
        if unreserved || cu >= 128 {
            out.push(c);
        } else {
            out.push('%');
            out.push(hex_char_exec(cu / 16));
            out.push(hex_char_exec(cu % 16));
        }
        proof {
            assert(s@.take(i + 1).drop_last() =~= s@.take(i as int));
            assert(s@.take(i + 1).last() == s@[i as int]);
            assert(out@ =~= percent_encode_spec(s@.take(i + 1)));
        }
        i += 1;
    }
    proof {
        assert(s@.take(len as int) =~= s@);
    }
    out
}

/// The geocoding request URL for a search string.
pub open spec fn search_url_spec(place: Seq<char>) -> Seq<char> {
    "https://nominatim.openstreetmap.org/search/"@ + percent_encode_spec(place)
        + "?format=json"@
}

/// Builds the geocoding request URL for `place`.
pub fn search_url(place: &str) -> (r: String)
    ensures
        r@ == search_url_spec(place@),
{
    let mut s = String::from_str("https://nominatim.openstreetmap.org/search/");
    let enc = percent_encode(place);
    s.append(enc.as_str());
    s.append("?format=json");
    proof {
        assert(s@ =~= search_url_spec(place@));
    }
    s
}

} // verus!
