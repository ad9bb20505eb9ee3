use roads::geo::{area_id, overpass_query, percent_encode, search_url, OsmType};
use roads::numfmt::{parse_milli, render_hundredths, render_milli, str_eq, u64_to_dec};
use roads::NominatimEntry;

fn entry(osm_type: OsmType, osm_id: i64, bb: [&str; 4]) -> NominatimEntry {
    NominatimEntry {
        place_id: 1,
        osm_type,
        osm_id,
        display_name: String::from("somewhere"),
        importance: String::from("0.5"),
        boundingbox: [
            String::from(bb[0]),
            String::from(bb[1]),
            String::from(bb[2]),
            String::from(bb[3]),
        ],
        category: String::from("city"),
    }
}

#[test]
fn decimal_rendering() {
    assert_eq!(u64_to_dec(0), "0");
    assert_eq!(u64_to_dec(7), "7");
    assert_eq!(u64_to_dec(1234567890), "1234567890");
    assert_eq!(render_milli(1_920_000), "1920");
    assert_eq!(render_milli(300), "0.3");
    assert_eq!(render_milli(-1_500), "-1.5");
    assert_eq!(render_milli(1_250), "1.25");
    assert_eq!(render_milli(1_234), "1.234");
    assert_eq!(render_milli(0), "0");
    assert_eq!(render_hundredths(12345), "123.45");
    assert_eq!(render_hundredths(5), "0.05");
    assert_eq!(render_hundredths(100), "1.00");
}

#[test]
fn decimal_parsing_accepts_the_grammar() {
    assert_eq!(parse_milli("1920"), Some(1_920_000));
    assert_eq!(parse_milli("0.3"), Some(300));
    assert_eq!(parse_milli("1.25"), Some(1_250));
    assert_eq!(parse_milli("-2.5"), Some(-2_500));
    assert_eq!(parse_milli("007"), Some(7_000));
    assert_eq!(parse_milli("0"), Some(0));
    assert_eq!(parse_milli("-0"), Some(0));
    assert_eq!(parse_milli("1000000000"), Some(1_000_000_000_000));
}

#[test]
fn decimal_parsing_rejects_the_rest() {
    assert_eq!(parse_milli(""), None);
    assert_eq!(parse_milli("-"), None);
    assert_eq!(parse_milli("."), None);
    assert_eq!(parse_milli(".5"), None);
    assert_eq!(parse_milli("5."), None);
    assert_eq!(parse_milli("1.2345"), None);
    assert_eq!(parse_milli("abc"), None);
    assert_eq!(parse_milli("1e5"), None);
    assert_eq!(parse_milli("1.2.3"), None);
    assert_eq!(parse_milli("12x3"), None);
    assert_eq!(parse_milli("1000000000.001"), None);
    assert_eq!(parse_milli("10000000000000"), None);
}

#[test]
fn parse_render_round_trip() {
    for v in [0i64, 300, -300, 1_250, 1_234, 1_920_000, -7, 999, 1_000] {
        let s = render_milli(v);
        assert_eq!(parse_milli(&s), Some(v), "round trip of {}", s);
    }
}

#[test]
fn string_equality() {
    assert!(str_eq("", ""));
    assert!(str_eq("abc", "abc"));
    assert!(!str_eq("abc", "abd"));
    assert!(!str_eq("abc", "abcd"));
}

#[test]
fn relation_area_id_offsets_by_3_6_billion() {
    assert_eq!(area_id(OsmType::Relation, 62422), 3_600_062_422);
    assert_eq!(area_id(OsmType::Way, 62422), 2_400_062_422);
    assert_eq!(area_id(OsmType::Relation, 0), 3_600_000_000);
}

#[test]
fn relation_query_uses_the_area() {
    let e = entry(OsmType::Relation, 62422, ["48.1", "48.2", "11.5", "11.6"]);
    let q = overpass_query(&e);
    assert!(q.contains("area(3600062422)->.a;"));
    assert!(q.contains("way(area.a)[highway]"));
    assert!(q.contains("[out:json][timeout:60]"));
    assert!(!q.contains("bbox"));
}

#[test]
fn way_query_uses_the_area() {
    let e = entry(OsmType::Way, 5, ["1", "2", "3", "4"]);
    let q = overpass_query(&e);
    assert!(q.contains("area(2400000005)->.a;"));
}

#[test]
fn node_query_reorders_the_bounding_box() {
    let e = entry(OsmType::Node, 99, ["48.1", "48.2", "11.5", "11.6"]);
    let q = overpass_query(&e);
    assert!(q.contains("[bbox:48.1,11.5,48.2,11.6]"));
    assert!(q.contains("way[highway]"));
    assert!(!q.contains("area("));
}

#[test]
fn other_type_also_uses_the_bounding_box() {
    let e = entry(OsmType::Other, 99, ["a", "b", "c", "d"]);
    let q = overpass_query(&e);
    assert!(q.contains("[bbox:a,c,b,d]"));
}

#[test]
fn search_url_shape() {
    assert_eq!(
        search_url("Berlin"),
        "https://nominatim.openstreetmap.org/search/Berlin?format=json"
    );
    assert_eq!(
        search_url("New York"),
        "https://nominatim.openstreetmap.org/search/New%20York?format=json"
    );
}

#[test]
fn percent_encoding_escapes_ascii_specials() {
    assert_eq!(percent_encode("a b/c"), "a%20b%2Fc");
    assert_eq!(percent_encode("A-Z_0.9~"), "A-Z_0.9~");
    assert_eq!(percent_encode(""), "");
}

#[test]
fn entry_duplicate_copies_every_field() {
    let e = entry(OsmType::Relation, 62422, ["48.1", "48.2", "11.5", "11.6"]);
    let d = e.duplicate();
    assert_eq!(d.place_id, e.place_id);
    assert_eq!(d.osm_id, e.osm_id);
    assert_eq!(d.display_name, e.display_name);
    assert_eq!(d.importance, e.importance);
    assert_eq!(d.boundingbox, e.boundingbox);
    assert_eq!(d.category, e.category);
    assert!(matches!(d.osm_type, OsmType::Relation));
}
