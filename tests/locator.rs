use emcomm_launcher::locator::{
    gridsquare_from_output, lat_long_to_maidenhead, parse_coordinate, Coordinate,
};

fn coord(text: &str) -> Coordinate {
    parse_coordinate(text).expect("a coordinate")
}

fn locator_of(lat: &str, lon: &str) -> String {
    lat_long_to_maidenhead(coord(lat), coord(lon))
}

#[test]
fn origin_is_centre_of_grid() {
    assert_eq!(locator_of("0", "0"), "JJ00aa");
}

#[test]
fn south_west_corner_of_the_world() {
    assert_eq!(locator_of("-90", "-180"), "AA00aa");
}

#[test]
fn north_east_corner_of_the_world() {
    assert_eq!(locator_of("90", "180"), "SS00aa");
}

#[test]
fn square_boundary_is_not_rounded() {
    assert_eq!(locator_of("0", "-178"), "AJ10aa");
    assert_eq!(locator_of("0", "-178.0001"), "AJ00xa");
    assert_eq!(locator_of("1", "0"), "JJ01aa");
    assert_eq!(locator_of("0.9999", "0"), "JJ00ax");
}

#[test]
fn field_boundary_is_not_rounded() {
    assert_eq!(locator_of("10", "20"), "KK00aa");
    assert_eq!(locator_of("9.99", "19.99"), "JJ99xx");
}

#[test]
fn subsquare_boundary_is_not_rounded() {
    // 15 minutes north and east of the origin: the fourth subsquare east,
    // the seventh north
    assert_eq!(locator_of("0.25", "0.25"), "JJ00dg");
    assert_eq!(locator_of("0.2499", "0.2499"), "JJ00cf");
}

#[test]
fn portland_locator() {
    assert_eq!(locator_of("45.5", "-122.6"), "CN85qm");
}

#[test]
fn same_value_same_locator() {
    let a = locator_of("45.5", "-122.6");
    let b = locator_of("45.50", "-122.600");
    let c = locator_of("+45.5", "-122.6");
    assert_eq!(a, b);
    assert_eq!(a, c);
    assert_eq!(a, locator_of("45.5", "-122.6"));
}

#[test]
fn parses_decimal_forms() {
    assert_eq!(parse_coordinate("-122.6"), Some(Coordinate { units: -1226, scale: 1 }));
    assert_eq!(parse_coordinate("45"), Some(Coordinate { units: 45, scale: 0 }));
    assert_eq!(parse_coordinate("+5."), Some(Coordinate { units: 5, scale: 0 }));
    assert_eq!(parse_coordinate(".5"), Some(Coordinate { units: 5, scale: 1 }));
    assert_eq!(parse_coordinate("007.250"), Some(Coordinate { units: 7250, scale: 3 }));
}

#[test]
fn rejects_other_text() {
    assert_eq!(parse_coordinate(""), None);
    assert_eq!(parse_coordinate("-"), None);
    assert_eq!(parse_coordinate("."), None);
    assert_eq!(parse_coordinate("1.2.3"), None);
    assert_eq!(parse_coordinate("1e5"), None);
    assert_eq!(parse_coordinate(" 4"), None);
    assert_eq!(parse_coordinate("--4"), None);
    assert_eq!(parse_coordinate("1234567890123456789"), None);
    assert_eq!(
        parse_coordinate("12345678901234567.8"),
        Some(Coordinate { units: 123456789012345678, scale: 1 })
    );
}

#[test]
fn helper_output_becomes_locator() {
    let r = gridsquare_from_output("45.5,-122.6");
    assert_eq!(r, "CN85qm");
    assert_eq!(r.chars().count(), 6);
}

#[test]
fn helper_output_with_white_space() {
    assert_eq!(gridsquare_from_output("  45.5 , -122.6\n"), "CN85qm");
}

#[test]
fn diagnostic_passes_unchanged() {
    assert_eq!(gridsquare_from_output("GPS not fixed"), "GPS not fixed");
}

#[test]
fn diagnostic_is_trimmed() {
    assert_eq!(gridsquare_from_output("\t GPS not fixed \n"), "GPS not fixed");
    assert_eq!(gridsquare_from_output(""), "");
}

#[test]
fn out_of_range_position_passes_unchanged() {
    assert_eq!(gridsquare_from_output("95.0,10.0"), "95.0,10.0");
    assert_eq!(gridsquare_from_output("10.0,-180.5"), "10.0,-180.5");
}

#[test]
fn malformed_position_passes_unchanged() {
    assert_eq!(gridsquare_from_output("45.5,abc"), "45.5,abc");
    assert_eq!(gridsquare_from_output("45.5;-122.6"), "45.5;-122.6");
    assert_eq!(gridsquare_from_output("1,2,3"), "1,2,3");
}

#[test]
fn unicode_white_space_is_trimmed() {
    assert_eq!(gridsquare_from_output("\u{a0}GPS not fixed\u{3000}"), "GPS not fixed");
    assert_eq!(gridsquare_from_output("\u{2003}0,0\u{85}"), "JJ00aa");
}
