use airq::compass::{compass16, compass8, heading_arrow, wind_arrow};

#[test]
fn sixteen_point_names() {
    assert_eq!(compass16(0), "N");
    assert_eq!(compass16(1), "NNE");
    assert_eq!(compass16(4), "E");
    assert_eq!(compass16(8), "S");
    assert_eq!(compass16(12), "W");
    assert_eq!(compass16(15), "NNW");
    assert_eq!(compass16(16), "NNW");
    assert_eq!(compass16(usize::MAX), "NNW");
}

#[test]
fn eight_point_names_and_arrows() {
    let names: Vec<&str> = (0..8).map(compass8).collect();
    assert_eq!(names, vec!["N", "NE", "E", "SE", "S", "SW", "W", "NW"]);
    assert_eq!(compass8(9), "NW");
    assert_eq!(heading_arrow(0), "\u{2191}");
    assert_eq!(heading_arrow(2), "\u{2192}");
    assert_eq!(heading_arrow(100), "\u{2196}");
}

#[test]
fn wind_arrows_point_away_from_where_the_wind_comes_from() {
    for i in 0..8 {
        assert_eq!(wind_arrow(i), heading_arrow((i + 4) % 8));
    }
    assert_eq!(wind_arrow(0), "\u{2193}");
    assert_eq!(wind_arrow(50), wind_arrow(7));
}
