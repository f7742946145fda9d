use airq::country::{get_major_cities, list_countries, normalize_country};

#[test]
fn lib_test_get_major_cities() {
    let cities = get_major_cities("turkey", 10);
    assert!(!cities.is_empty());
    assert!(cities.iter().any(|c| c.name == "Istanbul"));

    // Case insensitive
    assert!(!get_major_cities("Turkey", 10).is_empty());
    assert!(!get_major_cities("TURKEY", 10).is_empty());

    // Aliases
    assert!(!get_major_cities("usa", 10).is_empty());
    assert!(!get_major_cities("uk", 10).is_empty());

    // Any country works
    assert!(!get_major_cities("france", 10).is_empty());
    assert!(!get_major_cities("brazil", 10).is_empty());
    assert!(!get_major_cities("india", 10).is_empty());

    // Unknown returns empty
    assert!(get_major_cities("zzzzz", 10).is_empty());
}

#[test]
fn lib_test_list_countries() {
    let countries = list_countries();
    assert!(countries.len() > 100);
    assert!(countries.contains(&"France".to_string()));
    assert!(countries.contains(&"Japan".to_string()));
}

#[test]
fn normalize_country_resolves_aliases() {
    assert_eq!(normalize_country("USA"), "united states");
    assert_eq!(normalize_country("us"), "united states");
    assert_eq!(normalize_country("America"), "united states");
    assert_eq!(normalize_country("UK"), "united kingdom");
    assert_eq!(normalize_country("Great Britain"), "united kingdom");
    assert_eq!(normalize_country("T\u{00fc}rkiye"), "turkey");
    assert_eq!(normalize_country("turkiye"), "turkey");
    assert_eq!(normalize_country("RF"), "russia");
    assert_eq!(normalize_country("Korea"), "south korea");
    assert_eq!(normalize_country("UAE"), "united arab emirates");
    assert_eq!(normalize_country("France"), "france");
    assert_eq!(normalize_country(""), "");
}

#[test]
fn normalize_country_is_idempotent() {
    for input in ["USA", "uk", "Emirates", "South Korea", "Germany", "t\u{00fc}rkiye"] {
        let once = normalize_country(input);
        assert_eq!(normalize_country(&once), once);
    }
}

#[test]
fn major_cities_respect_limit_and_country() {
    let three = get_major_cities("France", 3);
    assert_eq!(three.len(), 3);
    for c in &three {
        assert_eq!(c.country.to_lowercase(), "france");
    }
    let ten = get_major_cities("france", 10);
    for (a, b) in three.iter().zip(ten.iter()) {
        assert_eq!(a.index, b.index);
    }
    assert!(ten.windows(2).all(|w| w[0].index < w[1].index));
    assert!(get_major_cities("france", 0).is_empty());
    let table = cities::all();
    for c in &ten {
        assert_eq!(table[c.index].city, c.name);
        assert_eq!(table[c.index].country, c.country);
    }
}

#[test]
fn countries_are_sorted_and_distinct() {
    let countries = list_countries();
    assert!(countries.windows(2).all(|w| w[0] < w[1]));
    let table = cities::all();
    for c in table.iter().take(200) {
        assert!(countries.iter().any(|x| x == c.country));
    }
}

#[test]
fn spellings_with_the_same_lower_case_give_the_same_cities() {
    let a: Vec<usize> = get_major_cities("Turkey", 10).iter().map(|c| c.index).collect();
    let b: Vec<usize> = get_major_cities("TURKEY", 10).iter().map(|c| c.index).collect();
    let c: Vec<usize> = get_major_cities("turkey", 10).iter().map(|c| c.index).collect();
    assert_eq!(a, b);
    assert_eq!(a, c);
    let d: Vec<usize> = get_major_cities("T\u{00fc}rkiye", 10).iter().map(|c| c.index).collect();
    assert_eq!(a, d);
}
