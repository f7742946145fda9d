use airq::aqi::{overall_from_parts, AqiCategory, TermColor};

#[test]
fn lib_test_aqi_category() {
    assert!(matches!(AqiCategory::from_aqi(25), AqiCategory::Good));
    assert!(matches!(AqiCategory::from_aqi(75), AqiCategory::Moderate));
    assert!(matches!(AqiCategory::from_aqi(125), AqiCategory::UnhealthySensitive));
    assert!(matches!(AqiCategory::from_aqi(175), AqiCategory::Unhealthy));
    assert!(matches!(AqiCategory::from_aqi(250), AqiCategory::VeryUnhealthy));
    assert!(matches!(AqiCategory::from_aqi(400), AqiCategory::Hazardous));
}

#[test]
fn lib_test_aqi_category_labels() {
    assert_eq!(AqiCategory::Good.label(), "Good");
    assert_eq!(AqiCategory::Hazardous.label(), "Hazardous");
}

#[test]
fn aqi_category_band_edges() {
    assert_eq!(AqiCategory::from_aqi(0), AqiCategory::Good);
    assert_eq!(AqiCategory::from_aqi(50), AqiCategory::Good);
    assert_eq!(AqiCategory::from_aqi(51), AqiCategory::Moderate);
    assert_eq!(AqiCategory::from_aqi(100), AqiCategory::Moderate);
    assert_eq!(AqiCategory::from_aqi(101), AqiCategory::UnhealthySensitive);
    assert_eq!(AqiCategory::from_aqi(150), AqiCategory::UnhealthySensitive);
    assert_eq!(AqiCategory::from_aqi(151), AqiCategory::Unhealthy);
    assert_eq!(AqiCategory::from_aqi(200), AqiCategory::Unhealthy);
    assert_eq!(AqiCategory::from_aqi(201), AqiCategory::VeryUnhealthy);
    assert_eq!(AqiCategory::from_aqi(300), AqiCategory::VeryUnhealthy);
    assert_eq!(AqiCategory::from_aqi(301), AqiCategory::Hazardous);
    assert_eq!(AqiCategory::from_aqi(u32::MAX), AqiCategory::Hazardous);
}

#[test]
fn aqi_category_presentation() {
    assert_eq!(AqiCategory::Moderate.label(), "Moderate");
    assert_eq!(AqiCategory::UnhealthySensitive.label(), "Unhealthy for Sensitive Groups");
    assert_eq!(AqiCategory::Good.color_hex(), "#00c853");
    assert_eq!(AqiCategory::Hazardous.color_hex(), "#800000");
    assert_eq!(AqiCategory::Good.term_color(), TermColor::Green);
    assert_eq!(AqiCategory::Moderate.term_color(), TermColor::Yellow);
    assert!(!AqiCategory::Unhealthy.emoji().is_empty());
    assert_eq!(AqiCategory::UnhealthySensitive.css_class(), "unhealthy-sensitive");
    assert_eq!(AqiCategory::Hazardous.css_class(), "hazardous");
}

#[test]
fn overall_aqi_is_the_larger_present_value() {
    assert_eq!(overall_from_parts(Some(100), Some(50)), Some(100));
    assert_eq!(overall_from_parts(Some(40), Some(77)), Some(77));
    assert_eq!(overall_from_parts(None, Some(77)), Some(77));
    assert_eq!(overall_from_parts(Some(12), None), Some(12));
    assert_eq!(overall_from_parts(None, None), None);
}

#[test]
fn higher_aqi_never_milder_category() {
    let rank = |c: AqiCategory| match c {
        AqiCategory::Good => 0,
        AqiCategory::Moderate => 1,
        AqiCategory::UnhealthySensitive => 2,
        AqiCategory::Unhealthy => 3,
        AqiCategory::VeryUnhealthy => 4,
        AqiCategory::Hazardous => 5,
    };
    let mut last = 0;
    for aqi in 0..700u32 {
        let r = rank(AqiCategory::from_aqi(aqi));
        assert!(r >= last);
        last = r;
    }
}
