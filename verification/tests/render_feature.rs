use mosm::render_feature::base_type;
use mosm::render_feature::flags;
use mosm::render_feature::{calculate_z_order, clamp_layer, parse_decimal_i8, parse_tags};

fn make_tags(pairs: &[(&str, &str)]) -> Vec<(String, String)> {
    pairs.iter().map(|(k, v)| (k.to_string(), v.to_string())).collect()
}

#[test]
fn test_highway_primary() {
    let tags = make_tags(&[("highway", "primary")]);
    let parsed = parse_tags(&tags);
    assert_eq!(base_type::extract(parsed.feature), base_type::HIGHWAY_MAJOR);
    assert!(!flags::has(parsed.feature, flags::BRIDGE));
}

#[test]
fn test_bridge_flag() {
    let tags = make_tags(&[("highway", "secondary"), ("bridge", "yes")]);
    let parsed = parse_tags(&tags);
    assert_eq!(base_type::extract(parsed.feature), base_type::HIGHWAY_MINOR);
    assert!(flags::has(parsed.feature, flags::BRIDGE));
}

#[test]
fn test_tunnel_flag() {
    let tags = make_tags(&[("highway", "primary"), ("tunnel", "yes"), ("layer", "-1")]);
    let parsed = parse_tags(&tags);
    assert!(flags::has(parsed.feature, flags::TUNNEL));
    assert_eq!(parsed.layer, -1);
}

#[test]
fn test_z_order_tunnel_below_bridge() {
    let tunnel = parse_tags(&make_tags(&[("highway", "primary"), ("tunnel", "yes")]));
    let bridge = parse_tags(&make_tags(&[("highway", "primary"), ("bridge", "yes")]));
    let normal = parse_tags(&make_tags(&[("highway", "primary")]));

    assert!(tunnel.z_order() < normal.z_order());
    assert!(normal.z_order() < bridge.z_order());
}

#[test]
fn test_z_order_water_below_road() {
    let water = parse_tags(&make_tags(&[("waterway", "river")]));
    let road = parse_tags(&make_tags(&[("highway", "residential")]));

    assert!(water.z_order() < road.z_order());
}

#[test]
fn test_layer_effect() {
    let layer_neg1 = parse_tags(&make_tags(&[("highway", "primary"), ("layer", "-1")]));
    let layer_0 = parse_tags(&make_tags(&[("highway", "primary")]));
    let layer_1 = parse_tags(&make_tags(&[("highway", "primary"), ("layer", "1")]));

    assert!(layer_neg1.z_order() < layer_0.z_order());
    assert!(layer_0.z_order() < layer_1.z_order());
}

#[test]
fn test_intermittent_stream() {
    let tags = make_tags(&[("waterway", "stream"), ("intermittent", "yes")]);
    let parsed = parse_tags(&tags);
    assert_eq!(base_type::extract(parsed.feature), base_type::WATERWAY_STREAM);
    assert!(flags::has(parsed.feature, flags::INTERMITTENT));
}

#[test]
fn empty_tags_are_unclassified() {
    let parsed = parse_tags(&[]);
    assert_eq!(parsed.feature, base_type::DEFAULT);
    assert_eq!(parsed.layer, 0);
}

#[test]
fn same_tags_same_result() {
    let tags = make_tags(&[("natural", "wood"), ("oneway", "-1"), ("layer", "3")]);
    let first = parse_tags(&tags);
    let second = parse_tags(&tags.clone());
    assert_eq!(first.feature, second.feature);
    assert_eq!(first.layer, second.layer);
    assert_eq!(first.feature, base_type::NATURAL_WOOD | flags::ONEWAY);
    assert_eq!(first.layer, 3);
}

#[test]
fn category_priority() {
    let tags = make_tags(&[
        ("boundary", "administrative"),
        ("landuse", "forest"),
        ("building", "yes"),
        ("highway", "steps"),
        ("railway", "tram"),
    ]);
    assert_eq!(base_type::extract(parse_tags(&tags).feature), base_type::RAILWAY_LIGHT);
    let tags = make_tags(&[("highway", "steps"), ("natural", "heath")]);
    assert_eq!(base_type::extract(parse_tags(&tags).feature), base_type::NATURAL_GRASS);
    let tags = make_tags(&[("natural", "heath"), ("waterway", "weir")]);
    assert_eq!(base_type::extract(parse_tags(&tags).feature), base_type::WATERWAY_STREAM);
    let tags = make_tags(&[("building", "no"), ("landuse", "no")]);
    assert_eq!(base_type::extract(parse_tags(&tags).feature), base_type::LANDUSE);
    let tags = make_tags(&[("building", "no"), ("boundary", "no")]);
    assert_eq!(parse_tags(&tags).feature, base_type::DEFAULT);
    let tags = make_tags(&[("boundary", "administrative")]);
    assert_eq!(parse_tags(&tags).feature, base_type::BOUNDARY);
}

#[test]
fn last_tag_of_a_key_counts() {
    let tags = make_tags(&[("highway", "primary"), ("highway", "footway")]);
    assert_eq!(base_type::extract(parse_tags(&tags).feature), base_type::HIGHWAY_PATH);
    let tags = make_tags(&[("bridge", "yes"), ("bridge", "no")]);
    assert!(!flags::has(parse_tags(&tags).feature, flags::BRIDGE));
}

#[test]
fn flag_values() {
    let all = make_tags(&[
        ("highway", "road"),
        ("bridge", "viaduct"),
        ("tunnel", "building_passage"),
        ("intermittent", "yes"),
        ("construction", "minor"),
        ("oneway", "yes"),
    ]);
    let feature = parse_tags(&all).feature;
    assert_eq!(feature, 3 | 0x0100 | 0x0200 | 0x0400 | 0x0800 | 0x1000);
    let none = make_tags(&[
        ("bridge", "no"),
        ("tunnel", "no"),
        ("intermittent", "no"),
        ("construction", ""),
        ("oneway", "no"),
    ]);
    assert_eq!(parse_tags(&none).feature, 0);
    let construction_no = make_tags(&[("construction", "no")]);
    assert_eq!(parse_tags(&construction_no).feature, 0);
}

#[test]
fn layer_is_clamped() {
    assert_eq!(parse_tags(&make_tags(&[("layer", "9")])).layer, 5);
    assert_eq!(parse_tags(&make_tags(&[("layer", "-128")])).layer, -5);
    assert_eq!(parse_tags(&make_tags(&[("layer", "+2")])).layer, 2);
    assert_eq!(parse_tags(&make_tags(&[("layer", "200")])).layer, 0);
    assert_eq!(parse_tags(&make_tags(&[("layer", "two")])).layer, 0);
    assert_eq!(parse_tags(&make_tags(&[("layer", "")])).layer, 0);
    assert_eq!(parse_tags(&make_tags(&[("layer", " 1")])).layer, 0);
}

#[test]
fn decimal_agrees_with_std() {
    let samples = [
        "0", "-0", "+0", "7", "-7", "+7", "127", "128", "-128", "-129", "0000127", "00128", "",
        "-", "+", "1a", "a1", "--1", "+-1", "12 ", "٣", "99999999999999999999", "-000",
    ];
    for text in samples {
        assert_eq!(parse_decimal_i8(text), text.parse::<i8>().ok(), "{:?}", text);
    }
    for n in -128i32..=127 {
        let text = format!("{}", n);
        assert_eq!(parse_decimal_i8(&text), Some(n as i8));
    }
    assert_eq!(clamp_layer(None), 0);
    assert_eq!(clamp_layer(Some(-6)), -5);
    assert_eq!(clamp_layer(Some(6)), 5);
    assert_eq!(clamp_layer(Some(4)), 4);
}

#[test]
fn z_order_formula() {
    assert_eq!(calculate_z_order(base_type::HIGHWAY_MAJOR, 0), 15);
    assert_eq!(calculate_z_order(base_type::HIGHWAY_MAJOR | flags::BRIDGE, 0), 55);
    assert_eq!(calculate_z_order(base_type::HIGHWAY_MAJOR | flags::TUNNEL, 0), -25);
    assert_eq!(calculate_z_order(base_type::HIGHWAY_MAJOR | flags::TUNNEL | flags::BRIDGE, 0), -25);
    assert_eq!(calculate_z_order(base_type::NATURAL_WATER, -5), -535);
    assert_eq!(calculate_z_order(base_type::BOUNDARY | flags::BRIDGE, 5), 590);
    assert_eq!(calculate_z_order(base_type::WATERWAY_CANAL, 1), 70);
    assert_eq!(calculate_z_order(base_type::LANDUSE, 2), 180);
    assert_eq!(calculate_z_order(base_type::NATURAL_WOOD, 0), -15);
    assert_eq!(calculate_z_order(base_type::BUILDING, 0), -10);
    assert_eq!(calculate_z_order(base_type::HIGHWAY_STEPS, 0), 0);
    assert_eq!(calculate_z_order(base_type::HIGHWAY_ROAD, 0), 5);
    assert_eq!(calculate_z_order(base_type::HIGHWAY_MINOR, 0), 10);
    assert_eq!(calculate_z_order(base_type::RAILWAY_LIGHT, 0), 20);
    assert_eq!(calculate_z_order(99, 127), 12700);
    assert_eq!(calculate_z_order(99, -128), -12800);
}

#[test]
fn bridge_above_plain_above_tunnel() {
    let bridge = parse_tags(&make_tags(&[("highway", "primary"), ("bridge", "yes")]));
    let plain = parse_tags(&make_tags(&[("highway", "primary")]));
    let tunnel = parse_tags(&make_tags(&[("highway", "primary"), ("tunnel", "yes")]));
    assert!(flags::has(bridge.feature, flags::BRIDGE));
    assert!(bridge.z_order() > plain.z_order());
    assert!(plain.z_order() > tunnel.z_order());
}
