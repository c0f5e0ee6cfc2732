//! Render features: a 16-bit mask that classifies a tagged element for
//! drawing. The low byte is the base category, the high byte holds flag bits.

pub mod base_type;
pub mod flags;

use crate::tags::{find_last, last_value, str_eq, tags_view, TagsView};
use vstd::prelude::*;

verus! {

/// Low byte: base category. High byte: flags.
pub type RenderFeature = u16;

/// Layer of an element without a `layer` tag.
pub const DEFAULT_LAYER: i8 = 0;

/// The bias of a base category inside one layer: water lowest, boundaries on top.
pub open spec fn type_bias(base: u16) -> int {
    if base == base_type::WATERWAY_RIVER || base == base_type::WATERWAY_STREAM || base
        == base_type::WATERWAY_CANAL {
        -30
    } else if base == base_type::NATURAL_WATER {
        -35
    } else if base == base_type::LANDUSE || base == base_type::NATURAL_GRASS {
        -20
    } else if base == base_type::NATURAL_WOOD {
        -15
    } else if base == base_type::BUILDING {
        -10
    } else if base == base_type::HIGHWAY_PATH || base == base_type::HIGHWAY_STEPS {
        0
    } else if base == base_type::HIGHWAY_ROAD {
        5
    } else if base == base_type::HIGHWAY_MINOR {
        10
    } else if base == base_type::HIGHWAY_MAJOR {
        15
    } else if base == base_type::RAILWAY_MAIN || base == base_type::RAILWAY_LIGHT {
        20
    } else if base == base_type::BOUNDARY {
        50
    } else {
        0
    }
}

/// The bias of the flags: a tunnel sinks, a bridge floats, a tunnel wins over a bridge.
pub open spec fn flag_bias(feature: u16) -> int {
    if flags::is_set(feature, flags::TUNNEL) {
        -40
    } else if flags::is_set(feature, flags::BRIDGE) {
        40
    } else {
        0
    }
}

/// The drawing order of a feature on a layer: `100 * layer + type_bias + flag_bias`.
pub open spec fn z_order_of(feature: u16, layer: i8) -> int {
    100 * (layer as int) + type_bias(base_type::base_of(feature)) + flag_bias(feature)
}

/// Computes the drawing order; features are drawn in ascending order.
pub fn calculate_z_order(feature: RenderFeature, layer: i8) -> (z: i16)
    ensures
        z == z_order_of(feature, layer),
{
    let base = base_type::extract(feature);
    let layer_z: i16 = (layer as i16) * 100;
    let type_z: i16 = if base == base_type::WATERWAY_RIVER || base == base_type::WATERWAY_STREAM
        || base == base_type::WATERWAY_CANAL {
        -30
    } else if base == base_type::NATURAL_WATER {
        -35
    } else if base == base_type::LANDUSE || base == base_type::NATURAL_GRASS {
        -20
    } else if base == base_type::NATURAL_WOOD {
        -15
    } else if base == base_type::BUILDING {
        -10
    } else if base == base_type::HIGHWAY_PATH || base == base_type::HIGHWAY_STEPS {
        0
    } else if base == base_type::HIGHWAY_ROAD {
        5
    } else if base == base_type::HIGHWAY_MINOR {
        10
    } else if base == base_type::HIGHWAY_MAJOR {
        15
    } else if base == base_type::RAILWAY_MAIN || base == base_type::RAILWAY_LIGHT {
        20
    } else if base == base_type::BOUNDARY {
        50
    } else {
        0
    };
    let flag_z: i16 = if flags::has(feature, flags::TUNNEL) {
        -40
    } else if flags::has(feature, flags::BRIDGE) {
        40
    } else {
        0
    };
    layer_z + type_z + flag_z
}

/// On one layer and for one base category, a tunnel is drawn strictly below
/// the plain feature and a bridge strictly above it.
pub proof fn lemma_tunnel_below_bridge(base: u16, layer: i8)
    requires
        base < 256,
    ensures
        z_order_of(base | flags::TUNNEL, layer) < z_order_of(base, layer),
        z_order_of(base, layer) < z_order_of(base | flags::BRIDGE, layer),
        flags::is_set(base | flags::BRIDGE, flags::BRIDGE),
        flags::is_set(base | flags::TUNNEL, flags::TUNNEL),
{
    assert(base < 256 ==> (base | 0x0200u16) & 0xFF == base && (base | 0x0100u16) & 0xFF == base
        && base & 0xFF == base && (base | 0x0200u16) & 0x0200u16 != 0 && (base | 0x0100u16)
        & 0x0200u16 == 0 && (base | 0x0100u16) & 0x0100u16 != 0 && base & 0x0200u16 == 0 && base
        & 0x0100u16 == 0) by (bit_vector);
}

/// A feature moves up with its layer.
pub proof fn lemma_layer_raises(feature: u16, lower: i8, upper: i8)
    requires
        lower < upper,
    ensures
        z_order_of(feature, lower) < z_order_of(feature, upper),
{
}

/// What a tag list classifies to.
#[derive(Debug, Clone, Copy)]
pub struct ParsedFeature {
    pub feature: RenderFeature,
    pub layer: i8,
}

impl ParsedFeature {
    /// The drawing order of this feature.
    pub fn z_order(&self) -> (z: i16)
        ensures
            z == z_order_of(self.feature, self.layer),
    {
        calculate_z_order(self.feature, self.layer)
    }
}

/// The value of a decimal digit.
pub open spec fn digit_value(c: char) -> int {
    c as int - '0' as int
}

/// Whether a character is one of `0` to `9`.
pub open spec fn is_digit(c: char) -> bool {
    '0' <= c <= '9'
}

/// Whether every character is a decimal digit.
pub open spec fn all_digits(s: Seq<char>) -> bool {
    forall|i: int| 0 <= i < s.len() ==> is_digit(#[trigger] s[i])
}

/// The number that a sequence of decimal digits writes.
pub open spec fn digits_value(s: Seq<char>) -> int
    decreases s.len(),
{
    if s.len() == 0 {
        0
    } else {
        10 * digits_value(s.drop_last()) + digit_value(s.last())
    }
}

/// A signed decimal number in 8 bits: an optional `+` or `-`, then one or
/// more digits, the value within `-128..=127`. Anything else is no number.
pub open spec fn decimal_i8(s: Seq<char>) -> Option<i8> {
    let signed = s.len() > 0 && (s[0] == '-' || s[0] == '+');
    let body = if signed { s.skip(1) } else { s };
    let magnitude = digits_value(body);
    let value = if s.len() > 0 && s[0] == '-' { -magnitude } else { magnitude };
    if body.len() == 0 || !all_digits(body) || value < -128 || value > 127 {
        None
    } else {
        Some(value as i8)
    }
}

/// The layer that a `layer` value stands for: the number it writes, 0 where
/// it writes none, limited to `-5..=5`.
pub open spec fn layer_of_value(value: Seq<char>) -> i8 {
    match decimal_i8(value) {
        Some(n) => if n < -5 { -5i8 } else if n > 5 { 5i8 } else { n },
        None => DEFAULT_LAYER,
    }
}

proof fn lemma_digits_value_grows(s: Seq<char>, n: int)
    requires
        all_digits(s),
        0 <= n <= s.len(),
    ensures
        0 <= digits_value(s.take(n)) <= digits_value(s),
    decreases s.len() - n,
{
    if n == s.len() {
        assert(s.take(n) =~= s);
        lemma_digits_value_nonnegative(s);
    } else {
        lemma_digits_value_grows(s, n + 1);
        assert(s.take(n + 1).drop_last() =~= s.take(n));
        lemma_digits_value_nonnegative(s.take(n));
    }
}

proof fn lemma_digits_value_nonnegative(s: Seq<char>)
    requires
        all_digits(s),
    ensures
        0 <= digits_value(s),
    decreases s.len(),
{
    if s.len() > 0 {
        lemma_digits_value_nonnegative(s.drop_last());
    }
}

/// Reads a signed decimal number of 8 bits.
pub fn parse_decimal_i8(text: &str) -> (number: Option<i8>)
    ensures
        number == decimal_i8(text@),
{
    let mut negative = false;
    let mut signed = false;
    let mut any_digit = false;
    let ghost mut count: int = 0;
    let mut magnitude: i32 = 0;
    let ghost body = if text@.len() > 0 && (text@[0] == '-' || text@[0] == '+') {
        text@.skip(1)
    } else {
        text@
    };
    for c in it: text.chars()
        invariant
            it.seq() == text@,
            signed == (it.index() > 0 && (text@[0] == '-' || text@[0] == '+')),
            negative == (it.index() > 0 && text@[0] == '-'),
            count == (if signed { it.index() - 1 } else { it.index() as int }),
            count <= it.index(),
            any_digit == (count > 0),
            all_digits(body.take(count)),
            magnitude == digits_value(body.take(count)),
            0 <= magnitude <= 128,
            body == (if text@.len() > 0 && (text@[0] == '-' || text@[0] == '+') {
                text@.skip(1)
            } else {
                text@
            }),
    {
        if !signed && !any_digit && (c == '-' || c == '+') {
            signed = true;
            negative = c == '-';
        } else {
            assert(body.take(count + 1).drop_last() =~= body.take(count));
            if c < '0' || c > '9' {
                return None;
            }
            let d: i32 = (c as u32 - '0' as u32) as i32;
            let next: i32 = magnitude * 10 + d;
            if next > 128 {
                proof {
                    if all_digits(body) {
                        lemma_digits_value_grows(body, count + 1);
                    }
                }
                return None;
            }
            magnitude = next;
            any_digit = true;
            proof {
                count = count + 1;
            }
        }
    }
    assert(body.take(count) =~= body);
    if !any_digit {
        return None;
    }
    if negative {
        Some((-magnitude) as i8)
    } else if magnitude > 127 {
        None
    } else {
        Some(magnitude as i8)
    }
}

/// Limits a parsed layer to `-5..=5`; no number gives the default layer.
pub fn clamp_layer(parsed: Option<i8>) -> (layer: i8)
    ensures
        layer == match parsed {
            Some(n) => if n < -5 { -5i8 } else if n > 5 { 5i8 } else { n },
            None => DEFAULT_LAYER,
        },
        -5 <= layer <= 5,
{
    match parsed {
        Some(n) => if n < -5 { -5 } else if n > 5 { 5 } else { n },
        None => DEFAULT_LAYER,
    }
}

/// The base category of a `waterway` value.
pub open spec fn waterway_base(v: Seq<char>) -> u16 {
    if v == "river"@ {
        base_type::WATERWAY_RIVER
    } else if v == "stream"@ || v == "brook"@ {
        base_type::WATERWAY_STREAM
    } else if v == "canal"@ || v == "drain"@ || v == "ditch"@ {
        base_type::WATERWAY_CANAL
    } else {
        base_type::WATERWAY_STREAM
    }
}

/// The base category of a `natural` value.
pub open spec fn natural_base(v: Seq<char>) -> u16 {
    if v == "water"@ || v == "coastline"@ || v == "bay"@ {
        base_type::NATURAL_WATER
    } else if v == "wood"@ || v == "tree_row"@ || v == "scrub"@ {
        base_type::NATURAL_WOOD
    } else if v == "grassland"@ || v == "heath"@ {
        base_type::NATURAL_GRASS
    } else {
        base_type::DEFAULT
    }
}

/// The base category of a `railway` value.
pub open spec fn railway_base(v: Seq<char>) -> u16 {
    if v == "rail"@ || v == "preserved"@ {
        base_type::RAILWAY_MAIN
    } else if v == "light_rail"@ || v == "subway"@ || v == "tram"@ || v == "monorail"@ {
        base_type::RAILWAY_LIGHT
    } else {
        base_type::RAILWAY_MAIN
    }
}

/// The base category of a `highway` value.
pub open spec fn highway_base(v: Seq<char>) -> u16 {
    if v == "motorway"@ || v == "motorway_link"@ || v == "trunk"@ || v == "trunk_link"@ || v
        == "primary"@ || v == "primary_link"@ {
        base_type::HIGHWAY_MAJOR
    } else if v == "secondary"@ || v == "secondary_link"@ || v == "tertiary"@ || v
        == "tertiary_link"@ {
        base_type::HIGHWAY_MINOR
    } else if v == "residential"@ || v == "unclassified"@ || v == "service"@ || v
        == "living_street"@ || v == "road"@ {
        base_type::HIGHWAY_ROAD
    } else if v == "footway"@ || v == "path"@ || v == "pedestrian"@ || v == "cycleway"@ || v
        == "bridleway"@ || v == "track"@ {
        base_type::HIGHWAY_PATH
    } else if v == "steps"@ {
        base_type::HIGHWAY_STEPS
    } else {
        base_type::HIGHWAY_ROAD
    }
}

/// Whether the last tag with this key has a value other than `no`.
pub open spec fn set_and_not_no(tags: TagsView, key: Seq<char>) -> bool {
    match last_value(tags, key) {
        Some(v) => v != "no"@,
        None => false,
    }
}

/// The base category of a tag list, by priority: waterway, natural, railway,
/// highway, building, landuse, boundary.
pub open spec fn base_of_tags(tags: TagsView) -> u16 {
    if let Some(v) = last_value(tags, "waterway"@) {
        waterway_base(v)
    } else if let Some(v) = last_value(tags, "natural"@) {
        natural_base(v)
    } else if let Some(v) = last_value(tags, "railway"@) {
        railway_base(v)
    } else if let Some(v) = last_value(tags, "highway"@) {
        highway_base(v)
    } else if set_and_not_no(tags, "building"@) {
        base_type::BUILDING
    } else if last_value(tags, "landuse"@) is Some {
        base_type::LANDUSE
    } else if set_and_not_no(tags, "boundary"@) {
        base_type::BOUNDARY
    } else {
        base_type::DEFAULT
    }
}

/// Whether the tags mark a bridge.
pub open spec fn is_bridge(tags: TagsView) -> bool {
    match last_value(tags, "bridge"@) {
        Some(v) => v == "yes"@ || v == "viaduct"@ || v == "aqueduct"@,
        None => false,
    }
}

/// Whether the tags mark a tunnel.
pub open spec fn is_tunnel(tags: TagsView) -> bool {
    match last_value(tags, "tunnel"@) {
        Some(v) => v == "yes"@ || v == "building_passage"@,
        None => false,
    }
}

/// Whether the tags mark an intermittent feature.
pub open spec fn is_intermittent(tags: TagsView) -> bool {
    last_value(tags, "intermittent"@) == Some("yes"@)
}

/// Whether the tags mark a feature under construction.
pub open spec fn is_construction(tags: TagsView) -> bool {
    match last_value(tags, "construction"@) {
        Some(v) => v.len() > 0 && v != "no"@,
        None => false,
    }
}

/// Whether the tags mark a one-way feature.
pub open spec fn is_oneway(tags: TagsView) -> bool {
    match last_value(tags, "oneway"@) {
        Some(v) => v == "yes"@ || v == "-1"@,
        None => false,
    }
}

/// A flag bit where the condition holds, no bit where it does not.
pub open spec fn bit_if(condition: bool, flag: u16) -> u16 {
    if condition {
        flag
    } else {
        0
    }
}

/// The render feature of a tag list: its base category with its flag bits.
pub open spec fn feature_of_tags(tags: TagsView) -> u16 {
    base_of_tags(tags) | bit_if(is_bridge(tags), flags::BRIDGE) | bit_if(
        is_tunnel(tags),
        flags::TUNNEL,
    ) | bit_if(is_intermittent(tags), flags::INTERMITTENT) | bit_if(
        is_construction(tags),
        flags::CONSTRUCTION,
    ) | bit_if(is_oneway(tags), flags::ONEWAY)
}

/// The layer of a tag list: what its last `layer` tag stands for.
pub open spec fn layer_of_tags(tags: TagsView) -> i8 {
    match last_value(tags, "layer"@) {
        Some(v) => layer_of_value(v),
        None => DEFAULT_LAYER,
    }
}

/// The base category and each flag can be read back from the feature of a tag list.
pub proof fn lemma_feature_parts(tags: TagsView)
    ensures
        base_type::base_of(feature_of_tags(tags)) == base_of_tags(tags),
        flags::is_set(feature_of_tags(tags), flags::BRIDGE) == is_bridge(tags),
        flags::is_set(feature_of_tags(tags), flags::TUNNEL) == is_tunnel(tags),
        flags::is_set(feature_of_tags(tags), flags::INTERMITTENT) == is_intermittent(tags),
        flags::is_set(feature_of_tags(tags), flags::CONSTRUCTION) == is_construction(tags),
        flags::is_set(feature_of_tags(tags), flags::ONEWAY) == is_oneway(tags),
{
    let base = base_of_tags(tags);
    let b = bit_if(is_bridge(tags), flags::BRIDGE);
    let t = bit_if(is_tunnel(tags), flags::TUNNEL);
    let i = bit_if(is_intermittent(tags), flags::INTERMITTENT);
    let c = bit_if(is_construction(tags), flags::CONSTRUCTION);
    let o = bit_if(is_oneway(tags), flags::ONEWAY);
    assert(base < 256 && (b == 0 || b == 0x0100) && (t == 0 || t == 0x0200) && (i == 0 || i
        == 0x0400) && (c == 0 || c == 0x0800) && (o == 0 || o == 0x1000) ==> ((base | b | t | i | c
        | o) & 0xFF == base && (((base | b | t | i | c | o) & 0x0100 != 0) == (b != 0)) && (((base
        | b | t | i | c | o) & 0x0200 != 0) == (t != 0)) && (((base | b | t | i | c | o) & 0x0400
        != 0) == (i != 0)) && (((base | b | t | i | c | o) & 0x0800 != 0) == (c != 0)) && (((base
        | b | t | i | c | o) & 0x1000 != 0) == (o != 0)))) by (bit_vector);
}

fn waterway_base_of(v: &str) -> (base: u16)
    ensures
        base == waterway_base(v@),
{
    if str_eq(v, "river") {
        base_type::WATERWAY_RIVER
    } else if str_eq(v, "stream") || str_eq(v, "brook") {
        base_type::WATERWAY_STREAM
    } else if str_eq(v, "canal") || str_eq(v, "drain") || str_eq(v, "ditch") {
        base_type::WATERWAY_CANAL
    } else {
        base_type::WATERWAY_STREAM
    }
}

fn natural_base_of(v: &str) -> (base: u16)
    ensures
        base == natural_base(v@),
{
    if str_eq(v, "water") || str_eq(v, "coastline") || str_eq(v, "bay") {
        base_type::NATURAL_WATER
    } else if str_eq(v, "wood") || str_eq(v, "tree_row") || str_eq(v, "scrub") {
        base_type::NATURAL_WOOD
    } else if str_eq(v, "grassland") || str_eq(v, "heath") {
        base_type::NATURAL_GRASS
    } else {
        base_type::DEFAULT
    }
}

fn railway_base_of(v: &str) -> (base: u16)
    ensures
        base == railway_base(v@),
{
    if str_eq(v, "rail") || str_eq(v, "preserved") {
        base_type::RAILWAY_MAIN
    } else if str_eq(v, "light_rail") || str_eq(v, "subway") || str_eq(v, "tram") || str_eq(
        v,
        "monorail",
    ) {
        base_type::RAILWAY_LIGHT
    } else {
        base_type::RAILWAY_MAIN
    }
}

fn highway_base_of(v: &str) -> (base: u16)
    ensures
        base == highway_base(v@),
{
    if str_eq(v, "motorway") || str_eq(v, "motorway_link") || str_eq(v, "trunk") || str_eq(
        v,
        "trunk_link",
    ) || str_eq(v, "primary") || str_eq(v, "primary_link") {
        base_type::HIGHWAY_MAJOR
    } else if str_eq(v, "secondary") || str_eq(v, "secondary_link") || str_eq(v, "tertiary")
        || str_eq(v, "tertiary_link") {
        base_type::HIGHWAY_MINOR
    } else if str_eq(v, "residential") || str_eq(v, "unclassified") || str_eq(v, "service")
        || str_eq(v, "living_street") || str_eq(v, "road") {
        base_type::HIGHWAY_ROAD
    } else if str_eq(v, "footway") || str_eq(v, "path") || str_eq(v, "pedestrian") || str_eq(
        v,
        "cycleway",
    ) || str_eq(v, "bridleway") || str_eq(v, "track") {
        base_type::HIGHWAY_PATH
    } else if str_eq(v, "steps") {
        base_type::HIGHWAY_STEPS
    } else {
        base_type::HIGHWAY_ROAD
    }
}

fn is_set_and_not_no(tags: &[(String, String)], key: &str) -> (set: bool)
    ensures
        set == set_and_not_no(tags_view(tags@), key@),
{
    match find_last(tags, key) {
        Some(v) => !str_eq(v, "no"),
        None => false,
    }
}

fn base_from_tags(tags: &[(String, String)]) -> (base: u16)
    ensures
        base == base_of_tags(tags_view(tags@)),
{
    if let Some(v) = find_last(tags, "waterway") {
        waterway_base_of(v)
    } else if let Some(v) = find_last(tags, "natural") {
        natural_base_of(v)
    } else if let Some(v) = find_last(tags, "railway") {
        railway_base_of(v)
    } else if let Some(v) = find_last(tags, "highway") {
        highway_base_of(v)
    } else if is_set_and_not_no(tags, "building") {
        base_type::BUILDING
    } else if find_last(tags, "landuse").is_some() {
        base_type::LANDUSE
    } else if is_set_and_not_no(tags, "boundary") {
        base_type::BOUNDARY
    } else {
        base_type::DEFAULT
    }
}

/// Classifies a tag list: its render feature and its layer. Defined for
/// every tag list, and a function of the tag list alone.
pub fn parse_tags(tags: &[(String, String)]) -> (parsed: ParsedFeature)
    ensures
        parsed.feature == feature_of_tags(tags_view(tags@)),
        parsed.layer == layer_of_tags(tags_view(tags@)),
        -5 <= parsed.layer <= 5,
        base_type::base_of(parsed.feature) == base_of_tags(tags_view(tags@)),
        flags::is_set(parsed.feature, flags::BRIDGE) == is_bridge(tags_view(tags@)),
        flags::is_set(parsed.feature, flags::TUNNEL) == is_tunnel(tags_view(tags@)),
        flags::is_set(parsed.feature, flags::INTERMITTENT) == is_intermittent(tags_view(tags@)),
        flags::is_set(parsed.feature, flags::CONSTRUCTION) == is_construction(tags_view(tags@)),
        flags::is_set(parsed.feature, flags::ONEWAY) == is_oneway(tags_view(tags@)),
{
    let base = base_from_tags(tags);
    let bridge = match find_last(tags, "bridge") {
        Some(v) => str_eq(v, "yes") || str_eq(v, "viaduct") || str_eq(v, "aqueduct"),
        None => false,
    };
    let tunnel = match find_last(tags, "tunnel") {
        Some(v) => str_eq(v, "yes") || str_eq(v, "building_passage"),
        None => false,
    };
    let intermittent = match find_last(tags, "intermittent") {
        Some(v) => str_eq(v, "yes"),
        None => false,
    };
    let construction = match find_last(tags, "construction") {
        Some(v) => {
            proof {
                reveal_strlit("");
                if v@.len() == 0 {
                    assert(v@ =~= ""@);
                }
            }
            !str_eq(v, "") && !str_eq(v, "no")
        },
        None => false,
    };
    let oneway = match find_last(tags, "oneway") {
        Some(v) => str_eq(v, "yes") || str_eq(v, "-1"),
        None => false,
    };
    let layer = match find_last(tags, "layer") {
        Some(v) => clamp_layer(parse_decimal_i8(v)),
        None => DEFAULT_LAYER,
    };
    proof {
        lemma_feature_parts(tags_view(tags@));
    }
    let feature: u16 = base | (if bridge { flags::BRIDGE } else { 0 }) | (if tunnel {
        flags::TUNNEL
    } else {
        0
    }) | (if intermittent { flags::INTERMITTENT } else { 0 }) | (if construction {
        flags::CONSTRUCTION
    } else {
        0
    }) | (if oneway { flags::ONEWAY } else { 0 });
    ParsedFeature { feature, layer }
}

} // verus!
