//! Sanitization, formatting stripping, and the asset-location helpers.

use botanica::asset::{from_asset_loc, from_asset_loc_raw, namespaced, parse_namespaced};
use botanica::util::sanitize::{sanitize_alphanumeric, sanitize_alphanumeric_dash};
use botanica::util::strip_formatting;

#[test]
fn sanitize_keeps_only_the_allowed_subset() {
    assert_eq!(sanitize_alphanumeric_dash("my-world_1"), "my-world_1");
    assert_eq!(sanitize_alphanumeric_dash("../etc"), "etc");
    assert_eq!(sanitize_alphanumeric_dash(""), "");
    assert_eq!(sanitize_alphanumeric_dash("!!!"), "");
    assert_eq!(sanitize_alphanumeric_dash("a b\tc"), "abc");
}

#[test]
fn sanitize_alphanumeric_drops_dashes_too() {
    assert_eq!(sanitize_alphanumeric("my-world_1"), "myworld1");
    assert_eq!(sanitize_alphanumeric("Abc09"), "Abc09");
    assert_eq!(sanitize_alphanumeric("ä ö"), "");
}

#[test]
fn strip_formatting_removes_backtick_marks() {
    assert_eq!(strip_formatting("`bBold`r and plain"), "Bold and plain");
    assert_eq!(strip_formatting("no marks"), "no marks");
    // A backtick not followed by an alphanumeric selector stays.
    assert_eq!(strip_formatting("tick ` here"), "tick ` here");
    // A trailing lone backtick stays.
    assert_eq!(strip_formatting("end`"), "end`");
}

#[test]
fn asset_locations_format_and_parse() {
    assert_eq!(namespaced("botanica", "grass"), "botanica:grass");
    assert_eq!(from_asset_loc("botanica", "textures/grass.png"), "botanica/textures/grass.png");
    assert_eq!(from_asset_loc_raw("botanica:grass".to_string()), "botanica/grass");
    // Only the first colon is the separator.
    assert_eq!(from_asset_loc_raw("a:b:c".to_string()), "a/b:c");
    assert_eq!(from_asset_loc_raw("nocolon".to_string()), "nocolon");
    let (ns, item) = parse_namespaced("botanica:tile.name.grass");
    assert_eq!(ns, "botanica");
    assert_eq!(item, "tile.name.grass");
}
