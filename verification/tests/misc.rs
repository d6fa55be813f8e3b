use geonodes_bake_tool::api::{AttributeType, Domain};
use geonodes_bake_tool::bake_reader::get_frame_number;
use geonodes_bake_tool::errors::MetaReadError;
use geonodes_bake_tool::math::map_range;
use geonodes_bake_tool::tui::TuiApp;

#[test]
fn frame_number_from_file_name() {
    assert_eq!(get_frame_number("10_bake.json").unwrap(), 10);
    assert_eq!(get_frame_number("0_x").unwrap(), 0);
    assert_eq!(get_frame_number("123").unwrap(), 123);
    assert_eq!(get_frame_number("7_8_9").unwrap(), 7);
    assert_eq!(get_frame_number("4294967295_a").unwrap(), u32::MAX);
}

#[test]
fn frame_number_refused_without_leading_integer() {
    assert_eq!(get_frame_number("bake.json").unwrap_err(), MetaReadError::ParseIntError);
    assert_eq!(get_frame_number("_bake.json").unwrap_err(), MetaReadError::ParseIntError);
    assert_eq!(get_frame_number("").unwrap_err(), MetaReadError::ParseIntError);
    assert_eq!(get_frame_number("x10_bake").unwrap_err(), MetaReadError::ParseIntError);
    assert_eq!(get_frame_number("4294967296_a").unwrap_err(), MetaReadError::ParseIntError);
}

#[test]
fn map_range_scales_linearly() {
    assert_eq!(map_range(5, 0, 10, 0, 100), 50);
    assert_eq!(map_range(0, 0, 10, 3, 7), 3);
    assert_eq!(map_range(10, 0, 10, 3, 7), 7);
    assert_eq!(map_range(7, 2, 12, 0, 5), 2);
}

#[test]
fn error_messages_are_stable() {
    assert_eq!(MetaReadError::Io.message(), "File read error");
    assert_eq!(MetaReadError::Deserialize.message(), "Deserializing error");
    assert_eq!(MetaReadError::ItemNotFound.message(), "Item not found");
    assert_eq!(MetaReadError::ParseIntError.message(), "Parsing Blob name error");
    assert_eq!(
        MetaReadError::UnsupportedAttributeType.message(),
        "Unsupported attribute type"
    );
}

#[test]
fn labels_spell_the_schema_names() {
    assert_eq!(Domain::POINT.label(), "POINT");
    assert_eq!(Domain::CORNER.label(), "CORNER");
    assert_eq!(AttributeType::FLOAT.label(), "FLOAT");
    assert_eq!(AttributeType::INT32_2D.label(), "INT32_2D");
}

#[test]
fn tui_frame_stepping_wraps() {
    let mut app = TuiApp::new(3);
    assert_eq!(app.current_frame, 0);
    assert!(app.is_playing);
    assert!(!app.done);
    app.set_current_frame(true);
    assert_eq!(app.current_frame, 1);
    app.set_current_frame(true);
    assert_eq!(app.current_frame, 2);
    app.set_current_frame(true);
    assert_eq!(app.current_frame, 0);
    app.set_current_frame(false);
    assert_eq!(app.current_frame, 2);
    app.set_current_frame(false);
    assert_eq!(app.current_frame, 1);
}

#[test]
fn tui_playback_toggles() {
    let mut app = TuiApp::new(1);
    app.set_is_playing();
    assert!(!app.is_playing);
    app.set_is_playing();
    assert!(app.is_playing);
}
