//! Validator behavior: the protocol rules of the envelope checker.

use agd_ui::model::{Command, Point, RenderEnvelope, WindowSpec};
use agd_ui::validator::{validate_render, ValidationError};

fn window() -> WindowSpec {
    WindowSpec { width: 200, height: 100, title: String::from("Demo") }
}

fn clear_cmd() -> Command {
    Command::Clear { color: String::from("#ffffff") }
}

fn rect_cmd(id: Option<&str>, clickable: bool) -> Command {
    Command::Rect {
        id: id.map(|s| String::from(s)),
        x: 10,
        y: 10,
        w: 50,
        h: 20,
        fill: Some(String::from("#ff0000")),
        stroke: None,
        stroke_width: None,
        clickable,
    }
}

fn envelope(commands: Vec<Command>) -> RenderEnvelope {
    RenderEnvelope {
        version: String::from("AGD/0.2"),
        render_type: String::from("render"),
        seq: 1,
        window: window(),
        commands,
    }
}

#[test]
fn valid_envelope_passes() {
    let env = envelope(vec![clear_cmd(), rect_cmd(Some("btn1"), true)]);
    assert!(validate_render(&env).is_ok());
}

#[test]
fn missing_clear_fails_with_specific_error() {
    let env = envelope(vec![rect_cmd(Some("btn1"), true)]);
    let err = validate_render(&env).unwrap_err();
    assert_eq!(err, ValidationError::MissingClear);
    assert_eq!(err.message(), "commands must include clear");
}

#[test]
fn duplicate_clickable_ids_fail() {
    let env = envelope(vec![clear_cmd(), rect_cmd(Some("a"), true), rect_cmd(Some("a"), true)]);
    let err = validate_render(&env).unwrap_err();
    assert_eq!(err, ValidationError::DuplicateId);
    assert_eq!(err.message(), "duplicate id");
}

#[test]
fn duplicate_ids_fail_with_other_violations_present() {
    // Duplicate ids must fail regardless of the rest of the envelope.
    let mut cmds = vec![clear_cmd(), rect_cmd(Some("a"), true), rect_cmd(Some("a"), false)];
    cmds.push(Command::Line { x1: 0, y1: 0, x2: 5, y2: 5, color: None, width: None });
    let env = envelope(cmds);
    assert!(validate_render(&env).is_err());
}

#[test]
fn clickable_rect_without_id_fails() {
    let env = envelope(vec![clear_cmd(), rect_cmd(None, true)]);
    let err = validate_render(&env).unwrap_err();
    assert_eq!(err.message(), "clickable rect requires id");
}

#[test]
fn blank_id_fails() {
    let env = envelope(vec![clear_cmd(), rect_cmd(Some("   "), false)]);
    let err = validate_render(&env).unwrap_err();
    assert_eq!(err.message(), "id must not be empty");
}

#[test]
fn wrong_version_fails() {
    let mut env = envelope(vec![clear_cmd()]);
    env.version = String::from("AGD/0.1");
    assert_eq!(validate_render(&env).unwrap_err().message(), "unsupported version");
}

#[test]
fn wrong_type_fails() {
    let mut env = envelope(vec![clear_cmd()]);
    env.render_type = String::from("event");
    assert_eq!(validate_render(&env).unwrap_err().message(), "unsupported type");
}

#[test]
fn zero_window_fails() {
    let mut env = envelope(vec![clear_cmd()]);
    env.window.width = 0;
    assert_eq!(validate_render(&env).unwrap_err().message(), "window size must be positive");
}

#[test]
fn blank_title_fails() {
    let mut env = envelope(vec![clear_cmd()]);
    env.window.title = String::from("  \t ");
    assert_eq!(validate_render(&env).unwrap_err().message(), "window title must not be empty");
}

#[test]
fn empty_commands_fail() {
    let env = envelope(vec![]);
    assert_eq!(validate_render(&env).unwrap_err().message(), "commands must not be empty");
}

#[test]
fn bad_clear_color_fails() {
    let env = envelope(vec![Command::Clear { color: String::from("#ggg") }]);
    assert_eq!(validate_render(&env).unwrap_err().message(), "clear.color must be #RRGGBB");
}

#[test]
fn polygon_with_two_points_fails() {
    let env = envelope(vec![
        clear_cmd(),
        Command::Polygon {
            points: Some(vec![Point { x: 0, y: 0 }, Point { x: 5, y: 5 }]),
            fill: Some(String::from("#112233")),
            stroke: None,
            stroke_width: None,
        },
    ]);
    let err = validate_render(&env).unwrap_err();
    assert_eq!(err.message(), "polygon.points must have at least 3 points");
}

#[test]
fn polyline_needs_two_points() {
    let env = envelope(vec![
        clear_cmd(),
        Command::Polyline { points: Some(vec![Point { x: 0, y: 0 }]), color: None, width: None },
    ]);
    assert_eq!(
        validate_render(&env).unwrap_err().message(),
        "polyline.points must have at least 2 points"
    );
}

#[test]
fn circle_requires_all_fields() {
    let env = envelope(vec![
        clear_cmd(),
        Command::Circle {
            cx: None,
            cy: Some(5),
            r: Some(3),
            fill: Some(String::from("#112233")),
            stroke: None,
            stroke_width: None,
        },
    ]);
    assert_eq!(validate_render(&env).unwrap_err().message(), "circle.cx is required");
}

#[test]
fn circle_zero_radius_fails() {
    let env = envelope(vec![
        clear_cmd(),
        Command::Circle {
            cx: Some(5),
            cy: Some(5),
            r: Some(0),
            fill: Some(String::from("#112233")),
            stroke: None,
            stroke_width: None,
        },
    ]);
    assert_eq!(validate_render(&env).unwrap_err().message(), "circle.r must be positive");
}

#[test]
fn shape_needs_fill_or_stroke() {
    let env = envelope(vec![
        clear_cmd(),
        Command::Circle {
            cx: Some(5),
            cy: Some(5),
            r: Some(3),
            fill: None,
            stroke: None,
            stroke_width: None,
        },
    ]);
    assert_eq!(validate_render(&env).unwrap_err().message(), "circle must have fill or stroke");
}

#[test]
fn image_src_type_must_be_known() {
    let env = envelope(vec![
        clear_cmd(),
        Command::Image {
            x: Some(0),
            y: Some(0),
            w: Some(4),
            h: Some(4),
            src_type: Some(String::from("url")),
            src: Some(String::from("xyz")),
        },
    ]);
    assert_eq!(validate_render(&env).unwrap_err().message(), "image.src_type must be path|base64");
}

#[test]
fn path_needs_move_segment() {
    let env = envelope(vec![
        clear_cmd(),
        Command::Path {
            segments: Some(vec![agd_ui::model::PathSegment {
                cmd: String::from("Z"),
                x: None,
                y: None,
            }]),
            fill: Some(String::from("#112233")),
            stroke: None,
            stroke_width: None,
        },
    ]);
    assert_eq!(validate_render(&env).unwrap_err().message(), "path.segments must include M");
}

#[test]
fn path_bad_segment_cmd_fails() {
    let env = envelope(vec![
        clear_cmd(),
        Command::Path {
            segments: Some(vec![agd_ui::model::PathSegment {
                cmd: String::from("Q"),
                x: Some(1),
                y: Some(2),
            }]),
            fill: Some(String::from("#112233")),
            stroke: None,
            stroke_width: None,
        },
    ]);
    assert_eq!(validate_render(&env).unwrap_err().message(), "path.segments cmd must be M|L|Z");
}

#[test]
fn zero_stroke_width_fails() {
    let mut env = envelope(vec![clear_cmd()]);
    env.commands.push(Command::Rect {
        id: None,
        x: 0,
        y: 0,
        w: 5,
        h: 5,
        fill: None,
        stroke: Some(String::from("#000000")),
        stroke_width: Some(0),
        clickable: false,
    });
    assert_eq!(validate_render(&env).unwrap_err().message(), "rect.stroke_width must be positive");
}
