//! Serializer behavior: exact JSON framing, and the round trip through a
//! real JSON parser back to a structurally identical envelope.

use agd_ui::model::{Command, PathSegment, Point, RenderEnvelope, WindowSpec};
use agd_ui::parser::extract_json_object;
use agd_ui::serialize::{build_click_event_json, envelope_to_json};
use serde_json::Value;

#[test]
fn click_event_json_is_exact() {
    let s = build_click_event_json("btn1", 20, 15, 3);
    assert_eq!(
        s,
        "{\"version\":\"AGD/0.2\",\"type\":\"event\",\"seq\":3,\"event\":{\"kind\":\"click\",\"target_id\":\"btn1\",\"x\":20,\"y\":15}}"
    );
}

#[test]
fn click_event_json_escapes_the_id() {
    let s = build_click_event_json("a\"b\\c", -1, 0, 10);
    assert_eq!(
        s,
        "{\"version\":\"AGD/0.2\",\"type\":\"event\",\"seq\":10,\"event\":{\"kind\":\"click\",\"target_id\":\"a\\\"b\\\\c\",\"x\":-1,\"y\":0}}"
    );
    // And it stays parseable JSON with the id intact.
    let v: Value = serde_json::from_str(&s).unwrap();
    assert_eq!(v["event"]["target_id"].as_str().unwrap(), "a\"b\\c");
    assert_eq!(v["event"]["x"].as_i64().unwrap(), -1);
}

#[test]
fn extraction_takes_first_to_last_brace() {
    let raw = "noise ```json\n{\"a\":1}\n``` trailing";
    assert_eq!(extract_json_object(raw).unwrap(), "{\"a\":1}");
    let raw2 = "{\"a\":{\"b\":2}} and {\"c\":3}";
    assert_eq!(extract_json_object(raw2).unwrap(), "{\"a\":{\"b\":2}} and {\"c\":3}");
}

#[test]
fn extraction_fails_without_a_brace_pair() {
    assert!(extract_json_object("no json here").is_err());
    assert!(extract_json_object("only } brace { wrong order").is_err());
    assert_eq!(
        extract_json_object("nothing").unwrap_err().message(),
        "No JSON object found in LLM output"
    );
}

fn full_envelope() -> RenderEnvelope {
    RenderEnvelope {
        version: String::from("AGD/0.2"),
        render_type: String::from("render"),
        seq: 42,
        window: WindowSpec { width: 320, height: 200, title: String::from("A \"quoted\" title") },
        commands: vec![
            Command::Clear { color: String::from("#ffffff") },
            Command::Rect {
                id: Some(String::from("btn1")),
                x: -3,
                y: 4,
                w: 50,
                h: 20,
                fill: Some(String::from("#ff0000")),
                stroke: Some(String::from("#000000")),
                stroke_width: Some(2),
                clickable: true,
            },
            Command::Text {
                x: 5,
                y: 6,
                text: String::from("line1\nline2"),
                color: None,
                bg: Some(String::from("#eeeeee")),
            },
            Command::Line { x1: 0, y1: 1, x2: 2, y2: 3, color: None, width: Some(3) },
            Command::Circle {
                cx: Some(10),
                cy: Some(-10),
                r: Some(7),
                fill: None,
                stroke: Some(String::from("#112233")),
                stroke_width: None,
            },
            Command::Ellipse {
                cx: Some(1),
                cy: Some(2),
                rx: Some(3),
                ry: Some(4),
                fill: Some(String::from("#445566")),
                stroke: None,
                stroke_width: None,
            },
            Command::RoundRect {
                x: Some(0),
                y: Some(0),
                w: Some(10),
                h: Some(8),
                r: Some(2),
                fill: Some(String::from("#778899")),
                stroke: None,
                stroke_width: None,
            },
            Command::Arc {
                cx: Some(5),
                cy: Some(5),
                r: Some(4),
                start_angle: Some(-90),
                end_angle: Some(180),
                color: Some(String::from("#aabbcc")),
                width: Some(1),
            },
            Command::Polyline {
                points: Some(vec![Point { x: 0, y: 0 }, Point { x: 3, y: 4 }]),
                color: Some(String::from("#010203")),
                width: None,
            },
            Command::Polygon {
                points: Some(vec![
                    Point { x: 0, y: 0 },
                    Point { x: 5, y: 0 },
                    Point { x: 2, y: 4 },
                ]),
                fill: Some(String::from("#040506")),
                stroke: None,
                stroke_width: None,
            },
            Command::Image {
                x: Some(1),
                y: Some(2),
                w: Some(3),
                h: Some(4),
                src_type: Some(String::from("base64")),
                src: Some(String::from("QUJD")),
            },
            Command::Path {
                segments: Some(vec![
                    PathSegment { cmd: String::from("M"), x: Some(0), y: Some(0) },
                    PathSegment { cmd: String::from("L"), x: Some(5), y: Some(5) },
                    PathSegment { cmd: String::from("Z"), x: None, y: None },
                ]),
                fill: None,
                stroke: Some(String::from("#0a0b0c")),
                stroke_width: Some(2),
            },
        ],
    }
}

fn opt_str(v: &Value) -> Option<String> {
    v.as_str().map(|s| String::from(s))
}

fn opt_i32(v: &Value) -> Option<i32> {
    v.as_i64().map(|n| n as i32)
}

fn opt_u32(v: &Value) -> Option<u32> {
    v.as_u64().map(|n| n as u32)
}

fn value_to_command(v: &Value) -> Command {
    match v["cmd"].as_str().unwrap() {
        "clear" => Command::Clear { color: String::from(v["color"].as_str().unwrap()) },
        "rect" => Command::Rect {
            id: opt_str(&v["id"]),
            x: v["x"].as_i64().unwrap() as i32,
            y: v["y"].as_i64().unwrap() as i32,
            w: v["w"].as_u64().unwrap() as u32,
            h: v["h"].as_u64().unwrap() as u32,
            fill: opt_str(&v["fill"]),
            stroke: opt_str(&v["stroke"]),
            stroke_width: opt_u32(&v["stroke_width"]),
            clickable: v["clickable"].as_bool().unwrap(),
        },
        "text" => Command::Text {
            x: v["x"].as_i64().unwrap() as i32,
            y: v["y"].as_i64().unwrap() as i32,
            text: String::from(v["text"].as_str().unwrap()),
            color: opt_str(&v["color"]),
            bg: opt_str(&v["bg"]),
        },
        "line" => Command::Line {
            x1: v["x1"].as_i64().unwrap() as i32,
            y1: v["y1"].as_i64().unwrap() as i32,
            x2: v["x2"].as_i64().unwrap() as i32,
            y2: v["y2"].as_i64().unwrap() as i32,
            color: opt_str(&v["color"]),
            width: opt_u32(&v["width"]),
        },
        "circle" => Command::Circle {
            cx: opt_i32(&v["cx"]),
            cy: opt_i32(&v["cy"]),
            r: opt_u32(&v["r"]),
            fill: opt_str(&v["fill"]),
            stroke: opt_str(&v["stroke"]),
            stroke_width: opt_u32(&v["stroke_width"]),
        },
        "ellipse" => Command::Ellipse {
            cx: opt_i32(&v["cx"]),
            cy: opt_i32(&v["cy"]),
            rx: opt_u32(&v["rx"]),
            ry: opt_u32(&v["ry"]),
            fill: opt_str(&v["fill"]),
            stroke: opt_str(&v["stroke"]),
            stroke_width: opt_u32(&v["stroke_width"]),
        },
        "round_rect" => Command::RoundRect {
            x: opt_i32(&v["x"]),
            y: opt_i32(&v["y"]),
            w: opt_u32(&v["w"]),
            h: opt_u32(&v["h"]),
            r: opt_u32(&v["r"]),
            fill: opt_str(&v["fill"]),
            stroke: opt_str(&v["stroke"]),
            stroke_width: opt_u32(&v["stroke_width"]),
        },
        "arc" => Command::Arc {
            cx: opt_i32(&v["cx"]),
            cy: opt_i32(&v["cy"]),
            r: opt_u32(&v["r"]),
            start_angle: opt_i32(&v["start_angle"]),
            end_angle: opt_i32(&v["end_angle"]),
            color: opt_str(&v["color"]),
            width: opt_u32(&v["width"]),
        },
        "polyline" => Command::Polyline {
            points: v["points"].as_array().map(|a| {
                a.iter()
                    .map(|p| Point {
                        x: p["x"].as_i64().unwrap() as i32,
                        y: p["y"].as_i64().unwrap() as i32,
                    })
                    .collect()
            }),
            color: opt_str(&v["color"]),
            width: opt_u32(&v["width"]),
        },
        "polygon" => Command::Polygon {
            points: v["points"].as_array().map(|a| {
                a.iter()
                    .map(|p| Point {
                        x: p["x"].as_i64().unwrap() as i32,
                        y: p["y"].as_i64().unwrap() as i32,
                    })
                    .collect()
            }),
            fill: opt_str(&v["fill"]),
            stroke: opt_str(&v["stroke"]),
            stroke_width: opt_u32(&v["stroke_width"]),
        },
        "image" => Command::Image {
            x: opt_i32(&v["x"]),
            y: opt_i32(&v["y"]),
            w: opt_u32(&v["w"]),
            h: opt_u32(&v["h"]),
            src_type: opt_str(&v["src_type"]),
            src: opt_str(&v["src"]),
        },
        "path" => Command::Path {
            segments: v["segments"].as_array().map(|a| {
                a.iter()
                    .map(|s| PathSegment {
                        cmd: String::from(s["cmd"].as_str().unwrap()),
                        x: opt_i32(&s["x"]),
                        y: opt_i32(&s["y"]),
                    })
                    .collect()
            }),
            fill: opt_str(&v["fill"]),
            stroke: opt_str(&v["stroke"]),
            stroke_width: opt_u32(&v["stroke_width"]),
        },
        other => panic!("unknown command tag {other}"),
    }
}

fn commands_equal(a: &Command, b: &Command) -> bool {
    // Structural comparison through the serializer itself would be circular;
    // compare the debug form, which prints every field.
    format!("{a:?}") == format!("{b:?}")
}

#[test]
fn serialized_envelope_reparses_identically() {
    let env = full_envelope();
    let text = envelope_to_json(&env);
    let v: Value = serde_json::from_str(&text).unwrap();
    assert_eq!(v["version"].as_str().unwrap(), "AGD/0.2");
    assert_eq!(v["type"].as_str().unwrap(), "render");
    assert_eq!(v["seq"].as_u64().unwrap(), 42);
    assert_eq!(v["window"]["width"].as_u64().unwrap(), 320);
    assert_eq!(v["window"]["height"].as_u64().unwrap(), 200);
    assert_eq!(v["window"]["title"].as_str().unwrap(), "A \"quoted\" title");
    let parsed_cmds: Vec<Command> =
        v["commands"].as_array().unwrap().iter().map(value_to_command).collect();
    assert_eq!(parsed_cmds.len(), env.commands.len());
    for (a, b) in parsed_cmds.iter().zip(env.commands.iter()) {
        assert!(commands_equal(a, b), "round trip changed {b:?} into {a:?}");
    }
}

#[test]
fn serialized_envelope_survives_extraction() {
    let env = full_envelope();
    let text = envelope_to_json(&env);
    let wrapped = format!("Here you go:\n```json\n{text}\n```\nHope that helps.");
    let inner = extract_json_object(&wrapped).unwrap();
    assert_eq!(inner, text);
}
