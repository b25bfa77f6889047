//! Hit-test index behavior: insertion order wins on overlap.

use agd_ui::hit_test::{build_hit_test, HitTarget, HitTestIndex};
use agd_ui::model::{Command, RenderEnvelope, WindowSpec};

fn target(id: &str, x: i32, y: i32, w: u32, h: u32) -> HitTarget {
    HitTarget { id: String::from(id), x, y, w, h }
}

#[test]
fn first_in_list_wins_on_overlap() {
    let mut index = HitTestIndex::new();
    index.add(target("a", 0, 0, 10, 10));
    index.add(target("b", 5, 5, 10, 10));
    assert_eq!(index.hit(7, 7), Some("a"));
}

#[test]
fn hit_misses_outside_every_target() {
    let mut index = HitTestIndex::new();
    index.add(target("a", 0, 0, 10, 10));
    assert_eq!(index.hit(10, 0), None);
    assert_eq!(index.hit(-1, 5), None);
    assert_eq!(index.hit(3, 4), Some("a"));
}

#[test]
fn reset_clears_targets() {
    let mut index = HitTestIndex::new();
    index.add(target("a", 0, 0, 10, 10));
    index.reset();
    assert_eq!(index.hit(5, 5), None);
}

#[test]
fn hit_target_returns_rectangle() {
    let mut index = HitTestIndex::new();
    index.add(target("a", 2, 3, 4, 5));
    let t = index.hit_target(3, 4).unwrap();
    assert_eq!(t.id.as_str(), "a");
    assert_eq!((t.x, t.y, t.w, t.h), (2, 3, 4, 5));
}

#[test]
fn build_from_commands_takes_clickable_rects_in_order() {
    let env = RenderEnvelope {
        version: String::from("AGD/0.2"),
        render_type: String::from("render"),
        seq: 1,
        window: WindowSpec { width: 100, height: 100, title: String::from("t") },
        commands: vec![
            Command::Clear { color: String::from("#ffffff") },
            Command::Rect {
                id: Some(String::from("a")),
                x: 0,
                y: 0,
                w: 10,
                h: 10,
                fill: None,
                stroke: None,
                stroke_width: None,
                clickable: true,
            },
            Command::Rect {
                id: Some(String::from("quiet")),
                x: 0,
                y: 0,
                w: 10,
                h: 10,
                fill: None,
                stroke: None,
                stroke_width: None,
                clickable: false,
            },
            Command::Rect {
                id: Some(String::from("b")),
                x: 5,
                y: 5,
                w: 10,
                h: 10,
                fill: None,
                stroke: None,
                stroke_width: None,
                clickable: true,
            },
        ],
    };
    let mut index = HitTestIndex::new();
    build_hit_test(&mut index, &env);
    assert_eq!(index.hit(7, 7), Some("a"));
    assert_eq!(index.hit(12, 12), Some("b"));
    assert_eq!(index.hit(50, 50), None);
}
