//! The typed command vocabulary of the render protocol.
//!
//! A `RenderEnvelope` describes one frame: a window specification and an
//! ordered command list whose order is z-order (later commands draw over
//! earlier ones).  An `EventEnvelope` reports a user click back to the
//! producer.  Arc angles are carried as whole degrees.

use vstd::prelude::*;

verus! {

/// Size and title of the window a frame is meant for.
#[derive(Debug, Clone)]
pub struct WindowSpec {
    pub width: u32,
    pub height: u32,
    pub title: String,
}

/// One full frame: protocol tag, advisory frame counter, window, and the
/// ordered drawing command list.
#[derive(Debug, Clone)]
pub struct RenderEnvelope {
    pub version: String,
    pub render_type: String,
    pub seq: u64,
    pub window: WindowSpec,
    pub commands: Vec<Command>,
}

/// Outbound description of one user interaction.
#[derive(Debug, Clone)]
pub struct EventEnvelope {
    pub version: String,
    pub event_type: String,
    pub seq: u64,
    pub event: ClickEvent,
}

/// The interaction itself: which target was clicked and where.
#[derive(Debug, Clone)]
pub struct ClickEvent {
    pub kind: String,
    pub target_id: String,
    pub x: i32,
    pub y: i32,
}

/// A vertex of a polyline, polygon or path.
#[derive(Debug, Clone, Copy)]
pub struct Point {
    pub x: i32,
    pub y: i32,
}

/// One step of a vector path: move (`M`), line (`L`) or close (`Z`).
#[derive(Debug, Clone)]
pub struct PathSegment {
    pub cmd: String,
    pub x: Option<i32>,
    pub y: Option<i32>,
}

/// The closed set of drawing commands an envelope may carry.
#[derive(Debug, Clone)]
pub enum Command {
    Clear {
        color: String,
    },
    Rect {
        id: Option<String>,
        x: i32,
        y: i32,
        w: u32,
        h: u32,
        fill: Option<String>,
        stroke: Option<String>,
        stroke_width: Option<u32>,
        clickable: bool,
    },
    Text {
        x: i32,
        y: i32,
        text: String,
        color: Option<String>,
        bg: Option<String>,
    },
    Line {
        x1: i32,
        y1: i32,
        x2: i32,
        y2: i32,
        color: Option<String>,
        width: Option<u32>,
    },
    Circle {
        cx: Option<i32>,
        cy: Option<i32>,
        r: Option<u32>,
        fill: Option<String>,
        stroke: Option<String>,
        stroke_width: Option<u32>,
    },
    Ellipse {
        cx: Option<i32>,
        cy: Option<i32>,
        rx: Option<u32>,
        ry: Option<u32>,
        fill: Option<String>,
        stroke: Option<String>,
        stroke_width: Option<u32>,
    },
    RoundRect {
        x: Option<i32>,
        y: Option<i32>,
        w: Option<u32>,
        h: Option<u32>,
        r: Option<u32>,
        fill: Option<String>,
        stroke: Option<String>,
        stroke_width: Option<u32>,
    },
    Arc {
        cx: Option<i32>,
        cy: Option<i32>,
        r: Option<u32>,
        start_angle: Option<i32>,
        end_angle: Option<i32>,
        color: Option<String>,
        width: Option<u32>,
    },
    Polyline {
        points: Option<Vec<Point>>,
        color: Option<String>,
        width: Option<u32>,
    },
    Polygon {
        points: Option<Vec<Point>>,
        fill: Option<String>,
        stroke: Option<String>,
        stroke_width: Option<u32>,
    },
    Image {
        x: Option<i32>,
        y: Option<i32>,
        w: Option<u32>,
        h: Option<u32>,
        src_type: Option<String>,
        src: Option<String>,
    },
    Path {
        segments: Option<Vec<PathSegment>>,
        fill: Option<String>,
        stroke: Option<String>,
        stroke_width: Option<u32>,
    },
}

} // verus!
