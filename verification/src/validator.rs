//! Semantic validation of a render envelope.
//!
//! Every rule is enforced before any drawing happens: exact protocol tags, a
//! positive window with a non-blank title, a non-empty command list holding at
//! least one clear, non-blank unique ids, `#RRGGBB` colors, positive sizes,
//! complete shape descriptions, and well-formed vector paths.  Validation is
//! pure: it never changes the envelope, and it reports a violation exactly
//! when one exists.

use vstd::prelude::*;

use crate::color::{is_hex_color, spec_is_hex_color};
use crate::model::{Command, PathSegment, Point, RenderEnvelope};
use crate::strutil::{contains_str, is_blank, spec_is_blank, str_eq};

verus! {

/// A color-carrying field of some command.
#[derive(Debug, Clone, Copy, PartialEq, Eq, Structural)]
pub enum ColorField {
    ClearColor,
    RectFill,
    RectStroke,
    TextColor,
    TextBg,
    LineColor,
    CircleFill,
    CircleStroke,
    EllipseFill,
    EllipseStroke,
    RoundRectFill,
    RoundRectStroke,
    ArcColor,
    PolylineColor,
    PolygonFill,
    PolygonStroke,
    PathFill,
    PathStroke,
}

/// A numeric field a shape description must carry.
#[derive(Debug, Clone, Copy, PartialEq, Eq, Structural)]
pub enum NumField {
    CircleCx,
    CircleCy,
    CircleR,
    EllipseCx,
    EllipseCy,
    EllipseRx,
    EllipseRy,
    RoundRectX,
    RoundRectY,
    RoundRectW,
    RoundRectH,
    RoundRectR,
    ArcCx,
    ArcCy,
    ArcR,
    ArcStartAngle,
    ArcEndAngle,
    ImageX,
    ImageY,
    ImageW,
    ImageH,
}

/// An optional line or stroke thickness that must be positive when given.
#[derive(Debug, Clone, Copy, PartialEq, Eq, Structural)]
pub enum WidthField {
    LineWidth,
    ArcWidth,
    PolylineWidth,
    RectStrokeWidth,
    CircleStrokeWidth,
    EllipseStrokeWidth,
    RoundRectStrokeWidth,
    PolygonStrokeWidth,
    PathStrokeWidth,
}

/// A shape that must name at least one of fill or stroke.
#[derive(Debug, Clone, Copy, PartialEq, Eq, Structural)]
pub enum ShapeKind {
    Circle,
    Ellipse,
    RoundRect,
    Polygon,
    Path,
}

/// A command carrying a vertex list with a minimum length.
#[derive(Debug, Clone, Copy, PartialEq, Eq, Structural)]
pub enum PolyKind {
    Polyline,
    Polygon,
}

/// The specific rule an envelope broke.
#[derive(Debug, Clone, Copy, PartialEq, Eq, Structural)]
pub enum ValidationError {
    UnsupportedVersion,
    UnsupportedType,
    WindowSize,
    WindowTitle,
    NoCommands,
    MissingClear,
    ClickableRectNeedsId,
    EmptyId,
    DuplicateId,
    RectSize,
    InvalidColor(ColorField),
    MissingField(NumField),
    FieldNotPositive(NumField),
    WidthNotPositive(WidthField),
    MissingPoints(PolyKind),
    TooFewPoints(PolyKind),
    NoFillOrStroke(ShapeKind),
    MissingSegments,
    EmptySegments,
    SegmentMissingXY,
    BadSegmentCmd,
    NoMoveSegment,
    MissingImageSrcType,
    BadImageSrcType,
    MissingImageSrc,
    EmptyImageSrc,
}

impl ValidationError {
    /// The wording the protocol uses for this violation.
    pub fn message(&self) -> &'static str {
        match self {
            ValidationError::UnsupportedVersion => "unsupported version",
            ValidationError::UnsupportedType => "unsupported type",
            ValidationError::WindowSize => "window size must be positive",
            ValidationError::WindowTitle => "window title must not be empty",
            ValidationError::NoCommands => "commands must not be empty",
            ValidationError::MissingClear => "commands must include clear",
            ValidationError::ClickableRectNeedsId => "clickable rect requires id",
            ValidationError::EmptyId => "id must not be empty",
            ValidationError::DuplicateId => "duplicate id",
            ValidationError::RectSize => "rect must have positive size",
            ValidationError::InvalidColor(f) => match f {
                ColorField::ClearColor => "clear.color must be #RRGGBB",
                ColorField::RectFill => "rect.fill must be #RRGGBB",
                ColorField::RectStroke => "rect.stroke must be #RRGGBB",
                ColorField::TextColor => "text.color must be #RRGGBB",
                ColorField::TextBg => "text.bg must be #RRGGBB",
                ColorField::LineColor => "line.color must be #RRGGBB",
                ColorField::CircleFill => "circle.fill must be #RRGGBB",
                ColorField::CircleStroke => "circle.stroke must be #RRGGBB",
                ColorField::EllipseFill => "ellipse.fill must be #RRGGBB",
                ColorField::EllipseStroke => "ellipse.stroke must be #RRGGBB",
                ColorField::RoundRectFill => "round_rect.fill must be #RRGGBB",
                ColorField::RoundRectStroke => "round_rect.stroke must be #RRGGBB",
                ColorField::ArcColor => "arc.color must be #RRGGBB",
                ColorField::PolylineColor => "polyline.color must be #RRGGBB",
                ColorField::PolygonFill => "polygon.fill must be #RRGGBB",
                ColorField::PolygonStroke => "polygon.stroke must be #RRGGBB",
                ColorField::PathFill => "path.fill must be #RRGGBB",
                ColorField::PathStroke => "path.stroke must be #RRGGBB",
            },
            ValidationError::MissingField(f) => match f {
                NumField::CircleCx => "circle.cx is required",
                NumField::CircleCy => "circle.cy is required",
                NumField::CircleR => "circle.r is required",
                NumField::EllipseCx => "ellipse.cx is required",
                NumField::EllipseCy => "ellipse.cy is required",
                NumField::EllipseRx => "ellipse.rx is required",
                NumField::EllipseRy => "ellipse.ry is required",
                NumField::RoundRectX => "round_rect.x is required",
                NumField::RoundRectY => "round_rect.y is required",
                NumField::RoundRectW => "round_rect.w is required",
                NumField::RoundRectH => "round_rect.h is required",
                NumField::RoundRectR => "round_rect.r is required",
                NumField::ArcCx => "arc.cx is required",
                NumField::ArcCy => "arc.cy is required",
                NumField::ArcR => "arc.r is required",
                NumField::ArcStartAngle => "arc.start_angle is required",
                NumField::ArcEndAngle => "arc.end_angle is required",
                NumField::ImageX => "image.x is required",
                NumField::ImageY => "image.y is required",
                NumField::ImageW => "image.w is required",
                NumField::ImageH => "image.h is required",
            },
            ValidationError::FieldNotPositive(f) => match f {
                NumField::CircleCx => "circle.cx must be positive",
                NumField::CircleCy => "circle.cy must be positive",
                NumField::CircleR => "circle.r must be positive",
                NumField::EllipseCx => "ellipse.cx must be positive",
                NumField::EllipseCy => "ellipse.cy must be positive",
                NumField::EllipseRx => "ellipse.rx must be positive",
                NumField::EllipseRy => "ellipse.ry must be positive",
                NumField::RoundRectX => "round_rect.x must be positive",
                NumField::RoundRectY => "round_rect.y must be positive",
                NumField::RoundRectW => "round_rect.w must be positive",
                NumField::RoundRectH => "round_rect.h must be positive",
                NumField::RoundRectR => "round_rect.r must be positive",
                NumField::ArcCx => "arc.cx must be positive",
                NumField::ArcCy => "arc.cy must be positive",
                NumField::ArcR => "arc.r must be positive",
                NumField::ArcStartAngle => "arc.start_angle must be positive",
                NumField::ArcEndAngle => "arc.end_angle must be positive",
                NumField::ImageX => "image.x must be positive",
                NumField::ImageY => "image.y must be positive",
                NumField::ImageW => "image.w must be positive",
                NumField::ImageH => "image.h must be positive",
            },
            ValidationError::WidthNotPositive(f) => match f {
                WidthField::LineWidth => "line.width must be positive",
                WidthField::ArcWidth => "arc.width must be positive",
                WidthField::PolylineWidth => "polyline.width must be positive",
                WidthField::RectStrokeWidth => "rect.stroke_width must be positive",
                WidthField::CircleStrokeWidth => "circle.stroke_width must be positive",
                WidthField::EllipseStrokeWidth => "ellipse.stroke_width must be positive",
                WidthField::RoundRectStrokeWidth => "round_rect.stroke_width must be positive",
                WidthField::PolygonStrokeWidth => "polygon.stroke_width must be positive",
                WidthField::PathStrokeWidth => "path.stroke_width must be positive",
            },
            ValidationError::MissingPoints(k) => match k {
                PolyKind::Polyline => "polyline.points is required",
                PolyKind::Polygon => "polygon.points is required",
            },
            ValidationError::TooFewPoints(k) => match k {
                PolyKind::Polyline => "polyline.points must have at least 2 points",
                PolyKind::Polygon => "polygon.points must have at least 3 points",
            },
            ValidationError::NoFillOrStroke(k) => match k {
                ShapeKind::Circle => "circle must have fill or stroke",
                ShapeKind::Ellipse => "ellipse must have fill or stroke",
                ShapeKind::RoundRect => "round_rect must have fill or stroke",
                ShapeKind::Polygon => "polygon must have fill or stroke",
                ShapeKind::Path => "path must have fill or stroke",
            },
            ValidationError::MissingSegments => "path.segments is required",
            ValidationError::EmptySegments => "path.segments must not be empty",
            ValidationError::SegmentMissingXY => "path.segments M/L must include x,y",
            ValidationError::BadSegmentCmd => "path.segments cmd must be M|L|Z",
            ValidationError::NoMoveSegment => "path.segments must include M",
            ValidationError::MissingImageSrcType => "image.src_type is required",
            ValidationError::BadImageSrcType => "image.src_type must be path|base64",
            ValidationError::MissingImageSrc => "image.src is required",
            ValidationError::EmptyImageSrc => "image.src must not be empty",
        }
    }
}

/// An optional color that, when present, has the `#RRGGBB` form.
pub open spec fn spec_color_opt_ok(c: Option<String>) -> bool {
    match c {
        Some(s) => spec_is_hex_color(s@),
        None => true,
    }
}

/// An optional thickness that, when present, is positive.
pub open spec fn spec_width_opt_ok(w: Option<u32>) -> bool {
    match w {
        Some(t) => t > 0,
        None => true,
    }
}

/// A path segment whose `cmd` is `M`, `L` or `Z`, with coordinates on `M`/`L`.
pub open spec fn spec_segment_ok(s: PathSegment) -> bool {
    &&& (s.cmd@ == "M"@ || s.cmd@ == "L"@ || s.cmd@ == "Z"@)
    &&& ((s.cmd@ == "M"@ || s.cmd@ == "L"@) ==> (s.x is Some && s.y is Some))
}

/// A segment list that is present, non-empty, well-formed, and holds a move.
pub open spec fn spec_segments_ok(segments: Option<Vec<PathSegment>>) -> bool {
    match segments {
        Some(sv) => {
            &&& sv@.len() > 0
            &&& (forall|i: int| 0 <= i < sv@.len() ==> spec_segment_ok(#[trigger] sv@[i]))
            &&& (exists|i: int| 0 <= i < sv@.len() && (#[trigger] sv@[i]).cmd@ == "M"@)
        },
        None => false,
    }
}

/// Every rule a single command must satisfy.
pub open spec fn spec_cmd_valid(cmd: Command) -> bool {
    match cmd {
        Command::Clear { color } => spec_is_hex_color(color@),
        Command::Rect { id, x, y, w, h, fill, stroke, stroke_width, clickable } => {
            &&& (clickable ==> id is Some)
            &&& (match id {
                Some(s) => !spec_is_blank(s@),
                None => true,
            })
            &&& w > 0 && h > 0
            &&& spec_color_opt_ok(fill)
            &&& spec_color_opt_ok(stroke)
            &&& spec_width_opt_ok(stroke_width)
        },
        Command::Text { x, y, text, color, bg } => {
            spec_color_opt_ok(color) && spec_color_opt_ok(bg)
        },
        Command::Line { x1, y1, x2, y2, color, width } => {
            spec_color_opt_ok(color) && spec_width_opt_ok(width)
        },
        Command::Circle { cx, cy, r, fill, stroke, stroke_width } => {
            &&& cx is Some && cy is Some
            &&& (match r {
                Some(v) => v > 0,
                None => false,
            })
            &&& spec_color_opt_ok(fill)
            &&& spec_color_opt_ok(stroke)
            &&& spec_width_opt_ok(stroke_width)
            &&& (fill is Some || stroke is Some)
        },
        Command::Ellipse { cx, cy, rx, ry, fill, stroke, stroke_width } => {
            &&& cx is Some && cy is Some
            &&& (match rx {
                Some(v) => v > 0,
                None => false,
            })
            &&& (match ry {
                Some(v) => v > 0,
                None => false,
            })
            &&& spec_color_opt_ok(fill)
            &&& spec_color_opt_ok(stroke)
            &&& spec_width_opt_ok(stroke_width)
            &&& (fill is Some || stroke is Some)
        },
        Command::RoundRect { x, y, w, h, r, fill, stroke, stroke_width } => {
            &&& x is Some && y is Some
            &&& (match w {
                Some(v) => v > 0,
                None => false,
            })
            &&& (match h {
                Some(v) => v > 0,
                None => false,
            })
            &&& (match r {
                Some(v) => v > 0,
                None => false,
            })
            &&& spec_color_opt_ok(fill)
            &&& spec_color_opt_ok(stroke)
            &&& spec_width_opt_ok(stroke_width)
            &&& (fill is Some || stroke is Some)
        },
        Command::Arc { cx, cy, r, start_angle, end_angle, color, width } => {
            &&& cx is Some && cy is Some
            &&& (match r {
                Some(v) => v > 0,
                None => false,
            })
            &&& start_angle is Some && end_angle is Some
            &&& spec_color_opt_ok(color)
            &&& spec_width_opt_ok(width)
        },
        Command::Polyline { points, color, width } => {
            &&& (match points {
                Some(pv) => pv@.len() >= 2,
                None => false,
            })
            &&& spec_color_opt_ok(color)
            &&& spec_width_opt_ok(width)
        },
        Command::Polygon { points, fill, stroke, stroke_width } => {
            &&& (match points {
                Some(pv) => pv@.len() >= 3,
                None => false,
            })
            &&& spec_color_opt_ok(fill)
            &&& spec_color_opt_ok(stroke)
            &&& spec_width_opt_ok(stroke_width)
            &&& (fill is Some || stroke is Some)
        },
        Command::Image { x, y, w, h, src_type, src } => {
            &&& x is Some && y is Some
            &&& (match w {
                Some(v) => v > 0,
                None => false,
            })
            &&& (match h {
                Some(v) => v > 0,
                None => false,
            })
            &&& (match src_type {
                Some(s) => s@ == "path"@ || s@ == "base64"@,
                None => false,
            })
            &&& (match src {
                Some(s) => !spec_is_blank(s@),
                None => false,
            })
        },
        Command::Path { segments, fill, stroke, stroke_width } => {
            &&& spec_segments_ok(segments)
            &&& spec_color_opt_ok(fill)
            &&& spec_color_opt_ok(stroke)
            &&& spec_width_opt_ok(stroke_width)
            &&& (fill is Some || stroke is Some)
        },
    }
}

/// The id a command declares, if any.
pub open spec fn spec_cmd_id(cmd: Command) -> Option<Seq<char>> {
    match cmd {
        Command::Rect { id, .. } => match id {
            Some(s) => Some(s@),
            None => None,
        },
        _ => None,
    }
}

/// No two of the first `n` commands declare the same id.
pub open spec fn spec_ids_unique_upto(cmds: Seq<Command>, n: int) -> bool {
    forall|i: int, j: int|
        0 <= i < j < n && (#[trigger] spec_cmd_id(cmds[i])) is Some ==> spec_cmd_id(cmds[i]) != (
        #[trigger] spec_cmd_id(cmds[j]))
}

/// No two commands declare the same id.
pub open spec fn spec_ids_unique(cmds: Seq<Command>) -> bool {
    spec_ids_unique_upto(cmds, cmds.len() as int)
}

/// Whether some command in the list is a clear.
pub open spec fn spec_has_clear(cmds: Seq<Command>) -> bool {
    exists|i: int| 0 <= i < cmds.len() && (#[trigger] cmds[i]) is Clear
}

/// An optional color that is present but not of the `#RRGGBB` form.
pub open spec fn spec_bad_color_opt(c: Option<String>) -> bool {
    match c {
        Some(s) => !spec_is_hex_color(s@),
        None => false,
    }
}

/// Whether `cmd` carries the color field `f` in a malformed state.
pub open spec fn spec_color_bad_at(cmd: Command, f: ColorField) -> bool {
    match cmd {
        Command::Clear { color } => f == ColorField::ClearColor && !spec_is_hex_color(color@),
        Command::Rect { fill, stroke, .. } => (f == ColorField::RectFill && spec_bad_color_opt(
            fill,
        )) || (f == ColorField::RectStroke && spec_bad_color_opt(stroke)),
        Command::Text { color, bg, .. } => (f == ColorField::TextColor && spec_bad_color_opt(color))
            || (f == ColorField::TextBg && spec_bad_color_opt(bg)),
        Command::Line { color, .. } => f == ColorField::LineColor && spec_bad_color_opt(color),
        Command::Circle { fill, stroke, .. } => (f == ColorField::CircleFill && spec_bad_color_opt(
            fill,
        )) || (f == ColorField::CircleStroke && spec_bad_color_opt(stroke)),
        Command::Ellipse { fill, stroke, .. } => (f == ColorField::EllipseFill
            && spec_bad_color_opt(fill)) || (f == ColorField::EllipseStroke && spec_bad_color_opt(
            stroke,
        )),
        Command::RoundRect { fill, stroke, .. } => (f == ColorField::RoundRectFill
            && spec_bad_color_opt(fill)) || (f == ColorField::RoundRectStroke
            && spec_bad_color_opt(stroke)),
        Command::Arc { color, .. } => f == ColorField::ArcColor && spec_bad_color_opt(color),
        Command::Polyline { color, .. } => f == ColorField::PolylineColor && spec_bad_color_opt(
            color,
        ),
        Command::Polygon { fill, stroke, .. } => (f == ColorField::PolygonFill
            && spec_bad_color_opt(fill)) || (f == ColorField::PolygonStroke && spec_bad_color_opt(
            stroke,
        )),
        Command::Path { fill, stroke, .. } => (f == ColorField::PathFill && spec_bad_color_opt(
            fill,
        )) || (f == ColorField::PathStroke && spec_bad_color_opt(stroke)),
        Command::Image { .. } => false,
    }
}

/// Whether `cmd` lacks the required numeric field `nf`.
pub open spec fn spec_num_missing(cmd: Command, nf: NumField) -> bool {
    match cmd {
        Command::Circle { cx, cy, r, .. } => (nf == NumField::CircleCx && cx is None) || (nf
            == NumField::CircleCy && cy is None) || (nf == NumField::CircleR && r is None),
        Command::Ellipse { cx, cy, rx, ry, .. } => (nf == NumField::EllipseCx && cx is None) || (nf
            == NumField::EllipseCy && cy is None) || (nf == NumField::EllipseRx && rx is None) || (
        nf == NumField::EllipseRy && ry is None),
        Command::RoundRect { x, y, w, h, r, .. } => (nf == NumField::RoundRectX && x is None) || (nf
            == NumField::RoundRectY && y is None) || (nf == NumField::RoundRectW && w is None) || (
        nf == NumField::RoundRectH && h is None) || (nf == NumField::RoundRectR && r is None),
        Command::Arc { cx, cy, r, start_angle, end_angle, .. } => (nf == NumField::ArcCx
            && cx is None) || (nf == NumField::ArcCy && cy is None) || (nf == NumField::ArcR
            && r is None) || (nf == NumField::ArcStartAngle && start_angle is None) || (nf
            == NumField::ArcEndAngle && end_angle is None),
        Command::Image { x, y, w, h, .. } => (nf == NumField::ImageX && x is None) || (nf
            == NumField::ImageY && y is None) || (nf == NumField::ImageW && w is None) || (nf
            == NumField::ImageH && h is None),
        _ => false,
    }
}

/// Whether `cmd` gives the size field `nf` the value zero.
pub open spec fn spec_num_zero(cmd: Command, nf: NumField) -> bool {
    match cmd {
        Command::Circle { r, .. } => nf == NumField::CircleR && r == Some(0u32),
        Command::Ellipse { rx, ry, .. } => (nf == NumField::EllipseRx && rx == Some(0u32)) || (nf
            == NumField::EllipseRy && ry == Some(0u32)),
        Command::RoundRect { w, h, r, .. } => (nf == NumField::RoundRectW && w == Some(0u32)) || (nf
            == NumField::RoundRectH && h == Some(0u32)) || (nf == NumField::RoundRectR && r == Some(
            0u32,
        )),
        Command::Arc { r, .. } => nf == NumField::ArcR && r == Some(0u32),
        Command::Image { w, h, .. } => (nf == NumField::ImageW && w == Some(0u32)) || (nf
            == NumField::ImageH && h == Some(0u32)),
        _ => false,
    }
}

/// Whether `cmd` gives the thickness field `wf` the value zero.
pub open spec fn spec_width_zero(cmd: Command, wf: WidthField) -> bool {
    match cmd {
        Command::Rect { stroke_width, .. } => wf == WidthField::RectStrokeWidth && stroke_width
            == Some(0u32),
        Command::Line { width, .. } => wf == WidthField::LineWidth && width == Some(0u32),
        Command::Circle { stroke_width, .. } => wf == WidthField::CircleStrokeWidth && stroke_width
            == Some(0u32),
        Command::Ellipse { stroke_width, .. } => wf == WidthField::EllipseStrokeWidth
            && stroke_width == Some(0u32),
        Command::RoundRect { stroke_width, .. } => wf == WidthField::RoundRectStrokeWidth
            && stroke_width == Some(0u32),
        Command::Arc { width, .. } => wf == WidthField::ArcWidth && width == Some(0u32),
        Command::Polyline { width, .. } => wf == WidthField::PolylineWidth && width == Some(0u32),
        Command::Polygon { stroke_width, .. } => wf == WidthField::PolygonStrokeWidth
            && stroke_width == Some(0u32),
        Command::Path { stroke_width, .. } => wf == WidthField::PathStrokeWidth && stroke_width
            == Some(0u32),
        _ => false,
    }
}

/// Whether `cmd` is the shape `sk` and names neither fill nor stroke.
pub open spec fn spec_no_fs_at(cmd: Command, sk: ShapeKind) -> bool {
    match cmd {
        Command::Circle { fill, stroke, .. } => sk == ShapeKind::Circle && fill is None
            && stroke is None,
        Command::Ellipse { fill, stroke, .. } => sk == ShapeKind::Ellipse && fill is None
            && stroke is None,
        Command::RoundRect { fill, stroke, .. } => sk == ShapeKind::RoundRect && fill is None
            && stroke is None,
        Command::Polygon { fill, stroke, .. } => sk == ShapeKind::Polygon && fill is None
            && stroke is None,
        Command::Path { fill, stroke, .. } => sk == ShapeKind::Path && fill is None
            && stroke is None,
        _ => false,
    }
}

/// The rule of the single command `cmd` that the error `e` reports broken.
pub open spec fn spec_cmd_violation(cmd: Command, e: ValidationError) -> bool {
    match e {
        ValidationError::ClickableRectNeedsId => cmd matches Command::Rect {
            clickable: true,
            id: None,
            ..
        },
        ValidationError::EmptyId => (cmd matches Command::Rect { id: Some(s), .. }
            && spec_is_blank(s@)),
        ValidationError::RectSize => (cmd matches Command::Rect { w, h, .. } && (w == 0 || h == 0)),
        ValidationError::InvalidColor(f) => spec_color_bad_at(cmd, f),
        ValidationError::MissingField(nf) => spec_num_missing(cmd, nf),
        ValidationError::FieldNotPositive(nf) => spec_num_zero(cmd, nf),
        ValidationError::WidthNotPositive(wf) => spec_width_zero(cmd, wf),
        ValidationError::MissingPoints(k) => (k == PolyKind::Polyline && cmd
            matches Command::Polyline { points: None, .. }) || (k == PolyKind::Polygon && cmd
            matches Command::Polygon { points: None, .. }),
        ValidationError::TooFewPoints(k) => (k == PolyKind::Polyline && (cmd
            matches Command::Polyline { points: Some(pv), .. } && pv@.len() < 2)) || (k
            == PolyKind::Polygon && (cmd matches Command::Polygon { points: Some(pv), .. }
            && pv@.len() < 3)),
        ValidationError::NoFillOrStroke(sk) => spec_no_fs_at(cmd, sk),
        ValidationError::MissingSegments => cmd matches Command::Path { segments: None, .. },
        ValidationError::EmptySegments => (cmd matches Command::Path { segments: Some(sv), .. }
            && sv@.len() == 0),
        ValidationError::SegmentMissingXY => (cmd matches Command::Path {
            segments: Some(sv),
            ..
        } && (exists|j: int|
            0 <= j < sv@.len() && ((#[trigger] sv@[j]).cmd@ == "M"@ || sv@[j].cmd@ == "L"@) && (
            sv@[j].x is None || sv@[j].y is None))),
        ValidationError::BadSegmentCmd => (cmd matches Command::Path { segments: Some(sv), .. } && (
        exists|j: int|
            0 <= j < sv@.len() && (#[trigger] sv@[j]).cmd@ != "M"@ && sv@[j].cmd@ != "L"@
                && sv@[j].cmd@ != "Z"@)),
        ValidationError::NoMoveSegment => (cmd matches Command::Path { segments: Some(sv), .. } && (
        forall|j: int| 0 <= j < sv@.len() ==> (#[trigger] sv@[j]).cmd@ != "M"@)),
        ValidationError::MissingImageSrcType => cmd matches Command::Image {
            src_type: None,
            ..
        },
        ValidationError::BadImageSrcType => (cmd matches Command::Image {
            src_type: Some(st),
            ..
        } && st@ != "path"@ && st@ != "base64"@),
        ValidationError::MissingImageSrc => cmd matches Command::Image { src: None, .. },
        ValidationError::EmptyImageSrc => (cmd matches Command::Image { src: Some(s), .. }
            && spec_is_blank(s@)),
        _ => false,
    }
}

/// The rule that the error `e` reports broken, as a fact about the envelope.
/// `validate_render` only ever returns an error whose rule really is broken.
pub open spec fn spec_violation(env: RenderEnvelope, e: ValidationError) -> bool {
    match e {
        ValidationError::UnsupportedVersion => env.version@ != "AGD/0.2"@,
        ValidationError::UnsupportedType => env.render_type@ != "render"@,
        ValidationError::WindowSize => env.window.width == 0 || env.window.height == 0,
        ValidationError::WindowTitle => spec_is_blank(env.window.title@),
        ValidationError::NoCommands => env.commands@.len() == 0,
        ValidationError::MissingClear => !spec_has_clear(env.commands@),
        ValidationError::DuplicateId => !spec_ids_unique(env.commands@),
        _ => exists|i: int|
            0 <= i < env.commands@.len() && spec_cmd_violation(#[trigger] env.commands@[i], e),
    }
}

/// Every rule an envelope must satisfy before it is safe to rasterize.
pub open spec fn spec_valid_envelope(env: RenderEnvelope) -> bool {
    &&& env.version@ == "AGD/0.2"@
    &&& env.render_type@ == "render"@
    &&& env.window.width > 0 && env.window.height > 0
    &&& !spec_is_blank(env.window.title@)
    &&& env.commands@.len() > 0
    &&& spec_has_clear(env.commands@)
    &&& (forall|i: int| 0 <= i < env.commands@.len() ==> spec_cmd_valid(#[trigger] env.commands@[i]))
    &&& spec_ids_unique(env.commands@)
}

/// The fill color field of shape `sk`.
pub open spec fn spec_fill_field(sk: ShapeKind) -> ColorField {
    match sk {
        ShapeKind::Circle => ColorField::CircleFill,
        ShapeKind::Ellipse => ColorField::EllipseFill,
        ShapeKind::RoundRect => ColorField::RoundRectFill,
        ShapeKind::Polygon => ColorField::PolygonFill,
        ShapeKind::Path => ColorField::PathFill,
    }
}

/// The stroke color field of shape `sk`.
pub open spec fn spec_stroke_field(sk: ShapeKind) -> ColorField {
    match sk {
        ShapeKind::Circle => ColorField::CircleStroke,
        ShapeKind::Ellipse => ColorField::EllipseStroke,
        ShapeKind::RoundRect => ColorField::RoundRectStroke,
        ShapeKind::Polygon => ColorField::PolygonStroke,
        ShapeKind::Path => ColorField::PathStroke,
    }
}

/// The stroke-width field of shape `sk`.
pub open spec fn spec_sw_field(sk: ShapeKind) -> WidthField {
    match sk {
        ShapeKind::Circle => WidthField::CircleStrokeWidth,
        ShapeKind::Ellipse => WidthField::EllipseStrokeWidth,
        ShapeKind::RoundRect => WidthField::RoundRectStrokeWidth,
        ShapeKind::Polygon => WidthField::PolygonStrokeWidth,
        ShapeKind::Path => WidthField::PathStrokeWidth,
    }
}

/// What `validate_fill_stroke` may report, as a fact about its arguments.
pub open spec fn spec_fs_violation(
    fill: Option<String>,
    stroke: Option<String>,
    stroke_width: Option<u32>,
    sk: ShapeKind,
    e: ValidationError,
) -> bool {
    ||| (e == ValidationError::InvalidColor(spec_fill_field(sk)) && spec_bad_color_opt(fill))
    ||| (e == ValidationError::InvalidColor(spec_stroke_field(sk)) && spec_bad_color_opt(stroke))
    ||| (e == ValidationError::WidthNotPositive(spec_sw_field(sk)) && stroke_width == Some(0u32))
    ||| (e == ValidationError::NoFillOrStroke(sk) && fill is None && stroke is None)
}

/// Checks that a color string has the `#RRGGBB` form, naming `field` otherwise.
pub fn validate_color(value: &str, field: ColorField) -> (r: Result<(), ValidationError>)
    ensures
        r is Ok <==> spec_is_hex_color(value@),
        r matches Err(e) ==> e == ValidationError::InvalidColor(field),
{
    if is_hex_color(value) {
        Ok(())
    } else {
        Err(ValidationError::InvalidColor(field))
    }
}

/// Requires a coordinate field to be present.
pub fn require_i32(value: &Option<i32>, field: NumField) -> (r: Result<i32, ValidationError>)
    ensures
        r is Ok <==> value is Some,
        r matches Ok(v) ==> *value == Some(v),
        r matches Err(e) ==> e == ValidationError::MissingField(field),
{
    match value {
        Some(v) => Ok(*v),
        None => Err(ValidationError::MissingField(field)),
    }
}

/// Requires a size field to be present and strictly positive.
pub fn require_u32(value: &Option<u32>, field: NumField) -> (r: Result<u32, ValidationError>)
    ensures
        r is Ok <==> (match *value {
            Some(v) => v > 0,
            None => false,
        }),
        r matches Ok(v) ==> *value == Some(v) && v > 0,
        r matches Err(e) ==> (e == ValidationError::MissingField(field) && value is None) || (e
            == ValidationError::FieldNotPositive(field) && *value == Some(0u32)),
{
    match value {
        Some(v) => {
            if *v == 0 {
                Err(ValidationError::FieldNotPositive(field))
            } else {
                Ok(*v)
            }
        },
        None => Err(ValidationError::MissingField(field)),
    }
}

/// Checks the fill/stroke/width triple of a shape that must name at least one
/// of fill or stroke.
pub fn validate_fill_stroke(
    fill: &Option<String>,
    stroke: &Option<String>,
    stroke_width: &Option<u32>,
    sk: ShapeKind,
) -> (r: Result<(), ValidationError>)
    ensures
        r is Ok <==> (spec_color_opt_ok(*fill) && spec_color_opt_ok(*stroke) && spec_width_opt_ok(
            *stroke_width,
        ) && (fill is Some || stroke is Some)),
        r matches Err(e) ==> spec_fs_violation(*fill, *stroke, *stroke_width, sk, e),
{
    let fill_field = match sk {
        ShapeKind::Circle => ColorField::CircleFill,
        ShapeKind::Ellipse => ColorField::EllipseFill,
        ShapeKind::RoundRect => ColorField::RoundRectFill,
        ShapeKind::Polygon => ColorField::PolygonFill,
        ShapeKind::Path => ColorField::PathFill,
    };
    let stroke_field = match sk {
        ShapeKind::Circle => ColorField::CircleStroke,
        ShapeKind::Ellipse => ColorField::EllipseStroke,
        ShapeKind::RoundRect => ColorField::RoundRectStroke,
        ShapeKind::Polygon => ColorField::PolygonStroke,
        ShapeKind::Path => ColorField::PathStroke,
    };
    if let Some(f) = fill {
        match validate_color(f.as_str(), fill_field) {
            Ok(_) => {},
            Err(e) => {
                return Err(e);
            },
        }
    }
    if let Some(s) = stroke {
        match validate_color(s.as_str(), stroke_field) {
            Ok(_) => {},
            Err(e) => {
                return Err(e);
            },
        }
    }
    if let Some(w) = stroke_width {
        if *w == 0 {
            let wf = match sk {
                ShapeKind::Circle => WidthField::CircleStrokeWidth,
                ShapeKind::Ellipse => WidthField::EllipseStrokeWidth,
                ShapeKind::RoundRect => WidthField::RoundRectStrokeWidth,
                ShapeKind::Polygon => WidthField::PolygonStrokeWidth,
                ShapeKind::Path => WidthField::PathStrokeWidth,
            };
            return Err(ValidationError::WidthNotPositive(wf));
        }
    }
    if fill.is_none() && stroke.is_none() {
        return Err(ValidationError::NoFillOrStroke(sk));
    }
    Ok(())
}

/// Requires a vertex list to be present with at least `min_len` points.
pub fn validate_points(points: &Option<Vec<Point>>, kind: PolyKind, min_len: usize) -> (r: Result<
    (),
    ValidationError,
>)
    ensures
        r is Ok <==> (match *points {
            Some(pv) => pv@.len() >= min_len,
            None => false,
        }),
        r matches Err(e) ==> (e == ValidationError::MissingPoints(kind) && points is None) || (e
            == ValidationError::TooFewPoints(kind) && (match *points {
            Some(pv) => pv@.len() < min_len,
            None => false,
        })),
{
    match points {
        Some(pv) => {
            if pv.len() < min_len {
                Err(ValidationError::TooFewPoints(kind))
            } else {
                Ok(())
            }
        },
        None => Err(ValidationError::MissingPoints(kind)),
    }
}

/// Requires a present, non-empty, well-formed segment list holding a move.
#[verifier::loop_isolation(false)]
pub fn validate_segments(segments: &Option<Vec<PathSegment>>) -> (r: Result<(), ValidationError>)
    ensures
        r is Ok <==> spec_segments_ok(*segments),
        r matches Err(e) ==> (match *segments {
            None => e == ValidationError::MissingSegments,
            Some(sv) => {
                ||| (e == ValidationError::EmptySegments && sv@.len() == 0)
                ||| (e == ValidationError::SegmentMissingXY && (exists|j: int|
                    0 <= j < sv@.len() && ((#[trigger] sv@[j]).cmd@ == "M"@ || sv@[j].cmd@ == "L"@)
                        && (sv@[j].x is None || sv@[j].y is None)))
                ||| (e == ValidationError::BadSegmentCmd && (exists|j: int|
                    0 <= j < sv@.len() && (#[trigger] sv@[j]).cmd@ != "M"@ && sv@[j].cmd@ != "L"@
                        && sv@[j].cmd@ != "Z"@))
                ||| (e == ValidationError::NoMoveSegment && (forall|j: int|
                    0 <= j < sv@.len() ==> (#[trigger] sv@[j]).cmd@ != "M"@))
            },
        }),
{
    let sv = match segments {
        Some(sv) => sv,
        None => {
            return Err(ValidationError::MissingSegments);
        },
    };
    if sv.len() == 0 {
        return Err(ValidationError::EmptySegments);
    }
    let mut has_move = false;
    let ghost svs = sv@;
    let mut j: usize = 0;
    while j < sv.len()
        invariant
            0 <= j <= svs.len(),
            svs == sv@,
            forall|k: int| 0 <= k < j ==> spec_segment_ok(#[trigger] svs[k]),
            has_move <==> (exists|k: int| 0 <= k < j && (#[trigger] svs[k]).cmd@ == "M"@),
        decreases svs.len() - j,
    {
        let seg = &sv[j];
        let is_m = str_eq(seg.cmd.as_str(), "M");
        let is_l = str_eq(seg.cmd.as_str(), "L");
        if is_m || is_l {
            if seg.x.is_none() || seg.y.is_none() {
                assert(!spec_segment_ok(svs[j as int]));
                return Err(ValidationError::SegmentMissingXY);
            }
            if is_m {
                has_move = true;
            }
        } else if !str_eq(seg.cmd.as_str(), "Z") {
            assert(!spec_segment_ok(svs[j as int]));
            return Err(ValidationError::BadSegmentCmd);
        }
        j = j + 1;
    }
    if !has_move {
        return Err(ValidationError::NoMoveSegment);
    }
    Ok(())
}

/// Checks the size, colors and stroke width of a rect command; any other
/// command passes unchanged.
pub fn validate_rect(command: &Command) -> (r: Result<(), ValidationError>)
    ensures
        (match *command {
            Command::Rect { w, h, fill, stroke, stroke_width, .. } => {
                &&& (r is Ok <==> (w > 0 && h > 0 && spec_color_opt_ok(fill) && spec_color_opt_ok(
                    stroke,
                ) && spec_width_opt_ok(stroke_width)))
                &&& (r matches Err(e) ==> {
                    ||| (e == ValidationError::RectSize && (w == 0 || h == 0))
                    ||| (e == ValidationError::InvalidColor(ColorField::RectFill)
                        && spec_bad_color_opt(fill))
                    ||| (e == ValidationError::InvalidColor(ColorField::RectStroke)
                        && spec_bad_color_opt(stroke))
                    ||| (e == ValidationError::WidthNotPositive(WidthField::RectStrokeWidth)
                        && stroke_width == Some(0u32))
                })
            },
            _ => r is Ok,
        }),
{
    if let Command::Rect { w, h, fill, stroke, stroke_width, .. } = command {
        if *w == 0 || *h == 0 {
            return Err(ValidationError::RectSize);
        }
        if let Some(f) = fill {
            match validate_color(f.as_str(), ColorField::RectFill) {
                Ok(_) => {},
                Err(e) => {
                    return Err(e);
                },
            }
        }
        if let Some(s) = stroke {
            match validate_color(s.as_str(), ColorField::RectStroke) {
                Ok(_) => {},
                Err(e) => {
                    return Err(e);
                },
            }
        }
        if let Some(sw) = stroke_width {
            if *sw == 0 {
                return Err(ValidationError::WidthNotPositive(WidthField::RectStrokeWidth));
            }
        }
    }
    Ok(())
}

/// Checks one command against every rule that concerns it alone (id
/// uniqueness across commands is the caller's job).
#[verifier::loop_isolation(false)]
#[verifier::rlimit(60)]
pub fn validate_command(command: &Command) -> (r: Result<(), ValidationError>)
    ensures
        r is Ok <==> spec_cmd_valid(*command),
        r matches Err(e) ==> spec_cmd_violation(*command, e) && !spec_cmd_valid(*command),
{
    let ghost ci = *command;
    match command {
        Command::Clear { color } => {
            match validate_color(color.as_str(), ColorField::ClearColor) {
                Ok(_) => {},
                Err(e) => {
                    assert(spec_color_bad_at(ci, ColorField::ClearColor));
                    return Err(e);
                },
            }
        },
        Command::Rect { id, clickable, .. } => {
            if *clickable && id.is_none() {
                return Err(ValidationError::ClickableRectNeedsId);
            }
            if let Some(idv) = id {
                if is_blank(idv.as_str()) {
                    return Err(ValidationError::EmptyId);
                }
            }
            match validate_rect(command) {
                Ok(_) => {},
                Err(e) => {
                    proof {
                        match e {
                            ValidationError::InvalidColor(f) => {
                                assert(spec_color_bad_at(ci, f));
                            },
                            ValidationError::WidthNotPositive(wf) => {
                                assert(spec_width_zero(ci, wf));
                            },
                            _ => {},
                        }
                    }
                    return Err(e);
                },
            }
        },
        Command::Text { color, bg, .. } => {
            if let Some(c) = color {
                match validate_color(c.as_str(), ColorField::TextColor) {
                    Ok(_) => {},
                    Err(e) => {
                        assert(spec_color_bad_at(ci, ColorField::TextColor));
                        return Err(e);
                    },
                }
            }
            if let Some(b) = bg {
                match validate_color(b.as_str(), ColorField::TextBg) {
                    Ok(_) => {},
                    Err(e) => {
                        assert(spec_color_bad_at(ci, ColorField::TextBg));
                        return Err(e);
                    },
                }
            }
        },
        Command::Line { color, width, .. } => {
            if let Some(c) = color {
                match validate_color(c.as_str(), ColorField::LineColor) {
                    Ok(_) => {},
                    Err(e) => {
                        assert(spec_color_bad_at(ci, ColorField::LineColor));
                        return Err(e);
                    },
                }
            }
            if let Some(wd) = width {
                if *wd == 0 {
                    return Err(ValidationError::WidthNotPositive(WidthField::LineWidth));
                }
            }
        },
        Command::Circle { cx, cy, r, fill, stroke, stroke_width } => {
            match require_i32(cx, NumField::CircleCx) {
                Ok(_) => {},
                Err(e) => {
                    return Err(e);
                },
            }
            match require_i32(cy, NumField::CircleCy) {
                Ok(_) => {},
                Err(e) => {
                    return Err(e);
                },
            }
            match require_u32(r, NumField::CircleR) {
                Ok(_) => {},
                Err(e) => {
                    return Err(e);
                },
            }
            match validate_fill_stroke(fill, stroke, stroke_width, ShapeKind::Circle) {
                Ok(_) => {},
                Err(e) => {
                    proof {
                        match e {
                            ValidationError::InvalidColor(f) => {
                                assert(spec_color_bad_at(ci, f));
                            },
                            ValidationError::WidthNotPositive(wf) => {
                                assert(spec_width_zero(ci, wf));
                            },
                            ValidationError::NoFillOrStroke(sk) => {
                                assert(spec_no_fs_at(ci, sk));
                            },
                            _ => {},
                        }
                    }
                    return Err(e);
                },
            }
        },
        Command::Ellipse { cx, cy, rx, ry, fill, stroke, stroke_width } => {
            match require_i32(cx, NumField::EllipseCx) {
                Ok(_) => {},
                Err(e) => {
                    return Err(e);
                },
            }
            match require_i32(cy, NumField::EllipseCy) {
                Ok(_) => {},
                Err(e) => {
                    return Err(e);
                },
            }
            match require_u32(rx, NumField::EllipseRx) {
                Ok(_) => {},
                Err(e) => {
                    return Err(e);
                },
            }
            match require_u32(ry, NumField::EllipseRy) {
                Ok(_) => {},
                Err(e) => {
                    return Err(e);
                },
            }
            match validate_fill_stroke(fill, stroke, stroke_width, ShapeKind::Ellipse) {
                Ok(_) => {},
                Err(e) => {
                    proof {
                        match e {
                            ValidationError::InvalidColor(f) => {
                                assert(spec_color_bad_at(ci, f));
                            },
                            ValidationError::WidthNotPositive(wf) => {
                                assert(spec_width_zero(ci, wf));
                            },
                            ValidationError::NoFillOrStroke(sk) => {
                                assert(spec_no_fs_at(ci, sk));
                            },
                            _ => {},
                        }
                    }
                    return Err(e);
                },
            }
        },
        Command::RoundRect { x, y, w, h, r, fill, stroke, stroke_width } => {
            match require_i32(x, NumField::RoundRectX) {
                Ok(_) => {},
                Err(e) => {
                    return Err(e);
                },
            }
            match require_i32(y, NumField::RoundRectY) {
                Ok(_) => {},
                Err(e) => {
                    return Err(e);
                },
            }
            match require_u32(w, NumField::RoundRectW) {
                Ok(_) => {},
                Err(e) => {
                    return Err(e);
                },
            }
            match require_u32(h, NumField::RoundRectH) {
                Ok(_) => {},
                Err(e) => {
                    return Err(e);
                },
            }
            match require_u32(r, NumField::RoundRectR) {
                Ok(_) => {},
                Err(e) => {
                    return Err(e);
                },
            }
            match validate_fill_stroke(fill, stroke, stroke_width, ShapeKind::RoundRect) {
                Ok(_) => {},
                Err(e) => {
                    proof {
                        match e {
                            ValidationError::InvalidColor(f) => {
                                assert(spec_color_bad_at(ci, f));
                            },
                            ValidationError::WidthNotPositive(wf) => {
                                assert(spec_width_zero(ci, wf));
                            },
                            ValidationError::NoFillOrStroke(sk) => {
                                assert(spec_no_fs_at(ci, sk));
                            },
                            _ => {},
                        }
                    }
                    return Err(e);
                },
            }
        },
        Command::Arc { cx, cy, r, start_angle, end_angle, color, width } => {
            match require_i32(cx, NumField::ArcCx) {
                Ok(_) => {},
                Err(e) => {
                    return Err(e);
                },
            }
            match require_i32(cy, NumField::ArcCy) {
                Ok(_) => {},
                Err(e) => {
                    return Err(e);
                },
            }
            match require_u32(r, NumField::ArcR) {
                Ok(_) => {},
                Err(e) => {
                    return Err(e);
                },
            }
            match require_i32(start_angle, NumField::ArcStartAngle) {
                Ok(_) => {},
                Err(e) => {
                    return Err(e);
                },
            }
            match require_i32(end_angle, NumField::ArcEndAngle) {
                Ok(_) => {},
                Err(e) => {
                    return Err(e);
                },
            }
            if let Some(c) = color {
                match validate_color(c.as_str(), ColorField::ArcColor) {
                    Ok(_) => {},
                    Err(e) => {
                        assert(spec_color_bad_at(ci, ColorField::ArcColor));
                        return Err(e);
                    },
                }
            }
            if let Some(wd) = width {
                if *wd == 0 {
                    return Err(ValidationError::WidthNotPositive(WidthField::ArcWidth));
                }
            }
        },
        Command::Polyline { points, color, width } => {
            match validate_points(points, PolyKind::Polyline, 2) {
                Ok(_) => {},
                Err(e) => {
                    return Err(e);
                },
            }
            if let Some(c) = color {
                match validate_color(c.as_str(), ColorField::PolylineColor) {
                    Ok(_) => {},
                    Err(e) => {
                        assert(spec_color_bad_at(ci, ColorField::PolylineColor));
                        return Err(e);
                    },
                }
            }
            if let Some(wd) = width {
                if *wd == 0 {
                    return Err(ValidationError::WidthNotPositive(WidthField::PolylineWidth));
                }
            }
        },
        Command::Polygon { points, fill, stroke, stroke_width } => {
            match validate_points(points, PolyKind::Polygon, 3) {
                Ok(_) => {},
                Err(e) => {
                    return Err(e);
                },
            }
            match validate_fill_stroke(fill, stroke, stroke_width, ShapeKind::Polygon) {
                Ok(_) => {},
                Err(e) => {
                    proof {
                        match e {
                            ValidationError::InvalidColor(f) => {
                                assert(spec_color_bad_at(ci, f));
                            },
                            ValidationError::WidthNotPositive(wf) => {
                                assert(spec_width_zero(ci, wf));
                            },
                            ValidationError::NoFillOrStroke(sk) => {
                                assert(spec_no_fs_at(ci, sk));
                            },
                            _ => {},
                        }
                    }
                    return Err(e);
                },
            }
        },
        Command::Image { x, y, w, h, src_type, src } => {
            match require_i32(x, NumField::ImageX) {
                Ok(_) => {},
                Err(e) => {
                    return Err(e);
                },
            }
            match require_i32(y, NumField::ImageY) {
                Ok(_) => {},
                Err(e) => {
                    return Err(e);
                },
            }
            match require_u32(w, NumField::ImageW) {
                Ok(_) => {},
                Err(e) => {
                    return Err(e);
                },
            }
            match require_u32(h, NumField::ImageH) {
                Ok(_) => {},
                Err(e) => {
                    return Err(e);
                },
            }
            match src_type {
                None => {
                    return Err(ValidationError::MissingImageSrcType);
                },
                Some(st) => {
                    if !(str_eq(st.as_str(), "path") || str_eq(st.as_str(), "base64")) {
                        return Err(ValidationError::BadImageSrcType);
                    }
                },
            }
            match src {
                None => {
                    return Err(ValidationError::MissingImageSrc);
                },
                Some(s) => {
                    if is_blank(s.as_str()) {
                        return Err(ValidationError::EmptyImageSrc);
                    }
                },
            }
        },
        Command::Path { segments, fill, stroke, stroke_width } => {
            match validate_segments(segments) {
                Ok(_) => {},
                Err(e) => {
                    return Err(e);
                },
            }
            match validate_fill_stroke(fill, stroke, stroke_width, ShapeKind::Path) {
                Ok(_) => {},
                Err(e) => {
                    proof {
                        match e {
                            ValidationError::InvalidColor(f) => {
                                assert(spec_color_bad_at(ci, f));
                            },
                            ValidationError::WidthNotPositive(wf) => {
                                assert(spec_width_zero(ci, wf));
                            },
                            ValidationError::NoFillOrStroke(sk) => {
                                assert(spec_no_fs_at(ci, sk));
                            },
                            _ => {},
                        }
                    }
                    return Err(e);
                },
            }
        },
    }
    Ok(())
}

/// Checks an envelope against every rule of the protocol.
///
/// Returns `Ok` exactly when the envelope is valid.  Any error returned names
/// a rule that the envelope really breaks; when several rules are broken at
/// once, which one is reported depends only on the scan order.
#[verifier::loop_isolation(false)]
#[verifier::rlimit(60)]
pub fn validate_render(render: &RenderEnvelope) -> (r: Result<(), ValidationError>)
    ensures
        r is Ok <==> spec_valid_envelope(*render),
        r matches Err(e) ==> spec_violation(*render, e),
{
    if !str_eq(render.version.as_str(), "AGD/0.2") {
        return Err(ValidationError::UnsupportedVersion);
    }
    if !str_eq(render.render_type.as_str(), "render") {
        return Err(ValidationError::UnsupportedType);
    }
    if render.window.width == 0 || render.window.height == 0 {
        return Err(ValidationError::WindowSize);
    }
    if is_blank(render.window.title.as_str()) {
        return Err(ValidationError::WindowTitle);
    }
    if render.commands.len() == 0 {
        return Err(ValidationError::NoCommands);
    }
    let cmds = &render.commands;
    let ghost cs = cmds@;
    let mut has_clear = false;
    let mut ids: Vec<String> = Vec::new();
    let mut i: usize = 0;
    while i < cmds.len()
        invariant
            0 <= i <= cs.len(),
            forall|j: int| 0 <= j < i ==> spec_cmd_valid(#[trigger] cs[j]),
            has_clear <==> (exists|j: int| 0 <= j < i && (#[trigger] cs[j]) is Clear),
            spec_ids_unique_upto(cs, i as int),
            forall|j: int|
                0 <= j < i && (#[trigger] spec_cmd_id(cs[j])) is Some ==> (exists|k: int|
                    0 <= k < ids@.len() && (#[trigger] ids@[k])@ == spec_cmd_id(cs[j])->0),
            forall|k: int|
                0 <= k < ids@.len() ==> (exists|j: int|
                    0 <= j < i && spec_cmd_id(#[trigger] cs[j]) == Some((#[trigger] ids@[k])@)),
        decreases cs.len() - i,
    {
        let ghost ci = cs[i as int];
        match validate_command(&cmds[i]) {
            Ok(_) => {},
            Err(e) => {
                assert(spec_violation(*render, e));
                return Err(e);
            },
        }
        if let Command::Clear { .. } = &cmds[i] {
            has_clear = true;
        }
        if let Command::Rect { id: Some(idv), .. } = &cmds[i] {
            if contains_str(&ids, idv.as_str()) {
                proof {
                    let k = choose|k: int| 0 <= k < ids@.len() && (#[trigger] ids@[k])@ == idv@;
                    let j = choose|j: int|
                        0 <= j < i && spec_cmd_id(#[trigger] cs[j]) == Some(ids@[k]@);
                    assert(spec_cmd_id(cs[j]) is Some);
                    assert(spec_cmd_id(ci) == Some(idv@));
                    assert(!spec_ids_unique(cs));
                }
                return Err(ValidationError::DuplicateId);
            }
            proof {
                assert forall|j: int|
                    0 <= j < i && (#[trigger] spec_cmd_id(cs[j])) is Some implies spec_cmd_id(
                    cs[j],
                ) != Some(idv@) by {
                    let k = choose|k: int|
                        0 <= k < ids@.len() && (#[trigger] ids@[k])@ == spec_cmd_id(cs[j])->0;
                    if spec_cmd_id(cs[j]) == Some(idv@) {
                        assert(ids@[k]@ == idv@);
                    }
                }
            }
            let ghost ids0 = ids@;
            ids.push(idv.clone());
            proof {
                assert(ids@[ids@.len() - 1]@ == idv@);
                assert(spec_cmd_id(ci) == Some(idv@));
                assert forall|j: int|
                    0 <= j <= i && (#[trigger] spec_cmd_id(cs[j])) is Some implies (exists|k: int|
                    0 <= k < ids@.len() && (#[trigger] ids@[k])@ == spec_cmd_id(cs[j])->0) by {
                    if j < i {
                        let k0 = choose|k: int|
                            0 <= k < ids0.len() && (#[trigger] ids0[k])@ == spec_cmd_id(cs[j])->0;
                        assert(ids@[k0]@ == spec_cmd_id(cs[j])->0);
                    } else {
                        assert(ids@[ids@.len() - 1]@ == spec_cmd_id(cs[j])->0);
                    }
                }
            }
        }
        i = i + 1;
    }
    if !has_clear {
        assert(!spec_has_clear(cs));
        return Err(ValidationError::MissingClear);
    }
    Ok(())
}

/// A command-level violation always breaks that command's validity.
proof fn lemma_cmd_violation_breaks_validity(cmd: Command, e: ValidationError)
    requires
        spec_cmd_violation(cmd, e),
    ensures
        !spec_cmd_valid(cmd),
{
}

/// Removing the only clear from an otherwise-valid envelope leaves exactly
/// one broken rule, so by the contract of `validate_render` the error it
/// reports must be the missing-clear one.
pub proof fn lemma_missing_clear_pins_the_error(env: RenderEnvelope, e: ValidationError)
    requires
        env.version@ == "AGD/0.2"@,
        env.render_type@ == "render"@,
        env.window.width > 0,
        env.window.height > 0,
        !spec_is_blank(env.window.title@),
        env.commands@.len() > 0,
        forall|i: int| 0 <= i < env.commands@.len() ==> spec_cmd_valid(#[trigger] env.commands@[i]),
        spec_ids_unique(env.commands@),
        spec_violation(env, e),
    ensures
        e == ValidationError::MissingClear,
{
    match e {
        ValidationError::MissingClear => {},
        ValidationError::UnsupportedVersion => {
            assert(false);
        },
        ValidationError::UnsupportedType => {
            assert(false);
        },
        ValidationError::WindowSize => {
            assert(false);
        },
        ValidationError::WindowTitle => {
            assert(false);
        },
        ValidationError::NoCommands => {
            assert(false);
        },
        ValidationError::DuplicateId => {
            assert(false);
        },
        _ => {
            let i = choose|i: int|
                0 <= i < env.commands@.len() && spec_cmd_violation(#[trigger] env.commands@[i], e);
            lemma_cmd_violation_breaks_validity(env.commands@[i], e);
            assert(false);
        },
    }
}

/// Two commands declaring the same id — in particular two clickable rects
/// sharing one id — make the whole envelope invalid, whatever the rest of it
/// holds; by the contract of `validate_render`, validation then fails.
pub proof fn lemma_duplicate_ids_invalid(env: RenderEnvelope, i: int, j: int)
    requires
        0 <= i < j < env.commands@.len(),
        spec_cmd_id(env.commands@[i]) is Some,
        spec_cmd_id(env.commands@[i]) == spec_cmd_id(env.commands@[j]),
    ensures
        !spec_valid_envelope(env),
{
    assert(!spec_ids_unique(env.commands@));
}

} // verus!
