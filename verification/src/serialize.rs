//! JSON serialization of the protocol's envelopes.
//!
//! The crate frames its own wire bytes: decimal number printing, JSON string
//! escaping and the envelope layouts are all specified character by
//! character, and each builder is proved to emit exactly its specification.
//! Optional fields serialize as `null`, so a serialized envelope re-parses
//! into the same structure.

use vstd::prelude::*;
use vstd::string::StrSliceExecFns;
use vstd::string::StringExecFns;

use crate::model::{ClickEvent, Command, EventEnvelope, PathSegment, Point, RenderEnvelope};

verus! {

/// The decimal digit character for `d`.
pub open spec fn spec_digit(d: int) -> char {
    if d == 0 {
        '0'
    } else if d == 1 {
        '1'
    } else if d == 2 {
        '2'
    } else if d == 3 {
        '3'
    } else if d == 4 {
        '4'
    } else if d == 5 {
        '5'
    } else if d == 6 {
        '6'
    } else if d == 7 {
        '7'
    } else if d == 8 {
        '8'
    } else {
        '9'
    }
}

/// The decimal expansion of a non-negative number.
pub open spec fn spec_dec(v: int) -> Seq<char>
    decreases v,
{
    if v < 10 {
        seq![spec_digit(v)]
    } else {
        spec_dec(v / 10).push(spec_digit(v % 10))
    }
}

/// The decimal expansion of a signed number.
pub open spec fn spec_dec_signed(v: int) -> Seq<char> {
    if v < 0 {
        seq!['-'] + spec_dec(-v)
    } else {
        spec_dec(v)
    }
}

/// The hexadecimal digit character for `d`.
pub open spec fn spec_hexdig(d: int) -> char {
    if d < 10 {
        spec_digit(d)
    } else if d == 10 {
        'a'
    } else if d == 11 {
        'b'
    } else if d == 12 {
        'c'
    } else if d == 13 {
        'd'
    } else if d == 14 {
        'e'
    } else {
        'f'
    }
}

/// How one character appears inside a JSON string literal: quotes and
/// backslashes escaped, control characters as `\u00XX`.
pub open spec fn spec_escape_char(c: char) -> Seq<char> {
    if c == '"' {
        seq!['\\', '"']
    } else if c == '\\' {
        seq!['\\', '\\']
    } else if (c as int) < 0x20 {
        seq!['\\', 'u', '0', '0', spec_hexdig(c as int / 16), spec_hexdig(c as int % 16)]
    } else {
        seq![c]
    }
}

/// A string's characters escaped for a JSON string literal.
pub open spec fn spec_escape(s: Seq<char>) -> Seq<char>
    decreases s.len(),
{
    if s.len() == 0 {
        Seq::empty()
    } else {
        spec_escape(s.drop_last()) + spec_escape_char(s.last())
    }
}

/// A JSON string literal: quoted, escaped.
pub open spec fn spec_json_string(s: Seq<char>) -> Seq<char> {
    seq!['"'] + spec_escape(s) + seq!['"']
}

/// An optional string as JSON: a string literal or `null`.
pub open spec fn spec_json_opt_string(o: Option<String>) -> Seq<char> {
    match o {
        Some(s) => spec_json_string(s@),
        None => "null"@,
    }
}

/// An optional number as JSON: its decimal expansion or `null`.
pub open spec fn spec_json_opt_num(o: Option<int>) -> Seq<char> {
    match o {
        Some(v) => spec_dec_signed(v),
        None => "null"@,
    }
}

/// Relies on String::push: appends exactly one character.
#[verifier::external_body]
fn push_char(out: &mut String, c: char)
    ensures
        final(out)@ == old(out)@.push(c),
{
    out.push(c);
}

fn digit_char(d: u64) -> (r: char)
    requires
        d < 10,
    ensures
        r == spec_digit(d as int),
{
    match d {
        0 => '0',
        1 => '1',
        2 => '2',
        3 => '3',
        4 => '4',
        5 => '5',
        6 => '6',
        7 => '7',
        8 => '8',
        _ => '9',
    }
}

fn hexdig_char(d: u32) -> (r: char)
    requires
        d < 16,
    ensures
        r == spec_hexdig(d as int),
{
    match d {
        0 => '0',
        1 => '1',
        2 => '2',
        3 => '3',
        4 => '4',
        5 => '5',
        6 => '6',
        7 => '7',
        8 => '8',
        9 => '9',
        10 => 'a',
        11 => 'b',
        12 => 'c',
        13 => 'd',
        14 => 'e',
        _ => 'f',
    }
}

/// Appends the decimal expansion of `v`.
pub fn append_u64(out: &mut String, v: u64)
    ensures
        final(out)@ == old(out)@ + spec_dec(v as int),
    decreases v,
{
    if v >= 10 {
        append_u64(out, v / 10);
        push_char(out, digit_char(v % 10));
    } else {
        push_char(out, digit_char(v));
        proof {
            assert(final(out)@ =~= old(out)@ + spec_dec(v as int));
        }
    }
    proof {
        assert(final(out)@ =~= old(out)@ + spec_dec(v as int));
    }
}

/// Appends the decimal expansion of a signed value.
pub fn append_i64(out: &mut String, v: i64)
    ensures
        final(out)@ == old(out)@ + spec_dec_signed(v as int),
{
    if v < 0 {
        push_char(out, '-');
        let mag: u64 = if v == i64::MIN {
            0x8000_0000_0000_0000
        } else {
            (-v) as u64
        };
        append_u64(out, mag);
        proof {
            assert(final(out)@ =~= old(out)@ + spec_dec_signed(v as int));
        }
    } else {
        append_u64(out, v as u64);
    }
}

/// Appends a JSON string literal holding `s`, escaped.
#[verifier::loop_isolation(false)]
pub fn append_json_string(out: &mut String, s: &str)
    ensures
        final(out)@ == old(out)@ + spec_json_string(s@),
{
    push_char(out, '"');
    let n = s.unicode_len();
    let mut i: usize = 0;
    while i < n
        invariant
            0 <= i <= n,
            n == s@.len(),
            out@ == old(out)@ + seq!['"'] + spec_escape(s@.take(i as int)),
        decreases n - i,
    {
        proof {
            assert(s@.take(i as int + 1).drop_last() =~= s@.take(i as int));
            assert(s@.take(i as int + 1).last() == s@[i as int]);
        }
        let c = s.get_char(i);
        if c == '"' {
            push_char(out, '\\');
            push_char(out, '"');
        } else if c == '\\' {
            push_char(out, '\\');
            push_char(out, '\\');
        } else if (c as u32) < 0x20 {
            push_char(out, '\\');
            push_char(out, 'u');
            push_char(out, '0');
            push_char(out, '0');
            push_char(out, hexdig_char((c as u32) / 16));
            push_char(out, hexdig_char((c as u32) % 16));
        } else {
            push_char(out, c);
        }
        proof {
            assert(out@ =~= old(out)@ + seq!['"'] + spec_escape(s@.take(i as int + 1)));
        }
        i = i + 1;
    }
    push_char(out, '"');
    proof {
        assert(s@.take(n as int) =~= s@);
        assert(final(out)@ =~= old(out)@ + spec_json_string(s@));
    }
}

/// Appends an optional string as JSON.
pub fn append_opt_string(out: &mut String, o: &Option<String>)
    ensures
        final(out)@ == old(out)@ + spec_json_opt_string(*o),
{
    match o {
        Some(s) => append_json_string(out, s.as_str()),
        None => out.append("null"),
    }
}

/// Appends an optional 32-bit coordinate as JSON.
pub fn append_opt_i32(out: &mut String, o: &Option<i32>)
    ensures
        final(out)@ == old(out)@ + spec_json_opt_num(match *o {
            Some(v) => Some(v as int),
            None => None,
        }),
{
    match o {
        Some(v) => append_i64(out, *v as i64),
        None => out.append("null"),
    }
}

/// Appends an optional 32-bit size as JSON.
pub fn append_opt_u32(out: &mut String, o: &Option<u32>)
    ensures
        final(out)@ == old(out)@ + spec_json_opt_num(match *o {
            Some(v) => Some(v as int),
            None => None,
        }),
{
    match o {
        Some(v) => append_u64(out, *v as u64),
        None => out.append("null"),
    }
}

/// The click event envelope as JSON, exactly as the protocol frames it.
pub open spec fn spec_event_json(e: EventEnvelope) -> Seq<char> {
    "{\"version\":"@ + spec_json_string(e.version@) + ",\"type\":"@ + spec_json_string(
        e.event_type@,
    ) + ",\"seq\":"@ + spec_dec(e.seq as int) + ",\"event\":{\"kind\":"@ + spec_json_string(
        e.event.kind@,
    ) + ",\"target_id\":"@ + spec_json_string(e.event.target_id@) + ",\"x\":"@ + spec_dec_signed(
        e.event.x as int,
    ) + ",\"y\":"@ + spec_dec_signed(e.event.y as int) + "}}"@
}

/// Serializes a click event envelope.
pub fn event_to_json(e: &EventEnvelope) -> (r: String)
    ensures
        r@ == spec_event_json(*e),
{
    let mut out = String::new();
    out.append("{\"version\":");
    append_json_string(&mut out, e.version.as_str());
    out.append(",\"type\":");
    append_json_string(&mut out, e.event_type.as_str());
    out.append(",\"seq\":");
    append_u64(&mut out, e.seq);
    out.append(",\"event\":{\"kind\":");
    append_json_string(&mut out, e.event.kind.as_str());
    out.append(",\"target_id\":");
    append_json_string(&mut out, e.event.target_id.as_str());
    out.append(",\"x\":");
    append_i64(&mut out, e.event.x as i64);
    out.append(",\"y\":");
    append_i64(&mut out, e.event.y as i64);
    out.append("}}");
    proof {
        assert(out@ =~= spec_event_json(*e));
    }
    out
}

/// The outbound JSON for one accepted click, with the protocol's fixed
/// version and kind tags.
pub open spec fn spec_click_event_json(target_id: Seq<char>, x: int, y: int, seq: int) -> Seq<
    char,
> {
    "{\"version\":"@ + spec_json_string("AGD/0.2"@) + ",\"type\":"@ + spec_json_string("event"@)
        + ",\"seq\":"@ + spec_dec(seq) + ",\"event\":{\"kind\":"@ + spec_json_string("click"@)
        + ",\"target_id\":"@ + spec_json_string(target_id) + ",\"x\":"@ + spec_dec_signed(x)
        + ",\"y\":"@ + spec_dec_signed(y) + "}}"@
}

/// Builds the outbound JSON for one accepted click.
pub fn build_click_event_json(target_id: &str, x: i32, y: i32, seq: u64) -> (r: String)
    ensures
        r@ == spec_click_event_json(target_id@, x as int, y as int, seq as int),
{
    let mut out = String::new();
    out.append("{\"version\":");
    append_json_string(&mut out, "AGD/0.2");
    out.append(",\"type\":");
    append_json_string(&mut out, "event");
    out.append(",\"seq\":");
    append_u64(&mut out, seq);
    out.append(",\"event\":{\"kind\":");
    append_json_string(&mut out, "click");
    out.append(",\"target_id\":");
    append_json_string(&mut out, target_id);
    out.append(",\"x\":");
    append_i64(&mut out, x as i64);
    out.append(",\"y\":");
    append_i64(&mut out, y as i64);
    out.append("}}");
    proof {
        assert(out@ =~= spec_click_event_json(target_id@, x as int, y as int, seq as int));
    }
    out
}

/// A vertex as JSON.
pub open spec fn spec_point_json(p: Point) -> Seq<char> {
    "{\"x\":"@ + spec_dec_signed(p.x as int) + ",\"y\":"@ + spec_dec_signed(p.y as int) + "}"@
}

/// A vertex list as comma-joined JSON objects.
pub open spec fn spec_points_json(pts: Seq<Point>) -> Seq<char>
    decreases pts.len(),
{
    if pts.len() == 0 {
        Seq::empty()
    } else if pts.len() == 1 {
        spec_point_json(pts[0])
    } else {
        spec_points_json(pts.drop_last()) + ","@ + spec_point_json(pts.last())
    }
}

/// An optional vertex list as a JSON array or `null`.
pub open spec fn spec_opt_points_json(o: Option<Vec<Point>>) -> Seq<char> {
    match o {
        Some(v) => "["@ + spec_points_json(v@) + "]"@,
        None => "null"@,
    }
}

/// A path segment as JSON.
pub open spec fn spec_segment_json(s: PathSegment) -> Seq<char> {
    "{\"cmd\":"@ + spec_json_string(s.cmd@) + ",\"x\":"@ + spec_json_opt_num(
        match s.x {
            Some(v) => Some(v as int),
            None => None,
        },
    ) + ",\"y\":"@ + spec_json_opt_num(
        match s.y {
            Some(v) => Some(v as int),
            None => None,
        },
    ) + "}"@
}

/// A segment list as comma-joined JSON objects.
pub open spec fn spec_segments_json(segs: Seq<PathSegment>) -> Seq<char>
    decreases segs.len(),
{
    if segs.len() == 0 {
        Seq::empty()
    } else if segs.len() == 1 {
        spec_segment_json(segs[0])
    } else {
        spec_segments_json(segs.drop_last()) + ","@ + spec_segment_json(segs.last())
    }
}

/// An optional segment list as a JSON array or `null`.
pub open spec fn spec_opt_segments_json(o: Option<Vec<PathSegment>>) -> Seq<char> {
    match o {
        Some(v) => "["@ + spec_segments_json(v@) + "]"@,
        None => "null"@,
    }
}

/// The signed view of an optional coordinate.
pub open spec fn spec_oi(o: Option<i32>) -> Option<int> {
    match o {
        Some(v) => Some(v as int),
        None => None,
    }
}

/// The unsigned view of an optional size.
pub open spec fn spec_ou(o: Option<u32>) -> Option<int> {
    match o {
        Some(v) => Some(v as int),
        None => None,
    }
}

/// One drawing command as tagged JSON, optional fields as `null`.
pub open spec fn spec_cmd_json(cmd: Command) -> Seq<char> {
    match cmd {
        Command::Clear { color } => "{\"cmd\":\"clear\",\"color\":"@ + spec_json_string(color@)
            + "}"@,
        Command::Rect { id, x, y, w, h, fill, stroke, stroke_width, clickable } => {
            "{\"cmd\":\"rect\",\"id\":"@ + spec_json_opt_string(id) + ",\"x\":"@ + spec_dec_signed(
                x as int,
            ) + ",\"y\":"@ + spec_dec_signed(y as int) + ",\"w\":"@ + spec_dec(w as int)
                + ",\"h\":"@ + spec_dec(h as int) + ",\"fill\":"@ + spec_json_opt_string(fill)
                + ",\"stroke\":"@ + spec_json_opt_string(stroke) + ",\"stroke_width\":"@
                + spec_json_opt_num(spec_ou(stroke_width)) + ",\"clickable\":"@ + (if clickable {
                "true"@
            } else {
                "false"@
            }) + "}"@
        },
        Command::Text { x, y, text, color, bg } => {
            "{\"cmd\":\"text\",\"x\":"@ + spec_dec_signed(x as int) + ",\"y\":"@ + spec_dec_signed(
                y as int,
            ) + ",\"text\":"@ + spec_json_string(text@) + ",\"color\":"@ + spec_json_opt_string(
                color,
            ) + ",\"bg\":"@ + spec_json_opt_string(bg) + "}"@
        },
        Command::Line { x1, y1, x2, y2, color, width } => {
            "{\"cmd\":\"line\",\"x1\":"@ + spec_dec_signed(x1 as int) + ",\"y1\":"@
                + spec_dec_signed(y1 as int) + ",\"x2\":"@ + spec_dec_signed(x2 as int)
                + ",\"y2\":"@ + spec_dec_signed(y2 as int) + ",\"color\":"@ + spec_json_opt_string(
                color,
            ) + ",\"width\":"@ + spec_json_opt_num(spec_ou(width)) + "}"@
        },
        Command::Circle { cx, cy, r, fill, stroke, stroke_width } => {
            "{\"cmd\":\"circle\",\"cx\":"@ + spec_json_opt_num(spec_oi(cx)) + ",\"cy\":"@
                + spec_json_opt_num(spec_oi(cy)) + ",\"r\":"@ + spec_json_opt_num(spec_ou(r))
                + ",\"fill\":"@ + spec_json_opt_string(fill) + ",\"stroke\":"@
                + spec_json_opt_string(stroke) + ",\"stroke_width\":"@ + spec_json_opt_num(
                spec_ou(stroke_width),
            ) + "}"@
        },
        Command::Ellipse { cx, cy, rx, ry, fill, stroke, stroke_width } => {
            "{\"cmd\":\"ellipse\",\"cx\":"@ + spec_json_opt_num(spec_oi(cx)) + ",\"cy\":"@
                + spec_json_opt_num(spec_oi(cy)) + ",\"rx\":"@ + spec_json_opt_num(spec_ou(rx))
                + ",\"ry\":"@ + spec_json_opt_num(spec_ou(ry)) + ",\"fill\":"@
                + spec_json_opt_string(fill) + ",\"stroke\":"@ + spec_json_opt_string(stroke)
                + ",\"stroke_width\":"@ + spec_json_opt_num(spec_ou(stroke_width)) + "}"@
        },
        Command::RoundRect { x, y, w, h, r, fill, stroke, stroke_width } => {
            ("{\"cmd\":\"round_rect\",\"x\":"@ + spec_json_opt_num(spec_oi(x)) + ",\"y\":"@
                + spec_json_opt_num(spec_oi(y)) + ",\"w\":"@ + spec_json_opt_num(spec_ou(w))
                + ",\"h\":"@ + spec_json_opt_num(spec_ou(h))) + (",\"r\":"@
                + spec_json_opt_num(spec_ou(r)) + ",\"fill\":"@ + spec_json_opt_string(fill)
                + ",\"stroke\":"@ + spec_json_opt_string(stroke) + ",\"stroke_width\":"@
                + spec_json_opt_num(spec_ou(stroke_width)) + "}"@)
        },
        Command::Arc { cx, cy, r, start_angle, end_angle, color, width } => {
            ("{\"cmd\":\"arc\",\"cx\":"@ + spec_json_opt_num(spec_oi(cx)) + ",\"cy\":"@
                + spec_json_opt_num(spec_oi(cy)) + ",\"r\":"@ + spec_json_opt_num(spec_ou(r))) + (
            ",\"start_angle\":"@ + spec_json_opt_num(spec_oi(start_angle)) + ",\"end_angle\":"@
                + spec_json_opt_num(spec_oi(end_angle)) + ",\"color\":"@ + spec_json_opt_string(
                color,
            ) + ",\"width\":"@ + spec_json_opt_num(spec_ou(width)) + "}"@)
        },
        Command::Polyline { points, color, width } => {
            "{\"cmd\":\"polyline\",\"points\":"@ + spec_opt_points_json(points) + ",\"color\":"@
                + spec_json_opt_string(color) + ",\"width\":"@ + spec_json_opt_num(spec_ou(width))
                + "}"@
        },
        Command::Polygon { points, fill, stroke, stroke_width } => {
            "{\"cmd\":\"polygon\",\"points\":"@ + spec_opt_points_json(points) + ",\"fill\":"@
                + spec_json_opt_string(fill) + ",\"stroke\":"@ + spec_json_opt_string(stroke)
                + ",\"stroke_width\":"@ + spec_json_opt_num(spec_ou(stroke_width)) + "}"@
        },
        Command::Image { x, y, w, h, src_type, src } => {
            "{\"cmd\":\"image\",\"x\":"@ + spec_json_opt_num(spec_oi(x)) + ",\"y\":"@
                + spec_json_opt_num(spec_oi(y)) + ",\"w\":"@ + spec_json_opt_num(spec_ou(w))
                + ",\"h\":"@ + spec_json_opt_num(spec_ou(h)) + ",\"src_type\":"@
                + spec_json_opt_string(src_type) + ",\"src\":"@ + spec_json_opt_string(src) + "}"@
        },
        Command::Path { segments, fill, stroke, stroke_width } => {
            "{\"cmd\":\"path\",\"segments\":"@ + spec_opt_segments_json(segments) + ",\"fill\":"@
                + spec_json_opt_string(fill) + ",\"stroke\":"@ + spec_json_opt_string(stroke)
                + ",\"stroke_width\":"@ + spec_json_opt_num(spec_ou(stroke_width)) + "}"@
        },
    }
}

/// A command list as comma-joined JSON objects.
pub open spec fn spec_cmds_json(cmds: Seq<Command>) -> Seq<char>
    decreases cmds.len(),
{
    if cmds.len() == 0 {
        Seq::empty()
    } else if cmds.len() == 1 {
        spec_cmd_json(cmds[0])
    } else {
        spec_cmds_json(cmds.drop_last()) + ","@ + spec_cmd_json(cmds.last())
    }
}

/// A whole render envelope as JSON, fields in protocol order.
pub open spec fn spec_envelope_json(env: RenderEnvelope) -> Seq<char> {
    "{\"version\":"@ + spec_json_string(env.version@) + ",\"type\":"@ + spec_json_string(
        env.render_type@,
    ) + ",\"seq\":"@ + spec_dec(env.seq as int) + ",\"window\":{\"width\":"@ + spec_dec(
        env.window.width as int,
    ) + ",\"height\":"@ + spec_dec(env.window.height as int) + ",\"title\":"@ + spec_json_string(
        env.window.title@,
    ) + "},\"commands\":["@ + spec_cmds_json(env.commands@) + "]}"@
}

fn append_point(out: &mut String, pt: &Point)
    ensures
        final(out)@ == old(out)@ + spec_point_json(*pt),
{
    out.append("{\"x\":");
    append_i64(out, pt.x as i64);
    out.append(",\"y\":");
    append_i64(out, pt.y as i64);
    out.append("}");
    proof {
        assert(final(out)@ =~= old(out)@ + spec_point_json(*pt));
    }
}

fn append_segment(out: &mut String, sg: &PathSegment)
    ensures
        final(out)@ == old(out)@ + spec_segment_json(*sg),
{
    out.append("{\"cmd\":");
    append_json_string(out, sg.cmd.as_str());
    out.append(",\"x\":");
    append_opt_i32(out, &sg.x);
    out.append(",\"y\":");
    append_opt_i32(out, &sg.y);
    out.append("}");
    proof {
        assert(final(out)@ =~= old(out)@ + spec_segment_json(*sg));
    }
}

fn append_opt_points(out: &mut String, o: &Option<Vec<Point>>)
    ensures
        final(out)@ == old(out)@ + spec_opt_points_json(*o),
{
    match o {
        None => out.append("null"),
        Some(pv) => {
            out.append("[");
            let mut i: usize = 0;
            #[verifier::loop_isolation(false)]
            while i < pv.len()
                invariant
                    0 <= i <= pv@.len(),
                    out@ == old(out)@ + "["@ + spec_points_json(pv@.take(i as int)),
                decreases pv@.len() - i,
            {
                proof {
                    assert(pv@.take(i as int + 1).drop_last() =~= pv@.take(i as int));
                    assert(pv@.take(i as int + 1).last() == pv@[i as int]);
                }
                if i > 0 {
                    out.append(",");
                }
                append_point(out, &pv[i]);
                proof {
                    assert(out@ =~= old(out)@ + "["@ + spec_points_json(pv@.take(i as int + 1)));
                }
                i = i + 1;
            }
            out.append("]");
            proof {
                assert(pv@.take(pv@.len() as int) =~= pv@);
                assert(final(out)@ =~= old(out)@ + spec_opt_points_json(*o));
            }
        },
    }
}

fn append_opt_segments(out: &mut String, o: &Option<Vec<PathSegment>>)
    ensures
        final(out)@ == old(out)@ + spec_opt_segments_json(*o),
{
    match o {
        None => out.append("null"),
        Some(sv) => {
            out.append("[");
            let mut i: usize = 0;
            #[verifier::loop_isolation(false)]
            while i < sv.len()
                invariant
                    0 <= i <= sv@.len(),
                    out@ == old(out)@ + "["@ + spec_segments_json(sv@.take(i as int)),
                decreases sv@.len() - i,
            {
                proof {
                    assert(sv@.take(i as int + 1).drop_last() =~= sv@.take(i as int));
                    assert(sv@.take(i as int + 1).last() == sv@[i as int]);
                }
                if i > 0 {
                    out.append(",");
                }
                append_segment(out, &sv[i]);
                proof {
                    assert(out@ =~= old(out)@ + "["@ + spec_segments_json(sv@.take(i as int + 1)));
                }
                i = i + 1;
            }
            out.append("]");
            proof {
                assert(sv@.take(sv@.len() as int) =~= sv@);
                assert(final(out)@ =~= old(out)@ + spec_opt_segments_json(*o));
            }
        },
    }
}

#[verifier::rlimit(50)]
fn append_cmd_clear(out: &mut String, cmd: &Command)
    requires
        cmd is Clear,
    ensures
        final(out)@ == old(out)@ + spec_cmd_json(*cmd),
{
    match cmd {
        Command::Clear { color } => {
            out.append("{\"cmd\":\"clear\",\"color\":");
            append_json_string(out, color.as_str());
            out.append("}");
            proof {
                assert(final(out)@ =~= old(out)@ + spec_cmd_json(*cmd));
            }
        },
        _ => {},
    }
}

#[verifier::rlimit(100)]
fn append_cmd_rect(out: &mut String, cmd: &Command)
    requires
        cmd is Rect,
    ensures
        final(out)@ == old(out)@ + spec_cmd_json(*cmd),
{
    match cmd {
        Command::Rect { id, x, y, w, h, fill, stroke, stroke_width, clickable } => {
            out.append("{\"cmd\":\"rect\",\"id\":");
            append_opt_string(out, id);
            out.append(",\"x\":");
            append_i64(out, *x as i64);
            out.append(",\"y\":");
            append_i64(out, *y as i64);
            out.append(",\"w\":");
            append_u64(out, *w as u64);
            out.append(",\"h\":");
            append_u64(out, *h as u64);
            out.append(",\"fill\":");
            append_opt_string(out, fill);
            out.append(",\"stroke\":");
            append_opt_string(out, stroke);
            out.append(",\"stroke_width\":");
            append_opt_u32(out, stroke_width);
            out.append(",\"clickable\":");
            if *clickable {
                out.append("true");
            } else {
                out.append("false");
            }
            out.append("}");
            proof {
                assert(final(out)@ =~= old(out)@ + spec_cmd_json(*cmd));
            }
        },
        _ => {},
    }
}

#[verifier::rlimit(100)]
fn append_cmd_text(out: &mut String, cmd: &Command)
    requires
        cmd is Text,
    ensures
        final(out)@ == old(out)@ + spec_cmd_json(*cmd),
{
    match cmd {
        Command::Text { x, y, text, color, bg } => {
            out.append("{\"cmd\":\"text\",\"x\":");
            append_i64(out, *x as i64);
            out.append(",\"y\":");
            append_i64(out, *y as i64);
            out.append(",\"text\":");
            append_json_string(out, text.as_str());
            out.append(",\"color\":");
            append_opt_string(out, color);
            out.append(",\"bg\":");
            append_opt_string(out, bg);
            out.append("}");
            proof {
                assert(final(out)@ =~= old(out)@ + spec_cmd_json(*cmd));
            }
        },
        _ => {},
    }
}

#[verifier::rlimit(100)]
fn append_cmd_line(out: &mut String, cmd: &Command)
    requires
        cmd is Line,
    ensures
        final(out)@ == old(out)@ + spec_cmd_json(*cmd),
{
    match cmd {
        Command::Line { x1, y1, x2, y2, color, width } => {
            out.append("{\"cmd\":\"line\",\"x1\":");
            append_i64(out, *x1 as i64);
            out.append(",\"y1\":");
            append_i64(out, *y1 as i64);
            out.append(",\"x2\":");
            append_i64(out, *x2 as i64);
            out.append(",\"y2\":");
            append_i64(out, *y2 as i64);
            out.append(",\"color\":");
            append_opt_string(out, color);
            out.append(",\"width\":");
            append_opt_u32(out, width);
            out.append("}");
            proof {
                assert(final(out)@ =~= old(out)@ + spec_cmd_json(*cmd));
            }
        },
        _ => {},
    }
}

#[verifier::rlimit(100)]
fn append_cmd_circle(out: &mut String, cmd: &Command)
    requires
        cmd is Circle,
    ensures
        final(out)@ == old(out)@ + spec_cmd_json(*cmd),
{
    match cmd {
        Command::Circle { cx, cy, r, fill, stroke, stroke_width } => {
            out.append("{\"cmd\":\"circle\",\"cx\":");
            append_opt_i32(out, cx);
            out.append(",\"cy\":");
            append_opt_i32(out, cy);
            out.append(",\"r\":");
            append_opt_u32(out, r);
            out.append(",\"fill\":");
            append_opt_string(out, fill);
            out.append(",\"stroke\":");
            append_opt_string(out, stroke);
            out.append(",\"stroke_width\":");
            append_opt_u32(out, stroke_width);
            out.append("}");
            proof {
                assert(final(out)@ =~= old(out)@ + spec_cmd_json(*cmd));
            }
        },
        _ => {},
    }
}

#[verifier::rlimit(100)]
fn append_cmd_ellipse(out: &mut String, cmd: &Command)
    requires
        cmd is Ellipse,
    ensures
        final(out)@ == old(out)@ + spec_cmd_json(*cmd),
{
    match cmd {
        Command::Ellipse { cx, cy, rx, ry, fill, stroke, stroke_width } => {
            out.append("{\"cmd\":\"ellipse\",\"cx\":");
            append_opt_i32(out, cx);
            out.append(",\"cy\":");
            append_opt_i32(out, cy);
            out.append(",\"rx\":");
            append_opt_u32(out, rx);
            out.append(",\"ry\":");
            append_opt_u32(out, ry);
            out.append(",\"fill\":");
            append_opt_string(out, fill);
            out.append(",\"stroke\":");
            append_opt_string(out, stroke);
            out.append(",\"stroke_width\":");
            append_opt_u32(out, stroke_width);
            out.append("}");
            proof {
                assert(final(out)@ =~= old(out)@ + spec_cmd_json(*cmd));
            }
        },
        _ => {},
    }
}

#[verifier::rlimit(100)]
fn append_cmd_roundrect(out: &mut String, cmd: &Command)
    requires
        cmd is RoundRect,
    ensures
        final(out)@ == old(out)@ + spec_cmd_json(*cmd),
{
    match cmd {
        Command::RoundRect { x, y, w, h, r, fill, stroke, stroke_width } => {
            let ghost g1 = "{\"cmd\":\"round_rect\",\"x\":"@ + spec_json_opt_num(spec_oi(*x))
                + ",\"y\":"@ + spec_json_opt_num(spec_oi(*y)) + ",\"w\":"@ + spec_json_opt_num(
                spec_ou(*w),
            ) + ",\"h\":"@ + spec_json_opt_num(spec_ou(*h));
            let ghost g2 = ",\"r\":"@ + spec_json_opt_num(spec_ou(*r)) + ",\"fill\":"@
                + spec_json_opt_string(*fill) + ",\"stroke\":"@ + spec_json_opt_string(*stroke)
                + ",\"stroke_width\":"@ + spec_json_opt_num(spec_ou(*stroke_width)) + "}"@;
            out.append("{\"cmd\":\"round_rect\",\"x\":");
            append_opt_i32(out, x);
            out.append(",\"y\":");
            append_opt_i32(out, y);
            out.append(",\"w\":");
            append_opt_u32(out, w);
            out.append(",\"h\":");
            append_opt_u32(out, h);
            proof {
                assert(out@ =~= old(out)@ + g1);
            }
            let ghost snap = out@;
            out.append(",\"r\":");
            append_opt_u32(out, r);
            out.append(",\"fill\":");
            append_opt_string(out, fill);
            out.append(",\"stroke\":");
            append_opt_string(out, stroke);
            out.append(",\"stroke_width\":");
            append_opt_u32(out, stroke_width);
            out.append("}");
            proof {
                assert(out@ =~= snap + g2);
                assert((old(out)@ + g1) + g2 =~= old(out)@ + (g1 + g2));
                assert(spec_cmd_json(*cmd) == g1 + g2);
            }
        },
        _ => {},
    }
}

#[verifier::rlimit(100)]
fn append_cmd_arc(out: &mut String, cmd: &Command)
    requires
        cmd is Arc,
    ensures
        final(out)@ == old(out)@ + spec_cmd_json(*cmd),
{
    match cmd {
        Command::Arc { cx, cy, r, start_angle, end_angle, color, width } => {
            let ghost g1 = "{\"cmd\":\"arc\",\"cx\":"@ + spec_json_opt_num(spec_oi(*cx))
                + ",\"cy\":"@ + spec_json_opt_num(spec_oi(*cy)) + ",\"r\":"@
                + spec_json_opt_num(spec_ou(*r));
            let ghost g2 = ",\"start_angle\":"@ + spec_json_opt_num(spec_oi(*start_angle))
                + ",\"end_angle\":"@ + spec_json_opt_num(spec_oi(*end_angle)) + ",\"color\":"@
                + spec_json_opt_string(*color) + ",\"width\":"@ + spec_json_opt_num(
                spec_ou(*width),
            ) + "}"@;
            out.append("{\"cmd\":\"arc\",\"cx\":");
            append_opt_i32(out, cx);
            out.append(",\"cy\":");
            append_opt_i32(out, cy);
            out.append(",\"r\":");
            append_opt_u32(out, r);
            proof {
                assert(out@ =~= old(out)@ + g1);
            }
            let ghost snap = out@;
            out.append(",\"start_angle\":");
            append_opt_i32(out, start_angle);
            out.append(",\"end_angle\":");
            append_opt_i32(out, end_angle);
            out.append(",\"color\":");
            append_opt_string(out, color);
            out.append(",\"width\":");
            append_opt_u32(out, width);
            out.append("}");
            proof {
                assert(out@ =~= snap + g2);
                assert((old(out)@ + g1) + g2 =~= old(out)@ + (g1 + g2));
                assert(spec_cmd_json(*cmd) == g1 + g2);
            }
        },
        _ => {},
    }
}

#[verifier::rlimit(100)]
fn append_cmd_polyline(out: &mut String, cmd: &Command)
    requires
        cmd is Polyline,
    ensures
        final(out)@ == old(out)@ + spec_cmd_json(*cmd),
{
    match cmd {
        Command::Polyline { points, color, width } => {
            out.append("{\"cmd\":\"polyline\",\"points\":");
            append_opt_points(out, points);
            out.append(",\"color\":");
            append_opt_string(out, color);
            out.append(",\"width\":");
            append_opt_u32(out, width);
            out.append("}");
            proof {
                assert(final(out)@ =~= old(out)@ + spec_cmd_json(*cmd));
            }
        },
        _ => {},
    }
}

#[verifier::rlimit(100)]
fn append_cmd_polygon(out: &mut String, cmd: &Command)
    requires
        cmd is Polygon,
    ensures
        final(out)@ == old(out)@ + spec_cmd_json(*cmd),
{
    match cmd {
        Command::Polygon { points, fill, stroke, stroke_width } => {
            out.append("{\"cmd\":\"polygon\",\"points\":");
            append_opt_points(out, points);
            out.append(",\"fill\":");
            append_opt_string(out, fill);
            out.append(",\"stroke\":");
            append_opt_string(out, stroke);
            out.append(",\"stroke_width\":");
            append_opt_u32(out, stroke_width);
            out.append("}");
            proof {
                assert(final(out)@ =~= old(out)@ + spec_cmd_json(*cmd));
            }
        },
        _ => {},
    }
}

#[verifier::rlimit(100)]
fn append_cmd_image(out: &mut String, cmd: &Command)
    requires
        cmd is Image,
    ensures
        final(out)@ == old(out)@ + spec_cmd_json(*cmd),
{
    match cmd {
        Command::Image { x, y, w, h, src_type, src } => {
            out.append("{\"cmd\":\"image\",\"x\":");
            append_opt_i32(out, x);
            out.append(",\"y\":");
            append_opt_i32(out, y);
            out.append(",\"w\":");
            append_opt_u32(out, w);
            out.append(",\"h\":");
            append_opt_u32(out, h);
            out.append(",\"src_type\":");
            append_opt_string(out, src_type);
            out.append(",\"src\":");
            append_opt_string(out, src);
            out.append("}");
            proof {
                assert(final(out)@ =~= old(out)@ + spec_cmd_json(*cmd));
            }
        },
        _ => {},
    }
}

#[verifier::rlimit(100)]
fn append_cmd_path(out: &mut String, cmd: &Command)
    requires
        cmd is Path,
    ensures
        final(out)@ == old(out)@ + spec_cmd_json(*cmd),
{
    match cmd {
        Command::Path { segments, fill, stroke, stroke_width } => {
            out.append("{\"cmd\":\"path\",\"segments\":");
            append_opt_segments(out, segments);
            out.append(",\"fill\":");
            append_opt_string(out, fill);
            out.append(",\"stroke\":");
            append_opt_string(out, stroke);
            out.append(",\"stroke_width\":");
            append_opt_u32(out, stroke_width);
            out.append("}");
            proof {
                assert(final(out)@ =~= old(out)@ + spec_cmd_json(*cmd));
            }
        },
        _ => {},
    }
}

/// Appends one command as tagged JSON.
fn append_command(out: &mut String, cmd: &Command)
    ensures
        final(out)@ == old(out)@ + spec_cmd_json(*cmd),
{
    match cmd {
        Command::Clear { .. } => append_cmd_clear(out, cmd),
        Command::Rect { .. } => append_cmd_rect(out, cmd),
        Command::Text { .. } => append_cmd_text(out, cmd),
        Command::Line { .. } => append_cmd_line(out, cmd),
        Command::Circle { .. } => append_cmd_circle(out, cmd),
        Command::Ellipse { .. } => append_cmd_ellipse(out, cmd),
        Command::RoundRect { .. } => append_cmd_roundrect(out, cmd),
        Command::Arc { .. } => append_cmd_arc(out, cmd),
        Command::Polyline { .. } => append_cmd_polyline(out, cmd),
        Command::Polygon { .. } => append_cmd_polygon(out, cmd),
        Command::Image { .. } => append_cmd_image(out, cmd),
        Command::Path { .. } => append_cmd_path(out, cmd),
    }
}

/// Serializes a render envelope to the exact JSON the specification gives:
/// character for character, so re-parsing yields the same structure.
#[verifier::loop_isolation(false)]
pub fn envelope_to_json(env: &RenderEnvelope) -> (r: String)
    ensures
        r@ == spec_envelope_json(*env),
{
    let mut out = String::new();
    out.append("{\"version\":");
    append_json_string(&mut out, env.version.as_str());
    out.append(",\"type\":");
    append_json_string(&mut out, env.render_type.as_str());
    out.append(",\"seq\":");
    append_u64(&mut out, env.seq);
    out.append(",\"window\":{\"width\":");
    append_u64(&mut out, env.window.width as u64);
    out.append(",\"height\":");
    append_u64(&mut out, env.window.height as u64);
    out.append(",\"title\":");
    append_json_string(&mut out, env.window.title.as_str());
    out.append("},\"commands\":[");
    let ghost base = out@;
    let mut i: usize = 0;
    while i < env.commands.len()
        invariant
            0 <= i <= env.commands@.len(),
            out@ == base + spec_cmds_json(env.commands@.take(i as int)),
        decreases env.commands@.len() - i,
    {
        proof {
            assert(env.commands@.take(i as int + 1).drop_last() =~= env.commands@.take(i as int));
            assert(env.commands@.take(i as int + 1).last() == env.commands@[i as int]);
        }
        if i > 0 {
            out.append(",");
        }
        append_command(&mut out, &env.commands[i]);
        proof {
            assert(out@ =~= base + spec_cmds_json(env.commands@.take(i as int + 1)));
        }
        i = i + 1;
    }
    out.append("]}");
    proof {
        assert(env.commands@.take(env.commands@.len() as int) =~= env.commands@);
        assert(out@ =~= spec_envelope_json(*env));
    }
    out
}

} // verus!
