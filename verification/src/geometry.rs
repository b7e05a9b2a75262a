//! Decoders for Figma's baked path and vector-network blobs.
//!
//! Coordinates are `f32` values on the wire; here each is its bit pattern.

use vstd::prelude::*;
use crate::binary::le_u32;

verus! {

/// How a path is filled.
#[derive(Debug, Clone, Copy, PartialEq, Eq, Structural)]
pub enum WindingRule {
    NonZero,
    EvenOdd,
}

/// One drawing command. Coordinates are `f32` bit patterns.
#[derive(Debug, Clone, Copy, PartialEq, Eq, Structural)]
pub enum PathCommand {
    MoveTo { x: u32, y: u32 },
    LineTo { x: u32, y: u32 },
    CubicTo { x1: u32, y1: u32, x2: u32, y2: u32, x: u32, y: u32 },
    /// A cubic segment of a vector network: its control points are the start
    /// point plus the start tangent and the end point plus the end tangent.
    TangentCubicTo {
        start_x: u32,
        start_y: u32,
        start_dx: u32,
        start_dy: u32,
        end_dx: u32,
        end_dy: u32,
        x: u32,
        y: u32,
    },
    Close,
}

/// A path of commands with its winding rule and style.
#[derive(Debug, Clone, PartialEq, Eq)]
pub struct GeometryPath {
    pub commands: Vec<PathCommand>,
    pub winding_rule: WindingRule,
    pub style_id: u32,
}

pub struct GeometryPathView {
    pub commands: Seq<PathCommand>,
    pub winding_rule: WindingRule,
    pub style_id: u32,
}

impl View for GeometryPath {
    type V = GeometryPathView;

    open spec fn view(&self) -> GeometryPathView {
        GeometryPathView { commands: self.commands@, winding_rule: self.winding_rule, style_id: self.style_id }
    }
}

/// An `f32` bit pattern of a finite number (exponent bits not all set).
pub open spec fn finite_bits(b: u32) -> bool {
    (b as int) % 0x8000_0000 < 0x7F80_0000
}

/// An `f32` bit pattern of zero (either sign).
pub open spec fn zero_bits(b: u32) -> bool {
    (b as int) % 0x8000_0000 == 0
}

/// The little-endian u32 at `off`, where four bytes are left.
pub open spec fn u32_at_spec(s: Seq<u8>, off: int) -> Option<u32> {
    if 0 <= off && off + 4 <= s.len() { Some(le_u32(s, off) as u32) } else { None }
}

/// The little-endian f32 at `off` (as bits), where four bytes are left and it is finite.
pub open spec fn f32_at_spec(s: Seq<u8>, off: int) -> Option<u32> {
    match u32_at_spec(s, off) {
        Some(b) => if finite_bits(b) { Some(b) } else { None },
        None => None,
    }
}

/// Read the little-endian u32 at `*offset`, advancing past it.
pub fn u32_at(bytes: &[u8], offset: &mut usize) -> (r: Option<u32>)
    ensures
        r == u32_at_spec(bytes@, *old(offset) as int),
        r is Some ==> *final(offset) == *old(offset) + 4,
        r is None ==> *final(offset) == *old(offset),
{
    if *offset > bytes.len() || bytes.len() - *offset < 4 {
        return None;
    }
    let i = *offset;
    let v: u32 = (bytes[i] as u32) + 256 * (bytes[i + 1] as u32) + 65536 * (bytes[i + 2] as u32)
        + 16777216 * (bytes[i + 3] as u32);
    *offset = i + 4;
    Some(v)
}

/// Read the little-endian f32 at `*offset` (as bits), advancing past it; `None`
/// when it is not finite or does not fit.
pub fn f32_at(bytes: &[u8], offset: &mut usize) -> (r: Option<u32>)
    ensures
        r == f32_at_spec(bytes@, *old(offset) as int),
        u32_at_spec(bytes@, *old(offset) as int) is Some ==> *final(offset) == *old(offset) + 4,
        u32_at_spec(bytes@, *old(offset) as int) is None ==> *final(offset) == *old(offset),
{
    let v = u32_at(bytes, offset)?;
    if v % 0x8000_0000 < 0x7F80_0000 {
        Some(v)
    } else {
        None
    }
}

/// The commands of a baked path blob from `off` on, appended to `acc`.
/// Opcodes: 0 separator, 1 move, 2 line, 3 close, 4 cubic.
pub open spec fn commands_from(s: Seq<u8>, off: int, acc: Seq<PathCommand>) -> Option<Seq<PathCommand>>
    decreases s.len() - off,
{
    if off < 0 || off >= s.len() {
        Some(acc)
    } else {
        let o = off + 1;
        let op = s[off];
        if op == 0 {
            commands_from(s, o, acc)
        } else if op == 1 || op == 2 {
            match (f32_at_spec(s, o), f32_at_spec(s, o + 4)) {
                (Some(x), Some(y)) => commands_from(s, o + 8, acc.push(
                    if op == 1 { PathCommand::MoveTo { x, y } } else { PathCommand::LineTo { x, y } })),
                _ => None,
            }
        } else if op == 3 {
            commands_from(s, o, acc.push(PathCommand::Close))
        } else if op == 4 {
            match (f32_at_spec(s, o), f32_at_spec(s, o + 4), f32_at_spec(s, o + 8),
                f32_at_spec(s, o + 12), f32_at_spec(s, o + 16), f32_at_spec(s, o + 20)) {
                (Some(x1), Some(y1), Some(x2), Some(y2), Some(x), Some(y)) =>
                    commands_from(s, o + 24, acc.push(PathCommand::CubicTo { x1, y1, x2, y2, x, y })),
                _ => None,
            }
        } else {
            None
        }
    }
}

/// The decoded commands blob: `None` on an unknown opcode, a truncated or
/// non-finite coordinate, or when no command at all results.
pub open spec fn commands_blob(s: Seq<u8>) -> Option<Seq<PathCommand>> {
    match commands_from(s, 0, Seq::empty()) {
        Some(c) => if c.len() > 0 { Some(c) } else { None },
        None => None,
    }
}

/// The little-endian word at `off`, as a `u32`.
pub open spec fn word_at(s: Seq<u8>, off: int) -> u32 {
    le_u32(s, off) as u32
}

/// A move or line record is read in stream order: opcode 1 (move) or 2
/// (line) is followed by the point's `x` and then `y` little-endian `f32`
/// word; decoding goes on after them.
pub proof fn law_point_in_stream_order(s: Seq<u8>, o: int, acc: Seq<PathCommand>)
    requires
        0 <= o,
        o + 9 <= s.len(),
        s[o] == 1 || s[o] == 2,
        finite_bits(word_at(s, o + 1)),
        finite_bits(word_at(s, o + 5)),
    ensures
        commands_from(s, o, acc) == commands_from(s, o + 9, acc.push(
            if s[o] == 1 {
                PathCommand::MoveTo { x: word_at(s, o + 1), y: word_at(s, o + 5) }
            } else {
                PathCommand::LineTo { x: word_at(s, o + 1), y: word_at(s, o + 5) }
            },
        )),
{
}

/// A cubic record is read in stream order: opcode 4 is followed by the first
/// control point, the second control point and the end point, each as an
/// `x`, `y` pair of little-endian `f32` words; decoding goes on after them.
pub proof fn law_cubic_in_stream_order(s: Seq<u8>, o: int, acc: Seq<PathCommand>)
    requires
        0 <= o,
        o + 25 <= s.len(),
        s[o] == 4,
        forall|k: int| 0 <= k < 6 ==> #[trigger] finite_bits(word_at(s, o + 1 + 4 * k)),
    ensures
        commands_from(s, o, acc) == commands_from(s, o + 25, acc.push(PathCommand::CubicTo {
            x1: word_at(s, o + 1),
            y1: word_at(s, o + 5),
            x2: word_at(s, o + 9),
            y2: word_at(s, o + 13),
            x: word_at(s, o + 17),
            y: word_at(s, o + 21),
        })),
{
    assert(finite_bits(word_at(s, o + 1 + 4 * 0)));
    assert(finite_bits(word_at(s, o + 1 + 4 * 1)));
    assert(finite_bits(word_at(s, o + 1 + 4 * 2)));
    assert(finite_bits(word_at(s, o + 1 + 4 * 3)));
    assert(finite_bits(word_at(s, o + 1 + 4 * 4)));
    assert(finite_bits(word_at(s, o + 1 + 4 * 5)));
}

/// A blob of one move and one cubic decodes to exactly those two commands,
/// with the coordinates in the order they are stored.
pub proof fn law_move_then_cubic(s: Seq<u8>)
    requires
        s.len() == 34,
        s[0] == 1,
        s[9] == 4,
        finite_bits(word_at(s, 1)),
        finite_bits(word_at(s, 5)),
        forall|k: int| 0 <= k < 6 ==> #[trigger] finite_bits(word_at(s, 10 + 4 * k)),
    ensures
        commands_blob(s) == Some(seq![
            PathCommand::MoveTo { x: word_at(s, 1), y: word_at(s, 5) },
            PathCommand::CubicTo {
                x1: word_at(s, 10),
                y1: word_at(s, 14),
                x2: word_at(s, 18),
                y2: word_at(s, 22),
                x: word_at(s, 26),
                y: word_at(s, 30),
            },
        ]),
{
    let m = PathCommand::MoveTo { x: word_at(s, 1), y: word_at(s, 5) };
    assert(commands_from(s, 0, Seq::empty()) == commands_from(s, 9, seq![m]));
    law_cubic_in_stream_order(s, 9, seq![m]);
    assert(commands_from(s, 34, seq![m].push(PathCommand::CubicTo {
        x1: word_at(s, 10),
        y1: word_at(s, 14),
        x2: word_at(s, 18),
        y2: word_at(s, 22),
        x: word_at(s, 26),
        y: word_at(s, 30),
    })).unwrap().len() == 2);
}

/// Decode a pre-baked Figma path stream.
pub fn decode_commands_blob(bytes: &[u8]) -> (r: Option<Vec<PathCommand>>)
    ensures
        match commands_blob(bytes@) {
            Some(c) => r is Some && r->0@ == c,
            None => r is None,
        },
{
    let mut offset: usize = 0;
    let mut commands: Vec<PathCommand> = Vec::new();
    let ghost s = bytes@;
    while offset < bytes.len()
        invariant
            s == bytes@,
            offset <= bytes@.len(),
            commands_from(s, 0, Seq::empty()) == commands_from(s, offset as int, commands@),
        decreases bytes@.len() - offset,
    {
        let opcode = bytes[offset];
        offset = offset + 1;
        if opcode == 0 {
        } else if opcode == 1 || opcode == 2 {
            let x = f32_at(bytes, &mut offset)?;
            let y = f32_at(bytes, &mut offset)?;
            if opcode == 1 {
                commands.push(PathCommand::MoveTo { x, y });
            } else {
                commands.push(PathCommand::LineTo { x, y });
            }
        } else if opcode == 3 {
            commands.push(PathCommand::Close);
        } else if opcode == 4 {
            let x1 = f32_at(bytes, &mut offset)?;
            let y1 = f32_at(bytes, &mut offset)?;
            let x2 = f32_at(bytes, &mut offset)?;
            let y2 = f32_at(bytes, &mut offset)?;
            let x = f32_at(bytes, &mut offset)?;
            let y = f32_at(bytes, &mut offset)?;
            commands.push(PathCommand::CubicTo { x1, y1, x2, y2, x, y });
        } else {
            return None;
        }
    }
    if commands.len() == 0 {
        None
    } else {
        Some(commands)
    }
}

/// A vector-network vertex (coordinates as `f32` bits).
#[derive(Debug, Clone, Copy, PartialEq, Eq)]
pub struct Vertex {
    pub x: u32,
    pub y: u32,
}

/// A vector-network segment: vertex indices and the tangents at both ends.
#[derive(Debug, Clone, Copy, PartialEq, Eq)]
pub struct Segment {
    pub start: u32,
    pub start_dx: u32,
    pub start_dy: u32,
    pub end: u32,
    pub end_dx: u32,
    pub end_dy: u32,
}

/// `n - k` more vertices from `off` on (a style word and two finite coordinates each).
pub open spec fn read_vertices_spec(s: Seq<u8>, off: int, k: int, n: int, acc: Seq<Vertex>) -> Option<(Seq<Vertex>, int)>
    decreases n - k,
{
    if k >= n {
        Some((acc, off))
    } else {
        match (u32_at_spec(s, off), f32_at_spec(s, off + 4), f32_at_spec(s, off + 8)) {
            (Some(_), Some(x), Some(y)) => read_vertices_spec(s, off + 12, k + 1, n, acc.push(Vertex { x, y })),
            _ => None,
        }
    }
}

/// `n - k` more segments from `off` on (a style word, then start index and
/// tangent, then end index and tangent).
pub open spec fn read_segments_spec(s: Seq<u8>, off: int, k: int, n: int, acc: Seq<Segment>) -> Option<(Seq<Segment>, int)>
    decreases n - k,
{
    if k >= n {
        Some((acc, off))
    } else {
        match (u32_at_spec(s, off), u32_at_spec(s, off + 4), f32_at_spec(s, off + 8), f32_at_spec(s, off + 12),
            u32_at_spec(s, off + 16), f32_at_spec(s, off + 20), f32_at_spec(s, off + 24)) {
            (Some(_), Some(start), Some(start_dx), Some(start_dy), Some(end), Some(end_dx), Some(end_dy)) =>
                read_segments_spec(s, off + 28, k + 1, n,
                    acc.push(Segment { start, start_dx, start_dy, end, end_dx, end_dy })),
            _ => None,
        }
    }
}

/// A vertex record is read in stream order: a style word, then `x`, then `y`.
pub proof fn law_vertex_in_stream_order(s: Seq<u8>, off: int, k: int, n: int, acc: Seq<Vertex>)
    requires
        0 <= off,
        off + 12 <= s.len(),
        k < n,
        finite_bits(word_at(s, off + 4)),
        finite_bits(word_at(s, off + 8)),
    ensures
        read_vertices_spec(s, off, k, n, acc) == read_vertices_spec(s, off + 12, k + 1, n, acc.push(
            Vertex { x: word_at(s, off + 4), y: word_at(s, off + 8) },
        )),
{
}

/// A segment record is read in stream order: a style word, the start vertex
/// index, the start tangent (`dx`, `dy`), the end vertex index, the end
/// tangent (`dx`, `dy`).
pub proof fn law_segment_in_stream_order(s: Seq<u8>, off: int, k: int, n: int, acc: Seq<Segment>)
    requires
        0 <= off,
        off + 28 <= s.len(),
        k < n,
        finite_bits(word_at(s, off + 8)),
        finite_bits(word_at(s, off + 12)),
        finite_bits(word_at(s, off + 20)),
        finite_bits(word_at(s, off + 24)),
    ensures
        read_segments_spec(s, off, k, n, acc) == read_segments_spec(s, off + 28, k + 1, n, acc.push(
            Segment {
                start: word_at(s, off + 4),
                start_dx: word_at(s, off + 8),
                start_dy: word_at(s, off + 12),
                end: word_at(s, off + 16),
                end_dx: word_at(s, off + 20),
                end_dy: word_at(s, off + 24),
            },
        )),
{
}

/// The command drawn along a segment from `start` to `end`: a straight line
/// when all four tangent components are zero, a cubic otherwise.
pub open spec fn segment_command(start: Vertex, end: Vertex, sdx: u32, sdy: u32, edx: u32, edy: u32) -> PathCommand {
    if zero_bits(sdx) && zero_bits(sdy) && zero_bits(edx) && zero_bits(edy) {
        PathCommand::LineTo { x: end.x, y: end.y }
    } else {
        PathCommand::TangentCubicTo {
            start_x: start.x, start_y: start.y, start_dx: sdx, start_dy: sdy,
            end_dx: edx, end_dy: edy, x: end.x, y: end.y,
        }
    }
}

/// The commands of one loop: `count - idx` more segment references from `off`
/// on. A reference's top bit reverses the segment; the rest indexes it.
pub open spec fn loop_commands_spec(
    s: Seq<u8>, off: int, idx: int, count: int, verts: Seq<Vertex>, segs: Seq<Segment>, acc: Seq<PathCommand>,
) -> Option<(Seq<PathCommand>, int)>
    decreases count - idx,
{
    if idx >= count {
        Some((acc, off))
    } else {
        match u32_at_spec(s, off) {
            None => None,
            Some(raw) => {
                let si = (raw as int) % 0x8000_0000;
                if si >= segs.len() {
                    None
                } else {
                    let sg = segs[si];
                    let rev = raw >= 0x8000_0000;
                    let a = if rev { sg.end } else { sg.start };
                    let b = if rev { sg.start } else { sg.end };
                    if a >= verts.len() || b >= verts.len() {
                        None
                    } else {
                        let st = verts[a as int];
                        let en = verts[b as int];
                        let acc1 = if idx == 0 { acc.push(PathCommand::MoveTo { x: st.x, y: st.y }) } else { acc };
                        let cmd = if rev {
                            segment_command(st, en, sg.end_dx, sg.end_dy, sg.start_dx, sg.start_dy)
                        } else {
                            segment_command(st, en, sg.start_dx, sg.start_dy, sg.end_dx, sg.end_dy)
                        };
                        loop_commands_spec(s, off + 4, idx + 1, count, verts, segs, acc1.push(cmd))
                    }
                }
            },
        }
    }
}

/// The point a command ends at.
pub open spec fn command_end(c: PathCommand) -> Option<(u32, u32)> {
    match c {
        PathCommand::MoveTo { x, y } => Some((x, y)),
        PathCommand::LineTo { x, y } => Some((x, y)),
        PathCommand::CubicTo { x, y, .. } => Some((x, y)),
        PathCommand::TangentCubicTo { x, y, .. } => Some((x, y)),
        PathCommand::Close => None,
    }
}

/// The command `c`, drawn from point `p`, run backwards: it ends at `p`, and
/// a tangent cubic starts where `c` ended, with the two tangents exchanged.
pub open spec fn run_backwards(p: (u32, u32), c: PathCommand) -> PathCommand {
    match c {
        PathCommand::LineTo { .. } => PathCommand::LineTo { x: p.0, y: p.1 },
        PathCommand::TangentCubicTo { start_x, start_y, start_dx, start_dy, end_dx, end_dy, x, y } =>
            PathCommand::TangentCubicTo {
                start_x: x,
                start_y: y,
                start_dx: end_dx,
                start_dy: end_dy,
                end_dx: start_dx,
                end_dy: start_dy,
                x: start_x,
                y: start_y,
            },
        _ => c,
    }
}

/// Referencing a segment with the top bit set draws the same curve as the
/// plain reference, run backwards: a one-segment loop through reference
/// `i | 0x8000_0000` starts where the loop through `i` ends, and its command
/// is the forward command reversed, the start tangent being the segment's
/// end tangent and the end tangent its start tangent.
pub proof fn law_reversed_reference(
    fwd: Seq<u8>,
    bwd: Seq<u8>,
    off: int,
    verts: Seq<Vertex>,
    segs: Seq<Segment>,
    i: u32,
)
    requires
        i < 0x8000_0000,
        u32_at_spec(fwd, off) == Some(i),
        u32_at_spec(bwd, off) == Some((i + 0x8000_0000) as u32),
    ensures
        loop_commands_spec(fwd, off, 0, 1, verts, segs, Seq::empty()) is None
            <==> loop_commands_spec(bwd, off, 0, 1, verts, segs, Seq::empty()) is None,
        loop_commands_spec(fwd, off, 0, 1, verts, segs, Seq::empty()) matches Some((f, o1)) ==> {
            &&& loop_commands_spec(bwd, off, 0, 1, verts, segs, Seq::empty()) matches Some((r, o2))
            &&& o2 == o1
            &&& f.len() == 2
            &&& r.len() == 2
            &&& f[0] matches PathCommand::MoveTo { x, y }
            &&& command_end(f[1]) matches Some(q)
            &&& r[0] == PathCommand::MoveTo { x: q.0, y: q.1 }
            &&& r[1] == run_backwards((x, y), f[1])
        },
{
    let j = (i + 0x8000_0000) as u32;
    assert((j as int) % 0x8000_0000 == i as int);
    assert((i as int) % 0x8000_0000 == i as int);
    let si = i as int;
    if si < segs.len() {
        let sg = segs[si];
        if sg.start < verts.len() && sg.end < verts.len() {
            let a = verts[sg.start as int];
            let b = verts[sg.end as int];
            let cf = segment_command(a, b, sg.start_dx, sg.start_dy, sg.end_dx, sg.end_dy);
            let cr = segment_command(b, a, sg.end_dx, sg.end_dy, sg.start_dx, sg.start_dy);
            let f = seq![PathCommand::MoveTo { x: a.x, y: a.y }, cf];
            let r = seq![PathCommand::MoveTo { x: b.x, y: b.y }, cr];
            assert(Seq::<PathCommand>::empty().push(PathCommand::MoveTo { x: a.x, y: a.y }).push(cf) =~= f);
            assert(Seq::<PathCommand>::empty().push(PathCommand::MoveTo { x: b.x, y: b.y }).push(cr) =~= r);
            assert(loop_commands_spec(fwd, off + 4, 1, 1, verts, segs, f) == Some((f, off + 4)));
            assert(loop_commands_spec(bwd, off + 4, 1, 1, verts, segs, r) == Some((r, off + 4)));
            assert(loop_commands_spec(fwd, off, 0, 1, verts, segs, Seq::empty()) == Some((f, off + 4)));
            assert(loop_commands_spec(bwd, off, 0, 1, verts, segs, Seq::empty()) == Some((r, off + 4)));
        }
    }
}

/// A plain reference draws its segment forwards: a one-segment loop through
/// reference `i` moves to the segment's start vertex, then draws to its end
/// vertex, with the segment's start tangent at the start and its end tangent
/// at the end (a straight line when all four tangent components are zero).
pub proof fn law_forward_reference(s: Seq<u8>, off: int, verts: Seq<Vertex>, segs: Seq<Segment>, i: u32)
    requires
        i < 0x8000_0000,
        u32_at_spec(s, off) == Some(i),
        (i as int) < segs.len(),
        segs[i as int].start < verts.len(),
        segs[i as int].end < verts.len(),
    ensures
        ({
            let sg = segs[i as int];
            let a = verts[sg.start as int];
            let b = verts[sg.end as int];
            loop_commands_spec(s, off, 0, 1, verts, segs, Seq::empty()) == Some((
                seq![
                    PathCommand::MoveTo { x: a.x, y: a.y },
                    if zero_bits(sg.start_dx) && zero_bits(sg.start_dy) && zero_bits(sg.end_dx) && zero_bits(sg.end_dy) {
                        PathCommand::LineTo { x: b.x, y: b.y }
                    } else {
                        PathCommand::TangentCubicTo {
                            start_x: a.x,
                            start_y: a.y,
                            start_dx: sg.start_dx,
                            start_dy: sg.start_dy,
                            end_dx: sg.end_dx,
                            end_dy: sg.end_dy,
                            x: b.x,
                            y: b.y,
                        }
                    },
                ],
                off + 4,
            ))
        }),
{
    assert((i as int) % 0x8000_0000 == i as int);
    let sg = segs[i as int];
    let a = verts[sg.start as int];
    let b = verts[sg.end as int];
    let cf = segment_command(a, b, sg.start_dx, sg.start_dy, sg.end_dx, sg.end_dy);
    let f = seq![PathCommand::MoveTo { x: a.x, y: a.y }, cf];
    assert(Seq::<PathCommand>::empty().push(PathCommand::MoveTo { x: a.x, y: a.y }).push(cf) =~= f);
    assert(loop_commands_spec(s, off + 4, 1, 1, verts, segs, f) == Some((f, off + 4)));
}

/// The loops `l..lc` of a region from `off` on; every loop with commands
/// becomes a closed path with the region's winding rule and style.
pub open spec fn region_loops_spec(
    s: Seq<u8>, off: int, l: int, lc: int, verts: Seq<Vertex>, segs: Seq<Segment>,
    winding: WindingRule, style_id: u32, paths: Seq<GeometryPathView>,
) -> Option<(Seq<GeometryPathView>, int)>
    decreases lc - l,
{
    if l >= lc {
        Some((paths, off))
    } else {
        match u32_at_spec(s, off) {
            None => None,
            Some(cnt) => match loop_commands_spec(s, off + 4, 0, cnt as int, verts, segs, Seq::empty()) {
                None => None,
                Some((cmds, off2)) => {
                    let paths1 = if cmds.len() > 0 {
                        paths.push(GeometryPathView { commands: cmds.push(PathCommand::Close), winding_rule: winding, style_id })
                    } else {
                        paths
                    };
                    region_loops_spec(s, off2, l + 1, lc, verts, segs, winding, style_id, paths1)
                },
            },
        }
    }
}

/// The winding rule a region's style word selects: low bit set is non-zero.
pub open spec fn region_winding(rule: u32) -> WindingRule {
    if rule % 2 == 1 { WindingRule::NonZero } else { WindingRule::EvenOdd }
}

/// The regions `r..rc` from `off` on: a style word (style id in the upper
/// bits), a loop count, then the loops.
pub open spec fn regions_spec(
    s: Seq<u8>, off: int, r: int, rc: int, verts: Seq<Vertex>, segs: Seq<Segment>, paths: Seq<GeometryPathView>,
) -> Option<Seq<GeometryPathView>>
    decreases rc - r,
{
    if r >= rc {
        Some(paths)
    } else {
        match (u32_at_spec(s, off), u32_at_spec(s, off + 4)) {
            (Some(rule), Some(lc)) => match region_loops_spec(s, off + 8, 0, lc as int, verts, segs,
                region_winding(rule), rule / 2, paths) {
                None => None,
                Some((p2, off2)) => regions_spec(s, off2, r + 1, rc, verts, segs, p2),
            },
            _ => None,
        }
    }
}

/// The decoded vector-network blob: a header of vertex, segment and region
/// counts; counts that cannot fit in what follows are rejected up front.
pub open spec fn vector_blob(s: Seq<u8>) -> Option<Seq<GeometryPathView>> {
    match (u32_at_spec(s, 0), u32_at_spec(s, 4), u32_at_spec(s, 8)) {
        (Some(vc), Some(sc), Some(rc)) => {
            let remaining = s.len() - 12;
            if vc > remaining / 12 {
                None
            } else if sc > (remaining - vc * 12) / 28 {
                None
            } else {
                match read_vertices_spec(s, 12, 0, vc as int, Seq::empty()) {
                    None => None,
                    Some((verts, o1)) => match read_segments_spec(s, o1, 0, sc as int, Seq::empty()) {
                        None => None,
                        Some((segs, o2)) => regions_spec(s, o2, 0, rc as int, verts, segs, Seq::empty()),
                    },
                }
            }
        },
        _ => None,
    }
}

fn read_vertices(bytes: &[u8], offset: &mut usize, n: u32) -> (r: Option<Vec<Vertex>>)
    requires
        *old(offset) <= bytes@.len(),
    ensures
        *final(offset) <= bytes@.len(),
        match read_vertices_spec(bytes@, *old(offset) as int, 0, n as int, Seq::empty()) {
            Some((v, o)) => r is Some && r->0@ == v && *final(offset) == o,
            None => r is None,
        },
{
    let mut vertices: Vec<Vertex> = Vec::new();
    let ghost s = bytes@;
    let ghost o0 = *offset as int;
    let mut k: u32 = 0;
    while k < n
        invariant
            s == bytes@,
            o0 == *old(offset),
            *offset <= bytes@.len(),
            k <= n,
            read_vertices_spec(s, o0, 0, n as int, Seq::empty())
                == read_vertices_spec(s, *offset as int, k as int, n as int, vertices@),
        decreases n - k,
    {
        let _style = u32_at(bytes, offset)?;
        let x = f32_at(bytes, offset)?;
        let y = f32_at(bytes, offset)?;
        vertices.push(Vertex { x, y });
        k = k + 1;
    }
    Some(vertices)
}

fn read_segments(bytes: &[u8], offset: &mut usize, n: u32) -> (r: Option<Vec<Segment>>)
    requires
        *old(offset) <= bytes@.len(),
    ensures
        *final(offset) <= bytes@.len(),
        match read_segments_spec(bytes@, *old(offset) as int, 0, n as int, Seq::empty()) {
            Some((v, o)) => r is Some && r->0@ == v && *final(offset) == o,
            None => r is None,
        },
{
    let mut segments: Vec<Segment> = Vec::new();
    let ghost s = bytes@;
    let ghost o0 = *offset as int;
    let mut k: u32 = 0;
    while k < n
        invariant
            s == bytes@,
            o0 == *old(offset),
            *offset <= bytes@.len(),
            k <= n,
            read_segments_spec(s, o0, 0, n as int, Seq::empty())
                == read_segments_spec(s, *offset as int, k as int, n as int, segments@),
        decreases n - k,
    {
        let _style = u32_at(bytes, offset)?;
        let start = u32_at(bytes, offset)?;
        let start_dx = f32_at(bytes, offset)?;
        let start_dy = f32_at(bytes, offset)?;
        let end = u32_at(bytes, offset)?;
        let end_dx = f32_at(bytes, offset)?;
        let end_dy = f32_at(bytes, offset)?;
        segments.push(Segment { start, start_dx, start_dy, end, end_dx, end_dy });
        k = k + 1;
    }
    Some(segments)
}

fn loop_commands(bytes: &[u8], offset: &mut usize, count: u32, vertices: &Vec<Vertex>, segments: &Vec<Segment>) -> (r: Option<Vec<PathCommand>>)
    requires
        *old(offset) <= bytes@.len(),
    ensures
        *final(offset) <= bytes@.len(),
        match loop_commands_spec(bytes@, *old(offset) as int, 0, count as int, vertices@, segments@, Seq::empty()) {
            Some((c, o)) => r is Some && r->0@ == c && *final(offset) == o,
            None => r is None,
        },
{
    let mut commands: Vec<PathCommand> = Vec::new();
    let ghost s = bytes@;
    let ghost o0 = *offset as int;
    let mut index: u32 = 0;
    while index < count
        invariant
            s == bytes@,
            o0 == *old(offset),
            *offset <= bytes@.len(),
            index <= count,
            loop_commands_spec(s, o0, 0, count as int, vertices@, segments@, Seq::empty())
                == loop_commands_spec(s, *offset as int, index as int, count as int, vertices@, segments@, commands@),
        decreases count - index,
    {
        let raw = u32_at(bytes, offset)?;
        let reversed = raw >= 0x8000_0000;
        let segment_index = (raw % 0x8000_0000) as usize;
        if segment_index >= segments.len() {
            return None;
        }
        let segment = segments[segment_index];
        let (start_index, end_index, start_dx, start_dy, end_dx, end_dy) = if reversed {
            (segment.end, segment.start, segment.end_dx, segment.end_dy, segment.start_dx, segment.start_dy)
        } else {
            (segment.start, segment.end, segment.start_dx, segment.start_dy, segment.end_dx, segment.end_dy)
        };
        if start_index as usize >= vertices.len() || end_index as usize >= vertices.len() {
            return None;
        }
        let start = vertices[start_index as usize];
        let end = vertices[end_index as usize];
        if index == 0 {
            commands.push(PathCommand::MoveTo { x: start.x, y: start.y });
        }
        if start_dx % 0x8000_0000 == 0 && start_dy % 0x8000_0000 == 0 && end_dx % 0x8000_0000 == 0
            && end_dy % 0x8000_0000 == 0 {
            commands.push(PathCommand::LineTo { x: end.x, y: end.y });
        } else {
            commands.push(PathCommand::TangentCubicTo {
                start_x: start.x,
                start_y: start.y,
                start_dx,
                start_dy,
                end_dx,
                end_dy,
                x: end.x,
                y: end.y,
            });
        }
        index = index + 1;
    }
    Some(commands)
}

fn region_loops(
    bytes: &[u8], offset: &mut usize, loop_count: u32, vertices: &Vec<Vertex>, segments: &Vec<Segment>,
    winding: WindingRule, style_id: u32, paths: &mut Vec<GeometryPath>,
) -> (ok: bool)
    requires
        *old(offset) <= bytes@.len(),
    ensures
        *final(offset) <= bytes@.len(),
        match region_loops_spec(bytes@, *old(offset) as int, 0, loop_count as int, vertices@, segments@, winding,
            style_id, old(paths)@.map_values(|p: GeometryPath| p@)) {
            Some((ps, o)) => ok && final(paths)@.map_values(|p: GeometryPath| p@) == ps && *final(offset) == o,
            None => !ok,
        },
{
    let ghost s = bytes@;
    let ghost o0 = *offset as int;
    let ghost p0 = paths@.map_values(|p: GeometryPath| p@);
    let mut l: u32 = 0;
    while l < loop_count
        invariant
            s == bytes@,
            o0 == *old(offset),
            p0 == old(paths)@.map_values(|p: GeometryPath| p@),
            *offset <= bytes@.len(),
            l <= loop_count,
            region_loops_spec(s, o0, 0, loop_count as int, vertices@, segments@, winding, style_id, p0)
                == region_loops_spec(s, *offset as int, l as int, loop_count as int, vertices@, segments@, winding,
                    style_id, paths@.map_values(|p: GeometryPath| p@)),
        decreases loop_count - l,
    {
        let cnt = match u32_at(bytes, offset) {
            Some(c) => c,
            None => {
                return false;
            },
        };
        let mut commands = match loop_commands(bytes, offset, cnt, vertices, segments) {
            Some(c) => c,
            None => {
                return false;
            },
        };
        if commands.len() > 0 {
            commands.push(PathCommand::Close);
            let ghost before = paths@.map_values(|p: GeometryPath| p@);
            let path = GeometryPath { commands, winding_rule: winding, style_id };
            paths.push(path);
            assert(paths@.map_values(|p: GeometryPath| p@) =~= before.push(path@));
        }
        l = l + 1;
    }
    true
}

/// Decode a vector-network blob into closed paths, one per loop of each region.
pub fn decode_vector_blob(bytes: &[u8]) -> (r: Option<Vec<GeometryPath>>)
    ensures
        match vector_blob(bytes@) {
            Some(ps) => r is Some && r->0@.map_values(|p: GeometryPath| p@) == ps,
            None => r is None,
        },
{
    let mut offset: usize = 0;
    let vertex_count = u32_at(bytes, &mut offset)?;
    let segment_count = u32_at(bytes, &mut offset)?;
    let region_count = u32_at(bytes, &mut offset)?;
    let remaining = bytes.len() - offset;
    if vertex_count as usize > remaining / 12 {
        return None;
    }
    let remaining_after_vertices = remaining - vertex_count as usize * 12;
    if segment_count as usize > remaining_after_vertices / 28 {
        return None;
    }
    let vertices = read_vertices(bytes, &mut offset, vertex_count)?;
    let segments = read_segments(bytes, &mut offset, segment_count)?;
    let mut paths: Vec<GeometryPath> = Vec::new();
    let ghost s = bytes@;
    let ghost o2 = offset as int;
    let mut r: u32 = 0;
    assert(paths@.map_values(|p: GeometryPath| p@) =~= Seq::<GeometryPathView>::empty());
    while r < region_count
        invariant
            s == bytes@,
            vector_blob(s) == regions_spec(s, o2, 0, region_count as int, vertices@, segments@, Seq::empty()),
            offset <= bytes@.len(),
            r <= region_count,
            regions_spec(s, o2, 0, region_count as int, vertices@, segments@, Seq::empty())
                == regions_spec(s, offset as int, r as int, region_count as int, vertices@, segments@,
                    paths@.map_values(|p: GeometryPath| p@)),
        decreases region_count - r,
    {
        let style_rule = u32_at(bytes, &mut offset)?;
        let loop_count = u32_at(bytes, &mut offset)?;
        let style_id = style_rule / 2;
        let winding = if style_rule % 2 == 1 { WindingRule::NonZero } else { WindingRule::EvenOdd };
        if !region_loops(bytes, &mut offset, loop_count, &vertices, &segments, winding, style_id, &mut paths) {
            return None;
        }
        r = r + 1;
    }
    Some(paths)
}

} // verus!
