//! The streaming TinyVG parser.
//!
//! A [`Parser`] consumes a strictly growing prefix of its input, never
//! backtracking. The header fixes four context values — coordinate
//! range, color encoding, unit scale and color count — that every later
//! reader depends on; they are carried as plain fields.
//!
//! The wire-level meaning of each field is captured by spec functions
//! over the remaining byte sequence (`le_at`, `unit_at`, `point_at`,
//! ...), and each reader's contract states exactly which bytes it
//! consumes and what value those bytes denote.

use vstd::prelude::*;

use crate::error::ErrorKind;
use crate::error::ParseError;
use crate::format::Color;
use crate::format::ColorEncoding;
use crate::format::Command;
use crate::format::CoordinateRange;
use crate::format::Header;
use crate::format::Image;
use crate::format::Line;
use crate::format::OutlineStyle;
use crate::format::Point;
use crate::format::Rect;
use crate::format::Segment;
use crate::format::SegmentCommand;
use crate::format::SegmentCommandKind;
use crate::format::Style;
use crate::format::Sweep;
use crate::format::Unit;
use crate::format::color_matches_encoding;
use crate::format::color_wf;
use crate::format::command_wf;
use crate::format::image_wf;
use crate::format::path_wf;
use crate::format::segment_wf;
use crate::format::style_wf;
use crate::reader::ByteReader;
use crate::reader::varint_eof;
use crate::reader::varint_raw;
use crate::reader::varint_ok;
use crate::reader::varint_overflow;
use crate::reader::varint_size;
use crate::reader::varint_value;

verus! {

/// How many bytes one coordinate integer occupies under the range.
pub open spec fn cr_width(cr: CoordinateRange) -> int {
    match cr {
        CoordinateRange::Reduced => 1,
        CoordinateRange::Default => 2,
        CoordinateRange::Enhanced => 4,
    }
}

/// The unsigned little-endian value of the first `w` bytes of `s`,
/// for `w` in 1, 2, 4.
pub open spec fn le_at(s: Seq<u8>, w: int) -> int {
    if w == 1 {
        s[0] as int
    } else if w == 2 {
        s[0] + 256 * s[1]
    } else {
        s[0] + 256 * s[1] + 65536 * s[2] + 16777216 * s[3]
    }
}

/// Reinterpret an unsigned `w`-byte value as two's complement.
pub open spec fn sign_extend_val(v: int, w: int) -> int {
    if w == 1 {
        if v < 0x80 {
            v
        } else {
            v - 0x100
        }
    } else if w == 2 {
        if v < 0x8000 {
            v
        } else {
            v - 0x1_0000
        }
    } else {
        if v < 0x8000_0000 {
            v
        } else {
            v - 0x1_0000_0000
        }
    }
}

/// The signed fixed-point numerator carried by the first coordinate
/// integer of `s`.
pub open spec fn unit_at(s: Seq<u8>, cr: CoordinateRange) -> int {
    sign_extend_val(le_at(s, cr_width(cr)), cr_width(cr))
}

/// The point carried by the first `2 * cr_width` bytes of `s`.
pub open spec fn point_at(s: Seq<u8>, cr: CoordinateRange) -> Point {
    Point {
        x: Unit { raw: unit_at(s, cr) as i32 },
        y: Unit { raw: unit_at(s.skip(cr_width(cr)), cr) as i32 },
    }
}

/// The rectangle carried by the first `4 * cr_width` bytes of `s`.
pub open spec fn rect_at(s: Seq<u8>, cr: CoordinateRange) -> Rect {
    let w = cr_width(cr);
    Rect {
        x: Unit { raw: unit_at(s, cr) as i32 },
        y: Unit { raw: unit_at(s.skip(w), cr) as i32 },
        width: Unit { raw: unit_at(s.skip(2 * w), cr) as i32 },
        height: Unit { raw: unit_at(s.skip(3 * w), cr) as i32 },
    }
}

/// The line carried by the first `4 * cr_width` bytes of `s`.
pub open spec fn line_at(s: Seq<u8>, cr: CoordinateRange) -> Line {
    Line { p0: point_at(s, cr), p1: point_at(s.skip(2 * cr_width(cr)), cr) }
}

/// Every decoded unit numerator fits a 32-bit signed integer, whatever
/// the bytes: fractional values are always finite.
pub proof fn lemma_unit_fits(s: Seq<u8>, cr: CoordinateRange)
    requires
        s.len() >= cr_width(cr),
    ensures
        -0x8000_0000 <= unit_at(s, cr) < 0x8000_0000,
{
}

/// Within the `k`-th stride of width `w`, the quotient is `k`.
proof fn lemma_stride_quotient(n: int, w: int, k: int)
    requires
        w >= 1,
        k >= 0,
        k * w <= n,
        n < (k + 1) * w,
    ensures
        n / w == k,
{
    vstd::arithmetic::mul::lemma_mul_is_distributive_add_other_way(w, k, 1);
    vstd::arithmetic::div_mod::lemma_fundamental_div_mod_converse(n, w, k, n - k * w);
}

/// Shifting down by `k` whole strides lowers the quotient by `k`.
proof fn lemma_div_shift(n: int, w: int, k: int)
    requires
        w >= 1,
        k >= 0,
        k * w <= n,
    ensures
        n / w == (n - k * w) / w + k,
{
    let q = (n - k * w) / w;
    vstd::arithmetic::div_mod::lemma_fundamental_div_mod(n - k * w, w);
    vstd::arithmetic::mul::lemma_mul_is_distributive_add_other_way(w, q, k);
    vstd::arithmetic::div_mod::lemma_fundamental_div_mod_converse(
        n,
        w,
        q + k,
        (n - k * w) % w,
    );
}

/// The color encoding selected by a 2-bit field (3 is rejected before
/// this is applied).
pub open spec fn encoding_of(x: int) -> ColorEncoding {
    if x == 0 {
        ColorEncoding::Rgba8888
    } else if x == 1 {
        ColorEncoding::Rgb565
    } else {
        ColorEncoding::RgbaF32
    }
}

/// The coordinate range selected by a 2-bit field (3 is rejected before
/// this is applied).
pub open spec fn range_of(x: int) -> CoordinateRange {
    if x == 0 {
        CoordinateRange::Default
    } else if x == 1 {
        CoordinateRange::Reduced
    } else {
        CoordinateRange::Enhanced
    }
}

/// How many bytes one color occupies under the encoding.
pub open spec fn color_size(e: ColorEncoding) -> int {
    match e {
        ColorEncoding::Rgba8888 => 4,
        ColorEncoding::Rgb565 => 2,
        ColorEncoding::RgbaF32 => 16,
    }
}

/// The color carried by the first `color_size(e)` bytes of `s`.
pub open spec fn color_at(s: Seq<u8>, e: ColorEncoding) -> Color {
    match e {
        ColorEncoding::Rgba8888 => Color::Rgba8888 {
            red: s[0],
            green: s[1],
            blue: s[2],
            alpha: s[3],
        },
        ColorEncoding::Rgb565 => {
            let v = s[0] + 256 * s[1];
            Color::Rgb565 {
                red: (v % 32) as u8,
                green: ((v / 32) % 64) as u8,
                blue: ((v / 2048) % 32) as u8,
            }
        },
        ColorEncoding::RgbaF32 => Color::RgbaF32 {
            red: le_at(s, 4) as u32,
            green: le_at(s.skip(4), 4) as u32,
            blue: le_at(s.skip(8), 4) as u32,
            alpha: le_at(s.skip(12), 4) as u32,
        },
    }
}

/// The bytes at the front of `s` form a complete header: the magic
/// pair, a version byte, an accepted flags byte, a width and height
/// under the flags byte's coordinate range, and a color-count varint.
pub open spec fn header_decodes(s: Seq<u8>) -> bool {
    &&& s.len() >= 4
    &&& s[0] == 0x72
    &&& s[1] == 0x56
    &&& (s[3] / 4) % 4 != 3
    &&& s[3] % 4 != 3
    &&& s.len() >= 4 + 2 * cr_width(range_of((s[3] % 4) as int))
    &&& varint_ok(s.skip(4 + 2 * cr_width(range_of((s[3] % 4) as int))))
}

/// The header carried at the front of `s`, when `header_decodes(s)`.
pub open spec fn header_at(s: Seq<u8>) -> Header {
    let b = s[3];
    let cr = range_of((b % 4) as int);
    let w = cr_width(cr);
    Header {
        version: s[2],
        scale: (b / 16) as u8,
        color_encoding: encoding_of(((b / 4) % 4) as int),
        coordinate_range: cr,
        width: le_at(s.skip(4), w) as u32,
        height: le_at(s.skip(4 + w), w) as u32,
        color_count: varint_value(s.skip(4 + 2 * w)) as u32,
    }
}

/// The error kind a failed header decode reports, by the first rule it
/// breaks: wrong magic, bytes running out, rejected flag bits, or an
/// unacceptable color-count varint.
pub open spec fn header_fail_kind(s: Seq<u8>) -> ErrorKind {
    if s.len() >= 2 && !(s[0] == 0x72 && s[1] == 0x56) {
        ErrorKind::BadMagic
    } else if s.len() < 4 {
        ErrorKind::UnexpectedEof
    } else if (s[3] / 4) % 4 == 3 || s[3] % 4 == 3 {
        ErrorKind::UnsupportedEncoding
    } else if s.len() < 4 + 2 * cr_width(range_of((s[3] % 4) as int)) {
        ErrorKind::UnexpectedEof
    } else if varint_eof(s.skip(4 + 2 * cr_width(range_of((s[3] % 4) as int)))) {
        ErrorKind::UnexpectedEof
    } else {
        ErrorKind::VarintOverflow
    }
}

/// The error kind the whole header phase (header and color table)
/// reports on the input at the front of `s`, when it fails: a header
/// failure's own kind, a color count the remaining input cannot
/// possibly supply, or bytes running out inside the color table.
pub open spec fn header_phase_fail_kind(s: Seq<u8>) -> ErrorKind {
    if !header_decodes(s) {
        header_fail_kind(s)
    } else {
        let after = s.skip(header_size(s));
        if header_at(s).color_count as int > after.len() {
            ErrorKind::ResourceExhausted
        } else {
            ErrorKind::UnexpectedEof
        }
    }
}

/// How many bytes the header at the front of `s` occupies, when
/// `header_decodes(s)`.
pub open spec fn header_size(s: Seq<u8>) -> int {
    let w = cr_width(range_of((s[3] % 4) as int));
    4 + 2 * w + varint_size(s.skip(4 + 2 * w))
}

/// A style variant tag decoded from two bits; 3 is reserved and
/// rejected.
#[derive(Debug, PartialEq, Eq, Structural, Clone, Copy)]
pub enum StyleVariant {
    /// A single color from the table.
    FlatColor,
    /// A linear gradient between two points.
    LinearGradient,
    /// A radial gradient between two points.
    RadialGradient,
}

/// How many bytes the style at the front of `s` occupies, when it
/// decodes.
pub open spec fn style_size(s: Seq<u8>, v: StyleVariant, cr: CoordinateRange) -> int {
    match v {
        StyleVariant::FlatColor => varint_size(s),
        _ => {
            let w4 = 4 * cr_width(cr);
            let n0 = varint_size(s.skip(w4));
            w4 + n0 + varint_size(s.skip(w4 + n0))
        },
    }
}

/// The bytes at the front of `s` form a complete style of the given
/// variant whose color indices lie inside a table of `cc` colors.
pub open spec fn style_decodes(s: Seq<u8>, v: StyleVariant, cr: CoordinateRange, cc: u32) -> bool {
    match v {
        StyleVariant::FlatColor => varint_ok(s) && varint_value(s) < cc as nat,
        _ => {
            let w4 = 4 * cr_width(cr);
            let s0 = s.skip(w4);
            let s1 = s.skip(w4 + varint_size(s0));
            &&& s.len() >= w4
            &&& varint_ok(s0)
            &&& varint_value(s0) < cc as nat
            &&& varint_ok(s1)
            &&& varint_value(s1) < cc as nat
        },
    }
}

/// The style carried at the front of `s`, when it decodes.
pub open spec fn style_at(s: Seq<u8>, v: StyleVariant, cr: CoordinateRange) -> Style {
    match v {
        StyleVariant::FlatColor => Style::FlatColor {
            color_index: varint_value(s) as usize,
        },
        StyleVariant::LinearGradient => {
            let w4 = 4 * cr_width(cr);
            let s0 = s.skip(w4);
            let s1 = s.skip(w4 + varint_size(s0));
            Style::LinearGradient {
                point_0: point_at(s, cr),
                point_1: point_at(s.skip(2 * cr_width(cr)), cr),
                color_index_0: varint_value(s0) as usize,
                color_index_1: varint_value(s1) as usize,
            }
        },
        StyleVariant::RadialGradient => {
            let w4 = 4 * cr_width(cr);
            let s0 = s.skip(w4);
            let s1 = s.skip(w4 + varint_size(s0));
            Style::RadialGradient {
                point_0: point_at(s, cr),
                point_1: point_at(s.skip(2 * cr_width(cr)), cr),
                color_index_0: varint_value(s0) as usize,
                color_index_1: varint_value(s1) as usize,
            }
        },
    }
}

/// A path segment instruction tag, the low three bits of its tag byte.
#[derive(Debug, PartialEq, Eq, Structural, Clone, Copy)]
enum SegmentCommandVariant {
    Line,
    HorizontalLine,
    VerticalLine,
    CubicBezier,
    ArcCircle,
    ArcEllipse,
    ClosePath,
    QuadraticBezier,
}

/// The instruction selected by the low three bits of a tag byte; all
/// eight values are assigned.
spec fn seg_variant_of(x: int) -> SegmentCommandVariant {
    if x == 0 {
        SegmentCommandVariant::Line
    } else if x == 1 {
        SegmentCommandVariant::HorizontalLine
    } else if x == 2 {
        SegmentCommandVariant::VerticalLine
    } else if x == 3 {
        SegmentCommandVariant::CubicBezier
    } else if x == 4 {
        SegmentCommandVariant::ArcCircle
    } else if x == 5 {
        SegmentCommandVariant::ArcEllipse
    } else if x == 6 {
        SegmentCommandVariant::ClosePath
    } else {
        SegmentCommandVariant::QuadraticBezier
    }
}

/// One segment instruction tag: the instruction and, when bit 3 of the
/// tag byte was set, the stroke-width override that followed it.
struct SegmentCommandTag {
    instruction: SegmentCommandVariant,
    line_width: Option<Unit>,
}

/// How many bytes the geometry of segment instruction `instr` occupies.
pub open spec fn seg_body_size(instr: int, cr: CoordinateRange) -> int {
    let w = cr_width(cr);
    if instr == 0 {
        2 * w
    } else if instr == 1 {
        w
    } else if instr == 2 {
        w
    } else if instr == 3 {
        6 * w
    } else if instr == 4 {
        1 + 3 * w
    } else if instr == 5 {
        1 + 5 * w
    } else if instr == 6 {
        0
    } else {
        4 * w
    }
}

/// The geometry of segment instruction `instr` carried at the front of
/// `s`.
#[verifier::opaque]
pub open spec fn seg_kind_at(instr: int, s: Seq<u8>, cr: CoordinateRange) -> SegmentCommandKind {
    let w = cr_width(cr);
    if instr == 0 {
        SegmentCommandKind::Line { end: point_at(s, cr) }
    } else if instr == 1 {
        SegmentCommandKind::HorizontalLine { x: Unit { raw: unit_at(s, cr) as i32 } }
    } else if instr == 2 {
        SegmentCommandKind::VerticalLine { y: Unit { raw: unit_at(s, cr) as i32 } }
    } else if instr == 3 {
        SegmentCommandKind::CubicBezier {
            control_0: point_at(s, cr),
            control_1: point_at(s.skip(2 * w), cr),
            point_1: point_at(s.skip(4 * w), cr),
        }
    } else if instr == 4 {
        SegmentCommandKind::ArcCircle {
            large: s[0] >= 128,
            sweep: if (s[0] / 64) % 2 == 1 {
                Sweep::Left
            } else {
                Sweep::Right
            },
            radius: Unit { raw: unit_at(s.skip(1), cr) as i32 },
            target: point_at(s.skip(1 + w), cr),
        }
    } else if instr == 5 {
        SegmentCommandKind::ArcEllipse {
            large: s[0] >= 128,
            sweep: if (s[0] / 64) % 2 == 1 {
                Sweep::Left
            } else {
                Sweep::Right
            },
            radius_x: Unit { raw: unit_at(s.skip(1), cr) as i32 },
            radius_y: Unit { raw: unit_at(s.skip(1 + w), cr) as i32 },
            rotation: Unit { raw: unit_at(s.skip(1 + 2 * w), cr) as i32 },
            target: point_at(s.skip(1 + 3 * w), cr),
        }
    } else if instr == 6 {
        SegmentCommandKind::ClosePath
    } else {
        SegmentCommandKind::QuadraticBezier {
            control: point_at(s, cr),
            point_1: point_at(s.skip(2 * w), cr),
        }
    }
}

/// How many bytes one whole segment instruction occupies: the tag byte,
/// the optional width override, and the geometry.
pub open spec fn seg_cmd_size(s: Seq<u8>, cr: CoordinateRange) -> int {
    1 + (if (s[0] / 8) % 2 == 1 {
        cr_width(cr)
    } else {
        0
    }) + seg_body_size((s[0] % 8) as int, cr)
}

/// The bytes at the front of `s` form one complete segment instruction.
pub open spec fn seg_cmd_decodes(s: Seq<u8>, cr: CoordinateRange) -> bool {
    s.len() >= 1 && s.len() >= seg_cmd_size(s, cr)
}

/// The segment instruction carried at the front of `s`, when it
/// decodes.
pub open spec fn seg_cmd_at(s: Seq<u8>, cr: CoordinateRange) -> SegmentCommand {
    let b = s[0];
    let wofs = if (b / 8) % 2 == 1 {
        1 + cr_width(cr)
    } else {
        1
    };
    SegmentCommand {
        kind: seg_kind_at((b % 8) as int, s.skip(wofs), cr),
        line_width: if (b / 8) % 2 == 1 {
            Some(Unit { raw: unit_at(s.skip(1), cr) as i32 })
        } else {
            None
        },
    }
}

/// The bytes at the front of `s` form `n` complete segment
/// instructions, one after the other.
pub open spec fn seg_cmds_decode(s: Seq<u8>, cr: CoordinateRange, n: nat) -> bool
    decreases n,
{
    n == 0 || (seg_cmd_decodes(s, cr) && seg_cmds_decode(
        s.skip(seg_cmd_size(s, cr)),
        cr,
        (n - 1) as nat,
    ))
}

/// The `n` segment instructions carried at the front of `s`, when they
/// decode.
pub open spec fn seg_cmds_at(s: Seq<u8>, cr: CoordinateRange, n: nat) -> Seq<SegmentCommand>
    decreases n,
{
    if n == 0 {
        Seq::empty()
    } else {
        seq![seg_cmd_at(s, cr)].add(seg_cmds_at(s.skip(seg_cmd_size(s, cr)), cr, (n - 1) as nat))
    }
}

/// How many bytes `n` segment instructions at the front of `s` occupy,
/// when they decode.
pub open spec fn seg_cmds_size(s: Seq<u8>, cr: CoordinateRange, n: nat) -> int
    decreases n,
{
    if n == 0 {
        0
    } else {
        seg_cmd_size(s, cr) + seg_cmds_size(s.skip(seg_cmd_size(s, cr)), cr, (n - 1) as nat)
    }
}

/// The bytes at the front of `s` form one complete segment of `n`
/// instructions: a start point, then the instructions.
pub open spec fn segment_decodes(s: Seq<u8>, cr: CoordinateRange, n: nat) -> bool {
    s.len() >= 2 * cr_width(cr) && seg_cmds_decode(s.skip(2 * cr_width(cr)), cr, n)
}

/// How many bytes one segment of `n` instructions at the front of `s`
/// occupies, when it decodes.
pub open spec fn segment_size(s: Seq<u8>, cr: CoordinateRange, n: nat) -> int {
    2 * cr_width(cr) + seg_cmds_size(s.skip(2 * cr_width(cr)), cr, n)
}

/// The bytes at the front of `s` form `n` path length prefixes: each a
/// varint plus one, bounded against the input that remains after it.
pub open spec fn lengths_decode(s: Seq<u8>, n: nat) -> bool
    decreases n,
{
    n == 0 || (varint_ok(s) && varint_value(s) + 1 <= s.len() - varint_size(s) && lengths_decode(
        s.skip(varint_size(s)),
        (n - 1) as nat,
    ))
}

/// The `n` declared segment lengths at the front of `s` (each a varint
/// plus one), when they decode.
pub open spec fn lengths_at(s: Seq<u8>, n: nat) -> Seq<int>
    decreases n,
{
    if n == 0 {
        Seq::empty()
    } else {
        seq![varint_value(s) as int + 1].add(lengths_at(s.skip(varint_size(s)), (n - 1) as nat))
    }
}

/// How many bytes the `n` length prefixes occupy, when they decode.
pub open spec fn lengths_size(s: Seq<u8>, n: nat) -> int
    decreases n,
{
    if n == 0 {
        0
    } else {
        varint_size(s) + lengths_size(s.skip(varint_size(s)), (n - 1) as nat)
    }
}

/// The bytes at the front of `s` form one segment per declared length,
/// one after the other.
pub open spec fn segments_decode(s: Seq<u8>, cr: CoordinateRange, ls: Seq<int>) -> bool
    decreases ls.len(),
{
    ls.len() == 0 || (ls[0] >= 0 && segment_decodes(s, cr, ls[0] as nat) && segments_decode(
        s.skip(segment_size(s, cr, ls[0] as nat)),
        cr,
        ls.drop_first(),
    ))
}

/// How many bytes the segments with the declared lengths occupy, when
/// they decode.
pub open spec fn segments_size(s: Seq<u8>, cr: CoordinateRange, ls: Seq<int>) -> int
    decreases ls.len(),
{
    if ls.len() == 0 {
        0
    } else {
        segment_size(s, cr, ls[0] as nat) + segments_size(
            s.skip(segment_size(s, cr, ls[0] as nat)),
            cr,
            ls.drop_first(),
        )
    }
}

/// The parsed segments are exactly those the bytes at the front of `s`
/// denote under the declared lengths: one per length, in order, each
/// with its start point and instruction list.
pub open spec fn segments_match(v: Seq<Segment>, s: Seq<u8>, cr: CoordinateRange, ls: Seq<int>) -> bool
    decreases ls.len(),
{
    v.len() == ls.len() && (ls.len() == 0 || ({
        &&& v[0].start == point_at(s, cr)
        &&& v[0].commands@ == seg_cmds_at(s.skip(2 * cr_width(cr)), cr, ls[0] as nat)
        &&& v[0].commands@.len() == ls[0]
        &&& segments_match(
            v.drop_first(),
            s.skip(segment_size(s, cr, ls[0] as nat)),
            cr,
            ls.drop_first(),
        )
    }))
}

/// The bytes at the front of `s` form one complete path of `n`
/// segments: the length prefixes, then the segments.
pub open spec fn path_decodes(s: Seq<u8>, cr: CoordinateRange, n: nat) -> bool {
    lengths_decode(s, n) && segments_decode(s.skip(lengths_size(s, n)), cr, lengths_at(s, n))
}

/// How many bytes the whole path occupies, when it decodes.
pub open spec fn path_size(s: Seq<u8>, cr: CoordinateRange, n: nat) -> int {
    lengths_size(s, n) + segments_size(s.skip(lengths_size(s, n)), cr, lengths_at(s, n))
}

/// The parsed segments are exactly those the path at the front of `s`
/// denotes.
pub open spec fn path_match(v: Seq<Segment>, s: Seq<u8>, cr: CoordinateRange, n: nat) -> bool {
    segments_match(v, s.skip(lengths_size(s, n)), cr, lengths_at(s, n))
}

/// Decodable instruction runs occupy a nonnegative number of bytes, no
/// more than the input holds.
proof fn lemma_seg_cmds_size_bounds(s: Seq<u8>, cr: CoordinateRange, n: nat)
    requires
        seg_cmds_decode(s, cr, n),
    ensures
        0 <= seg_cmds_size(s, cr, n) <= s.len(),
    decreases n,
{
    if n > 0 {
        assert(seg_body_size((s[0] % 8) as int, cr) >= 0);
        lemma_seg_cmds_size_bounds(s.skip(seg_cmd_size(s, cr)), cr, (n - 1) as nat);
    }
}

/// Decodable segment lists occupy a nonnegative number of bytes, no
/// more than the input holds.
proof fn lemma_segments_size_bounds(s: Seq<u8>, cr: CoordinateRange, ls: Seq<int>)
    requires
        segments_decode(s, cr, ls),
    ensures
        0 <= segments_size(s, cr, ls) <= s.len(),
    decreases ls.len(),
{
    if ls.len() > 0 {
        lemma_seg_cmds_size_bounds(s.skip(2 * cr_width(cr)), cr, ls[0] as nat);
        lemma_segments_size_bounds(
            s.skip(segment_size(s, cr, ls[0] as nat)),
            cr,
            ls.drop_first(),
        );
    }
}

/// A decoded varint occupies between one byte and the whole input.
proof fn lemma_varint_size_bounds(s: Seq<u8>)
    ensures
        varint_raw(s) matches Some(p) ==> 1 <= p.1 <= s.len(),
    decreases s.len(),
{
    if s.len() > 0 && s[0] >= 128 {
        lemma_varint_size_bounds(s.skip(1));
    }
}

/// Decodable length prefixes occupy a nonnegative number of bytes, no
/// more than the input holds.
proof fn lemma_lengths_size_bounds(s: Seq<u8>, n: nat)
    requires
        lengths_decode(s, n),
    ensures
        0 <= lengths_size(s, n) <= s.len(),
    decreases n,
{
    if n > 0 {
        lemma_varint_size_bounds(s);
        lemma_lengths_size_bounds(s.skip(varint_size(s)), (n - 1) as nat);
    }
}

/// Every declared segment length is at least one: the wire stores each
/// as a count minus one.
proof fn lemma_lengths_at_pos(s: Seq<u8>, n: nat)
    ensures
        forall|i: int| 0 <= i < lengths_at(s, n).len() ==> #[trigger] lengths_at(s, n)[i] >= 1,
        lengths_at(s, n).len() == n,
    decreases n,
{
    if n > 0 {
        lemma_lengths_at_pos(s.skip(varint_size(s)), (n - 1) as nat);
    }
}

/// A matched segment list pins each element's instruction count to its
/// declared length.
proof fn lemma_segments_match_pointwise(v: Seq<Segment>, s: Seq<u8>, cr: CoordinateRange, ls: Seq<int>)
    requires
        segments_match(v, s, cr, ls),
    ensures
        forall|i: int| 0 <= i < ls.len() ==> (#[trigger] v[i]).commands@.len() == ls[i],
    decreases ls.len(),
{
    if ls.len() > 0 {
        lemma_segments_match_pointwise(
            v.drop_first(),
            s.skip(segment_size(s, cr, ls[0] as nat)),
            cr,
            ls.drop_first(),
        );
        assert forall|i: int| 0 <= i < ls.len() implies (#[trigger] v[i]).commands@.len()
            == ls[i] by {
            if i > 0 {
                assert(v.drop_first()[i - 1] == v[i]);
                assert(ls.drop_first()[i - 1] == ls[i]);
            }
        }
    }
}

/// Appending one more matched segment extends a matched list, and the
/// consumed sizes add up.
proof fn lemma_segments_match_snoc(
    v: Seq<Segment>,
    s: Seq<u8>,
    cr: CoordinateRange,
    ls: Seq<int>,
    seg: Segment,
    l: int,
)
    requires
        segments_decode(s, cr, ls),
        segments_match(v, s, cr, ls),
        l >= 0,
        segment_decodes(s.skip(segments_size(s, cr, ls)), cr, l as nat),
        ({
            let t = s.skip(segments_size(s, cr, ls));
            &&& seg.start == point_at(t, cr)
            &&& seg.commands@ == seg_cmds_at(t.skip(2 * cr_width(cr)), cr, l as nat)
            &&& seg.commands@.len() == l
        }),
    ensures
        segments_decode(s, cr, ls.push(l)),
        segments_match(v.push(seg), s, cr, ls.push(l)),
        segments_size(s, cr, ls.push(l)) == segments_size(s, cr, ls) + segment_size(
            s.skip(segments_size(s, cr, ls)),
            cr,
            l as nat,
        ),
    decreases ls.len(),
{
    lemma_segments_size_bounds(s, cr, ls);
    if ls.len() == 0 {
        assert(s.skip(segments_size(s, cr, ls)) =~= s);
        assert(ls.push(l)[0] == l);
        assert(v.push(seg)[0] == seg);
        assert(v.push(seg).drop_first() =~= Seq::<Segment>::empty());
        assert(ls.push(l).drop_first() =~= Seq::<int>::empty());
        assert(segments_decode(s, cr, ls.push(l))) by {
            assert(segments_decode(
                s.skip(segment_size(s, cr, l as nat)),
                cr,
                ls.push(l).drop_first(),
            ));
        }
        assert(segments_match(v.push(seg), s, cr, ls.push(l))) by {
            assert(segments_match(
                v.push(seg).drop_first(),
                s.skip(segment_size(s, cr, l as nat)),
                cr,
                ls.push(l).drop_first(),
            ));
        }
        assert(segments_size(s, cr, ls) == 0);
        assert(segments_size(s.skip(segment_size(s, cr, l as nat)), cr, ls.push(l).drop_first())
            == 0);
        assert(segments_size(s, cr, ls.push(l)) == segment_size(s, cr, l as nat) + segments_size(
            s.skip(segment_size(s, cr, l as nat)),
            cr,
            ls.push(l).drop_first(),
        ));
    } else {
        let sz0 = segment_size(s, cr, ls[0] as nat);
        let s1 = s.skip(sz0);
        lemma_seg_cmds_size_bounds(s.skip(2 * cr_width(cr)), cr, ls[0] as nat);
        lemma_segments_size_bounds(s1, cr, ls.drop_first());
        assert(s1.skip(segments_size(s1, cr, ls.drop_first())) =~= s.skip(
            segments_size(s, cr, ls),
        ));
        lemma_segments_match_snoc(v.drop_first(), s1, cr, ls.drop_first(), seg, l);
        assert(v.push(seg).drop_first() =~= v.drop_first().push(seg));
        assert(ls.push(l).drop_first() =~= ls.drop_first().push(l));
        assert(ls.push(l)[0] == ls[0]);
        assert(v.push(seg)[0] == v[0]);
        assert(segments_decode(s, cr, ls.push(l))) by {
            assert(segment_size(s, cr, ls.push(l)[0] as nat) == sz0);
            assert(segments_decode(s1, cr, ls.push(l).drop_first()));
        }
        assert(segments_match(v.push(seg), s, cr, ls.push(l))) by {
            assert(segment_size(s, cr, ls.push(l)[0] as nat) == sz0);
            assert(segments_match(v.push(seg).drop_first(), s1, cr, ls.push(l).drop_first()));
        }
        assert(segments_size(s, cr, ls.push(l)) == sz0 + segments_size(
            s1,
            cr,
            ls.push(l).drop_first(),
        ));
        assert(segments_size(s1, cr, ls.push(l).drop_first()) == segments_size(
            s1,
            cr,
            ls.drop_first(),
        ) + segment_size(s1.skip(segments_size(s1, cr, ls.drop_first())), cr, l as nat));
        assert(segments_size(s, cr, ls) == sz0 + segments_size(s1, cr, ls.drop_first()));
    }
}

/// The style variant selected by a two-bit tag (3 is rejected before
/// this is applied).
pub open spec fn style_variant_of(x: int) -> StyleVariant {
    if x == 0 {
        StyleVariant::FlatColor
    } else if x == 1 {
        StyleVariant::LinearGradient
    } else {
        StyleVariant::RadialGradient
    }
}

/// The command came from the wire opcode `tag`: the wire's separate
/// outline-bearing opcodes map to a present `outline`, and the line
/// loop and strip opcodes to the `close_path` flag.
spec fn command_tag_shape(c: Command, tag: int) -> bool {
    match c {
        Command::FillPolygon { outline, .. } => if outline is None {
            tag == 1
        } else {
            tag == 8
        },
        Command::FillRectangles { outline, .. } => if outline is None {
            tag == 2
        } else {
            tag == 9
        },
        Command::FillPath { outline, .. } => if outline is None {
            tag == 3
        } else {
            tag == 10
        },
        Command::DrawLines { .. } => tag == 4,
        Command::DrawLineLoop { close_path, .. } => if close_path {
            tag == 5
        } else {
            tag == 6
        },
        Command::DrawLinePath { .. } => tag == 7,
    }
}

/// The header and color table of `img` are exactly what the front of
/// `s` carries.
pub open spec fn prefix_decoded(img: Image, s: Seq<u8>) -> bool {
    let after = s.skip(header_size(s));
    let cc = img.header.color_count as int;
    let cs = color_size(img.header.color_encoding);
    &&& header_decodes(s)
    &&& img.header == header_at(s)
    &&& cc <= after.len()
    &&& after.len() >= cc * cs
    &&& img.color_table@.len() == cc
    &&& forall|i: int|
        0 <= i < cc ==> #[trigger] img.color_table@[i] == color_at(
            after.skip(i * cs),
            img.header.color_encoding,
        )
}

/// A count prefix, a style, then count-plus-one items of the given
/// byte stride: the layout of the plain fill-polygon and
/// fill-rectangles commands.
pub open spec fn counted_items_decodes(
    s: Seq<u8>,
    v: StyleVariant,
    cr: CoordinateRange,
    cc: u32,
    stride: int,
) -> bool {
    let s1 = s.skip(varint_size(s));
    let s2 = s1.skip(style_size(s1, v, cr));
    &&& varint_ok(s)
    &&& varint_value(s) + 1 <= s.len() - varint_size(s)
    &&& style_decodes(s1, v, cr, cc)
    &&& s2.len() >= (varint_value(s) + 1) * stride
}

/// How many bytes that layout occupies, when it decodes.
pub open spec fn counted_items_size(s: Seq<u8>, v: StyleVariant, cr: CoordinateRange, stride: int) -> int {
    let s1 = s.skip(varint_size(s));
    varint_size(s) + style_size(s1, v, cr) + (varint_value(s) as int + 1) * stride
}

/// A count prefix, a style, a stroke width, then count-plus-one items
/// of the given stride: the layout of the line-drawing commands.
pub open spec fn stroked_items_decodes(
    s: Seq<u8>,
    v: StyleVariant,
    cr: CoordinateRange,
    cc: u32,
    stride: int,
) -> bool {
    let s1 = s.skip(varint_size(s));
    let s2 = s1.skip(style_size(s1, v, cr));
    &&& varint_ok(s)
    &&& varint_value(s) + 1 <= s.len() - varint_size(s)
    &&& style_decodes(s1, v, cr, cc)
    &&& s2.len() >= cr_width(cr)
    &&& s2.skip(cr_width(cr)).len() >= (varint_value(s) + 1) * stride
}

/// How many bytes that layout occupies, when it decodes.
pub open spec fn stroked_items_size(s: Seq<u8>, v: StyleVariant, cr: CoordinateRange, stride: int) -> int {
    let s1 = s.skip(varint_size(s));
    varint_size(s) + style_size(s1, v, cr) + cr_width(cr) + (varint_value(s) as int + 1) * stride
}

/// A count prefix, a style, then a path of count-plus-one segments:
/// the layout of the plain fill-path command.
pub open spec fn counted_path_decodes(s: Seq<u8>, v: StyleVariant, cr: CoordinateRange, cc: u32) -> bool {
    let s1 = s.skip(varint_size(s));
    let s2 = s1.skip(style_size(s1, v, cr));
    &&& varint_ok(s)
    &&& varint_value(s) + 1 <= s.len() - varint_size(s)
    &&& style_decodes(s1, v, cr, cc)
    &&& path_decodes(s2, cr, (varint_value(s) + 1) as nat)
}

/// How many bytes that layout occupies, when it decodes.
pub open spec fn counted_path_size(s: Seq<u8>, v: StyleVariant, cr: CoordinateRange) -> int {
    let s1 = s.skip(varint_size(s));
    let s2 = s1.skip(style_size(s1, v, cr));
    varint_size(s) + style_size(s1, v, cr) + path_size(s2, cr, (varint_value(s) + 1) as nat)
}

/// A count prefix, a style, a stroke width, then a path of
/// count-plus-one segments: the layout of the draw-line-path command.
pub open spec fn stroked_path_decodes(s: Seq<u8>, v: StyleVariant, cr: CoordinateRange, cc: u32) -> bool {
    let s1 = s.skip(varint_size(s));
    let s2 = s1.skip(style_size(s1, v, cr));
    let s3 = s2.skip(cr_width(cr));
    &&& varint_ok(s)
    &&& varint_value(s) + 1 <= s.len() - varint_size(s)
    &&& style_decodes(s1, v, cr, cc)
    &&& s2.len() >= cr_width(cr)
    &&& path_decodes(s3, cr, (varint_value(s) + 1) as nat)
}

/// How many bytes that layout occupies, when it decodes.
pub open spec fn stroked_path_size(s: Seq<u8>, v: StyleVariant, cr: CoordinateRange) -> int {
    let s1 = s.skip(varint_size(s));
    let s2 = s1.skip(style_size(s1, v, cr));
    let s3 = s2.skip(cr_width(cr));
    varint_size(s) + style_size(s1, v, cr) + cr_width(cr) + path_size(
        s3,
        cr,
        (varint_value(s) + 1) as nat,
    )
}

/// The shared front of every outlined command: the
/// count-and-secondary-style byte, the fill style under the primary
/// tag, the stroke style under the secondary tag, and the stroke
/// width.
#[verifier::opaque]
pub open spec fn outline_prelude_decodes(s: Seq<u8>, pv: StyleVariant, cr: CoordinateRange, cc: u32) -> bool {
    let sv = style_variant_of((s[0] / 64) as int);
    let s1 = s.skip(1);
    let s2 = s1.skip(style_size(s1, pv, cr));
    let s3 = s2.skip(style_size(s2, sv, cr));
    &&& s.len() >= 1
    &&& s[0] / 64 <= 2
    &&& style_decodes(s1, pv, cr, cc)
    &&& style_decodes(s2, sv, cr, cc)
    &&& s3.len() >= cr_width(cr)
}

/// How many bytes that shared front occupies, when it decodes.
#[verifier::opaque]
pub open spec fn outline_prelude_size(s: Seq<u8>, pv: StyleVariant, cr: CoordinateRange) -> int {
    let sv = style_variant_of((s[0] / 64) as int);
    let s1 = s.skip(1);
    let s2 = s1.skip(style_size(s1, pv, cr));
    1 + style_size(s1, pv, cr) + style_size(s2, sv, cr) + cr_width(cr)
}

/// The outlined-command front, then low-six-bits-plus-one items of the
/// given stride: the layout of the outlined polygon and rectangle
/// commands.
pub open spec fn outline_items_decodes(
    s: Seq<u8>,
    pv: StyleVariant,
    cr: CoordinateRange,
    cc: u32,
    stride: int,
) -> bool {
    &&& outline_prelude_decodes(s, pv, cr, cc)
    &&& s.skip(outline_prelude_size(s, pv, cr)).len() >= (s[0] % 64 + 1) * stride
}

/// How many bytes that layout occupies, when it decodes.
pub open spec fn outline_items_size(s: Seq<u8>, pv: StyleVariant, cr: CoordinateRange, stride: int) -> int {
    outline_prelude_size(s, pv, cr) + (s[0] % 64 + 1) * stride
}

/// The outlined-command front, then a path of exactly low-six-bits
/// segments (no plus one): the layout of the outlined fill-path
/// command.
pub open spec fn outline_path_decodes(s: Seq<u8>, pv: StyleVariant, cr: CoordinateRange, cc: u32) -> bool {
    &&& outline_prelude_decodes(s, pv, cr, cc)
    &&& path_decodes(s.skip(outline_prelude_size(s, pv, cr)), cr, (s[0] % 64) as nat)
}

/// How many bytes that layout occupies, when it decodes.
pub open spec fn outline_path_size(s: Seq<u8>, pv: StyleVariant, cr: CoordinateRange) -> int {
    outline_prelude_size(s, pv, cr) + path_size(
        s.skip(outline_prelude_size(s, pv, cr)),
        cr,
        (s[0] % 64) as nat,
    )
}

/// The command is what a plain fill-polygon body at the front of `s`
/// denotes.
pub open spec fn fill_polygon_matches(c: Command, s: Seq<u8>, v: StyleVariant, cr: CoordinateRange) -> bool {
    let s1 = s.skip(varint_size(s));
    let s2 = s1.skip(style_size(s1, v, cr));
    let n = varint_value(s) + 1;
    let ps = 2 * cr_width(cr);
    c matches Command::FillPolygon { fill_style, polygon, outline } && fill_style == style_at(
        s1,
        v,
        cr,
    ) && outline is None && polygon@.len() == n && (forall|i: int|
        0 <= i < n ==> #[trigger] polygon@[i] == point_at(s2.skip(i * ps), cr))
}

/// The command is what a plain fill-rectangles body at the front of
/// `s` denotes.
pub open spec fn fill_rectangles_matches(c: Command, s: Seq<u8>, v: StyleVariant, cr: CoordinateRange) -> bool {
    let s1 = s.skip(varint_size(s));
    let s2 = s1.skip(style_size(s1, v, cr));
    let n = varint_value(s) + 1;
    let rs = 4 * cr_width(cr);
    c matches Command::FillRectangles { fill_style, rectangles, outline } && fill_style == style_at(
        s1,
        v,
        cr,
    ) && outline is None && rectangles@.len() == n && (forall|i: int|
        0 <= i < n ==> #[trigger] rectangles@[i] == rect_at(s2.skip(i * rs), cr))
}

/// The command is what a plain fill-path body at the front of `s`
/// denotes.
pub open spec fn fill_path_matches(c: Command, s: Seq<u8>, v: StyleVariant, cr: CoordinateRange) -> bool {
    let s1 = s.skip(varint_size(s));
    let s2 = s1.skip(style_size(s1, v, cr));
    c matches Command::FillPath { fill_style, path, outline } && fill_style == style_at(s1, v, cr)
        && outline is None && path@.len() == varint_value(s) + 1 && path_match(
        path@,
        s2,
        cr,
        (varint_value(s) + 1) as nat,
    )
}

/// The command is what a draw-lines body at the front of `s` denotes.
pub open spec fn draw_lines_matches(c: Command, s: Seq<u8>, v: StyleVariant, cr: CoordinateRange) -> bool {
    let s1 = s.skip(varint_size(s));
    let s2 = s1.skip(style_size(s1, v, cr));
    let s3 = s2.skip(cr_width(cr));
    let n = varint_value(s) + 1;
    let ls = 4 * cr_width(cr);
    c matches Command::DrawLines { line_style, line_width, lines } && line_style == style_at(
        s1,
        v,
        cr,
    ) && line_width.raw as int == unit_at(s2, cr) && lines@.len() == n && (forall|i: int|
        0 <= i < n ==> #[trigger] lines@[i] == line_at(s3.skip(i * ls), cr))
}

/// The command is what a line-loop or line-strip body at the front of
/// `s` denotes, with the given closing flag.
pub open spec fn line_chain_matches(
    c: Command,
    s: Seq<u8>,
    v: StyleVariant,
    cr: CoordinateRange,
    closed: bool,
) -> bool {
    let s1 = s.skip(varint_size(s));
    let s2 = s1.skip(style_size(s1, v, cr));
    let s3 = s2.skip(cr_width(cr));
    let n = varint_value(s) + 1;
    let ps = 2 * cr_width(cr);
    c matches Command::DrawLineLoop { line_style, line_width, close_path, points } && line_style
        == style_at(s1, v, cr) && line_width.raw as int == unit_at(s2, cr) && close_path == closed
        && points@.len() == n && (forall|i: int|
        0 <= i < n ==> #[trigger] points@[i] == point_at(s3.skip(i * ps), cr))
}

/// The command is what a draw-line-path body at the front of `s`
/// denotes.
pub open spec fn draw_line_path_matches(c: Command, s: Seq<u8>, v: StyleVariant, cr: CoordinateRange) -> bool {
    let s1 = s.skip(varint_size(s));
    let s2 = s1.skip(style_size(s1, v, cr));
    let s3 = s2.skip(cr_width(cr));
    c matches Command::DrawLinePath { line_style, line_width, path } && line_style == style_at(
        s1,
        v,
        cr,
    ) && line_width.raw as int == unit_at(s2, cr) && path@.len() == varint_value(s) + 1
        && path_match(path@, s3, cr, (varint_value(s) + 1) as nat)
}

/// The outline an outlined command's body at the front of `s` denotes:
/// the stroke style under the secondary tag, then the stroke width.
#[verifier::opaque]
pub open spec fn outline_at(s: Seq<u8>, pv: StyleVariant, cr: CoordinateRange) -> OutlineStyle {
    let sv = style_variant_of((s[0] / 64) as int);
    let s1 = s.skip(1);
    let s2 = s1.skip(style_size(s1, pv, cr));
    let s3 = s2.skip(style_size(s2, sv, cr));
    OutlineStyle {
        line_width: Unit { raw: unit_at(s3, cr) as i32 },
        line_style: style_at(s2, sv, cr),
    }
}

/// The command is what an outlined fill-polygon body at the front of
/// `s` denotes.
pub open spec fn outline_polygon_matches(c: Command, s: Seq<u8>, pv: StyleVariant, cr: CoordinateRange) -> bool {
    let s4 = s.skip(outline_prelude_size(s, pv, cr));
    let n = s[0] % 64 + 1;
    let ps = 2 * cr_width(cr);
    c matches Command::FillPolygon { fill_style, polygon, outline } && fill_style == style_at(
        s.skip(1),
        pv,
        cr,
    ) && outline == Some(outline_at(s, pv, cr)) && polygon@.len() == n && (forall|i: int|
        0 <= i < n ==> #[trigger] polygon@[i] == point_at(s4.skip(i * ps), cr))
}

/// The command is what an outlined fill-rectangles body at the front
/// of `s` denotes.
pub open spec fn outline_rectangles_matches(
    c: Command,
    s: Seq<u8>,
    pv: StyleVariant,
    cr: CoordinateRange,
) -> bool {
    let s4 = s.skip(outline_prelude_size(s, pv, cr));
    let n = s[0] % 64 + 1;
    let rs = 4 * cr_width(cr);
    c matches Command::FillRectangles { fill_style, rectangles, outline } && fill_style == style_at(
        s.skip(1),
        pv,
        cr,
    ) && outline == Some(outline_at(s, pv, cr)) && rectangles@.len() == n && (forall|i: int|
        0 <= i < n ==> #[trigger] rectangles@[i] == rect_at(s4.skip(i * rs), cr))
}

/// The command is what an outlined fill-path body at the front of `s`
/// denotes.
pub open spec fn outline_path_matches(c: Command, s: Seq<u8>, pv: StyleVariant, cr: CoordinateRange) -> bool {
    let s4 = s.skip(outline_prelude_size(s, pv, cr));
    c matches Command::FillPath { fill_style, path, outline } && fill_style == style_at(
        s.skip(1),
        pv,
        cr,
    ) && outline == Some(outline_at(s, pv, cr)) && path@.len() == s[0] % 64 && path_match(
        path@,
        s4,
        cr,
        (s[0] % 64) as nat,
    )
}

/// The bytes at the front of `s` form one complete drawing command:
/// its tag byte, then the body the low six bits select, with every
/// color index inside a table of `cc` colors.
pub open spec fn command_decodes(s: Seq<u8>, cr: CoordinateRange, cc: u32) -> bool {
    let tag = s[0] % 64;
    let pv = style_variant_of((s[0] / 64) as int);
    let body = s.skip(1);
    &&& s.len() >= 1
    &&& 1 <= tag <= 10
    &&& s[0] / 64 <= 2
    &&& if tag == 1 {
        counted_items_decodes(body, pv, cr, cc, 2 * cr_width(cr))
    } else if tag == 2 {
        counted_items_decodes(body, pv, cr, cc, 4 * cr_width(cr))
    } else if tag == 3 {
        counted_path_decodes(body, pv, cr, cc)
    } else if tag == 4 {
        stroked_items_decodes(body, pv, cr, cc, 4 * cr_width(cr))
    } else if tag == 5 || tag == 6 {
        stroked_items_decodes(body, pv, cr, cc, 2 * cr_width(cr))
    } else if tag == 7 {
        stroked_path_decodes(body, pv, cr, cc)
    } else if tag == 8 {
        outline_items_decodes(body, pv, cr, cc, 2 * cr_width(cr))
    } else if tag == 9 {
        outline_items_decodes(body, pv, cr, cc, 4 * cr_width(cr))
    } else {
        outline_path_decodes(body, pv, cr, cc)
    }
}

/// How many bytes the command at the front of `s` occupies, when it
/// decodes.
pub open spec fn command_size(s: Seq<u8>, cr: CoordinateRange) -> int {
    let tag = s[0] % 64;
    let pv = style_variant_of((s[0] / 64) as int);
    let body = s.skip(1);
    1 + if tag == 1 {
        counted_items_size(body, pv, cr, 2 * cr_width(cr))
    } else if tag == 2 {
        counted_items_size(body, pv, cr, 4 * cr_width(cr))
    } else if tag == 3 {
        counted_path_size(body, pv, cr)
    } else if tag == 4 {
        stroked_items_size(body, pv, cr, 4 * cr_width(cr))
    } else if tag == 5 || tag == 6 {
        stroked_items_size(body, pv, cr, 2 * cr_width(cr))
    } else if tag == 7 {
        stroked_path_size(body, pv, cr)
    } else if tag == 8 {
        outline_items_size(body, pv, cr, 2 * cr_width(cr))
    } else if tag == 9 {
        outline_items_size(body, pv, cr, 4 * cr_width(cr))
    } else {
        outline_path_size(body, pv, cr)
    }
}

/// The command is exactly what the bytes at the front of `s` denote.
pub open spec fn command_matches(c: Command, s: Seq<u8>, cr: CoordinateRange) -> bool {
    let tag = s[0] % 64;
    let pv = style_variant_of((s[0] / 64) as int);
    let body = s.skip(1);
    if tag == 1 {
        fill_polygon_matches(c, body, pv, cr)
    } else if tag == 2 {
        fill_rectangles_matches(c, body, pv, cr)
    } else if tag == 3 {
        fill_path_matches(c, body, pv, cr)
    } else if tag == 4 {
        draw_lines_matches(c, body, pv, cr)
    } else if tag == 5 {
        line_chain_matches(c, body, pv, cr, true)
    } else if tag == 6 {
        line_chain_matches(c, body, pv, cr, false)
    } else if tag == 7 {
        draw_line_path_matches(c, body, pv, cr)
    } else if tag == 8 {
        outline_polygon_matches(c, body, pv, cr)
    } else if tag == 9 {
        outline_rectangles_matches(c, body, pv, cr)
    } else {
        outline_path_matches(c, body, pv, cr)
    }
}

/// The bytes at the front of `s` form a complete command stream: zero
/// or more commands, then a byte whose low six bits are zero — the
/// end-of-stream sentinel.
pub open spec fn stream_decodes(s: Seq<u8>, cr: CoordinateRange, cc: u32) -> bool
    decreases s.len(),
{
    if s.len() == 0 {
        false
    } else if s[0] % 64 == 0 {
        true
    } else if command_decodes(s, cr, cc) && 1 <= command_size(s, cr) <= s.len() {
        stream_decodes(s.skip(command_size(s, cr)), cr, cc)
    } else {
        false
    }
}

/// The command list is exactly what a prefix of the bytes at the front
/// of `s` denotes: each command decodes and matches, one after the
/// other.
pub open spec fn prefix_matches(cmds: Seq<Command>, s: Seq<u8>, cr: CoordinateRange, cc: u32) -> bool
    decreases cmds.len(),
{
    cmds.len() == 0 || ({
        &&& command_decodes(s, cr, cc)
        &&& 1 <= command_size(s, cr) <= s.len()
        &&& command_matches(cmds[0], s, cr)
        &&& prefix_matches(cmds.drop_first(), s.skip(command_size(s, cr)), cr, cc)
    })
}

/// How many bytes the matched command prefix occupies.
pub open spec fn prefix_size(cmds: Seq<Command>, s: Seq<u8>, cr: CoordinateRange) -> int
    decreases cmds.len(),
{
    if cmds.len() == 0 {
        0
    } else {
        command_size(s, cr) + prefix_size(cmds.drop_first(), s.skip(command_size(s, cr)), cr)
    }
}

/// A matched command prefix occupies a nonnegative number of bytes, no
/// more than the input holds.
proof fn lemma_prefix_size_bounds(cmds: Seq<Command>, s: Seq<u8>, cr: CoordinateRange, cc: u32)
    requires
        prefix_matches(cmds, s, cr, cc),
    ensures
        0 <= prefix_size(cmds, s, cr) <= s.len(),
    decreases cmds.len(),
{
    if cmds.len() > 0 {
        lemma_prefix_size_bounds(cmds.drop_first(), s.skip(command_size(s, cr)), cr, cc);
    }
}

/// Appending one more matched command extends a matched prefix, and
/// the consumed sizes add up.
proof fn lemma_prefix_matches_snoc(
    cmds: Seq<Command>,
    s: Seq<u8>,
    cr: CoordinateRange,
    cc: u32,
    c: Command,
)
    requires
        prefix_matches(cmds, s, cr, cc),
        ({
            let t = s.skip(prefix_size(cmds, s, cr));
            &&& command_decodes(t, cr, cc)
            &&& 1 <= command_size(t, cr) <= t.len()
            &&& command_matches(c, t, cr)
        }),
    ensures
        prefix_matches(cmds.push(c), s, cr, cc),
        prefix_size(cmds.push(c), s, cr) == prefix_size(cmds, s, cr) + command_size(
            s.skip(prefix_size(cmds, s, cr)),
            cr,
        ),
    decreases cmds.len(),
{
    lemma_prefix_size_bounds(cmds, s, cr, cc);
    if cmds.len() == 0 {
        assert(s.skip(prefix_size(cmds, s, cr)) =~= s);
        assert(cmds.push(c)[0] == c);
        assert(cmds.push(c).drop_first() =~= Seq::<Command>::empty());
        assert(prefix_matches(cmds.push(c), s, cr, cc)) by {
            assert(prefix_matches(
                cmds.push(c).drop_first(),
                s.skip(command_size(s, cr)),
                cr,
                cc,
            ));
        }
        assert(prefix_size(cmds.push(c), s, cr) == command_size(s, cr) + prefix_size(
            cmds.push(c).drop_first(),
            s.skip(command_size(s, cr)),
            cr,
        ));
        assert(prefix_size(cmds.push(c).drop_first(), s.skip(command_size(s, cr)), cr) == 0);
    } else {
        let sz0 = command_size(s, cr);
        let s1 = s.skip(sz0);
        lemma_prefix_size_bounds(cmds.drop_first(), s1, cr, cc);
        assert(s1.skip(prefix_size(cmds.drop_first(), s1, cr)) =~= s.skip(
            prefix_size(cmds, s, cr),
        ));
        lemma_prefix_matches_snoc(cmds.drop_first(), s1, cr, cc, c);
        assert(cmds.push(c).drop_first() =~= cmds.drop_first().push(c));
        assert(cmds.push(c)[0] == cmds[0]);
        assert(prefix_matches(cmds.push(c), s, cr, cc)) by {
            assert(prefix_matches(cmds.push(c).drop_first(), s1, cr, cc));
        }
        assert(prefix_size(cmds.push(c), s, cr) == sz0 + prefix_size(
            cmds.push(c).drop_first(),
            s1,
            cr,
        ));
        assert(prefix_size(cmds.push(c).drop_first(), s1, cr) == prefix_size(
            cmds.drop_first(),
            s1,
            cr,
        ) + command_size(s1.skip(prefix_size(cmds.drop_first(), s1, cr)), cr));
        assert(prefix_size(cmds, s, cr) == sz0 + prefix_size(cmds.drop_first(), s1, cr));
    }
}

/// The error kind a failed style decode reports, by the first rule it
/// breaks: bytes running out, an unacceptable varint, or a color index
/// at or past the color count.
pub open spec fn style_fail_kind(s: Seq<u8>, v: StyleVariant, cr: CoordinateRange, cc: u32) -> ErrorKind {
    match v {
        StyleVariant::FlatColor => if varint_eof(s) {
            ErrorKind::UnexpectedEof
        } else if varint_overflow(s) {
            ErrorKind::VarintOverflow
        } else {
            ErrorKind::IndexOutOfRange
        },
        _ => {
            let w4 = 4 * cr_width(cr);
            let s0 = s.skip(w4);
            let s1 = s.skip(w4 + varint_size(s0));
            if s.len() < w4 {
                ErrorKind::UnexpectedEof
            } else if varint_eof(s0) {
                ErrorKind::UnexpectedEof
            } else if varint_overflow(s0) {
                ErrorKind::VarintOverflow
            } else if varint_value(s0) >= cc {
                ErrorKind::IndexOutOfRange
            } else if varint_eof(s1) {
                ErrorKind::UnexpectedEof
            } else if varint_overflow(s1) {
                ErrorKind::VarintOverflow
            } else {
                ErrorKind::IndexOutOfRange
            }
        },
    }
}

/// The parser context from the header phase onward.
struct ScaleProperties {
    scale: u8,
    color_encoding: ColorEncoding,
    coordinate_range: CoordinateRange,
}

/// The streaming TinyVG parser: the byte source plus the header context
/// that the body readers depend on.
pub struct Parser {
    /// The byte source.
    pub reader: ByteReader,
    /// Width of coordinate integers, from the header.
    pub coordinate_range: CoordinateRange,
    /// Number of colors in the table, from the header.
    pub color_count: u32,
    /// Encoding of color table entries, from the header.
    pub color_encoding: ColorEncoding,
    /// Unit divisor exponent, from the header.
    pub scale: u8,
}

impl Parser {
    /// The whole input.
    pub open spec fn data(self) -> Seq<u8> {
        self.reader.data()
    }

    /// The current stream position.
    pub open spec fn pos(self) -> int {
        self.reader.pos as int
    }

    /// The bytes not yet consumed.
    pub open spec fn remaining(self) -> Seq<u8> {
        self.reader.remaining()
    }

    /// The cursor never passes the end of the input.
    pub open spec fn wf(self) -> bool {
        self.reader.wf()
    }

    /// The header context fields agree.
    pub open spec fn same_cfg(self, other: Parser) -> bool {
        &&& other.coordinate_range == self.coordinate_range
        &&& other.color_count == self.color_count
        &&& other.color_encoding == self.color_encoding
        &&& other.scale == self.scale
    }

    /// What every reader guarantees: the input is untouched, the cursor
    /// only moves forward and stays in bounds, and the header context is
    /// kept.
    pub open spec fn steps(self, pre: Parser) -> bool {
        &&& self.wf()
        &&& self.data() == pre.data()
        &&& pre.pos() <= self.pos() <= self.data().len()
        &&& pre.same_cfg(self)
    }

    /// A parser over the given input, positioned at its start. The
    /// context fields hold placeholders until the header is parsed.
    pub fn new(bytes: Vec<u8>) -> (r: Parser)
        ensures
            r.wf(),
            r.data() == bytes@,
            r.pos() == 0,
            r.coordinate_range == CoordinateRange::Default,
            r.color_count == 0u32,
            r.color_encoding == ColorEncoding::Rgb565,
            r.scale == 0u8,
    {
        Parser {
            reader: ByteReader::new(bytes),
            coordinate_range: CoordinateRange::Default,
            color_count: 0,
            color_encoding: ColorEncoding::Rgb565,
            scale: 0,
        }
    }

    /// Consume the two magic bytes `0x72 0x56`.
    fn magic_number(&mut self) -> (r: Result<(), ParseError>)
        requires
            old(self).wf(),
        ensures
            final(self).steps(*old(self)),
            match r {
                Ok(()) => old(self).remaining().len() >= 2 && old(self).remaining()[0] == 0x72
                    && old(self).remaining()[1] == 0x56 && final(self).pos() == old(self).pos() + 2,
                Err(e) => {
                    &&& (e.kind == ErrorKind::UnexpectedEof <==> old(self).remaining().len() < 2)
                    &&& (e.kind == ErrorKind::BadMagic <==> old(self).remaining().len() >= 2 && !(
                    old(self).remaining()[0] == 0x72 && old(self).remaining()[1] == 0x56))
                    &&& (e.kind == ErrorKind::UnexpectedEof || e.kind == ErrorKind::BadMagic)
                    &&& e.offset == old(self).pos()
                },
            },
    {
        let offset = self.reader.bytes_read();
        let b0 = match self.reader.read_u8() {
            Ok(b) => b,
            Err(_) => {
                return Err(ParseError { kind: ErrorKind::UnexpectedEof, offset });
            },
        };
        let b1 = match self.reader.read_u8() {
            Ok(b) => b,
            Err(_) => {
                return Err(ParseError { kind: ErrorKind::UnexpectedEof, offset });
            },
        };
        if b0 == 0x72 && b1 == 0x56 {
            Ok(())
        } else {
            Err(ParseError { kind: ErrorKind::BadMagic, offset })
        }
    }

    /// Consume the version byte; any value is accepted and exposed
    /// verbatim.
    fn version(&mut self) -> (r: Result<u8, ParseError>)
        requires
            old(self).wf(),
        ensures
            final(self).steps(*old(self)),
            match r {
                Ok(v) => old(self).remaining().len() >= 1 && v == old(self).remaining()[0] && final(self).pos() == old(self).pos() + 1,
                Err(e) => old(self).remaining().len() == 0 && e.kind == ErrorKind::UnexpectedEof
                    && e.offset == old(self).pos(),
            },
    {
        self.reader.read_u8()
    }

    /// Consume the scale-and-flags byte: from high to low, a 4-bit unit
    /// scale, a 2-bit color encoding and a 2-bit coordinate range.
    /// Color encoding 3 means a custom encoding and is rejected, as is
    /// coordinate range 3, which the format leaves unassigned.
    fn scale_properties(&mut self) -> (r: Result<ScaleProperties, ParseError>)
        requires
            old(self).wf(),
        ensures
            final(self).steps(*old(self)),
            match r {
                Ok(sp) => {
                    let b = old(self).remaining()[0];
                    &&& old(self).remaining().len() >= 1
                    &&& (b / 4) % 4 != 3
                    &&& b % 4 != 3
                    &&& sp.scale == b / 16
                    &&& sp.scale < 16
                    &&& sp.color_encoding == encoding_of(((b / 4) % 4) as int)
                    &&& sp.coordinate_range == range_of((b % 4) as int)
                    &&& final(self).pos() == old(self).pos() + 1
                },
                Err(e) => {
                    &&& (e.kind == ErrorKind::UnexpectedEof <==> old(self).remaining().len() == 0)
                    &&& (e.kind == ErrorKind::UnsupportedEncoding <==> old(self).remaining().len() >= 1 && ((old(self).remaining()[0] / 4) % 4 == 3 || old(self).remaining()[0] % 4 == 3))
                    &&& (e.kind == ErrorKind::UnexpectedEof || e.kind
                        == ErrorKind::UnsupportedEncoding)
                    &&& e.offset == old(self).pos()
                },
            },
    {
        let offset = self.reader.bytes_read();
        let b = match self.reader.read_u8() {
            Ok(b) => b,
            Err(e) => {
                return Err(e);
            },
        };
        let scale = b / 16;
        let encoding_bits = (b / 4) % 4;
        let range_bits = b % 4;
        let coordinate_range = if range_bits == 0 {
            CoordinateRange::Default
        } else if range_bits == 1 {
            CoordinateRange::Reduced
        } else if range_bits == 2 {
            CoordinateRange::Enhanced
        } else {
            return Err(ParseError { kind: ErrorKind::UnsupportedEncoding, offset });
        };
        let color_encoding = if encoding_bits == 0 {
            ColorEncoding::Rgba8888
        } else if encoding_bits == 1 {
            ColorEncoding::Rgb565
        } else if encoding_bits == 2 {
            ColorEncoding::RgbaF32
        } else {
            return Err(ParseError { kind: ErrorKind::UnsupportedEncoding, offset });
        };
        Ok(ScaleProperties { scale, color_encoding, coordinate_range })
    }

    /// Consume one unsigned integer under the header's coordinate
    /// range: 1, 2 or 4 little-endian bytes for Reduced, Default,
    /// Enhanced.
    fn read_with_coordinate_range(&mut self) -> (r: Result<u32, ParseError>)
        requires
            old(self).wf(),
        ensures
            final(self).steps(*old(self)),
            match r {
                Ok(v) => {
                    let w = cr_width(old(self).coordinate_range);
                    &&& old(self).remaining().len() >= w
                    &&& v as int == le_at(old(self).remaining(), w)
                    &&& final(self).pos() == old(self).pos() + w
                },
                Err(e) => old(self).remaining().len() < cr_width(old(self).coordinate_range)
                    && e.kind == ErrorKind::UnexpectedEof && e.offset == old(self).pos() && final(self).pos() == old(self).pos(),
            },
    {
        match self.coordinate_range {
            CoordinateRange::Reduced => {
                match self.reader.read_u8() {
                    Ok(x) => Ok(x as u32),
                    Err(e) => Err(e),
                }
            },
            CoordinateRange::Default => {
                match self.reader.read_u16le() {
                    Ok(x) => Ok(x as u32),
                    Err(e) => Err(e),
                }
            },
            CoordinateRange::Enhanced => self.reader.read_u32le(),
        }
    }

    /// Consume one fractional unit: a coordinate integer, reinterpreted
    /// as two's complement. Its real value is the result divided by
    /// `2^scale`, which consumers apply themselves; the division is
    /// exact by construction since the numerator is kept.
    fn read_unit(&mut self) -> (r: Result<Unit, ParseError>)
        requires
            old(self).wf(),
        ensures
            final(self).steps(*old(self)),
            match r {
                Ok(u) => {
                    let w = cr_width(old(self).coordinate_range);
                    &&& old(self).remaining().len() >= w
                    &&& u.raw as int == unit_at(old(self).remaining(), old(self).coordinate_range)
                    &&& final(self).pos() == old(self).pos() + w
                },
                Err(e) => old(self).remaining().len() < cr_width(old(self).coordinate_range)
                    && e.kind == ErrorKind::UnexpectedEof && e.offset == old(self).pos() && final(self).pos() == old(self).pos(),
            },
    {
        let raw = match self.read_with_coordinate_range() {
            Ok(v) => v,
            Err(e) => {
                return Err(e);
            },
        };
        let signed: i32 = match self.coordinate_range {
            CoordinateRange::Reduced => {
                if raw < 0x80 {
                    raw as i32
                } else {
                    (raw as i32) - 0x100
                }
            },
            CoordinateRange::Default => {
                if raw < 0x8000 {
                    raw as i32
                } else {
                    (raw as i32) - 0x1_0000
                }
            },
            CoordinateRange::Enhanced => {
                if raw < 0x8000_0000 {
                    raw as i32
                } else {
                    ((raw as i64) - 0x1_0000_0000i64) as i32
                }
            },
        };
        Ok(Unit { raw: signed })
    }

    /// Consume one point: two fractional units.
    fn point(&mut self) -> (r: Result<Point, ParseError>)
        requires
            old(self).wf(),
        ensures
            final(self).steps(*old(self)),
            match r {
                Ok(p) => {
                    let w = cr_width(old(self).coordinate_range);
                    &&& old(self).remaining().len() >= 2 * w
                    &&& p == point_at(old(self).remaining(), old(self).coordinate_range)
                    &&& final(self).pos() == old(self).pos() + 2 * w
                },
                Err(e) => ({
                    let w = cr_width(old(self).coordinate_range);
                    let n = old(self).remaining().len();
                    e.kind == ErrorKind::UnexpectedEof && n < 2 * w && e.offset == old(self).pos()
                        + w * (n as int / w)
                }),
            },
    {
        let ghost w = cr_width(self.coordinate_range);
        let ghost n = self.remaining().len() as int;
        let x = match self.read_unit() {
            Ok(u) => u,
            Err(e) => {
                proof {
                    vstd::arithmetic::div_mod::lemma_fundamental_div_mod_converse(n, w, 0, n);
                }
                return Err(e);
            },
        };
        let ghost mid = self.remaining();
        let y = match self.read_unit() {
            Ok(u) => u,
            Err(e) => {
                proof {
                    vstd::arithmetic::div_mod::lemma_fundamental_div_mod_converse(n, w, 1, n - w);
                }
                return Err(e);
            },
        };
        proof {
            assert(mid =~= old(self).remaining().skip(w));
        }
        Ok(Point { x, y })
    }

    /// Consume one rectangle: origin and size, four fractional units.
    fn rectangle(&mut self) -> (r: Result<Rect, ParseError>)
        requires
            old(self).wf(),
        ensures
            final(self).steps(*old(self)),
            match r {
                Ok(rect) => {
                    let w = cr_width(old(self).coordinate_range);
                    &&& old(self).remaining().len() >= 4 * w
                    &&& rect == rect_at(old(self).remaining(), old(self).coordinate_range)
                    &&& final(self).pos() == old(self).pos() + 4 * w
                },
                Err(e) => ({
                    let w = cr_width(old(self).coordinate_range);
                    let n = old(self).remaining().len();
                    e.kind == ErrorKind::UnexpectedEof && n < 4 * w && e.offset == old(self).pos()
                        + w * (n as int / w)
                }),
            },
    {
        let ghost rem = self.remaining();
        let ghost w = cr_width(self.coordinate_range);
        let ghost n = rem.len() as int;
        let x = match self.read_unit() {
            Ok(u) => u,
            Err(e) => {
                proof {
                    lemma_stride_quotient(n, w, 0);
                }
                return Err(e);
            },
        };
        let ghost rem1 = self.remaining();
        let y = match self.read_unit() {
            Ok(u) => u,
            Err(e) => {
                proof {
                    lemma_stride_quotient(n, w, 1);
                }
                return Err(e);
            },
        };
        let ghost rem2 = self.remaining();
        let width = match self.read_unit() {
            Ok(u) => u,
            Err(e) => {
                proof {
                    lemma_stride_quotient(n, w, 2);
                }
                return Err(e);
            },
        };
        let ghost rem3 = self.remaining();
        let height = match self.read_unit() {
            Ok(u) => u,
            Err(e) => {
                proof {
                    lemma_stride_quotient(n, w, 3);
                }
                return Err(e);
            },
        };
        proof {
            assert(rem1 =~= rem.skip(w));
            assert(rem2 =~= rem.skip(2 * w));
            assert(rem3 =~= rem.skip(3 * w));
        }
        Ok(Rect { x, y, width, height })
    }

    /// Consume one line: two points.
    fn line(&mut self) -> (r: Result<Line, ParseError>)
        requires
            old(self).wf(),
        ensures
            final(self).steps(*old(self)),
            match r {
                Ok(l) => {
                    let w = cr_width(old(self).coordinate_range);
                    &&& old(self).remaining().len() >= 4 * w
                    &&& l == line_at(old(self).remaining(), old(self).coordinate_range)
                    &&& final(self).pos() == old(self).pos() + 4 * w
                },
                Err(e) => ({
                    let w = cr_width(old(self).coordinate_range);
                    let n = old(self).remaining().len();
                    e.kind == ErrorKind::UnexpectedEof && n < 4 * w && e.offset == old(self).pos()
                        + w * (n as int / w)
                }),
            },
    {
        let ghost w = cr_width(self.coordinate_range);
        let ghost n = self.remaining().len() as int;
        let p0 = match self.point() {
            Ok(p) => p,
            Err(e) => {
                return Err(e);
            },
        };
        let ghost mid = self.remaining();
        let p1 = match self.point() {
            Ok(p) => p,
            Err(e) => {
                proof {
                    lemma_div_shift(n, w, 2);
                }
                return Err(e);
            },
        };
        proof {
            assert(mid =~= old(self).remaining().skip(2 * w));
        }
        Ok(Line { p0, p1 })
    }

    /// Consume one byte and split it into its low 6 bits and high 2
    /// bits: the command index and primary style tag of a command byte,
    /// or the segment count and secondary style tag of an outline byte.
    fn u6_u2(&mut self) -> (r: Result<(u8, u8), ParseError>)
        requires
            old(self).wf(),
        ensures
            final(self).steps(*old(self)),
            match r {
                Ok(v) => old(self).remaining().len() >= 1 && v.0 == old(self).remaining()[0] % 64
                    && v.1 == old(self).remaining()[0] / 64 && final(self).pos() == old(self).pos()
                    + 1,
                Err(e) => old(self).remaining().len() == 0 && e.kind == ErrorKind::UnexpectedEof
                    && e.offset == old(self).pos(),
            },
    {
        let byte = match self.reader.read_u8() {
            Ok(b) => b,
            Err(e) => {
                return Err(e);
            },
        };
        Ok((byte % 64, byte / 64))
    }

    /// Consume one arc-header byte: bit 7 is the large-arc flag, bit 6
    /// the sweep direction (set means left); the rest is reserved and
    /// ignored.
    fn arc_header(&mut self) -> (r: Result<(bool, Sweep), ParseError>)
        requires
            old(self).wf(),
        ensures
            final(self).steps(*old(self)),
            match r {
                Ok(v) => {
                    let b = old(self).remaining()[0];
                    &&& old(self).remaining().len() >= 1
                    &&& v.0 == (b >= 128)
                    &&& v.1 == (if (b / 64) % 2 == 1 {
                        Sweep::Left
                    } else {
                        Sweep::Right
                    })
                    &&& final(self).pos() == old(self).pos() + 1
                },
                Err(e) => old(self).remaining().len() == 0 && e.kind == ErrorKind::UnexpectedEof
                    && e.offset == old(self).pos(),
            },
    {
        let raw = match self.reader.read_u8() {
            Ok(b) => b,
            Err(e) => {
                return Err(e);
            },
        };
        let is_large = raw >= 128;
        let sweep = if (raw / 64) % 2 == 1 {
            Sweep::Left
        } else {
            Sweep::Right
        };
        Ok((is_large, sweep))
    }

    /// Consume one color as four 8-bit channels.
    fn color_8888(&mut self) -> (r: Result<Color, ParseError>)
        requires
            old(self).wf(),
        ensures
            final(self).steps(*old(self)),
            match r {
                Ok(c) => old(self).remaining().len() >= 4 && c == color_at(
                    old(self).remaining(),
                    ColorEncoding::Rgba8888,
                ) && final(self).pos() == old(self).pos() + 4,
                Err(e) => e.kind == ErrorKind::UnexpectedEof && old(self).remaining().len() < 4
                    && e.offset == old(self).pos() + old(self).remaining().len(),
            },
    {
        let red = match self.reader.read_u8() {
            Ok(b) => b,
            Err(e) => {
                return Err(e);
            },
        };
        let green = match self.reader.read_u8() {
            Ok(b) => b,
            Err(e) => {
                return Err(e);
            },
        };
        let blue = match self.reader.read_u8() {
            Ok(b) => b,
            Err(e) => {
                return Err(e);
            },
        };
        let alpha = match self.reader.read_u8() {
            Ok(b) => b,
            Err(e) => {
                return Err(e);
            },
        };
        Ok(Color::Rgba8888 { red, green, blue, alpha })
    }

    /// Consume one color as four little-endian 32-bit float channels,
    /// kept as their raw bit patterns.
    fn color_f32(&mut self) -> (r: Result<Color, ParseError>)
        requires
            old(self).wf(),
        ensures
            final(self).steps(*old(self)),
            match r {
                Ok(c) => old(self).remaining().len() >= 16 && c == color_at(
                    old(self).remaining(),
                    ColorEncoding::RgbaF32,
                ) && final(self).pos() == old(self).pos() + 16,
                Err(e) => ({
                    let n = old(self).remaining().len();
                    e.kind == ErrorKind::UnexpectedEof && n < 16 && e.offset == old(self).pos() + 4
                        * (n as int / 4)
                }),
            },
    {
        let ghost rem = self.remaining();
        let ghost n = rem.len() as int;
        let red = match self.reader.read_u32le() {
            Ok(v) => v,
            Err(e) => {
                proof {
                    lemma_stride_quotient(n, 4, 0);
                }
                return Err(e);
            },
        };
        let ghost rem1 = self.remaining();
        let green = match self.reader.read_u32le() {
            Ok(v) => v,
            Err(e) => {
                proof {
                    lemma_stride_quotient(n, 4, 1);
                }
                return Err(e);
            },
        };
        let ghost rem2 = self.remaining();
        let blue = match self.reader.read_u32le() {
            Ok(v) => v,
            Err(e) => {
                proof {
                    lemma_stride_quotient(n, 4, 2);
                }
                return Err(e);
            },
        };
        let ghost rem3 = self.remaining();
        let alpha = match self.reader.read_u32le() {
            Ok(v) => v,
            Err(e) => {
                proof {
                    lemma_stride_quotient(n, 4, 3);
                }
                return Err(e);
            },
        };
        proof {
            assert(rem1 =~= rem.skip(4));
            assert(rem2 =~= rem.skip(8));
            assert(rem3 =~= rem.skip(12));
        }
        Ok(Color::RgbaF32 { red, green, blue, alpha })
    }

    /// Consume one color packed into a 16-bit word: 5 bits of red in
    /// the low bits, then 6 of green, then 5 of blue; opaque alpha.
    fn color_565(&mut self) -> (r: Result<Color, ParseError>)
        requires
            old(self).wf(),
        ensures
            final(self).steps(*old(self)),
            match r {
                Ok(c) => old(self).remaining().len() >= 2 && c == color_at(
                    old(self).remaining(),
                    ColorEncoding::Rgb565,
                ) && final(self).pos() == old(self).pos() + 2,
                Err(e) => e.kind == ErrorKind::UnexpectedEof && old(self).remaining().len() < 2
                    && e.offset == old(self).pos(),
            },
    {
        let rgb = match self.reader.read_u16le() {
            Ok(v) => v,
            Err(e) => {
                return Err(e);
            },
        };
        let red = (rgb % 32) as u8;
        let green = ((rgb / 32) % 64) as u8;
        let blue = ((rgb / 2048) % 32) as u8;
        Ok(Color::Rgb565 { red, green, blue })
    }

    /// Consume one color under the header's encoding.
    fn color(&mut self) -> (r: Result<Color, ParseError>)
        requires
            old(self).wf(),
        ensures
            final(self).steps(*old(self)),
            match r {
                Ok(c) => {
                    let cs = color_size(old(self).color_encoding);
                    &&& old(self).remaining().len() >= cs
                    &&& c == color_at(old(self).remaining(), old(self).color_encoding)
                    &&& color_wf(c)
                    &&& color_matches_encoding(c, old(self).color_encoding)
                    &&& final(self).pos() == old(self).pos() + cs
                },
                Err(e) => ({
                    let n = old(self).remaining().len();
                    &&& e.kind == ErrorKind::UnexpectedEof
                    &&& n < color_size(old(self).color_encoding)
                    &&& e.offset == old(self).pos() + (match old(self).color_encoding {
                        ColorEncoding::Rgba8888 => n as int,
                        ColorEncoding::Rgb565 => 0int,
                        ColorEncoding::RgbaF32 => 4 * (n as int / 4),
                    })
                }),
            },
    {
        match self.color_encoding {
            ColorEncoding::Rgba8888 => self.color_8888(),
            ColorEncoding::RgbaF32 => self.color_f32(),
            ColorEncoding::Rgb565 => self.color_565(),
        }
    }

    /// Consume the whole color table: `color_count` colors under the
    /// header's encoding. The count is bounded against the remaining
    /// input before anything is allocated.
    fn parse_color_table(&mut self) -> (r: Result<Vec<Color>, ParseError>)
        requires
            old(self).wf(),
        ensures
            final(self).steps(*old(self)),
            match r {
                Ok(v) => {
                    let cc = old(self).color_count as int;
                    let cs = color_size(old(self).color_encoding);
                    &&& cc <= old(self).remaining().len()
                    &&& old(self).remaining().len() >= cc * cs
                    &&& v@.len() == cc
                    &&& forall|i: int|
                        0 <= i < cc ==> #[trigger] v@[i] == color_at(
                            old(self).remaining().skip(i * cs),
                            old(self).color_encoding,
                        )
                    &&& forall|i: int|
                        0 <= i < cc ==> color_wf(#[trigger] v@[i]) && color_matches_encoding(
                            v@[i],
                            old(self).color_encoding,
                        )
                    &&& final(self).pos() == old(self).pos() + cc * cs
                },
                Err(e) => {
                    let cc = old(self).color_count as int;
                    let cs = color_size(old(self).color_encoding);
                    &&& (e.kind == ErrorKind::ResourceExhausted <==> cc > old(self).remaining().len())
                    &&& (e.kind == ErrorKind::UnexpectedEof <==> cc <= old(self).remaining().len()
                        && old(self).remaining().len() < cc * cs)
                    &&& (e.kind == ErrorKind::ResourceExhausted || e.kind
                        == ErrorKind::UnexpectedEof)
                },
            },
    {
        let ghost rem = self.remaining();
        let ghost cs = color_size(self.color_encoding);
        let cc = self.color_count;
        let offset = self.reader.bytes_read();
        if cc as usize > self.reader.remaining_len() {
            return Err(ParseError { kind: ErrorKind::ResourceExhausted, offset });
        }
        let mut colors: Vec<Color> = Vec::new();
        let mut i: u32 = 0;
        while i < cc
            invariant
                self.wf(),
                self.data() == old(self).data(),
                old(self).same_cfg(*self),
                cc == old(self).color_count,
                i <= cc,
                rem == old(self).remaining(),
                cs == color_size(old(self).color_encoding),
                cc as int <= rem.len(),
                colors@.len() == i as int,
                self.pos() == old(self).pos() + i * cs,
                rem.len() >= i * cs,
                forall|j: int|
                    0 <= j < i as int ==> #[trigger] colors@[j] == color_at(
                        rem.skip(j * cs),
                        old(self).color_encoding,
                    ),
                forall|j: int|
                    0 <= j < i as int ==> color_wf(#[trigger] colors@[j]) && color_matches_encoding(
                        colors@[j],
                        old(self).color_encoding,
                    ),
            decreases cc - i,
        {
            let ghost pre = self.remaining();
            proof {
                assert(pre =~= rem.skip(i as int * cs));
                vstd::arithmetic::mul::lemma_mul_is_distributive_add_other_way(
                    cs,
                    i as int,
                    1,
                );
            }
            let c = match self.color() {
                Ok(c) => c,
                Err(e) => {
                    proof {
                        assert(rem.len() < (i as int + 1) * cs);
                        vstd::arithmetic::mul::lemma_mul_inequality(
                            i as int + 1,
                            cc as int,
                            cs,
                        );
                    }
                    return Err(e);
                },
            };
            colors.push(c);
            i = i + 1;
        }
        proof {
            vstd::arithmetic::mul::lemma_mul_inequality(cc as int, rem.len() as int, cs);
        }
        Ok(colors)
    }

    /// Consume the fixed header: magic, version, flags, width, height
    /// and color count. On success the parser context takes over the
    /// header's coordinate range, color encoding, scale and color count.
    fn header(&mut self) -> (r: Result<Header, ParseError>)
        requires
            old(self).wf(),
        ensures
            final(self).wf(),
            final(self).data() == old(self).data(),
            old(self).pos() <= final(self).pos() <= final(self).data().len(),
            match r {
                Ok(h) => {
                    &&& header_decodes(old(self).remaining())
                    &&& h == header_at(old(self).remaining())
                    &&& final(self).pos() == old(self).pos() + header_size(old(self).remaining())
                    &&& final(self).coordinate_range == h.coordinate_range
                    &&& final(self).color_encoding == h.color_encoding
                    &&& final(self).scale == h.scale
                    &&& final(self).color_count == h.color_count
                    &&& h.scale < 16
                },
                Err(e) => {
                    &&& !header_decodes(old(self).remaining())
                    &&& e.kind == header_fail_kind(old(self).remaining())
                },
            },
    {
        let ghost rem = self.remaining();
        match self.magic_number() {
            Ok(()) => {},
            Err(e) => {
                return Err(e);
            },
        }
        let version = match self.version() {
            Ok(v) => v,
            Err(e) => {
                return Err(e);
            },
        };
        let scale_properties = match self.scale_properties() {
            Ok(sp) => sp,
            Err(e) => {
                return Err(e);
            },
        };

        self.coordinate_range = scale_properties.coordinate_range;
        let ghost w = cr_width(scale_properties.coordinate_range);
        let ghost rem4 = self.remaining();
        proof {
            assert(rem4 =~= rem.skip(4));
        }
        let width = match self.read_with_coordinate_range() {
            Ok(v) => v,
            Err(e) => {
                return Err(e);
            },
        };
        let ghost rem5 = self.remaining();
        proof {
            assert(rem5 =~= rem.skip(4 + w));
        }
        let height = match self.read_with_coordinate_range() {
            Ok(v) => v,
            Err(e) => {
                return Err(e);
            },
        };
        let ghost rem6 = self.remaining();
        proof {
            assert(rem6 =~= rem.skip(4 + 2 * w));
        }
        let color_count = match self.reader.read_var_uint() {
            Ok(v) => v,
            Err(e) => {
                return Err(e);
            },
        };

        self.color_count = color_count;
        self.color_encoding = scale_properties.color_encoding;
        self.scale = scale_properties.scale;

        Ok(
            Header {
                version,
                scale: scale_properties.scale,
                color_encoding: scale_properties.color_encoding,
                coordinate_range: scale_properties.coordinate_range,
                width,
                height,
                color_count,
            },
        )
    }

    /// Consume the header and the color table, producing an image with
    /// no commands yet; the parser is left at the first command byte.
    pub fn parse_header(&mut self) -> (r: Result<Image, ParseError>)
        requires
            old(self).wf(),
        ensures
            final(self).wf(),
            final(self).data() == old(self).data(),
            old(self).pos() <= final(self).pos() <= final(self).data().len(),
            match r {
                Ok(img) => {
                    let rem = old(self).remaining();
                    let cc = img.header.color_count as int;
                    let cs = color_size(img.header.color_encoding);
                    &&& prefix_decoded(img, rem)
                    &&& img.commands@.len() == 0
                    &&& img.trailer@.len() == 0
                    &&& image_wf(img)
                    &&& final(self).pos() == old(self).pos() + header_size(rem) + cc * cs
                    &&& final(self).coordinate_range == img.header.coordinate_range
                    &&& final(self).color_encoding == img.header.color_encoding
                    &&& final(self).scale == img.header.scale
                    &&& final(self).color_count == img.header.color_count
                },
                Err(e) => e.kind == header_phase_fail_kind(old(self).remaining()),
            },
            ({
                let rem = old(self).remaining();
                let after = rem.skip(header_size(rem));
                let cc = varint_value(
                    rem.skip(4 + 2 * cr_width(range_of((rem[3] % 4) as int))),
                ) as int;
                let cs = color_size(encoding_of(((rem[3] / 4) % 4) as int));
                header_decodes(rem) && cc <= after.len() && after.len() >= cc * cs ==> r is Ok
            }),
    {
        let header = match self.header() {
            Ok(h) => h,
            Err(e) => {
                return Err(e);
            },
        };
        let ghost rem = old(self).remaining();
        let ghost after = self.remaining();
        proof {
            assert(after =~= rem.skip(header_size(rem)));
        }
        let color_table = match self.parse_color_table() {
            Ok(t) => t,
            Err(e) => {
                return Err(e);
            },
        };
        let img = Image { header, color_table, commands: Vec::new(), trailer: Vec::new() };
        proof {
            assert(image_wf(img));
        }
        Ok(img)
    }

    /// Map a two-bit style tag to its variant; 3 is reserved.
    fn style_variant(value: u8, offset: usize) -> (r: Result<StyleVariant, ParseError>)
        ensures
            match r {
                Ok(v) => (value == 0 <==> v == StyleVariant::FlatColor) && (value == 1 <==> v
                    == StyleVariant::LinearGradient) && (value == 2 <==> v
                    == StyleVariant::RadialGradient) && value <= 2,
                Err(e) => value >= 3 && e.kind == ErrorKind::UnsupportedEncoding && e.offset
                    == offset,
            },
    {
        match value {
            0 => Ok(StyleVariant::FlatColor),
            1 => Ok(StyleVariant::LinearGradient),
            2 => Ok(StyleVariant::RadialGradient),
            _ => Err(ParseError { kind: ErrorKind::UnsupportedEncoding, offset }),
        }
    }

    /// Consume one varint that names a color-table index and check it
    /// against the color count.
    fn color_index(&mut self) -> (r: Result<usize, ParseError>)
        requires
            old(self).wf(),
        ensures
            final(self).steps(*old(self)),
            match r {
                Ok(v) => {
                    let rem = old(self).remaining();
                    &&& varint_ok(rem)
                    &&& varint_value(rem) < old(self).color_count as nat
                    &&& v == varint_value(rem)
                    &&& final(self).pos() == old(self).pos() + varint_size(rem)
                },
                Err(e) => {
                    let rem = old(self).remaining();
                    &&& (e.kind == ErrorKind::UnexpectedEof <==> varint_eof(rem))
                    &&& (e.kind == ErrorKind::VarintOverflow <==> varint_overflow(rem))
                    &&& (e.kind == ErrorKind::IndexOutOfRange <==> varint_ok(rem) && varint_value(
                        rem,
                    ) >= old(self).color_count as nat)
                    &&& (e.kind == ErrorKind::UnexpectedEof || e.kind == ErrorKind::VarintOverflow
                        || e.kind == ErrorKind::IndexOutOfRange)
                    &&& e.offset == old(self).pos()
                },
            },
    {
        let offset = self.reader.bytes_read();
        let v = match self.reader.read_var_uint() {
            Ok(v) => v,
            Err(e) => {
                return Err(e);
            },
        };
        if v >= self.color_count {
            return Err(ParseError { kind: ErrorKind::IndexOutOfRange, offset });
        }
        Ok(v as usize)
    }

    /// Consume one style of the given variant: a flat color index, or a
    /// gradient's two points and two color indices.
    fn style(&mut self, variant: StyleVariant) -> (r: Result<Style, ParseError>)
        requires
            old(self).wf(),
        ensures
            final(self).steps(*old(self)),
            match r {
                Ok(st) => {
                    let rem = old(self).remaining();
                    &&& style_decodes(rem, variant, old(self).coordinate_range, old(self).color_count)
                    &&& st == style_at(rem, variant, old(self).coordinate_range)
                    &&& style_wf(st, old(self).color_count)
                    &&& final(self).pos() == old(self).pos() + style_size(
                        rem,
                        variant,
                        old(self).coordinate_range,
                    )
                },
                Err(e) => {
                    &&& !style_decodes(
                        old(self).remaining(),
                        variant,
                        old(self).coordinate_range,
                        old(self).color_count,
                    )
                    &&& e.kind == style_fail_kind(
                        old(self).remaining(),
                        variant,
                        old(self).coordinate_range,
                        old(self).color_count,
                    )
                    &&& (e.kind == ErrorKind::UnexpectedEof || e.kind == ErrorKind::VarintOverflow
                        || e.kind == ErrorKind::IndexOutOfRange)
                },
            },
    {
        let ghost rem = self.remaining();
        let ghost cr = self.coordinate_range;
        match variant {
            StyleVariant::FlatColor => {
                let color_index = match self.color_index() {
                    Ok(v) => v,
                    Err(e) => {
                        return Err(e);
                    },
                };
                Ok(Style::FlatColor { color_index })
            },
            StyleVariant::LinearGradient => {
                let point_0 = match self.point() {
                    Ok(p) => p,
                    Err(e) => {
                        return Err(e);
                    },
                };
                let ghost rem1 = self.remaining();
                proof {
                    assert(rem1 =~= rem.skip(2 * cr_width(cr)));
                }
                let point_1 = match self.point() {
                    Ok(p) => p,
                    Err(e) => {
                        return Err(e);
                    },
                };
                let ghost rem2 = self.remaining();
                proof {
                    assert(rem2 =~= rem.skip(4 * cr_width(cr)));
                }
                let color_index_0 = match self.color_index() {
                    Ok(v) => v,
                    Err(e) => {
                        return Err(e);
                    },
                };
                let ghost rem3 = self.remaining();
                proof {
                    assert(rem3 =~= rem.skip(4 * cr_width(cr) + varint_size(rem2)));
                }
                let color_index_1 = match self.color_index() {
                    Ok(v) => v,
                    Err(e) => {
                        return Err(e);
                    },
                };
                Ok(Style::LinearGradient { point_0, point_1, color_index_0, color_index_1 })
            },
            StyleVariant::RadialGradient => {
                let point_0 = match self.point() {
                    Ok(p) => p,
                    Err(e) => {
                        return Err(e);
                    },
                };
                let ghost rem1 = self.remaining();
                proof {
                    assert(rem1 =~= rem.skip(2 * cr_width(cr)));
                }
                let point_1 = match self.point() {
                    Ok(p) => p,
                    Err(e) => {
                        return Err(e);
                    },
                };
                let ghost rem2 = self.remaining();
                proof {
                    assert(rem2 =~= rem.skip(4 * cr_width(cr)));
                }
                let color_index_0 = match self.color_index() {
                    Ok(v) => v,
                    Err(e) => {
                        return Err(e);
                    },
                };
                let ghost rem3 = self.remaining();
                proof {
                    assert(rem3 =~= rem.skip(4 * cr_width(cr) + varint_size(rem2)));
                }
                let color_index_1 = match self.color_index() {
                    Ok(v) => v,
                    Err(e) => {
                        return Err(e);
                    },
                };
                Ok(Style::RadialGradient { point_0, point_1, color_index_0, color_index_1 })
            },
        }
    }

    /// Consume one count prefix: a varint plus one. The result is
    /// rejected when it exceeds the remaining input length, so that no
    /// allocation can outgrow the input.
    fn read_count(&mut self) -> (r: Result<usize, ParseError>)
        requires
            old(self).wf(),
        ensures
            final(self).steps(*old(self)),
            match r {
                Ok(c) => {
                    let rem = old(self).remaining();
                    &&& varint_ok(rem)
                    &&& c == varint_value(rem) + 1
                    &&& 1 <= c <= final(self).remaining().len()
                    &&& final(self).pos() == old(self).pos() + varint_size(rem)
                },
                Err(e) => {
                    let rem = old(self).remaining();
                    &&& (e.kind == ErrorKind::UnexpectedEof <==> varint_eof(rem))
                    &&& (e.kind == ErrorKind::VarintOverflow <==> varint_overflow(rem))
                    &&& (e.kind == ErrorKind::ResourceExhausted <==> varint_ok(rem) && varint_value(
                        rem,
                    ) + 1 > rem.len() - varint_size(rem))
                    &&& (e.kind == ErrorKind::UnexpectedEof || e.kind == ErrorKind::VarintOverflow
                        || e.kind == ErrorKind::ResourceExhausted)
                    &&& e.offset == old(self).pos()
                },
            },
    {
        let offset = self.reader.bytes_read();
        let v = match self.reader.read_var_uint() {
            Ok(v) => v,
            Err(e) => {
                return Err(e);
            },
        };
        if v as usize >= self.reader.remaining_len() {
            return Err(ParseError { kind: ErrorKind::ResourceExhausted, offset });
        }
        Ok(v as usize + 1)
    }

    /// Consume `count` points.
    fn read_points(&mut self, count: usize) -> (r: Result<Vec<Point>, ParseError>)
        requires
            old(self).wf(),
        ensures
            final(self).steps(*old(self)),
            match r {
                Ok(v) => {
                    let rem = old(self).remaining();
                    let ps = 2 * cr_width(old(self).coordinate_range);
                    &&& rem.len() >= count * ps
                    &&& v@.len() == count
                    &&& forall|i: int|
                        0 <= i < count ==> #[trigger] v@[i] == point_at(
                            rem.skip(i * ps),
                            old(self).coordinate_range,
                        )
                    &&& final(self).pos() == old(self).pos() + count * ps
                },
                Err(e) => e.kind == ErrorKind::UnexpectedEof && old(self).remaining().len() < count
                    * (2 * cr_width(old(self).coordinate_range)),
            },
    {
        let ghost rem = self.remaining();
        let ghost ps = 2 * cr_width(self.coordinate_range);
        let mut items: Vec<Point> = Vec::new();
        let mut i: usize = 0;
        while i < count
            invariant
                self.wf(),
                self.data() == old(self).data(),
                old(self).same_cfg(*self),
                i <= count,
                rem == old(self).remaining(),
                ps == 2 * cr_width(old(self).coordinate_range),
                items@.len() == i as int,
                self.pos() == old(self).pos() + i * ps,
                rem.len() >= i * ps,
                forall|j: int|
                    0 <= j < i as int ==> #[trigger] items@[j] == point_at(
                        rem.skip(j * ps),
                        old(self).coordinate_range,
                    ),
            decreases count - i,
        {
            let ghost pre = self.remaining();
            proof {
                assert(pre =~= rem.skip(i as int * ps));
                vstd::arithmetic::mul::lemma_mul_is_distributive_add_other_way(ps, i as int, 1);
            }
            let p = match self.point() {
                Ok(p) => p,
                Err(e) => {
                    proof {
                        assert(rem.len() < (i as int + 1) * ps);
                        vstd::arithmetic::mul::lemma_mul_inequality(i as int + 1, count as int, ps);
                    }
                    return Err(e);
                },
            };
            items.push(p);
            i = i + 1;
        }
        Ok(items)
    }

    /// Consume `count` rectangles.
    fn read_rectangles(&mut self, count: usize) -> (r: Result<Vec<Rect>, ParseError>)
        requires
            old(self).wf(),
        ensures
            final(self).steps(*old(self)),
            match r {
                Ok(v) => {
                    let rem = old(self).remaining();
                    let rs = 4 * cr_width(old(self).coordinate_range);
                    &&& rem.len() >= count * rs
                    &&& v@.len() == count
                    &&& forall|i: int|
                        0 <= i < count ==> #[trigger] v@[i] == rect_at(
                            rem.skip(i * rs),
                            old(self).coordinate_range,
                        )
                    &&& final(self).pos() == old(self).pos() + count * rs
                },
                Err(e) => e.kind == ErrorKind::UnexpectedEof && old(self).remaining().len() < count
                    * (4 * cr_width(old(self).coordinate_range)),
            },
    {
        let ghost rem = self.remaining();
        let ghost rs = 4 * cr_width(self.coordinate_range);
        let mut items: Vec<Rect> = Vec::new();
        let mut i: usize = 0;
        while i < count
            invariant
                self.wf(),
                self.data() == old(self).data(),
                old(self).same_cfg(*self),
                i <= count,
                rem == old(self).remaining(),
                rs == 4 * cr_width(old(self).coordinate_range),
                items@.len() == i as int,
                self.pos() == old(self).pos() + i * rs,
                rem.len() >= i * rs,
                forall|j: int|
                    0 <= j < i as int ==> #[trigger] items@[j] == rect_at(
                        rem.skip(j * rs),
                        old(self).coordinate_range,
                    ),
            decreases count - i,
        {
            let ghost pre = self.remaining();
            proof {
                assert(pre =~= rem.skip(i as int * rs));
                vstd::arithmetic::mul::lemma_mul_is_distributive_add_other_way(rs, i as int, 1);
            }
            let rect = match self.rectangle() {
                Ok(rect) => rect,
                Err(e) => {
                    proof {
                        assert(rem.len() < (i as int + 1) * rs);
                        vstd::arithmetic::mul::lemma_mul_inequality(i as int + 1, count as int, rs);
                    }
                    return Err(e);
                },
            };
            items.push(rect);
            i = i + 1;
        }
        Ok(items)
    }

    /// Consume `count` lines.
    fn read_lines(&mut self, count: usize) -> (r: Result<Vec<Line>, ParseError>)
        requires
            old(self).wf(),
        ensures
            final(self).steps(*old(self)),
            match r {
                Ok(v) => {
                    let rem = old(self).remaining();
                    let ls = 4 * cr_width(old(self).coordinate_range);
                    &&& rem.len() >= count * ls
                    &&& v@.len() == count
                    &&& forall|i: int|
                        0 <= i < count ==> #[trigger] v@[i] == line_at(
                            rem.skip(i * ls),
                            old(self).coordinate_range,
                        )
                    &&& final(self).pos() == old(self).pos() + count * ls
                },
                Err(e) => e.kind == ErrorKind::UnexpectedEof && old(self).remaining().len() < count
                    * (4 * cr_width(old(self).coordinate_range)),
            },
    {
        let ghost rem = self.remaining();
        let ghost ls = 4 * cr_width(self.coordinate_range);
        let mut items: Vec<Line> = Vec::new();
        let mut i: usize = 0;
        while i < count
            invariant
                self.wf(),
                self.data() == old(self).data(),
                old(self).same_cfg(*self),
                i <= count,
                rem == old(self).remaining(),
                ls == 4 * cr_width(old(self).coordinate_range),
                items@.len() == i as int,
                self.pos() == old(self).pos() + i * ls,
                rem.len() >= i * ls,
                forall|j: int|
                    0 <= j < i as int ==> #[trigger] items@[j] == line_at(
                        rem.skip(j * ls),
                        old(self).coordinate_range,
                    ),
            decreases count - i,
        {
            let ghost pre = self.remaining();
            proof {
                assert(pre =~= rem.skip(i as int * ls));
                vstd::arithmetic::mul::lemma_mul_is_distributive_add_other_way(ls, i as int, 1);
            }
            let l = match self.line() {
                Ok(l) => l,
                Err(e) => {
                    proof {
                        assert(rem.len() < (i as int + 1) * ls);
                        vstd::arithmetic::mul::lemma_mul_inequality(i as int + 1, count as int, ls);
                    }
                    return Err(e);
                },
            };
            items.push(l);
            i = i + 1;
        }
        Ok(items)
    }

    /// Consume one segment tag byte and, when flagged, the stroke-width
    /// override that follows it: the low 3 bits name the instruction,
    /// bit 3 flags the override, the high 4 bits are reserved and
    /// ignored.
    fn segment_command_tag(&mut self) -> (r: Result<SegmentCommandTag, ParseError>)
        requires
            old(self).wf(),
        ensures
            final(self).steps(*old(self)),
            match r {
                Ok(t) => {
                    let rem = old(self).remaining();
                    let b = rem[0];
                    let w = cr_width(old(self).coordinate_range);
                    &&& rem.len() >= 1
                    &&& t.instruction == seg_variant_of((b % 8) as int)
                    &&& if (b / 8) % 2 == 1 {
                        &&& rem.len() >= 1 + w
                        &&& t.line_width matches Some(u) && u.raw as int == unit_at(
                            rem.skip(1),
                            old(self).coordinate_range,
                        )
                        &&& final(self).pos() == old(self).pos() + 1 + w
                    } else {
                        &&& t.line_width is None
                        &&& final(self).pos() == old(self).pos() + 1
                    }
                },
                Err(e) => {
                    let rem = old(self).remaining();
                    &&& e.kind == ErrorKind::UnexpectedEof
                    &&& (rem.len() == 0 || ((rem[0] / 8) % 2 == 1 && rem.len() < 1 + cr_width(
                        old(self).coordinate_range,
                    )))
                    &&& e.offset == old(self).pos() + (if rem.len() == 0 {
                        0int
                    } else {
                        1int
                    })
                },
            },
    {
        let raw = match self.reader.read_u8() {
            Ok(b) => b,
            Err(e) => {
                return Err(e);
            },
        };
        let ghost rem = old(self).remaining();
        let has_line_width = (raw / 8) % 2 == 1;
        let line_width = if has_line_width {
            proof {
                assert(self.remaining() =~= rem.skip(1));
            }
            match self.read_unit() {
                Ok(u) => Some(u),
                Err(e) => {
                    return Err(e);
                },
            }
        } else {
            None
        };
        let instruction = match raw % 8 {
            0 => SegmentCommandVariant::Line,
            1 => SegmentCommandVariant::HorizontalLine,
            2 => SegmentCommandVariant::VerticalLine,
            3 => SegmentCommandVariant::CubicBezier,
            4 => SegmentCommandVariant::ArcCircle,
            5 => SegmentCommandVariant::ArcEllipse,
            6 => SegmentCommandVariant::ClosePath,
            _ => SegmentCommandVariant::QuadraticBezier,
        };
        Ok(SegmentCommandTag { line_width, instruction })
    }

    /// Consume the body of a straight-line instruction: its end point.
    fn segment_command_line(&mut self) -> (r: Result<SegmentCommandKind, ParseError>)
        requires
            old(self).wf(),
        ensures
            final(self).steps(*old(self)),
            match r {
                Ok(k) => k == (SegmentCommandKind::Line {
                    end: point_at(old(self).remaining(), old(self).coordinate_range),
                }) && final(self).pos() == old(self).pos() + 2 * cr_width(
                    old(self).coordinate_range,
                ),
                Err(e) => ({
                    let w = cr_width(old(self).coordinate_range);
                    let n = old(self).remaining().len();
                    e.kind == ErrorKind::UnexpectedEof && n < 2 * w && e.offset == old(self).pos()
                        + w * (n as int / w)
                }),
            },
    {
        let end = match self.point() {
            Ok(p) => p,
            Err(e) => {
                return Err(e);
            },
        };
        Ok(SegmentCommandKind::Line { end })
    }

    /// Consume the body of a horizontal-line instruction: the new
    /// horizontal coordinate.
    fn segment_command_horizontal_line(&mut self) -> (r: Result<SegmentCommandKind, ParseError>)
        requires
            old(self).wf(),
        ensures
            final(self).steps(*old(self)),
            match r {
                Ok(k) => k matches SegmentCommandKind::HorizontalLine { x } && x.raw as int
                    == unit_at(old(self).remaining(), old(self).coordinate_range) && final(self).pos() == old(self).pos() + cr_width(old(self).coordinate_range),
                Err(e) => e.kind == ErrorKind::UnexpectedEof && old(self).remaining().len()
                    < cr_width(old(self).coordinate_range) && e.offset == old(self).pos(),
            },
    {
        let x = match self.read_unit() {
            Ok(u) => u,
            Err(e) => {
                return Err(e);
            },
        };
        Ok(SegmentCommandKind::HorizontalLine { x })
    }

    /// Consume the body of a vertical-line instruction: the new
    /// vertical coordinate.
    fn segment_command_vertical_line(&mut self) -> (r: Result<SegmentCommandKind, ParseError>)
        requires
            old(self).wf(),
        ensures
            final(self).steps(*old(self)),
            match r {
                Ok(k) => k matches SegmentCommandKind::VerticalLine { y } && y.raw as int
                    == unit_at(old(self).remaining(), old(self).coordinate_range) && final(self).pos() == old(self).pos() + cr_width(old(self).coordinate_range),
                Err(e) => e.kind == ErrorKind::UnexpectedEof && old(self).remaining().len()
                    < cr_width(old(self).coordinate_range) && e.offset == old(self).pos(),
            },
    {
        let y = match self.read_unit() {
            Ok(u) => u,
            Err(e) => {
                return Err(e);
            },
        };
        Ok(SegmentCommandKind::VerticalLine { y })
    }

    /// Consume the body of a cubic Bezier instruction: two control
    /// points and the end point.
    fn segment_command_cubic_bezier(&mut self) -> (r: Result<SegmentCommandKind, ParseError>)
        requires
            old(self).wf(),
        ensures
            final(self).steps(*old(self)),
            match r {
                Ok(k) => {
                    let rem = old(self).remaining();
                    let cr = old(self).coordinate_range;
                    let ps = 2 * cr_width(cr);
                    &&& k == (SegmentCommandKind::CubicBezier {
                        control_0: point_at(rem, cr),
                        control_1: point_at(rem.skip(ps), cr),
                        point_1: point_at(rem.skip(2 * ps), cr),
                    })
                    &&& final(self).pos() == old(self).pos() + 3 * ps
                },
                Err(e) => ({
                    let w = cr_width(old(self).coordinate_range);
                    let n = old(self).remaining().len();
                    e.kind == ErrorKind::UnexpectedEof && n < 6 * w && e.offset == old(self).pos()
                        + w * (n as int / w)
                }),
            },
    {
        let ghost rem = self.remaining();
        let ghost w = cr_width(self.coordinate_range);
        let ghost ps = 2 * w;
        let ghost n = rem.len() as int;
        let control_0 = match self.point() {
            Ok(p) => p,
            Err(e) => {
                return Err(e);
            },
        };
        let ghost rem1 = self.remaining();
        let control_1 = match self.point() {
            Ok(p) => p,
            Err(e) => {
                proof {
                    lemma_div_shift(n, w, 2);
                }
                return Err(e);
            },
        };
        let ghost rem2 = self.remaining();
        let point_1 = match self.point() {
            Ok(p) => p,
            Err(e) => {
                proof {
                    lemma_div_shift(n, w, 4);
                }
                return Err(e);
            },
        };
        proof {
            assert(rem1 =~= rem.skip(ps));
            assert(rem2 =~= rem.skip(2 * ps));
        }
        Ok(SegmentCommandKind::CubicBezier { control_0, control_1, point_1 })
    }

    /// Consume the body of a circular-arc instruction: the arc header,
    /// the radius and the target point.
    fn segment_command_arc_circle(&mut self) -> (r: Result<SegmentCommandKind, ParseError>)
        requires
            old(self).wf(),
        ensures
            final(self).steps(*old(self)),
            match r {
                Ok(k) => {
                    let rem = old(self).remaining();
                    let cr = old(self).coordinate_range;
                    let w = cr_width(cr);
                    let b = rem[0];
                    &&& rem.len() >= 1
                    &&& k == (SegmentCommandKind::ArcCircle {
                        large: b >= 128,
                        sweep: if (b / 64) % 2 == 1 {
                            Sweep::Left
                        } else {
                            Sweep::Right
                        },
                        radius: Unit { raw: unit_at(rem.skip(1), cr) as i32 },
                        target: point_at(rem.skip(1 + w), cr),
                    })
                    &&& final(self).pos() == old(self).pos() + 1 + 3 * w
                },
                Err(e) => ({
                    let w = cr_width(old(self).coordinate_range);
                    let n = old(self).remaining().len();
                    e.kind == ErrorKind::UnexpectedEof && n < 1 + 3 * w && e.offset == old(self).pos() + (if n == 0 {
                        0int
                    } else {
                        1 + w * ((n - 1) as int / w)
                    })
                }),
            },
    {
        let ghost rem = self.remaining();
        let ghost w = cr_width(self.coordinate_range);
        let (large, sweep) = match self.arc_header() {
            Ok(v) => v,
            Err(e) => {
                return Err(e);
            },
        };
        let ghost n = rem.len() as int;
        let ghost rem1 = self.remaining();
        let radius = match self.read_unit() {
            Ok(u) => u,
            Err(e) => {
                proof {
                    lemma_stride_quotient(n - 1, w, 0);
                }
                return Err(e);
            },
        };
        let ghost rem2 = self.remaining();
        let target = match self.point() {
            Ok(p) => p,
            Err(e) => {
                proof {
                    lemma_div_shift(n - 1, w, 1);
                }
                return Err(e);
            },
        };
        proof {
            assert(rem1 =~= rem.skip(1));
            assert(rem2 =~= rem.skip(1 + w));
        }
        Ok(SegmentCommandKind::ArcCircle { large, sweep, radius, target })
    }

    /// Consume the body of an elliptical-arc instruction: the arc
    /// header, both radii, the rotation and the target point.
    fn segment_command_arc_ellipse(&mut self) -> (r: Result<SegmentCommandKind, ParseError>)
        requires
            old(self).wf(),
        ensures
            final(self).steps(*old(self)),
            match r {
                Ok(k) => {
                    let rem = old(self).remaining();
                    let cr = old(self).coordinate_range;
                    let w = cr_width(cr);
                    let b = rem[0];
                    &&& rem.len() >= 1
                    &&& k == (SegmentCommandKind::ArcEllipse {
                        large: b >= 128,
                        sweep: if (b / 64) % 2 == 1 {
                            Sweep::Left
                        } else {
                            Sweep::Right
                        },
                        radius_x: Unit { raw: unit_at(rem.skip(1), cr) as i32 },
                        radius_y: Unit { raw: unit_at(rem.skip(1 + w), cr) as i32 },
                        rotation: Unit { raw: unit_at(rem.skip(1 + 2 * w), cr) as i32 },
                        target: point_at(rem.skip(1 + 3 * w), cr),
                    })
                    &&& final(self).pos() == old(self).pos() + 1 + 5 * w
                },
                Err(e) => ({
                    let w = cr_width(old(self).coordinate_range);
                    let n = old(self).remaining().len();
                    e.kind == ErrorKind::UnexpectedEof && n < 1 + 5 * w && e.offset == old(self).pos() + (if n == 0 {
                        0int
                    } else {
                        1 + w * ((n - 1) as int / w)
                    })
                }),
            },
    {
        let ghost rem = self.remaining();
        let ghost w = cr_width(self.coordinate_range);
        let (large, sweep) = match self.arc_header() {
            Ok(v) => v,
            Err(e) => {
                return Err(e);
            },
        };
        let ghost n = rem.len() as int;
        let ghost rem1 = self.remaining();
        let radius_x = match self.read_unit() {
            Ok(u) => u,
            Err(e) => {
                proof {
                    lemma_stride_quotient(n - 1, w, 0);
                }
                return Err(e);
            },
        };
        let ghost rem2 = self.remaining();
        let radius_y = match self.read_unit() {
            Ok(u) => u,
            Err(e) => {
                proof {
                    lemma_stride_quotient(n - 1, w, 1);
                }
                return Err(e);
            },
        };
        let ghost rem3 = self.remaining();
        let rotation = match self.read_unit() {
            Ok(u) => u,
            Err(e) => {
                proof {
                    lemma_stride_quotient(n - 1, w, 2);
                }
                return Err(e);
            },
        };
        let ghost rem4 = self.remaining();
        let target = match self.point() {
            Ok(p) => p,
            Err(e) => {
                proof {
                    lemma_div_shift(n - 1, w, 3);
                }
                return Err(e);
            },
        };
        proof {
            assert(rem1 =~= rem.skip(1));
            assert(rem2 =~= rem.skip(1 + w));
            assert(rem3 =~= rem.skip(1 + 2 * w));
            assert(rem4 =~= rem.skip(1 + 3 * w));
        }
        Ok(SegmentCommandKind::ArcEllipse { large, sweep, radius_x, radius_y, rotation, target })
    }

    /// Consume the body of a quadratic Bezier instruction: the control
    /// point and the end point.
    fn segment_command_quadratic_bezier(&mut self) -> (r: Result<SegmentCommandKind, ParseError>)
        requires
            old(self).wf(),
        ensures
            final(self).steps(*old(self)),
            match r {
                Ok(k) => {
                    let rem = old(self).remaining();
                    let cr = old(self).coordinate_range;
                    let ps = 2 * cr_width(cr);
                    &&& k == (SegmentCommandKind::QuadraticBezier {
                        control: point_at(rem, cr),
                        point_1: point_at(rem.skip(ps), cr),
                    })
                    &&& final(self).pos() == old(self).pos() + 2 * ps
                },
                Err(e) => ({
                    let w = cr_width(old(self).coordinate_range);
                    let n = old(self).remaining().len();
                    e.kind == ErrorKind::UnexpectedEof && n < 4 * w && e.offset == old(self).pos()
                        + w * (n as int / w)
                }),
            },
    {
        let ghost rem = self.remaining();
        let ghost w = cr_width(self.coordinate_range);
        let ghost ps = 2 * w;
        let ghost n = rem.len() as int;
        let control = match self.point() {
            Ok(p) => p,
            Err(e) => {
                return Err(e);
            },
        };
        let ghost rem1 = self.remaining();
        let point_1 = match self.point() {
            Ok(p) => p,
            Err(e) => {
                proof {
                    lemma_div_shift(n, w, 2);
                }
                return Err(e);
            },
        };
        proof {
            assert(rem1 =~= rem.skip(ps));
        }
        Ok(SegmentCommandKind::QuadraticBezier { control, point_1 })
    }

    /// Consume one segment instruction: its tag byte, the optional
    /// stroke-width override, and its geometry. Succeeds if and only if
    /// the bytes form one, and returns exactly what they denote.
    #[verifier::rlimit(60)]
    fn segment_command(&mut self) -> (r: Result<SegmentCommand, ParseError>)
        requires
            old(self).wf(),
        ensures
            final(self).steps(*old(self)),
            match r {
                Ok(c) => ({
                    let rem = old(self).remaining();
                    let cr = old(self).coordinate_range;
                    &&& seg_cmd_decodes(rem, cr)
                    &&& c == seg_cmd_at(rem, cr)
                    &&& final(self).pos() == old(self).pos() + seg_cmd_size(rem, cr)
                }),
                Err(e) => e.kind == ErrorKind::UnexpectedEof && !seg_cmd_decodes(
                    old(self).remaining(),
                    old(self).coordinate_range,
                ),
            },
    {
        let ghost cur = self.remaining();
        let ghost cr_g = self.coordinate_range;
        let ghost w = cr_width(cr_g);
        let ghost p0 = self.pos();
        let tag = match self.segment_command_tag() {
            Ok(t) => t,
            Err(e) => {
                proof {
                    if cur.len() >= 1 {
                        assert(seg_body_size((cur[0] % 8) as int, cr_g) >= 0);
                    }
                    assert(!seg_cmd_decodes(cur, cr_g));
                }
                return Err(e);
            },
        };
        let ghost b = cur[0];
        let ghost wofs: int = if (b / 8) % 2 == 1 {
            1 + w
        } else {
            1
        };
        let ghost body_rem = self.remaining();
        proof {
            assert(body_rem =~= cur.skip(wofs));
        }

        let kind = match tag.instruction {
            SegmentCommandVariant::Line => {
                proof {
                    assert(b % 8 == 0);
                }
                match self.segment_command_line() {
                    Ok(k) => {
                        proof {
                            reveal(crate::parser::seg_kind_at);
                            assert(k == seg_kind_at((b % 8) as int, body_rem, cr_g));
                        }
                        k
                    },
                    Err(e) => {
                        proof {
                            assert(!seg_cmd_decodes(cur, cr_g));
                        }
                        return Err(e);
                    },
                }
            },
            SegmentCommandVariant::HorizontalLine => {
                proof {
                    assert(b % 8 == 1);
                }
                match self.segment_command_horizontal_line() {
                    Ok(k) => {
                        proof {
                            reveal(crate::parser::seg_kind_at);
                            assert(k == seg_kind_at((b % 8) as int, body_rem, cr_g));
                        }
                        k
                    },
                    Err(e) => {
                        proof {
                            assert(!seg_cmd_decodes(cur, cr_g));
                        }
                        return Err(e);
                    },
                }
            },
            SegmentCommandVariant::VerticalLine => {
                proof {
                    assert(b % 8 == 2);
                }
                match self.segment_command_vertical_line() {
                    Ok(k) => {
                        proof {
                            reveal(crate::parser::seg_kind_at);
                            assert(k == seg_kind_at((b % 8) as int, body_rem, cr_g));
                        }
                        k
                    },
                    Err(e) => {
                        proof {
                            assert(!seg_cmd_decodes(cur, cr_g));
                        }
                        return Err(e);
                    },
                }
            },
            SegmentCommandVariant::CubicBezier => {
                proof {
                    assert(b % 8 == 3);
                }
                match self.segment_command_cubic_bezier() {
                    Ok(k) => {
                        proof {
                            reveal(crate::parser::seg_kind_at);
                            assert(k == seg_kind_at((b % 8) as int, body_rem, cr_g));
                        }
                        k
                    },
                    Err(e) => {
                        proof {
                            assert(!seg_cmd_decodes(cur, cr_g));
                        }
                        return Err(e);
                    },
                }
            },
            SegmentCommandVariant::ArcCircle => {
                proof {
                    assert(b % 8 == 4);
                }
                match self.segment_command_arc_circle() {
                    Ok(k) => {
                        proof {
                            reveal(crate::parser::seg_kind_at);
                            assert(k == seg_kind_at((b % 8) as int, body_rem, cr_g));
                        }
                        k
                    },
                    Err(e) => {
                        proof {
                            assert(!seg_cmd_decodes(cur, cr_g));
                        }
                        return Err(e);
                    },
                }
            },
            SegmentCommandVariant::ArcEllipse => {
                proof {
                    assert(b % 8 == 5);
                }
                match self.segment_command_arc_ellipse() {
                    Ok(k) => {
                        proof {
                            reveal(crate::parser::seg_kind_at);
                            assert(k == seg_kind_at((b % 8) as int, body_rem, cr_g));
                        }
                        k
                    },
                    Err(e) => {
                        proof {
                            assert(!seg_cmd_decodes(cur, cr_g));
                        }
                        return Err(e);
                    },
                }
            },
            SegmentCommandVariant::ClosePath => {
                proof {
                    assert(b % 8 == 6);
                    reveal(crate::parser::seg_kind_at);
                    assert(SegmentCommandKind::ClosePath == seg_kind_at(
                        (b % 8) as int,
                        body_rem,
                        cr_g,
                    ));
                }
                SegmentCommandKind::ClosePath
            },
            SegmentCommandVariant::QuadraticBezier => {
                proof {
                    assert(b % 8 == 7);
                }
                match self.segment_command_quadratic_bezier() {
                    Ok(k) => {
                        proof {
                            reveal(crate::parser::seg_kind_at);
                            assert(k == seg_kind_at((b % 8) as int, body_rem, cr_g));
                        }
                        k
                    },
                    Err(e) => {
                        proof {
                            assert(!seg_cmd_decodes(cur, cr_g));
                        }
                        return Err(e);
                    },
                }
            },
        };
        proof {
            assert(kind == seg_kind_at((b % 8) as int, body_rem, cr_g));
            assert(self.pos() == p0 + seg_cmd_size(cur, cr_g));
            assert(seg_cmd_decodes(cur, cr_g));
            if (b / 8) % 2 == 1 {
                assert(tag.line_width == Some(Unit { raw: unit_at(cur.skip(1), cr_g) as i32 }));
            }
        }
        Ok(SegmentCommand { kind, line_width: tag.line_width })
    }

    /// Consume one segment: its start point, then exactly
    /// `segment_size` instructions. Succeeds if and only if the bytes
    /// form such a segment, and returns exactly the instructions the
    /// bytes denote.
    fn segment(&mut self, segment_size: usize) -> (r: Result<Segment, ParseError>)
        requires
            old(self).wf(),
        ensures
            final(self).steps(*old(self)),
            match r {
                Ok(seg) => ({
                    let rem = old(self).remaining();
                    let cr = old(self).coordinate_range;
                    let inner = rem.skip(2 * cr_width(cr));
                    &&& segment_decodes(rem, cr, segment_size as nat)
                    &&& seg.start == point_at(rem, cr)
                    &&& seg.commands@ == seg_cmds_at(inner, cr, segment_size as nat)
                    &&& seg.commands@.len() == segment_size
                    &&& final(self).pos() == old(self).pos() + 2 * cr_width(cr) + seg_cmds_size(
                        inner,
                        cr,
                        segment_size as nat,
                    )
                }),
                Err(e) => e.kind == ErrorKind::UnexpectedEof && !segment_decodes(
                    old(self).remaining(),
                    old(self).coordinate_range,
                    segment_size as nat,
                ),
            },
    {
        let ghost rem = self.remaining();
        let ghost cr_g = self.coordinate_range;
        let ghost w = cr_width(cr_g);
        let ghost nn = segment_size as nat;
        let start = match self.point() {
            Ok(p) => p,
            Err(e) => {
                return Err(e);
            },
        };
        let ghost inner = self.remaining();
        proof {
            assert(inner =~= rem.skip(2 * w));
        }

        let mut commands: Vec<SegmentCommand> = Vec::new();
        let mut i: usize = 0;
        proof {
            assert(seg_cmds_at(inner, cr_g, 0nat) =~= Seq::<SegmentCommand>::empty());
            assert(commands@.add(seg_cmds_at(inner, cr_g, nn)) =~= seg_cmds_at(inner, cr_g, nn));
        }
        while i < segment_size
            invariant
                self.wf(),
                self.data() == old(self).data(),
                old(self).same_cfg(*self),
                cr_g == old(self).coordinate_range,
                w == cr_width(cr_g),
                nn == segment_size as nat,
                i <= segment_size,
                commands@.len() == i as int,
                old(self).pos() <= self.pos() <= self.data().len(),
                inner == old(self).remaining().skip(2 * w),
                old(self).remaining().len() >= 2 * w,
                seg_cmds_decode(inner, cr_g, nn) <==> seg_cmds_decode(
                    self.remaining(),
                    cr_g,
                    (nn - i) as nat,
                ),
                seg_cmds_decode(inner, cr_g, nn) ==> seg_cmds_at(inner, cr_g, nn) == commands@.add(
                    seg_cmds_at(self.remaining(), cr_g, (nn - i) as nat),
                ) && self.pos() + seg_cmds_size(self.remaining(), cr_g, (nn - i) as nat) == old(
                    self,
                ).pos() + 2 * w + seg_cmds_size(inner, cr_g, nn),
            decreases segment_size - i,
        {
            let ghost cur = self.remaining();
            let c = match self.segment_command() {
                Ok(c) => c,
                Err(e) => {
                    proof {
                        assert(!seg_cmds_decode(cur, cr_g, (nn - i) as nat));
                    }
                    return Err(e);
                },
            };
            proof {
                assert(self.remaining() =~= cur.skip(seg_cmd_size(cur, cr_g)));
                if seg_cmds_decode(inner, cr_g, nn) {
                    assert(seg_cmds_at(cur, cr_g, (nn - i) as nat) == seq![c].add(
                        seg_cmds_at(self.remaining(), cr_g, (nn - i - 1) as nat),
                    ));
                    assert(commands@.add(seq![c]).add(
                        seg_cmds_at(self.remaining(), cr_g, (nn - i - 1) as nat),
                    ) =~= commands@.add(
                        seq![c].add(seg_cmds_at(self.remaining(), cr_g, (nn - i - 1) as nat)),
                    ));
                }
                assert(commands@.push(c) =~= commands@.add(seq![c]));
            }
            commands.push(c);
            i = i + 1;
        }
        proof {
            assert(seg_cmds_decode(self.remaining(), cr_g, 0nat));
            assert(seg_cmds_at(self.remaining(), cr_g, 0nat) =~= Seq::<SegmentCommand>::empty());
            assert(commands@.add(Seq::<SegmentCommand>::empty()) =~= commands@);
            assert(seg_cmds_size(self.remaining(), cr_g, 0nat) == 0);
        }

        Ok(Segment { start, commands })
    }

    /// Consume one path of `count` segments: first the `count` length
    /// prefixes (each a varint plus one, bounded against the remaining
    /// input), then each segment with exactly its declared number of
    /// instructions. Succeeds if and only if the bytes form such a
    /// path, and returns exactly the segments the bytes denote.
    fn read_path(&mut self, count: usize) -> (r: Result<Vec<Segment>, ParseError>)
        requires
            old(self).wf(),
        ensures
            final(self).steps(*old(self)),
            match r {
                Ok(v) => ({
                    let rem = old(self).remaining();
                    let cr = old(self).coordinate_range;
                    &&& path_decodes(rem, cr, count as nat)
                    &&& path_match(v@, rem, cr, count as nat)
                    &&& v@.len() == count
                    &&& path_wf(v@)
                    &&& (forall|i: int|
                        0 <= i < count ==> (#[trigger] v@[i]).commands@.len() == lengths_at(
                            rem,
                            count as nat,
                        )[i])
                    &&& final(self).pos() == old(self).pos() + path_size(rem, cr, count as nat)
                }),
                Err(e) => ({
                    &&& !path_decodes(
                        old(self).remaining(),
                        old(self).coordinate_range,
                        count as nat,
                    )
                    &&& (e.kind == ErrorKind::UnexpectedEof || e.kind == ErrorKind::VarintOverflow
                        || e.kind == ErrorKind::ResourceExhausted)
                }),
            },
    {
        let ghost rem = self.remaining();
        let ghost cr_g = self.coordinate_range;
        let ghost nn = count as nat;

        let mut segment_lengths: Vec<usize> = Vec::new();
        let mut i: usize = 0;
        proof {
            assert(segment_lengths@.map_values(|x: usize| x as int) =~= Seq::<int>::empty());
            assert(Seq::<int>::empty().add(lengths_at(rem, nn)) =~= lengths_at(rem, nn));
        }
        while i < count
            invariant
                self.wf(),
                self.data() == old(self).data(),
                old(self).same_cfg(*self),
                cr_g == old(self).coordinate_range,
                nn == count as nat,
                old(self).pos() <= self.pos() <= self.data().len(),
                rem == old(self).remaining(),
                i <= count,
                segment_lengths@.len() == i as int,
                forall|j: int| 0 <= j < i as int ==> #[trigger] segment_lengths@[j] >= 1,
                lengths_decode(rem, nn) <==> lengths_decode(self.remaining(), (nn - i) as nat),
                lengths_decode(rem, nn) ==> lengths_at(rem, nn) == segment_lengths@.map_values(
                    |x: usize| x as int,
                ).add(lengths_at(self.remaining(), (nn - i) as nat)) && self.pos() + lengths_size(
                    self.remaining(),
                    (nn - i) as nat,
                ) == old(self).pos() + lengths_size(rem, nn),
            decreases count - i,
        {
            let ghost cur = self.remaining();
            let ghost done = segment_lengths@.map_values(|x: usize| x as int);
            let n = match self.read_count() {
                Ok(n) => n,
                Err(e) => {
                    proof {
                        assert(!lengths_decode(cur, (nn - i) as nat));
                    }
                    return Err(e);
                },
            };
            proof {
                assert(self.remaining() =~= cur.skip(varint_size(cur)));
                assert(lengths_decode(cur, (nn - i) as nat) <==> lengths_decode(
                    self.remaining(),
                    (nn - i - 1) as nat,
                ));
                if lengths_decode(rem, nn) {
                    assert(lengths_at(cur, (nn - i) as nat) == seq![varint_value(cur) as int + 1].add(
                        lengths_at(self.remaining(), (nn - i - 1) as nat),
                    ));
                    assert(done.add(seq![n as int]).add(
                        lengths_at(self.remaining(), (nn - i - 1) as nat),
                    ) =~= done.add(
                        seq![n as int].add(lengths_at(self.remaining(), (nn - i - 1) as nat)),
                    ));
                }
                assert(segment_lengths@.push(n).map_values(|x: usize| x as int) =~= done.add(
                    seq![n as int],
                ));
            }
            segment_lengths.push(n);
            i = i + 1;
        }

        let ghost ls = lengths_at(rem, nn);
        let ghost s0 = self.remaining();
        proof {
            assert(lengths_decode(self.remaining(), 0nat));
            assert(lengths_decode(rem, nn));
            assert(lengths_at(self.remaining(), 0nat) =~= Seq::<int>::empty());
            assert(segment_lengths@.map_values(|x: usize| x as int).add(Seq::<int>::empty()) =~= (
            segment_lengths@.map_values(|x: usize| x as int)));
            assert(ls == segment_lengths@.map_values(|x: usize| x as int));
            assert(lengths_size(self.remaining(), 0nat) == 0);
            assert(self.pos() == old(self).pos() + lengths_size(rem, nn));
            assert(s0 =~= rem.skip(lengths_size(rem, nn)));
            lemma_lengths_at_pos(rem, nn);
            assert(ls.take(0) =~= Seq::<int>::empty());
            assert(segments_match(Seq::<Segment>::empty(), s0, cr_g, ls.take(0)));
            assert(segments_decode(s0, cr_g, ls.take(0)));
            assert(segments_size(s0, cr_g, ls.take(0)) == 0);
            assert(ls.skip(0) =~= ls);
        }

        let mut items: Vec<Segment> = Vec::new();
        let mut k: usize = 0;
        while k < count
            invariant
                self.wf(),
                self.data() == old(self).data(),
                old(self).same_cfg(*self),
                cr_g == old(self).coordinate_range,
                nn == count as nat,
                old(self).pos() <= self.pos() <= self.data().len(),
                rem == old(self).remaining(),
                lengths_decode(rem, nn),
                ls == lengths_at(rem, nn),
                ls.len() == nn,
                forall|j: int| 0 <= j < ls.len() ==> #[trigger] ls[j] >= 1,
                s0 == rem.skip(lengths_size(rem, nn)),
                count == segment_lengths@.len(),
                ls == segment_lengths@.map_values(|x: usize| x as int),
                k <= count,
                items@.len() == k as int,
                segments_decode(s0, cr_g, ls.take(k as int)),
                segments_match(items@, s0, cr_g, ls.take(k as int)),
                self.pos() == old(self).pos() + lengths_size(rem, nn) + segments_size(
                    s0,
                    cr_g,
                    ls.take(k as int),
                ),
                segments_decode(s0, cr_g, ls) <==> segments_decode(
                    self.remaining(),
                    cr_g,
                    ls.skip(k as int),
                ),
            decreases count - k,
        {
            let ghost cur = self.remaining();
            let segment_length = segment_lengths[k];
            proof {
                assert(ls[k as int] == segment_length as int);
                assert(ls.skip(k as int)[0] == ls[k as int]);
                lemma_segments_size_bounds(s0, cr_g, ls.take(k as int));
                lemma_lengths_size_bounds(rem, nn);
                assert(cur =~= s0.skip(segments_size(s0, cr_g, ls.take(k as int))));
            }
            let seg = match self.segment(segment_length) {
                Ok(seg) => seg,
                Err(e) => {
                    proof {
                        assert(!segments_decode(cur, cr_g, ls.skip(k as int)));
                        assert(!segments_decode(s0, cr_g, ls));
                    }
                    return Err(e);
                },
            };
            proof {
                lemma_segments_match_snoc(
                    items@,
                    s0,
                    cr_g,
                    ls.take(k as int),
                    seg,
                    segment_length as int,
                );
                assert(ls.take(k as int).push(segment_length as int) =~= ls.take(k as int + 1));
                assert(items@.push(seg) == items@.push(seg));
                assert(self.remaining() =~= cur.skip(
                    segment_size(cur, cr_g, segment_length as nat),
                ));
                assert(ls.skip(k as int).drop_first() =~= ls.skip(k as int + 1));
                assert(segments_decode(cur, cr_g, ls.skip(k as int)) <==> segments_decode(
                    self.remaining(),
                    cr_g,
                    ls.skip(k as int + 1),
                ));
            }
            items.push(seg);
            k = k + 1;
        }
        proof {
            assert(ls.take(count as int) =~= ls);
            assert(ls.skip(count as int) =~= Seq::<int>::empty());
            assert(segments_decode(self.remaining(), cr_g, Seq::<int>::empty()));
            assert(segments_decode(s0, cr_g, ls));
            lemma_segments_match_pointwise(items@, s0, cr_g, ls);
            assert forall|j: int| 0 <= j < items@.len() implies segment_wf(
                #[trigger] items@[j],
            ) by {
                assert(items@[j].commands@.len() == ls[j]);
            }
        }
        Ok(items)
    }

    /// Consume the body of a fill-polygon command: a count prefix, the
    /// fill style, then that many points.
    fn fill_polygon(&mut self, style_variant: StyleVariant) -> (r: Result<Command, ParseError>)
        requires
            old(self).wf(),
        ensures
            final(self).steps(*old(self)),
            match r {
                Ok(c) => ({
                    let rem = old(self).remaining();
                    let cr = old(self).coordinate_range;
                    let cc = old(self).color_count;
                    &&& counted_items_decodes(rem, style_variant, cr, cc, 2 * cr_width(cr))
                    &&& fill_polygon_matches(c, rem, style_variant, cr)
                    &&& command_wf(c, cc)
                    &&& final(self).pos() == old(self).pos() + counted_items_size(
                        rem,
                        style_variant,
                        cr,
                        2 * cr_width(cr),
                    )
                }),
                Err(e) => ({
                    &&& !counted_items_decodes(
                        old(self).remaining(),
                        style_variant,
                        old(self).coordinate_range,
                        old(self).color_count,
                        2 * cr_width(old(self).coordinate_range),
                    )
                    &&& (e.kind == ErrorKind::UnexpectedEof || e.kind == ErrorKind::VarintOverflow
                        || e.kind == ErrorKind::ResourceExhausted || e.kind
                        == ErrorKind::IndexOutOfRange)
                }),
            },
    {
        let ghost rem = self.remaining();
        let count = match self.read_count() {
            Ok(c) => c,
            Err(e) => {
                return Err(e);
            },
        };
        let ghost s1 = self.remaining();
        proof {
            assert(s1 =~= rem.skip(varint_size(rem)));
        }
        let fill_style = match self.style(style_variant) {
            Ok(st) => st,
            Err(e) => {
                return Err(e);
            },
        };
        let ghost s2 = self.remaining();
        proof {
            assert(s2 =~= s1.skip(style_size(s1, style_variant, old(self).coordinate_range)));
        }
        let polygon = match self.read_points(count) {
            Ok(v) => v,
            Err(e) => {
                return Err(e);
            },
        };
        Ok(Command::FillPolygon { fill_style, polygon, outline: None })
    }

    /// Consume the body of a fill-rectangles command: a count prefix,
    /// the fill style, then that many rectangles.
    fn fill_rectangles(&mut self, style_variant: StyleVariant) -> (r: Result<Command, ParseError>)
        requires
            old(self).wf(),
        ensures
            final(self).steps(*old(self)),
            match r {
                Ok(c) => ({
                    let rem = old(self).remaining();
                    let cr = old(self).coordinate_range;
                    let cc = old(self).color_count;
                    &&& counted_items_decodes(rem, style_variant, cr, cc, 4 * cr_width(cr))
                    &&& fill_rectangles_matches(c, rem, style_variant, cr)
                    &&& command_wf(c, cc)
                    &&& final(self).pos() == old(self).pos() + counted_items_size(
                        rem,
                        style_variant,
                        cr,
                        4 * cr_width(cr),
                    )
                }),
                Err(e) => ({
                    &&& !counted_items_decodes(
                        old(self).remaining(),
                        style_variant,
                        old(self).coordinate_range,
                        old(self).color_count,
                        4 * cr_width(old(self).coordinate_range),
                    )
                    &&& (e.kind == ErrorKind::UnexpectedEof || e.kind == ErrorKind::VarintOverflow
                        || e.kind == ErrorKind::ResourceExhausted || e.kind
                        == ErrorKind::IndexOutOfRange)
                }),
            },
    {
        let ghost rem = self.remaining();
        let count = match self.read_count() {
            Ok(c) => c,
            Err(e) => {
                return Err(e);
            },
        };
        let ghost s1 = self.remaining();
        proof {
            assert(s1 =~= rem.skip(varint_size(rem)));
        }
        let fill_style = match self.style(style_variant) {
            Ok(st) => st,
            Err(e) => {
                return Err(e);
            },
        };
        let ghost s2 = self.remaining();
        proof {
            assert(s2 =~= s1.skip(style_size(s1, style_variant, old(self).coordinate_range)));
        }
        let rectangles = match self.read_rectangles(count) {
            Ok(v) => v,
            Err(e) => {
                return Err(e);
            },
        };
        Ok(Command::FillRectangles { fill_style, rectangles, outline: None })
    }

    /// Consume the body of a fill-path command: a count prefix, the
    /// fill style, then a path of that many segments.
    fn fill_path(&mut self, style_variant: StyleVariant) -> (r: Result<Command, ParseError>)
        requires
            old(self).wf(),
        ensures
            final(self).steps(*old(self)),
            match r {
                Ok(c) => ({
                    let rem = old(self).remaining();
                    let cr = old(self).coordinate_range;
                    let cc = old(self).color_count;
                    &&& counted_path_decodes(rem, style_variant, cr, cc)
                    &&& fill_path_matches(c, rem, style_variant, cr)
                    &&& command_wf(c, cc)
                    &&& final(self).pos() == old(self).pos() + counted_path_size(
                        rem,
                        style_variant,
                        cr,
                    )
                }),
                Err(e) => ({
                    &&& !counted_path_decodes(
                        old(self).remaining(),
                        style_variant,
                        old(self).coordinate_range,
                        old(self).color_count,
                    )
                    &&& (e.kind == ErrorKind::UnexpectedEof || e.kind == ErrorKind::VarintOverflow
                        || e.kind == ErrorKind::ResourceExhausted || e.kind
                        == ErrorKind::IndexOutOfRange)
                }),
            },
    {
        let ghost rem = self.remaining();
        let count = match self.read_count() {
            Ok(c) => c,
            Err(e) => {
                return Err(e);
            },
        };
        let ghost s1 = self.remaining();
        proof {
            assert(s1 =~= rem.skip(varint_size(rem)));
        }
        let fill_style = match self.style(style_variant) {
            Ok(st) => st,
            Err(e) => {
                return Err(e);
            },
        };
        let ghost s2 = self.remaining();
        proof {
            assert(s2 =~= s1.skip(style_size(s1, style_variant, old(self).coordinate_range)));
        }
        let path = match self.read_path(count) {
            Ok(v) => v,
            Err(e) => {
                return Err(e);
            },
        };
        Ok(Command::FillPath { fill_style, path, outline: None })
    }

    /// Consume the body of a draw-lines command: a count prefix, the
    /// stroke style, the stroke width, then that many lines.
    fn draw_lines(&mut self, style_variant: StyleVariant) -> (r: Result<Command, ParseError>)
        requires
            old(self).wf(),
        ensures
            final(self).steps(*old(self)),
            match r {
                Ok(c) => ({
                    let rem = old(self).remaining();
                    let cr = old(self).coordinate_range;
                    let cc = old(self).color_count;
                    &&& stroked_items_decodes(rem, style_variant, cr, cc, 4 * cr_width(cr))
                    &&& draw_lines_matches(c, rem, style_variant, cr)
                    &&& command_wf(c, cc)
                    &&& final(self).pos() == old(self).pos() + stroked_items_size(
                        rem,
                        style_variant,
                        cr,
                        4 * cr_width(cr),
                    )
                }),
                Err(e) => ({
                    &&& !stroked_items_decodes(
                        old(self).remaining(),
                        style_variant,
                        old(self).coordinate_range,
                        old(self).color_count,
                        4 * cr_width(old(self).coordinate_range),
                    )
                    &&& (e.kind == ErrorKind::UnexpectedEof || e.kind == ErrorKind::VarintOverflow
                        || e.kind == ErrorKind::ResourceExhausted || e.kind
                        == ErrorKind::IndexOutOfRange)
                }),
            },
    {
        let ghost rem = self.remaining();
        let count = match self.read_count() {
            Ok(c) => c,
            Err(e) => {
                return Err(e);
            },
        };
        let ghost s1 = self.remaining();
        proof {
            assert(s1 =~= rem.skip(varint_size(rem)));
        }
        let line_style = match self.style(style_variant) {
            Ok(st) => st,
            Err(e) => {
                return Err(e);
            },
        };
        let ghost s2 = self.remaining();
        proof {
            assert(s2 =~= s1.skip(style_size(s1, style_variant, old(self).coordinate_range)));
        }
        let line_width = match self.read_unit() {
            Ok(u) => u,
            Err(e) => {
                return Err(e);
            },
        };
        let ghost s3 = self.remaining();
        proof {
            assert(s3 =~= s2.skip(cr_width(old(self).coordinate_range)));
        }
        let lines = match self.read_lines(count) {
            Ok(v) => v,
            Err(e) => {
                return Err(e);
            },
        };
        Ok(Command::DrawLines { line_style, line_width, lines })
    }

    /// Consume the body of a line-loop command: a count prefix, the
    /// stroke style, the stroke width, then that many chained points;
    /// the chain is closed back to its start.
    fn draw_line_loop(&mut self, style_variant: StyleVariant) -> (r: Result<Command, ParseError>)
        requires
            old(self).wf(),
        ensures
            final(self).steps(*old(self)),
            match r {
                Ok(c) => ({
                    let rem = old(self).remaining();
                    let cr = old(self).coordinate_range;
                    let cc = old(self).color_count;
                    &&& stroked_items_decodes(rem, style_variant, cr, cc, 2 * cr_width(cr))
                    &&& line_chain_matches(c, rem, style_variant, cr, true)
                    &&& command_wf(c, cc)
                    &&& final(self).pos() == old(self).pos() + stroked_items_size(
                        rem,
                        style_variant,
                        cr,
                        2 * cr_width(cr),
                    )
                }),
                Err(e) => ({
                    &&& !stroked_items_decodes(
                        old(self).remaining(),
                        style_variant,
                        old(self).coordinate_range,
                        old(self).color_count,
                        2 * cr_width(old(self).coordinate_range),
                    )
                    &&& (e.kind == ErrorKind::UnexpectedEof || e.kind == ErrorKind::VarintOverflow
                        || e.kind == ErrorKind::ResourceExhausted || e.kind
                        == ErrorKind::IndexOutOfRange)
                }),
            },
    {
        let ghost rem = self.remaining();
        let count = match self.read_count() {
            Ok(c) => c,
            Err(e) => {
                return Err(e);
            },
        };
        let ghost s1 = self.remaining();
        proof {
            assert(s1 =~= rem.skip(varint_size(rem)));
        }
        let line_style = match self.style(style_variant) {
            Ok(st) => st,
            Err(e) => {
                return Err(e);
            },
        };
        let ghost s2 = self.remaining();
        proof {
            assert(s2 =~= s1.skip(style_size(s1, style_variant, old(self).coordinate_range)));
        }
        let line_width = match self.read_unit() {
            Ok(u) => u,
            Err(e) => {
                return Err(e);
            },
        };
        let ghost s3 = self.remaining();
        proof {
            assert(s3 =~= s2.skip(cr_width(old(self).coordinate_range)));
        }
        let points = match self.read_points(count) {
            Ok(v) => v,
            Err(e) => {
                return Err(e);
            },
        };
        Ok(Command::DrawLineLoop { line_style, line_width, close_path: true, points })
    }

    /// Consume the body of a line-strip command: like a line loop, but
    /// the chain stays open.
    fn draw_line_strip(&mut self, style_variant: StyleVariant) -> (r: Result<Command, ParseError>)
        requires
            old(self).wf(),
        ensures
            final(self).steps(*old(self)),
            match r {
                Ok(c) => ({
                    let rem = old(self).remaining();
                    let cr = old(self).coordinate_range;
                    let cc = old(self).color_count;
                    &&& stroked_items_decodes(rem, style_variant, cr, cc, 2 * cr_width(cr))
                    &&& line_chain_matches(c, rem, style_variant, cr, false)
                    &&& command_wf(c, cc)
                    &&& final(self).pos() == old(self).pos() + stroked_items_size(
                        rem,
                        style_variant,
                        cr,
                        2 * cr_width(cr),
                    )
                }),
                Err(e) => ({
                    &&& !stroked_items_decodes(
                        old(self).remaining(),
                        style_variant,
                        old(self).coordinate_range,
                        old(self).color_count,
                        2 * cr_width(old(self).coordinate_range),
                    )
                    &&& (e.kind == ErrorKind::UnexpectedEof || e.kind == ErrorKind::VarintOverflow
                        || e.kind == ErrorKind::ResourceExhausted || e.kind
                        == ErrorKind::IndexOutOfRange)
                }),
            },
    {
        let ghost rem = self.remaining();
        let count = match self.read_count() {
            Ok(c) => c,
            Err(e) => {
                return Err(e);
            },
        };
        let ghost s1 = self.remaining();
        proof {
            assert(s1 =~= rem.skip(varint_size(rem)));
        }
        let line_style = match self.style(style_variant) {
            Ok(st) => st,
            Err(e) => {
                return Err(e);
            },
        };
        let ghost s2 = self.remaining();
        proof {
            assert(s2 =~= s1.skip(style_size(s1, style_variant, old(self).coordinate_range)));
        }
        let line_width = match self.read_unit() {
            Ok(u) => u,
            Err(e) => {
                return Err(e);
            },
        };
        let ghost s3 = self.remaining();
        proof {
            assert(s3 =~= s2.skip(cr_width(old(self).coordinate_range)));
        }
        let points = match self.read_points(count) {
            Ok(v) => v,
            Err(e) => {
                return Err(e);
            },
        };
        Ok(Command::DrawLineLoop { line_style, line_width, close_path: false, points })
    }

    /// Consume the body of a draw-line-path command: a count prefix,
    /// the stroke style, the stroke width, then a path of that many
    /// segments.
    #[verifier::rlimit(30)]
    fn draw_line_path(&mut self, style_variant: StyleVariant) -> (r: Result<Command, ParseError>)
        requires
            old(self).wf(),
        ensures
            final(self).steps(*old(self)),
            match r {
                Ok(c) => ({
                    let rem = old(self).remaining();
                    let cr = old(self).coordinate_range;
                    let cc = old(self).color_count;
                    &&& stroked_path_decodes(rem, style_variant, cr, cc)
                    &&& draw_line_path_matches(c, rem, style_variant, cr)
                    &&& command_wf(c, cc)
                    &&& final(self).pos() == old(self).pos() + stroked_path_size(
                        rem,
                        style_variant,
                        cr,
                    )
                }),
                Err(e) => ({
                    &&& !stroked_path_decodes(
                        old(self).remaining(),
                        style_variant,
                        old(self).coordinate_range,
                        old(self).color_count,
                    )
                    &&& (e.kind == ErrorKind::UnexpectedEof || e.kind == ErrorKind::VarintOverflow
                        || e.kind == ErrorKind::ResourceExhausted || e.kind
                        == ErrorKind::IndexOutOfRange)
                }),
            },
    {
        let ghost rem = self.remaining();
        let count = match self.read_count() {
            Ok(c) => c,
            Err(e) => {
                return Err(e);
            },
        };
        let ghost s1 = self.remaining();
        proof {
            assert(s1 =~= rem.skip(varint_size(rem)));
        }
        let line_style = match self.style(style_variant) {
            Ok(st) => st,
            Err(e) => {
                return Err(e);
            },
        };
        let ghost s2 = self.remaining();
        proof {
            assert(s2 =~= s1.skip(style_size(s1, style_variant, old(self).coordinate_range)));
        }
        let line_width = match self.read_unit() {
            Ok(u) => u,
            Err(e) => {
                return Err(e);
            },
        };
        let ghost s3 = self.remaining();
        proof {
            assert(s3 =~= s2.skip(cr_width(old(self).coordinate_range)));
        }
        let path = match self.read_path(count) {
            Ok(v) => v,
            Err(e) => {
                return Err(e);
            },
        };
        Ok(Command::DrawLinePath { line_style, line_width, path })
    }

    /// Consume the shared front of an outline-fill command: the
    /// count-and-secondary-style byte, the fill style under the primary
    /// tag, the stroke style under the secondary tag, and the stroke
    /// width. Returns the fill style, the outline, and the item count
    /// (the low 6 bits plus one).
    #[verifier::rlimit(100)]
    fn outline_fill_cmd(&mut self, primary_style: StyleVariant) -> (r: Result<
        (Style, OutlineStyle, usize),
        ParseError,
    >)
        requires
            old(self).wf(),
        ensures
            final(self).steps(*old(self)),
            match r {
                Ok(v) => ({
                    let rem = old(self).remaining();
                    let cr = old(self).coordinate_range;
                    let cc = old(self).color_count;
                    &&& rem.len() >= 1
                    &&& outline_prelude_decodes(rem, primary_style, cr, cc)
                    &&& v.0 == style_at(rem.skip(1), primary_style, cr)
                    &&& v.1 == outline_at(rem, primary_style, cr)
                    &&& v.2 == rem[0] % 64 + 1
                    &&& style_wf(v.0, cc)
                    &&& style_wf(v.1.line_style, cc)
                    &&& final(self).pos() == old(self).pos() + outline_prelude_size(
                        rem,
                        primary_style,
                        cr,
                    )
                }),
                Err(e) => ({
                    &&& !outline_prelude_decodes(
                        old(self).remaining(),
                        primary_style,
                        old(self).coordinate_range,
                        old(self).color_count,
                    )
                    &&& (e.kind == ErrorKind::UnexpectedEof || e.kind
                        == ErrorKind::UnsupportedEncoding || e.kind == ErrorKind::VarintOverflow
                        || e.kind == ErrorKind::IndexOutOfRange)
                }),
            },
    {
        proof {
            reveal(crate::parser::outline_prelude_decodes);
            reveal(crate::parser::outline_prelude_size);
            reveal(crate::parser::outline_at);
        }
        let ghost rem = self.remaining();
        let ghost cr = self.coordinate_range;
        let offset = self.reader.bytes_read();
        let (segment_count, secondary_tag) = match self.u6_u2() {
            Ok(v) => v,
            Err(e) => {
                return Err(e);
            },
        };
        let secondary_style = match Self::style_variant(secondary_tag, offset) {
            Ok(v) => v,
            Err(e) => {
                return Err(e);
            },
        };
        let ghost s1 = self.remaining();
        proof {
            assert(s1 =~= rem.skip(1));
            assert(secondary_style == style_variant_of((rem[0] / 64) as int));
        }
        let fill_style = match self.style(primary_style) {
            Ok(st) => st,
            Err(e) => {
                return Err(e);
            },
        };
        let ghost s2 = self.remaining();
        proof {
            assert(s2 =~= s1.skip(style_size(s1, primary_style, cr)));
        }
        let line_style = match self.style(secondary_style) {
            Ok(st) => st,
            Err(e) => {
                return Err(e);
            },
        };
        let ghost s3 = self.remaining();
        proof {
            assert(s3 =~= s2.skip(style_size(s2, secondary_style, cr)));
        }
        let line_width = match self.read_unit() {
            Ok(u) => u,
            Err(e) => {
                return Err(e);
            },
        };
        proof {
            assert(line_width == (Unit {
                raw: unit_at(s3, cr) as i32,
            }));
            assert((OutlineStyle { line_style, line_width }) == outline_at(
                rem,
                primary_style,
                cr,
            ));
        }
        Ok((fill_style, OutlineStyle { line_style, line_width }, segment_count as usize + 1))
    }

    /// Consume the body of an outlined fill-polygon command.
    #[verifier::rlimit(100)]
    fn outline_fill_polygon(&mut self, primary_style: StyleVariant) -> (r: Result<
        Command,
        ParseError,
    >)
        requires
            old(self).wf(),
        ensures
            final(self).steps(*old(self)),
            match r {
                Ok(c) => ({
                    let rem = old(self).remaining();
                    let cr = old(self).coordinate_range;
                    let cc = old(self).color_count;
                    &&& outline_items_decodes(rem, primary_style, cr, cc, 2 * cr_width(cr))
                    &&& outline_polygon_matches(c, rem, primary_style, cr)
                    &&& command_wf(c, cc)
                    &&& final(self).pos() == old(self).pos() + outline_items_size(
                        rem,
                        primary_style,
                        cr,
                        2 * cr_width(cr),
                    )
                }),
                Err(e) => ({
                    &&& !outline_items_decodes(
                        old(self).remaining(),
                        primary_style,
                        old(self).coordinate_range,
                        old(self).color_count,
                        2 * cr_width(old(self).coordinate_range),
                    )
                    &&& (e.kind == ErrorKind::UnexpectedEof || e.kind
                        == ErrorKind::UnsupportedEncoding || e.kind == ErrorKind::VarintOverflow
                        || e.kind == ErrorKind::IndexOutOfRange)
                }),
            },
    {
        let ghost rem = self.remaining();
        let ghost cr_g = self.coordinate_range;
        let (fill_style, outline, count) = match self.outline_fill_cmd(primary_style) {
            Ok(v) => v,
            Err(e) => {
                return Err(e);
            },
        };
        let ghost s4 = self.remaining();
        proof {
            assert(s4 =~= rem.skip(outline_prelude_size(rem, primary_style, cr_g)));
        }
        let polygon = match self.read_points(count) {
            Ok(v) => v,
            Err(e) => {
                return Err(e);
            },
        };
        let c = Command::FillPolygon { fill_style, polygon, outline: Some(outline) };
        proof {
            assert(outline_polygon_matches(c, rem, primary_style, cr_g));
        }
        Ok(c)
    }

    /// Consume the body of an outlined fill-rectangles command.
    #[verifier::rlimit(100)]
    fn outline_fill_rectangles(&mut self, primary_style: StyleVariant) -> (r: Result<
        Command,
        ParseError,
    >)
        requires
            old(self).wf(),
        ensures
            final(self).steps(*old(self)),
            match r {
                Ok(c) => ({
                    let rem = old(self).remaining();
                    let cr = old(self).coordinate_range;
                    let cc = old(self).color_count;
                    &&& outline_items_decodes(rem, primary_style, cr, cc, 4 * cr_width(cr))
                    &&& outline_rectangles_matches(c, rem, primary_style, cr)
                    &&& command_wf(c, cc)
                    &&& final(self).pos() == old(self).pos() + outline_items_size(
                        rem,
                        primary_style,
                        cr,
                        4 * cr_width(cr),
                    )
                }),
                Err(e) => ({
                    &&& !outline_items_decodes(
                        old(self).remaining(),
                        primary_style,
                        old(self).coordinate_range,
                        old(self).color_count,
                        4 * cr_width(old(self).coordinate_range),
                    )
                    &&& (e.kind == ErrorKind::UnexpectedEof || e.kind
                        == ErrorKind::UnsupportedEncoding || e.kind == ErrorKind::VarintOverflow
                        || e.kind == ErrorKind::IndexOutOfRange)
                }),
            },
    {
        let ghost rem = self.remaining();
        let ghost cr_g = self.coordinate_range;
        let (fill_style, outline, count) = match self.outline_fill_cmd(primary_style) {
            Ok(v) => v,
            Err(e) => {
                return Err(e);
            },
        };
        let ghost s4 = self.remaining();
        proof {
            assert(s4 =~= rem.skip(outline_prelude_size(rem, primary_style, cr_g)));
        }
        let rectangles = match self.read_rectangles(count) {
            Ok(v) => v,
            Err(e) => {
                return Err(e);
            },
        };
        let c = Command::FillRectangles { fill_style, rectangles, outline: Some(outline) };
        proof {
            assert(outline_rectangles_matches(c, rem, primary_style, cr_g));
        }
        Ok(c)
    }

    /// Consume the body of an outlined fill-path command. Unlike the
    /// other outline commands, the low 6 bits are taken as the segment
    /// count directly, without adding one; the wire format leaves this
    /// asymmetry in place.
    fn outline_fill_path(&mut self, primary_style: StyleVariant) -> (r: Result<Command, ParseError>)
        requires
            old(self).wf(),
        ensures
            final(self).steps(*old(self)),
            match r {
                Ok(c) => ({
                    let rem = old(self).remaining();
                    let cr = old(self).coordinate_range;
                    let cc = old(self).color_count;
                    &&& outline_path_decodes(rem, primary_style, cr, cc)
                    &&& outline_path_matches(c, rem, primary_style, cr)
                    &&& command_wf(c, cc)
                    &&& final(self).pos() == old(self).pos() + outline_path_size(
                        rem,
                        primary_style,
                        cr,
                    )
                }),
                Err(e) => ({
                    &&& !outline_path_decodes(
                        old(self).remaining(),
                        primary_style,
                        old(self).coordinate_range,
                        old(self).color_count,
                    )
                    &&& (e.kind == ErrorKind::UnexpectedEof || e.kind
                        == ErrorKind::UnsupportedEncoding || e.kind == ErrorKind::VarintOverflow
                        || e.kind == ErrorKind::ResourceExhausted || e.kind
                        == ErrorKind::IndexOutOfRange)
                }),
            },
    {
        let ghost rem = self.remaining();
        let ghost cr_g = self.coordinate_range;
        let (fill_style, outline, count) = match self.outline_fill_cmd(primary_style) {
            Ok(v) => v,
            Err(e) => {
                return Err(e);
            },
        };
        let ghost s4 = self.remaining();
        proof {
            assert(s4 =~= rem.skip(outline_prelude_size(rem, primary_style, cr_g)));
        }
        let path = match self.read_path(count - 1) {
            Ok(v) => v,
            Err(e) => {
                return Err(e);
            },
        };
        let c = Command::FillPath { outline: Some(outline), fill_style, path };
        proof {
            assert(outline_path_matches(c, rem, primary_style, cr_g));
        }
        Ok(c)
    }

    /// Consume one command: its tag byte, then the body the low 6 bits
    /// select. A tag whose low 6 bits are zero is the end-of-stream
    /// sentinel and consumes nothing further; the high bits of the
    /// sentinel byte are irrelevant. Succeeds if and only if the byte
    /// is a sentinel or a complete command follows, and returns exactly
    /// the command the bytes denote.
    #[verifier::rlimit(100)]
    fn command(&mut self) -> (r: Result<Option<Command>, ParseError>)
        requires
            old(self).wf(),
        ensures
            final(self).steps(*old(self)),
            old(self).remaining().len() >= 1 && old(self).remaining()[0] % 64 == 0 ==> (
            r matches Ok(opt) && opt is None),
            command_decodes(
                old(self).remaining(),
                old(self).coordinate_range,
                old(self).color_count,
            ) ==> r is Ok,
            match r {
                Ok(opt) => match opt {
                    None => old(self).remaining().len() >= 1 && old(self).remaining()[0] % 64 == 0
                        && final(self).pos() == old(self).pos() + 1,
                    Some(c) => {
                        let rem = old(self).remaining();
                        &&& command_decodes(rem, old(self).coordinate_range, old(self).color_count)
                        &&& command_matches(c, rem, old(self).coordinate_range)
                        &&& command_wf(c, old(self).color_count)
                        &&& final(self).pos() == old(self).pos() + command_size(
                            rem,
                            old(self).coordinate_range,
                        )
                        &&& 1 <= command_size(rem, old(self).coordinate_range) <= rem.len()
                    },
                },
                Err(e) => {
                    let rem = old(self).remaining();
                    &&& !(rem.len() >= 1 && rem[0] % 64 == 0)
                    &&& !command_decodes(rem, old(self).coordinate_range, old(self).color_count)
                    &&& e.kind != ErrorKind::BadMagic
                    &&& (rem.len() >= 1 && rem[0] % 64 >= 1 && rem[0] / 64 == 3 ==> e.kind
                        == ErrorKind::UnsupportedEncoding && e.offset == old(self).pos())
                    &&& (rem.len() >= 1 && rem[0] % 64 > 10 && rem[0] / 64 <= 2 ==> e.kind
                        == ErrorKind::BadInstruction && e.offset == old(self).pos())
                    &&& (e.kind == ErrorKind::BadInstruction ==> rem.len() >= 1 && rem[0] % 64 > 10)
                },
            },
    {
        let ghost rem = self.remaining();
        let ghost cr_g = self.coordinate_range;
        let ghost cc_g = self.color_count;
        let ghost p0 = self.pos();
        let offset = self.reader.bytes_read();
        let (command_index, primary_tag) = match self.u6_u2() {
            Ok(v) => v,
            Err(e) => {
                return Err(e);
            },
        };
        if command_index == 0 {
            return Ok(None);
        }
        let primary_style = match Self::style_variant(primary_tag, offset) {
            Ok(v) => v,
            Err(e) => {
                return Err(e);
            },
        };
        let ghost body_rem = self.remaining();
        proof {
            assert(body_rem =~= rem.skip(1));
            assert(primary_style == style_variant_of((rem[0] / 64) as int));
        }
        let command = match command_index {
            1 => self.fill_polygon(primary_style),
            2 => self.fill_rectangles(primary_style),
            3 => self.fill_path(primary_style),
            4 => self.draw_lines(primary_style),
            5 => self.draw_line_loop(primary_style),
            6 => self.draw_line_strip(primary_style),
            7 => self.draw_line_path(primary_style),
            8 => self.outline_fill_polygon(primary_style),
            9 => self.outline_fill_rectangles(primary_style),
            10 => self.outline_fill_path(primary_style),
            _ => {
                return Err(ParseError { kind: ErrorKind::BadInstruction, offset });
            },
        };
        match command {
            Ok(c) => {
                proof {
                    assert(command_decodes(rem, cr_g, cc_g));
                    assert(command_matches(c, rem, cr_g));
                    assert(self.pos() == p0 + command_size(rem, cr_g));
                }
                Ok(Some(c))
            },
            Err(e) => {
                proof {
                    assert(!command_decodes(rem, cr_g, cc_g));
                }
                Err(e)
            },
        }
    }

    /// Drain the command stream into the image: commands until the
    /// sentinel, then the trailer. The image must be one that
    /// `parse_header` produced on this stream, with nothing else pushed
    /// into its trailer. Succeeds if and only if the remaining bytes
    /// form a complete command stream; the appended commands are
    /// exactly those the bytes denote, in stream order — also on
    /// failure, where whatever was fully decoded before the fault stays
    /// in the image and its invariants still hold.
    pub fn parse_commands(&mut self, image: &mut Image) -> (r: Result<(), ParseError>)
        requires
            old(self).wf(),
            image_wf(*old(image)),
            old(self).color_count == old(image).header.color_count,
            old(image).trailer@.len() == 0,
        ensures
            final(self).wf(),
            final(self).data() == old(self).data(),
            old(self).pos() <= final(self).pos() <= final(self).data().len(),
            final(image).header == old(image).header,
            final(image).color_table@ == old(image).color_table@,
            old(image).commands@.is_prefix_of(final(image).commands@),
            image_wf(*final(image)),
            prefix_matches(
                final(image).commands@.skip(old(image).commands@.len() as int),
                old(self).remaining(),
                old(self).coordinate_range,
                old(image).header.color_count,
            ),
            match r {
                Ok(()) => ({
                    let news = final(image).commands@.skip(old(image).commands@.len() as int);
                    let s2 = old(self).remaining().skip(
                        prefix_size(news, old(self).remaining(), old(self).coordinate_range),
                    );
                    &&& stream_decodes(
                        old(self).remaining(),
                        old(self).coordinate_range,
                        old(image).header.color_count,
                    )
                    &&& final(self).pos() == final(self).data().len()
                    &&& s2.len() >= 1
                    &&& s2[0] % 64 == 0
                    &&& final(image).trailer@ == s2.skip(1)
                }),
                Err(e) => ({
                    let news = final(image).commands@.skip(old(image).commands@.len() as int);
                    let s2 = old(self).remaining().skip(
                        prefix_size(news, old(self).remaining(), old(self).coordinate_range),
                    );
                    &&& !stream_decodes(
                        old(self).remaining(),
                        old(self).coordinate_range,
                        old(image).header.color_count,
                    )
                    &&& (s2.len() == 0 || (s2[0] % 64 != 0 && !command_decodes(
                        s2,
                        old(self).coordinate_range,
                        old(image).header.color_count,
                    )))
                    &&& e.kind != ErrorKind::BadMagic
                    &&& final(image).trailer@.len() == 0
                }),
            },
    {
        let ghost rem0 = self.remaining();
        let ghost cr_g = self.coordinate_range;
        let ghost cc_g = old(image).header.color_count;
        let ghost oldlen = old(image).commands@.len() as int;
        proof {
            assert(image.commands@.skip(oldlen) =~= Seq::<Command>::empty());
        }
        loop
            invariant_except_break
                self.pos() == old(self).pos() + prefix_size(
                    image.commands@.skip(oldlen),
                    rem0,
                    cr_g,
                ),
                stream_decodes(rem0, cr_g, cc_g) <==> stream_decodes(
                    self.remaining(),
                    cr_g,
                    cc_g,
                ),
            invariant
                self.wf(),
                self.data() == old(self).data(),
                old(self).pos() <= self.pos() <= self.data().len(),
                old(self).same_cfg(*self),
                cr_g == old(self).coordinate_range,
                cc_g == old(image).header.color_count,
                oldlen == old(image).commands@.len() as int,
                rem0 == old(self).remaining(),
                image.header == old(image).header,
                image.color_table@ == old(image).color_table@,
                old(image).commands@.is_prefix_of(image.commands@),
                image.trailer@.len() == 0,
                image_wf(*image),
                self.color_count == image.header.color_count,
                prefix_matches(image.commands@.skip(oldlen), rem0, cr_g, cc_g),
            ensures
                self.wf(),
                self.data() == old(self).data(),
                old(self).pos() <= self.pos() <= self.data().len(),
                old(self).same_cfg(*self),
                image.header == old(image).header,
                image.color_table@ == old(image).color_table@,
                old(image).commands@.is_prefix_of(image.commands@),
                image.trailer@.len() == 0,
                image_wf(*image),
                prefix_matches(image.commands@.skip(oldlen), rem0, cr_g, cc_g),
                stream_decodes(rem0, cr_g, cc_g),
                self.pos() == old(self).pos() + prefix_size(
                    image.commands@.skip(oldlen),
                    rem0,
                    cr_g,
                ) + 1,
                ({
                    let s2 = rem0.skip(prefix_size(image.commands@.skip(oldlen), rem0, cr_g));
                    s2.len() >= 1 && s2[0] % 64 == 0
                }),
            decreases self.data().len() - self.pos(),
        {
            let ghost cur = self.remaining();
            let ghost news = image.commands@.skip(oldlen);
            proof {
                lemma_prefix_size_bounds(news, rem0, cr_g, cc_g);
                assert(cur =~= rem0.skip(prefix_size(news, rem0, cr_g)));
            }
            match self.command() {
                Ok(Some(c)) => {
                    proof {
                        lemma_prefix_matches_snoc(news, rem0, cr_g, cc_g, c);
                        assert(self.remaining() =~= cur.skip(command_size(cur, cr_g)));
                        assert(command_wf(c, image.header.color_count));
                    }
                    image.commands.push(c);
                    proof {
                        assert(image.commands@.skip(oldlen) =~= news.push(c));
                        assert(old(image).commands@.is_prefix_of(image.commands@));
                        assert forall|i: int| 0 <= i < image.commands@.len() implies command_wf(
                            #[trigger] image.commands@[i],
                            image.header.color_count,
                        ) by {
                            if i < image.commands@.len() - 1 {
                                assert(command_wf(image.commands@[i], image.header.color_count));
                            }
                        }
                    }
                },
                Ok(None) => {
                    break ;
                },
                Err(e) => {
                    proof {
                        assert(!stream_decodes(cur, cr_g, cc_g));
                    }
                    return Err(e);
                },
            }
        }
        let trailer = self.reader.read_to_end();
        image.trailer = trailer;
        proof {
            let news = image.commands@.skip(oldlen);
            lemma_prefix_size_bounds(news, rem0, cr_g, cc_g);
            let s2 = rem0.skip(prefix_size(news, rem0, cr_g));
            assert(image.trailer@ =~= s2.skip(1));
        }
        Ok(())
    }

    /// Parse a whole stream: header, color table, commands and trailer.
    /// On success the image is exactly what the bytes denote: the
    /// header and color table byte for byte, every command before the
    /// sentinel in stream order, and the bytes after the sentinel as
    /// the trailer. Success is owed whenever the header, table and
    /// command stream all decode.
    pub fn parse(self) -> (r: Result<Image, ParseError>)
        requires
            self.wf(),
        ensures
            match r {
                Ok(img) => ({
                    let rem = self.remaining();
                    let cr = img.header.coordinate_range;
                    let cc = img.header.color_count;
                    let after = rem.skip(
                        header_size(rem) + cc * color_size(img.header.color_encoding),
                    );
                    let s2 = after.skip(prefix_size(img.commands@, after, cr));
                    &&& prefix_decoded(img, rem)
                    &&& image_wf(img)
                    &&& stream_decodes(after, cr, cc)
                    &&& prefix_matches(img.commands@, after, cr, cc)
                    &&& s2.len() >= 1
                    &&& s2[0] % 64 == 0
                    &&& img.trailer@ == s2.skip(1)
                }),
                Err(e) => true,
            },
            ({
                let rem = self.remaining();
                let cc = varint_value(
                    rem.skip(4 + 2 * cr_width(range_of((rem[3] % 4) as int))),
                ) as int;
                let cs = color_size(encoding_of(((rem[3] / 4) % 4) as int));
                let after = rem.skip(header_size(rem));
                !(header_decodes(rem) && cc <= after.len() && after.len() >= cc * cs) ==> (
                r matches Err(e) && e.kind == header_phase_fail_kind(rem))
            }),
            ({
                let rem = self.remaining();
                let cc = varint_value(
                    rem.skip(4 + 2 * cr_width(range_of((rem[3] % 4) as int))),
                ) as int;
                let cs = color_size(encoding_of(((rem[3] / 4) % 4) as int));
                let after = rem.skip(header_size(rem));
                header_decodes(rem) && cc <= after.len() && after.len() >= cc * cs
                    && stream_decodes(
                    after.skip(cc * cs),
                    range_of((rem[3] % 4) as int),
                    varint_value(rem.skip(4 + 2 * cr_width(range_of((rem[3] % 4) as int)))) as u32,
                ) ==> r is Ok
            }),
    {
        let ghost rem = self.remaining();
        let mut this = self;
        let mut image = match this.parse_header() {
            Ok(img) => img,
            Err(e) => {
                return Err(e);
            },
        };
        let ghost after = this.remaining();
        proof {
            lemma_varint_size_bounds(rem.skip(4 + 2 * cr_width(range_of((rem[3] % 4) as int))));
            vstd::arithmetic::mul::lemma_mul_nonnegative(
                image.header.color_count as int,
                color_size(image.header.color_encoding),
            );
            assert(after =~= rem.skip(
                header_size(rem) + image.header.color_count * color_size(
                    image.header.color_encoding,
                ),
            ));
            assert(rem.skip(header_size(rem)).skip(
                image.header.color_count * color_size(image.header.color_encoding),
            ) =~= after);
        }
        match this.parse_commands(&mut image) {
            Ok(()) => {
                proof {
                    assert(image.commands@.skip(0) =~= image.commands@);
                }
                Ok(image)
            },
            Err(e) => Err(e),
        }
    }
}

} // verus!
