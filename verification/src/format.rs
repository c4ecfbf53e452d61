//! In-memory representation of a TinyVG file.
//!
//! All fractional quantities are kept exactly: a coordinate is the signed
//! integer that stood on the wire, and its real value is that integer
//! divided by `2^scale`, with `scale` taken from the file header. Colors
//! keep the raw channel values of the encoding they were read under.

use vstd::prelude::*;

verus! {

/// How color values are encoded on the wire.
#[derive(Debug, PartialEq, Eq, Structural, Clone, Copy)]
pub enum ColorEncoding {
    /// RGBA color with 8 bits per channel.
    Rgba8888,
    /// RGB color with 5 bits of red, 6 bits of green and 5 bits of blue
    /// packed into one 16-bit word.
    Rgb565,
    /// RGBA color made up of 4 little-endian `f32` values.
    RgbaF32,
}

/// Width of the integers that carry coordinates, sizes and radii.
#[derive(Debug, PartialEq, Eq, Structural, Clone, Copy)]
pub enum CoordinateRange {
    /// 16 bits per coordinate value.
    Default,
    /// 8 bits per coordinate value.
    Reduced,
    /// 32 bits per coordinate value.
    Enhanced,
}

/// Image header of a TinyVG file.
#[derive(Debug, PartialEq, Eq, Structural, Clone, Copy)]
pub struct Header {
    /// Format version; the wire format specifies 1, other values are
    /// accepted and exposed verbatim.
    pub version: u8,
    /// The unit divisor is `2^scale`; always below 16.
    pub scale: u8,
    /// Encoding of the color table entries.
    pub color_encoding: ColorEncoding,
    /// Width of coordinate integers.
    pub coordinate_range: CoordinateRange,
    /// Width in display units.
    pub width: u32,
    /// Height in display units.
    pub height: u32,
    /// Number of colors in the color table.
    pub color_count: u32,
}

/// One entry of the color table, kept in the exact raw channel values of
/// the encoding it was read under. The conventional four channels in
/// `[0, 1]` arise by dividing: `x / 255` for 8-bit channels, `x / 31`
/// (red, blue) and `x / 63` (green) for the 16-bit packed encoding, and
/// reinterpreting the 32-bit words as IEEE 754 floats for the float
/// encoding.
#[derive(Debug, PartialEq, Eq, Structural, Clone, Copy)]
pub enum Color {
    /// Four 8-bit channels.
    Rgba8888 {
        /// Red channel, denominator 255.
        red: u8,
        /// Green channel, denominator 255.
        green: u8,
        /// Blue channel, denominator 255.
        blue: u8,
        /// Alpha channel, denominator 255.
        alpha: u8,
    },
    /// Channels unpacked from one 16-bit word; alpha is fully opaque.
    Rgb565 {
        /// Red channel, 5 bits, denominator 31.
        red: u8,
        /// Green channel, 6 bits, denominator 63.
        green: u8,
        /// Blue channel, 5 bits, denominator 31.
        blue: u8,
    },
    /// Four raw little-endian `f32` bit patterns, kept unreinterpreted.
    RgbaF32 {
        /// Bits of the red channel.
        red: u32,
        /// Bits of the green channel.
        green: u32,
        /// Bits of the blue channel.
        blue: u32,
        /// Bits of the alpha channel.
        alpha: u32,
    },
}

/// A signed fixed-point fractional number: the wire integer, sign
/// extended. Its real value is `raw / 2^scale` with the header's scale,
/// which is exact by construction.
#[derive(Debug, PartialEq, Eq, Structural, Clone, Copy)]
pub struct Unit {
    /// Sign-extended wire integer; the numerator of the fraction.
    pub raw: i32,
}

/// A position: two fractional coordinates.
#[derive(Debug, PartialEq, Eq, Structural, Clone, Copy)]
pub struct Point {
    /// Horizontal coordinate.
    pub x: Unit,
    /// Vertical coordinate.
    pub y: Unit,
}

/// An axis-aligned rectangle: origin and size, all fractional.
#[derive(Debug, PartialEq, Eq, Structural, Clone, Copy)]
pub struct Rect {
    /// Horizontal coordinate of the origin.
    pub x: Unit,
    /// Vertical coordinate of the origin.
    pub y: Unit,
    /// Horizontal extent.
    pub width: Unit,
    /// Vertical extent.
    pub height: Unit,
}

/// A straight line between two points.
#[derive(Debug, PartialEq, Eq, Structural, Clone, Copy)]
pub struct Line {
    /// Start point.
    pub p0: Point,
    /// End point.
    pub p1: Point,
}

/// Direction of an arc.
#[derive(Debug, PartialEq, Eq, Structural, Clone, Copy)]
pub enum Sweep {
    /// Turn left (counter-clockwise).
    Left,
    /// Turn right (clockwise).
    Right,
}

/// The color or gradient used to fill a shape or stroke a line. Color
/// indices are positions in the color table.
#[derive(Debug, PartialEq, Eq, Structural, Clone, Copy)]
pub enum Style {
    /// A single color.
    FlatColor {
        /// Position in the color table.
        color_index: usize,
    },
    /// A linear gradient between two points.
    LinearGradient {
        /// Start of the gradient axis.
        point_0: Point,
        /// End of the gradient axis.
        point_1: Point,
        /// Color at the start.
        color_index_0: usize,
        /// Color at the end.
        color_index_1: usize,
    },
    /// A radial gradient between two points.
    RadialGradient {
        /// Center of the gradient.
        point_0: Point,
        /// Point on the outer circle.
        point_1: Point,
        /// Color at the center.
        color_index_0: usize,
        /// Color at the rim.
        color_index_1: usize,
    },
}

/// The stroke drawn around a filled shape.
#[derive(Debug, PartialEq, Eq, Structural, Clone, Copy)]
pub struct OutlineStyle {
    /// Stroke width.
    pub line_width: Unit,
    /// Stroke style.
    pub line_style: Style,
}

/// One drawing instruction inside a path segment.
#[derive(Debug, PartialEq, Eq, Structural, Clone, Copy)]
pub enum SegmentCommandKind {
    /// A straight line to `end`.
    Line {
        /// End point.
        end: Point,
    },
    /// A horizontal line to the given coordinate.
    HorizontalLine {
        /// New horizontal coordinate.
        x: Unit,
    },
    /// A vertical line to the given coordinate.
    VerticalLine {
        /// New vertical coordinate.
        y: Unit,
    },
    /// A cubic Bezier curve.
    CubicBezier {
        /// First control point.
        control_0: Point,
        /// Second control point.
        control_1: Point,
        /// End point.
        point_1: Point,
    },
    /// A circular arc.
    ArcCircle {
        /// Whether to take the longer way around.
        large: bool,
        /// Direction of the turn.
        sweep: Sweep,
        /// Radius of the circle.
        radius: Unit,
        /// End point.
        target: Point,
    },
    /// An elliptical arc.
    ArcEllipse {
        /// Whether to take the longer way around.
        large: bool,
        /// Direction of the turn.
        sweep: Sweep,
        /// Radius along the first axis.
        radius_x: Unit,
        /// Radius along the second axis.
        radius_y: Unit,
        /// Rotation of the axes.
        rotation: Unit,
        /// End point.
        target: Point,
    },
    /// Close the current sub-path.
    ClosePath,
    /// A quadratic Bezier curve.
    QuadraticBezier {
        /// Control point.
        control: Point,
        /// End point.
        point_1: Point,
    },
}

/// One instruction of a path segment together with its optional
/// stroke-width override.
#[derive(Debug, PartialEq, Eq, Structural, Clone, Copy)]
pub struct SegmentCommand {
    /// What to draw.
    pub kind: SegmentCommandKind,
    /// When present, overrides the enclosing command's stroke width for
    /// this instruction alone.
    pub line_width: Option<Unit>,
}

/// A sub-path: a start point and a non-empty list of instructions.
#[derive(Debug, PartialEq, Clone)]
pub struct Segment {
    /// Where the sub-path begins.
    pub start: Point,
    /// The instructions, exactly as many as the wire declared.
    pub commands: Vec<SegmentCommand>,
}

/// A drawing command. The wire's separate outline-bearing opcodes are
/// folded into the fill commands' optional `outline`, and the two line
/// chain opcodes into `DrawLineLoop` with a `close_path` flag.
#[derive(Debug, PartialEq, Clone)]
pub enum Command {
    /// Fill a polygon.
    FillPolygon {
        /// Fill style.
        fill_style: Style,
        /// The corners, in order.
        polygon: Vec<Point>,
        /// Stroke around the shape, if the wire asked for one.
        outline: Option<OutlineStyle>,
    },
    /// Fill a list of rectangles.
    FillRectangles {
        /// Fill style.
        fill_style: Style,
        /// The rectangles.
        rectangles: Vec<Rect>,
        /// Stroke around the shapes, if the wire asked for one.
        outline: Option<OutlineStyle>,
    },
    /// Fill a path of segments.
    FillPath {
        /// Fill style.
        fill_style: Style,
        /// The sub-paths.
        path: Vec<Segment>,
        /// Stroke around the shape, if the wire asked for one.
        outline: Option<OutlineStyle>,
    },
    /// Stroke a list of separate lines.
    DrawLines {
        /// Stroke style.
        line_style: Style,
        /// Stroke width.
        line_width: Unit,
        /// The lines.
        lines: Vec<Line>,
    },
    /// Stroke a chain of points, optionally closed back to the start.
    DrawLineLoop {
        /// Stroke style.
        line_style: Style,
        /// Stroke width.
        line_width: Unit,
        /// Whether the chain is closed (a loop) or open (a strip).
        close_path: bool,
        /// The chain of points.
        points: Vec<Point>,
    },
    /// Stroke a path of segments.
    DrawLinePath {
        /// Stroke style.
        line_style: Style,
        /// Stroke width.
        line_width: Unit,
        /// The sub-paths.
        path: Vec<Segment>,
    },
}

/// A whole TinyVG file: header, color table, drawing commands, and the
/// opaque bytes that followed the end-of-commands sentinel.
#[derive(Debug, PartialEq, Clone)]
pub struct Image {
    /// The image header.
    pub header: Header,
    /// The colors used in this image; styles refer to them by position.
    pub color_table: Vec<Color>,
    /// The drawing commands, in stream order.
    pub commands: Vec<Command>,
    /// Bytes after the end of the command stream; not defined by the
    /// format.
    pub trailer: Vec<u8>,
}

/// A 5-6-5 packed color keeps its channels inside their bit widths.
pub open spec fn color_wf(c: Color) -> bool {
    match c {
        Color::Rgb565 { red, green, blue } => red < 32 && green < 64 && blue < 32,
        _ => true,
    }
}

/// The color was read under the given wire encoding.
pub open spec fn color_matches_encoding(c: Color, e: ColorEncoding) -> bool {
    match (c, e) {
        (Color::Rgba8888 { .. }, ColorEncoding::Rgba8888) => true,
        (Color::Rgb565 { .. }, ColorEncoding::Rgb565) => true,
        (Color::RgbaF32 { .. }, ColorEncoding::RgbaF32) => true,
        _ => false,
    }
}

/// Every color index of the style lies inside the color table.
pub open spec fn style_wf(s: Style, color_count: u32) -> bool {
    match s {
        Style::FlatColor { color_index } => (color_index as int) < (color_count as int),
        Style::LinearGradient { color_index_0, color_index_1, .. } => (color_index_0 as int)
            < (color_count as int) && (color_index_1 as int) < (color_count as int),
        Style::RadialGradient { color_index_0, color_index_1, .. } => (color_index_0 as int)
            < (color_count as int) && (color_index_1 as int) < (color_count as int),
    }
}

/// A segment carries at least one instruction: its declared length on
/// the wire is a count plus one.
pub open spec fn segment_wf(s: Segment) -> bool {
    s.commands@.len() >= 1
}

/// Every segment of the path is well formed.
pub open spec fn path_wf(p: Seq<Segment>) -> bool {
    forall|i: int| 0 <= i < p.len() ==> segment_wf(#[trigger] p[i])
}

/// The optional outline's style stays inside the color table.
pub open spec fn outline_wf(o: Option<OutlineStyle>, color_count: u32) -> bool {
    match o {
        Option::Some(style) => style_wf(style.line_style, color_count),
        Option::None => true,
    }
}

/// Every color index anywhere in the command lies inside the color
/// table, every item list is non-empty, and every path is well formed.
pub open spec fn command_wf(c: Command, color_count: u32) -> bool {
    match c {
        Command::FillPolygon { fill_style, polygon, outline } => style_wf(fill_style, color_count)
            && outline_wf(outline, color_count) && polygon@.len() >= 1,
        Command::FillRectangles { fill_style, rectangles, outline } => style_wf(
            fill_style,
            color_count,
        ) && outline_wf(outline, color_count) && rectangles@.len() >= 1,
        Command::FillPath { fill_style, path, outline } => style_wf(fill_style, color_count)
            && outline_wf(outline, color_count) && path_wf(path@),
        Command::DrawLines { line_style, lines, .. } => style_wf(line_style, color_count)
            && lines@.len() >= 1,
        Command::DrawLineLoop { line_style, points, .. } => style_wf(line_style, color_count)
            && points@.len() >= 1,
        Command::DrawLinePath { line_style, path, .. } => style_wf(line_style, color_count)
            && path_wf(path@),
    }
}

/// What the decoder guarantees of every image it hands out: the color
/// count matches the table, every table entry fits the header's encoding
/// and its bit widths, and every command is well formed with respect to
/// the table.
pub open spec fn image_wf(img: Image) -> bool {
    &&& img.color_table@.len() == img.header.color_count as int
    &&& img.header.scale < 16
    &&& forall|i: int|
        0 <= i < img.color_table@.len() ==> color_wf(#[trigger] img.color_table@[i])
            && color_matches_encoding(img.color_table@[i], img.header.color_encoding)
    &&& forall|i: int|
        0 <= i < img.commands@.len() ==> command_wf(
            #[trigger] img.commands@[i],
            img.header.color_count,
        )
}

} // verus!
