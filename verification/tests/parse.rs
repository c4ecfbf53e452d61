//! End-to-end scenarios: literal byte streams and the exact images they
//! decode to, plus one input for every error kind.

use tinyvg::error::ErrorKind;
use tinyvg::format::Color;
use tinyvg::format::ColorEncoding;
use tinyvg::format::Command;
use tinyvg::format::CoordinateRange;
use tinyvg::format::Header;
use tinyvg::format::SegmentCommandKind;
use tinyvg::format::Style;
use tinyvg::format::Unit;
use tinyvg::parser::Parser;

/// The real value of a fixed-point unit under the header's scale; exact
/// for every representable input.
fn unit_value(u: Unit, scale: u8) -> f64 {
    (u.raw as f64) / ((1u64 << scale) as f64)
}

#[test]
fn minimal_header_only_image() {
    // Magic, version 1, flags 0x40 (scale 4, RGBA 8888, default range),
    // width 16, height 16, zero colors, end-of-stream sentinel.
    let bytes = vec![0x72, 0x56, 0x01, 0x40, 0x10, 0x00, 0x10, 0x00, 0x00, 0x00];
    let img = Parser::new(bytes).parse().unwrap();
    assert_eq!(
        img.header,
        Header {
            version: 1,
            scale: 4,
            color_encoding: ColorEncoding::Rgba8888,
            coordinate_range: CoordinateRange::Default,
            width: 16,
            height: 16,
            color_count: 0,
        }
    );
    assert_eq!(img.color_table.len(), 0);
    assert_eq!(img.commands.len(), 0);
    assert_eq!(img.trailer.len(), 0);
}

#[test]
fn one_flat_color_filled_rectangle() {
    let bytes = vec![
        0x72, 0x56, // magic
        0x01, // version
        0x40, // scale 4, RGBA 8888, default range
        0x20, 0x00, // width 32
        0x20, 0x00, // height 32
        0x01, // one color
        0xFF, 0x00, 0x00, 0xFF, // opaque red
        0x02, // command: index 2 (fill rectangles), flat color
        0x00, // count varint: one rectangle
        0x00, // fill style: color index 0
        0x00, 0x00, // x = 0
        0x00, 0x00, // y = 0
        0x20, 0x00, // width = 32/16 = 2
        0x20, 0x00, // height = 32/16 = 2
        0x00, // end of stream
    ];
    let img = Parser::new(bytes).parse().unwrap();
    assert_eq!(img.header.scale, 4);
    assert_eq!(img.header.color_encoding, ColorEncoding::Rgba8888);
    assert_eq!(img.header.coordinate_range, CoordinateRange::Default);
    assert_eq!(img.header.width, 32);
    assert_eq!(img.header.height, 32);
    assert_eq!(img.header.color_count, 1);

    assert_eq!(img.color_table.len(), 1);
    let (r, g, b, a) = match img.color_table[0] {
        Color::Rgba8888 { red, green, blue, alpha } => (
            red as f64 / 255.0,
            green as f64 / 255.0,
            blue as f64 / 255.0,
            alpha as f64 / 255.0,
        ),
        _ => panic!("wrong color variant"),
    };
    assert_eq!((r, g, b, a), (1.0, 0.0, 0.0, 1.0));

    assert_eq!(img.commands.len(), 1);
    match &img.commands[0] {
        Command::FillRectangles { fill_style, rectangles, outline } => {
            assert_eq!(*fill_style, Style::FlatColor { color_index: 0 });
            assert!(outline.is_none());
            assert_eq!(rectangles.len(), 1);
            let rect = &rectangles[0];
            assert_eq!(rect.x.raw, 0);
            assert_eq!(rect.y.raw, 0);
            assert_eq!(rect.width.raw, 32);
            assert_eq!(rect.height.raw, 32);
            assert_eq!(unit_value(rect.x, img.header.scale), 0.0);
            assert_eq!(unit_value(rect.y, img.header.scale), 0.0);
            assert_eq!(unit_value(rect.width, img.header.scale), 2.0);
            assert_eq!(unit_value(rect.height, img.header.scale), 2.0);
        },
        _ => panic!("wrong command variant"),
    }
    assert_eq!(img.trailer.len(), 0);
}

#[test]
fn color_indices_stay_inside_table() {
    // The bound that every successful parse guarantees, checked on a
    // concrete image with a gradient and an outline.
    let bytes = vec![
        0x72, 0x56, 0x01, 0x20, // scale 2, RGBA 8888, default range
        0x08, 0x00, 0x08, 0x00, // 8 x 8
        0x02, // two colors
        0xFF, 0x00, 0x00, 0xFF, // red
        0x00, 0xFF, 0x00, 0xFF, // green
        0x41, // fill polygon, linear gradient
        0x02, // count varint: three points
        0x00, 0x00, 0x00, 0x00, // gradient point 0
        0x08, 0x00, 0x08, 0x00, // gradient point 1
        0x00, // gradient color 0
        0x01, // gradient color 1
        0x00, 0x00, 0x00, 0x00, // polygon point 1
        0x10, 0x00, 0x00, 0x00, // polygon point 2
        0x10, 0x00, 0x10, 0x00, // polygon point 3
        0x00, // end of stream
    ];
    let img = Parser::new(bytes).parse().unwrap();
    assert_eq!(img.color_table.len(), 2);
    assert_eq!(img.commands.len(), 1);
    match &img.commands[0] {
        Command::FillPolygon { fill_style, polygon, outline } => {
            match fill_style {
                Style::LinearGradient { color_index_0, color_index_1, .. } => {
                    assert!(*color_index_0 < img.color_table.len());
                    assert!(*color_index_1 < img.color_table.len());
                    assert_eq!((*color_index_0, *color_index_1), (0, 1));
                },
                _ => panic!("wrong style variant"),
            }
            assert!(outline.is_none());
            assert_eq!(polygon.len(), 3);
            assert_eq!(polygon[2].x.raw, 16);
            assert_eq!(unit_value(polygon[2].x, img.header.scale), 4.0);
        },
        _ => panic!("wrong command variant"),
    }
}

#[test]
fn coordinate_range_widths() {
    // The same 16 x 16 header under each range consumes 2, 1 and 4
    // bytes per coordinate; the trailer pins where the stream ended.
    let default_range = vec![
        0x72, 0x56, 0x01, 0x10, 0x10, 0x00, 0x10, 0x00, 0x00, 0x00, 0xAA, 0xBB,
    ];
    let img = Parser::new(default_range).parse().unwrap();
    assert_eq!(img.header.coordinate_range, CoordinateRange::Default);
    assert_eq!((img.header.width, img.header.height), (16, 16));
    assert_eq!(img.trailer, vec![0xAA, 0xBB]);

    let reduced = vec![0x72, 0x56, 0x01, 0x11, 0x10, 0x10, 0x00, 0x00, 0xAA, 0xBB];
    let img = Parser::new(reduced).parse().unwrap();
    assert_eq!(img.header.coordinate_range, CoordinateRange::Reduced);
    assert_eq!((img.header.width, img.header.height), (16, 16));
    assert_eq!(img.trailer, vec![0xAA, 0xBB]);

    let enhanced = vec![
        0x72, 0x56, 0x01, 0x12, 0x10, 0x00, 0x00, 0x00, 0x10, 0x00, 0x00, 0x00, 0x00, 0x00, 0xAA,
        0xBB,
    ];
    let img = Parser::new(enhanced).parse().unwrap();
    assert_eq!(img.header.coordinate_range, CoordinateRange::Enhanced);
    assert_eq!((img.header.width, img.header.height), (16, 16));
    assert_eq!(img.trailer, vec![0xAA, 0xBB]);
}

#[test]
fn units_sign_extend_and_scale() {
    // A line strip under the reduced range: raw 0xFF is -1, and the
    // scale-3 divisor makes it -0.125 exactly.
    let bytes = vec![
        0x72, 0x56, 0x01, 0x31, // scale 3, RGBA 8888, reduced range
        0x08, 0x08, // 8 x 8
        0x01, // one color
        0x10, 0x20, 0x30, 0xFF, // some color
        0x06, // draw line strip, flat color
        0x00, // count varint: one point
        0x00, // line style: color index 0
        0x08, // line width: raw 8 -> 1.0
        0xFF, 0x80, // point (-1, -128)
        0x00, // end of stream
    ];
    let img = Parser::new(bytes).parse().unwrap();
    match &img.commands[0] {
        Command::DrawLineLoop { line_width, close_path, points, .. } => {
            assert!(!close_path);
            assert_eq!(line_width.raw, 8);
            assert_eq!(unit_value(*line_width, 3), 1.0);
            assert_eq!(points.len(), 1);
            assert_eq!(points[0].x.raw, -1);
            assert_eq!(points[0].y.raw, -128);
            assert_eq!(unit_value(points[0].x, 3), -0.125);
            assert_eq!(unit_value(points[0].y, 3), -16.0);
        },
        _ => panic!("wrong command variant"),
    }
}

#[test]
fn line_loop_closes_and_strip_does_not() {
    let make = |opcode: u8| {
        vec![
            0x72, 0x56, 0x01, 0x01, // scale 0, RGBA 8888, reduced range
            0x08, 0x08, 0x01, // 8 x 8, one color
            0xAA, 0xBB, 0xCC, 0xFF, // some color
            opcode, 0x01, 0x00, 0x01, // two points, flat 0, width 1
            0x01, 0x02, 0x03, 0x04, // the points
            0x00, // end of stream
        ]
    };
    let looped = Parser::new(make(0x05)).parse().unwrap();
    match &looped.commands[0] {
        Command::DrawLineLoop { close_path, points, .. } => {
            assert!(*close_path);
            assert_eq!(points.len(), 2);
        },
        _ => panic!("wrong command variant"),
    }
    let strip = Parser::new(make(0x06)).parse().unwrap();
    match &strip.commands[0] {
        Command::DrawLineLoop { close_path, .. } => assert!(!close_path),
        _ => panic!("wrong command variant"),
    }
}

#[test]
fn segment_tag_with_width_override() {
    // A fill path whose single segment holds one cubic Bezier with a
    // stroke-width override: tag byte 0x0B = instruction 3, width bit.
    let bytes = vec![
        0x72, 0x56, 0x01, 0x01, // scale 0, RGBA 8888, reduced range
        0x08, 0x08, 0x01, // 8 x 8, one color
        0x11, 0x22, 0x33, 0x44, // some color
        0x03, // fill path, flat color
        0x00, // count varint: one segment
        0x00, // fill style: color index 0
        0x00, // segment length varint: one command
        0x01, 0x02, // segment start point
        0x0B, // tag: cubic Bezier with line width
        0x05, // the width override: raw 5
        0x11, 0x12, // control 0
        0x21, 0x22, // control 1
        0x31, 0x32, // end point
        0x00, // end of stream
    ];
    let img = Parser::new(bytes).parse().unwrap();
    match &img.commands[0] {
        Command::FillPath { path, outline, .. } => {
            assert!(outline.is_none());
            assert_eq!(path.len(), 1);
            let seg = &path[0];
            assert_eq!((seg.start.x.raw, seg.start.y.raw), (1, 2));
            assert_eq!(seg.commands.len(), 1);
            let sc = &seg.commands[0];
            assert_eq!(sc.line_width, Some(Unit { raw: 5 }));
            match sc.kind {
                SegmentCommandKind::CubicBezier { control_0, control_1, point_1 } => {
                    assert_eq!((control_0.x.raw, control_0.y.raw), (0x11, 0x12));
                    assert_eq!((control_1.x.raw, control_1.y.raw), (0x21, 0x22));
                    assert_eq!((point_1.x.raw, point_1.y.raw), (0x31, 0x32));
                },
                _ => panic!("wrong instruction"),
            }
        },
        _ => panic!("wrong command variant"),
    }
}

#[test]
fn outline_fill_path_takes_count_verbatim() {
    // Command byte 0x8A splits into index 10 (outline fill path) and
    // secondary tag 2; the count byte's low 6 bits are the segment
    // count, not count-plus-one, so zero segments are possible.
    let bytes = vec![
        0x72, 0x56, 0x01, 0x01, // scale 0, RGBA 8888, reduced range
        0x08, 0x08, 0x02, // 8 x 8, two colors
        0x11, 0x22, 0x33, 0x44, // color 0
        0x55, 0x66, 0x77, 0x88, // color 1
        0x8A, // command: index 10, primary style radial gradient
        0x00, // zero segments, secondary style flat
        0x01, 0x02, 0x03, 0x04, // gradient points
        0x00, 0x01, // gradient color indices
        0x01, // outline style: flat color index 1
        0x07, // outline width
        0x00, // end of stream
    ];
    let img = Parser::new(bytes).parse().unwrap();
    match &img.commands[0] {
        Command::FillPath { fill_style, path, outline } => {
            match fill_style {
                Style::RadialGradient { color_index_0, color_index_1, .. } => {
                    assert_eq!((*color_index_0, *color_index_1), (0, 1));
                },
                _ => panic!("wrong style variant"),
            }
            assert_eq!(path.len(), 0);
            let o = outline.as_ref().unwrap();
            assert_eq!(o.line_style, Style::FlatColor { color_index: 1 });
            assert_eq!(o.line_width.raw, 7);
        },
        _ => panic!("wrong command variant"),
    }
}

#[test]
fn rgb565_color_unpacking() {
    // 0xBDF7 = 0b10111_101111_10111: red 23/31, green 47/63, blue 23/31.
    let bytes = vec![
        0x72, 0x56, 0x01, 0x05, // scale 0, RGB 565, reduced range
        0x08, 0x08, 0x01, // 8 x 8, one color
        0xF7, 0xBD, // the packed color, little endian
        0x00, // end of stream
    ];
    let img = Parser::new(bytes).parse().unwrap();
    assert_eq!(img.color_table[0], Color::Rgb565 { red: 23, green: 47, blue: 23 });
}

#[test]
fn rgbaf32_color_keeps_exact_bits() {
    // 1.0f32 is 0x3F800000; 0.5f32 is 0x3F000000.
    let one: u32 = 0x3F80_0000;
    let half: u32 = 0x3F00_0000;
    let mut bytes = vec![0x72, 0x56, 0x01, 0x09, 0x08, 0x08, 0x01];
    for v in [one, half, one, half] {
        bytes.extend_from_slice(&[
            (v % 256) as u8,
            ((v / 256) % 256) as u8,
            ((v / 65536) % 256) as u8,
            ((v / 16777216) % 256) as u8,
        ]);
    }
    bytes.push(0x00);
    let img = Parser::new(bytes).parse().unwrap();
    assert_eq!(img.header.color_encoding, ColorEncoding::RgbaF32);
    match img.color_table[0] {
        Color::RgbaF32 { red, green, blue, alpha } => {
            assert_eq!(f32::from_bits(red), 1.0);
            assert_eq!(f32::from_bits(green), 0.5);
            assert_eq!(f32::from_bits(blue), 1.0);
            assert_eq!(f32::from_bits(alpha), 0.5);
        },
        _ => panic!("wrong color variant"),
    }
}

#[test]
fn bad_magic_at_offset_zero() {
    let e = Parser::new(vec![0x00, 0x00, 0x01, 0x40]).parse().unwrap_err();
    assert_eq!(e.kind, ErrorKind::BadMagic);
    assert_eq!(e.offset, 0);
}

#[test]
fn custom_color_encoding_rejected() {
    // Flags 0x4C: color encoding bits 3 (custom).
    let e = Parser::new(vec![0x72, 0x56, 0x01, 0x4C, 0x10, 0x00, 0x10, 0x00, 0x00, 0x00])
        .parse()
        .unwrap_err();
    assert_eq!(e.kind, ErrorKind::UnsupportedEncoding);
    assert_eq!(e.offset, 3);
}

#[test]
fn unknown_coordinate_range_rejected() {
    // Flags 0x43: coordinate range bits 3, which the format leaves
    // unassigned.
    let e = Parser::new(vec![0x72, 0x56, 0x01, 0x43, 0x10, 0x00, 0x10, 0x00, 0x00, 0x00])
        .parse()
        .unwrap_err();
    assert_eq!(e.kind, ErrorKind::UnsupportedEncoding);
}

#[test]
fn unknown_style_variant_rejected() {
    // Command byte 0xC1: fill polygon under the reserved style tag 3.
    let e = Parser::new(vec![
        0x72, 0x56, 0x01, 0x01, 0x08, 0x08, 0x00, 0xC1, 0x00, 0x00,
    ])
    .parse()
    .unwrap_err();
    assert_eq!(e.kind, ErrorKind::UnsupportedEncoding);
}

#[test]
fn command_index_above_ten_rejected() {
    let e = Parser::new(vec![0x72, 0x56, 0x01, 0x01, 0x08, 0x08, 0x00, 0x0B])
        .parse()
        .unwrap_err();
    assert_eq!(e.kind, ErrorKind::BadInstruction);
    assert_eq!(e.offset, 7);
}

#[test]
fn color_index_out_of_range_rejected() {
    // One color in the table, but the fill style names index 1.
    let e = Parser::new(vec![
        0x72, 0x56, 0x01, 0x01, 0x08, 0x08, 0x01, 0xAA, 0xBB, 0xCC, 0xDD, 0x02, 0x00, 0x01,
    ])
    .parse()
    .unwrap_err();
    assert_eq!(e.kind, ErrorKind::IndexOutOfRange);
}

#[test]
fn varint_overflow_in_color_count() {
    let e = Parser::new(vec![
        0x72, 0x56, 0x01, 0x01, 0x08, 0x08, 0xFF, 0xFF, 0xFF, 0xFF, 0x7F,
    ])
    .parse()
    .unwrap_err();
    assert_eq!(e.kind, ErrorKind::VarintOverflow);
}

#[test]
fn oversized_count_prefix_rejected() {
    // A fill-rectangles command declaring ~2^28 rectangles with almost
    // nothing behind it must be rejected before anything is allocated.
    let e = Parser::new(vec![
        0x72, 0x56, 0x01, 0x01, 0x08, 0x08, 0x00, 0x02, 0xFF, 0xFF, 0xFF, 0x7F, 0x00,
    ])
    .parse()
    .unwrap_err();
    assert_eq!(e.kind, ErrorKind::ResourceExhausted);
}

#[test]
fn oversized_color_count_rejected() {
    // A color count far beyond the bytes that follow.
    let e = Parser::new(vec![
        0x72, 0x56, 0x01, 0x01, 0x08, 0x08, 0xFF, 0xFF, 0xFF, 0xFF, 0x0F, 0x00,
    ])
    .parse()
    .unwrap_err();
    assert_eq!(e.kind, ErrorKind::ResourceExhausted);
}

#[test]
fn truncated_header_reports_eof() {
    let e = Parser::new(vec![0x72, 0x56, 0x01]).parse().unwrap_err();
    assert_eq!(e.kind, ErrorKind::UnexpectedEof);
}

#[test]
fn sentinel_high_bits_are_irrelevant() {
    // A terminator byte whose style bits are set still ends the stream.
    let bytes = vec![0x72, 0x56, 0x01, 0x01, 0x08, 0x08, 0x00, 0xC0, 0x99];
    let img = Parser::new(bytes).parse().unwrap();
    assert_eq!(img.commands.len(), 0);
    assert_eq!(img.trailer, vec![0x99]);
}

#[test]
fn header_then_commands_in_two_phases() {
    let bytes = vec![
        0x72, 0x56, 0x01, 0x01, 0x08, 0x08, 0x01, // header, one color
        0x10, 0x20, 0x30, 0x40, // the color
        0x01, 0x00, 0x00, // fill polygon, one point, flat 0
        0x03, 0x04, // the point
        0x00, // end of stream
        0x5A, // trailer
    ];
    let mut parser = Parser::new(bytes);
    let mut img = parser.parse_header().unwrap();
    assert_eq!(img.header.color_count, 1);
    assert_eq!(img.commands.len(), 0);
    assert_eq!(img.trailer.len(), 0);
    parser.parse_commands(&mut img).unwrap();
    assert_eq!(img.commands.len(), 1);
    assert_eq!(img.trailer, vec![0x5A]);
}

#[test]
fn failed_commands_phase_keeps_accumulated_prefix() {
    let bytes = vec![
        0x72, 0x56, 0x01, 0x01, 0x08, 0x08, 0x01, // header, one color
        0x10, 0x20, 0x30, 0x40, // the color
        0x01, 0x00, 0x00, // fill polygon, one point, flat 0
        0x03, 0x04, // the point
        0x0B, // a bad command index: no sentinel was seen
    ];
    let mut parser = Parser::new(bytes);
    let mut img = parser.parse_header().unwrap();
    let e = parser.parse_commands(&mut img).unwrap_err();
    assert_eq!(e.kind, ErrorKind::BadInstruction);
    // The good command stays; the trailer was never reached.
    assert_eq!(img.commands.len(), 1);
    assert_eq!(img.trailer.len(), 0);
}
