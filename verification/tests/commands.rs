//! One decoding test per command opcode and per segment instruction,
//! plus sign-extension edges under each coordinate range.

use tinyvg::error::ErrorKind;
use tinyvg::format::Command;
use tinyvg::format::SegmentCommandKind;
use tinyvg::format::Style;
use tinyvg::format::Sweep;
use tinyvg::parser::Parser;

/// A header under the reduced range with scale 0, one RGBA color, and
/// an 8 x 8 canvas; commands and the sentinel follow.
fn with_header(commands: &[u8]) -> Vec<u8> {
    let mut bytes = vec![
        0x72, 0x56, 0x01, 0x01, // magic, version, flags
        0x08, 0x08, 0x01, // 8 x 8, one color
        0x10, 0x20, 0x30, 0x40, // the color
    ];
    bytes.extend_from_slice(commands);
    bytes.push(0x00);
    bytes
}

#[test]
fn draw_lines_command() {
    let img = Parser::new(with_header(&[
        0x04, // draw lines, flat color
        0x00, // one line
        0x00, // style: color index 0
        0x02, // line width 2
        0x01, 0x02, 0x03, 0x04, // the line
    ]))
    .parse()
    .unwrap();
    match &img.commands[0] {
        Command::DrawLines { line_style, line_width, lines } => {
            assert_eq!(*line_style, Style::FlatColor { color_index: 0 });
            assert_eq!(line_width.raw, 2);
            assert_eq!(lines.len(), 1);
            assert_eq!((lines[0].p0.x.raw, lines[0].p0.y.raw), (1, 2));
            assert_eq!((lines[0].p1.x.raw, lines[0].p1.y.raw), (3, 4));
        },
        _ => panic!("wrong command variant"),
    }
}

#[test]
fn draw_line_path_command() {
    let img = Parser::new(with_header(&[
        0x07, // draw line path, flat color
        0x00, // one segment
        0x00, // style: color index 0
        0x01, // line width 1
        0x00, // segment length: one command
        0x05, 0x06, // segment start
        0x00, // tag: line, no width override
        0x07, 0x08, // the end point
    ]))
    .parse()
    .unwrap();
    match &img.commands[0] {
        Command::DrawLinePath { line_width, path, .. } => {
            assert_eq!(line_width.raw, 1);
            assert_eq!(path.len(), 1);
            assert_eq!((path[0].start.x.raw, path[0].start.y.raw), (5, 6));
            assert_eq!(path[0].commands.len(), 1);
            assert!(path[0].commands[0].line_width.is_none());
            match path[0].commands[0].kind {
                SegmentCommandKind::Line { end } => {
                    assert_eq!((end.x.raw, end.y.raw), (7, 8));
                },
                _ => panic!("wrong instruction"),
            }
        },
        _ => panic!("wrong command variant"),
    }
}

#[test]
fn outline_fill_polygon_command() {
    let img = Parser::new(with_header(&[
        0x08, // outline fill polygon, flat fill
        0x02, // three points, flat outline
        0x00, // fill style: color index 0
        0x00, // outline style: color index 0
        0x05, // outline width 5
        0x01, 0x01, 0x07, 0x01, 0x04, 0x06, // the points
    ]))
    .parse()
    .unwrap();
    match &img.commands[0] {
        Command::FillPolygon { polygon, outline, .. } => {
            assert_eq!(polygon.len(), 3);
            let o = outline.as_ref().unwrap();
            assert_eq!(o.line_width.raw, 5);
            assert_eq!(o.line_style, Style::FlatColor { color_index: 0 });
        },
        _ => panic!("wrong command variant"),
    }
}

#[test]
fn outline_fill_rectangles_command() {
    let img = Parser::new(with_header(&[
        0x09, // outline fill rectangles, flat fill
        0x00, // one rectangle, flat outline
        0x00, // fill style: color index 0
        0x00, // outline style: color index 0
        0x03, // outline width 3
        0x01, 0x02, 0x03, 0x04, // the rectangle
    ]))
    .parse()
    .unwrap();
    match &img.commands[0] {
        Command::FillRectangles { rectangles, outline, .. } => {
            assert_eq!(rectangles.len(), 1);
            let r = &rectangles[0];
            assert_eq!(
                (r.x.raw, r.y.raw, r.width.raw, r.height.raw),
                (1, 2, 3, 4)
            );
            assert_eq!(outline.as_ref().unwrap().line_width.raw, 3);
        },
        _ => panic!("wrong command variant"),
    }
}

#[test]
fn every_segment_instruction() {
    let img = Parser::new(with_header(&[
        0x03, // fill path, flat color
        0x00, // one segment
        0x00, // fill style: color index 0
        0x07, // segment length: eight commands
        0x01, 0x01, // segment start
        0x00, 0x02, 0x03, // line to (2, 3)
        0x01, 0x04, // horizontal line to 4
        0x02, 0x05, // vertical line to 5
        0x03, 0x01, 0x02, 0x03, 0x04, 0x05, 0x06, // cubic Bezier
        0x04, 0xC0, 0x07, 0x08, 0x09, // arc circle: large, sweep left
        0x05, 0x00, 0x01, 0x02, 0x03, 0x04, 0x05, // arc ellipse: sweep right
        0x06, // close path
        0x07, 0x01, 0x02, 0x03, 0x04, // quadratic Bezier
    ]))
    .parse()
    .unwrap();
    let path = match &img.commands[0] {
        Command::FillPath { path, .. } => path,
        _ => panic!("wrong command variant"),
    };
    let cmds = &path[0].commands;
    assert_eq!(cmds.len(), 8);
    assert!(matches!(cmds[0].kind, SegmentCommandKind::Line { end } if end.x.raw == 2 && end.y.raw == 3));
    assert!(matches!(cmds[1].kind, SegmentCommandKind::HorizontalLine { x } if x.raw == 4));
    assert!(matches!(cmds[2].kind, SegmentCommandKind::VerticalLine { y } if y.raw == 5));
    assert!(
        matches!(cmds[3].kind, SegmentCommandKind::CubicBezier { control_0, control_1, point_1 }
            if control_0.x.raw == 1 && control_1.x.raw == 3 && point_1.y.raw == 6)
    );
    match cmds[4].kind {
        SegmentCommandKind::ArcCircle { large, sweep, radius, target } => {
            assert!(large);
            assert_eq!(sweep, Sweep::Left);
            assert_eq!(radius.raw, 7);
            assert_eq!((target.x.raw, target.y.raw), (8, 9));
        },
        _ => panic!("wrong instruction"),
    }
    match cmds[5].kind {
        SegmentCommandKind::ArcEllipse { large, sweep, radius_x, radius_y, rotation, target } => {
            assert!(!large);
            assert_eq!(sweep, Sweep::Right);
            assert_eq!((radius_x.raw, radius_y.raw, rotation.raw), (1, 2, 3));
            assert_eq!((target.x.raw, target.y.raw), (4, 5));
        },
        _ => panic!("wrong instruction"),
    }
    assert!(matches!(cmds[6].kind, SegmentCommandKind::ClosePath));
    assert!(
        matches!(cmds[7].kind, SegmentCommandKind::QuadraticBezier { control, point_1 }
            if control.x.raw == 1 && point_1.y.raw == 4)
    );
}

#[test]
fn default_range_sign_extension() {
    // Under the 16-bit range, 0x8000 is the most negative coordinate.
    let bytes = vec![
        0x72, 0x56, 0x01, 0x00, // scale 0, RGBA 8888, default range
        0x08, 0x00, 0x08, 0x00, 0x01, // 8 x 8, one color
        0x10, 0x20, 0x30, 0x40, // the color
        0x06, 0x00, 0x00, // line strip, one point, flat 0
        0x01, 0x00, // width 1
        0x00, 0x80, 0xFF, 0xFF, // point (-32768, -1)
        0x00,
    ];
    let img = Parser::new(bytes).parse().unwrap();
    match &img.commands[0] {
        Command::DrawLineLoop { points, .. } => {
            assert_eq!(points[0].x.raw, -32768);
            assert_eq!(points[0].y.raw, -1);
        },
        _ => panic!("wrong command variant"),
    }
}

#[test]
fn enhanced_range_sign_extension() {
    // Under the 32-bit range, all-ones is -1 and 0x80000000 is the most
    // negative coordinate.
    let bytes = vec![
        0x72, 0x56, 0x01, 0x02, // scale 0, RGBA 8888, enhanced range
        0x08, 0x00, 0x00, 0x00, // width 8
        0x08, 0x00, 0x00, 0x00, // height 8
        0x01, // one color
        0x10, 0x20, 0x30, 0x40, // the color
        0x06, 0x00, 0x00, // line strip, one point, flat 0
        0x01, 0x00, 0x00, 0x00, // width 1
        0xFF, 0xFF, 0xFF, 0xFF, // x = -1
        0x00, 0x00, 0x00, 0x80, // y = -2147483648
        0x00,
    ];
    let img = Parser::new(bytes).parse().unwrap();
    match &img.commands[0] {
        Command::DrawLineLoop { points, .. } => {
            assert_eq!(points[0].x.raw, -1);
            assert_eq!(points[0].y.raw, -2147483648);
        },
        _ => panic!("wrong command variant"),
    }
}

#[test]
fn version_is_exposed_verbatim() {
    let img = Parser::new(vec![0x72, 0x56, 0x07, 0x01, 0x08, 0x08, 0x00, 0x00])
        .parse()
        .unwrap();
    assert_eq!(img.header.version, 7);
}

#[test]
fn empty_input_reports_eof() {
    let e = Parser::new(Vec::new()).parse().unwrap_err();
    assert_eq!(e.kind, ErrorKind::UnexpectedEof);
    assert_eq!(e.offset, 0);
}

#[test]
fn missing_sentinel_reports_eof() {
    // A well-formed header with no command byte at all.
    let e = Parser::new(vec![0x72, 0x56, 0x01, 0x01, 0x08, 0x08, 0x00])
        .parse()
        .unwrap_err();
    assert_eq!(e.kind, ErrorKind::UnexpectedEof);
}

#[test]
fn segment_lengths_are_honored_exactly() {
    // Two segments declaring one and two commands; the parsed lists
    // have exactly those lengths.
    let img = Parser::new(with_header(&[
        0x03, // fill path, flat color
        0x01, // two segments
        0x00, // fill style: color index 0
        0x00, // first segment: one command
        0x01, // second segment: two commands
        0x01, 0x01, // first segment start
        0x00, 0x02, 0x02, // line
        0x03, 0x03, // second segment start
        0x01, 0x04, // horizontal line
        0x02, 0x05, // vertical line
    ]))
    .parse()
    .unwrap();
    match &img.commands[0] {
        Command::FillPath { path, .. } => {
            assert_eq!(path.len(), 2);
            assert_eq!(path[0].commands.len(), 1);
            assert_eq!(path[1].commands.len(), 2);
        },
        _ => panic!("wrong command variant"),
    }
}
