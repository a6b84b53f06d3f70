use chart_decode::data::{parse, CurvePoint, TimingPoint, TimingPointsMetadata};
use chart_decode::parsing::Parsed;

fn lines(v: Vec<&str>) -> Vec<String> {
    v.into_iter().map(String::from).collect()
}

fn decode_line(line: &str) -> Result<TimingPoint, chart_decode::parsing::ParseError> {
    let m = TimingPointsMetadata::parse_from(lines(vec![line]))?;
    let mut points = m.points;
    assert_eq!(points.len(), 1);
    Ok(points.remove(0))
}

#[test]
fn point_line_decodes() {
    let tp = decode_line("256,192,1000,0,0").unwrap();
    assert_eq!(
        tp,
        TimingPoint::Point { x: 256, y: 192, time: 1000, hit_sound: 0 }
    );
}

#[test]
fn path_line_decodes() {
    // Discriminant 1; the curve payload's first pipe-segment is the shape
    // discriminant, the following segments are the ordered control points.
    let tp = decode_line("100,100,500,1,0,6|64:100|100:200,2,150.5").unwrap();
    match tp {
        TimingPoint::Path {
            x,
            y,
            time,
            hit_sound,
            curve_type,
            curve_points,
            slides,
            length,
            edge_sounds,
            edge_sets,
        } => {
            assert_eq!((x, y, time, hit_sound), (100, 100, 500, 0));
            assert_eq!(curve_type, 6);
            assert_eq!(
                curve_points,
                vec![CurvePoint { x: 64, y: 100 }, CurvePoint { x: 100, y: 200 }]
            );
            assert_eq!(slides, 2);
            assert_eq!(length, "150.5");
            assert_eq!(length.parse::<f32>().unwrap(), 150.5f32);
            assert!(edge_sounds.is_empty());
            assert!(edge_sets.is_empty());
        },
        other => panic!("expected a path entity, got {:?}", other),
    }
}

#[test]
fn path_payload_without_shape_discriminant_fails() {
    // The first pipe-segment must be the int8 curve-shape discriminant; a
    // payload that starts directly with a control point is malformed.
    let r = decode_line("100,100,500,1,0,64:100|100:200,2,150.5");
    assert!(r.is_err());
}

#[test]
fn duration_line_decodes() {
    let tp = decode_line("256,192,1000,2,0,2000").unwrap();
    assert_eq!(
        tp,
        TimingPoint::Duration { x: 256, y: 192, time: 1000, hit_sound: 0, end_time: 2000 }
    );
}

#[test]
fn unassigned_discriminant_fails() {
    let r = decode_line("256,192,1000,9,0");
    assert!(r.is_err());
}

#[test]
fn short_line_fails() {
    assert!(decode_line("256,192,1000,0").is_err());
    assert!(decode_line("").is_err());
}

#[test]
fn point_ignores_trailing_payload() {
    let tp = decode_line("1,2,3,0,4,extra,fields").unwrap();
    assert_eq!(tp, TimingPoint::Point { x: 1, y: 2, time: 3, hit_sound: 4 });
}

#[test]
fn path_with_bad_control_point_fails() {
    // A control point missing its colon-separated partner aborts the line.
    assert!(decode_line("100,100,500,1,0,6|64,2,150.5").is_err());
    // A non-numeric coordinate aborts the line.
    assert!(decode_line("100,100,500,1,0,6|64:abc,2,150.5").is_err());
}

#[test]
fn path_with_missing_payload_fields_fails() {
    assert!(decode_line("100,100,500,1,0,6|64:100").is_err());
    assert!(decode_line("100,100,500,1,0").is_err());
}

#[test]
fn path_with_bad_length_fails() {
    assert!(decode_line("100,100,500,1,0,6|64:100,2,abc").is_err());
}

#[test]
fn duration_with_missing_end_time_fails() {
    assert!(decode_line("256,192,1000,2,0").is_err());
}

#[test]
fn parse_dispatches_on_discriminant() {
    let r = parse(10, 20, 30, 0, 5, Vec::new()).unwrap();
    assert_eq!(r, TimingPoint::Point { x: 10, y: 20, time: 30, hit_sound: 5 });

    let r = parse(10, 20, 30, 2, 5, vec!["99".to_owned()]).unwrap();
    assert_eq!(
        r,
        TimingPoint::Duration { x: 10, y: 20, time: 30, hit_sound: 5, end_time: 99 }
    );

    assert!(parse(10, 20, 30, 3, 5, Vec::new()).is_err());
    assert!(parse(10, 20, 30, -1, 5, Vec::new()).is_err());
}

#[test]
fn curve_point_parses_pair() {
    let p = CurvePoint::parse(&"64:100".to_owned()).unwrap();
    assert_eq!(p, CurvePoint { x: 64, y: 100 });
    // Pieces beyond the second are ignored.
    let p = CurvePoint::parse(&"7:8:9".to_owned()).unwrap();
    assert_eq!(p, CurvePoint { x: 7, y: 8 });
    assert!(CurvePoint::parse(&"64".to_owned()).is_err());
    assert!(CurvePoint::parse(&"a:b".to_owned()).is_err());
}

#[test]
fn whole_section_decodes_in_order() {
    let m = TimingPointsMetadata::parse_from(lines(vec![
        "256,192,1000,0,0",
        "100,100,500,1,0,6|64:100|100:200,2,150.5",
        "0,0,2000,2,1,2500",
    ]))
    .unwrap();
    assert_eq!(m.points.len(), 3);
    assert!(matches!(m.points[0], TimingPoint::Point { .. }));
    assert!(matches!(m.points[1], TimingPoint::Path { .. }));
    assert!(matches!(m.points[2], TimingPoint::Duration { .. }));
}

#[test]
fn section_fails_on_first_bad_line() {
    let r = TimingPointsMetadata::parse_from(lines(vec![
        "256,192,1000,0,0",
        "256,192,1000,9,0",
    ]));
    assert!(r.is_err());
}

#[test]
fn section_decode_is_idempotent() {
    let input = vec!["256,192,1000,0,0", "0,0,2000,2,1,2500"];
    let a = TimingPointsMetadata::parse_from(lines(input.clone())).unwrap();
    let b = TimingPointsMetadata::parse_from(lines(input)).unwrap();
    assert_eq!(a, b);
}

#[test]
fn timing_points_section_identity() {
    assert!(TimingPointsMetadata::is_section_id("[TimingPoints]".to_owned()));
    assert!(!TimingPointsMetadata::is_section_id("[General]".to_owned()));
}
