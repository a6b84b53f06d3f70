use vstd::prelude::*;

use crate::fields::{
    decode_fields, decode_fields_spec, lemma_decode_from_types, value_matches_type, FieldSpec,
    FieldSpecView, FieldType, FieldValue, FieldValueView,
};
use crate::parsing::{ParseError, Parsed};
use crate::scalars::{
    decimal_text_ok, i32_text_ok, i8_text_ok, int_text_val, is_decimal_text, parse_i32, parse_i8,
};
use crate::text::{lemma_split_len, split_on, split_on_spec};

verus! {

/// A text field of a record corresponds to a decoded field value.
pub open spec fn opt_text_matches(o: Option<String>, v: Option<FieldValueView>) -> bool {
    match (o, v) {
        (None, None) => true,
        (Some(s), Some(FieldValueView::Text(t))) => s@ == t,
        _ => false,
    }
}

/// A 64-bit integer field of a record corresponds to a decoded field value.
pub open spec fn opt_i64_matches(o: Option<i64>, v: Option<FieldValueView>) -> bool {
    match (o, v) {
        (None, None) => true,
        (Some(n), Some(FieldValueView::Int64(m))) => n as int == m,
        _ => false,
    }
}

/// An 8-bit integer field of a record corresponds to a decoded field value.
pub open spec fn opt_i8_matches(o: Option<i8>, v: Option<FieldValueView>) -> bool {
    match (o, v) {
        (None, None) => true,
        (Some(n), Some(FieldValueView::Int8(m))) => n as int == m,
        _ => false,
    }
}

/// A decimal-text field of a record corresponds to a decoded field value.
pub open spec fn opt_dec_matches(o: Option<String>, v: Option<FieldValueView>) -> bool {
    match (o, v) {
        (None, None) => true,
        (Some(s), Some(FieldValueView::Decimal(t))) => s@ == t,
        _ => false,
    }
}

fn take_text(v: &Option<FieldValue>) -> (r: Option<String>)
    requires
        value_matches_type(v.deep_view(), FieldType::Text),
    ensures
        opt_text_matches(r, v.deep_view()),
{
    match v {
        None => None,
        Some(FieldValue::Text(s)) => Some(s.clone()),
        _ => vstd::pervasive::unreached(),
    }
}

fn take_i64(v: &Option<FieldValue>) -> (r: Option<i64>)
    requires
        value_matches_type(v.deep_view(), FieldType::Int64),
    ensures
        opt_i64_matches(r, v.deep_view()),
{
    match v {
        None => None,
        Some(FieldValue::Int64(n)) => Some(*n),
        _ => vstd::pervasive::unreached(),
    }
}

fn take_i8(v: &Option<FieldValue>) -> (r: Option<i8>)
    requires
        value_matches_type(v.deep_view(), FieldType::Int8),
    ensures
        opt_i8_matches(r, v.deep_view()),
{
    match v {
        None => None,
        Some(FieldValue::Int8(n)) => Some(*n),
        _ => vstd::pervasive::unreached(),
    }
}

fn take_dec(v: &Option<FieldValue>) -> (r: Option<String>)
    requires
        value_matches_type(v.deep_view(), FieldType::Decimal),
    ensures
        opt_dec_matches(r, v.deep_view()),
{
    match v {
        None => None,
        Some(FieldValue::Decimal(s)) => Some(s.clone()),
        _ => vstd::pervasive::unreached(),
    }
}

/// Declared fields of the `[General]` section, in declaration order.
pub open spec fn general_specs() -> Seq<FieldSpecView> {
    seq![
        FieldSpecView { name: "audio_file_name"@, key: Some("AudioFilename"@), ty: FieldType::Text },
        FieldSpecView { name: "audio_lead_in"@, key: None, ty: FieldType::Int64 },
        FieldSpecView { name: "preview_time"@, key: None, ty: FieldType::Int64 },
        FieldSpecView { name: "countdown"@, key: None, ty: FieldType::Int8 },
        FieldSpecView { name: "sample_set"@, key: None, ty: FieldType::Text },
        FieldSpecView { name: "stack_leniency"@, key: None, ty: FieldType::Decimal },
        FieldSpecView { name: "mode"@, key: None, ty: FieldType::Int8 },
        FieldSpecView { name: "letterbox_in_breaks"@, key: None, ty: FieldType::Int8 },
    ]
}

/// The field table of the `[General]` section.
pub fn general_field_specs() -> (v: Vec<FieldSpec>)
    ensures
        v.deep_view() == general_specs(),
{
    let mut v: Vec<FieldSpec> = Vec::new();
    v.push(
        FieldSpec {
            name: "audio_file_name".to_owned(),
            key: Some("AudioFilename".to_owned()),
            ty: FieldType::Text,
        },
    );
    v.push(FieldSpec { name: "audio_lead_in".to_owned(), key: None, ty: FieldType::Int64 });
    v.push(FieldSpec { name: "preview_time".to_owned(), key: None, ty: FieldType::Int64 });
    v.push(FieldSpec { name: "countdown".to_owned(), key: None, ty: FieldType::Int8 });
    v.push(FieldSpec { name: "sample_set".to_owned(), key: None, ty: FieldType::Text });
    v.push(FieldSpec { name: "stack_leniency".to_owned(), key: None, ty: FieldType::Decimal });
    v.push(FieldSpec { name: "mode".to_owned(), key: None, ty: FieldType::Int8 });
    v.push(FieldSpec { name: "letterbox_in_breaks".to_owned(), key: None, ty: FieldType::Int8 });
    proof {
        assert(v.deep_view() =~= general_specs());
    }
    v
}

/// Typed record of the `[General]` metadata section.  Every field is
/// independently optional: a key absent from the section yields `None`.
/// The `stack_leniency` field keeps its decimal text, already validated.
#[derive(Debug, PartialEq)]
pub struct GeneralMetadata {
    pub audio_file_name: Option<String>,
    pub audio_lead_in: Option<i64>,
    pub preview_time: Option<i64>,
    pub countdown: Option<i8>,
    pub sample_set: Option<String>,
    pub stack_leniency: Option<String>,
    pub mode: Option<i8>,
    pub letterbox_in_breaks: Option<i8>,
}

/// The record's fields correspond, in order, to the decoded field values.
pub open spec fn general_matches(g: GeneralMetadata, vals: Seq<Option<FieldValueView>>) -> bool {
    &&& vals.len() == 8
    &&& opt_text_matches(g.audio_file_name, vals[0])
    &&& opt_i64_matches(g.audio_lead_in, vals[1])
    &&& opt_i64_matches(g.preview_time, vals[2])
    &&& opt_i8_matches(g.countdown, vals[3])
    &&& opt_text_matches(g.sample_set, vals[4])
    &&& opt_dec_matches(g.stack_leniency, vals[5])
    &&& opt_i8_matches(g.mode, vals[6])
    &&& opt_i8_matches(g.letterbox_in_breaks, vals[7])
}

impl Parsed for GeneralMetadata {
    fn parse_from(section: Vec<String>) -> (r: Result<Self, ParseError>)
        ensures
            match decode_fields_spec(general_specs(), section.deep_view()) {
                Ok(vals) => r matches Ok(g) && general_matches(g, vals),
                Err(_) => r is Err,
            },
    {
        let specs: Vec<FieldSpec> = general_field_specs();
        match decode_fields(&specs, &section) {
            Err(e) => Err(e),
            Ok(vals) => {
                proof {
                    lemma_decode_from_types(general_specs(), section.deep_view(), 0);
                    assert(vals.deep_view().len() == 8);
                    assert(value_matches_type(vals.deep_view()[0], general_specs()[0].ty));
                    assert(vals.deep_view()[0] == vals@[0].deep_view());
                    assert(value_matches_type(vals.deep_view()[1], general_specs()[1].ty));
                    assert(vals.deep_view()[1] == vals@[1].deep_view());
                    assert(value_matches_type(vals.deep_view()[2], general_specs()[2].ty));
                    assert(vals.deep_view()[2] == vals@[2].deep_view());
                    assert(value_matches_type(vals.deep_view()[3], general_specs()[3].ty));
                    assert(vals.deep_view()[3] == vals@[3].deep_view());
                    assert(value_matches_type(vals.deep_view()[4], general_specs()[4].ty));
                    assert(vals.deep_view()[4] == vals@[4].deep_view());
                    assert(value_matches_type(vals.deep_view()[5], general_specs()[5].ty));
                    assert(vals.deep_view()[5] == vals@[5].deep_view());
                    assert(value_matches_type(vals.deep_view()[6], general_specs()[6].ty));
                    assert(vals.deep_view()[6] == vals@[6].deep_view());
                    assert(value_matches_type(vals.deep_view()[7], general_specs()[7].ty));
                    assert(vals.deep_view()[7] == vals@[7].deep_view());
                }
                Ok(
                    GeneralMetadata {
                        audio_file_name: take_text(&vals[0]),
                        audio_lead_in: take_i64(&vals[1]),
                        preview_time: take_i64(&vals[2]),
                        countdown: take_i8(&vals[3]),
                        sample_set: take_text(&vals[4]),
                        stack_leniency: take_dec(&vals[5]),
                        mode: take_i8(&vals[6]),
                        letterbox_in_breaks: take_i8(&vals[7]),
                    },
                )
            },
        }
    }

    fn is_section_id(id: String) -> (r: bool)
        ensures
            r == (id@ == "[General]"@),
    {
        let expected: String = "[General]".to_owned();
        id.eq(&expected)
    }
}

/// Declared fields of the `[Editor]` section, in declaration order.
pub open spec fn editor_specs() -> Seq<FieldSpecView> {
    seq![
        FieldSpecView { name: "distance_spacing"@, key: None, ty: FieldType::Decimal },
        FieldSpecView { name: "beat_divisor"@, key: None, ty: FieldType::Int8 },
        FieldSpecView { name: "grid_size"@, key: None, ty: FieldType::Int8 },
    ]
}

/// The field table of the `[Editor]` section.
pub fn editor_field_specs() -> (v: Vec<FieldSpec>)
    ensures
        v.deep_view() == editor_specs(),
{
    let mut v: Vec<FieldSpec> = Vec::new();
    v.push(FieldSpec { name: "distance_spacing".to_owned(), key: None, ty: FieldType::Decimal });
    v.push(FieldSpec { name: "beat_divisor".to_owned(), key: None, ty: FieldType::Int8 });
    v.push(FieldSpec { name: "grid_size".to_owned(), key: None, ty: FieldType::Int8 });
    proof {
        assert(v.deep_view() =~= editor_specs());
    }
    v
}

/// Typed record of the `[Editor]` metadata section.
/// The `distance_spacing` field keeps its decimal text, already validated.
#[derive(Debug, PartialEq)]
pub struct EditorMetadata {
    pub distance_spacing: Option<String>,
    pub beat_divisor: Option<i8>,
    pub grid_size: Option<i8>,
}

/// The record's fields correspond, in order, to the decoded field values.
pub open spec fn editor_matches(g: EditorMetadata, vals: Seq<Option<FieldValueView>>) -> bool {
    &&& vals.len() == 3
    &&& opt_dec_matches(g.distance_spacing, vals[0])
    &&& opt_i8_matches(g.beat_divisor, vals[1])
    &&& opt_i8_matches(g.grid_size, vals[2])
}

impl Parsed for EditorMetadata {
    fn parse_from(section: Vec<String>) -> (r: Result<Self, ParseError>)
        ensures
            match decode_fields_spec(editor_specs(), section.deep_view()) {
                Ok(vals) => r matches Ok(g) && editor_matches(g, vals),
                Err(_) => r is Err,
            },
    {
        let specs: Vec<FieldSpec> = editor_field_specs();
        match decode_fields(&specs, &section) {
            Err(e) => Err(e),
            Ok(vals) => {
                proof {
                    lemma_decode_from_types(editor_specs(), section.deep_view(), 0);
                    assert(vals.deep_view().len() == 3);
                    assert(value_matches_type(vals.deep_view()[0], editor_specs()[0].ty));
                    assert(vals.deep_view()[0] == vals@[0].deep_view());
                    assert(value_matches_type(vals.deep_view()[1], editor_specs()[1].ty));
                    assert(vals.deep_view()[1] == vals@[1].deep_view());
                    assert(value_matches_type(vals.deep_view()[2], editor_specs()[2].ty));
                    assert(vals.deep_view()[2] == vals@[2].deep_view());
                }
                Ok(
                    EditorMetadata {
                        distance_spacing: take_dec(&vals[0]),
                        beat_divisor: take_i8(&vals[1]),
                        grid_size: take_i8(&vals[2]),
                    },
                )
            },
        }
    }

    fn is_section_id(id: String) -> (r: bool)
        ensures
            r == (id@ == "[Editor]"@),
    {
        let expected: String = "[Editor]".to_owned();
        id.eq(&expected)
    }
}

/// Declared fields of the `[Difficulty]` section, in declaration order.
pub open spec fn difficulty_specs() -> Seq<FieldSpecView> {
    seq![
        FieldSpecView { name: "hp_drain_rate"@, key: None, ty: FieldType::Int8 },
        FieldSpecView { name: "circle_size"@, key: None, ty: FieldType::Int8 },
        FieldSpecView { name: "overall_difficulty"@, key: None, ty: FieldType::Int8 },
        FieldSpecView { name: "slider_multiplier"@, key: None, ty: FieldType::Int8 },
        FieldSpecView { name: "slider_tick_rate"@, key: None, ty: FieldType::Int8 },
    ]
}

/// The field table of the `[Difficulty]` section.
pub fn difficulty_field_specs() -> (v: Vec<FieldSpec>)
    ensures
        v.deep_view() == difficulty_specs(),
{
    let mut v: Vec<FieldSpec> = Vec::new();
    v.push(FieldSpec { name: "hp_drain_rate".to_owned(), key: None, ty: FieldType::Int8 });
    v.push(FieldSpec { name: "circle_size".to_owned(), key: None, ty: FieldType::Int8 });
    v.push(FieldSpec { name: "overall_difficulty".to_owned(), key: None, ty: FieldType::Int8 });
    v.push(FieldSpec { name: "slider_multiplier".to_owned(), key: None, ty: FieldType::Int8 });
    v.push(FieldSpec { name: "slider_tick_rate".to_owned(), key: None, ty: FieldType::Int8 });
    proof {
        assert(v.deep_view() =~= difficulty_specs());
    }
    v
}

/// Typed record of the `[Difficulty]` metadata section.
#[derive(Debug, PartialEq)]
pub struct DifficultyMetadata {
    pub hp_drain_rate: Option<i8>,
    pub circle_size: Option<i8>,
    pub overall_difficulty: Option<i8>,
    pub slider_multiplier: Option<i8>,
    pub slider_tick_rate: Option<i8>,
}

/// The record's fields correspond, in order, to the decoded field values.
pub open spec fn difficulty_matches(
    g: DifficultyMetadata,
    vals: Seq<Option<FieldValueView>>,
) -> bool {
    &&& vals.len() == 5
    &&& opt_i8_matches(g.hp_drain_rate, vals[0])
    &&& opt_i8_matches(g.circle_size, vals[1])
    &&& opt_i8_matches(g.overall_difficulty, vals[2])
    &&& opt_i8_matches(g.slider_multiplier, vals[3])
    &&& opt_i8_matches(g.slider_tick_rate, vals[4])
}

impl Parsed for DifficultyMetadata {
    fn parse_from(section: Vec<String>) -> (r: Result<Self, ParseError>)
        ensures
            match decode_fields_spec(difficulty_specs(), section.deep_view()) {
                Ok(vals) => r matches Ok(g) && difficulty_matches(g, vals),
                Err(_) => r is Err,
            },
    {
        let specs: Vec<FieldSpec> = difficulty_field_specs();
        match decode_fields(&specs, &section) {
            Err(e) => Err(e),
            Ok(vals) => {
                proof {
                    lemma_decode_from_types(difficulty_specs(), section.deep_view(), 0);
                    assert(vals.deep_view().len() == 5);
                    assert(value_matches_type(vals.deep_view()[0], difficulty_specs()[0].ty));
                    assert(vals.deep_view()[0] == vals@[0].deep_view());
                    assert(value_matches_type(vals.deep_view()[1], difficulty_specs()[1].ty));
                    assert(vals.deep_view()[1] == vals@[1].deep_view());
                    assert(value_matches_type(vals.deep_view()[2], difficulty_specs()[2].ty));
                    assert(vals.deep_view()[2] == vals@[2].deep_view());
                    assert(value_matches_type(vals.deep_view()[3], difficulty_specs()[3].ty));
                    assert(vals.deep_view()[3] == vals@[3].deep_view());
                    assert(value_matches_type(vals.deep_view()[4], difficulty_specs()[4].ty));
                    assert(vals.deep_view()[4] == vals@[4].deep_view());
                }
                Ok(
                    DifficultyMetadata {
                        hp_drain_rate: take_i8(&vals[0]),
                        circle_size: take_i8(&vals[1]),
                        overall_difficulty: take_i8(&vals[2]),
                        slider_multiplier: take_i8(&vals[3]),
                        slider_tick_rate: take_i8(&vals[4]),
                    },
                )
            },
        }
    }

    fn is_section_id(id: String) -> (r: bool)
        ensures
            r == (id@ == "[Difficulty]"@),
    {
        let expected: String = "[Difficulty]".to_owned();
        id.eq(&expected)
    }
}


/// One curve control point of a path's geometry; order within the containing
/// path is significant.
#[derive(Clone, Copy, Debug, PartialEq, Eq, Structural)]
pub struct CurvePoint {
    pub x: i32,
    pub y: i32,
}

/// Decoded coordinates of a `"x:y"` colon-delimited pair: both of the first
/// two pieces must be 32-bit integers; pieces beyond the second are ignored,
/// and a missing partner is a failure.
pub open spec fn curve_point_spec(s: Seq<char>) -> Option<(int, int)> {
    let pieces = split_on_spec(s, ':');
    if pieces.len() < 2 {
        None
    } else if i32_text_ok(pieces[0]) && i32_text_ok(pieces[1]) {
        Some((int_text_val(pieces[0]), int_text_val(pieces[1])))
    } else {
        None
    }
}

impl CurvePoint {
    /// Parse one colon-delimited coordinate pair.
    pub fn parse(s: &String) -> (r: Result<CurvePoint, ParseError>)
        ensures
            match curve_point_spec(s@) {
                Some(p) => r matches Ok(q) && q.x as int == p.0 && q.y as int == p.1,
                None => r is Err,
            },
    {
        let pieces: Vec<String> = split_on(s.as_str(), ':');
        proof {
            assert(pieces.deep_view() == split_on_spec(s@, ':'));
        }
        if pieces.len() < 2 {
            return Err(ParseError);
        }
        proof {
            assert(pieces@[0]@ == pieces.deep_view()[0]);
            assert(pieces@[1]@ == pieces.deep_view()[1]);
        }
        let x: i32 = match parse_i32(pieces[0].as_str()) {
            Ok(v) => v,
            Err(_) => {
                return Err(ParseError);
            },
        };
        let y: i32 = match parse_i32(pieces[1].as_str()) {
            Ok(v) => v,
            Err(_) => {
                return Err(ParseError);
            },
        };
        Ok(CurvePoint { x, y })
    }
}

/// One record of the entity data section: a closed set of shapes selected by
/// the line's type discriminant.
#[derive(Debug, PartialEq)]
pub enum TimingPoint {
    /// Discriminant 0: a point entity made of the five fixed fields alone.
    Point { x: i32, y: i32, time: i32, hit_sound: i8 },
    /// Discriminant 1: a path entity with a curve-shape discriminant, its
    /// ordered control points, a slide count and a length kept as validated
    /// decimal text.  Edge sounds and edge sample sets are reserved and left
    /// empty by the decoder.
    Path {
        x: i32,
        y: i32,
        time: i32,
        hit_sound: i8,
        curve_type: i8,
        curve_points: Vec<CurvePoint>,
        slides: i8,
        length: String,
        edge_sounds: Vec<i8>,
        edge_sets: Vec<String>,
    },
    /// Discriminant 2: a duration entity carrying its end time.
    Duration { x: i32, y: i32, time: i32, hit_sound: i8, end_time: i32 },
}

/// Mathematical image of a [`TimingPoint`].
#[verifier::ext_equal]
pub enum TimingPointView {
    Point { x: int, y: int, time: int, hit_sound: int },
    Path {
        x: int,
        y: int,
        time: int,
        hit_sound: int,
        curve_type: int,
        curve_points: Seq<(int, int)>,
        slides: int,
        length: Seq<char>,
        edge_sounds: Seq<int>,
        edge_sets: Seq<Seq<char>>,
    },
    Duration { x: int, y: int, time: int, hit_sound: int, end_time: int },
}

impl DeepView for TimingPoint {
    type V = TimingPointView;

    open spec fn deep_view(&self) -> TimingPointView {
        match self {
            TimingPoint::Point { x, y, time, hit_sound } => TimingPointView::Point {
                x: *x as int,
                y: *y as int,
                time: *time as int,
                hit_sound: *hit_sound as int,
            },
            TimingPoint::Path {
                x,
                y,
                time,
                hit_sound,
                curve_type,
                curve_points,
                slides,
                length,
                edge_sounds,
                edge_sets,
            } => TimingPointView::Path {
                x: *x as int,
                y: *y as int,
                time: *time as int,
                hit_sound: *hit_sound as int,
                curve_type: *curve_type as int,
                curve_points: curve_points@.map_values(|p: CurvePoint| (p.x as int, p.y as int)),
                slides: *slides as int,
                length: length@,
                edge_sounds: edge_sounds@.map_values(|v: i8| v as int),
                edge_sets: edge_sets.deep_view(),
            },
            TimingPoint::Duration { x, y, time, hit_sound, end_time } => TimingPointView::Duration {
                x: *x as int,
                y: *y as int,
                time: *time as int,
                hit_sound: *hit_sound as int,
                end_time: *end_time as int,
            },
        }
    }
}

/// Decoded control points of the given pipe-separated segments, in order;
/// a failure on any single segment fails the whole sequence.
pub open spec fn curve_points_spec(pieces: Seq<Seq<char>>) -> Option<Seq<(int, int)>>
    decreases pieces.len(),
{
    if pieces.len() == 0 {
        Some(Seq::empty())
    } else {
        match curve_point_spec(pieces[0]) {
            None => None,
            Some(p) => match curve_points_spec(pieces.skip(1)) {
                None => None,
                Some(rest) => Some(seq![p] + rest),
            },
        }
    }
}

/// Decoded entity of the five fixed fields plus the trailing payload.
/// The discriminant selects exactly one shape; values outside 0, 1 and 2
/// are a decode failure, never a silent default.
pub open spec fn entity_spec(
    x: i32,
    y: i32,
    time: i32,
    ty: i8,
    hit_sound: i8,
    extra: Seq<Seq<char>>,
) -> Option<TimingPointView> {
    if ty == 0 {
        Some(
            TimingPointView::Point {
                x: x as int,
                y: y as int,
                time: time as int,
                hit_sound: hit_sound as int,
            },
        )
    } else if ty == 1 {
        if extra.len() < 3 {
            None
        } else {
            let segs = split_on_spec(extra[0], '|');
            if !i8_text_ok(segs[0]) {
                None
            } else {
                match curve_points_spec(segs.skip(1)) {
                    None => None,
                    Some(cps) => if !i8_text_ok(extra[1]) {
                        None
                    } else if !decimal_text_ok(extra[2]) {
                        None
                    } else {
                        Some(
                            TimingPointView::Path {
                                x: x as int,
                                y: y as int,
                                time: time as int,
                                hit_sound: hit_sound as int,
                                curve_type: int_text_val(segs[0]),
                                curve_points: cps,
                                slides: int_text_val(extra[1]),
                                length: extra[2],
                                edge_sounds: Seq::empty(),
                                edge_sets: Seq::empty(),
                            },
                        )
                    },
                }
            }
        }
    } else if ty == 2 {
        if extra.len() < 1 {
            None
        } else if !i32_text_ok(extra[0]) {
            None
        } else {
            Some(
                TimingPointView::Duration {
                    x: x as int,
                    y: y as int,
                    time: time as int,
                    hit_sound: hit_sound as int,
                    end_time: int_text_val(extra[0]),
                },
            )
        }
    } else {
        None
    }
}

/// The control points held by a path, as coordinate pairs.
pub open spec fn curve_points_of(cps: Vec<CurvePoint>) -> Seq<(int, int)> {
    cps@.map_values(|p: CurvePoint| (p.x as int, p.y as int))
}

/// Decode one entity record from its five fixed fields and its trailing
/// payload fields, dispatching on the type discriminant.
pub fn parse(
    x: i32,
    y: i32,
    time: i32,
    ty: i8,
    hit_sound: i8,
    extra_data: Vec<String>,
) -> (r: Result<TimingPoint, ParseError>)
    ensures
        match entity_spec(x, y, time, ty, hit_sound, extra_data.deep_view()) {
            Some(tp) => r matches Ok(t) && t.deep_view() == tp,
            None => r is Err,
        },
{
    let ghost gextra = extra_data.deep_view();
    if ty == 0 {
        return Ok(TimingPoint::Point { x, y, time, hit_sound });
    }
    if ty == 1 {
        if extra_data.len() < 3 {
            return Err(ParseError);
        }
        proof {
            assert(gextra[0] == extra_data@[0]@);
            assert(gextra[1] == extra_data@[1]@);
            assert(gextra[2] == extra_data@[2]@);
        }
        let segs: Vec<String> = split_on(extra_data[0].as_str(), '|');
        let ghost gsegs = segs.deep_view();
        proof {
            assert(gsegs == split_on_spec(gextra[0], '|'));
            lemma_split_len(gextra[0], '|');
            assert(gsegs[0] == segs@[0]@);
        }
        let curve_type: i8 = match parse_i8(segs[0].as_str()) {
            Ok(v) => v,
            Err(_) => {
                return Err(ParseError);
            },
        };
        let mut cps: Vec<CurvePoint> = Vec::new();
        let mut idx: usize = 1;
        proof {
            assert(curve_points_of(cps) =~= Seq::<(int, int)>::empty());
        }
        while idx < segs.len()
            invariant
                ty == 1i8,
                gextra == extra_data.deep_view(),
                gextra.len() >= 3,
                gsegs == split_on_spec(gextra[0], '|'),
                crate::scalars::i8_text_ok(gsegs[0]),
                1 <= idx <= gsegs.len(),
                gsegs == segs.deep_view(),
                gsegs.len() == segs@.len(),
                cps@.len() == idx - 1,
                match curve_points_spec(gsegs.skip(idx as int)) {
                    Some(rest) => curve_points_spec(gsegs.skip(1)) == Some(
                        curve_points_of(cps) + rest,
                    ),
                    None => curve_points_spec(gsegs.skip(1)) is None,
                },
            decreases segs@.len() - idx,
        {
            let ghost old_cps = curve_points_of(cps);
            proof {
                assert(gsegs.skip(idx as int)[0] == gsegs[idx as int]);
                assert(gsegs[idx as int] == segs@[idx as int]@);
                assert(gsegs.skip(idx as int).skip(1) =~= gsegs.skip(idx + 1));
            }
            match CurvePoint::parse(&segs[idx]) {
                Ok(p) => {
                    cps.push(p);
                    proof {
                        assert(curve_points_of(cps) =~= old_cps.push((p.x as int, p.y as int)));
                        match curve_points_spec(gsegs.skip(idx + 1)) {
                            Some(rest) => {
                                assert(old_cps + (seq![(p.x as int, p.y as int)] + rest)
                                    =~= curve_points_of(cps) + rest);
                            },
                            None => {},
                        }
                    }
                },
                Err(_) => {
                    proof {
                        assert(curve_points_spec(gsegs.skip(idx as int)) is None);
                    }
                    return Err(ParseError);
                },
            }
            idx = idx + 1;
        }
        proof {
            assert(gsegs.skip(gsegs.len() as int).len() == 0);
            assert(curve_points_of(cps) + Seq::<(int, int)>::empty() =~= curve_points_of(cps));
            assert(curve_points_spec(gsegs.skip(1)) == Some(curve_points_of(cps)));
        }
        let slides: i8 = match parse_i8(extra_data[1].as_str()) {
            Ok(v) => v,
            Err(_) => {
                return Err(ParseError);
            },
        };
        if !is_decimal_text(extra_data[2].as_str()) {
            return Err(ParseError);
        }
        let length: String = extra_data[2].clone();
        let res = TimingPoint::Path {
            x,
            y,
            time,
            hit_sound,
            curve_type,
            curve_points: cps,
            slides,
            length,
            edge_sounds: Vec::new(),
            edge_sets: Vec::new(),
        };
        proof {
            match entity_spec(x, y, time, ty, hit_sound, gextra) {
                Some(tp) => {
                    assert(res.deep_view() =~~= tp);
                },
                None => {
                    assert(false);
                },
            }
        }
        return Ok(res);
    }
    if ty == 2 {
        if extra_data.len() < 1 {
            return Err(ParseError);
        }
        proof {
            assert(gextra[0] == extra_data@[0]@);
        }
        let end_time: i32 = match parse_i32(extra_data[0].as_str()) {
            Ok(v) => v,
            Err(_) => {
                return Err(ParseError);
            },
        };
        return Ok(TimingPoint::Duration { x, y, time, hit_sound, end_time });
    }
    Err(ParseError)
}



/// Decoded entity of one full data line: five fixed comma-fields
/// `x,y,time,type,hitSound`, then the shape-specific trailing payload.
pub open spec fn line_spec(line: Seq<char>) -> Option<TimingPointView> {
    let pieces = split_on_spec(line, ',');
    if pieces.len() < 5 {
        None
    } else if !i32_text_ok(pieces[0]) || !i32_text_ok(pieces[1]) || !i32_text_ok(pieces[2])
        || !i8_text_ok(pieces[3]) || !i8_text_ok(pieces[4]) {
        None
    } else {
        entity_spec(
            int_text_val(pieces[0]) as i32,
            int_text_val(pieces[1]) as i32,
            int_text_val(pieces[2]) as i32,
            int_text_val(pieces[3]) as i8,
            int_text_val(pieces[4]) as i8,
            pieces.skip(5),
        )
    }
}

/// Decoded entities of a whole data section, one per line in input order,
/// failing fast at the first malformed line.
pub open spec fn section_spec(lines: Seq<Seq<char>>) -> Option<Seq<TimingPointView>>
    decreases lines.len(),
{
    if lines.len() == 0 {
        Some(Seq::empty())
    } else {
        match line_spec(lines[0]) {
            None => None,
            Some(e) => match section_spec(lines.skip(1)) {
                None => None,
                Some(rest) => Some(seq![e] + rest),
            },
        }
    }
}

/// Typed record of the entity data section: the decoded entities, one per
/// input line, in input order.
#[derive(Debug, PartialEq)]
pub struct TimingPointsMetadata {
    pub points: Vec<TimingPoint>,
}

impl Parsed for TimingPointsMetadata {
    fn parse_from(section: Vec<String>) -> (r: Result<Self, ParseError>)
        ensures
            match section_spec(section.deep_view()) {
                Some(s) => r matches Ok(m) && m.points.deep_view() == s,
                None => r is Err,
            },
    {
        let ghost glines = section.deep_view();
        let mut points: Vec<TimingPoint> = Vec::new();
        let mut i: usize = 0;
        proof {
            assert(points.deep_view() =~= Seq::<TimingPointView>::empty());
            assert(glines.skip(0) =~= glines);
            match section_spec(glines) {
                Some(rest) => {
                    assert(points.deep_view() + rest =~= rest);
                },
                None => {},
            }
        }
        while i < section.len()
            invariant
                i <= section@.len(),
                glines == section.deep_view(),
                glines.len() == section@.len(),
                points@.len() == i,
                match section_spec(glines.skip(i as int)) {
                    Some(rest) => section_spec(glines) == Some(points.deep_view() + rest),
                    None => section_spec(glines) is None,
                },
            decreases section@.len() - i,
        {
            let ghost gline = glines[i as int];
            let ghost old_pts = points.deep_view();
            proof {
                assert(glines.skip(i as int)[0] == gline);
                assert(glines.skip(i as int).skip(1) =~= glines.skip(i + 1));
                assert(gline == section@[i as int]@);
            }
            let spliced: Vec<String> = split_on(section[i].as_str(), ',');
            let ghost gp = spliced.deep_view();
            proof {
                assert(gp == split_on_spec(gline, ','));
            }
            if spliced.len() < 5 {
                return Err(ParseError);
            }
            proof {
                assert(gp[0] == spliced@[0]@);
                assert(gp[1] == spliced@[1]@);
                assert(gp[2] == spliced@[2]@);
                assert(gp[3] == spliced@[3]@);
                assert(gp[4] == spliced@[4]@);
            }
            let x: i32 = match parse_i32(spliced[0].as_str()) {
                Ok(v) => v,
                Err(_) => {
                    return Err(ParseError);
                },
            };
            let y: i32 = match parse_i32(spliced[1].as_str()) {
                Ok(v) => v,
                Err(_) => {
                    return Err(ParseError);
                },
            };
            let time: i32 = match parse_i32(spliced[2].as_str()) {
                Ok(v) => v,
                Err(_) => {
                    return Err(ParseError);
                },
            };
            let ty: i8 = match parse_i8(spliced[3].as_str()) {
                Ok(v) => v,
                Err(_) => {
                    return Err(ParseError);
                },
            };
            let hit_sound: i8 = match parse_i8(spliced[4].as_str()) {
                Ok(v) => v,
                Err(_) => {
                    return Err(ParseError);
                },
            };
            let mut extra_data: Vec<String> = Vec::new();
            let mut j: usize = 5;
            while j < spliced.len()
                invariant
                    5 <= j <= spliced@.len(),
                    gp == spliced.deep_view(),
                    gp.len() == spliced@.len(),
                    gp.len() >= 5,
                    extra_data@.len() == j - 5,
                    extra_data.deep_view() =~= gp.subrange(5, j as int),
                decreases spliced@.len() - j,
            {
                extra_data.push(spliced[j].clone());
                proof {
                    assert(extra_data.deep_view() =~= gp.subrange(5, j + 1));
                }
                j = j + 1;
            }
            proof {
                assert(extra_data.deep_view() =~= gp.skip(5));
            }
            match parse(x, y, time, ty, hit_sound, extra_data) {
                Ok(tp) => {
                    points.push(tp);
                    proof {
                        assert(points.deep_view() =~= old_pts.push(tp.deep_view()));
                        assert(line_spec(gline) == Some(tp.deep_view()));
                        match section_spec(glines.skip(i + 1)) {
                            Some(rest) => {
                                assert(old_pts + (seq![tp.deep_view()] + rest) =~= points.deep_view()
                                    + rest);
                            },
                            None => {},
                        }
                    }
                },
                Err(_) => {
                    proof {
                        assert(line_spec(gline) is None);
                        assert(section_spec(glines.skip(i as int)) is None);
                    }
                    return Err(ParseError);
                },
            }
            i = i + 1;
        }
        proof {
            assert(glines.skip(glines.len() as int).len() == 0);
            assert(points.deep_view() + Seq::<TimingPointView>::empty() =~= points.deep_view());
        }
        Ok(TimingPointsMetadata { points })
    }

    fn is_section_id(id: String) -> (r: bool)
        ensures
            r == (id@ == "[TimingPoints]"@),
    {
        let expected: String = "[TimingPoints]".to_owned();
        id.eq(&expected)
    }
}



/// Law: a type discriminant outside the closed set 0, 1, 2 decodes to a
/// failure, whatever the fixed fields and the trailing payload hold — never
/// to a silently defaulted record.
pub proof fn lemma_unknown_discriminant_fails(
    x: i32,
    y: i32,
    time: i32,
    ty: i8,
    hit_sound: i8,
    extra: Seq<Seq<char>>,
)
    requires
        ty != 0,
        ty != 1,
        ty != 2,
    ensures
        entity_spec(x, y, time, ty, hit_sound, extra) is None,
{
}

/// Law: metadata decoding is a pure function of the field table and the
/// section's lines.  Any two results that the decode contract admits for the
/// same lines agree: both fail, or both succeed with field-for-field equal
/// views.  In particular, decoding the same immutable line list twice yields
/// equal records.
pub proof fn lemma_general_decode_deterministic(
    lines: Seq<Seq<char>>,
    r1: Result<GeneralMetadata, ParseError>,
    r2: Result<GeneralMetadata, ParseError>,
)
    requires
        match decode_fields_spec(general_specs(), lines) {
            Ok(vals) => r1 matches Ok(g) && general_matches(g, vals),
            Err(_) => r1 is Err,
        },
        match decode_fields_spec(general_specs(), lines) {
            Ok(vals) => r2 matches Ok(g) && general_matches(g, vals),
            Err(_) => r2 is Err,
        },
    ensures
        r1 is Ok <==> r2 is Ok,
        (match (r1, r2) {
            (Ok(g1), Ok(g2)) => {
                &&& opt_text_view_eq(g1.audio_file_name, g2.audio_file_name)
                &&& g1.audio_lead_in == g2.audio_lead_in
                &&& g1.preview_time == g2.preview_time
                &&& g1.countdown == g2.countdown
                &&& opt_text_view_eq(g1.sample_set, g2.sample_set)
                &&& opt_text_view_eq(g1.stack_leniency, g2.stack_leniency)
                &&& g1.mode == g2.mode
                &&& g1.letterbox_in_breaks == g2.letterbox_in_breaks
            },
            _ => true,
        }),
{
}

/// Two optional strings hold the same text, or are both absent.
pub open spec fn opt_text_view_eq(a: Option<String>, b: Option<String>) -> bool {
    match (a, b) {
        (None, None) => true,
        (Some(s), Some(t)) => s@ == t@,
        _ => false,
    }
}

/// Law: entity-section decoding is a pure function of the section's lines.
/// Any two results that the decode contract admits for the same lines agree:
/// both fail, or both succeed with the same decoded entity sequence.
pub proof fn lemma_section_decode_deterministic(
    lines: Seq<Seq<char>>,
    r1: Result<TimingPointsMetadata, ParseError>,
    r2: Result<TimingPointsMetadata, ParseError>,
)
    requires
        match section_spec(lines) {
            Some(s) => r1 matches Ok(m) && m.points.deep_view() == s,
            None => r1 is Err,
        },
        match section_spec(lines) {
            Some(s) => r2 matches Ok(m) && m.points.deep_view() == s,
            None => r2 is Err,
        },
    ensures
        r1 is Ok <==> r2 is Ok,
        (match (r1, r2) {
            (Ok(m1), Ok(m2)) => m1.points.deep_view() == m2.points.deep_view(),
            _ => true,
        }),
{
}


} // verus!
