use chart_decode::data::{DifficultyMetadata, EditorMetadata, GeneralMetadata};
use chart_decode::parsing::Parsed;

fn lines(v: Vec<&str>) -> Vec<String> {
    v.into_iter().map(String::from).collect()
}

#[test]
fn it_works() {
    let metadata = GeneralMetadata::parse_from(
        vec![
            "AudioFilename: Niko - Made of Fire.mp3",
            "AudioLeadIn: 1000",
            "PreviewTime: 40703",
            "Countdown: 1",
            "SampleSet: Normal",
            "StackLeniency: 0.7",
            "Mode: 0",
            "LetterboxInBreaks: 1",
        ]
        .iter()
        .cloned()
        .map(String::from)
        .collect(),
    );

    assert!(metadata.is_ok());
    assert_eq!(
        metadata.unwrap(),
        GeneralMetadata {
            audio_file_name: Some("Niko - Made of Fire.mp3".to_owned()),
            audio_lead_in: Some(1000),
            preview_time: Some(40703),
            countdown: Some(1),
            sample_set: Some("Normal".to_owned()),
            stack_leniency: Some("0.7".to_owned()),
            mode: Some(0),
            letterbox_in_breaks: Some(1)
        }
    );
}

#[test]
fn empty_section_yields_all_none() {
    let general = GeneralMetadata::parse_from(Vec::new()).unwrap();
    assert_eq!(
        general,
        GeneralMetadata {
            audio_file_name: None,
            audio_lead_in: None,
            preview_time: None,
            countdown: None,
            sample_set: None,
            stack_leniency: None,
            mode: None,
            letterbox_in_breaks: None
        }
    );

    let editor = EditorMetadata::parse_from(Vec::new()).unwrap();
    assert_eq!(
        editor,
        EditorMetadata { distance_spacing: None, beat_divisor: None, grid_size: None }
    );

    let difficulty = DifficultyMetadata::parse_from(Vec::new()).unwrap();
    assert_eq!(
        difficulty,
        DifficultyMetadata {
            hp_drain_rate: None,
            circle_size: None,
            overall_difficulty: None,
            slider_multiplier: None,
            slider_tick_rate: None
        }
    );
}

#[test]
fn unparsable_typed_value_fails() {
    let r = GeneralMetadata::parse_from(lines(vec!["Countdown: notanumber"]));
    assert!(r.is_err());
}

#[test]
fn unparsable_decimal_value_fails() {
    let r = GeneralMetadata::parse_from(lines(vec!["StackLeniency: x.y"]));
    assert!(r.is_err());
}

#[test]
fn key_derivation_letterbox_in_breaks() {
    // The derived lookup key of `letterbox_in_breaks` must be exactly
    // `LetterboxInBreaks`; a section carrying that key fills the field.
    let r = GeneralMetadata::parse_from(lines(vec!["LetterboxInBreaks: 1"])).unwrap();
    assert_eq!(r.letterbox_in_breaks, Some(1));
    // A line with the raw field name must not match the derived key.
    let r = GeneralMetadata::parse_from(lines(vec!["letterbox_in_breaks: 1"])).unwrap();
    assert_eq!(r.letterbox_in_breaks, None);
}

#[test]
fn first_matching_line_wins() {
    let r = GeneralMetadata::parse_from(lines(vec!["Mode: 3", "Mode: 1"])).unwrap();
    assert_eq!(r.mode, Some(3));
}

#[test]
fn missing_keys_are_not_errors_amid_present_ones() {
    let r = GeneralMetadata::parse_from(lines(vec!["Mode: 2"])).unwrap();
    assert_eq!(r.mode, Some(2));
    assert_eq!(r.audio_file_name, None);
    assert_eq!(r.countdown, None);
}

#[test]
fn editor_decodes_derived_keys() {
    let r = EditorMetadata::parse_from(lines(vec![
        "DistanceSpacing: 0.8",
        "BeatDivisor: 4",
        "GridSize: 16",
    ]))
    .unwrap();
    assert_eq!(
        r,
        EditorMetadata {
            distance_spacing: Some("0.8".to_owned()),
            beat_divisor: Some(4),
            grid_size: Some(16)
        }
    );
    assert_eq!(r.distance_spacing.unwrap().parse::<f32>().unwrap(), 0.8f32);
}

#[test]
fn difficulty_decodes_derived_keys() {
    let r = DifficultyMetadata::parse_from(lines(vec![
        "HpDrainRate: 5",
        "CircleSize: 4",
        "OverallDifficulty: 6",
        "SliderMultiplier: 1",
        "SliderTickRate: 2",
    ]))
    .unwrap();
    assert_eq!(
        r,
        DifficultyMetadata {
            hp_drain_rate: Some(5),
            circle_size: Some(4),
            overall_difficulty: Some(6),
            slider_multiplier: Some(1),
            slider_tick_rate: Some(2)
        }
    );
}

#[test]
fn metadata_decode_is_idempotent() {
    let input = vec!["AudioLeadIn: 1000", "Mode: 0", "StackLeniency: 0.7"];
    let a = GeneralMetadata::parse_from(lines(input.clone())).unwrap();
    let b = GeneralMetadata::parse_from(lines(input)).unwrap();
    assert_eq!(a, b);
}

#[test]
fn section_identity_checks() {
    assert!(GeneralMetadata::is_section_id("[General]".to_owned()));
    assert!(!GeneralMetadata::is_section_id("[Editor]".to_owned()));
    assert!(EditorMetadata::is_section_id("[Editor]".to_owned()));
    assert!(DifficultyMetadata::is_section_id("[Difficulty]".to_owned()));
    assert!(!DifficultyMetadata::is_section_id("Difficulty".to_owned()));
}

#[test]
fn stack_leniency_value_parses_as_declared_type() {
    let r = GeneralMetadata::parse_from(lines(vec!["StackLeniency: 0.7"])).unwrap();
    let text = r.stack_leniency.unwrap();
    assert_eq!(text, "0.7");
    assert_eq!(text.parse::<f32>().unwrap(), 0.7f32);
}
