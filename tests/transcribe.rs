use dir_transcribe::transcribe::{format_temperature, read_transcript, Transcribe, TranscribeError};

fn job() -> Transcribe {
    Transcribe::new("/data/in_process/b.wav".to_string(), "base".to_string())
}

#[test]
fn temperature_has_two_decimals() {
    assert_eq!(format_temperature(0), "0.00");
    assert_eq!(format_temperature(7), "0.07");
    assert_eq!(format_temperature(50), "0.50");
    assert_eq!(format_temperature(123), "1.23");
    assert_eq!(format_temperature(200), "2.00");
}

#[test]
fn builder_sets_fields() {
    let t = job().lang("de".to_string()).temperature(25);
    assert_eq!(t.audio_file, "/data/in_process/b.wav");
    assert_eq!(t.model, "base");
    assert_eq!(t.lang.as_deref(), Some("de"));
    assert_eq!(t.temperature, Some(25));
}

#[test]
fn arguments_without_options() {
    assert_eq!(
        job().args("/tmp"),
        vec![
            "/data/in_process/b.wav",
            "--output_format",
            "json",
            "--output_dir",
            "/tmp",
            "--model",
            "base",
        ]
    );
}

#[test]
fn arguments_with_language_and_temperature() {
    assert_eq!(
        job().lang("en".to_string()).temperature(150).args("/tmp"),
        vec![
            "/data/in_process/b.wav",
            "--output_format",
            "json",
            "--output_dir",
            "/tmp",
            "--model",
            "base",
            "--language",
            "en",
            "--temperature",
            "1.50",
        ]
    );
}

#[test]
fn result_path_replaces_extension() {
    assert_eq!(job().result_path("/tmp").unwrap(), "/tmp/b.json");
    let t = Transcribe::new("/x/rec.2024.wav".to_string(), "base".to_string());
    assert_eq!(t.result_path("/tmp").unwrap(), "/tmp/rec.2024.json");
    let t = Transcribe::new("/x/..".to_string(), "base".to_string());
    assert_eq!(t.result_path("/tmp"), Err(TranscribeError::NoFileName));
}

#[test]
fn scenario_transcript_is_trimmed() {
    let out = br#"{"text": "  hello world  "}"#.to_vec();
    assert_eq!(job().transcribe(Some(out)).unwrap(), "hello world");
}

#[test]
fn scenario_missing_output_is_reported() {
    assert_eq!(job().transcribe(None), Err(TranscribeError::MissingOutput));
}

#[test]
fn malformed_output_is_reported() {
    assert_eq!(read_transcript(b"not json"), Err(TranscribeError::MalformedOutput));
    assert_eq!(read_transcript(br#"{"other": "x"}"#), Err(TranscribeError::MalformedOutput));
    assert_eq!(read_transcript(br#"{"text": 3}"#), Err(TranscribeError::MalformedOutput));
}

#[test]
fn extra_fields_are_ignored() {
    let out = br#"{"text": "\tok\n", "segments": []}"#;
    assert_eq!(read_transcript(out).unwrap(), "ok");
}

#[test]
fn result_path_keeps_stem_of_unusual_names() {
    let path = |audio: &str| Transcribe::new(audio.to_string(), "base".to_string()).result_path("/tmp").unwrap();
    assert_eq!(path("/x/noext"), "/tmp/noext.json");
    assert_eq!(path("/x/.hidden"), "/tmp/.hidden.json");
    assert_eq!(path("/x/a."), "/tmp/a.json");
    assert_eq!(path("/x/rec.wav/"), "/tmp/rec.json");
}
