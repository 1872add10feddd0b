use yomiage_bot::scale::Scale;
use yomiage_bot::voicevox::{
    check, is_intonation, is_pitch, is_speed, tune, Client, Endpoint, Error, StyleId, Voice,
    BYTES_PER_SEC, OUTPUT_SAMPLING_RATE,
};

fn number(value: f32) -> Scale {
    Scale {
        bits: value.to_bits(),
    }
}

#[test]
fn base_url_must_be_http() {
    assert!(matches!(
        Client::new("localhost:50021"),
        Err(Error::BaseUrl(_))
    ));
    assert!(Client::new("http://localhost:50021/").is_ok());
}

#[test]
fn addresses_are_built_from_the_base() {
    let client = Client::new("http://localhost:50021//").unwrap();
    assert_eq!(
        client.url(Endpoint::Version),
        "http://localhost:50021/version"
    );
    assert_eq!(
        client.url(Endpoint::InitializeSpeaker),
        "http://localhost:50021/initialize_speaker"
    );
    assert_eq!(
        client.url(Endpoint::Speakers),
        "http://localhost:50021/speakers"
    );
    assert_eq!(
        client.url(Endpoint::AudioQuery),
        "http://localhost:50021/audio_query"
    );
    assert_eq!(
        client.url(Endpoint::Synthesis),
        "http://localhost:50021/synthesis"
    );
}

#[test]
fn a_wrong_base_is_told() {
    let error = Client::new("ftp://engine/").unwrap_err();
    assert_eq!(error.message(), "ENGINE のベース URL が不正: ftp://engine");
    assert_eq!(
        Error::Http.message(),
        "ENGINE への HTTP リクエストが失敗した"
    );
}

#[test]
fn the_version_loses_its_quotes() {
    assert_eq!(Client::version(" \"0.25.2\"\n"), "0.25.2");
    assert_eq!(Client::version("0.25.2"), "0.25.2");
}

#[test]
fn only_the_two_hundreds_are_success() {
    assert!(check(200, "200 OK", None).is_ok());
    assert!(check(299, "299", None).is_ok());
    assert!(check(300, "300", None).is_err());
    assert!(check(199, "199", None).is_err());
    let error = check(422, "422 Unprocessable Entity", Some("だめ")).unwrap_err();
    assert_eq!(
        error.message(),
        "ENGINE が 422 Unprocessable Entity を返した: だめ"
    );
}

#[test]
fn long_bodies_are_cut() {
    let body = "あ".repeat(300);
    match check(500, "500", Some(&body)) {
        Err(Error::Status { body, .. }) => assert_eq!(body, "あ".repeat(200)),
        other => panic!("{other:?}"),
    }
    match check(500, "500", None) {
        Err(Error::Status { body, .. }) => assert_eq!(body, "<本文の読み取りに失敗>"),
        other => panic!("{other:?}"),
    }
}

#[test]
fn ranges_are_those_of_the_engine() {
    for (value, good) in [
        (0.5, true),
        (2.0, true),
        (1.0, true),
        (0.499_999_97, false),
        (2.000_000_2, false),
        (-1.0, false),
        (f32::NAN, false),
        (f32::INFINITY, false),
    ] {
        assert_eq!(is_speed(number(value)), good, "{value}");
        assert_eq!((0.5..=2.0).contains(&value), good, "{value}");
    }
    for (value, good) in [
        (0.0, true),
        (-0.0, true),
        (0.15, true),
        (-0.15, true),
        (0.150_000_02, false),
        (-0.150_000_02, false),
        (f32::NAN, false),
        (f32::NEG_INFINITY, false),
    ] {
        assert_eq!(is_pitch(number(value)), good, "{value}");
        assert_eq!((-0.15..=0.15).contains(&value), good, "{value}");
    }
    for (value, good) in [
        (0.0, true),
        (-0.0, true),
        (2.0, true),
        (-1.0e-45, false),
        (2.000_000_2, false),
        (f32::NAN, false),
    ] {
        assert_eq!(is_intonation(number(value)), good, "{value}");
        assert_eq!((0.0..=2.0).contains(&value), good, "{value}");
    }
}

#[test]
fn the_default_voice_is_plain() {
    let voice = Voice::default();
    assert_eq!(voice.style, StyleId(3));
    assert_eq!(voice.speed, number(1.0));
    assert_eq!(voice.pitch, number(0.0));
    assert_eq!(voice.intonation, number(1.0));
    assert_eq!(BYTES_PER_SEC, OUTPUT_SAMPLING_RATE * 2 * 2);
}

#[test]
fn queries_get_the_settings_and_the_format() {
    let mut query: serde_json::Value = serde_json::from_str(
        "{\"speedScale\":1.0,\"kana\":\"テスト\",\"outputStereo\":false}",
    )
    .unwrap();
    tune(
        &mut query,
        serde_json::Value::from(1.5f32),
        serde_json::Value::from(-0.5f32),
        serde_json::Value::from(2.0f32),
    );
    assert_eq!(
        query.to_string(),
        "{\"intonationScale\":2.0,\"kana\":\"テスト\",\"outputSamplingRate\":48000,\
         \"outputStereo\":true,\"pitchScale\":-0.5,\"speedScale\":1.5}"
    );
}

#[test]
fn what_is_no_object_is_left_alone() {
    let mut query = serde_json::Value::from(3);
    tune(
        &mut query,
        serde_json::Value::from(1.5f32),
        serde_json::Value::from(0.0f32),
        serde_json::Value::from(2.0f32),
    );
    assert_eq!(query.to_string(), "3");
}
