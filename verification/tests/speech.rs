use std::time::Duration;

use yomiage_bot::speech::{
    expected_duration, patience, sound_of, Action, Manager, Outcome, Sending, Sound, SpeechTask,
    Synthesis, OUTAGE_NOTICE,
};
use yomiage_bot::voicevox::Voice;

fn wav(rate: u32, length: usize) -> Vec<u8> {
    let mut bytes = b"RIFF".to_vec();
    bytes.resize(28, 0);
    bytes.extend_from_slice(&rate.to_le_bytes());
    bytes.resize(length, 0);
    bytes
}

#[test]
fn an_outage_is_reported_once() {
    let mut synthesis = Synthesis::new();
    assert_eq!(synthesis.step(Outcome::Failed(Some(1))), Action::Notify(1));
    assert_eq!(synthesis.step(Outcome::Failed(Some(1))), Action::Skip);
    assert_eq!(synthesis.step(Outcome::Recorded), Action::Play);
    assert_eq!(synthesis.step(Outcome::Unreadable), Action::Skip);
    assert_eq!(synthesis.step(Outcome::Failed(Some(2))), Action::Skip);
    assert_eq!(synthesis.step(Outcome::Synthesized), Action::Play);
    assert_eq!(synthesis.step(Outcome::Failed(Some(2))), Action::Notify(2));
}

#[test]
fn a_failure_without_a_channel_is_silent() {
    let mut synthesis = Synthesis::new();
    assert_eq!(synthesis.step(Outcome::Failed(None)), Action::Skip);
    assert_eq!(synthesis.step(Outcome::Failed(Some(2))), Action::Notify(2));
    assert_eq!(synthesis.step(Outcome::Failed(None)), Action::Skip);
    assert_eq!(synthesis.step(Outcome::Failed(Some(2))), Action::Skip);
    assert!(OUTAGE_NOTICE.starts_with("音声合成に失敗しました。"));
}

#[test]
fn the_header_tells_how_long_a_sound_is() {
    assert_eq!(
        expected_duration(&wav(1_000, 2_500)),
        Duration::from_millis(2_500)
    );
    assert_eq!(
        expected_duration(&wav(192_000, 192_000)),
        Duration::from_secs(1)
    );
    assert_eq!(
        expected_duration(&wav(3, 32)),
        Duration::new(10, 666_666_667)
    );
}

#[test]
fn without_a_header_the_engine_is_assumed() {
    assert_eq!(
        expected_duration(&vec![0; 96_000]),
        Duration::from_millis(500)
    );
    assert_eq!(
        expected_duration(&wav(0, 192_000)),
        Duration::from_secs(1)
    );
    assert_eq!(expected_duration(b"RIFF"), Duration::new(0, 20_833));
    assert_eq!(expected_duration(b""), Duration::ZERO);
}

#[test]
fn the_end_is_waited_for_a_little_longer() {
    assert_eq!(
        patience(&wav(1_000, 2_500)),
        Duration::from_millis(12_500)
    );
}

#[test]
fn queues_start_once_and_start_again_when_closed() {
    let mut manager = Manager::new();
    assert!(manager.enqueue(1));
    manager.sent(1, Sending::Taken);
    assert!(!manager.enqueue(1));
    manager.sent(1, Sending::Full);
    assert!(!manager.enqueue(1));
    manager.sent(1, Sending::Closed);
    assert!(manager.enqueue(1));
    assert!(manager.stop(1));
    assert!(!manager.stop(1));
}

#[test]
fn only_what_plays_is_skipped() {
    let mut manager = Manager::new();
    assert_eq!(manager.skip(1), None);
    manager.started(1, 7);
    manager.started(2, 8);
    assert_eq!(manager.skip(1), Some(7));
    assert_eq!(manager.skip(1), None);
    manager.finished(2);
    assert_eq!(manager.skip(2), None);
}

#[test]
fn what_is_recorded_is_not_asked_of_the_engine() {
    let mut task = SpeechTask {
        text: "やあ".to_owned(),
        voice: Voice::default(),
        file: Some("/exvoice/やあ.wav".into()),
        origin: None,
    };
    match sound_of(&task) {
        Sound::Recording(path) => assert_eq!(path.to_str(), Some("/exvoice/やあ.wav")),
        Sound::Speech(..) => panic!("there is a recording"),
    }
    task.file = None;
    match sound_of(&task) {
        Sound::Recording(_) => panic!("there is no recording"),
        Sound::Speech(text, voice) => {
            assert_eq!(text, "やあ");
            assert_eq!(voice, Voice::default());
        }
    }
}
