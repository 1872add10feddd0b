use std::path::PathBuf;

use yomiage_bot::exvoice::{Library, Recording, STYLE};

fn recording(depth: usize, name: &str) -> Recording {
    Recording {
        depth,
        name: name.to_owned(),
        path: PathBuf::from("/exvoice").join(name),
    }
}

#[test]
fn missing_directory_is_not_an_error() {
    let library = Library::load(&Vec::new());
    assert!(library.is_empty());
    assert_eq!(library.find("ハロー"), None);
}

#[test]
fn keys_drop_the_leading_number() {
    let files = vec![
        recording(1, "001_ハロー.wav"),
        recording(1, "読み上げます.wav"),
        recording(1, "002_説明.txt"),
    ];

    let library = Library::load(&files);

    assert_eq!(library.len(), 2);
    assert!(library.find("ハロー").is_some());
    assert!(library.find("読み上げます").is_some());
    assert!(library.find("  ハロー  ").is_some());
    assert_eq!(library.find("説明"), None);
}

#[test]
fn the_first_of_several_recordings_is_used() {
    let files = vec![recording(0, "001_はい.wav"), recording(0, "002_はい.wav")];
    let library = Library::load(&files);
    assert_eq!(library.len(), 1);
    assert_eq!(
        library.find("はい"),
        Some(PathBuf::from("/exvoice/001_はい.wav"))
    );
}

#[test]
fn only_a_number_is_dropped() {
    let files = vec![
        recording(0, "a1_名前.wav"),
        recording(0, "_空.wav"),
        recording(0, "12_34_数.wav"),
        recording(0, "99.wav"),
    ];
    let library = Library::load(&files);
    assert!(library.find("a1_名前").is_some());
    assert!(library.find("_空").is_some());
    assert!(library.find("34_数").is_some());
    assert!(library.find("99").is_some());
}

#[test]
fn extensions_are_told_from_names() {
    let files = vec![
        recording(0, "大.WAV"),
        recording(0, ".wav"),
        recording(0, "wav"),
        recording(0, "点.wav."),
        recording(0, "二.つ.wav"),
    ];
    let library = Library::load(&files);
    assert_eq!(library.len(), 2);
    assert!(library.find("大").is_some());
    assert!(library.find("二.つ").is_some());
}

#[test]
fn deep_directories_are_left_out() {
    let files = vec![recording(4, "浅い.wav"), recording(5, "深い.wav")];
    let library = Library::load(&files);
    assert!(library.find("浅い").is_some());
    assert!(library.find("深い").is_none());
    assert_eq!(STYLE, 14);
    assert!(Library::default().is_empty());
}
