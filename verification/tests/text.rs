use std::collections::HashMap;

use yomiage_bot::text::{apply_dictionary, normalize, Names, Options};

fn names() -> Names {
    Names {
        users: HashMap::from([(1, "いわ".to_owned())]),
        roles: HashMap::from([(2, "運営".to_owned())]),
        channels: HashMap::from([(3, "雑談".to_owned())]),
    }
}

fn normalize_with(input: &str, names: &Names) -> Option<String> {
    normalize(
        input,
        &Options {
            names: Some(names),
            ..Options::default()
        },
    )
}

fn plain(input: &str) -> Option<String> {
    normalize(input, &Options::default())
}

#[test]
fn plain_text_passes_through() {
    assert_eq!(plain("こんにちは"), Some("こんにちは".to_owned()));
}

#[test]
fn urls_are_replaced() {
    assert_eq!(
        plain("これ見て https://example.com/foo?a=1 すごい"),
        Some("これ見て URL省略 すごい".to_owned())
    );
    assert_eq!(plain("http://a.example"), Some("URL省略".to_owned()));
}

#[test]
fn custom_emoji_reads_its_name() {
    assert_eq!(plain("<:kusa:123456789>"), Some("kusa".to_owned()));
    assert_eq!(plain("<a:party:987654321>"), Some("party".to_owned()));
}

#[test]
fn mentions_are_resolved() {
    let names = names();
    assert_eq!(
        normalize_with("<@1> おはよう", &names),
        Some("いわ おはよう".to_owned())
    );
    assert_eq!(normalize_with("<@!1>", &names), Some("いわ".to_owned()));
    assert_eq!(normalize_with("<@&2>", &names), Some("運営".to_owned()));
    assert_eq!(normalize_with("<#3>", &names), Some("#雑談".to_owned()));
}

#[test]
fn unknown_mentions_fall_back() {
    let names = names();
    assert_eq!(normalize_with("<@999>", &names), Some("誰か".to_owned()));
    assert_eq!(normalize_with("<@&999>", &names), Some("ロール".to_owned()));
    assert_eq!(normalize_with("<#999>", &names), Some("#どこか".to_owned()));
}

#[test]
fn code_blocks_are_omitted_including_their_contents() {
    assert_eq!(
        plain("見て\n```rust\nlet x = 1; // https://example.com\n```\nここ"),
        Some("見て、コード省略、ここ".to_owned())
    );
}

#[test]
fn inline_code_keeps_its_content() {
    assert_eq!(
        plain("`cargo test` を実行"),
        Some("cargo test を実行".to_owned())
    );
}

#[test]
fn newlines_become_punctuation_and_collapse() {
    assert_eq!(plain("あ\nい"), Some("あ、い".to_owned()));
    assert_eq!(plain("あ\n\n\n\nい"), Some("あ、い".to_owned()));
    assert_eq!(plain("\nあ\n"), Some("あ".to_owned()));
}

#[test]
fn laughter_is_read_as_word() {
    assert_eq!(plain("それなwwwww"), Some("それなわら".to_owned()));
    assert_eq!(plain("それなｗｗ"), Some("それなわら".to_owned()));
    assert_eq!(plain("w"), Some("w".to_owned()));
}

#[test]
fn repeated_characters_are_compressed() {
    assert_eq!(plain("あーーーーーーー"), Some("あーーー".to_owned()));
    assert_eq!(plain("!!!!!!!!"), Some("!!!".to_owned()));
    assert_eq!(plain("あーー"), Some("あーー".to_owned()));
}

#[test]
fn long_text_is_truncated_with_suffix() {
    let input = "あいうえお".repeat(30);
    let result = plain(&input).expect("読むものがある");
    assert_eq!(result.chars().count(), 100 + "以下略".chars().count());
    assert!(result.ends_with("以下略"));
}

#[test]
fn text_at_the_limit_is_not_truncated() {
    let input = "あいうえお".repeat(20);
    assert_eq!(plain(&input), Some(input));
}

#[test]
fn max_length_is_configurable() {
    let result = normalize(
        "あいうえお",
        &Options {
            max_length: 3,
            ..Options::default()
        },
    );
    assert_eq!(result, Some("あいう以下略".to_owned()));
}

#[test]
fn empty_after_normalization_is_skipped() {
    assert_eq!(plain(""), None);
    assert_eq!(plain("   \n  "), None);
    assert_eq!(plain("https://example.com"), Some("URL省略".to_owned()));
}

#[test]
fn attachment_only_message_is_announced() {
    let result = normalize(
        "",
        &Options {
            attachments: 1,
            ..Options::default()
        },
    );
    assert_eq!(result, Some("ファイル".to_owned()));
}

#[test]
fn attachment_with_text_reads_the_text() {
    let result = normalize(
        "これ",
        &Options {
            attachments: 2,
            ..Options::default()
        },
    );
    assert_eq!(result, Some("これ".to_owned()));
}

#[test]
fn dictionary_replaces_surface_with_reading() {
    let dictionary = [("VOICEVOX".to_owned(), "ボイスボックス".to_owned())];
    let result = normalize(
        "VOICEVOX を使う",
        &Options {
            dictionary: &dictionary,
            ..Options::default()
        },
    );
    assert_eq!(result, Some("ボイスボックス を使う".to_owned()));
}

#[test]
fn longer_dictionary_entries_win() {
    let dictionary = [
        ("東京".to_owned(), "トウキョウ".to_owned()),
        ("東京都".to_owned(), "トウキョウト".to_owned()),
    ];
    let result = normalize(
        "東京都に住む",
        &Options {
            dictionary: &dictionary,
            ..Options::default()
        },
    );
    assert_eq!(result, Some("トウキョウトに住む".to_owned()));
}

#[test]
fn dictionary_applies_after_mentions() {
    let names = Names {
        users: HashMap::from([(1, "いわ".to_owned())]),
        ..Names::default()
    };
    let dictionary = [("いわ".to_owned(), "イワ".to_owned())];
    let result = normalize(
        "<@1> さん",
        &Options {
            names: Some(&names),
            dictionary: &dictionary,
            ..Options::default()
        },
    );
    assert_eq!(result, Some("イワ さん".to_owned()));
}

#[test]
fn truncation_counts_characters_not_bytes() {
    let input = "🎉🎈🎊".repeat(50);
    let result = plain(&input).expect("読むものがある");
    assert!(result.ends_with("以下略"));
    assert_eq!(result.chars().count(), 100 + "以下略".chars().count());
}

#[test]
fn markup_that_is_not_closed_is_read_as_it_is() {
    assert_eq!(plain("```a"), Some("`a".to_owned()));
    assert_eq!(plain("`a"), Some("`a".to_owned()));
    assert_eq!(plain("<:kusa:>"), Some("<:kusa:>".to_owned()));
    assert_eq!(plain("<::12>"), Some("<::12>".to_owned()));
    assert_eq!(plain("<@!>"), Some("<@!>".to_owned()));
    assert_eq!(plain("<@&2"), Some("<@&2".to_owned()));
    assert_eq!(plain("https://"), Some("https://".to_owned()));
}

#[test]
fn code_blocks_end_at_the_nearest_fence() {
    assert_eq!(
        plain("```a``` と ```b```"),
        Some("コード省略 と コード省略".to_owned())
    );
    assert_eq!(plain("``````"), Some("コード省略".to_owned()));
    assert_eq!(plain("```a````b`"), Some("コード省略b".to_owned()));
}

#[test]
fn what_a_code_block_says_does_not_matter() {
    for code in ["", "<@1>", "https://e.com", "wwww\n\n`x` y"] {
        assert_eq!(
            normalize_with(&format!("前 ```{code}``` 後"), &names()),
            Some("前 コード省略 後".to_owned())
        );
    }
}

#[test]
fn addresses_end_at_any_white_space() {
    assert_eq!(
        plain("https://e.com/a　次"),
        Some("URL省略　次".to_owned())
    );
    assert_eq!(plain("xhttp://e.com"), Some("xURL省略".to_owned()));
}

#[test]
fn digits_of_any_script_make_a_mention() {
    let names = names();
    assert_eq!(normalize_with("<@１>", &names), Some("誰か".to_owned()));
    assert_eq!(plain("<:a b:٣>"), Some("a b".to_owned()));
    assert_eq!(
        normalize_with("<@18446744073709551616>", &names),
        Some("誰か".to_owned())
    );
}

#[test]
fn laughter_of_either_width_is_one() {
    assert_eq!(plain("あwｗw い"), Some("あわら い".to_owned()));
    assert_eq!(plain("www www"), Some("わら わら".to_owned()));
}

#[test]
fn readings_keep_within_their_limit() {
    for input in ["あいうえお", "!!!!!!!", "`````````", "a\n\nb\rc", "、、 あ 、"] {
        let options = Options {
            max_length: 2,
            ..Options::default()
        };
        let reading = normalize(input, &options).expect("there is something to read");
        assert!(reading.chars().count() <= 5, "{reading}");
        assert!(!reading.contains(['\n', '\r']), "{reading}");
    }
}

#[test]
fn an_empty_spelling_changes_nothing() {
    let dictionary = [(String::new(), "x".to_owned())];
    assert_eq!(apply_dictionary("あい", &dictionary), "あい");
}

#[test]
fn spellings_of_one_length_keep_their_order() {
    let entry = |surface: &str, reading: &str| (surface.to_owned(), reading.to_owned());
    let dictionary = [entry("b", "c"), entry("a", "b"), entry("aa", "a")];
    assert_eq!(apply_dictionary("aab", &dictionary), "bc");
}
