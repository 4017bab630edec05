use misojisho::jp_to_english_dictionary::{JpToEnglishDictionary, JpToEnglishWord, SearchType};
use misojisho::use_frequency::UseFrequency;
/// `part_of_speech` and `verb_conjugations` don't affect `search()`'s
/// filtering or sorting at all, so they're defaulted to empty/`None`
/// here rather than exposed as parameters.
fn make_word(
    id: &str,
    kanji: Option<Vec<&str>>,
    kana_reading: Vec<&str>,
    use_frequency: Option<Vec<UseFrequency>>,
    english_meaning: Vec<&str>,
) -> JpToEnglishWord {
    JpToEnglishWord {
        id: id.to_string(),
        kanji: kanji.map(|k| k.into_iter().map(String::from).collect()),
        kana_reading: kana_reading.into_iter().map(String::from).collect(),
        use_frequency,
        english_meaning: english_meaning.into_iter().map(String::from).collect(),
        part_of_speech: Vec::new(),
        verb_conjugations: None,
    }
}

fn make_dictionary(words: Vec<JpToEnglishWord>) -> JpToEnglishDictionary {
    JpToEnglishDictionary { words }
}

#[test]
fn should_map_to_english_search_type() {
    let actual = SearchType::from("Alexis Sanchez");

    assert_eq!(actual, SearchType::English)
}

#[test]
fn should_map_to_japanese_search_type() {
    let actual = SearchType::from("海賊王になる男だ");

    assert_eq!(actual, SearchType::Japanese)
}

#[test]
fn should_return_top_result_when_kanji_exactly_matches_query() {
    let dictionary = make_dictionary(vec![
        make_word(
            "1358280",
            Some(vec!["食べる"]),
            vec!["たべる"],
            Some(vec![UseFrequency::Ichi(1), UseFrequency::News(1)]),
            vec!["to eat"],
        ),
        make_word(
            "1591050",
            Some(vec!["話す"]),
            vec!["はなす"],
            Some(vec![UseFrequency::Ichi(1)]),
            vec!["to speak", "to talk"],
        ),
        make_word(
            "1157170",
            None,
            vec!["する"],
            Some(vec![UseFrequency::Ichi(1)]),
            vec!["to do"],
        ),
        make_word(
            "1587040",
            Some(vec!["今日"]),
            vec!["きょう", "こんにち"],
            Some(vec![UseFrequency::Ichi(1), UseFrequency::News(1)]),
            vec!["today", "this day"],
        ),
        make_word(
            "1591090",
            Some(vec!["大きい"]),
            vec!["おおきい"],
            Some(vec![
                UseFrequency::Ichi(1),
                UseFrequency::News(1),
                UseFrequency::LoanWord(1),
            ]),
            vec!["big", "large"],
        ),
    ]);

    let actual = dictionary
        .search("食べる")
        .and_then(|v| v.into_iter().next())
        .expect("expected a search result for 食べる");

    assert_eq!(actual.id, "1358280");
}

#[test]
fn should_return_none_when_query_is_empty() {
    let dictionary = make_dictionary(vec![make_word(
        "1358280",
        Some(vec!["食べる"]),
        vec!["たべる"],
        None,
        vec!["to eat"],
    )]);

    let actual = dictionary.search("");

    assert_eq!(actual, None);
}

#[test]
fn should_return_none_when_no_words_match_query() {
    let dictionary = make_dictionary(vec![make_word(
        "1358280",
        Some(vec!["食べる"]),
        vec!["たべる"],
        None,
        vec!["to eat"],
    )]);

    let actual = dictionary.search("寝る");

    assert_eq!(actual, None);
}

#[test]
fn should_return_result_when_english_meaning_matches_query() {
    let dictionary = make_dictionary(vec![
        make_word(
            "1358280",
            Some(vec!["食べる"]),
            vec!["たべる"],
            None,
            vec!["to eat"],
        ),
        make_word(
            "1591090",
            Some(vec!["大きい"]),
            vec!["おおきい"],
            None,
            vec!["big", "large"],
        ),
    ]);

    let actual = dictionary
        .search("big")
        .and_then(|v| v.into_iter().next())
        .expect("expected a search result for 'big'");

    assert_eq!(actual.id, "1591090");
}

#[test]
fn should_match_partial_kanji_query() {
    let dictionary = make_dictionary(vec![make_word(
        "1358280",
        Some(vec!["食べる"]),
        vec!["たべる"],
        None,
        vec!["to eat"],
    )]);

    // "食べ" is a prefix of "食べる", not an exact match.
    let actual = dictionary
        .search("食べ")
        .and_then(|v| v.into_iter().next())
        .expect("expected a partial kanji match for 食べ");

    assert_eq!(actual.id, "1358280");
}

#[test]
fn should_prioritize_higher_frequency_word_when_definition_priority_ties() {
    // Neither word's first english meaning contains "run", so both tie
    // at definition priority Some(1) via their second meaning. The
    // frequency-based sort (which runs before the definition-priority
    // sort, and is stable) should still put the higher-frequency word first.
    let dictionary = make_dictionary(vec![
        make_word(
            "slow_freq",
            None,
            vec!["あるく"],
            Some(vec![UseFrequency::News(2)]),
            vec!["to walk", "to run"],
        ),
        make_word(
            "fast_freq",
            None,
            vec!["じょぐ"],
            Some(vec![UseFrequency::Ichi(1)]),
            vec!["to jog", "to run"],
        ),
    ]);

    let actual = dictionary
        .search("run")
        .and_then(|v| v.into_iter().next())
        .expect("expected a search result for 'run'");

    assert_eq!(actual.id, "fast_freq");
}

#[test]
fn should_sort_word_with_no_frequency_last_when_definition_priority_ties() {
    // Both words have the same kanji, so both tie at japanese_dictionary_form_priority
    // Some(0) (exact match). With that tie, the frequency-based sort (which runs
    // first and is stable) should decide the order: the word with a real frequency
    // should come before the word with no frequency data (NO_PRIORITY fallback).
    let dictionary = make_dictionary(vec![
        make_word(
            "no_freq",
            Some(vec!["飲む"]),
            vec!["のむ"],
            None,
            vec!["to drink"],
        ),
        make_word(
            "has_freq",
            Some(vec!["飲む"]),
            vec!["のむ"],
            Some(vec![UseFrequency::Ichi(1)]),
            vec!["to drink"],
        ),
    ]);

    let actual = dictionary
        .search("飲む")
        .expect("expected search results for 飲む");

    let ids: Vec<&str> = actual.iter().map(|w| w.id.as_str()).collect();

    assert_eq!(ids, vec!["has_freq", "no_freq"]);
}
