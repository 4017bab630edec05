use misojisho::conjugations::VerbConjugations;
use misojisho::jp_to_english_dictionary::{JpToEnglishDictionary, JpToEnglishWord, SearchType};
use misojisho::parser::Parser;
use misojisho::part_of_speech::{PartOfSpeech, VerbType};
use misojisho::use_frequency::UseFrequency;

fn word(
    id: &str,
    kanji: Option<Vec<&str>>,
    kana_reading: Vec<&str>,
    use_frequency: Option<Vec<UseFrequency>>,
    english_meaning: Vec<&str>,
) -> JpToEnglishWord {
    JpToEnglishWord {
        id: id.to_string(),
        kanji: kanji.map(|k| k.into_iter().map(String::from).collect()),
        kana_reading: kana_reading.into_iter().map(String::from).collect(),
        use_frequency,
        english_meaning: english_meaning.into_iter().map(String::from).collect(),
        part_of_speech: Vec::new(),
        verb_conjugations: None,
    }
}

fn ids(results: &[&JpToEnglishWord]) -> Vec<String> {
    results.iter().map(|w| w.id.clone()).collect()
}

fn lines_of(text: &str) -> Vec<String> {
    text.lines().map(String::from).collect()
}

#[test]
fn plain_present_is_the_dictionary_form() {
    for (t, form) in [
        (VerbType::Ichidan, "食べる"),
        (VerbType::Godan, "話す"),
        (VerbType::Godan, "待つ"),
        (VerbType::Irregular, "勉強する"),
    ] {
        let c = VerbConjugations::conjugate(t, form).expect("conjugates");
        assert_eq!(c.informal.present, form);
    }
    let kuru = VerbConjugations::conjugate(VerbType::Irregular, "来る").expect("conjugates");
    assert_eq!(kuru.informal.present, "くる");
    let suru = VerbConjugations::conjugate(VerbType::Irregular, "為る").expect("conjugates");
    assert_eq!(suru.informal.present, "する");
    assert_eq!(suru.other.potential, "できる");
}

#[test]
fn every_form_starts_with_the_stem() {
    let c = VerbConjugations::conjugate(VerbType::Godan, "読む").expect("conjugates");
    let forms = [
        &c.formal.present,
        &c.formal.negative,
        &c.formal.past,
        &c.formal.negative_past,
        &c.informal.present,
        &c.informal.negative,
        &c.informal.past,
        &c.informal.negative_past,
        &c.other.te,
        &c.other.imperative,
        &c.other.volitional,
        &c.other.passive,
        &c.other.causative,
        &c.other.hypothetical,
        &c.other.potential,
        &c.other.polite_volitional,
    ];
    for f in forms {
        assert!(f.starts_with("読"), "{f}");
    }
    assert_eq!(c.informal.past, "読んだ");
    assert_eq!(c.other.te, "読んで");
}

#[test]
fn no_conjugation_cases() {
    assert_eq!(VerbConjugations::conjugate(VerbType::Transitive, "読む"), None);
    assert_eq!(VerbConjugations::conjugate(VerbType::Intransitive, "読む"), None);
    assert_eq!(VerbConjugations::conjugate(VerbType::Godan, "行き"), None);
    assert_eq!(VerbConjugations::conjugate(VerbType::Godan, ""), None);
    assert_eq!(VerbConjugations::conjugate(VerbType::Ichidan, ""), None);
    assert_eq!(VerbConjugations::conjugate(VerbType::Irregular, "食べる"), None);
}

#[test]
fn irregular_compound_with_kanji_kuru() {
    let c = VerbConjugations::conjugate_irregular("持って来る").expect("conjugates");
    assert_eq!(c.formal.past, "持ってきました");
    assert_eq!(c.other.imperative, "持ってこい");
}

#[test]
fn priority_ranks_in_documented_order() {
    let order = [
        UseFrequency::Ichi(1),
        UseFrequency::Ichi(2),
        UseFrequency::News(1),
        UseFrequency::News(2),
        UseFrequency::LoanWord(1),
        UseFrequency::LoanWord(2),
        UseFrequency::NewsFrequency(1),
        UseFrequency::NewsFrequency(48),
    ];
    for pair in order.windows(2) {
        assert!(pair[0].priority() < pair[1].priority());
    }
    assert_eq!(UseFrequency::NewsFrequency(48).priority(), 54);
    assert_eq!(UseFrequency::LoanWord(3).priority(), u8::MAX);
}

#[test]
fn priority_code_edge_cases() {
    assert_eq!(
        UseFrequency::from_priority_code("nf+7"),
        Some(UseFrequency::NewsFrequency(7))
    );
    assert_eq!(
        UseFrequency::from_priority_code("nf007"),
        Some(UseFrequency::NewsFrequency(7))
    );
    assert_eq!(
        UseFrequency::from_priority_code("nf255"),
        Some(UseFrequency::NewsFrequency(255))
    );
    assert_eq!(UseFrequency::from_priority_code("nf256"), None);
    assert_eq!(UseFrequency::from_priority_code("nf"), None);
    assert_eq!(UseFrequency::from_priority_code("nf+"), None);
    assert_eq!(UseFrequency::from_priority_code("nf-1"), None);
    assert_eq!(UseFrequency::from_priority_code("spec1"), None);
}

#[test]
fn pos_codes_by_prefix() {
    assert_eq!(
        PartOfSpeech::from_pos_code("&v5k-s;"),
        Some(PartOfSpeech::Verb(VerbType::Godan))
    );
    assert_eq!(PartOfSpeech::from_pos_code("&n-suf;"), Some(PartOfSpeech::Noun));
    assert_eq!(PartOfSpeech::from_pos_code("&adj-na;"), Some(PartOfSpeech::Adjective));
    assert_eq!(PartOfSpeech::from_pos_code("&aux-adj;"), Some(PartOfSpeech::Adjective));
    assert_eq!(PartOfSpeech::from_pos_code("&adv-to;"), Some(PartOfSpeech::Adverbs));
    assert_eq!(PartOfSpeech::from_pos_code("&aux-v;"), None);
    assert_eq!(PartOfSpeech::from_pos_code("&v1"), None);
}

#[test]
fn verb_type_display_names() {
    assert_eq!(VerbType::Ichidan.display_name(), "Ichidan Verb");
    assert_eq!(VerbType::Intransitive.display_name(), "Intransitive Verb");
}

#[test]
fn search_type_by_character_range() {
    assert_eq!(SearchType::from("ア"), SearchType::Japanese);
    assert_eq!(SearchType::from("run 走る"), SearchType::Japanese);
    assert_eq!(SearchType::from("ｱ"), SearchType::English);
    assert_eq!(SearchType::from(""), SearchType::English);
}

#[test]
fn english_search_lowercases_the_query() {
    let dictionary = JpToEnglishDictionary {
        words: vec![word("big", Some(vec!["大きい"]), vec!["おおきい"], None, vec!["big"])],
    };
    let found = dictionary.search("BIG").expect("the lowercased query matches");
    assert_eq!(ids(&found), vec!["big"]);
    // The definition priority compares the query as given.
    assert_eq!(dictionary.words[0].english_definition_priority("BIG"), None);
    assert_eq!(dictionary.words[0].english_definition_priority("bi"), Some(0));
}

#[test]
fn search_orders_by_definition_then_frequency_then_position() {
    let dictionary = JpToEnglishDictionary {
        words: vec![
            word("second_meaning", None, vec!["あ"], Some(vec![UseFrequency::Ichi(1)]), vec!["x", "run"]),
            word("no_tags", None, vec!["い"], None, vec!["run"]),
            word("nf12", None, vec!["う"], Some(vec![UseFrequency::NewsFrequency(12)]), vec!["run"]),
            word("nf3", None, vec!["え"], Some(vec![UseFrequency::NewsFrequency(3)]), vec!["run"]),
            word("ichi1", None, vec!["お"], Some(vec![UseFrequency::Ichi(1)]), vec!["running"]),
            word("unrelated", None, vec!["か"], None, vec!["walk"]),
            word("no_tags_later", None, vec!["き"], None, vec!["run"]),
        ],
    };
    let found = dictionary.search("run").expect("matches");
    assert_eq!(
        ids(&found),
        vec!["ichi1", "nf3", "nf12", "no_tags", "no_tags_later", "second_meaning"]
    );
    // Typed as "Run", the query matches every meaning only once lowercased,
    // so no word has a definition priority and frequency alone decides.
    let found = dictionary.search("Run").expect("matches");
    assert_eq!(
        ids(&found),
        vec!["second_meaning", "ichi1", "nf3", "nf12", "no_tags", "no_tags_later"]
    );
}

#[test]
fn japanese_search_ranks_kana_only_matches_last() {
    // A word found only by its kana reading has no kanji priority, so it
    // comes after every word that has one.
    let dictionary = JpToEnglishDictionary {
        words: vec![
            word("exact", Some(vec!["食べる"]), vec!["たべる"], None, vec!["to eat"]),
            word("partial", Some(vec!["食べ物"]), vec!["たべもの"], None, vec!["food"]),
            word("kana", None, vec!["食べる"], None, vec!["eat (kana)"]),
        ],
    };
    let found = dictionary.search("食べる").expect("matches");
    assert_eq!(ids(&found), vec!["exact", "kana"]);
    let found = dictionary.search("食べ").expect("matches");
    assert_eq!(ids(&found), vec!["exact", "partial", "kana"]);
    assert_eq!(dictionary.words[0].japanese_dictionary_form_priority("食べる"), Some(0));
    assert_eq!(dictionary.words[1].japanese_dictionary_form_priority("食べ"), Some(1));
    assert_eq!(dictionary.words[2].japanese_dictionary_form_priority("食べる"), None);
}

#[test]
fn checked_search_refuses_overflowing_ranks_of_matches() {
    let dictionary = JpToEnglishDictionary {
        words: vec![
            word("odd", None, vec!["あ"], Some(vec![UseFrequency::NewsFrequency(250)]), vec!["odd"]),
            word("even", None, vec!["い"], Some(vec![UseFrequency::Ichi(1)]), vec!["even"]),
            word("oddity", None, vec!["う"], None, vec!["oddity"]),
        ],
    };
    assert!(dictionary.checked_search("odd").is_none());
    let single = dictionary.checked_search("ity").expect("a single answer is not ranked");
    assert_eq!(ids(&single.expect("matches")), vec!["oddity"]);
    let found = dictionary.checked_search("even").expect("ranks fit");
    assert_eq!(ids(&found.expect("matches")), vec!["even"]);
    assert_eq!(dictionary.checked_search("none"), Some(None));
    assert_eq!(dictionary.checked_search(""), Some(None));
}

#[test]
fn single_answer_with_a_high_news_band_is_found() {
    let dictionary = JpToEnglishDictionary {
        words: vec![
            word("odd", None, vec!["あ"], Some(vec![UseFrequency::NewsFrequency(250)]), vec!["odd"]),
            word("even", None, vec!["い"], Some(vec![UseFrequency::Ichi(1)]), vec!["even"]),
        ],
    };
    let found = dictionary.checked_search("odd").expect("a single answer is not ranked");
    assert_eq!(ids(&found.expect("matches")), vec!["odd"]);
    assert_eq!(ids(&dictionary.search("odd").expect("matches")), vec!["odd"]);
}

#[test]
fn default_dictionary_is_empty() {
    let dictionary = JpToEnglishDictionary::default();
    assert!(dictionary.words.is_empty());
    assert_eq!(dictionary.search("run"), None);
}

#[test]
fn tag_contents_stop_at_the_first_close() {
    let found = Parser::extract_all_tags("<a>x</a></a><a>y", "<a>", "</a>");
    assert_eq!(found, Some(vec!["x"]));
    let found = Parser::extract_all_tags("<a><a>x</a>", "<a>", "</a>");
    assert_eq!(found, Some(vec!["<a>x"]));
    assert_eq!(Parser::extract_all_tags("", "<a>", "</a>"), None);
}

#[test]
fn parse_lines_dedups_parts_of_speech_and_conjugates_once() {
    let lines = lines_of(
        "  <entry>\t
<ent_seq>1</ent_seq>
<r_ele><reb>たべる</reb></r_ele>
<sense><pos>&v1;</pos><pos>&vt;</pos><pos>&v1;</pos><gloss>to eat</gloss></sense>
<k_ele><ke_pri>nf05</ke_pri><ke_pri>spec1</ke_pri></k_ele>
 </entry> ",
    );
    let dictionary = Parser::parse_lines(&lines);
    assert_eq!(dictionary.words.len(), 1);
    let w = &dictionary.words[0];
    assert_eq!(w.kanji, None);
    assert_eq!(
        w.part_of_speech,
        vec![
            PartOfSpeech::Verb(VerbType::Ichidan),
            PartOfSpeech::Verb(VerbType::Transitive)
        ]
    );
    assert_eq!(w.use_frequency, Some(vec![UseFrequency::NewsFrequency(5)]));
    let conjugations = w.verb_conjugations.as_ref().expect("one conjugation");
    assert_eq!(conjugations.len(), 1);
    assert_eq!(conjugations[0].formal.present, "たべます");
}

#[test]
fn parse_lines_ignores_text_outside_entries() {
    let lines = lines_of(
        "<JMdict>
<ent_seq>9</ent_seq>
</entry>
<entry>
<ent_seq>2</ent_seq><gloss>a</gloss>
<ke_pri>spec1</ke_pri>
</entry>
<ent_seq>3</ent_seq>",
    );
    let dictionary = Parser::parse_lines(&lines);
    let found: Vec<&str> = dictionary.words.iter().map(|w| w.id.as_str()).collect();
    assert_eq!(found, vec!["2"]);
    assert_eq!(dictionary.words[0].use_frequency, Some(vec![]));
    assert_eq!(dictionary.words[0].verb_conjugations, None);
    assert_eq!(dictionary.words[0].kana_reading, Vec::<String>::new());
}

#[test]
fn search_lowered_takes_the_lowercase_form_as_given() {
    let dictionary = JpToEnglishDictionary {
        words: vec![
            word("a", None, vec!["あ"], None, vec!["to run"]),
            word("b", None, vec!["い"], Some(vec![UseFrequency::News(1)]), vec!["run"]),
        ],
    };
    let found = dictionary.search_lowered("RUN", "run").expect("matches");
    assert_eq!(ids(&found), vec!["b", "a"]);
    assert_eq!(dictionary.search_lowered("RUN", "walk"), None);
    // The same search always gives the same order.
    let again = dictionary.search("run").expect("matches");
    let twice = dictionary.search("run").expect("matches");
    assert_eq!(ids(&again), ids(&twice));
}

#[test]
fn kanji_match_before_kana_only_match() {
    let dictionary = JpToEnglishDictionary {
        words: vec![
            word("b", Some(vec!["喋る"]), vec!["しゃべる"], None, vec!["to chatter"]),
            word("a", Some(vec!["食べる"]), vec!["たべる"], None, vec!["to eat"]),
        ],
    };
    let found = dictionary.search("べる").expect("matches");
    assert_eq!(ids(&found), vec!["a", "b"]);
}

#[test]
fn news_band_codes_read_back() {
    for n in 0..=u8::MAX {
        assert_eq!(
            UseFrequency::from_priority_code(&format!("nf{n}")),
            Some(UseFrequency::NewsFrequency(n))
        );
    }
    assert_eq!(
        UseFrequency::from_priority_code("nf01"),
        Some(UseFrequency::NewsFrequency(1))
    );
}

#[test]
fn wrapped_values_read_back() {
    let values = ["to eat", "", "食べる", "a<b"];
    let text: String = values.iter().map(|v| format!("<gloss>{v}</gloss>")).collect();
    assert_eq!(
        Parser::extract_all_tags(&text, Parser::GLOSS_START, Parser::GLOSS_END),
        Some(values.to_vec())
    );
}
