use misojisho::parser::Parser;
use misojisho::part_of_speech::{PartOfSpeech, VerbType};
use misojisho::use_frequency::UseFrequency;

/// The lines that reading a file holding `contents` and a final newline gives.
fn jmdict_lines(contents: &str) -> Vec<String> {
    format!("{contents}\n").lines().map(String::from).collect()
}

#[test]
fn should_extract_all_keb() {
    let entry_with_multiple_keb: &str = "\
    <ent_seq>1610400</ent_seq>\
    <k_ele><keb>分かる</keb><ke_pri>ichi1</ke_pri><ke_pri>news1</ke_pri></k_ele>\
    <k_ele><keb>判る</keb></k_ele>\
    <k_ele><keb>解る</keb></k_ele>\
    <r_ele><reb>わかる</reb></r_ele>\
    <sense><pos>&v5r;</pos><pos>&vi;</pos><gloss>to understand</gloss><gloss>to comprehend</gloss></sense>\
    ";
    let actual =
        Parser::extract_all_tags(entry_with_multiple_keb, Parser::KEB_START, Parser::KEB_END);
    assert_eq!(actual, Some(vec!["分かる", "判る", "解る"]))
}

#[test]
fn should_extract_all_reb() {
    let entry_with_multiple_reb: &str = "\
    <ent_seq>1587040</ent_seq>\
    <k_ele><keb>今日</keb><ke_pri>ichi1</ke_pri><ke_pri>news1</ke_pri></k_ele>\
    <r_ele><reb>きょう</reb></r_ele>\
    <r_ele><reb>こんにち</reb></r_ele>\
    <sense><pos>&n-adv;</pos><pos>&n-t;</pos><gloss>today</gloss><gloss>this day</gloss></sense>\
    ";
    let actual =
        Parser::extract_all_tags(entry_with_multiple_reb, Parser::REB_START, Parser::REB_END);
    assert_eq!(actual, Some(vec!["きょう", "こんにち"]));
}

#[test]
fn should_extract_all_ke_pri() {
    let entry_with_multiple_ke_pri: &str = "\
    <ent_seq>1591050</ent_seq>\
    <k_ele><keb>大きい</keb><ke_pri>ichi1</ke_pri><ke_pri>news1</ke_pri><ke_pri>gai1</ke_pri></k_ele>\
    <r_ele><reb>おおきい</reb></r_ele>\
    <sense><pos>&adj-i;</pos><gloss>big</gloss><gloss>large</gloss></sense>\
    ";
    let actual = Parser::extract_all_tags(
        entry_with_multiple_ke_pri,
        Parser::KE_PRI_START,
        Parser::KE_PRI_END,
    );
    assert_eq!(actual, Some(vec!["ichi1", "news1", "gai1"]));
}

#[test]
fn should_extract_all_gloss() {
    let entry_with_multiple_gloss: &str = "\
    <ent_seq>1591090</ent_seq>\
    <k_ele><keb>引く</keb><ke_pri>ichi1</ke_pri><ke_pri>news1</ke_pri></k_ele>\
    <r_ele><reb>ひく</reb></r_ele>\
    <sense><pos>&v5k;</pos><pos>&vt;</pos><gloss>to pull</gloss><gloss>to draw</gloss><gloss>to catch (a cold)</gloss><gloss>to subtract</gloss></sense>\
    ";
    let actual = Parser::extract_all_tags(
        entry_with_multiple_gloss,
        Parser::GLOSS_START,
        Parser::GLOSS_END,
    );

    assert_eq!(
        actual,
        Some(vec![
            "to pull",
            "to draw",
            "to catch (a cold)",
            "to subtract"
        ])
    )
}

#[test]
fn should_extract_all_pos() {
    let entry_with_multiple_pos: &str = "\
    <ent_seq>1587500</ent_seq>\
    <k_ele><keb>出来る</keb><ke_pri>ichi1</ke_pri><ke_pri>news1</ke_pri></k_ele>\
    <r_ele><reb>できる</reb></r_ele>\
    <sense><pos>&v1;</pos><pos>&vi;</pos><pos>&aux-v;</pos><gloss>to be able to (do)</gloss><gloss>to be ready</gloss></sense>\
    ";

    let actual =
        Parser::extract_all_tags(entry_with_multiple_pos, Parser::POS_START, Parser::POS_END);
    assert_eq!(actual, Some(vec!["&v1;", "&vi;", "&aux-v;"]));
}

#[test]
fn should_extract_none_when_no_matching_tags() {
    let malformed_string: &str = "\
    <ent_ee>1587500</ent_ee>\
    <k_el1><keb>出来る</keb><ke_pro>ichi1</ke_proo><ke_prpp>news1</ke_prooo></k_el1>\
    <r_ele1><reb>できる</reb2></r_ele>\
    <sense1231><pos123>&v1;</pos12><pos312>&vi;</pos><pos>&aux-v;</pos123><gloss123>to be able to (do)</gloss><gloss>to be ready</gloss></sense>\
    ";

    let actual = Parser::extract_all_tags(malformed_string, Parser::POS_START, Parser::POS_END);

    assert_eq!(actual, None)
}

#[test]
fn should_parse_single_entry_from_file() {
    let lines = jmdict_lines(
        "<entry>
<ent_seq>1358280</ent_seq>
<k_ele><keb>食べる</keb><ke_pri>ichi1</ke_pri></k_ele>
<r_ele><reb>たべる</reb></r_ele>
<sense><pos>&v1;</pos><gloss>to eat</gloss></sense>
</entry>",
    );

    let actual = Parser::parse_lines(&lines);

    assert_eq!(actual.words.len(), 1);

    let word = &actual.words[0];
    assert_eq!(word.id, "1358280");
    assert_eq!(word.kanji, Some(vec!["食べる".to_string()]));
    assert_eq!(word.kana_reading, vec!["たべる".to_string()]);
    assert_eq!(word.use_frequency, Some(vec![UseFrequency::Ichi(1)]));
    assert_eq!(word.english_meaning, vec!["to eat".to_string()]);
    assert_eq!(
        word.part_of_speech,
        vec![PartOfSpeech::Verb(VerbType::Ichidan)]
    );
}

#[test]
fn should_parse_multiple_entries_from_file() {
    let lines = jmdict_lines(
        "<entry>
<ent_seq>1358280</ent_seq>
<k_ele><keb>食べる</keb></k_ele>
<r_ele><reb>たべる</reb></r_ele>
<sense><pos>&v1;</pos><gloss>to eat</gloss></sense>
</entry>
<entry>
<ent_seq>1587040</ent_seq>
<k_ele><keb>今日</keb></k_ele>
<r_ele><reb>きょう</reb></r_ele>
<sense><pos>&n;</pos><gloss>today</gloss></sense>
</entry>",
    );

    let actual = Parser::parse_lines(&lines);

    let ids: Vec<&str> = actual.words.iter().map(|w| w.id.as_str()).collect();
    assert_eq!(ids, vec!["1358280", "1587040"]);
}

#[test]
fn should_skip_entry_missing_ent_seq() {
    let lines = jmdict_lines(
        "<entry>
<k_ele><keb>食べる</keb></k_ele>
<r_ele><reb>たべる</reb></r_ele>
<sense><pos>&v1;</pos><gloss>to eat</gloss></sense>
</entry>",
    );

    let actual = Parser::parse_lines(&lines);

    assert!(actual.words.is_empty());
}
