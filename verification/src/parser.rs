//! Reading dictionary entries out of the lines of a JMdict XML file.
use vstd::prelude::*;
use vstd::string::StrSliceExecFns;
use vstd::string::StringExecFns;
use crate::conjugations::{conjugations_view, verb_conjugation, ConjugatedForms, VerbConjugations};
use crate::jp_to_english_dictionary::{conjugations_seq_view, words_view, JpToEnglishDictionary, JpToEnglishWord, WordView};
use crate::part_of_speech::{pos_code_meaning, PartOfSpeech};
use crate::text::{chars_of, contains, find, find_from, occurs_at, find_from_index, lemma_find_from, lemma_find_in_suffix, split_once, str_eq, strings_view, trim, trim_str};
use crate::use_frequency::{priority_code_meaning, UseFrequency};

verus! {

#[verifier::external_type_specification]
#[verifier::external_body]
pub struct ExIoError(std::io::Error);

/// Why a dictionary file could not be read.
#[derive(Debug)]
pub enum ParserError {
    Io(std::io::Error),
}

/// Reads JMdict entries.
pub struct Parser {}

/// The characters of each string slice.
pub open spec fn strs_view(v: Seq<&str>) -> Seq<Seq<char>> {
    v.map_values(|t: &str| t@)
}

/// The contents of every `open ... close` pair in `s`, in order: each pair
/// is the first `open` in what is left, then the first `close` after it; the
/// search stops at the first `open` without a `close` after it. (Meant for
/// delimiters that are not both empty.)
pub open spec fn tag_contents(s: Seq<char>, open: Seq<char>, close: Seq<char>) -> Seq<Seq<char>>
    decreases s.len(),
{
    if open.len() + close.len() == 0 {
        Seq::<Seq<char>>::empty()
    } else {
        match split_once(s, open) {
            None => Seq::<Seq<char>>::empty(),
            Some((_, outer)) => match split_once(outer, close) {
                None => Seq::<Seq<char>>::empty(),
                Some((inner, rest)) => {
                    proof {
                        lemma_find_from(s, open, 0);
                        lemma_find_from(outer, close, 0);
                    }
                    seq![inner] + tag_contents(rest, open, close)
                },
            },
        }
    }
}

/// The tag contents, or none at all when there are none.
pub open spec fn tag_contents_opt(s: Seq<char>, open: Seq<char>, close: Seq<char>) -> Option<
    Seq<Seq<char>>,
> {
    let t = tag_contents(s, open, close);
    if t.len() == 0 {
        None
    } else {
        Some(t)
    }
}

impl Parser {
    pub const ENTRY_START: &'static str = "<entry>";

    pub const ENTRY_END: &'static str = "</entry>";

    pub const ENTRY_SEQ_START: &'static str = "<ent_seq>";

    pub const ENTRY_SEQ_END: &'static str = "</ent_seq>";

    pub const KEB_START: &'static str = "<keb>";

    pub const KEB_END: &'static str = "</keb>";

    pub const REB_START: &'static str = "<reb>";

    pub const REB_END: &'static str = "</reb>";

    pub const KE_PRI_START: &'static str = "<ke_pri>";

    pub const KE_PRI_END: &'static str = "</ke_pri>";

    pub const GLOSS_START: &'static str = "<gloss>";

    pub const GLOSS_END: &'static str = "</gloss>";

    pub const POS_START: &'static str = "<pos>";

    pub const POS_END: &'static str = "</pos>";

    /// The contents of every `open ... close` pair in `s` (see
    /// `tag_contents`), or `None` when there is none.
    pub fn extract_all_tags<'a>(s: &'a str, open: &str, close: &str) -> (r: Option<Vec<&'a str>>)
        requires
            open@.len() + close@.len() > 0,
        ensures
            r == None::<Vec<&'a str>> <==> tag_contents(s@, open@, close@).len() == 0,
            r matches Some(v) ==> strs_view(v@) == tag_contents(s@, open@, close@),
    {
        let x = chars_of(s);
        let o = chars_of(open);
        let c = chars_of(close);
        let n = x.len();
        let mut results: Vec<&'a str> = Vec::new();
        let mut pos: usize = 0;
        assert(s@.skip(0) =~= s@);
        assert(strs_view(results@) =~= Seq::<Seq<char>>::empty());
        loop
            invariant
                x@ == s@,
                n == s@.len(),
                o@ == open@,
                c@ == close@,
                pos <= s@.len(),
                open@.len() + close@.len() > 0,
                tag_contents(s@, open@, close@) == strs_view(results@) + tag_contents(
                    s@.skip(pos as int),
                    open@,
                    close@,
                ),
            ensures
                tag_contents(s@, open@, close@) == strs_view(results@),
            decreases s@.len() - pos,
        {
            let ghost t = s@.skip(pos as int);
            proof {
                lemma_find_in_suffix(s@, open@, pos as int);
                lemma_find_from(s@, open@, pos as int);
            }
            match find_from_index(&x, &o, pos) {
                None => {
                    assert(tag_contents(t, open@, close@) =~= Seq::<Seq<char>>::empty());
                    assert(strs_view(results@) + Seq::<Seq<char>>::empty() =~= strs_view(
                        results@,
                    ));
                    break ;
                },
                Some(i) => {
                    assert(i + open@.len() <= n);
                    let after = i + o.len();
                    let ghost outer = t.skip(i - pos + open@.len());
                    assert(outer =~= s@.skip(after as int));
                    proof {
                        lemma_find_in_suffix(s@, close@, after as int);
                        lemma_find_from(s@, close@, after as int);
                    }
                    match find_from_index(&x, &c, after) {
                        None => {
                            assert(tag_contents(t, open@, close@) =~= Seq::<Seq<char>>::empty());
                            assert(strs_view(results@) + Seq::<Seq<char>>::empty()
                                =~= strs_view(results@));
                            break ;
                        },
                        Some(j) => {
                            let inner = s.substring_char(after, j);
                            let ghost rest = outer.skip(j - after + close@.len());
                            assert(inner@ =~= outer.take(j - after));
                            assert(rest =~= s@.skip(j + close@.len()));
                            assert(tag_contents(t, open@, close@) == seq![inner@] + tag_contents(
                                rest,
                                open@,
                                close@,
                            ));
                            let ghost before = results@;
                            results.push(inner);
                            assert(strs_view(results@) =~= strs_view(before) + seq![inner@]);
                            assert(j + close@.len() <= n);
                            pos = j + c.len();
                            assert(strs_view(before) + (seq![inner@] + tag_contents(
                                rest,
                                open@,
                                close@,
                            )) =~= strs_view(results@) + tag_contents(rest, open@, close@));
                        },
                    }
                },
            }
        }
        if results.len() == 0 {
            None
        } else {
            Some(results)
        }
    }
}


/// Where the scan of a file's lines stands: inside an entry or not, the text
/// of the entry being read, and the entries read so far.
pub struct EntryScan {
    pub in_entry: bool,
    pub current: Seq<char>,
    pub entries: Seq<Seq<char>>,
}

/// One line of the scan: a line that trims to `<entry>` starts an entry, one
/// that trims to `</entry>` ends it (keeping its text), and any other line
/// inside an entry is added to its text as it stands.
pub open spec fn scan_line(st: EntryScan, line: Seq<char>) -> EntryScan {
    let t = trim(line);
    if t == Parser::ENTRY_START@ {
        EntryScan { in_entry: true, current: Seq::<char>::empty(), entries: st.entries }
    } else if t == Parser::ENTRY_END@ {
        EntryScan {
            in_entry: false,
            current: Seq::<char>::empty(),
            entries: st.entries.push(st.current),
        }
    } else if st.in_entry {
        EntryScan { in_entry: true, current: st.current + line, entries: st.entries }
    } else {
        st
    }
}

/// The scan after all of `lines`.
pub open spec fn scan_lines(lines: Seq<Seq<char>>) -> EntryScan
    decreases lines.len(),
{
    if lines.len() == 0 {
        EntryScan {
            in_entry: false,
            current: Seq::<char>::empty(),
            entries: Seq::<Seq<char>>::empty(),
        }
    } else {
        scan_line(scan_lines(lines.drop_last()), lines.last())
    }
}

/// The text between the first `<ent_seq>` and the first `</ent_seq>` after it.
pub open spec fn entry_sequence(e: Seq<char>) -> Option<Seq<char>> {
    match split_once(e, Parser::ENTRY_SEQ_START@) {
        Some((_, after)) => match split_once(after, Parser::ENTRY_SEQ_END@) {
            Some((inner, _)) => Some(inner),
            None => None,
        },
        None => None,
    }
}

/// The tags of the priority codes that stand for one, in order.
pub open spec fn frequency_tags(codes: Seq<Seq<char>>) -> Seq<UseFrequency>
    decreases codes.len(),
{
    if codes.len() == 0 {
        Seq::<UseFrequency>::empty()
    } else {
        let rest = frequency_tags(codes.drop_last());
        match priority_code_meaning(codes.last()) {
            Some(f) => rest.push(f),
            None => rest,
        }
    }
}

/// The parts of speech of the codes that stand for one, in order, each kept
/// only where it first appears.
pub open spec fn parts_of_speech(codes: Seq<Seq<char>>) -> Seq<PartOfSpeech>
    decreases codes.len(),
{
    if codes.len() == 0 {
        Seq::<PartOfSpeech>::empty()
    } else {
        let rest = parts_of_speech(codes.drop_last());
        match pos_code_meaning(codes.last()) {
            Some(p) => if rest.contains(p) {
                rest
            } else {
                rest.push(p)
            },
            None => rest,
        }
    }
}

/// The form that verbs are conjugated from: the first kanji spelling, or
/// else the first kana reading.
pub open spec fn dictionary_form(kanji: Option<Seq<Seq<char>>>, kana: Seq<Seq<char>>) -> Option<
    Seq<char>,
> {
    if kanji is Some && kanji->0.len() > 0 {
        Some(kanji->0[0])
    } else if kana.len() > 0 {
        Some(kana[0])
    } else {
        None
    }
}

/// The conjugations of `form` for each verb type among the parts of speech
/// that has one, in order.
pub open spec fn verb_forms(pos: Seq<PartOfSpeech>, form: Seq<char>) -> Seq<ConjugatedForms>
    decreases pos.len(),
{
    if pos.len() == 0 {
        Seq::<ConjugatedForms>::empty()
    } else {
        let rest = verb_forms(pos.drop_last(), form);
        match pos.last() {
            PartOfSpeech::Verb(t) => match verb_conjugation(t, form) {
                Some(c) => rest.push(c),
                None => rest,
            },
            _ => rest,
        }
    }
}

/// The conjugations of an entry: none without a dictionary form, and none
/// rather than an empty list.
pub open spec fn entry_conjugations(pos: Seq<PartOfSpeech>, form: Option<Seq<char>>) -> Option<
    Seq<ConjugatedForms>,
> {
    match form {
        Some(f) => {
            let v = verb_forms(pos, f);
            if v.len() > 0 {
                Some(v)
            } else {
                None
            }
        },
        None => None,
    }
}

/// The word that an entry's text describes; none without an `<ent_seq>`.
pub open spec fn entry_word(e: Seq<char>) -> Option<WordView> {
    match entry_sequence(e) {
        None => None,
        Some(id) => {
            let kanji = tag_contents_opt(e, Parser::KEB_START@, Parser::KEB_END@);
            let kana = tag_contents(e, Parser::REB_START@, Parser::REB_END@);
            let use_frequency = match tag_contents_opt(
                e,
                Parser::KE_PRI_START@,
                Parser::KE_PRI_END@,
            ) {
                Some(c) => Some(frequency_tags(c)),
                None => None,
            };
            let english = tag_contents(e, Parser::GLOSS_START@, Parser::GLOSS_END@);
            let pos = parts_of_speech(tag_contents(e, Parser::POS_START@, Parser::POS_END@));
            Some(
                WordView {
                    id: id,
                    kanji: kanji,
                    kana_reading: kana,
                    use_frequency: use_frequency,
                    english_meaning: english,
                    part_of_speech: pos,
                    verb_conjugations: entry_conjugations(pos, dictionary_form(kanji, kana)),
                },
            )
        },
    }
}

/// The words of the entries that describe one, in order.
pub open spec fn entries_words(entries: Seq<Seq<char>>) -> Seq<WordView>
    decreases entries.len(),
{
    if entries.len() == 0 {
        Seq::<WordView>::empty()
    } else {
        let rest = entries_words(entries.drop_last());
        match entry_word(entries.last()) {
            Some(w) => rest.push(w),
            None => rest,
        }
    }
}

/// The words that the lines of a file describe.
pub open spec fn parsed_words(lines: Seq<Seq<char>>) -> Seq<WordView> {
    entries_words(scan_lines(lines).entries)
}

/// Owned copies of string slices.
fn to_strings(v: &Vec<&str>) -> (r: Vec<String>)
    ensures
        strings_view(r@) == strs_view(v@),
{
    let mut out: Vec<String> = Vec::new();
    let mut i: usize = 0;
    while i < v.len()
        invariant
            i <= v@.len(),
            strings_view(out@) == strs_view(v@).take(i as int),
        decreases v@.len() - i,
    {
        let ghost before = out@;
        out.push(String::from_str(v[i]));
        assert(strings_view(out@) =~= strings_view(before).push(v@[i as int]@));
        assert(strs_view(v@).take(i + 1) =~= strs_view(v@).take(i as int).push(v@[i as int]@));
        i = i + 1;
    }
    assert(strs_view(v@).take(v@.len() as int) =~= strs_view(v@));
    out
}

/// Whether `p` is among `v`.
fn contains_part(v: &Vec<PartOfSpeech>, p: PartOfSpeech) -> (r: bool)
    ensures
        r == v@.contains(p),
{
    let mut i: usize = 0;
    while i < v.len()
        invariant
            i <= v@.len(),
            forall|k: int| 0 <= k < i ==> v@[k] != p,
        decreases v@.len() - i,
    {
        if v[i] == p {
            assert(v@[i as int] == p);
            return true;
        }
        i = i + 1;
    }
    false
}

impl Parser {
    /// Groups the lines of a file into the texts of its entries (see
    /// `scan_line`).
    fn scan_entries(lines: &Vec<String>) -> (r: Vec<String>)
        ensures
            strings_view(r@) == scan_lines(strings_view(lines@)).entries,
    {
        let mut in_entry = false;
        let mut current = String::new();
        let mut entries: Vec<String> = Vec::new();
        let mut i: usize = 0;
        let ghost all = strings_view(lines@);
        assert(all.take(0) =~= Seq::<Seq<char>>::empty());
        assert(strings_view(entries@) =~= Seq::<Seq<char>>::empty());
        while i < lines.len()
            invariant
                all == strings_view(lines@),
                i <= lines@.len(),
                scan_lines(all.take(i as int)).in_entry == in_entry,
                scan_lines(all.take(i as int)).current == current@,
                scan_lines(all.take(i as int)).entries == strings_view(entries@),
            decreases lines@.len() - i,
        {
            let line = lines[i].as_str();
            assert(all.take(i + 1).drop_last() =~= all.take(i as int));
            assert(all.take(i + 1).last() == line@);
            let t = trim_str(line);
            if str_eq(t, Self::ENTRY_START) {
                in_entry = true;
                current = String::new();
            } else if str_eq(t, Self::ENTRY_END) {
                in_entry = false;
                let done = current;
                current = String::new();
                let ghost before = entries@;
                entries.push(done);
                assert(strings_view(entries@) =~= strings_view(before).push(done@));
            } else if in_entry {
                current.append(line);
            }
            i = i + 1;
        }
        assert(all.take(lines@.len() as int) =~= all);
        entries
    }

    /// The text between the first `<ent_seq>` and the first `</ent_seq>`
    /// after it.
    fn entry_sequence_of(entry: &str) -> (r: Option<&str>)
        ensures
            match r {
                Some(t) => entry_sequence(entry@) == Some(t@),
                None => entry_sequence(entry@) is None,
            },
    {
        proof {
            reveal_strlit("<ent_seq>");
            reveal_strlit("</ent_seq>");
        }
        let x = chars_of(entry);
        let o = chars_of(Self::ENTRY_SEQ_START);
        let c = chars_of(Self::ENTRY_SEQ_END);
        proof {
            lemma_find_from(entry@, o@, 0);
        }
        match find_from_index(&x, &o, 0) {
            None => None,
            Some(i) => {
                let n = x.len();
                assert(i + o@.len() <= n);
                let after = i + o.len();
                let ghost outer = entry@.skip(after as int);
                proof {
                    lemma_find_in_suffix(entry@, c@, after as int);
                    lemma_find_from(entry@, c@, after as int);
                }
                match find_from_index(&x, &c, after) {
                    None => None,
                    Some(j) => {
                        let inner = entry.substring_char(after, j);
                        assert(inner@ =~= outer.take(j - after));
                        Some(inner)
                    },
                }
            },
        }
    }

    /// The tags of the priority codes that stand for one.
    fn frequency_tags_of(codes: &Vec<&str>) -> (r: Vec<UseFrequency>)
        ensures
            r@ == frequency_tags(strs_view(codes@)),
    {
        let ghost all = strs_view(codes@);
        let mut out: Vec<UseFrequency> = Vec::new();
        let mut i: usize = 0;
        assert(all.take(0) =~= Seq::<Seq<char>>::empty());
        while i < codes.len()
            invariant
                all == strs_view(codes@),
                i <= codes@.len(),
                out@ == frequency_tags(all.take(i as int)),
            decreases codes@.len() - i,
        {
            assert(all.take(i + 1).drop_last() =~= all.take(i as int));
            assert(all.take(i + 1).last() == codes@[i as int]@);
            if let Some(f) = UseFrequency::from_priority_code(codes[i]) {
                out.push(f);
            }
            i = i + 1;
        }
        assert(all.take(codes@.len() as int) =~= all);
        out
    }

    /// The parts of speech of the codes that stand for one, without repeats.
    fn parts_of_speech_of(codes: &Vec<&str>) -> (r: Vec<PartOfSpeech>)
        ensures
            r@ == parts_of_speech(strs_view(codes@)),
    {
        let ghost all = strs_view(codes@);
        let mut out: Vec<PartOfSpeech> = Vec::new();
        let mut i: usize = 0;
        assert(all.take(0) =~= Seq::<Seq<char>>::empty());
        while i < codes.len()
            invariant
                all == strs_view(codes@),
                i <= codes@.len(),
                out@ == parts_of_speech(all.take(i as int)),
            decreases codes@.len() - i,
        {
            assert(all.take(i + 1).drop_last() =~= all.take(i as int));
            assert(all.take(i + 1).last() == codes@[i as int]@);
            if let Some(p) = PartOfSpeech::from_pos_code(codes[i]) {
                if !contains_part(&out, p) {
                    out.push(p);
                }
            }
            i = i + 1;
        }
        assert(all.take(codes@.len() as int) =~= all);
        out
    }

    /// The conjugations of `form` for each verb type among `pos`.
    fn conjugations_of(pos: &Vec<PartOfSpeech>, form: &str) -> (r: Vec<VerbConjugations>)
        ensures
            conjugations_seq_view(r@) == verb_forms(pos@, form@),
    {
        let mut out: Vec<VerbConjugations> = Vec::new();
        let mut i: usize = 0;
        assert(pos@.take(0) =~= Seq::<PartOfSpeech>::empty());
        assert(conjugations_seq_view(out@) =~= Seq::<ConjugatedForms>::empty());
        while i < pos.len()
            invariant
                i <= pos@.len(),
                conjugations_seq_view(out@) == verb_forms(pos@.take(i as int), form@),
            decreases pos@.len() - i,
        {
            assert(pos@.take(i + 1).drop_last() =~= pos@.take(i as int));
            assert(pos@.take(i + 1).last() == pos@[i as int]);
            if let PartOfSpeech::Verb(t) = pos[i] {
                let c = VerbConjugations::conjugate(t, form);
                if let Some(v) = c {
                    let ghost before = out@;
                    let ghost forms = v@;
                    out.push(v);
                    assert(conjugations_seq_view(out@) =~= conjugations_seq_view(before).push(
                        forms,
                    ));
                }
            }
            i = i + 1;
        }
        assert(pos@.take(pos@.len() as int) =~= pos@);
        out
    }

    /// The word that an entry's text describes, if it has an `<ent_seq>`.
    fn word_of_entry(entry: &str) -> (r: Option<JpToEnglishWord>)
        ensures
            match r {
                Some(w) => entry_word(entry@) == Some(w@),
                None => entry_word(entry@) is None,
            },
    {
        proof {
            reveal_strlit("<keb>");
            reveal_strlit("<reb>");
            reveal_strlit("<ke_pri>");
            reveal_strlit("<gloss>");
            reveal_strlit("<pos>");
        }
        let id = match Self::entry_sequence_of(entry) {
            None => {
                return None;
            },
            Some(id) => id,
        };
        let keb = Self::extract_all_tags(entry, Self::KEB_START, Self::KEB_END);
        let reb = Self::extract_all_tags(entry, Self::REB_START, Self::REB_END);
        let ke_pri = Self::extract_all_tags(entry, Self::KE_PRI_START, Self::KE_PRI_END);
        let gloss = Self::extract_all_tags(entry, Self::GLOSS_START, Self::GLOSS_END);
        let pos = Self::extract_all_tags(entry, Self::POS_START, Self::POS_END);
        let kanji: Option<Vec<String>> = match keb {
            Some(k) => Some(to_strings(&k)),
            None => None,
        };
        let kana_reading: Vec<String> = match reb {
            Some(r) => to_strings(&r),
            None => Vec::new(),
        };
        let use_frequency: Option<Vec<UseFrequency>> = match ke_pri {
            Some(v) => Some(Self::frequency_tags_of(&v)),
            None => None,
        };
        let english_meaning: Vec<String> = match gloss {
            Some(g) => to_strings(&g),
            None => Vec::new(),
        };
        let part_of_speech: Vec<PartOfSpeech> = match pos {
            Some(p) => Self::parts_of_speech_of(&p),
            None => Vec::new(),
        };
        let ghost kanji_view: Option<Seq<Seq<char>>> = match &kanji {
            Some(k) => Some(strings_view(k@)),
            None => None,
        };
        assert(kanji_view == tag_contents_opt(entry@, Self::KEB_START@, Self::KEB_END@));
        assert(strings_view(kana_reading@) =~= tag_contents(
            entry@,
            Self::REB_START@,
            Self::REB_END@,
        ));
        assert(strings_view(english_meaning@) =~= tag_contents(
            entry@,
            Self::GLOSS_START@,
            Self::GLOSS_END@,
        ));
        assert(part_of_speech@ =~= parts_of_speech(
            tag_contents(entry@, Self::POS_START@, Self::POS_END@),
        ));
        let mut dict_form: Option<&str> = None;
        if let Some(k) = &kanji {
            if k.len() > 0 {
                dict_form = Some(k[0].as_str());
            }
        }
        if dict_form.is_none() && kana_reading.len() > 0 {
            dict_form = Some(kana_reading[0].as_str());
        }
        let ghost form_view: Option<Seq<char>> = match dict_form {
            Some(f) => Some(f@),
            None => None,
        };
        assert(form_view == dictionary_form(kanji_view, strings_view(kana_reading@)));
        let verb_conjugations: Option<Vec<VerbConjugations>> = match dict_form {
            Some(form) => {
                let v = Self::conjugations_of(&part_of_speech, form);
                if v.len() > 0 {
                    Some(v)
                } else {
                    None
                }
            },
            None => None,
        };
        let word = JpToEnglishWord {
            id: String::from_str(id),
            kanji,
            kana_reading,
            use_frequency,
            english_meaning,
            part_of_speech,
            verb_conjugations,
        };
        Some(word)
    }

    /// Parses the lines of a JMdict XML file into a dictionary: the entries
    /// between `<entry>` and `</entry>` lines, each that has an `<ent_seq>`
    /// made into a word (see `parsed_words`).
    pub fn parse_lines(lines: &Vec<String>) -> (r: JpToEnglishDictionary)
        ensures
            r@ == parsed_words(strings_view(lines@)),
    {
        let entries = Self::scan_entries(lines);
        let ghost all = strings_view(entries@);
        let mut dict = JpToEnglishDictionary::default();
        let mut i: usize = 0;
        assert(all.take(0) =~= Seq::<Seq<char>>::empty());
        assert(words_view(dict.words@) =~= Seq::<WordView>::empty());
        while i < entries.len()
            invariant
                all == strings_view(entries@),
                i <= entries@.len(),
                words_view(dict.words@) == entries_words(all.take(i as int)),
            decreases entries@.len() - i,
        {
            assert(all.take(i + 1).drop_last() =~= all.take(i as int));
            assert(all.take(i + 1).last() == entries@[i as int]@);
            if let Some(w) = Self::word_of_entry(entries[i].as_str()) {
                let ghost before = dict.words@;
                let ghost wv = w@;
                dict.words.push(w);
                assert(words_view(dict.words@) =~= words_view(before).push(wv));
            }
            i = i + 1;
        }
        assert(all.take(entries@.len() as int) =~= all);
        dict
    }
}


/// A part of speech is listed at most once per entry.
pub proof fn lemma_parts_of_speech_distinct(codes: Seq<Seq<char>>)
    ensures
        forall|i: int, j: int|
            0 <= i < j < parts_of_speech(codes).len() ==> parts_of_speech(codes)[i]
                != parts_of_speech(codes)[j],
    decreases codes.len(),
{
    if codes.len() > 0 {
        lemma_parts_of_speech_distinct(codes.drop_last());
        let rest = parts_of_speech(codes.drop_last());
        match pos_code_meaning(codes.last()) {
            Some(p) => {
                if !rest.contains(p) {
                    let r = rest.push(p);
                    assert forall|i: int, j: int| 0 <= i < j < r.len() implies r[i] != r[j] by {
                        if j == rest.len() {
                            assert(r[i] == rest[i]);
                        }
                    }
                }
            },
            None => {},
        }
    }
}

/// The code at `k` is the first of `codes` that stands for `p`.
pub open spec fn first_code_for(codes: Seq<Seq<char>>, p: PartOfSpeech, k: int) -> bool {
    &&& 0 <= k < codes.len()
    &&& pos_code_meaning(codes[k]) == Some(p)
    &&& forall|j: int| 0 <= j < k ==> pos_code_meaning(#[trigger] codes[j]) != Some(p)
}

/// The parts of speech of an entry are exactly those that its codes stand
/// for, each listed once, in the order in which they first appear among the
/// codes.
pub proof fn lemma_parts_of_speech_first_appearance(codes: Seq<Seq<char>>)
    ensures
        forall|p: PartOfSpeech|
            #[trigger] parts_of_speech(codes).contains(p) <==> exists|k: int|
                0 <= k < codes.len() && pos_code_meaning(#[trigger] codes[k]) == Some(p),
        forall|a: int, b: int|
            0 <= a < b < parts_of_speech(codes).len() ==> parts_of_speech(codes)[a]
                != parts_of_speech(codes)[b],
        forall|a: int, b: int, ka: int, kb: int|
            0 <= a < b < parts_of_speech(codes).len() && #[trigger] first_code_for(
                codes,
                parts_of_speech(codes)[a],
                ka,
            ) && #[trigger] first_code_for(codes, parts_of_speech(codes)[b], kb) ==> ka < kb,
    decreases codes.len(),
{
    lemma_parts_of_speech_distinct(codes);
    if codes.len() > 0 {
        let c0 = codes.drop_last();
        let n = codes.len() as int;
        lemma_parts_of_speech_first_appearance(c0);
        let rest = parts_of_speech(c0);
        let r = parts_of_speech(codes);
        assert forall|x: PartOfSpeech, k: int|
            0 <= k < n - 1 implies (first_code_for(codes, x, k) <==> first_code_for(c0, x, k)) by {
            assert(codes[k] == c0[k]);
            if first_code_for(codes, x, k) {
                assert forall|j: int| 0 <= j < k implies pos_code_meaning(#[trigger] c0[j]) != Some(x) by {
                    assert(codes[j] == c0[j]);
                }
            }
            if first_code_for(c0, x, k) {
                assert forall|j: int| 0 <= j < k implies pos_code_meaning(#[trigger] codes[j]) != Some(x) by {
                    assert(codes[j] == c0[j]);
                }
            }
        }
        assert forall|x: PartOfSpeech| first_code_for(codes, x, n - 1) implies !rest.contains(x) by {
            if rest.contains(x) {
                let k = choose|k: int| 0 <= k < c0.len() && pos_code_meaning(#[trigger] c0[k]) == Some(x);
                assert(codes[k] == c0[k]);
            }
        }
        assert forall|p: PartOfSpeech|
            r.contains(p) <==> exists|k: int|
                0 <= k < codes.len() && pos_code_meaning(#[trigger] codes[k]) == Some(p) by {
            if exists|k: int| 0 <= k < codes.len() && pos_code_meaning(#[trigger] codes[k]) == Some(p) {
                let k = choose|k: int| 0 <= k < codes.len() && pos_code_meaning(#[trigger] codes[k]) == Some(p);
                if k < n - 1 {
                    assert(codes[k] == c0[k]);
                    assert(rest.contains(p));
                    let a = choose|a: int| 0 <= a < rest.len() && rest[a] == p;
                    assert(r[a] == p);
                } else {
                    assert(codes.last() == codes[k]);
                    if r == rest {
                        assert(rest.contains(p));
                    } else {
                        assert(r[rest.len() as int] == p);
                    }
                }
            }
            if r.contains(p) {
                let a = choose|a: int| 0 <= a < r.len() && r[a] == p;
                if a < rest.len() {
                    assert(rest[a] == p);
                    assert(rest.contains(p));
                    let k = choose|k: int| 0 <= k < c0.len() && pos_code_meaning(#[trigger] c0[k]) == Some(p);
                    assert(codes[k] == c0[k]);
                } else {
                    assert(codes[n - 1] == codes.last());
                }
            }
        }
        assert forall|a: int, b: int, ka: int, kb: int|
            0 <= a < b < r.len() && #[trigger] first_code_for(codes, r[a], ka) && #[trigger] first_code_for(
                codes,
                r[b],
                kb,
            ) implies ka < kb by {
            if b < rest.len() {
                assert(r[a] == rest[a] && r[b] == rest[b]);
                assert(rest.contains(rest[a]));
                assert(rest.contains(rest[b]));
                assert(ka != n - 1);
                assert(kb != n - 1);
                assert(first_code_for(c0, rest[a], ka));
                assert(first_code_for(c0, rest[b], kb));
            } else {
                assert(r[a] == rest[a]);
                assert(rest.contains(rest[a]));
                assert(ka != n - 1);
                if kb < n - 1 {
                    assert(first_code_for(c0, r[b], kb));
                    assert(c0[kb] == codes[kb]);
                    assert(rest.contains(r[b]));
                }
            }
        }
    }
}

/// The words of the entries that describe one: never more words than
/// entries, and in each word the kanji list and the conjugation list, when
/// present, are not empty, and no part of speech is listed twice.
pub proof fn lemma_entries_words_shape(entries: Seq<Seq<char>>)
    ensures
        entries_words(entries).len() <= entries.len(),
        forall|i: int|
            0 <= i < entries_words(entries).len() ==> {
                let w = #[trigger] entries_words(entries)[i];
                &&& w.kanji matches Some(k) ==> k.len() > 0
                &&& w.verb_conjugations matches Some(v) ==> v.len() > 0
                &&& forall|a: int, b: int|
                    0 <= a < b < w.part_of_speech.len() ==> w.part_of_speech[a]
                        != w.part_of_speech[b]
            },
    decreases entries.len(),
{
    if entries.len() > 0 {
        lemma_entries_words_shape(entries.drop_last());
        let e = entries.last();
        lemma_parts_of_speech_distinct(tag_contents(e, Parser::POS_START@, Parser::POS_END@));
    }
}

/// The line is an `<entry>` line: it trims to `<entry>`.
pub open spec fn is_entry_start(line: Seq<char>) -> bool {
    trim(line) == Parser::ENTRY_START@
}

/// The line is an `</entry>` line: it trims to `</entry>`.
pub open spec fn is_entry_end(line: Seq<char>) -> bool {
    trim(line) == Parser::ENTRY_END@
}

/// No `<entry>` line is still open after the first `j` lines.
pub open spec fn no_open_entry(lines: Seq<Seq<char>>, j: int) -> bool {
    forall|a: int| !open_entry_at(lines.take(j), a)
}

/// The line at `a` opens an entry that is still open after all of `lines`:
/// it is an `<entry>` line and no `<entry>` or `</entry>` line follows it.
pub open spec fn open_entry_at(lines: Seq<Seq<char>>, a: int) -> bool {
    &&& 0 <= a < lines.len()
    &&& is_entry_start(lines[a])
    &&& forall|m: int|
        a < m < lines.len() ==> !is_entry_start(#[trigger] lines[m]) && !is_entry_end(lines[m])
}

/// Where the scan stands after `lines`: inside an entry exactly when an
/// `<entry>` line is still open, its text being the lines after that one,
/// joined as they stand; outside, with no text.
proof fn lemma_scan_state(lines: Seq<Seq<char>>)
    ensures
        scan_lines(lines).in_entry <==> exists|a: int| open_entry_at(lines, a),
        forall|a: int|
            #[trigger] open_entry_at(lines, a) ==> scan_lines(lines).current == lines.subrange(
                a + 1,
                lines.len() as int,
            ).flatten(),
        !scan_lines(lines).in_entry ==> scan_lines(lines).current == Seq::<char>::empty(),
    decreases lines.len(),
{
    broadcast use Seq::lemma_flatten_push;

    reveal_strlit("<entry>");
    reveal_strlit("</entry>");
    assert(Parser::ENTRY_START@[1] != Parser::ENTRY_END@[1]);
    if lines.len() > 0 {
        let l0 = lines.drop_last();
        let n = lines.len() as int;
        let last = lines.last();
        assert(last == lines[n - 1]);
        lemma_scan_state(l0);
        assert forall|a: int| 0 <= a < n - 1 && #[trigger] open_entry_at(lines, a) implies open_entry_at(
            l0,
            a,
        ) by {
            assert forall|m: int| a < m < l0.len() implies !is_entry_start(#[trigger] l0[m])
                && !is_entry_end(l0[m]) by {
                assert(l0[m] == lines[m]);
            }
            assert(l0[a] == lines[a]);
        }
        assert forall|a: int|
            0 <= a < n - 1 && #[trigger] open_entry_at(l0, a) && !is_entry_start(last)
                && !is_entry_end(last) implies open_entry_at(lines, a) by {
            assert forall|m: int| a < m < lines.len() implies !is_entry_start(#[trigger] lines[m])
                && !is_entry_end(lines[m]) by {
                if m < n - 1 {
                    assert(l0[m] == lines[m]);
                }
            }
            assert(l0[a] == lines[a]);
        }
        assert forall|a: int| #[trigger] open_entry_at(lines, a) && a < n - 1 implies !is_entry_start(
            last,
        ) && !is_entry_end(last) by {}
        if is_entry_start(last) {
            assert(open_entry_at(lines, n - 1));
            assert(lines.subrange(n, n) =~= Seq::<Seq<char>>::empty());
        } else if is_entry_end(last) {
        } else if scan_lines(l0).in_entry {
            let a = choose|a: int| open_entry_at(l0, a);
            assert(open_entry_at(lines, a));
            assert forall|b: int| #[trigger] open_entry_at(lines, b) implies scan_lines(lines).current
                == lines.subrange(b + 1, n).flatten() by {
                assert(open_entry_at(l0, b));
                assert(lines.subrange(b + 1, n) =~= l0.subrange(b + 1, n - 1).push(last));
            }
        } else {
            assert forall|b: int| !open_entry_at(lines, b) by {
                if open_entry_at(lines, b) {
                    assert(open_entry_at(l0, b));
                }
            }
        }
    }
}

/// How the lines of a file group into entries: one entry for each
/// `</entry>` line, in order. An entry's text is the lines between the last
/// `<entry>` line before it and the `</entry>` line, joined as they stand,
/// when no other `<entry>` or `</entry>` line comes between them; it is empty
/// when no `<entry>` line is open there. `ends` gives each entry's
/// `</entry>` line.
pub proof fn lemma_scan_lines_entries(lines: Seq<Seq<char>>) -> (ends: Seq<int>)
    ensures
        ends.len() == scan_lines(lines).entries.len(),
        forall|i: int|
            0 <= i < ends.len() ==> 0 <= #[trigger] ends[i] < lines.len() && is_entry_end(
                lines[ends[i]],
            ),
        forall|i: int, j: int| 0 <= i < j < ends.len() ==> #[trigger] ends[i] < #[trigger] ends[j],
        forall|j: int| 0 <= j < lines.len() && #[trigger] is_entry_end(lines[j]) ==> ends.contains(j),
        forall|i: int, a: int|
            0 <= i < ends.len() && #[trigger] open_entry_at(lines.take(ends[i]), a)
                ==> scan_lines(lines).entries[i] == lines.subrange(a + 1, ends[i]).flatten(),
        forall|i: int|
            0 <= i < ends.len() && no_open_entry(lines, #[trigger] ends[i])
                ==> scan_lines(lines).entries[i] == Seq::<char>::empty(),
    decreases lines.len(),
{
    reveal_strlit("<entry>");
    reveal_strlit("</entry>");
    assert(Parser::ENTRY_START@[1] != Parser::ENTRY_END@[1]);
    if lines.len() == 0 {
        Seq::<int>::empty()
    } else {
        let l0 = lines.drop_last();
        let n = lines.len() as int;
        let last = lines.last();
        assert(last == lines[n - 1]);
        let ends0 = lemma_scan_lines_entries(l0);
        let entries = scan_lines(lines).entries;
        let entries0 = scan_lines(l0).entries;
        assert forall|i: int| 0 <= i < ends0.len() implies lines.take(#[trigger] ends0[i]) == l0.take(
            ends0[i],
        ) by {
            assert(lines.take(ends0[i]) =~= l0.take(ends0[i]));
        }
        assert forall|i: int| 0 <= i < ends0.len() implies lines.subrange(0, #[trigger] ends0[i])
            == l0.subrange(0, ends0[i]) by {
            assert(lines.subrange(0, ends0[i]) =~= l0.subrange(0, ends0[i]));
        }
        assert forall|i: int, a: int| 0 <= i < ends0.len() && 0 <= a < ends0[i] implies #[trigger] lines.subrange(
            a + 1,
            ends0[i],
        ) == l0.subrange(a + 1, ends0[i]) by {
            assert(lines.subrange(a + 1, ends0[i]) =~= l0.subrange(a + 1, ends0[i]));
        }
        if !is_entry_start(last) && is_entry_end(last) {
            let ends = ends0.push(n - 1);
            lemma_scan_state(l0);
            assert(lines.take(n - 1) =~= l0);
            assert(entries == entries0.push(scan_lines(l0).current));
            assert forall|i: int, a: int|
                0 <= i < ends.len() && #[trigger] open_entry_at(lines.take(ends[i]), a)
                    implies entries[i] == lines.subrange(a + 1, ends[i]).flatten() by {
                if i < ends0.len() {
                    assert(ends[i] == ends0[i]);
                    assert(0 <= a < ends0[i]);
                } else {
                    assert(lines.subrange(a + 1, n - 1) =~= l0.subrange(a + 1, n - 1));
                }
            }
            assert forall|j: int| 0 <= j < lines.len() && #[trigger] is_entry_end(lines[j])
                implies ends.contains(j) by {
                if j < n - 1 {
                    assert(l0[j] == lines[j]);
                    assert(is_entry_end(l0[j]));
                    let i = choose|i: int| 0 <= i < ends0.len() && ends0[i] == j;
                    assert(ends[i] == j);
                } else {
                    assert(ends[ends0.len() as int] == j);
                }
            }
            assert forall|i: int| 0 <= i < ends.len() implies 0 <= #[trigger] ends[i] < lines.len()
                && is_entry_end(lines[ends[i]]) by {
                if i < ends0.len() {
                    assert(l0[ends0[i]] == lines[ends0[i]]);
                }
            }
            assert forall|i: int|
                0 <= i < ends.len() && no_open_entry(lines, #[trigger] ends[i])
                    implies entries[i] == Seq::<char>::empty() by {
                if i < ends0.len() {
                    assert(ends[i] == ends0[i]);
                    assert forall|a: int| !open_entry_at(l0.take(ends0[i]), a) by {
                        assert(!open_entry_at(lines.take(ends[i]), a));
                    }
                    assert(no_open_entry(l0, ends0[i]));
                } else {
                    assert(ends[i] == n - 1);
                    assert forall|a: int| !open_entry_at(l0, a) by {
                        assert(!open_entry_at(lines.take(ends[i]), a));
                    }
                }
            }
            ends
        } else {
            assert(entries == entries0);
            assert forall|j: int| 0 <= j < lines.len() && #[trigger] is_entry_end(lines[j])
                implies ends0.contains(j) by {
                if j < n - 1 {
                    assert(l0[j] == lines[j]);
                    assert(is_entry_end(l0[j]));
                }
            }
            assert forall|i: int| 0 <= i < ends0.len() implies 0 <= #[trigger] ends0[i] < lines.len()
                && is_entry_end(lines[ends0[i]]) by {
                assert(l0[ends0[i]] == lines[ends0[i]]);
            }
            assert forall|i: int, a: int|
                0 <= i < ends0.len() && #[trigger] open_entry_at(lines.take(ends0[i]), a)
                    implies entries[i] == lines.subrange(a + 1, ends0[i]).flatten() by {
                assert(0 <= a < ends0[i]);
            }
            assert forall|i: int|
                0 <= i < ends0.len() && no_open_entry(lines, #[trigger] ends0[i])
                    implies entries[i] == Seq::<char>::empty() by {
                assert forall|a: int| !open_entry_at(l0.take(ends0[i]), a) by {
                    assert(!open_entry_at(lines.take(ends0[i]), a));
                }
                assert(no_open_entry(l0, ends0[i]));
            }
            ends0
        }
    }
}

/// The frequency tags of an entry are those that its `<ke_pri>` codes stand
/// for, in order: `src` gives the code of each tag, and every code that
/// stands for a tag gives one.
pub proof fn lemma_frequency_tags_in_order(codes: Seq<Seq<char>>) -> (src: Seq<int>)
    ensures
        src.len() == frequency_tags(codes).len(),
        forall|i: int|
            0 <= i < src.len() ==> 0 <= #[trigger] src[i] < codes.len() && priority_code_meaning(
                codes[src[i]],
            ) == Some(frequency_tags(codes)[i]),
        forall|i: int, j: int| 0 <= i < j < src.len() ==> #[trigger] src[i] < #[trigger] src[j],
        forall|k: int|
            0 <= k < codes.len() && (#[trigger] priority_code_meaning(codes[k])) is Some
                ==> src.contains(k),
    decreases codes.len(),
{
    if codes.len() == 0 {
        Seq::<int>::empty()
    } else {
        let c0 = codes.drop_last();
        let n = codes.len() as int;
        let src0 = lemma_frequency_tags_in_order(c0);
        let tags = frequency_tags(codes);
        assert forall|k: int| 0 <= k < n - 1 implies codes[k] == #[trigger] c0[k] by {}
        match priority_code_meaning(codes.last()) {
            Some(f) => {
                let src = src0.push(n - 1);
                assert forall|i: int| 0 <= i < src.len() implies 0 <= #[trigger] src[i]
                    < codes.len() && priority_code_meaning(codes[src[i]]) == Some(tags[i]) by {
                    if i < src0.len() {
                        assert(codes[src0[i]] == c0[src0[i]]);
                    }
                }
                assert forall|k: int|
                    0 <= k < codes.len() && (#[trigger] priority_code_meaning(codes[k])) is Some
                        implies src.contains(k) by {
                    if k < n - 1 {
                        assert(priority_code_meaning(c0[k]) is Some);
                        let i = choose|i: int| 0 <= i < src0.len() && src0[i] == k;
                        assert(src[i] == k);
                    } else {
                        assert(src[src0.len() as int] == k);
                    }
                }
                src
            },
            None => {
                assert forall|i: int| 0 <= i < src0.len() implies 0 <= #[trigger] src0[i]
                    < codes.len() && priority_code_meaning(codes[src0[i]]) == Some(tags[i]) by {
                    assert(codes[src0[i]] == c0[src0[i]]);
                }
                assert forall|k: int|
                    0 <= k < codes.len() && (#[trigger] priority_code_meaning(codes[k])) is Some
                        implies src0.contains(k) by {
                    if k < n - 1 {
                        assert(priority_code_meaning(c0[k]) is Some);
                    } else {
                        assert(codes[k] == codes.last());
                    }
                }
                src0
            },
        }
    }
}

/// The verb type at `k` of `pos` conjugates `form`.
pub open spec fn conjugates_at(pos: Seq<PartOfSpeech>, form: Seq<char>, k: int) -> bool {
    pos[k] matches PartOfSpeech::Verb(t) && verb_conjugation(t, form) is Some
}

/// The conjugations of a dictionary form are those of each verb type among
/// the parts of speech that conjugates it, in order: `src` gives the part of
/// speech of each, and every verb type that conjugates the form gives one.
pub proof fn lemma_verb_forms_in_order(pos: Seq<PartOfSpeech>, form: Seq<char>) -> (src: Seq<int>)
    ensures
        src.len() == verb_forms(pos, form).len(),
        forall|i: int|
            0 <= i < src.len() ==> 0 <= #[trigger] src[i] < pos.len() && (
            pos[src[i]] matches PartOfSpeech::Verb(t) && verb_conjugation(t, form) == Some(
                verb_forms(pos, form)[i],
            )),
        forall|i: int, j: int| 0 <= i < j < src.len() ==> #[trigger] src[i] < #[trigger] src[j],
        forall|k: int| 0 <= k < pos.len() && #[trigger] conjugates_at(pos, form, k) ==> src.contains(k),
    decreases pos.len(),
{
    if pos.len() == 0 {
        Seq::<int>::empty()
    } else {
        let p0 = pos.drop_last();
        let n = pos.len() as int;
        let src0 = lemma_verb_forms_in_order(p0, form);
        let forms = verb_forms(pos, form);
        assert forall|k: int| 0 <= k < n - 1 implies pos[k] == #[trigger] p0[k] by {}
        assert forall|k: int| 0 <= k < n - 1 implies conjugates_at(pos, form, k) == #[trigger] conjugates_at(p0, form, k) by {
            assert(pos[k] == p0[k]);
        }
        if conjugates_at(pos, form, n - 1) {
            assert(pos.last() == pos[n - 1]);
            let src = src0.push(n - 1);
            assert forall|i: int| 0 <= i < src.len() implies 0 <= #[trigger] src[i] < pos.len() && (
            pos[src[i]] matches PartOfSpeech::Verb(t) && verb_conjugation(t, form) == Some(forms[i])) by {
                if i < src0.len() {
                    assert(pos[src0[i]] == p0[src0[i]]);
                }
            }
            assert forall|k: int| 0 <= k < pos.len() && #[trigger] conjugates_at(pos, form, k)
                implies src.contains(k) by {
                if k < n - 1 {
                    assert(conjugates_at(p0, form, k));
                    let i = choose|i: int| 0 <= i < src0.len() && src0[i] == k;
                    assert(src[i] == k);
                } else {
                    assert(src[src0.len() as int] == k);
                }
            }
            src
        } else {
            assert(pos.last() == pos[n - 1]);
            assert(forms == verb_forms(p0, form));
            assert forall|i: int| 0 <= i < src0.len() implies 0 <= #[trigger] src0[i] < pos.len() && (
            pos[src0[i]] matches PartOfSpeech::Verb(t) && verb_conjugation(t, form) == Some(forms[i])) by {
                assert(pos[src0[i]] == p0[src0[i]]);
            }
            assert forall|k: int| 0 <= k < pos.len() && #[trigger] conjugates_at(pos, form, k)
                implies src0.contains(k) by {
                if k < n - 1 {
                    assert(conjugates_at(p0, form, k));
                }
            }
            src0
        }
    }
}

/// A word's id is the content of the first `<ent_seq> ... </ent_seq>` pair
/// of its entry (placed as `lemma_tag_contents_in_order` says), and an entry
/// without one has none.
pub proof fn lemma_entry_sequence_first_tag(e: Seq<char>)
    ensures
        entry_sequence(e) == (if tag_contents(e, Parser::ENTRY_SEQ_START@, Parser::ENTRY_SEQ_END@).len()
            > 0 {
            Some(tag_contents(e, Parser::ENTRY_SEQ_START@, Parser::ENTRY_SEQ_END@)[0])
        } else {
            None
        }),
{
    reveal_strlit("<ent_seq>");
    assert(Parser::ENTRY_SEQ_START@.len() > 0);
}

/// `src` gives, for each of `words`, the entry it comes from: the words are
/// those of the entries that describe one, in the entries' order.
pub open spec fn words_come_from(entries: Seq<Seq<char>>, words: Seq<WordView>, src: Seq<int>) -> bool {
    &&& src.len() == words.len()
    &&& forall|i: int|
        0 <= i < src.len() ==> 0 <= #[trigger] src[i] < entries.len() && entry_word(entries[src[i]])
            == Some(words[i])
    &&& forall|i: int, j: int| 0 <= i < j < src.len() ==> #[trigger] src[i] < #[trigger] src[j]
    &&& forall|k: int|
        0 <= k < entries.len() && (#[trigger] entry_word(entries[k])) is Some ==> src.contains(k)
}

/// The entry of each word, by induction over the entries.
proof fn lemma_entries_words_sources(entries: Seq<Seq<char>>) -> (src: Seq<int>)
    ensures
        words_come_from(entries, entries_words(entries), src),
    decreases entries.len(),
{
    if entries.len() == 0 {
        Seq::<int>::empty()
    } else {
        let e0 = entries.drop_last();
        let n = entries.len() as int;
        let src0 = lemma_entries_words_sources(e0);
        let words = entries_words(entries);
        assert forall|k: int| 0 <= k < n - 1 implies entries[k] == #[trigger] e0[k] by {}
        match entry_word(entries.last()) {
            Some(w) => {
                let src = src0.push(n - 1);
                assert forall|i: int| 0 <= i < src.len() implies 0 <= #[trigger] src[i]
                    < entries.len() && entry_word(entries[src[i]]) == Some(words[i]) by {
                    if i < src0.len() {
                        assert(entries[src0[i]] == e0[src0[i]]);
                    }
                }
                assert forall|k: int|
                    0 <= k < entries.len() && (#[trigger] entry_word(entries[k])) is Some
                        implies src.contains(k) by {
                    if k < n - 1 {
                        assert(entry_word(e0[k]) is Some);
                        let i = choose|i: int| 0 <= i < src0.len() && src0[i] == k;
                        assert(src[i] == k);
                    } else {
                        assert(src[src0.len() as int] == k);
                    }
                }
                src
            },
            None => {
                assert forall|i: int| 0 <= i < src0.len() implies 0 <= #[trigger] src0[i]
                    < entries.len() && entry_word(entries[src0[i]]) == Some(words[i]) by {
                    assert(entries[src0[i]] == e0[src0[i]]);
                }
                assert forall|k: int|
                    0 <= k < entries.len() && (#[trigger] entry_word(entries[k])) is Some
                        implies src0.contains(k) by {
                    if k < n - 1 {
                        assert(entry_word(e0[k]) is Some);
                    } else {
                        assert(entries[k] == entries.last());
                    }
                }
                src0
            },
        }
    }
}

/// Each word read from the lines of a file comes from one of its entries, in
/// the entries' order, and every entry that describes a word gives one. A
/// word's id is its entry's `<ent_seq>`; its kanji spellings, kana readings
/// and English meanings are all the contents of its entry's `<keb>`, `<reb>`
/// and `<gloss>` tags, in order (no kanji when there is no `<keb>`); its
/// frequency tags are those of all its `<ke_pri>` codes. Its parts of speech are those that its entry's `<pos>` codes stand for
/// (see `lemma_parts_of_speech_first_appearance`), and its conjugations are
/// those of its dictionary form for each verb type among them: none when it
/// has no dictionary form or no verb type conjugates it, never an empty list.
pub proof fn lemma_parsed_words_from_entries(lines: Seq<Seq<char>>) -> (src: Seq<int>)
    ensures
        words_come_from(scan_lines(lines).entries, parsed_words(lines), src),
        forall|i: int|
            0 <= i < parsed_words(lines).len() ==> {
                let w = #[trigger] parsed_words(lines)[i];
                let e = scan_lines(lines).entries[src[i]];
                &&& entry_sequence(e) == Some(w.id)
                &&& w.kanji == tag_contents_opt(e, Parser::KEB_START@, Parser::KEB_END@)
                &&& w.kana_reading == tag_contents(e, Parser::REB_START@, Parser::REB_END@)
                &&& w.english_meaning == tag_contents(e, Parser::GLOSS_START@, Parser::GLOSS_END@)
                &&& w.use_frequency == match tag_contents_opt(
                    e,
                    Parser::KE_PRI_START@,
                    Parser::KE_PRI_END@,
                ) {
                    Some(c) => Some(frequency_tags(c)),
                    None => None,
                }
                &&& w.part_of_speech == parts_of_speech(
                    tag_contents(e, Parser::POS_START@, Parser::POS_END@),
                )
                &&& w.verb_conjugations == entry_conjugations(
                    w.part_of_speech,
                    dictionary_form(w.kanji, w.kana_reading),
                )
                &&& w.verb_conjugations matches Some(v) ==> v.len() > 0
            },
{
    let entries = scan_lines(lines).entries;
    let src = lemma_entries_words_sources(entries);
    assert forall|i: int| 0 <= i < parsed_words(lines).len() implies {
        let w = #[trigger] parsed_words(lines)[i];
        let e = entries[src[i]];
        &&& entry_sequence(e) == Some(w.id)
        &&& w.kanji == tag_contents_opt(e, Parser::KEB_START@, Parser::KEB_END@)
        &&& w.kana_reading == tag_contents(e, Parser::REB_START@, Parser::REB_END@)
        &&& w.english_meaning == tag_contents(e, Parser::GLOSS_START@, Parser::GLOSS_END@)
        &&& w.use_frequency == match tag_contents_opt(
            e,
            Parser::KE_PRI_START@,
            Parser::KE_PRI_END@,
        ) {
            Some(c) => Some(frequency_tags(c)),
            None => None,
        }
        &&& w.part_of_speech == parts_of_speech(
            tag_contents(e, Parser::POS_START@, Parser::POS_END@),
        )
        &&& w.verb_conjugations == entry_conjugations(
            w.part_of_speech,
            dictionary_form(w.kanji, w.kana_reading),
        )
        &&& w.verb_conjugations matches Some(v) ==> v.len() > 0
    } by {
        assert(entry_word(entries[src[i]]) == Some(parsed_words(lines)[i]));
    }
    src
}

/// No tag content holds its closing tag: each content ends at the first
/// closing tag after its opening one.
pub proof fn lemma_tag_contents_stop_at_close(s: Seq<char>, open: Seq<char>, close: Seq<char>)
    requires
        close.len() > 0,
    ensures
        forall|k: int|
            0 <= k < tag_contents(s, open, close).len() ==> !contains(
                #[trigger] tag_contents(s, open, close)[k],
                close,
            ),
    decreases s.len(),
{
    match split_once(s, open) {
        None => {},
        Some((_, outer)) => match split_once(outer, close) {
            None => {},
            Some((inner, rest)) => {
                lemma_find_from(s, open, 0);
                lemma_find_from(outer, close, 0);
                lemma_tag_contents_stop_at_close(rest, open, close);
                let j = find_from(outer, close, 0)->0;
                assert(inner == outer.take(j));
                if contains(inner, close) {
                    let m = choose|m: int| occurs_at(inner, close, m);
                    assert(inner.subrange(m, m + close.len()) =~= outer.subrange(
                        m,
                        m + close.len(),
                    ));
                    assert(occurs_at(outer, close, m));
                }
                let t = tag_contents(s, open, close);
                assert forall|k: int| 0 <= k < t.len() implies !contains(#[trigger] t[k], close) by {
                    if k > 0 {
                        assert(t[k] == tag_contents(rest, open, close)[k - 1]);
                    }
                }
            },
        },
    }
}


/// In `s`, the first `open` at or after `from` stands at `at`, the content
/// `x` follows it, and then the first `close` after the `open`.
pub open spec fn tag_at(
    s: Seq<char>,
    open: Seq<char>,
    close: Seq<char>,
    from: int,
    at: int,
    x: Seq<char>,
) -> bool {
    let start = at + open.len();
    let end = start + x.len();
    &&& from <= at
    &&& occurs_at(s, open, at)
    &&& forall|m: int| from <= m < at ==> !occurs_at(s, open, m)
    &&& s.subrange(start, end) == x
    &&& occurs_at(s, close, end)
    &&& forall|m: int| start <= m < end ==> !occurs_at(s, close, m)
}

/// The contents `t` stand in `s` one after another from `from` on, each the
/// content of the first `open ... close` pair after the one before.
pub open spec fn tags_in_order(
    s: Seq<char>,
    open: Seq<char>,
    close: Seq<char>,
    from: int,
    t: Seq<Seq<char>>,
) -> bool
    decreases t.len(),
{
    t.len() == 0 || exists|at: int|
        #[trigger] tag_at(s, open, close, from, at, t[0]) && tags_in_order(
            s,
            open,
            close,
            at + open.len() + t[0].len() + close.len(),
            t.skip(1),
        )
}

/// The tag contents of what follows `a` stand in `s` in order from `a` on.
proof fn lemma_tag_contents_in_order_from(s: Seq<char>, open: Seq<char>, close: Seq<char>, a: int)
    requires
        0 <= a <= s.len(),
    ensures
        tags_in_order(s, open, close, a, tag_contents(s.skip(a), open, close)),
    decreases s.len() - a,
{
    let u = s.skip(a);
    let t = tag_contents(u, open, close);
    if open.len() + close.len() > 0 {
        match split_once(u, open) {
            None => {},
            Some((_, outer)) => match split_once(outer, close) {
                None => {},
                Some((inner, rest)) => {
                    let i = find(u, open)->0;
                    lemma_find_from(u, open, 0);
                    lemma_find_in_suffix(s, open, a);
                    lemma_find_from(s, open, a);
                    let start = a + i + open.len();
                    assert(outer =~= s.skip(start));
                    let j = find(outer, close)->0;
                    lemma_find_from(outer, close, 0);
                    lemma_find_in_suffix(s, close, start);
                    lemma_find_from(s, close, start);
                    let end = start + j;
                    assert(inner =~= s.subrange(start, end));
                    let e = end + close.len();
                    assert(rest =~= s.skip(e));
                    assert(tag_at(s, open, close, a, a + i, inner));
                    lemma_tag_contents_in_order_from(s, open, close, e);
                    assert(t[0] == inner);
                    assert(t.skip(1) =~= tag_contents(rest, open, close));
                },
            },
        }
    }
}

/// Where the tag contents come from: each is the content of the first
/// `open ... close` pair after the one before, read left to right, and ends
/// at the first `close` after its `open`.
pub proof fn lemma_tag_contents_in_order(s: Seq<char>, open: Seq<char>, close: Seq<char>)
    ensures
        tags_in_order(s, open, close, 0, tag_contents(s, open, close)),
{
    assert(s.skip(0) =~= s);
    lemma_tag_contents_in_order_from(s, open, close, 0);
}

/// The values `xs`, each wrapped in `open` and `close`, one after another.
pub open spec fn wrap_tags(xs: Seq<Seq<char>>, open: Seq<char>, close: Seq<char>) -> Seq<char>
    decreases xs.len(),
{
    if xs.len() == 0 {
        Seq::<char>::empty()
    } else {
        open + xs[0] + close + wrap_tags(xs.skip(1), open, close)
    }
}

/// Occurrences that lie wholly inside a prefix are occurrences in the prefix.
proof fn lemma_occurs_in_prefix(p: Seq<char>, t: Seq<char>, pat: Seq<char>, k: int)
    requires
        0 <= k,
        k + pat.len() <= p.len(),
    ensures
        occurs_at(p + t, pat, k) <==> occurs_at(p, pat, k),
{
    assert((p + t).subrange(k, k + pat.len()) =~= p.subrange(k, k + pat.len()));
}

/// Tags read back: wrapping values in non-empty tags and reading the tags
/// gives the values back, in order, when no value holds the closing tag
/// (nor ends with a beginning of it).
pub proof fn lemma_tags_read_back(xs: Seq<Seq<char>>, open: Seq<char>, close: Seq<char>)
    requires
        open.len() > 0,
        close.len() > 0,
        forall|k: int|
            0 <= k < xs.len() ==> find(#[trigger] xs[k] + close, close) == Some(
                xs[k].len() as int,
            ),
    ensures
        tag_contents(wrap_tags(xs, open, close), open, close) == xs,
    decreases xs.len(),
{
    let s = wrap_tags(xs, open, close);
    lemma_find_from(s, open, 0);
    if xs.len() == 0 {
        assert(xs =~= Seq::<Seq<char>>::empty());
    } else {
        let x = xs[0];
        let rest = wrap_tags(xs.skip(1), open, close);
        assert(s =~= open + (x + close + rest));
        lemma_occurs_in_prefix(open, x + close + rest, open, 0);
        assert(open.subrange(0, open.len() as int) =~= open);
        assert(find(s, open) == Some(0int));
        let outer = s.skip(open.len() as int);
        assert(outer =~= (x + close) + rest);
        let p = x + close;
        assert(find(p, close) == Some(x.len() as int));
        lemma_find_from(p, close, 0);
        lemma_find_from(outer, close, 0);
        lemma_occurs_in_prefix(p, rest, close, x.len() as int);
        assert forall|k: int| 0 <= k < x.len() implies !occurs_at(outer, close, k) by {
            lemma_occurs_in_prefix(p, rest, close, k);
        }
        match find_from(outer, close, 0) {
            Some(j) => {
                if j > x.len() {
                    assert(!occurs_at(outer, close, x.len() as int));
                }
            },
            None => {
                assert(!occurs_at(outer, close, x.len() as int));
            },
        }
        assert(find(outer, close) == Some(x.len() as int));
        assert(outer.take(x.len() as int) =~= x);
        assert(outer.skip((x.len() + close.len()) as int) =~= rest);
        assert forall|k: int|
            0 <= k < xs.skip(1).len() implies find(#[trigger] xs.skip(1)[k] + close, close)
            == Some(xs.skip(1)[k].len() as int) by {
            assert(xs.skip(1)[k] == xs[k + 1]);
        }
        lemma_tags_read_back(xs.skip(1), open, close);
        assert(seq![x] + xs.skip(1) =~= xs);
    }
}

} // verus!
