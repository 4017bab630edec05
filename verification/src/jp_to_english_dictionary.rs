//! The dictionary and its search: which words a query finds, and in which
//! order they come.
use vstd::prelude::*;
use crate::conjugations::{ConjugatedForms, VerbConjugations};
use crate::part_of_speech::PartOfSpeech;
use crate::text::{any_contains, chars_of, contains, list_any_contains, occurs_at, str_contains, str_eq, strings_view};
use crate::use_frequency::{priority_fits, priority_rank, UseFrequency};

verus! {

/// The rank given to a word that carries no frequency tag.
pub const NO_PRIORITY: u8 = 255;

/// One dictionary entry.
#[derive(Debug, PartialEq)]
pub struct JpToEnglishWord {
    /// JMdict entry sequence number (`<ent_seq>`) which is unique per entry.
    pub id: String,
    /// Kanji spellings (`<keb>`). Not every word has a kanji form.
    pub kanji: Option<Vec<String>>,
    /// Kana reading(s) (`<reb>`).
    pub kana_reading: Vec<String>,
    /// Priority/frequency tags (`<ke_pri>`) which indicate common usage
    /// (e.g. "news1", "ichi1").
    pub use_frequency: Option<Vec<UseFrequency>>,
    /// English glosses (`<gloss>`).
    pub english_meaning: Vec<String>,
    /// Parts of speech (`<pos>`).
    pub part_of_speech: Vec<PartOfSpeech>,
    /// Verb conjugations built from the dictionary form: the first kanji
    /// spelling, or else the first kana reading.
    pub verb_conjugations: Option<Vec<VerbConjugations>>,
}

/// A dictionary entry, with its strings as characters.
pub struct WordView {
    pub id: Seq<char>,
    pub kanji: Option<Seq<Seq<char>>>,
    pub kana_reading: Seq<Seq<char>>,
    pub use_frequency: Option<Seq<UseFrequency>>,
    pub english_meaning: Seq<Seq<char>>,
    pub part_of_speech: Seq<PartOfSpeech>,
    pub verb_conjugations: Option<Seq<ConjugatedForms>>,
}

/// The forms of each conjugation.
pub open spec fn conjugations_seq_view(v: Seq<VerbConjugations>) -> Seq<ConjugatedForms> {
    v.map_values(|c: VerbConjugations| c@)
}

impl View for JpToEnglishWord {
    type V = WordView;

    open spec fn view(&self) -> WordView {
        WordView {
            id: self.id@,
            kanji: match self.kanji {
                Some(k) => Some(strings_view(k@)),
                None => None,
            },
            kana_reading: strings_view(self.kana_reading@),
            use_frequency: match self.use_frequency {
                Some(f) => Some(f@),
                None => None,
            },
            english_meaning: strings_view(self.english_meaning@),
            part_of_speech: self.part_of_speech@,
            verb_conjugations: match self.verb_conjugations {
                Some(v) => Some(conjugations_seq_view(v@)),
                None => None,
            },
        }
    }
}

/// All entries of the dictionary.
#[derive(Debug)]
pub struct JpToEnglishDictionary {
    pub words: Vec<JpToEnglishWord>,
}

/// The entries, each as characters.
pub open spec fn words_view(words: Seq<JpToEnglishWord>) -> Seq<WordView> {
    words.map_values(|w: JpToEnglishWord| w@)
}

impl View for JpToEnglishDictionary {
    type V = Seq<WordView>;

    open spec fn view(&self) -> Seq<WordView> {
        words_view(self.words@)
    }
}

impl Default for JpToEnglishDictionary {
    /// An empty dictionary.
    fn default() -> (r: Self)
        ensures
            r.words@.len() == 0,
    {
        JpToEnglishDictionary { words: Vec::new() }
    }
}

/// The language that a query is written in.
#[derive(PartialEq, Eq, Debug, Structural)]
pub enum SearchType {
    English,
    Japanese,
}

/// A character of the kana and CJK blocks, U+3040 to U+9FFF.
pub open spec fn is_japanese_char(c: char) -> bool {
    '\u{3040}' <= c && c <= '\u{9FFF}'
}

/// A query is Japanese when it holds a Japanese character; anything else is
/// taken to be English.
pub open spec fn search_type_of(q: Seq<char>) -> SearchType {
    if exists|i: int| 0 <= i < q.len() && is_japanese_char(#[trigger] q[i]) {
        SearchType::Japanese
    } else {
        SearchType::English
    }
}

impl<'a> From<&'a str> for SearchType {
    fn from(value: &'a str) -> (r: Self) {
        let x = chars_of(value);
        let mut i: usize = 0;
        while i < x.len()
            invariant
                x@ == value@,
                i <= x@.len(),
                forall|k: int| 0 <= k < i ==> !is_japanese_char(#[trigger] x@[k]),
            decreases x@.len() - i,
        {
            let c = x[i];
            if '\u{3040}' <= c && c <= '\u{9FFF}' {
                assert(is_japanese_char(value@[i as int]));
                return SearchType::Japanese;
            }
            i = i + 1;
        }
        SearchType::English
    }
}

impl<'a> vstd::std_specs::convert::FromSpecImpl<&'a str> for SearchType {
    open spec fn obeys_from_spec() -> bool {
        true
    }

    open spec fn from_spec(value: &'a str) -> SearchType {
        search_type_of(value@)
    }
}

/// How well a word's English meanings answer an English query: 0 when the
/// first meaning contains it, 1 when a later one does.
pub open spec fn english_priority(w: WordView, q: Seq<char>) -> Option<u8> {
    if w.english_meaning.len() > 0 && contains(w.english_meaning[0], q) {
        Some(0)
    } else if any_contains(w.english_meaning, q) {
        Some(1)
    } else {
        None
    }
}

/// How well a word's kanji spellings answer a Japanese query: 0 when the
/// first spelling is the query, 1 when some spelling contains it.
pub open spec fn japanese_priority(w: WordView, q: Seq<char>) -> Option<u8> {
    match w.kanji {
        Some(k) => if k.len() > 0 && k[0] == q {
            Some(0)
        } else if any_contains(k, q) {
            Some(1)
        } else {
            None
        },
        None => None,
    }
}

impl JpToEnglishWord {
    /// Prioritize by:
    /// 1. First english definition: If the first english definition contains the search query it is prioritized
    /// 2. Then if the list of english meanings contains to search query
    /// 3. None: no priority
    pub fn english_definition_priority(&self, query: &str) -> (r: Option<u8>)
        ensures
            r == english_priority(self@, query@),
    {
        let first_containing_definition = self.english_meaning.len() > 0 && str_contains(
            self.english_meaning[0].as_str(),
            query,
        );
        let partial_match = list_any_contains(&self.english_meaning, query);
        if first_containing_definition {
            Some(0)
        } else if partial_match {
            Some(1)
        } else {
            None
        }
    }

    /// Prioritize by:
    /// 1. Exact kanji search match
    /// 2. Then if a word contains the search query
    /// 3. None: no priority
    pub fn japanese_dictionary_form_priority(&self, query: &str) -> (r: Option<u8>)
        ensures
            r == japanese_priority(self@, query@),
    {
        match &self.kanji {
            Some(k) => {
                let exact_match = k.len() > 0 && str_eq(k[0].as_str(), query);
                let partial_match = list_any_contains(k, query);
                if exact_match {
                    Some(0)
                } else if partial_match {
                    Some(1)
                } else {
                    None
                }
            },
            None => None,
        }
    }
}


/// The word holds the (lowercased) query in one of its English meanings.
pub open spec fn english_matches(w: WordView, lower: Seq<char>) -> bool {
    any_contains(w.english_meaning, lower)
}

/// The word holds the query in one of its kanji spellings or kana readings.
pub open spec fn japanese_matches(w: WordView, q: Seq<char>) -> bool {
    (w.kanji matches Some(k) && any_contains(k, q)) || any_contains(w.kana_reading, q)
}

/// The word answers the query: in its meanings for an English query
/// (compared with the lowercased query), in its spellings and readings for a
/// Japanese one.
pub open spec fn word_matches(w: WordView, q: Seq<char>, lower: Seq<char>) -> bool {
    match search_type_of(q) {
        SearchType::English => english_matches(w, lower),
        SearchType::Japanese => japanese_matches(w, q),
    }
}

/// The smallest rank among the tags, or `NO_PRIORITY` when there is none.
pub open spec fn best_rank(fs: Seq<UseFrequency>) -> int
    decreases fs.len(),
{
    if fs.len() == 0 {
        NO_PRIORITY as int
    } else {
        let r = best_rank(fs.drop_last());
        let p = priority_rank(fs.last());
        if p < r {
            p
        } else {
            r
        }
    }
}

/// The band of the first news-frequency tag, or `NO_PRIORITY` when there is
/// none.
pub open spec fn first_news_band(fs: Seq<UseFrequency>) -> int
    decreases fs.len(),
{
    if fs.len() == 0 {
        NO_PRIORITY as int
    } else {
        match fs[0] {
            UseFrequency::NewsFrequency(n) => n as int,
            _ => first_news_band(fs.skip(1)),
        }
    }
}

/// How common a word is, compared first by its best rank and then by its
/// news-frequency band; a word without tags comes last.
pub open spec fn frequency_key(w: WordView) -> (int, int) {
    match w.use_frequency {
        Some(f) => (best_rank(f), first_news_band(f)),
        None => (NO_PRIORITY as int, NO_PRIORITY as int),
    }
}

/// A definition priority as a rank: `Some(0)` before `Some(1)`, and a word
/// with no priority (`None`) after every word that has one.
pub open spec fn option_rank(o: Option<u8>) -> int {
    match o {
        Some(k) => k as int,
        None => 256,
    }
}

/// How well the word's definition answers the query, by the query's language.
pub open spec fn definition_rank(w: WordView, q: Seq<char>) -> int {
    match search_type_of(q) {
        SearchType::English => option_rank(english_priority(w, q)),
        SearchType::Japanese => option_rank(japanese_priority(w, q)),
    }
}

/// The `i`-th word comes before the `j`-th in the results: by definition rank,
/// then by frequency, then by position in the dictionary.
pub open spec fn comes_before(words: Seq<WordView>, q: Seq<char>, i: int, j: int) -> bool {
    let a = definition_rank(words[i], q);
    let b = definition_rank(words[j], q);
    let fa = frequency_key(words[i]);
    let fb = frequency_key(words[j]);
    ||| a < b
    ||| a == b && fa.0 < fb.0
    ||| a == b && fa.0 == fb.0 && fa.1 < fb.1
    ||| a == b && fa.0 == fb.0 && fa.1 == fb.1 && i < j
}

/// `order` lists the positions of exactly the words that answer the query,
/// each once, in the order in which they are to be shown.
pub open spec fn is_search_order(
    words: Seq<WordView>,
    q: Seq<char>,
    lower: Seq<char>,
    order: Seq<int>,
) -> bool {
    &&& forall|k: int| 0 <= k < order.len() ==> 0 <= #[trigger] order[k] < words.len()
    &&& forall|i: int|
        0 <= i < words.len() ==> (word_matches(words[i], q, lower) <==> order.contains(i))
    &&& forall|k: int, l: int|
        0 <= k < l < order.len() ==> comes_before(words, q, #[trigger] order[k], #[trigger] order[l])
}

/// Every tag has a rank that fits in a `u8`.
pub open spec fn all_fit(fs: Seq<UseFrequency>) -> bool {
    forall|k: int| 0 <= k < fs.len() ==> priority_fits(#[trigger] fs[k])
}

/// Every frequency tag of the word has a rank that fits in a `u8`.
pub open spec fn frequencies_fit(w: WordView) -> bool {
    match w.use_frequency {
        Some(f) => all_fit(f),
        None => true,
    }
}

/// Two different words answer the non-empty query `q`.
pub open spec fn several_match(words: Seq<WordView>, q: Seq<char>, lower: Seq<char>) -> bool {
    q.len() > 0 && exists|i: int, j: int|
        0 <= i < j < words.len() && word_matches(#[trigger] words[i], q, lower) && word_matches(
            #[trigger] words[j],
            q,
            lower,
        )
}

/// When two or more words answer a non-empty query, every answering word
/// has frequency ranks that fit in a `u8`, so that ranking them cannot
/// overflow. (A single answer is never ranked.)
pub open spec fn search_fits(words: Seq<WordView>, q: Seq<char>, lower: Seq<char>) -> bool {
    several_match(words, q, lower) ==> forall|i: int|
        0 <= i < words.len() && word_matches(words[i], q, lower) ==> frequencies_fit(
            #[trigger] words[i],
        )
}

/// What a search for `q` (lowercased: `lower`) gives: nothing for an empty
/// query or when no word answers it; otherwise the answering words, each
/// once, in the order that `is_search_order` fixes.
pub open spec fn search_result(
    words: Seq<JpToEnglishWord>,
    q: Seq<char>,
    lower: Seq<char>,
    r: Option<Vec<&JpToEnglishWord>>,
) -> bool {
    &&& r is Some <==> (q.len() > 0 && exists|i: int|
        0 <= i < words.len() && word_matches(#[trigger] words_view(words)[i], q, lower))
    &&& r matches Some(v) ==> exists|order: Seq<int>|
        is_search_order(words_view(words), q, lower, order) && order.len() == v@.len()
            && forall|k: int| 0 <= k < order.len() ==> *v@[k] == words[#[trigger] order[k]]
}


/// The ranks of a word's results order, packed in one number: definition
/// rank, then best frequency rank, then news-frequency band.
spec fn search_key_code(w: WordView, q: Seq<char>) -> int {
    definition_rank(w, q) * 65536 + frequency_key(w).0 * 256 + frequency_key(w).1
}

/// A packed key and a position: by key, then by position.
spec fn key_pair_before(x: (u32, usize), y: (u32, usize)) -> bool {
    x.0 < y.0 || (x.0 == y.0 && x.1 < y.1)
}

/// The best rank lies between 0 and `NO_PRIORITY`.
proof fn lemma_best_rank_bounds(fs: Seq<UseFrequency>)
    ensures
        0 <= best_rank(fs) <= 255,
    decreases fs.len(),
{
    if fs.len() > 0 {
        lemma_best_rank_bounds(fs.drop_last());
    }
}

/// The news-frequency band lies between 0 and `NO_PRIORITY`.
proof fn lemma_first_news_band_bounds(fs: Seq<UseFrequency>)
    ensures
        0 <= first_news_band(fs) <= 255,
    decreases fs.len(),
{
    if fs.len() > 0 {
        lemma_first_news_band_bounds(fs.skip(1));
    }
}

/// Packed keys compare as the ranks do.
proof fn lemma_key_code_order(words: Seq<WordView>, q: Seq<char>, i: int, j: int)
    requires
        0 <= i < words.len(),
        0 <= j < words.len(),
    ensures
        comes_before(words, q, i, j) <==> (search_key_code(words[i], q) < search_key_code(
            words[j],
            q,
        ) || (search_key_code(words[i], q) == search_key_code(words[j], q) && i < j)),
{
    match words[i].use_frequency {
        Some(f) => {
            lemma_best_rank_bounds(f);
            lemma_first_news_band_bounds(f);
        },
        None => {},
    }
    match words[j].use_frequency {
        Some(f) => {
            lemma_best_rank_bounds(f);
            lemma_first_news_band_bounds(f);
        },
        None => {},
    }
    let a = definition_rank(words[i], q);
    let b = definition_rank(words[j], q);
    assert(0 <= a <= 256 && 0 <= b <= 256);
}

/// `s` is ordered by `key_pair_before`, each element before every later one.
spec fn strictly_sorted(s: Seq<(u32, usize)>) -> bool {
    forall|a: int, b: int| 0 <= a < b < s.len() ==> key_pair_before(#[trigger] s[a], #[trigger] s[b])
}

/// Some element of `s` carries the position `p`.
spec fn has_position(s: Seq<(u32, usize)>, p: int) -> bool {
    exists|a: int| 0 <= a < s.len() && s[a].1 == p
}

/// No two elements of `s` carry the same position.
spec fn distinct_positions(s: Seq<(u32, usize)>) -> bool {
    forall|a: int, b: int| 0 <= a < b < s.len() ==> (#[trigger] s[a]).1 != (#[trigger] s[b]).1
}

/// Merges two sorted lists whose positions are all different.
fn merge_keyed(x: Vec<(u32, usize)>, y: Vec<(u32, usize)>) -> (r: Vec<(u32, usize)>)
    requires
        strictly_sorted(x@),
        strictly_sorted(y@),
        forall|a: int, b: int|
            0 <= a < x@.len() && 0 <= b < y@.len() ==> (#[trigger] x@[a]).1 != (#[trigger] y@[b]).1,
    ensures
        strictly_sorted(r@),
        forall|e: (u32, usize)| r@.contains(e) <==> (x@.contains(e) || y@.contains(e)),
{
    broadcast use vstd::seq_lib::group_seq_properties;

    let mut out: Vec<(u32, usize)> = Vec::new();
    let mut i: usize = 0;
    let mut j: usize = 0;
    while i < x.len() || j < y.len()
        invariant
            strictly_sorted(x@),
            strictly_sorted(y@),
            forall|a: int, b: int|
                0 <= a < x@.len() && 0 <= b < y@.len() ==> (#[trigger] x@[a]).1 != (
                #[trigger] y@[b]).1,
            i <= x@.len(),
            j <= y@.len(),
            out@.len() == i + j,
            strictly_sorted(out@),
            forall|e: (u32, usize)|
                out@.contains(e) <==> (x@.take(i as int).contains(e) || y@.take(j as int).contains(
                    e,
                )),
            out@.len() > 0 && i < x@.len() ==> key_pair_before(out@.last(), x@[i as int]),
            out@.len() > 0 && j < y@.len() ==> key_pair_before(out@.last(), y@[j as int]),
        decreases x@.len() + y@.len() - i - j,
    {
        let take_x = if i < x.len() && j < y.len() {
            let a = x[i];
            let b = y[j];
            a.0 < b.0 || (a.0 == b.0 && a.1 < b.1)
        } else {
            i < x.len()
        };
        let ghost before = out@;
        if take_x {
            let e = x[i];
            out.push(e);
            proof {
                assert(x@.take(i + 1) =~= x@.take(i as int).push(e));
                assert forall|f: (u32, usize)| out@.contains(f) <==> (x@.take(i + 1).contains(f)
                    || y@.take(j as int).contains(f)) by {
                    assert(out@ == before.push(e));
                    vstd::seq_lib::lemma_seq_contains_after_push(before, e, f);
                    vstd::seq_lib::lemma_seq_contains_after_push(x@.take(i as int), e, f);
                }
                assert forall|a: int, b: int|
                    0 <= a < b < out@.len() implies key_pair_before(
                    #[trigger] out@[a],
                    #[trigger] out@[b],
                ) by {
                    if b == before.len() && a < b - 1 {
                        assert(key_pair_before(before[a], before.last()));
                    }
                }
                if i + 1 < x@.len() {
                    assert(key_pair_before(x@[i as int], x@[i + 1]));
                }
                if j < y@.len() {
                    assert(x@[i as int].1 != y@[j as int].1);
                }
            }
            i = i + 1;
        } else {
            let e = y[j];
            out.push(e);
            proof {
                assert(y@.take(j + 1) =~= y@.take(j as int).push(e));
                assert forall|f: (u32, usize)| out@.contains(f) <==> (x@.take(i as int).contains(f)
                    || y@.take(j + 1).contains(f)) by {
                    assert(out@ == before.push(e));
                    vstd::seq_lib::lemma_seq_contains_after_push(before, e, f);
                    vstd::seq_lib::lemma_seq_contains_after_push(y@.take(j as int), e, f);
                }
                assert forall|a: int, b: int|
                    0 <= a < b < out@.len() implies key_pair_before(
                    #[trigger] out@[a],
                    #[trigger] out@[b],
                ) by {
                    if b == before.len() && a < b - 1 {
                        assert(key_pair_before(before[a], before.last()));
                    }
                }
                if j + 1 < y@.len() {
                    assert(key_pair_before(y@[j as int], y@[j + 1]));
                }
                if i < x@.len() {
                    assert(x@[i as int].1 != y@[j as int].1);
                }
            }
            j = j + 1;
        }
    }
    assert(x@.take(x@.len() as int) =~= x@);
    assert(y@.take(y@.len() as int) =~= y@);
    out
}

/// Sorts a list whose positions are all different by `key_pair_before`.
fn sort_keyed(v: Vec<(u32, usize)>) -> (r: Vec<(u32, usize)>)
    requires
        distinct_positions(v@),
    ensures
        strictly_sorted(r@),
        forall|e: (u32, usize)| r@.contains(e) <==> v@.contains(e),
    decreases v@.len(),
{
    broadcast use vstd::seq_lib::group_seq_properties;

    let n = v.len();
    if n <= 1 {
        return v;
    }
    let mid = n / 2;
    let mut left: Vec<(u32, usize)> = Vec::new();
    let mut right: Vec<(u32, usize)> = Vec::new();
    let mut k: usize = 0;
    while k < n
        invariant
            n == v@.len(),
            mid <= n,
            k <= n,
            left@ == v@.take(if k < mid {
                k as int
            } else {
                mid as int
            }),
            right@ == (if k < mid {
                Seq::<(u32, usize)>::empty()
            } else {
                v@.subrange(mid as int, k as int)
            }),
        decreases n - k,
    {
        if k < mid {
            left.push(v[k]);
            assert(v@.take(k + 1) =~= v@.take(k as int).push(v@[k as int]));
        } else {
            right.push(v[k]);
            assert(v@.subrange(mid as int, k + 1) =~= v@.subrange(mid as int, k as int).push(
                v@[k as int],
            ));
        }
        k = k + 1;
    }
    assert(v@ =~= left@ + right@);
    let ghost lv = left@;
    let ghost rv = right@;
    assert(distinct_positions(lv)) by {
        assert forall|a: int, b: int| 0 <= a < b < lv.len() implies (#[trigger] lv[a]).1 != (
        #[trigger] lv[b]).1 by {
            assert(lv[a] == v@[a] && lv[b] == v@[b]);
        }
    }
    assert(distinct_positions(rv)) by {
        assert forall|a: int, b: int| 0 <= a < b < rv.len() implies (#[trigger] rv[a]).1 != (
        #[trigger] rv[b]).1 by {
            assert(rv[a] == v@[mid + a] && rv[b] == v@[mid + b]);
        }
    }
    let sl = sort_keyed(left);
    let sr = sort_keyed(right);
    proof {
        assert forall|a: int, b: int|
            0 <= a < sl@.len() && 0 <= b < sr@.len() implies (#[trigger] sl@[a]).1 != (
            #[trigger] sr@[b]).1 by {
            assert(sl@.contains(sl@[a]));
            assert(sr@.contains(sr@[b]));
            let p = choose|p: int| 0 <= p < lv.len() && lv[p] == sl@[a];
            let q = choose|q: int| 0 <= q < rv.len() && rv[q] == sr@[b];
            assert(v@[p] == lv[p]);
            assert(v@[mid + q] == rv[q]);
        }
    }
    merge_keyed(sl, sr)
}

/// The lowercase form of a string, as `str::to_lowercase` computes it.
pub uninterp spec fn lowercase(s: Seq<char>) -> Seq<char>;

/// Calls `str::to_lowercase`. Claims only that the result's characters are
/// a function of the argument's characters, named `lowercase`; what that
/// function does to each character (Unicode case mapping) is left unsaid.
#[verifier::external_body]
fn to_lowercase(s: &str) -> (r: String)
    ensures
        r@ == lowercase(s@),
{
    s.to_lowercase()
}

impl JpToEnglishWord {
    /// Whether the word answers the query (see `word_matches`).
    fn matches_query(&self, search_type: &SearchType, query: &str, query_lower: &str) -> (r:
        bool)
        requires
            *search_type == search_type_of(query@),
        ensures
            r == word_matches(self@, query@, query_lower@),
    {
        match search_type {
            SearchType::English => list_any_contains(&self.english_meaning, query_lower),
            SearchType::Japanese => {
                let in_kanji = match &self.kanji {
                    Some(k) => list_any_contains(k, query),
                    None => false,
                };
                in_kanji || list_any_contains(&self.kana_reading, query)
            },
        }
    }

    /// Whether every frequency tag has a rank that fits in a `u8`.
    fn frequencies_fit(&self) -> (r: bool)
        ensures
            r == frequencies_fit(self@),
    {
        match &self.use_frequency {
            None => true,
            Some(freqs) => {
                assert(self@.use_frequency == Some(freqs@));
                let mut i: usize = 0;
                while i < freqs.len()
                    invariant
                        self@.use_frequency == Some(freqs@),
                        i <= freqs@.len(),
                        forall|k: int| 0 <= k < i ==> priority_fits(#[trigger] freqs@[k]),
                    decreases freqs@.len() - i,
                {
                    if let UseFrequency::NewsFrequency(n) = freqs[i] {
                        if n > 249 {
                            assert(!priority_fits(freqs@[i as int]));
                            assert(!all_fit(freqs@));
                            return false;
                        }
                    }
                    i = i + 1;
                }
                true
            },
        }
    }

    /// The word's frequency key (see `frequency_key`).
    fn frequency_ranks(&self) -> (r: (u8, u8))
        requires
            frequencies_fit(self@),
        ensures
            r.0 as int == frequency_key(self@).0,
            r.1 as int == frequency_key(self@).1,
    {
        match &self.use_frequency {
            None => (NO_PRIORITY, NO_PRIORITY),
            Some(freqs) => {
                assert(self@.use_frequency == Some(freqs@));
                let mut primary: u8 = NO_PRIORITY;
                let mut nf: u8 = NO_PRIORITY;
                let mut found = false;
                let mut i: usize = 0;
                assert(freqs@.take(0) =~= Seq::<UseFrequency>::empty());
                assert(freqs@.skip(0) =~= freqs@);
                while i < freqs.len()
                    invariant
                        self@.use_frequency == Some(freqs@),
                        i <= freqs@.len(),
                        all_fit(freqs@),
                        primary as int == best_rank(freqs@.take(i as int)),
                        found ==> first_news_band(freqs@) == nf as int,
                        !found ==> first_news_band(freqs@) == first_news_band(freqs@.skip(i as int)),
                        !found ==> nf == NO_PRIORITY,
                    decreases freqs@.len() - i,
                {
                    let p = freqs[i].priority();
                    assert(freqs@.take(i + 1).drop_last() =~= freqs@.take(i as int));
                    if p < primary {
                        primary = p;
                    }
                    if !found {
                        assert(freqs@.skip(i as int).skip(1) =~= freqs@.skip(i + 1));
                        if let UseFrequency::NewsFrequency(n) = freqs[i] {
                            nf = n;
                            found = true;
                        }
                    }
                    i = i + 1;
                }
                assert(freqs@.take(freqs@.len() as int) =~= freqs@);
                assert(freqs@.skip(freqs@.len() as int) =~= Seq::<UseFrequency>::empty());
                (primary, nf)
            },
        }
    }

    /// The word's packed results-order key (see `search_key_code`).
    fn search_key(&self, search_type: &SearchType, query: &str) -> (r: u32)
        requires
            *search_type == search_type_of(query@),
            frequencies_fit(self@),
        ensures
            r as int == search_key_code(self@, query@),
    {
        let definition = match search_type {
            SearchType::English => self.english_definition_priority(query),
            SearchType::Japanese => self.japanese_dictionary_form_priority(query),
        };
        let rank: u32 = match definition {
            Some(k) => k as u32,
            None => 256,
        };
        let (primary, nf) = self.frequency_ranks();
        rank * 65536 + (primary as u32) * 256 + (nf as u32)
    }
}

impl JpToEnglishDictionary {
    /// Search through dictionary
    /// 1. Determines the kind of search: Japanese | English
    /// 2. Filters results containing the search query
    /// 3. Sorts by key: If contains frequency: Sort by frequency otherwise give lowest priority
    /// 4. Sorts by priority of use frequency
    /// 5. Sorts by english definition priority: If there is one
    /// 6. Sorts by Japanese dictionary priority: If there is one
    ///
    /// A word without a definition priority comes after every word that has
    /// one; exact matches come first.
    /// Returns: Vector of &JapaneseWord pertaining to the search query
    pub fn search(&self, query: &str) -> (r: Option<Vec<&JpToEnglishWord>>)
        requires
            search_fits(self@, query@, lowercase(query@)),
        ensures
            search_result(self.words@, query@, lowercase(query@), r),
    {
        let query_lower = to_lowercase(query);
        self.search_lowered(query, query_lower.as_str())
    }

    /// Searches as `search` does, checking first that ranking the answering
    /// words cannot overflow: `None` when two or more words answer the query
    /// and one of them carries a news-frequency band above 249, else what
    /// `search` gives.
    pub fn checked_search(&self, query: &str) -> (r: Option<Option<Vec<&JpToEnglishWord>>>)
        ensures
            r is Some <==> search_fits(self@, query@, lowercase(query@)),
            r matches Some(res) ==> search_result(self.words@, query@, lowercase(query@), res),
    {
        let query_lower = to_lowercase(query);
        if query.is_empty() {
            return Some(self.search(query));
        }
        let search_type = SearchType::from(query);
        let ghost lower = lowercase(query@);
        let ghost words = self@;
        let mut first: Option<usize> = None;
        let mut several = false;
        let mut unfit = false;
        let mut i: usize = 0;
        while i < self.words.len()
            invariant
                i <= self.words@.len(),
                words == self@,
                query_lower@ == lower,
                query@.len() > 0,
                search_type == search_type_of(query@),
                several ==> several_match(words, query@, lower),
                !several ==> match first {
                    None => forall|j: int|
                        0 <= j < i ==> !word_matches(#[trigger] words[j], query@, lower),
                    Some(a) => a < i && word_matches(words[a as int], query@, lower) && forall|
                        j: int,
                    | 0 <= j < i && word_matches(#[trigger] words[j], query@, lower) ==> j == a,
                },
                unfit <==> exists|j: int|
                    0 <= j < i && word_matches(#[trigger] words[j], query@, lower)
                        && !frequencies_fit(words[j]),
            decreases self.words@.len() - i,
        {
            assert(words[i as int] == self.words@[i as int]@);
            if self.words[i].matches_query(&search_type, query, query_lower.as_str()) {
                if let Some(a) = first {
                    proof {
                        if !several {
                            assert(word_matches(words[a as int], query@, lower));
                            assert(word_matches(words[i as int], query@, lower));
                        }
                    }
                    several = true;
                } else {
                    first = Some(i);
                }
                if !self.words[i].frequencies_fit() {
                    unfit = true;
                }
            }
            i = i + 1;
        }
        if several && unfit {
            return None;
        }
        proof {
            if !several && several_match(words, query@, lower) {
                let (p, q) = choose|p: int, q: int|
                    0 <= p < q < words.len() && word_matches(#[trigger] words[p], query@, lower)
                        && word_matches(#[trigger] words[q], query@, lower);
                assert(word_matches(words[p], query@, lower));
                assert(word_matches(words[q], query@, lower));
            }
        }
        Some(self.search(query))
    }

    /// The positions of the words that answer the query, in increasing order.
    fn matching_positions(&self, search_type: &SearchType, query: &str, query_lower: &str) -> (r:
        Vec<usize>)
        requires
            *search_type == search_type_of(query@),
        ensures
            forall|a: int, b: int| 0 <= a < b < r@.len() ==> #[trigger] r@[a] < #[trigger] r@[b],
            forall|a: int|
                0 <= a < r@.len() ==> #[trigger] r@[a] < self@.len() && word_matches(
                    self@[r@[a] as int],
                    query@,
                    query_lower@,
                ),
            forall|j: int|
                0 <= j < self@.len() && word_matches(#[trigger] self@[j], query@, query_lower@)
                    ==> exists|a: int| 0 <= a < r@.len() && r@[a] == j,
    {
        let ghost words = self@;
        let n = self.words.len();
        let mut matched: Vec<usize> = Vec::new();
        let mut i: usize = 0;
        while i < n
            invariant
                n == self.words@.len(),
                words == self@,
                words.len() == n,
                search_type == search_type_of(query@),
                i <= n,
                forall|a: int, b: int|
                    0 <= a < b < matched@.len() ==> #[trigger] matched@[a] < #[trigger] matched@[b],
                forall|a: int|
                    0 <= a < matched@.len() ==> #[trigger] matched@[a] < i && word_matches(
                        words[matched@[a] as int],
                        query@,
                        query_lower@,
                    ),
                forall|j: int|
                    0 <= j < i && word_matches(#[trigger] words[j], query@, query_lower@)
                        ==> exists|a: int| 0 <= a < matched@.len() && matched@[a] == j,
            decreases n - i,
        {
            assert(words[i as int] == self.words@[i as int]@);
            if self.words[i].matches_query(&search_type, query, query_lower) {
                let ghost before = matched@;
                matched.push(i);
                proof {
                    assert forall|j: int|
                        0 <= j < i + 1 && word_matches(#[trigger] words[j], query@, query_lower@)
                            implies exists|a: int| 0 <= a < matched@.len() && matched@[a] == j by {
                        if j == i {
                            assert(matched@[before.len() as int] == j);
                        } else {
                            let a = choose|a: int| 0 <= a < before.len() && before[a] == j;
                            assert(matched@[a] == j);
                        }
                    }
                }
            }
            i = i + 1;
        }
        matched
    }

    /// Each given position with its packed key, in the given order.
    fn keys_for(&self, search_type: &SearchType, query: &str, matched: &Vec<usize>) -> (items:
        Vec<(u32, usize)>)
        requires
            *search_type == search_type_of(query@),
            forall|a: int| 0 <= a < matched@.len() ==> #[trigger] matched@[a] < self@.len(),
            forall|c: int|
                0 <= c < matched@.len() ==> frequencies_fit(#[trigger] self@[matched@[c] as int]),
        ensures
            items@.len() == matched@.len(),
            forall|a: int|
                0 <= a < items@.len() ==> (#[trigger] items@[a]).1 == matched@[a]
                    && items@[a].0 as int == search_key_code(self@[matched@[a] as int], query@),
    {
        let ghost words = self@;
        let n = self.words.len();
        let mut items: Vec<(u32, usize)> = Vec::new();
        let mut k: usize = 0;
        while k < matched.len()
            invariant
                n == self.words@.len(),
                words == self@,
                search_type == search_type_of(query@),
                k <= matched@.len(),
                items@.len() == k,
                forall|c: int|
                    0 <= c < matched@.len() ==> frequencies_fit(#[trigger] words[matched@[c] as int]),
                forall|a: int| 0 <= a < matched@.len() ==> #[trigger] matched@[a] < n,
                forall|a: int|
                    0 <= a < k ==> (#[trigger] items@[a]).1 == matched@[a] && items@[a].0 as int
                        == search_key_code(words[matched@[a] as int], query@),
            decreases matched@.len() - k,
        {
            let idx = matched[k];
            assert(words[idx as int] == self.words@[idx as int]@);
            let key = self.words[idx].search_key(&search_type, query);
            items.push((key, idx));
            k = k + 1;
        }
        items
    }

    /// The given positions with their packed keys, sorted by key and then by
    /// position.
    fn sorted_keys(&self, search_type: &SearchType, query: &str, matched: &Vec<usize>) -> (keyed:
        Vec<(u32, usize)>)
        requires
            *search_type == search_type_of(query@),
            forall|a: int, b: int|
                0 <= a < b < matched@.len() ==> #[trigger] matched@[a] < #[trigger] matched@[b],
            forall|a: int| 0 <= a < matched@.len() ==> #[trigger] matched@[a] < self@.len(),
            forall|c: int|
                0 <= c < matched@.len() ==> frequencies_fit(#[trigger] self@[matched@[c] as int]),
        ensures
            strictly_sorted(keyed@),
            forall|a: int|
                0 <= a < keyed@.len() ==> (#[trigger] keyed@[a]).0 as int == search_key_code(
                    self@[keyed@[a].1 as int],
                    query@,
                ) && matched@.contains(keyed@[a].1),
            forall|b: int| 0 <= b < matched@.len() ==> has_position(keyed@, #[trigger] matched@[b] as int),
    {
        let items = self.keys_for(search_type, query, matched);
        assert forall|a: int, b: int|
            0 <= a < b < items@.len() implies (#[trigger] items@[a]).1 != (#[trigger] items@[b]).1 by {
            assert(matched@[a] < matched@[b]);
        }
        let ghost unsorted = items@;
        let keyed = sort_keyed(items);
        assert forall|a: int| 0 <= a < keyed@.len() implies (#[trigger] keyed@[a]).0 as int
            == search_key_code(self@[keyed@[a].1 as int], query@) && matched@.contains(
            keyed@[a].1,
        ) by {
            assert(keyed@.contains(keyed@[a]));
            let c = choose|c: int| 0 <= c < unsorted.len() && unsorted[c] == keyed@[a];
            assert(unsorted[c].1 == matched@[c]);
        }
        assert forall|b: int| 0 <= b < matched@.len() implies has_position(
            keyed@,
            #[trigger] matched@[b] as int,
        ) by {
            assert(unsorted[b].1 == matched@[b]);
            assert(unsorted.contains(unsorted[b]));
            let a = choose|a: int| 0 <= a < keyed@.len() && keyed@[a] == unsorted[b];
            assert(keyed@[a].1 == matched@[b]);
        }
        keyed
    }

    /// The answering positions with their packed keys, sorted by key and
    /// then by position (a single answer is not ranked).
    fn ranked_positions(
        &self,
        search_type: &SearchType,
        query: &str,
        query_lower: &str,
        matched: &Vec<usize>,
    ) -> (keyed: Vec<(u32, usize)>)
        requires
            *search_type == search_type_of(query@),
            query@.len() > 0,
            search_fits(self@, query@, query_lower@),
            forall|a: int, b: int|
                0 <= a < b < matched@.len() ==> #[trigger] matched@[a] < #[trigger] matched@[b],
            forall|a: int|
                0 <= a < matched@.len() ==> #[trigger] matched@[a] < self@.len() && word_matches(
                    self@[matched@[a] as int],
                    query@,
                    query_lower@,
                ),
            forall|j: int|
                0 <= j < self@.len() && word_matches(#[trigger] self@[j], query@, query_lower@)
                    ==> exists|a: int| 0 <= a < matched@.len() && matched@[a] == j,
        ensures
            strictly_sorted(keyed@),
            keyed@.len() >= 2 ==> forall|a: int|
                0 <= a < keyed@.len() ==> (#[trigger] keyed@[a]).0 as int == search_key_code(
                    self@[keyed@[a].1 as int],
                    query@,
                ),
            forall|a: int|
                0 <= a < keyed@.len() ==> (#[trigger] keyed@[a]).1 < self@.len() && word_matches(
                    self@[keyed@[a].1 as int],
                    query@,
                    query_lower@,
                ),
            forall|j: int|
                0 <= j < self@.len() && word_matches(#[trigger] self@[j], query@, query_lower@)
                    ==> has_position(keyed@, j),
    {
        let ghost words = self@;
        let n = self.words.len();
        let mut keyed: Vec<(u32, usize)> = Vec::new();
        if matched.len() == 1 {
            keyed.push((0, matched[0]));
        } else if matched.len() >= 2 {
            proof {
                let i0 = matched@[0] as int;
                let i1 = matched@[1] as int;
                assert(word_matches(words[i0], query@, query_lower@));
                assert(word_matches(words[i1], query@, query_lower@));
                assert(several_match(words, query@, query_lower@));
            }
            proof {
                assert forall|c: int| 0 <= c < matched@.len() implies frequencies_fit(
                    #[trigger] words[matched@[c] as int],
                ) by {
                    assert(word_matches(words[matched@[c] as int], query@, query_lower@));
                }
            }
            keyed = self.sorted_keys(search_type, query, matched);
        }
        proof {
            if matched@.len() <= 1 {
                assert forall|b: int| 0 <= b < matched@.len() implies has_position(
                    keyed@,
                    #[trigger] matched@[b] as int,
                ) by {
                    assert(keyed@[0].1 == matched@[b]);
                }
                assert forall|a: int| 0 <= a < keyed@.len() implies matched@.contains(
                    (#[trigger] keyed@[a]).1,
                ) by {
                    assert(matched@[0] == keyed@[a].1);
                }
            }
            assert(strictly_sorted(keyed@));
            assert(keyed@.len() >= 2 ==> matched@.len() >= 2);
            assert(keyed@.len() >= 2 ==> forall|a: int|
                0 <= a < keyed@.len() ==> (#[trigger] keyed@[a]).0 as int == search_key_code(
                    words[keyed@[a].1 as int],
                    query@,
                ));
            assert forall|a: int|
                0 <= a < keyed@.len() implies (#[trigger] keyed@[a]).1 < n && word_matches(
                words[keyed@[a].1 as int],
                query@,
                query_lower@,
            ) by {
                assert(matched@.contains(keyed@[a].1));
                let b = choose|b: int| 0 <= b < matched@.len() && matched@[b] == keyed@[a].1;
                assert(matched@[b] < n);
            }
            assert forall|j: int|
                0 <= j < n && word_matches(#[trigger] words[j], query@, query_lower@)
                    implies has_position(keyed@, j) by {
                let b = choose|b: int| 0 <= b < matched@.len() && matched@[b] == j;
                assert(has_position(keyed@, matched@[b] as int));
            }
        }
        keyed
    }

    /// Searches with the query and its lowercase form given (see `search`).
    pub fn search_lowered(&self, query: &str, query_lower: &str) -> (r: Option<
        Vec<&JpToEnglishWord>,
    >)
        requires
            search_fits(self@, query@, query_lower@),
        ensures
            search_result(self.words@, query@, query_lower@, r),
    {
        if query.is_empty() {
            return None;
        }
        let search_type = SearchType::from(query);
        let ghost words = self@;
        assert(query@.len() > 0);
        let n = self.words.len();
        let matched = self.matching_positions(&search_type, query, query_lower);
        let keyed = self.ranked_positions(&search_type, query, query_lower, &matched);
        assert(words == self@);
        if keyed.len() == 0 {
            return None;
        }
        let mut result: Vec<&JpToEnglishWord> = Vec::new();
        let mut k: usize = 0;
        while k < keyed.len()
            invariant
                n == self.words@.len(),
                k <= keyed@.len(),
                result@.len() == k,
                forall|a: int| 0 <= a < keyed@.len() ==> (#[trigger] keyed@[a]).1 < n,
                forall|m: int|
                    0 <= m < k ==> *result@[m] == self.words@[(#[trigger] keyed@[m]).1 as int],
            decreases keyed@.len() - k,
        {
            let idx = keyed[k].1;
            result.push(&self.words[idx]);
            k = k + 1;
        }
        let ghost order = Seq::new(keyed@.len(), |m: int| keyed@[m].1 as int);
        proof {
            assert forall|j: int|
                0 <= j < words.len() implies (word_matches(words[j], query@, query_lower@)
                <==> order.contains(j)) by {
                if word_matches(words[j], query@, query_lower@) {
                    assert(has_position(keyed@, j));
                    let a = choose|a: int| 0 <= a < keyed@.len() && keyed@[a].1 == j;
                    assert(order[a] == j);
                }
                if order.contains(j) {
                    let a = choose|a: int| 0 <= a < order.len() && order[a] == j;
                    assert(keyed@[a].1 == j);
                }
            }
            assert forall|a: int, b: int|
                0 <= a < b < order.len() implies comes_before(
                words,
                query@,
                #[trigger] order[a],
                #[trigger] order[b],
            ) by {
                assert(key_pair_before(keyed@[a], keyed@[b]));
                lemma_key_code_order(words, query@, order[a], order[b]);
            }
            assert(is_search_order(words, query@, query_lower@, order));
            assert(words_view(self.words@) == words);
            assert(forall|k: int|
                0 <= k < order.len() ==> *result@[k] == self.words@[#[trigger] order[k]]);
            let j0 = keyed@[0].1 as int;
            assert(word_matches(words_view(self.words@)[j0], query@, query_lower@));
            assert(exists|order: Seq<int>|
                is_search_order(words_view(self.words@), query@, query_lower@, order)
                    && order.len() == result@.len() && forall|k: int|
                    0 <= k < order.len() ==> *result@[k] == self.words@[#[trigger] order[k]]);
        }
        Some(result)
    }
}

/// The best rank of a word's tags is the least rank among them, and
/// `NO_PRIORITY` when none ranks below it.
pub proof fn lemma_best_rank_is_least(fs: Seq<UseFrequency>)
    ensures
        best_rank(fs) <= NO_PRIORITY,
        forall|k: int| 0 <= k < fs.len() ==> best_rank(fs) <= priority_rank(#[trigger] fs[k]),
        best_rank(fs) == NO_PRIORITY || exists|k: int|
            0 <= k < fs.len() && best_rank(fs) == priority_rank(#[trigger] fs[k]),
    decreases fs.len(),
{
    if fs.len() > 0 {
        let f0 = fs.drop_last();
        lemma_best_rank_is_least(f0);
        assert forall|k: int| 0 <= k < fs.len() implies best_rank(fs) <= priority_rank(
            #[trigger] fs[k],
        ) by {
            if k < f0.len() {
                assert(fs[k] == f0[k]);
            }
        }
        if best_rank(fs) != NO_PRIORITY {
            if best_rank(fs) == priority_rank(fs.last()) {
                assert(fs.last() == fs[fs.len() - 1]);
            } else {
                let k = choose|k: int| 0 <= k < f0.len() && best_rank(f0) == priority_rank(#[trigger] f0[k]);
                assert(fs[k] == f0[k]);
            }
        }
    }
}

/// The news-frequency band of a word's tags is that of the first
/// news-frequency tag among them, and `NO_PRIORITY` when there is none.
pub proof fn lemma_first_news_band_is_first(fs: Seq<UseFrequency>)
    ensures
        (forall|k: int| 0 <= k < fs.len() ==> !(#[trigger] fs[k] is NewsFrequency))
            ==> first_news_band(fs) == NO_PRIORITY,
        forall|k: int|
            0 <= k < fs.len() && #[trigger] fs[k] is NewsFrequency && (forall|j: int|
                0 <= j < k ==> !(#[trigger] fs[j] is NewsFrequency)) ==> first_news_band(fs)
                == fs[k]->NewsFrequency_0,
    decreases fs.len(),
{
    if fs.len() > 0 {
        let t = fs.skip(1);
        lemma_first_news_band_is_first(t);
        if forall|k: int| 0 <= k < fs.len() ==> !(#[trigger] fs[k] is NewsFrequency) {
            assert(!(fs[0] is NewsFrequency));
            assert forall|k: int| 0 <= k < t.len() implies !(#[trigger] t[k] is NewsFrequency) by {
                assert(t[k] == fs[k + 1]);
            }
        }
        assert forall|k: int|
            0 <= k < fs.len() && #[trigger] fs[k] is NewsFrequency && (forall|j: int|
                0 <= j < k ==> !(#[trigger] fs[j] is NewsFrequency)) implies first_news_band(fs)
            == fs[k]->NewsFrequency_0 by {
            if k > 0 {
                assert(!(fs[0] is NewsFrequency));
                assert(t[k - 1] == fs[k]);
                assert forall|j: int| 0 <= j < k - 1 implies !(#[trigger] t[j] is NewsFrequency) by {
                    assert(t[j] == fs[j + 1]);
                }
            }
        }
    }
}

/// Results are ranked first by definition priority: a word whose first
/// definition answers comes before one whose later definition does, and
/// both before a word with no definition priority.
pub proof fn lemma_definition_rank_order(w1: WordView, w2: WordView, q: Seq<char>)
    ensures
        option_rank(Some(0u8)) < option_rank(Some(1u8)) < option_rank(None::<u8>),
        search_type_of(q) == SearchType::English && english_priority(w1, q) is Some
            && english_priority(w2, q) is None ==> definition_rank(w1, q) < definition_rank(w2, q),
        search_type_of(q) == SearchType::English && english_priority(w1, q) == Some(0u8)
            && english_priority(w2, q) == Some(1u8) ==> definition_rank(w1, q) < definition_rank(w2, q),
        search_type_of(q) == SearchType::Japanese && japanese_priority(w1, q) is Some
            && japanese_priority(w2, q) is None ==> definition_rank(w1, q) < definition_rank(w2, q),
        search_type_of(q) == SearchType::Japanese && japanese_priority(w1, q) == Some(0u8)
            && japanese_priority(w2, q) == Some(1u8) ==> definition_rank(w1, q) < definition_rank(w2, q),
{
    lemma_english_priority_meaning(w1, q);
    lemma_english_priority_meaning(w2, q);
    lemma_japanese_priority_meaning(w1, q);
    lemma_japanese_priority_meaning(w2, q);
    if let Some(k) = english_priority(w1, q) {
        assert(k == 0 || k == 1);
    }
    if let Some(k) = japanese_priority(w1, q) {
        assert(k == 0 || k == 1);
    }
}

/// The English definition priority of a word, over its meanings: 0 exactly
/// when the first meaning holds the query anywhere in it, 1 exactly when the
/// first does not but some other meaning does, and none exactly when no
/// meaning holds the query.
pub proof fn lemma_english_priority_meaning(w: WordView, q: Seq<char>)
    ensures
        english_priority(w, q) == Some(0u8) <==> (w.english_meaning.len() > 0 && contains(
            w.english_meaning[0],
            q,
        )),
        english_priority(w, q) == Some(1u8) <==> (!(w.english_meaning.len() > 0 && contains(
            w.english_meaning[0],
            q,
        )) && exists|k: int|
            0 < k < w.english_meaning.len() && contains(#[trigger] w.english_meaning[k], q)),
        english_priority(w, q) is None <==> forall|k: int|
            0 <= k < w.english_meaning.len() ==> !contains(#[trigger] w.english_meaning[k], q),
{
    let m = w.english_meaning;
    if exists|k: int| 0 <= k < m.len() && contains(#[trigger] m[k], q) {
        let k = choose|k: int| 0 <= k < m.len() && contains(#[trigger] m[k], q);
        if !(m.len() > 0 && contains(m[0], q)) {
            assert(k != 0);
        }
    }
}

/// The Japanese dictionary-form priority of a word, over its kanji
/// spellings: 0 exactly when the first spelling is the query, 1 exactly when
/// it is not but some spelling (any one of them) holds the query, and none
/// otherwise, in particular for a word without kanji.
pub proof fn lemma_japanese_priority_meaning(w: WordView, q: Seq<char>)
    ensures
        japanese_priority(w, q) == Some(0u8) <==> (w.kanji matches Some(k) && k.len() > 0 && k[0]
            == q),
        japanese_priority(w, q) == Some(1u8) <==> (w.kanji matches Some(k) && !(k.len() > 0
            && k[0] == q) && exists|i: int| 0 <= i < k.len() && contains(#[trigger] k[i], q)),
        japanese_priority(w, q) is None <==> (w.kanji matches Some(k) ==> forall|i: int|
            0 <= i < k.len() ==> !contains(#[trigger] k[i], q)),
{
    if let Some(k) = w.kanji {
        if k.len() > 0 && k[0] == q {
            assert(occurs_at(k[0], q, 0)) by {
                assert(k[0].subrange(0, q.len() as int) =~= q);
            }
        }
    }
}

/// Which words a query finds: a word answers a Japanese query exactly when
/// one of its kanji spellings or one of its kana readings (any of them)
/// holds the query, and an English query exactly when one of its meanings
/// holds the lowercased query.
pub proof fn lemma_word_matches_meaning(w: WordView, q: Seq<char>, lower: Seq<char>)
    ensures
        search_type_of(q) == SearchType::Japanese ==> (word_matches(w, q, lower) <==> ((
        w.kanji matches Some(k) && exists|i: int| 0 <= i < k.len() && contains(#[trigger] k[i], q))
            || exists|i: int|
            0 <= i < w.kana_reading.len() && contains(#[trigger] w.kana_reading[i], q))),
        search_type_of(q) == SearchType::English ==> (word_matches(w, q, lower) <==> exists|i: int|
            0 <= i < w.english_meaning.len() && contains(#[trigger] w.english_meaning[i], lower)),
{
}

/// A search lists a word exactly when the word answers the query: for a
/// non-empty Japanese query, exactly when one of its kanji spellings or kana
/// readings holds the query; for an English one, exactly when one of its
/// meanings holds the lowercased query.
pub proof fn lemma_search_lists_word(
    words: Seq<JpToEnglishWord>,
    q: Seq<char>,
    lower: Seq<char>,
    r: Option<Vec<&JpToEnglishWord>>,
    i: int,
)
    requires
        search_result(words, q, lower, r),
        q.len() > 0,
        0 <= i < words.len(),
    ensures
        search_type_of(q) == SearchType::Japanese ==> ((match r {
            Some(v) => exists|m: int| 0 <= m < v@.len() && *v@[m] == words[i],
            None => false,
        }) <==> ((words[i]@.kanji matches Some(k) && exists|j: int|
            0 <= j < k.len() && contains(#[trigger] k[j], q)) || exists|j: int|
            0 <= j < words[i]@.kana_reading.len() && contains(
                #[trigger] words[i]@.kana_reading[j],
                q,
            ))),
        search_type_of(q) == SearchType::English ==> ((match r {
            Some(v) => exists|m: int| 0 <= m < v@.len() && *v@[m] == words[i],
            None => false,
        }) <==> exists|j: int|
            0 <= j < words[i]@.english_meaning.len() && contains(
                #[trigger] words[i]@.english_meaning[j],
                lower,
            )),
{
    let wv = words_view(words);
    assert(wv[i] == words[i]@);
    lemma_word_matches_meaning(words[i]@, q, lower);
    let listed = match r {
        Some(v) => exists|m: int| 0 <= m < v@.len() && *v@[m] == words[i],
        None => false,
    };
    if word_matches(wv[i], q, lower) {
        let v = r->0;
        let o = choose|o: Seq<int>|
            is_search_order(wv, q, lower, o) && o.len() == v@.len() && forall|k: int|
                0 <= k < o.len() ==> *v@[k] == words[#[trigger] o[k]];
        assert(o.contains(i));
        let m = choose|m: int| 0 <= m < o.len() && o[m] == i;
        assert(*v@[m] == words[o[m]]);
        assert(listed);
    }
    if listed {
        let v = r->0;
        let o = choose|o: Seq<int>|
            is_search_order(wv, q, lower, o) && o.len() == v@.len() && forall|k: int|
                0 <= k < o.len() ==> *v@[k] == words[#[trigger] o[k]];
        let m = choose|m: int| 0 <= m < v@.len() && *v@[m] == words[i];
        assert(*v@[m] == words[o[m]]);
        assert(o.contains(o[m]));
        assert(0 <= o[m] < wv.len());
        assert(wv[o[m]] == words[o[m]]@);
        assert(word_matches(wv[o[m]], q, lower));
    }
}

/// A search has one answer: two orders that both meet `is_search_order` for
/// the same words and query are the same order.
pub proof fn lemma_search_order_unique(
    words: Seq<WordView>,
    q: Seq<char>,
    lower: Seq<char>,
    o1: Seq<int>,
    o2: Seq<int>,
)
    requires
        is_search_order(words, q, lower, o1),
        is_search_order(words, q, lower, o2),
    ensures
        o1 == o2,
{
    let m = if o1.len() < o2.len() {
        o1.len()
    } else {
        o2.len()
    };
    lemma_orders_agree(words, q, lower, o1, o2, m as int);
    if o1.len() > o2.len() {
        let x = o1[o2.len() as int];
        assert(o1.contains(x));
        assert(o2.contains(x));
        let a = choose|a: int| 0 <= a < o2.len() && o2[a] == x;
        assert(o1[a] == x);
        assert(comes_before(words, q, o1[a], o1[o2.len() as int]));
    } else if o2.len() > o1.len() {
        let x = o2[o1.len() as int];
        assert(o2.contains(x));
        assert(o1.contains(x));
        let a = choose|a: int| 0 <= a < o1.len() && o1[a] == x;
        assert(o2[a] == x);
        assert(comes_before(words, q, o2[a], o2[o1.len() as int]));
    }
    assert(o1 =~= o2);
}

/// A search order lists every answering word exactly once and no other
/// word, and a search that finds something finds at least one word.
pub proof fn lemma_search_lists_each_match_once(
    words: Seq<JpToEnglishWord>,
    q: Seq<char>,
    lower: Seq<char>,
    r: Option<Vec<&JpToEnglishWord>>,
    order: Seq<int>,
)
    requires
        search_result(words, q, lower, r),
        is_search_order(words_view(words), q, lower, order),
    ensures
        forall|k: int, l: int| 0 <= k < l < order.len() ==> order[k] != order[l],
        forall|k: int|
            0 <= k < order.len() ==> word_matches(words_view(words)[#[trigger] order[k]], q, lower),
        r matches Some(v) ==> v@.len() > 0,
{
    let wv = words_view(words);
    assert forall|k: int, l: int| 0 <= k < l < order.len() implies order[k] != order[l] by {
        assert(comes_before(wv, q, order[k], order[l]));
    }
    assert forall|k: int| 0 <= k < order.len() implies word_matches(
        wv[#[trigger] order[k]],
        q,
        lower,
    ) by {
        assert(order.contains(order[k]));
    }
    if let Some(v) = r {
        let i = choose|i: int| 0 <= i < words.len() && word_matches(#[trigger] wv[i], q, lower);
        let o = choose|o: Seq<int>|
            is_search_order(wv, q, lower, o) && o.len() == v@.len() && forall|k: int|
                0 <= k < o.len() ==> *v@[k] == words[#[trigger] o[k]];
        assert(o.contains(i));
    }
}

/// Two search orders agree on their first `m` positions.
proof fn lemma_orders_agree(
    words: Seq<WordView>,
    q: Seq<char>,
    lower: Seq<char>,
    o1: Seq<int>,
    o2: Seq<int>,
    m: int,
)
    requires
        is_search_order(words, q, lower, o1),
        is_search_order(words, q, lower, o2),
        0 <= m <= o1.len(),
        m <= o2.len(),
    ensures
        forall|k: int| 0 <= k < m ==> o1[k] == o2[k],
    decreases m,
{
    if m > 0 {
        lemma_orders_agree(words, q, lower, o1, o2, m - 1);
        let k = m - 1;
        let x = o1[k];
        let y = o2[k];
        if x != y {
            assert(o1.contains(x));
            assert(o2.contains(x));
            let b = choose|b: int| 0 <= b < o2.len() && o2[b] == x;
            assert(o2.contains(y));
            assert(o1.contains(y));
            let c = choose|c: int| 0 <= c < o1.len() && o1[c] == y;
            if b < k {
                assert(o1[b] == x);
                assert(comes_before(words, q, o1[b], o1[k]));
            }
            if c < k {
                assert(o2[c] == y);
                assert(comes_before(words, q, o2[c], o2[k]));
            }
            assert(comes_before(words, q, o2[k], o2[b]));
            assert(comes_before(words, q, o1[k], o1[c]));
        }
    }
}

} // verus!
