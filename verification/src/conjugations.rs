//! Verb conjugation tables: every form of a verb is its stem followed by an
//! ending that depends on the verb's class.
use vstd::prelude::*;
use vstd::string::StrSliceExecFns;
use crate::part_of_speech::VerbType;
use crate::text::{concat, ends_with, replace, replace_all, starts_with, str_ends_with};

verus! {

/// All conjugated forms of one verb.
#[derive(Debug, PartialEq)]
pub struct VerbConjugations {
    pub formal: Formal,
    pub informal: Informal,
    pub other: Other,
}

/// The polite (ます) forms.
#[derive(Debug, PartialEq)]
pub struct Formal {
    pub present: String,
    pub negative: String,
    pub past: String,
    pub negative_past: String,
}

/// The plain forms.
#[derive(Debug, PartialEq)]
pub struct Informal {
    pub present: String,
    pub negative: String,
    pub past: String,
    pub negative_past: String,
}

/// The remaining forms.
#[derive(Debug, PartialEq)]
pub struct Other {
    pub te: String,
    pub imperative: String,
    pub volitional: String,
    pub passive: String,
    pub causative: String,
    pub hypothetical: String,
    pub potential: String,
    pub polite_volitional: String,
}

/// The polite forms, as characters.
pub struct FormalForms {
    pub present: Seq<char>,
    pub negative: Seq<char>,
    pub past: Seq<char>,
    pub negative_past: Seq<char>,
}

/// The plain forms, as characters.
pub struct InformalForms {
    pub present: Seq<char>,
    pub negative: Seq<char>,
    pub past: Seq<char>,
    pub negative_past: Seq<char>,
}

/// The remaining forms, as characters.
pub struct OtherForms {
    pub te: Seq<char>,
    pub imperative: Seq<char>,
    pub volitional: Seq<char>,
    pub passive: Seq<char>,
    pub causative: Seq<char>,
    pub hypothetical: Seq<char>,
    pub potential: Seq<char>,
    pub polite_volitional: Seq<char>,
}

/// All forms of one verb, as characters.
pub struct ConjugatedForms {
    pub formal: FormalForms,
    pub informal: InformalForms,
    pub other: OtherForms,
}

impl View for Formal {
    type V = FormalForms;

    open spec fn view(&self) -> FormalForms {
        FormalForms {
            present: self.present@,
            negative: self.negative@,
            past: self.past@,
            negative_past: self.negative_past@,
        }
    }
}

impl View for Informal {
    type V = InformalForms;

    open spec fn view(&self) -> InformalForms {
        InformalForms {
            present: self.present@,
            negative: self.negative@,
            past: self.past@,
            negative_past: self.negative_past@,
        }
    }
}

impl View for Other {
    type V = OtherForms;

    open spec fn view(&self) -> OtherForms {
        OtherForms {
            te: self.te@,
            imperative: self.imperative@,
            volitional: self.volitional@,
            passive: self.passive@,
            causative: self.causative@,
            hypothetical: self.hypothetical@,
            potential: self.potential@,
            polite_volitional: self.polite_volitional@,
        }
    }
}

impl View for VerbConjugations {
    type V = ConjugatedForms;

    open spec fn view(&self) -> ConjugatedForms {
        ConjugatedForms { formal: self.formal@, informal: self.informal@, other: self.other@ }
    }
}

impl FormalForms {
    /// Every form with `stem` put before it.
    pub open spec fn after(self, stem: Seq<char>) -> FormalForms {
        FormalForms {
            present: stem + self.present,
            negative: stem + self.negative,
            past: stem + self.past,
            negative_past: stem + self.negative_past,
        }
    }
}

impl InformalForms {
    /// Every form with `stem` put before it.
    pub open spec fn after(self, stem: Seq<char>) -> InformalForms {
        InformalForms {
            present: stem + self.present,
            negative: stem + self.negative,
            past: stem + self.past,
            negative_past: stem + self.negative_past,
        }
    }
}

impl OtherForms {
    /// Every form with `stem` put before it.
    pub open spec fn after(self, stem: Seq<char>) -> OtherForms {
        OtherForms {
            te: stem + self.te,
            imperative: stem + self.imperative,
            volitional: stem + self.volitional,
            passive: stem + self.passive,
            causative: stem + self.causative,
            hypothetical: stem + self.hypothetical,
            potential: stem + self.potential,
            polite_volitional: stem + self.polite_volitional,
        }
    }
}

impl ConjugatedForms {
    /// Every form with `stem` put before it.
    pub open spec fn after(self, stem: Seq<char>) -> ConjugatedForms {
        ConjugatedForms {
            formal: self.formal.after(stem),
            informal: self.informal.after(stem),
            other: self.other.after(stem),
        }
    }

    /// The sixteen forms, in a fixed order.
    pub open spec fn forms(self) -> Seq<Seq<char>> {
        seq![
            self.formal.present,
            self.formal.negative,
            self.formal.past,
            self.formal.negative_past,
            self.informal.present,
            self.informal.negative,
            self.informal.past,
            self.informal.negative_past,
            self.other.te,
            self.other.imperative,
            self.other.volitional,
            self.other.passive,
            self.other.causative,
            self.other.hypothetical,
            self.other.potential,
            self.other.polite_volitional,
        ]
    }
}

/// The endings of an Ichidan verb (e.g. 食べる).
pub open spec fn ichidan_endings() -> ConjugatedForms {
    ConjugatedForms {
        formal: FormalForms {
            present: "ます"@,
            negative: "ません"@,
            past: "ました"@,
            negative_past: "ませんでした"@,
        },
        informal: InformalForms {
            present: "る"@,
            negative: "ない"@,
            past: "た"@,
            negative_past: "なかった"@,
        },
        other: OtherForms {
            te: "て"@,
            imperative: "ろ"@,
            volitional: "よう"@,
            passive: "られる"@,
            causative: "させる"@,
            hypothetical: "れば"@,
            potential: "られる"@,
            polite_volitional: "ましょう"@,
        },
    }
}

/// The endings of a す-ending Godan verb (e.g. 話す).
pub open spec fn su_endings() -> ConjugatedForms {
    ConjugatedForms {
        formal: FormalForms {
            present: "します"@,
            negative: "しません"@,
            past: "しました"@,
            negative_past: "しませんでした"@,
        },
        informal: InformalForms {
            present: "す"@,
            negative: "さない"@,
            past: "した"@,
            negative_past: "さなかった"@,
        },
        other: OtherForms {
            te: "して"@,
            imperative: "せ"@,
            volitional: "そう"@,
            passive: "される"@,
            causative: "させる"@,
            hypothetical: "せば"@,
            potential: "せる"@,
            polite_volitional: "しましょう"@,
        },
    }
}

/// The endings of a く-ending Godan verb (e.g. 働く).
pub open spec fn ku_endings() -> ConjugatedForms {
    ConjugatedForms {
        formal: FormalForms {
            present: "きます"@,
            negative: "きません"@,
            past: "きました"@,
            negative_past: "きませんでした"@,
        },
        informal: InformalForms {
            present: "く"@,
            negative: "かない"@,
            past: "いた"@,
            negative_past: "かなかった"@,
        },
        other: OtherForms {
            te: "いて"@,
            imperative: "け"@,
            volitional: "こう"@,
            passive: "かれる"@,
            causative: "かせる"@,
            hypothetical: "けば"@,
            potential: "ける"@,
            polite_volitional: "きましょう"@,
        },
    }
}

/// The endings of a ぐ-ending Godan verb (e.g. 稼ぐ).
pub open spec fn gu_endings() -> ConjugatedForms {
    ConjugatedForms {
        formal: FormalForms {
            present: "ぎます"@,
            negative: "ぎません"@,
            past: "ぎました"@,
            negative_past: "ぎませんでした"@,
        },
        informal: InformalForms {
            present: "ぐ"@,
            negative: "がない"@,
            past: "いだ"@,
            negative_past: "がなかった"@,
        },
        other: OtherForms {
            te: "いで"@,
            imperative: "げ"@,
            volitional: "ごう"@,
            passive: "がれる"@,
            causative: "がせる"@,
            hypothetical: "げば"@,
            potential: "げる"@,
            polite_volitional: "ぎましょう"@,
        },
    }
}

/// The endings of a ぶ-ending Godan verb (e.g. 運ぶ).
pub open spec fn bu_endings() -> ConjugatedForms {
    ConjugatedForms {
        formal: FormalForms {
            present: "びます"@,
            negative: "びません"@,
            past: "びました"@,
            negative_past: "びませんでした"@,
        },
        informal: InformalForms {
            present: "ぶ"@,
            negative: "ばない"@,
            past: "んだ"@,
            negative_past: "ばなかった"@,
        },
        other: OtherForms {
            te: "んで"@,
            imperative: "べ"@,
            volitional: "ぼう"@,
            passive: "ばれる"@,
            causative: "ばせる"@,
            hypothetical: "べば"@,
            potential: "べる"@,
            polite_volitional: "びましょう"@,
        },
    }
}

/// The endings of a ぬ-ending Godan verb (e.g. 死ぬ).
pub open spec fn nu_endings() -> ConjugatedForms {
    ConjugatedForms {
        formal: FormalForms {
            present: "にます"@,
            negative: "にません"@,
            past: "にました"@,
            negative_past: "にませんでした"@,
        },
        informal: InformalForms {
            present: "ぬ"@,
            negative: "なない"@,
            past: "んだ"@,
            negative_past: "ななかった"@,
        },
        other: OtherForms {
            te: "んで"@,
            imperative: "ね"@,
            volitional: "のう"@,
            passive: "なれる"@,
            causative: "なせる"@,
            hypothetical: "ねば"@,
            potential: "ねる"@,
            polite_volitional: "にましょう"@,
        },
    }
}

/// The endings of a む-ending Godan verb (e.g. 頼む).
pub open spec fn mu_endings() -> ConjugatedForms {
    ConjugatedForms {
        formal: FormalForms {
            present: "みます"@,
            negative: "みません"@,
            past: "みました"@,
            negative_past: "みませんでした"@,
        },
        informal: InformalForms {
            present: "む"@,
            negative: "まない"@,
            past: "んだ"@,
            negative_past: "まなかった"@,
        },
        other: OtherForms {
            te: "んで"@,
            imperative: "め"@,
            volitional: "もう"@,
            passive: "まれる"@,
            causative: "ませる"@,
            hypothetical: "めば"@,
            potential: "める"@,
            polite_volitional: "みましょう"@,
        },
    }
}

/// The endings of a る-ending Godan verb (e.g. 作る; not an Ichidan る verb).
pub open spec fn ru_endings() -> ConjugatedForms {
    ConjugatedForms {
        formal: FormalForms {
            present: "ります"@,
            negative: "りません"@,
            past: "りました"@,
            negative_past: "りませんでした"@,
        },
        informal: InformalForms {
            present: "る"@,
            negative: "らない"@,
            past: "った"@,
            negative_past: "らなかった"@,
        },
        other: OtherForms {
            te: "って"@,
            imperative: "れ"@,
            volitional: "ろう"@,
            passive: "られる"@,
            causative: "らせる"@,
            hypothetical: "れば"@,
            potential: "れる"@,
            polite_volitional: "りましょう"@,
        },
    }
}

/// The endings of a う-ending Godan verb (e.g. 買う).
pub open spec fn u_endings() -> ConjugatedForms {
    ConjugatedForms {
        formal: FormalForms {
            present: "います"@,
            negative: "いません"@,
            past: "いました"@,
            negative_past: "いませんでした"@,
        },
        informal: InformalForms {
            present: "う"@,
            negative: "わない"@,
            past: "った"@,
            negative_past: "わなかった"@,
        },
        other: OtherForms {
            te: "って"@,
            imperative: "え"@,
            volitional: "おう"@,
            passive: "われる"@,
            causative: "わせる"@,
            hypothetical: "えば"@,
            potential: "える"@,
            polite_volitional: "いましょう"@,
        },
    }
}

/// The endings of a つ-ending Godan verb (e.g. 撃つ).
pub open spec fn tsu_endings() -> ConjugatedForms {
    ConjugatedForms {
        formal: FormalForms {
            present: "ちます"@,
            negative: "ちません"@,
            past: "ちました"@,
            negative_past: "ちませんでした"@,
        },
        informal: InformalForms {
            present: "つ"@,
            negative: "たない"@,
            past: "った"@,
            negative_past: "たなかった"@,
        },
        other: OtherForms {
            te: "って"@,
            imperative: "て"@,
            volitional: "とう"@,
            passive: "たれる"@,
            causative: "たせる"@,
            hypothetical: "てば"@,
            potential: "てる"@,
            polite_volitional: "ちましょう"@,
        },
    }
}

/// The endings of the irregular verb する and its compounds (e.g. 勉強する).
pub open spec fn suru_endings() -> ConjugatedForms {
    ConjugatedForms {
        formal: FormalForms {
            present: "します"@,
            negative: "しません"@,
            past: "しました"@,
            negative_past: "しませんでした"@,
        },
        informal: InformalForms {
            present: "する"@,
            negative: "しない"@,
            past: "した"@,
            negative_past: "しなかった"@,
        },
        other: OtherForms {
            te: "して"@,
            imperative: "しろ"@,
            volitional: "しよう"@,
            passive: "される"@,
            causative: "させる"@,
            hypothetical: "すれば"@,
            potential: "できる"@,
            polite_volitional: "しましょう"@,
        },
    }
}

/// The endings of the irregular verb くる and its compounds (e.g. やってくる).
pub open spec fn kuru_endings() -> ConjugatedForms {
    ConjugatedForms {
        formal: FormalForms {
            present: "きます"@,
            negative: "きません"@,
            past: "きました"@,
            negative_past: "きませんでした"@,
        },
        informal: InformalForms {
            present: "くる"@,
            negative: "こない"@,
            past: "きた"@,
            negative_past: "こなかった"@,
        },
        other: OtherForms {
            te: "きて"@,
            imperative: "こい"@,
            volitional: "こよう"@,
            passive: "こられる"@,
            causative: "こさせる"@,
            hypothetical: "くれば"@,
            potential: "こられる"@,
            polite_volitional: "きましょう"@,
        },
    }
}

/// The endings of the Godan class whose dictionary form ends in `c`; none for
/// any other character (き among them).
pub open spec fn godan_endings(c: char) -> Option<ConjugatedForms> {
    if c == 'す' {
        Some(su_endings())
    } else if c == 'く' {
        Some(ku_endings())
    } else if c == 'ぐ' {
        Some(gu_endings())
    } else if c == 'ぶ' {
        Some(bu_endings())
    } else if c == 'ぬ' {
        Some(nu_endings())
    } else if c == 'む' {
        Some(mu_endings())
    } else if c == 'る' {
        Some(ru_endings())
    } else if c == 'う' {
        Some(u_endings())
    } else if c == 'つ' {
        Some(tsu_endings())
    } else {
        None
    }
}

/// The forms of a conjugation, if there is one.
pub open spec fn conjugations_view(o: Option<VerbConjugations>) -> Option<ConjugatedForms> {
    match o {
        Some(c) => Some(c@),
        None => None,
    }
}

/// The forms of an Ichidan verb: its dictionary form must end in る, which the
/// endings replace.
pub open spec fn ichidan_conjugation(d: Seq<char>) -> Option<ConjugatedForms> {
    if d.len() > 0 && d.last() == 'る' {
        Some(ichidan_endings().after(d.drop_last()))
    } else {
        None
    }
}

/// The forms of a Godan verb: the endings replace the final character, whose
/// class decides them.
pub open spec fn godan_conjugation(d: Seq<char>) -> Option<ConjugatedForms> {
    if d.len() == 0 {
        None
    } else {
        match godan_endings(d.last()) {
            Some(t) => Some(t.after(d.drop_last())),
            None => None,
        }
    }
}

/// The dictionary form with 来る written くる and 為る written する.
pub open spec fn irregular_normal_form(d: Seq<char>) -> Seq<char> {
    replace(replace(d, "来る"@, "くる"@), "為る"@, "する"@)
}

/// The forms of an irregular verb: its normal form must end in する or くる,
/// which the endings replace.
pub open spec fn irregular_conjugation(d: Seq<char>) -> Option<ConjugatedForms> {
    let n = irregular_normal_form(d);
    if ends_with(n, "する"@) {
        Some(suru_endings().after(n.take(n.len() - "する"@.len())))
    } else if ends_with(n, "くる"@) {
        Some(kuru_endings().after(n.take(n.len() - "くる"@.len())))
    } else {
        None
    }
}

/// The forms of a verb of the given type; transitivity tags have none, since
/// the same word also carries its conjugation class.
pub open spec fn verb_conjugation(t: VerbType, d: Seq<char>) -> Option<ConjugatedForms> {
    match t {
        VerbType::Ichidan => ichidan_conjugation(d),
        VerbType::Godan => godan_conjugation(d),
        VerbType::Irregular => irregular_conjugation(d),
        VerbType::Transitive => None,
        VerbType::Intransitive => None,
    }
}

impl VerbConjugations {
    /// Conjugates verbs based upon their dictionary form.
    ///
    /// Returns `None` in three cases:
    /// 1. `Transitive`/`Intransitive` verbs are also tagged with their actual
    ///    conjugation class (e.g. Ichidan, Godan) elsewhere, so there's no need
    ///    to conjugate them twice under this variant.
    /// 2. き-ending words are already in a conjugated form.
    /// 3. There is a malformed entry.
    pub fn conjugate(verb_type: VerbType, dict_form: &str) -> (r: Option<VerbConjugations>)
        ensures
            conjugations_view(r) == verb_conjugation(verb_type, dict_form@),
    {
        match verb_type {
            VerbType::Ichidan => Self::conjugate_ichidan(dict_form),
            VerbType::Godan => Self::conjugate_godan(dict_form),
            VerbType::Irregular => Self::conjugate_irregular(dict_form),
            VerbType::Transitive => None,
            VerbType::Intransitive => None,
        }
    }

    /// Conjugates an Ichidan verb: the final る is replaced.
    pub fn conjugate_ichidan(dict_form: &str) -> (r: Option<VerbConjugations>)
        ensures
            conjugations_view(r) == ichidan_conjugation(dict_form@),
    {
        let n = dict_form.unicode_len();
        if n == 0 || dict_form.get_char(n - 1) != 'る' {
            return None;
        }
        let stem = dict_form.substring_char(0, n - 1);
        assert(stem@ =~= dict_form@.drop_last());
        Some(
            VerbConjugations {
                formal: Self::formal_ichidan(stem),
                informal: Self::informal_ichidan(stem),
                other: Self::other_ichidan(stem),
            },
        )
    }

    /// Conjugates a Godan verb according to its final character.
    pub fn conjugate_godan(dict_form: &str) -> (r: Option<VerbConjugations>)
        ensures
            conjugations_view(r) == godan_conjugation(dict_form@),
    {
        let n = dict_form.unicode_len();
        if n == 0 {
            return None;
        }
        let verb_ending = dict_form.get_char(n - 1);
        let stem = dict_form.substring_char(0, n - 1);
        assert(stem@ =~= dict_form@.drop_last());
        if verb_ending == 'す' {
            Some(Self::su_conjugation(stem))
        } else if verb_ending == 'く' {
            Some(Self::ku_conjugation(stem))
        } else if verb_ending == 'ぐ' {
            Some(Self::gu_conjugation(stem))
        } else if verb_ending == 'ぶ' {
            Some(Self::bu_conjugation(stem))
        } else if verb_ending == 'ぬ' {
            Some(Self::nu_conjugation(stem))
        } else if verb_ending == 'む' {
            Some(Self::mu_conjugation(stem))
        } else if verb_ending == 'る' {
            Some(Self::ru_conjugation(stem))
        } else if verb_ending == 'う' {
            Some(Self::u_conjugation(stem))
        } else if verb_ending == 'つ' {
            Some(Self::tsu_conjugation(stem))
        } else {
            None
        }
    }

    /// Conjugates an irregular Japanese verb (する or くる).
    ///
    /// Handles bare forms (`する`, `来る`, `くる`) as well as compound verbs
    /// ending in `する` (e.g. 勉強する) or `くる`.
    pub fn conjugate_irregular(dict_form: &str) -> (r: Option<VerbConjugations>)
        ensures
            conjugations_view(r) == irregular_conjugation(dict_form@),
    {
        proof {
            reveal_strlit("来る");
            reveal_strlit("為る");
            reveal_strlit("する");
            reveal_strlit("くる");
        }
        let spelled = replace_all(dict_form, "来る", "くる");
        let normalized = replace_all(spelled.as_str(), "為る", "する");
        let s = normalized.as_str();
        let n = s.unicode_len();
        if str_ends_with(s, "する") {
            let stem = s.substring_char(0, n - 2);
            assert(stem@ =~= s@.take(s@.len() - "する"@.len()));
            Some(Self::suru_irregular(stem))
        } else if str_ends_with(s, "くる") {
            let stem = s.substring_char(0, n - 2);
            assert(stem@ =~= s@.take(s@.len() - "くる"@.len()));
            Some(Self::kuru_irregular(stem))
        } else {
            None
        }
    }

    /// The polite forms of an Ichidan verb (e.g. 食べる), given its stem.
    fn formal_ichidan(stem: &str) -> (r: Formal)
        ensures
            r@ == ichidan_endings().formal.after(stem@),
    {
        Formal {
            present: concat(stem, "ます"),
            negative: concat(stem, "ません"),
            past: concat(stem, "ました"),
            negative_past: concat(stem, "ませんでした"),
        }
    }

    /// The plain forms of an Ichidan verb (e.g. 食べる), given its stem.
    fn informal_ichidan(stem: &str) -> (r: Informal)
        ensures
            r@ == ichidan_endings().informal.after(stem@),
    {
        Informal {
            present: concat(stem, "る"),
            negative: concat(stem, "ない"),
            past: concat(stem, "た"),
            negative_past: concat(stem, "なかった"),
        }
    }

    /// The remaining forms of an Ichidan verb (e.g. 食べる), given its stem.
    fn other_ichidan(stem: &str) -> (r: Other)
        ensures
            r@ == ichidan_endings().other.after(stem@),
    {
        Other {
            te: concat(stem, "て"),
            imperative: concat(stem, "ろ"),
            volitional: concat(stem, "よう"),
            passive: concat(stem, "られる"),
            causative: concat(stem, "させる"),
            hypothetical: concat(stem, "れば"),
            potential: concat(stem, "られる"),
            polite_volitional: concat(stem, "ましょう"),
        }
    }

    /// The polite forms of a す-ending Godan verb (e.g. 話す), given its stem.
    fn su_formal(stem: &str) -> (r: Formal)
        ensures
            r@ == su_endings().formal.after(stem@),
    {
        Formal {
            present: concat(stem, "します"),
            negative: concat(stem, "しません"),
            past: concat(stem, "しました"),
            negative_past: concat(stem, "しませんでした"),
        }
    }

    /// The plain forms of a す-ending Godan verb (e.g. 話す), given its stem.
    fn su_informal(stem: &str) -> (r: Informal)
        ensures
            r@ == su_endings().informal.after(stem@),
    {
        Informal {
            present: concat(stem, "す"),
            negative: concat(stem, "さない"),
            past: concat(stem, "した"),
            negative_past: concat(stem, "さなかった"),
        }
    }

    /// The remaining forms of a す-ending Godan verb (e.g. 話す), given its stem.
    fn su_other(stem: &str) -> (r: Other)
        ensures
            r@ == su_endings().other.after(stem@),
    {
        Other {
            te: concat(stem, "して"),
            imperative: concat(stem, "せ"),
            volitional: concat(stem, "そう"),
            passive: concat(stem, "される"),
            causative: concat(stem, "させる"),
            hypothetical: concat(stem, "せば"),
            potential: concat(stem, "せる"),
            polite_volitional: concat(stem, "しましょう"),
        }
    }

    /// Conjugates a す-ending Godan verb (e.g. 話す), given its stem.
    pub fn su_conjugation(stem: &str) -> (r: VerbConjugations)
        ensures
            r@ == su_endings().after(stem@),
    {
        VerbConjugations {
            formal: Self::su_formal(stem),
            informal: Self::su_informal(stem),
            other: Self::su_other(stem),
        }
    }

    /// The polite forms of a く-ending Godan verb (e.g. 働く), given its stem.
    fn ku_formal(stem: &str) -> (r: Formal)
        ensures
            r@ == ku_endings().formal.after(stem@),
    {
        Formal {
            present: concat(stem, "きます"),
            negative: concat(stem, "きません"),
            past: concat(stem, "きました"),
            negative_past: concat(stem, "きませんでした"),
        }
    }

    /// The plain forms of a く-ending Godan verb (e.g. 働く), given its stem.
    fn ku_informal(stem: &str) -> (r: Informal)
        ensures
            r@ == ku_endings().informal.after(stem@),
    {
        Informal {
            present: concat(stem, "く"),
            negative: concat(stem, "かない"),
            past: concat(stem, "いた"),
            negative_past: concat(stem, "かなかった"),
        }
    }

    /// The remaining forms of a く-ending Godan verb (e.g. 働く), given its stem.
    fn ku_other(stem: &str) -> (r: Other)
        ensures
            r@ == ku_endings().other.after(stem@),
    {
        Other {
            te: concat(stem, "いて"),
            imperative: concat(stem, "け"),
            volitional: concat(stem, "こう"),
            passive: concat(stem, "かれる"),
            causative: concat(stem, "かせる"),
            hypothetical: concat(stem, "けば"),
            potential: concat(stem, "ける"),
            polite_volitional: concat(stem, "きましょう"),
        }
    }

    /// Conjugates a く-ending Godan verb (e.g. 働く), given its stem.
    pub fn ku_conjugation(stem: &str) -> (r: VerbConjugations)
        ensures
            r@ == ku_endings().after(stem@),
    {
        VerbConjugations {
            formal: Self::ku_formal(stem),
            informal: Self::ku_informal(stem),
            other: Self::ku_other(stem),
        }
    }

    /// The polite forms of a ぐ-ending Godan verb (e.g. 稼ぐ), given its stem.
    fn gu_formal(stem: &str) -> (r: Formal)
        ensures
            r@ == gu_endings().formal.after(stem@),
    {
        Formal {
            present: concat(stem, "ぎます"),
            negative: concat(stem, "ぎません"),
            past: concat(stem, "ぎました"),
            negative_past: concat(stem, "ぎませんでした"),
        }
    }

    /// The plain forms of a ぐ-ending Godan verb (e.g. 稼ぐ), given its stem.
    fn gu_informal(stem: &str) -> (r: Informal)
        ensures
            r@ == gu_endings().informal.after(stem@),
    {
        Informal {
            present: concat(stem, "ぐ"),
            negative: concat(stem, "がない"),
            past: concat(stem, "いだ"),
            negative_past: concat(stem, "がなかった"),
        }
    }

    /// The remaining forms of a ぐ-ending Godan verb (e.g. 稼ぐ), given its stem.
    fn gu_other(stem: &str) -> (r: Other)
        ensures
            r@ == gu_endings().other.after(stem@),
    {
        Other {
            te: concat(stem, "いで"),
            imperative: concat(stem, "げ"),
            volitional: concat(stem, "ごう"),
            passive: concat(stem, "がれる"),
            causative: concat(stem, "がせる"),
            hypothetical: concat(stem, "げば"),
            potential: concat(stem, "げる"),
            polite_volitional: concat(stem, "ぎましょう"),
        }
    }

    /// Conjugates a ぐ-ending Godan verb (e.g. 稼ぐ), given its stem.
    pub fn gu_conjugation(stem: &str) -> (r: VerbConjugations)
        ensures
            r@ == gu_endings().after(stem@),
    {
        VerbConjugations {
            formal: Self::gu_formal(stem),
            informal: Self::gu_informal(stem),
            other: Self::gu_other(stem),
        }
    }

    /// The polite forms of a ぶ-ending Godan verb (e.g. 運ぶ), given its stem.
    fn bu_formal(stem: &str) -> (r: Formal)
        ensures
            r@ == bu_endings().formal.after(stem@),
    {
        Formal {
            present: concat(stem, "びます"),
            negative: concat(stem, "びません"),
            past: concat(stem, "びました"),
            negative_past: concat(stem, "びませんでした"),
        }
    }

    /// The plain forms of a ぶ-ending Godan verb (e.g. 運ぶ), given its stem.
    fn bu_informal(stem: &str) -> (r: Informal)
        ensures
            r@ == bu_endings().informal.after(stem@),
    {
        Informal {
            present: concat(stem, "ぶ"),
            negative: concat(stem, "ばない"),
            past: concat(stem, "んだ"),
            negative_past: concat(stem, "ばなかった"),
        }
    }

    /// The remaining forms of a ぶ-ending Godan verb (e.g. 運ぶ), given its stem.
    fn bu_other(stem: &str) -> (r: Other)
        ensures
            r@ == bu_endings().other.after(stem@),
    {
        Other {
            te: concat(stem, "んで"),
            imperative: concat(stem, "べ"),
            volitional: concat(stem, "ぼう"),
            passive: concat(stem, "ばれる"),
            causative: concat(stem, "ばせる"),
            hypothetical: concat(stem, "べば"),
            potential: concat(stem, "べる"),
            polite_volitional: concat(stem, "びましょう"),
        }
    }

    /// Conjugates a ぶ-ending Godan verb (e.g. 運ぶ), given its stem.
    pub fn bu_conjugation(stem: &str) -> (r: VerbConjugations)
        ensures
            r@ == bu_endings().after(stem@),
    {
        VerbConjugations {
            formal: Self::bu_formal(stem),
            informal: Self::bu_informal(stem),
            other: Self::bu_other(stem),
        }
    }

    /// The polite forms of a ぬ-ending Godan verb (e.g. 死ぬ), given its stem.
    fn nu_formal(stem: &str) -> (r: Formal)
        ensures
            r@ == nu_endings().formal.after(stem@),
    {
        Formal {
            present: concat(stem, "にます"),
            negative: concat(stem, "にません"),
            past: concat(stem, "にました"),
            negative_past: concat(stem, "にませんでした"),
        }
    }

    /// The plain forms of a ぬ-ending Godan verb (e.g. 死ぬ), given its stem.
    fn nu_informal(stem: &str) -> (r: Informal)
        ensures
            r@ == nu_endings().informal.after(stem@),
    {
        Informal {
            present: concat(stem, "ぬ"),
            negative: concat(stem, "なない"),
            past: concat(stem, "んだ"),
            negative_past: concat(stem, "ななかった"),
        }
    }

    /// The remaining forms of a ぬ-ending Godan verb (e.g. 死ぬ), given its stem.
    fn nu_other(stem: &str) -> (r: Other)
        ensures
            r@ == nu_endings().other.after(stem@),
    {
        Other {
            te: concat(stem, "んで"),
            imperative: concat(stem, "ね"),
            volitional: concat(stem, "のう"),
            passive: concat(stem, "なれる"),
            causative: concat(stem, "なせる"),
            hypothetical: concat(stem, "ねば"),
            potential: concat(stem, "ねる"),
            polite_volitional: concat(stem, "にましょう"),
        }
    }

    /// Conjugates a ぬ-ending Godan verb (e.g. 死ぬ), given its stem.
    pub fn nu_conjugation(stem: &str) -> (r: VerbConjugations)
        ensures
            r@ == nu_endings().after(stem@),
    {
        VerbConjugations {
            formal: Self::nu_formal(stem),
            informal: Self::nu_informal(stem),
            other: Self::nu_other(stem),
        }
    }

    /// The polite forms of a む-ending Godan verb (e.g. 頼む), given its stem.
    fn mu_formal(stem: &str) -> (r: Formal)
        ensures
            r@ == mu_endings().formal.after(stem@),
    {
        Formal {
            present: concat(stem, "みます"),
            negative: concat(stem, "みません"),
            past: concat(stem, "みました"),
            negative_past: concat(stem, "みませんでした"),
        }
    }

    /// The plain forms of a む-ending Godan verb (e.g. 頼む), given its stem.
    fn mu_informal(stem: &str) -> (r: Informal)
        ensures
            r@ == mu_endings().informal.after(stem@),
    {
        Informal {
            present: concat(stem, "む"),
            negative: concat(stem, "まない"),
            past: concat(stem, "んだ"),
            negative_past: concat(stem, "まなかった"),
        }
    }

    /// The remaining forms of a む-ending Godan verb (e.g. 頼む), given its stem.
    fn mu_other(stem: &str) -> (r: Other)
        ensures
            r@ == mu_endings().other.after(stem@),
    {
        Other {
            te: concat(stem, "んで"),
            imperative: concat(stem, "め"),
            volitional: concat(stem, "もう"),
            passive: concat(stem, "まれる"),
            causative: concat(stem, "ませる"),
            hypothetical: concat(stem, "めば"),
            potential: concat(stem, "める"),
            polite_volitional: concat(stem, "みましょう"),
        }
    }

    /// Conjugates a む-ending Godan verb (e.g. 頼む), given its stem.
    pub fn mu_conjugation(stem: &str) -> (r: VerbConjugations)
        ensures
            r@ == mu_endings().after(stem@),
    {
        VerbConjugations {
            formal: Self::mu_formal(stem),
            informal: Self::mu_informal(stem),
            other: Self::mu_other(stem),
        }
    }

    /// The polite forms of a る-ending Godan verb (e.g. 作る; not an Ichidan る verb), given its stem.
    fn ru_formal(stem: &str) -> (r: Formal)
        ensures
            r@ == ru_endings().formal.after(stem@),
    {
        Formal {
            present: concat(stem, "ります"),
            negative: concat(stem, "りません"),
            past: concat(stem, "りました"),
            negative_past: concat(stem, "りませんでした"),
        }
    }

    /// The plain forms of a る-ending Godan verb (e.g. 作る; not an Ichidan る verb), given its stem.
    fn ru_informal(stem: &str) -> (r: Informal)
        ensures
            r@ == ru_endings().informal.after(stem@),
    {
        Informal {
            present: concat(stem, "る"),
            negative: concat(stem, "らない"),
            past: concat(stem, "った"),
            negative_past: concat(stem, "らなかった"),
        }
    }

    /// The remaining forms of a る-ending Godan verb (e.g. 作る; not an Ichidan る verb), given its stem.
    fn ru_other(stem: &str) -> (r: Other)
        ensures
            r@ == ru_endings().other.after(stem@),
    {
        Other {
            te: concat(stem, "って"),
            imperative: concat(stem, "れ"),
            volitional: concat(stem, "ろう"),
            passive: concat(stem, "られる"),
            causative: concat(stem, "らせる"),
            hypothetical: concat(stem, "れば"),
            potential: concat(stem, "れる"),
            polite_volitional: concat(stem, "りましょう"),
        }
    }

    /// Conjugates a る-ending Godan verb (e.g. 作る; not an Ichidan る verb), given its stem.
    pub fn ru_conjugation(stem: &str) -> (r: VerbConjugations)
        ensures
            r@ == ru_endings().after(stem@),
    {
        VerbConjugations {
            formal: Self::ru_formal(stem),
            informal: Self::ru_informal(stem),
            other: Self::ru_other(stem),
        }
    }

    /// The polite forms of a う-ending Godan verb (e.g. 買う), given its stem.
    fn u_formal(stem: &str) -> (r: Formal)
        ensures
            r@ == u_endings().formal.after(stem@),
    {
        Formal {
            present: concat(stem, "います"),
            negative: concat(stem, "いません"),
            past: concat(stem, "いました"),
            negative_past: concat(stem, "いませんでした"),
        }
    }

    /// The plain forms of a う-ending Godan verb (e.g. 買う), given its stem.
    fn u_informal(stem: &str) -> (r: Informal)
        ensures
            r@ == u_endings().informal.after(stem@),
    {
        Informal {
            present: concat(stem, "う"),
            negative: concat(stem, "わない"),
            past: concat(stem, "った"),
            negative_past: concat(stem, "わなかった"),
        }
    }

    /// The remaining forms of a う-ending Godan verb (e.g. 買う), given its stem.
    fn u_other(stem: &str) -> (r: Other)
        ensures
            r@ == u_endings().other.after(stem@),
    {
        Other {
            te: concat(stem, "って"),
            imperative: concat(stem, "え"),
            volitional: concat(stem, "おう"),
            passive: concat(stem, "われる"),
            causative: concat(stem, "わせる"),
            hypothetical: concat(stem, "えば"),
            potential: concat(stem, "える"),
            polite_volitional: concat(stem, "いましょう"),
        }
    }

    /// Conjugates a う-ending Godan verb (e.g. 買う), given its stem.
    pub fn u_conjugation(stem: &str) -> (r: VerbConjugations)
        ensures
            r@ == u_endings().after(stem@),
    {
        VerbConjugations {
            formal: Self::u_formal(stem),
            informal: Self::u_informal(stem),
            other: Self::u_other(stem),
        }
    }

    /// The polite forms of a つ-ending Godan verb (e.g. 撃つ), given its stem.
    fn tsu_formal(stem: &str) -> (r: Formal)
        ensures
            r@ == tsu_endings().formal.after(stem@),
    {
        Formal {
            present: concat(stem, "ちます"),
            negative: concat(stem, "ちません"),
            past: concat(stem, "ちました"),
            negative_past: concat(stem, "ちませんでした"),
        }
    }

    /// The plain forms of a つ-ending Godan verb (e.g. 撃つ), given its stem.
    fn tsu_informal(stem: &str) -> (r: Informal)
        ensures
            r@ == tsu_endings().informal.after(stem@),
    {
        Informal {
            present: concat(stem, "つ"),
            negative: concat(stem, "たない"),
            past: concat(stem, "った"),
            negative_past: concat(stem, "たなかった"),
        }
    }

    /// The remaining forms of a つ-ending Godan verb (e.g. 撃つ), given its stem.
    fn tsu_other(stem: &str) -> (r: Other)
        ensures
            r@ == tsu_endings().other.after(stem@),
    {
        Other {
            te: concat(stem, "って"),
            imperative: concat(stem, "て"),
            volitional: concat(stem, "とう"),
            passive: concat(stem, "たれる"),
            causative: concat(stem, "たせる"),
            hypothetical: concat(stem, "てば"),
            potential: concat(stem, "てる"),
            polite_volitional: concat(stem, "ちましょう"),
        }
    }

    /// Conjugates a つ-ending Godan verb (e.g. 撃つ), given its stem.
    pub fn tsu_conjugation(stem: &str) -> (r: VerbConjugations)
        ensures
            r@ == tsu_endings().after(stem@),
    {
        VerbConjugations {
            formal: Self::tsu_formal(stem),
            informal: Self::tsu_informal(stem),
            other: Self::tsu_other(stem),
        }
    }

    /// The polite forms of the irregular verb する and its compounds (e.g. 勉強する), given its stem.
    fn suru_formal(stem: &str) -> (r: Formal)
        ensures
            r@ == suru_endings().formal.after(stem@),
    {
        Formal {
            present: concat(stem, "します"),
            negative: concat(stem, "しません"),
            past: concat(stem, "しました"),
            negative_past: concat(stem, "しませんでした"),
        }
    }

    /// The plain forms of the irregular verb する and its compounds (e.g. 勉強する), given its stem.
    fn suru_informal(stem: &str) -> (r: Informal)
        ensures
            r@ == suru_endings().informal.after(stem@),
    {
        Informal {
            present: concat(stem, "する"),
            negative: concat(stem, "しない"),
            past: concat(stem, "した"),
            negative_past: concat(stem, "しなかった"),
        }
    }

    /// The remaining forms of the irregular verb する and its compounds (e.g. 勉強する), given its stem.
    fn suru_other(stem: &str) -> (r: Other)
        ensures
            r@ == suru_endings().other.after(stem@),
    {
        Other {
            te: concat(stem, "して"),
            imperative: concat(stem, "しろ"),
            volitional: concat(stem, "しよう"),
            passive: concat(stem, "される"),
            causative: concat(stem, "させる"),
            hypothetical: concat(stem, "すれば"),
            potential: concat(stem, "できる"),
            polite_volitional: concat(stem, "しましょう"),
        }
    }

    /// Conjugates the irregular verb する and its compounds (e.g. 勉強する), given its stem.
    fn suru_irregular(stem: &str) -> (r: VerbConjugations)
        ensures
            r@ == suru_endings().after(stem@),
    {
        VerbConjugations {
            formal: Self::suru_formal(stem),
            informal: Self::suru_informal(stem),
            other: Self::suru_other(stem),
        }
    }

    /// The polite forms of the irregular verb くる and its compounds (e.g. やってくる), given its stem.
    fn kuru_formal(stem: &str) -> (r: Formal)
        ensures
            r@ == kuru_endings().formal.after(stem@),
    {
        Formal {
            present: concat(stem, "きます"),
            negative: concat(stem, "きません"),
            past: concat(stem, "きました"),
            negative_past: concat(stem, "きませんでした"),
        }
    }

    /// The plain forms of the irregular verb くる and its compounds (e.g. やってくる), given its stem.
    fn kuru_informal(stem: &str) -> (r: Informal)
        ensures
            r@ == kuru_endings().informal.after(stem@),
    {
        Informal {
            present: concat(stem, "くる"),
            negative: concat(stem, "こない"),
            past: concat(stem, "きた"),
            negative_past: concat(stem, "こなかった"),
        }
    }

    /// The remaining forms of the irregular verb くる and its compounds (e.g. やってくる), given its stem.
    fn kuru_other(stem: &str) -> (r: Other)
        ensures
            r@ == kuru_endings().other.after(stem@),
    {
        Other {
            te: concat(stem, "きて"),
            imperative: concat(stem, "こい"),
            volitional: concat(stem, "こよう"),
            passive: concat(stem, "こられる"),
            causative: concat(stem, "こさせる"),
            hypothetical: concat(stem, "くれば"),
            potential: concat(stem, "こられる"),
            polite_volitional: concat(stem, "きましょう"),
        }
    }

    /// Conjugates the irregular verb くる and its compounds (e.g. やってくる), given its stem.
    fn kuru_irregular(stem: &str) -> (r: VerbConjugations)
        ensures
            r@ == kuru_endings().after(stem@),
    {
        VerbConjugations {
            formal: Self::kuru_formal(stem),
            informal: Self::kuru_informal(stem),
            other: Self::kuru_other(stem),
        }
    }
}

/// The stem that the endings of a verb of type `t` follow.
pub open spec fn verb_stem(t: VerbType, d: Seq<char>) -> Seq<char> {
    match t {
        VerbType::Irregular => {
            let n = irregular_normal_form(d);
            n.take(n.len() - 2)
        },
        _ => d.drop_last(),
    }
}

/// Every form of a conjugated verb begins with the verb's stem.
pub proof fn lemma_forms_share_stem(t: VerbType, d: Seq<char>)
    ensures
        verb_conjugation(t, d) matches Some(c) ==> forall|i: int|
            0 <= i < c.forms().len() ==> starts_with(#[trigger] c.forms()[i], verb_stem(t, d)),
{
    reveal_strlit("する");
    reveal_strlit("くる");
    if let Some(c) = verb_conjugation(t, d) {
        let stem = verb_stem(t, d);
        assert forall|i: int| 0 <= i < c.forms().len() implies starts_with(
            #[trigger] c.forms()[i],
            stem,
        ) by {
            let f = c.forms()[i];
            assert(exists|e: Seq<char>| f == stem + e);
            let e = choose|e: Seq<char>| f == stem + e;
            assert(f.take(stem.len() as int) =~= stem);
        }
    }
}

/// The plain present form of a conjugated verb is its dictionary form (for an
/// irregular verb, with 来る written くる and 為る written する).
pub proof fn lemma_plain_present_is_dictionary_form(t: VerbType, d: Seq<char>)
    ensures
        verb_conjugation(t, d) matches Some(c) ==> c.informal.present == (if t
            == VerbType::Irregular {
            irregular_normal_form(d)
        } else {
            d
        }),
{
    reveal_strlit("る");
    reveal_strlit("す");
    reveal_strlit("く");
    reveal_strlit("ぐ");
    reveal_strlit("ぶ");
    reveal_strlit("ぬ");
    reveal_strlit("む");
    reveal_strlit("う");
    reveal_strlit("つ");
    reveal_strlit("する");
    reveal_strlit("くる");
    if let Some(c) = verb_conjugation(t, d) {
        match t {
            VerbType::Irregular => {
                let n = irregular_normal_form(d);
                assert(n.take(n.len() - 2) + n.skip(n.len() - 2) =~= n);
            },
            _ => {
                assert(d.drop_last() + seq![d.last()] =~= d);
            },
        }
    }
}

/// The three cases in which a verb gets no conjugation: a transitivity tag,
/// a Godan word ending in き, and a malformed dictionary form (an Ichidan
/// verb that does not end in る, an irregular verb that ends in neither する
/// nor くる).
pub proof fn lemma_no_conjugation_cases(d: Seq<char>)
    ensures
        verb_conjugation(VerbType::Transitive, d) is None,
        verb_conjugation(VerbType::Intransitive, d) is None,
        d.len() > 0 && d.last() == 'き' ==> verb_conjugation(VerbType::Godan, d) is None,
        !(d.len() > 0 && d.last() == 'る') ==> verb_conjugation(VerbType::Ichidan, d) is None,
        !ends_with(irregular_normal_form(d), "する"@) && !ends_with(
            irregular_normal_form(d),
            "くる"@,
        ) ==> verb_conjugation(VerbType::Irregular, d) is None,
{
}

} // verus!
