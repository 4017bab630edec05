use misojisho::conjugations::{Formal, Informal, Other, VerbConjugations};
use misojisho::part_of_speech::VerbType;
#[test]
fn should_conjugate_ichidan() {
    let actual = VerbConjugations::conjugate(VerbType::Ichidan, "認める");
    let expected = Some(VerbConjugations {
        formal: Formal {
            present: String::from("認めます"),
            negative: String::from("認めません"),
            past: String::from("認めました"),
            negative_past: String::from("認めませんでした"),
        },
        informal: Informal {
            present: String::from("認める"),
            negative: String::from("認めない"),
            past: String::from("認めた"),
            negative_past: String::from("認めなかった"),
        },
        other: Other {
            te: String::from("認めて"),
            imperative: String::from("認めろ"),
            volitional: String::from("認めよう"),
            passive: String::from("認められる"),
            causative: String::from("認めさせる"),
            hypothetical: String::from("認めれば"),
            potential: String::from("認められる"),
            polite_volitional: String::from("認めましょう"),
        },
    });

    assert_eq!(actual, expected)
}

#[test]
fn should_conjugate_godan() {
    let actual = VerbConjugations::conjugate(VerbType::Godan, "抱く");
    let expected = Some(VerbConjugations {
        formal: Formal {
            present: String::from("抱きます"),
            negative: String::from("抱きません"),
            past: String::from("抱きました"),
            negative_past: String::from("抱きませんでした"),
        },
        informal: Informal {
            present: String::from("抱く"),
            negative: String::from("抱かない"),
            past: String::from("抱いた"),
            negative_past: String::from("抱かなかった"),
        },
        other: Other {
            te: String::from("抱いて"),
            imperative: String::from("抱け"),
            volitional: String::from("抱こう"),
            passive: String::from("抱かれる"),
            causative: String::from("抱かせる"),
            hypothetical: String::from("抱けば"),
            potential: String::from("抱ける"),
            polite_volitional: String::from("抱きましょう"),
        },
    });

    assert_eq!(actual, expected)
}

#[test]
fn should_conjugate_irregular() {
    let actual = VerbConjugations::conjugate(VerbType::Irregular, "旅行する");
    let expected = Some(VerbConjugations {
        formal: Formal {
            present: String::from("旅行します"),
            negative: String::from("旅行しません"),
            past: String::from("旅行しました"),
            negative_past: String::from("旅行しませんでした"),
        },
        informal: Informal {
            present: String::from("旅行する"),
            negative: String::from("旅行しない"),
            past: String::from("旅行した"),
            negative_past: String::from("旅行しなかった"),
        },
        other: Other {
            te: String::from("旅行して"),
            imperative: String::from("旅行しろ"),
            volitional: String::from("旅行しよう"),
            passive: String::from("旅行される"),
            causative: String::from("旅行させる"),
            hypothetical: String::from("旅行すれば"),
            potential: String::from("旅行できる"),
            polite_volitional: String::from("旅行しましょう"),
        },
    });

    assert_eq!(actual, expected)
}

#[test]
fn should_conjugate_none_when_transitive() {
    let actual = VerbConjugations::conjugate(VerbType::Transitive, "教える");
    assert_eq!(actual, None)
}

#[test]
fn should_conjugate_none_when_intransitive() {
    let actual = VerbConjugations::conjugate(VerbType::Intransitive, "歩く");
    assert_eq!(actual, None)
}

#[test]
fn should_conjugate_ru_ichidan() {
    let expected = VerbConjugations {
        formal: Formal {
            present: String::from("食べます"),
            negative: String::from("食べません"),
            past: String::from("食べました"),
            negative_past: String::from("食べませんでした"),
        },
        informal: Informal {
            present: String::from("食べる"),
            negative: String::from("食べない"),
            past: String::from("食べた"),
            negative_past: String::from("食べなかった"),
        },
        other: Other {
            te: String::from("食べて"),
            imperative: String::from("食べろ"),
            volitional: String::from("食べよう"),
            passive: String::from("食べられる"),
            causative: String::from("食べさせる"),
            hypothetical: String::from("食べれば"),
            potential: String::from("食べられる"),
            polite_volitional: String::from("食べましょう"),
        },
    };

    let actual = VerbConjugations::conjugate_ichidan("食べる");

    assert_eq!(actual, Some(expected))
}

#[test]
fn should_not_conjugate_malformed_ichidan() {
    let actual = VerbConjugations::conjugate_ichidan("食べわ");

    assert_eq!(actual, None)
}

#[test]
fn should_conjugate_godan_dispatches() {
    let cases: &[(&str, fn(&str) -> VerbConjugations)] = &[
        ("話す", VerbConjugations::su_conjugation),
        ("働く", VerbConjugations::ku_conjugation),
        ("稼ぐ", VerbConjugations::gu_conjugation),
        ("運ぶ", VerbConjugations::bu_conjugation),
        ("死ぬ", VerbConjugations::nu_conjugation),
        ("頼む", VerbConjugations::mu_conjugation),
        ("作る", VerbConjugations::ru_conjugation),
        ("買う", VerbConjugations::u_conjugation),
        ("撃つ", VerbConjugations::tsu_conjugation),
    ];

    for (dict_form, expected_fn) in cases {
        let mut stem = dict_form.to_string();
        stem.pop();

        let actual = VerbConjugations::conjugate_godan(dict_form);
        let expected = expected_fn(&stem);

        assert_eq!(actual, Some(expected), "wrong dispatch for {}", dict_form);
    }
}

#[test]
fn should_not_conjugate_malformed_godan() {
    let actual = VerbConjugations::conjugate_godan("歩き");

    assert_eq!(actual, None)
}

#[test]
fn should_conjugate_su() {
    let mut stem = String::from("話す");
    stem.pop();
    let expected: VerbConjugations = VerbConjugations {
        formal: Formal {
            present: format!("{}します", stem),
            negative: format!("{}しません", stem),
            past: format!("{}しました", stem),
            negative_past: format!("{}しませんでした", stem),
        },
        informal: Informal {
            present: format!("{}す", stem),
            negative: format!("{}さない", stem),
            past: format!("{}した", stem),
            negative_past: format!("{}さなかった", stem),
        },
        other: Other {
            te: format!("{}して", stem),
            imperative: format!("{}せ", stem),
            volitional: format!("{}そう", stem),
            passive: format!("{}される", stem),
            causative: format!("{}させる", stem),
            hypothetical: format!("{}せば", stem),
            potential: format!("{}せる", stem),
            polite_volitional: format!("{}しましょう", stem),
        },
    };

    let actual = VerbConjugations::su_conjugation(&stem);
    assert_eq!(actual, expected)
}

#[test]
fn shoudl_conjugate_ku() {
    let mut stem = String::from("働く");
    stem.pop();
    let expected: VerbConjugations = VerbConjugations {
        formal: Formal {
            present: format!("{}きます", stem),
            negative: format!("{}きません", stem),
            past: format!("{}きました", stem),
            negative_past: format!("{}きませんでした", stem),
        },
        informal: Informal {
            present: format!("{}く", stem),
            negative: format!("{}かない", stem),
            past: format!("{}いた", stem),
            negative_past: format!("{}かなかった", stem),
        },
        other: Other {
            te: format!("{}いて", stem),
            imperative: format!("{}け", stem),
            volitional: format!("{}こう", stem),
            passive: format!("{}かれる", stem),
            causative: format!("{}かせる", stem),
            hypothetical: format!("{}けば", stem),
            potential: format!("{}ける", stem),
            polite_volitional: format!("{}きましょう", stem),
        },
    };
    let actual = VerbConjugations::ku_conjugation(&stem);
    assert_eq!(actual, expected)
}

#[test]
fn should_conjugate_gu() {
    let mut stem = String::from("稼ぐ");
    stem.pop();
    let expected: VerbConjugations = VerbConjugations {
        formal: Formal {
            present: format!("{}ぎます", stem),
            negative: format!("{}ぎません", stem),
            past: format!("{}ぎました", stem),
            negative_past: format!("{}ぎませんでした", stem),
        },
        informal: Informal {
            present: format!("{}ぐ", stem),
            negative: format!("{}がない", stem),
            past: format!("{}いだ", stem),
            negative_past: format!("{}がなかった", stem),
        },
        other: Other {
            te: format!("{}いで", stem),
            imperative: format!("{}げ", stem),
            volitional: format!("{}ごう", stem),
            passive: format!("{}がれる", stem),
            causative: format!("{}がせる", stem),
            hypothetical: format!("{}げば", stem),
            potential: format!("{}げる", stem),
            polite_volitional: format!("{}ぎましょう", stem),
        },
    };
    let actual = VerbConjugations::gu_conjugation(&stem);
    assert_eq!(actual, expected)
}

#[test]
fn should_conjugate_bu() {
    let mut stem = String::from("運ぶ");
    stem.pop();

    let expected: VerbConjugations = VerbConjugations {
        formal: Formal {
            present: format!("{}びます", stem),
            negative: format!("{}びません", stem),
            past: format!("{}びました", stem),
            negative_past: format!("{}びませんでした", stem),
        },
        informal: Informal {
            present: format!("{}ぶ", stem),
            negative: format!("{}ばない", stem),
            past: format!("{}んだ", stem),
            negative_past: format!("{}ばなかった", stem),
        },
        other: Other {
            te: format!("{}んで", stem),
            imperative: format!("{}べ", stem),
            volitional: format!("{}ぼう", stem),
            passive: format!("{}ばれる", stem),
            causative: format!("{}ばせる", stem),
            hypothetical: format!("{}べば", stem),
            potential: format!("{}べる", stem),
            polite_volitional: format!("{}びましょう", stem),
        },
    };

    let actual = VerbConjugations::bu_conjugation(&stem);
    assert_eq!(actual, expected)
}

#[test]
fn should_conjugate_nu() {
    let mut stem = String::from("死ぬ");
    stem.pop();

    let expected: VerbConjugations = VerbConjugations {
        formal: Formal {
            present: format!("{}にます", stem),
            negative: format!("{}にません", stem),
            past: format!("{}にました", stem),
            negative_past: format!("{}にませんでした", stem),
        },
        informal: Informal {
            present: format!("{}ぬ", stem),
            negative: format!("{}なない", stem),
            past: format!("{}んだ", stem),
            negative_past: format!("{}ななかった", stem),
        },
        other: Other {
            te: format!("{}んで", stem),
            imperative: format!("{}ね", stem),
            volitional: format!("{}のう", stem),
            passive: format!("{}なれる", stem),
            causative: format!("{}なせる", stem),
            hypothetical: format!("{}ねば", stem),
            potential: format!("{}ねる", stem),
            polite_volitional: format!("{}にましょう", stem),
        },
    };

    let actual = VerbConjugations::nu_conjugation(&stem);
    assert_eq!(actual, expected)
}

#[test]
fn should_conjugate_mu() {
    let mut stem = String::from("頼む");
    stem.pop();

    let actual: VerbConjugations = VerbConjugations {
        formal: Formal {
            present: format!("{}みます", stem),
            negative: format!("{}みません", stem),
            past: format!("{}みました", stem),
            negative_past: format!("{}みませんでした", stem),
        },
        informal: Informal {
            present: format!("{}む", stem),
            negative: format!("{}まない", stem),
            past: format!("{}んだ", stem),
            negative_past: format!("{}まなかった", stem),
        },
        other: Other {
            te: format!("{}んで", stem),
            imperative: format!("{}め", stem),
            volitional: format!("{}もう", stem),
            passive: format!("{}まれる", stem),
            causative: format!("{}ませる", stem),
            hypothetical: format!("{}めば", stem),
            potential: format!("{}める", stem),
            polite_volitional: format!("{}みましょう", stem),
        },
    };

    let expected = VerbConjugations::mu_conjugation(&stem);
    assert_eq!(actual, expected)
}

#[test]
fn should_conjugate_ru() {
    let mut stem = String::from("作る");
    stem.pop();

    let actual: VerbConjugations = VerbConjugations {
        formal: Formal {
            present: format!("{}ります", stem),
            negative: format!("{}りません", stem),
            past: format!("{}りました", stem),
            negative_past: format!("{}りませんでした", stem),
        },
        informal: Informal {
            present: format!("{}る", stem),
            negative: format!("{}らない", stem),
            past: format!("{}った", stem),
            negative_past: format!("{}らなかった", stem),
        },
        other: Other {
            te: format!("{}って", stem),
            imperative: format!("{}れ", stem),
            volitional: format!("{}ろう", stem),
            passive: format!("{}られる", stem),
            causative: format!("{}らせる", stem),
            hypothetical: format!("{}れば", stem),
            potential: format!("{}れる", stem),
            polite_volitional: format!("{}りましょう", stem),
        },
    };

    let expected = VerbConjugations::ru_conjugation(&stem);
    assert_eq!(actual, expected)
}

#[test]
fn should_conjugate_u() {
    let mut stem = String::from("買う");
    stem.pop();

    let actual: VerbConjugations = VerbConjugations {
        formal: Formal {
            present: format!("{}います", stem),
            negative: format!("{}いません", stem),
            past: format!("{}いました", stem),
            negative_past: format!("{}いませんでした", stem),
        },
        informal: Informal {
            present: format!("{}う", stem),
            negative: format!("{}わない", stem),
            past: format!("{}った", stem),
            negative_past: format!("{}わなかった", stem),
        },
        other: Other {
            te: format!("{}って", stem),
            imperative: format!("{}え", stem),
            volitional: format!("{}おう", stem),
            passive: format!("{}われる", stem),
            causative: format!("{}わせる", stem),
            hypothetical: format!("{}えば", stem),
            potential: format!("{}える", stem),
            polite_volitional: format!("{}いましょう", stem),
        },
    };

    let expected = VerbConjugations::u_conjugation(&stem);
    assert_eq!(actual, expected)
}

#[test]
fn should_conjugate_tsu() {
    let mut stem = String::from("撃つ");
    stem.pop();

    let actual: VerbConjugations = VerbConjugations {
        formal: Formal {
            present: format!("{}ちます", stem),
            negative: format!("{}ちません", stem),
            past: format!("{}ちました", stem),
            negative_past: format!("{}ちませんでした", stem),
        },
        informal: Informal {
            present: format!("{}つ", stem),
            negative: format!("{}たない", stem),
            past: format!("{}った", stem),
            negative_past: format!("{}たなかった", stem),
        },
        other: Other {
            te: format!("{}って", stem),
            imperative: format!("{}て", stem),
            volitional: format!("{}とう", stem),
            passive: format!("{}たれる", stem),
            causative: format!("{}たせる", stem),
            hypothetical: format!("{}てば", stem),
            potential: format!("{}てる", stem),
            polite_volitional: format!("{}ちましょう", stem),
        },
    };

    let expected = VerbConjugations::tsu_conjugation(&stem);
    assert_eq!(actual, expected)
}

#[test]
fn should_conjugate_suru() {
    let actual = VerbConjugations::conjugate_irregular("する");
    let expected: VerbConjugations = VerbConjugations {
        formal: Formal {
            present: String::from("します"),
            negative: String::from("しません"),
            past: String::from("しました"),
            negative_past: String::from("しませんでした"),
        },
        informal: Informal {
            present: String::from("する"),
            negative: String::from("しない"),
            past: String::from("した"),
            negative_past: String::from("しなかった"),
        },
        other: Other {
            te: String::from("して"),
            imperative: String::from("しろ"),
            volitional: String::from("しよう"),
            passive: String::from("される"),
            causative: String::from("させる"),
            hypothetical: String::from("すれば"),
            potential: String::from("できる"),
            polite_volitional: String::from("しましょう"),
        },
    };

    assert_eq!(actual, Some(expected))
}

#[test]
fn should_conjugate_kuru() {
    let actual = VerbConjugations::conjugate_irregular("くる");

    let expected: VerbConjugations = VerbConjugations {
        formal: Formal {
            present: String::from("きます"),
            negative: String::from("きません"),
            past: String::from("きました"),
            negative_past: String::from("きませんでした"),
        },
        informal: Informal {
            present: String::from("くる"),
            negative: String::from("こない"),
            past: String::from("きた"),
            negative_past: String::from("こなかった"),
        },
        other: Other {
            te: String::from("きて"),
            imperative: String::from("こい"),
            volitional: String::from("こよう"),
            passive: String::from("こられる"),
            causative: String::from("こさせる"),
            hypothetical: String::from("くれば"),
            potential: String::from("こられる"),
            polite_volitional: String::from("きましょう"),
        },
    };

    assert_eq!(actual, Some(expected))
}

#[test]
fn should_conjugate_benkyou_suru() {
    let actual = VerbConjugations::conjugate_irregular("勉強する");
    let expected: VerbConjugations = VerbConjugations {
        formal: Formal {
            present: String::from("勉強します"),
            negative: String::from("勉強しません"),
            past: String::from("勉強しました"),
            negative_past: String::from("勉強しませんでした"),
        },
        informal: Informal {
            present: String::from("勉強する"),
            negative: String::from("勉強しない"),
            past: String::from("勉強した"),
            negative_past: String::from("勉強しなかった"),
        },
        other: Other {
            te: String::from("勉強して"),
            imperative: String::from("勉強しろ"),
            volitional: String::from("勉強しよう"),
            passive: String::from("勉強される"),
            causative: String::from("勉強させる"),
            hypothetical: String::from("勉強すれば"),
            potential: String::from("勉強できる"),
            polite_volitional: String::from("勉強しましょう"),
        },
    };

    assert_eq!(actual, Some(expected))
}

#[test]
fn should_conjugate_yatte_kuru() {
    let actual = VerbConjugations::conjugate_irregular("やって来る");

    let expected: VerbConjugations = VerbConjugations {
        formal: Formal {
            present: String::from("やってきます"),
            negative: String::from("やってきません"),
            past: String::from("やってきました"),
            negative_past: String::from("やってきませんでした"),
        },
        informal: Informal {
            present: String::from("やってくる"),
            negative: String::from("やってこない"),
            past: String::from("やってきた"),
            negative_past: String::from("やってこなかった"),
        },
        other: Other {
            te: String::from("やってきて"),
            imperative: String::from("やってこい"),
            volitional: String::from("やってこよう"),
            passive: String::from("やってこられる"),
            causative: String::from("やってこさせる"),
            hypothetical: String::from("やってくれば"),
            potential: String::from("やってこられる"),
            polite_volitional: String::from("やってきましょう"),
        },
    };

    assert_eq!(actual, Some(expected))
}
