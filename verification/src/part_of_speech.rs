//! Parts of speech, read from the `<pos>` codes of a dictionary entry.
use vstd::prelude::*;
use vstd::string::StringExecFns;
use crate::text::{str_eq, str_starts_with, starts_with};

verus! {

/// The part of speech of a word.
#[derive(Debug, PartialEq, Eq, Hash, Clone, Copy, Structural)]
pub enum PartOfSpeech {
    Verb(VerbType),
    Noun,
    Adjective,
    Adverbs,
}

/// The conjugation class (or transitivity) of a verb.
#[derive(Debug, PartialEq, Eq, Hash, Clone, Copy, Structural)]
pub enum VerbType {
    Ichidan,
    Godan,
    Irregular,
    Transitive,
    Intransitive,
}

/// The code of every Godan sub-class starts with this.
pub const GODAN: &'static str = "&v5";

/// The code of every noun class starts with this.
pub const NOUNS: &'static str = "&n";

/// The code of every adjective class (but the auxiliary one) starts with this.
pub const ADJECTIVES: &'static str = "&adj";

/// The code of the auxiliary adjective class starts with this.
pub const AUX_ADJECTIVE: &'static str = "&aux-adj";

/// The code of every adverb class starts with this.
pub const ADVERBS: &'static str = "&adv";

/// The code of a transitive verb.
pub const TRANSITIVE: &'static str = "&vt;";

/// The code of an intransitive verb.
pub const INTRANSITIVE: &'static str = "&vi;";

/// The exact codes of the Ichidan classes.
pub open spec fn is_ichidan_code(v: Seq<char>) -> bool {
    v == "&v1;"@ || v == "&v1-s;"@ || v == "&vz;"@
}

/// The exact codes of the irregular (する / くる) classes.
pub open spec fn is_irregular_code(v: Seq<char>) -> bool {
    ||| v == "&vk;"@
    ||| v == "&vn;"@
    ||| v == "&vr;"@
    ||| v == "&vs;"@
    ||| v == "&vs-c;"@
    ||| v == "&vs-i;"@
    ||| v == "&vs-s;"@
}

/// The part of speech that a `<pos>` code stands for, the first rule that
/// applies deciding.
pub open spec fn pos_code_meaning(v: Seq<char>) -> Option<PartOfSpeech> {
    if is_ichidan_code(v) {
        Some(PartOfSpeech::Verb(VerbType::Ichidan))
    } else if starts_with(v, GODAN@) {
        Some(PartOfSpeech::Verb(VerbType::Godan))
    } else if is_irregular_code(v) {
        Some(PartOfSpeech::Verb(VerbType::Irregular))
    } else if v == TRANSITIVE@ {
        Some(PartOfSpeech::Verb(VerbType::Transitive))
    } else if v == INTRANSITIVE@ {
        Some(PartOfSpeech::Verb(VerbType::Intransitive))
    } else if starts_with(v, NOUNS@) {
        Some(PartOfSpeech::Noun)
    } else if starts_with(v, ADJECTIVES@) || starts_with(v, AUX_ADJECTIVE@) {
        Some(PartOfSpeech::Adjective)
    } else if starts_with(v, ADVERBS@) {
        Some(PartOfSpeech::Adverbs)
    } else {
        None
    }
}

impl PartOfSpeech {
    /// Takes a `<pos>` tag value and converts it to a `PartOfSpeech`.
    pub fn from_pos_code(value: &str) -> (r: Option<Self>)
        ensures
            r == pos_code_meaning(value@),
    {
        if str_eq(value, "&v1;") || str_eq(value, "&v1-s;") || str_eq(value, "&vz;") {
            Some(PartOfSpeech::Verb(VerbType::Ichidan))
        } else if str_starts_with(value, GODAN) {
            Some(PartOfSpeech::Verb(VerbType::Godan))
        } else if str_eq(value, "&vk;") || str_eq(value, "&vn;") || str_eq(value, "&vr;")
            || str_eq(value, "&vs;") || str_eq(value, "&vs-c;") || str_eq(value, "&vs-i;")
            || str_eq(value, "&vs-s;") {
            Some(PartOfSpeech::Verb(VerbType::Irregular))
        } else if str_eq(value, TRANSITIVE) {
            Some(PartOfSpeech::Verb(VerbType::Transitive))
        } else if str_eq(value, INTRANSITIVE) {
            Some(PartOfSpeech::Verb(VerbType::Intransitive))
        } else if str_starts_with(value, NOUNS) {
            Some(PartOfSpeech::Noun)
        } else if str_starts_with(value, ADJECTIVES) || str_starts_with(value, AUX_ADJECTIVE) {
            Some(PartOfSpeech::Adjective)
        } else if str_starts_with(value, ADVERBS) {
            Some(PartOfSpeech::Adverbs)
        } else {
            None
        }
    }
}

/// The name under which a verb type is shown.
pub open spec fn verb_type_name(t: VerbType) -> Seq<char> {
    match t {
        VerbType::Ichidan => "Ichidan Verb"@,
        VerbType::Godan => "Godan Verb"@,
        VerbType::Irregular => "Irregular Verb"@,
        VerbType::Transitive => "Transitive Verb"@,
        VerbType::Intransitive => "Intransitive Verb"@,
    }
}

impl VerbType {
    /// The name under which this verb type is shown.
    pub fn display_name(&self) -> (r: String)
        ensures
            r@ == verb_type_name(*self),
    {
        let s = match self {
            VerbType::Ichidan => "Ichidan Verb",
            VerbType::Godan => "Godan Verb",
            VerbType::Irregular => "Irregular Verb",
            VerbType::Transitive => "Transitive Verb",
            VerbType::Intransitive => "Intransitive Verb",
        };
        String::from_str(s)
    }
}


/// The prefix families: every code that starts with `&v5` is a Godan verb,
/// every code that starts with `&n` a noun, every code that starts with
/// `&adj` or `&aux-adj` an adjective, and every code that starts with `&adv`
/// an adverb.
pub proof fn lemma_pos_prefixes(v: Seq<char>)
    ensures
        starts_with(v, GODAN@) ==> pos_code_meaning(v) == Some(
            PartOfSpeech::Verb(VerbType::Godan),
        ),
        starts_with(v, NOUNS@) ==> pos_code_meaning(v) == Some(PartOfSpeech::Noun),
        starts_with(v, ADJECTIVES@) || starts_with(v, AUX_ADJECTIVE@) ==> pos_code_meaning(v)
            == Some(PartOfSpeech::Adjective),
        starts_with(v, ADVERBS@) ==> pos_code_meaning(v) == Some(PartOfSpeech::Adverbs),
{
    reveal_strlit("&v1;");
    reveal_strlit("&v1-s;");
    reveal_strlit("&vz;");
    reveal_strlit("&v5");
    reveal_strlit("&vk;");
    reveal_strlit("&vn;");
    reveal_strlit("&vr;");
    reveal_strlit("&vs;");
    reveal_strlit("&vs-c;");
    reveal_strlit("&vs-i;");
    reveal_strlit("&vs-s;");
    reveal_strlit("&vt;");
    reveal_strlit("&vi;");
    reveal_strlit("&n");
    reveal_strlit("&adj");
    reveal_strlit("&aux-adj");
    reveal_strlit("&adv");
    if v.len() >= 2 {
        assert(v.take(2)[1] == v[1]);
    }
    if v.len() >= 3 {
        assert(v.take(3)[2] == v[2]);
        assert(v.take(3)[1] == v[1]);
    }
    if v.len() >= 4 {
        assert(v.take(4)[3] == v[3]);
        assert(v.take(4)[2] == v[2]);
        assert(v.take(4)[1] == v[1]);
    }
    if v.len() >= 1 {
        assert(v.take(1)[0] == v[0]);
    }
}


/// Which part of speech each `<pos>` code stands for, code by code: the
/// Ichidan codes `&v1;`, `&v1-s;` and `&vz;`; every code that starts with
/// `&v5` (Godan); the irregular codes `&vk;`, `&vn;`, `&vr;`, `&vs;`,
/// `&vs-c;`, `&vs-i;` and `&vs-s;`; `&vt;` and `&vi;` (transitive,
/// intransitive); every code that starts with `&n` (noun), with `&adj` or
/// `&aux-adj` (adjective), or with `&adv` (adverb). Any other code, such as
/// that of a particle, stands for none.
pub proof fn lemma_pos_code_cases(v: Seq<char>)
    ensures
        pos_code_meaning(v) == Some(PartOfSpeech::Verb(VerbType::Ichidan)) <==> (v == "&v1;"@ || v
            == "&v1-s;"@ || v == "&vz;"@),
        pos_code_meaning(v) == Some(PartOfSpeech::Verb(VerbType::Godan)) <==> starts_with(
            v,
            "&v5"@,
        ),
        pos_code_meaning(v) == Some(PartOfSpeech::Verb(VerbType::Irregular)) <==> (v == "&vk;"@
            || v == "&vn;"@ || v == "&vr;"@ || v == "&vs;"@ || v == "&vs-c;"@ || v == "&vs-i;"@
            || v == "&vs-s;"@),
        pos_code_meaning(v) == Some(PartOfSpeech::Verb(VerbType::Transitive)) <==> v == "&vt;"@,
        pos_code_meaning(v) == Some(PartOfSpeech::Verb(VerbType::Intransitive)) <==> v == "&vi;"@,
        pos_code_meaning(v) == Some(PartOfSpeech::Noun) <==> starts_with(v, "&n"@),
        pos_code_meaning(v) == Some(PartOfSpeech::Adjective) <==> (starts_with(v, "&adj"@)
            || starts_with(v, "&aux-adj"@)),
        pos_code_meaning(v) == Some(PartOfSpeech::Adverbs) <==> starts_with(v, "&adv"@),
        pos_code_meaning(v) is None <==> !(v == "&v1;"@ || v == "&v1-s;"@ || v == "&vz;"@
            || starts_with(v, "&v5"@) || v == "&vk;"@ || v == "&vn;"@ || v == "&vr;"@ || v
            == "&vs;"@ || v == "&vs-c;"@ || v == "&vs-i;"@ || v == "&vs-s;"@ || v == "&vt;"@ || v
            == "&vi;"@ || starts_with(v, "&n"@) || starts_with(v, "&adj"@) || starts_with(
            v,
            "&aux-adj"@,
        ) || starts_with(v, "&adv"@)),
{
    lemma_pos_prefixes(v);
    reveal_strlit("&v1;");
    reveal_strlit("&v1-s;");
    reveal_strlit("&vz;");
    reveal_strlit("&v5");
    reveal_strlit("&vk;");
    reveal_strlit("&vn;");
    reveal_strlit("&vr;");
    reveal_strlit("&vs;");
    reveal_strlit("&vs-c;");
    reveal_strlit("&vs-i;");
    reveal_strlit("&vs-s;");
    reveal_strlit("&vt;");
    reveal_strlit("&vi;");
    reveal_strlit("&n");
    reveal_strlit("&adj");
    reveal_strlit("&aux-adj");
    reveal_strlit("&adv");
    if v.len() >= 1 {
        assert(v.take(1)[0] == v[0]);
    }
    if v.len() >= 2 {
        assert(v.take(2)[1] == v[1]);
    }
    if v.len() >= 3 {
        assert(v.take(3)[2] == v[2]);
        assert(v.take(3)[1] == v[1]);
    }
    if v.len() >= 4 {
        assert(v.take(4)[3] == v[3]);
        assert(v.take(4)[2] == v[2]);
        assert(v.take(4)[1] == v[1]);
    }
}

} // verus!
