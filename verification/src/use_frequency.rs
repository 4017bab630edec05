//! How common a word is, read from the `<ke_pri>` priority codes.
use vstd::prelude::*;
use vstd::string::StrSliceExecFns;
use crate::text::{
    all_digits, decimal, digits_value, is_digit, lemma_decimal_digits, parse_u8, parse_u8_str, str_eq,
    str_starts_with, starts_with, unsigned_digits,
};

verus! {

/// A priority/frequency tag of a word.
#[derive(Debug, PartialEq, Eq, Clone, Copy, Structural)]
pub enum UseFrequency {
    Ichi(u8),
    News(u8),
    LoanWord(u8),
    NewsFrequency(u8),
}

/// The rank of a tag: lower means more common.
pub open spec fn priority_rank(f: UseFrequency) -> int {
    match f {
        UseFrequency::Ichi(n) => if n == 1 {
            1
        } else if n == 2 {
            2
        } else {
            255
        },
        UseFrequency::News(n) => if n == 1 {
            3
        } else if n == 2 {
            4
        } else {
            255
        },
        UseFrequency::LoanWord(n) => if n == 1 {
            5
        } else if n == 2 {
            6
        } else {
            255
        },
        UseFrequency::NewsFrequency(n) => 6 + n,
    }
}

/// The rank of the tag fits in a `u8` (a news-frequency band of at most 249).
pub open spec fn priority_fits(f: UseFrequency) -> bool {
    f matches UseFrequency::NewsFrequency(n) ==> n <= 249
}

/// The tag that a `<ke_pri>` code stands for.
pub open spec fn priority_code_meaning(v: Seq<char>) -> Option<UseFrequency> {
    if v == "ichi1"@ {
        Some(UseFrequency::Ichi(1))
    } else if v == "news1"@ {
        Some(UseFrequency::News(1))
    } else if v == "ichi2"@ {
        Some(UseFrequency::Ichi(2))
    } else if v == "news2"@ {
        Some(UseFrequency::News(2))
    } else if v == "gai1"@ {
        Some(UseFrequency::LoanWord(1))
    } else if v == "gai2"@ {
        Some(UseFrequency::LoanWord(2))
    } else if starts_with(v, "nf"@) {
        match parse_u8(v.skip(2)) {
            Some(n) => Some(UseFrequency::NewsFrequency(n)),
            None => None,
        }
    } else {
        None
    }
}

impl UseFrequency {
    /// Returns a rank where lower = higher priority.
    /// Ichi tags are most reliable for everyday usage; NewsFrequency(nf) is least.
    pub fn priority(&self) -> (r: u8)
        requires
            priority_fits(*self),
        ensures
            r == priority_rank(*self),
    {
        match self {
            UseFrequency::Ichi(n) => if *n == 1 {
                1
            } else if *n == 2 {
                2
            } else {
                u8::MAX
            },
            UseFrequency::News(n) => if *n == 1 {
                3
            } else if *n == 2 {
                4
            } else {
                u8::MAX
            },
            UseFrequency::LoanWord(n) => if *n == 1 {
                5
            } else if *n == 2 {
                6
            } else {
                u8::MAX
            },
            UseFrequency::NewsFrequency(n) => 6 + *n,
        }
    }

    /// The tag that a `<ke_pri>` code stands for, if any.
    pub fn from_priority_code(value: &str) -> (r: Option<Self>)
        ensures
            r == priority_code_meaning(value@),
    {
        if str_eq(value, "ichi1") {
            Some(UseFrequency::Ichi(1))
        } else if str_eq(value, "news1") {
            Some(UseFrequency::News(1))
        } else if str_eq(value, "ichi2") {
            Some(UseFrequency::Ichi(2))
        } else if str_eq(value, "news2") {
            Some(UseFrequency::News(2))
        } else if str_eq(value, "gai1") {
            Some(UseFrequency::LoanWord(1))
        } else if str_eq(value, "gai2") {
            Some(UseFrequency::LoanWord(2))
        } else if str_starts_with(value, "nf") {
            proof {
                reveal_strlit("nf");
            }
            let rest = value.substring_char(2, value.unicode_len());
            match parse_u8_str(rest) {
                Some(n) => Some(UseFrequency::NewsFrequency(n)),
                None => None,
            }
        } else {
            None
        }
    }
}

/// Tags rank in this order, from most to least common: `ichi1`, `ichi2`,
/// `news1`, `news2`, `gai1`, `gai2`, then every news-frequency band from 1
/// on; and a lower news-frequency band ranks before a higher one.
pub proof fn lemma_priority_order(n: u8, m: u8)
    requires
        1 <= n < m <= 249,
    ensures
        priority_rank(UseFrequency::Ichi(1)) < priority_rank(UseFrequency::Ichi(2)),
        priority_rank(UseFrequency::Ichi(2)) < priority_rank(UseFrequency::News(1)),
        priority_rank(UseFrequency::News(1)) < priority_rank(UseFrequency::News(2)),
        priority_rank(UseFrequency::News(2)) < priority_rank(UseFrequency::LoanWord(1)),
        priority_rank(UseFrequency::LoanWord(1)) < priority_rank(UseFrequency::LoanWord(2)),
        priority_rank(UseFrequency::LoanWord(2)) < priority_rank(UseFrequency::NewsFrequency(n)),
        priority_rank(UseFrequency::NewsFrequency(n)) < priority_rank(
            UseFrequency::NewsFrequency(m),
        ),
{
}


/// A news-frequency code read back: `nf` followed by a band written in
/// decimal stands for that band.
pub proof fn lemma_news_band_code(n: u8)
    ensures
        priority_code_meaning("nf"@ + decimal(n as nat)) == Some(UseFrequency::NewsFrequency(n)),
{
    reveal_strlit("nf");
    reveal_strlit("ichi1");
    reveal_strlit("news1");
    reveal_strlit("ichi2");
    reveal_strlit("news2");
    reveal_strlit("gai1");
    reveal_strlit("gai2");
    let d = decimal(n as nat);
    let code = "nf"@ + d;
    lemma_decimal_digits(n as nat);
    assert(code[0] == 'n' && code[1] == 'f');
    assert(code != "ichi1"@ && code != "gai1"@ && code != "gai2"@ && code != "ichi2"@) by {
        assert("ichi1"@[0] == 'i' && "ichi2"@[0] == 'i' && "gai1"@[0] == 'g' && "gai2"@[0] == 'g');
    }
    assert(code != "news1"@ && code != "news2"@) by {
        assert("news1"@[1] == 'e' && "news2"@[1] == 'e');
    }
    assert(code.take(2) =~= "nf"@);
    assert(code.skip(2) =~= d);
    assert(is_digit(d[0]));
    assert(unsigned_digits(d) == d);
}


/// Which tag each `<ke_pri>` code stands for, code by code: `ichi1`,
/// `ichi2`, `news1`, `news2`, `gai1` and `gai2` for the tags of that name,
/// `nf` followed by a number that fits in a `u8` for that news-frequency
/// band, and no tag for any other code.
pub proof fn lemma_priority_code_cases(v: Seq<char>)
    ensures
        priority_code_meaning(v) == Some(UseFrequency::Ichi(1)) <==> v == "ichi1"@,
        priority_code_meaning(v) == Some(UseFrequency::Ichi(2)) <==> v == "ichi2"@,
        priority_code_meaning(v) == Some(UseFrequency::News(1)) <==> v == "news1"@,
        priority_code_meaning(v) == Some(UseFrequency::News(2)) <==> v == "news2"@,
        priority_code_meaning(v) == Some(UseFrequency::LoanWord(1)) <==> v == "gai1"@,
        priority_code_meaning(v) == Some(UseFrequency::LoanWord(2)) <==> v == "gai2"@,
        forall|n: u8|
            #[trigger] priority_code_meaning(v) == Some(UseFrequency::NewsFrequency(n)) <==> (
            starts_with(v, "nf"@) && parse_u8(v.skip(2)) == Some(n)),
        priority_code_meaning(v) is None <==> !(v == "ichi1"@ || v == "ichi2"@ || v == "news1"@
            || v == "news2"@ || v == "gai1"@ || v == "gai2"@ || (starts_with(v, "nf"@) && parse_u8(
            v.skip(2),
        ) is Some)),
{
    reveal_strlit("nf");
    reveal_strlit("ichi1");
    reveal_strlit("news1");
    reveal_strlit("ichi2");
    reveal_strlit("news2");
    reveal_strlit("gai1");
    reveal_strlit("gai2");
    assert("ichi1"@[4] == '1' && "ichi2"@[4] == '2' && "news1"@[4] == '1' && "news2"@[4] == '2');
    assert("ichi1"@[0] == 'i' && "news1"@[0] == 'n' && "gai1"@[0] == 'g');
    assert("gai1"@[3] == '1' && "gai2"@[3] == '2');
    if v.len() >= 2 {
        assert(v.take(2)[0] == v[0]);
        assert(v.take(2)[1] == v[1]);
    }
}

} // verus!
