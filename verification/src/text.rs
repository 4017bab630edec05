//! Character-level string operations, each proved against a short
//! specification over the string's characters.
use vstd::prelude::*;
use vstd::string::StringExecFns;
use vstd::string::StrSliceExecFns;

verus! {

/// `p` occurs in `s` starting at index `i`.
pub open spec fn occurs_at(s: Seq<char>, p: Seq<char>, i: int) -> bool {
    0 <= i && i + p.len() <= s.len() && s.subrange(i, i + p.len()) == p
}

/// The index of the first occurrence of `p` in `s` at or after index `i`.
pub open spec fn find_from(s: Seq<char>, p: Seq<char>, i: int) -> Option<int>
    decreases s.len() + 1 - i,
{
    if i < 0 || i + p.len() > s.len() {
        None
    } else if occurs_at(s, p, i) {
        Some(i)
    } else {
        find_from(s, p, i + 1)
    }
}

/// The index of the first occurrence of `p` in `s`.
pub open spec fn find(s: Seq<char>, p: Seq<char>) -> Option<int> {
    find_from(s, p, 0)
}

/// `p` occurs somewhere in `s`.
pub open spec fn contains(s: Seq<char>, p: Seq<char>) -> bool {
    exists|i: int| occurs_at(s, p, i)
}

/// `s` begins with `p`.
pub open spec fn starts_with(s: Seq<char>, p: Seq<char>) -> bool {
    p.len() <= s.len() && s.take(p.len() as int) == p
}

/// `s` ends with `p`.
pub open spec fn ends_with(s: Seq<char>, p: Seq<char>) -> bool {
    p.len() <= s.len() && s.skip(s.len() - p.len()) == p
}

/// Splits `s` around the first occurrence of `p`: what stands before it and
/// what follows it.
pub open spec fn split_once(s: Seq<char>, p: Seq<char>) -> Option<(Seq<char>, Seq<char>)> {
    match find(s, p) {
        Some(i) => Some((s.take(i), s.skip(i + p.len()))),
        None => None,
    }
}

/// `s` with every occurrence of `from` replaced by `to`, the occurrences taken
/// from left to right without overlap (`from` is meant to be non-empty).
pub open spec fn replace(s: Seq<char>, from: Seq<char>, to: Seq<char>) -> Seq<char>
    decreases s.len(),
{
    if s.len() == 0 {
        Seq::<char>::empty()
    } else if from.len() > 0 && starts_with(s, from) {
        to + replace(s.skip(from.len() as int), from, to)
    } else {
        seq![s[0]] + replace(s.skip(1), from, to)
    }
}

/// The characters with the Unicode `White_Space` property.
pub open spec fn is_whitespace(c: char) -> bool {
    ||| ('\u{9}' <= c && c <= '\u{d}')
    ||| c == ' '
    ||| c == '\u{85}'
    ||| c == '\u{a0}'
    ||| c == '\u{1680}'
    ||| ('\u{2000}' <= c && c <= '\u{200a}')
    ||| c == '\u{2028}'
    ||| c == '\u{2029}'
    ||| c == '\u{202f}'
    ||| c == '\u{205f}'
    ||| c == '\u{3000}'
}

/// `s` without its leading whitespace.
pub open spec fn trim_start(s: Seq<char>) -> Seq<char>
    decreases s.len(),
{
    if s.len() > 0 && is_whitespace(s[0]) {
        trim_start(s.skip(1))
    } else {
        s
    }
}

/// `s` without its trailing whitespace.
pub open spec fn trim_end(s: Seq<char>) -> Seq<char>
    decreases s.len(),
{
    if s.len() > 0 && is_whitespace(s.last()) {
        trim_end(s.drop_last())
    } else {
        s
    }
}

/// `s` without leading and trailing whitespace.
pub open spec fn trim(s: Seq<char>) -> Seq<char> {
    trim_end(trim_start(s))
}

/// `c` is an ASCII decimal digit.
pub open spec fn is_digit(c: char) -> bool {
    '0' <= c && c <= '9'
}

/// The number that the decimal digits `s` write.
pub open spec fn digits_value(s: Seq<char>) -> int
    decreases s.len(),
{
    if s.len() == 0 {
        0
    } else {
        digits_value(s.drop_last()) * 10 + (s.last() as int - '0' as int)
    }
}

/// `s` without one leading `+`, if it has one.
pub open spec fn unsigned_digits(s: Seq<char>) -> Seq<char> {
    if s.len() > 0 && s[0] == '+' {
        s.skip(1)
    } else {
        s
    }
}

/// Every character of `s` is a decimal digit.
pub open spec fn all_digits(s: Seq<char>) -> bool {
    forall|i: int| 0 <= i < s.len() ==> is_digit(#[trigger] s[i])
}

/// What parsing `s` as a `u8` gives: an optional `+`, then at least one
/// decimal digit, with a value of at most 255.
pub open spec fn parse_u8(s: Seq<char>) -> Option<u8> {
    let d = unsigned_digits(s);
    if d.len() > 0 && all_digits(d) && digits_value(d) <= 255 {
        Some(digits_value(d) as u8)
    } else {
        None
    }
}

/// The decimal digit that writes `d` (meant for `d` below 10).
pub open spec fn digit_char(d: nat) -> char {
    if d == 0 {
        '0'
    } else if d == 1 {
        '1'
    } else if d == 2 {
        '2'
    } else if d == 3 {
        '3'
    } else if d == 4 {
        '4'
    } else if d == 5 {
        '5'
    } else if d == 6 {
        '6'
    } else if d == 7 {
        '7'
    } else if d == 8 {
        '8'
    } else {
        '9'
    }
}

/// `n` written in decimal, without leading zeros.
pub open spec fn decimal(n: nat) -> Seq<char>
    decreases n,
{
    if n < 10 {
        seq![digit_char(n)]
    } else {
        decimal(n / 10).push(digit_char(n % 10))
    }
}

/// The digit that writes `d` is a digit, and its value is `d`.
proof fn lemma_digit_char(d: nat)
    requires
        d < 10,
    ensures
        is_digit(digit_char(d)),
        digit_char(d) as int - '0' as int == d,
{
    assert('0' as int == 48 && '1' as int == 49 && '2' as int == 50 && '3' as int == 51 && '4' as int
        == 52 && '5' as int == 53 && '6' as int == 54 && '7' as int == 55 && '8' as int == 56
        && '9' as int == 57);
}

/// `n` written in decimal is a non-empty run of digits that writes `n`.
pub proof fn lemma_decimal_digits(n: nat)
    ensures
        decimal(n).len() > 0,
        all_digits(decimal(n)),
        digits_value(decimal(n)) == n,
    decreases n,
{
    if n < 10 {
        lemma_digit_char(n);
        assert(decimal(n).drop_last() =~= Seq::<char>::empty());
        assert(decimal(n).last() == digit_char(n));
        assert(digits_value(Seq::<char>::empty()) == 0);
    } else {
        let d = n % 10;
        lemma_digit_char(d);
        lemma_decimal_digits(n / 10);
        let s = decimal(n / 10);
        assert(decimal(n).drop_last() =~= s);
        assert(decimal(n).last() == digit_char(d));
        assert(n == (n / 10) * 10 + n % 10) by (nonlinear_arith);
        assert(digits_value(decimal(n)) == digits_value(s) * 10 + d);
        assert forall|i: int| 0 <= i < decimal(n).len() implies is_digit(#[trigger] decimal(n)[i]) by {
            if i < s.len() {
                assert(decimal(n)[i] == s[i]);
            }
        }
    }
}

/// What `find_from` gives: the first occurrence at or after `i`.
pub proof fn lemma_find_from(s: Seq<char>, p: Seq<char>, i: int)
    requires
        0 <= i,
    ensures
        match find_from(s, p, i) {
            Some(j) => i <= j && occurs_at(s, p, j) && forall|k: int|
                i <= k < j ==> !occurs_at(s, p, k),
            None => forall|k: int| i <= k ==> !occurs_at(s, p, k),
        },
    decreases s.len() + 1 - i,
{
    if i + p.len() > s.len() {
    } else if occurs_at(s, p, i) {
    } else {
        lemma_find_from(s, p, i + 1);
        assert forall|k: int| i <= k && k < i + 1 implies !occurs_at(s, p, k) by {
            assert(k == i);
        }
    }
}

/// A first occurrence found from any earlier start is found from here too.
pub proof fn lemma_find_from_skip(s: Seq<char>, p: Seq<char>, i: int, j: int)
    requires
        0 <= i <= j,
        forall|k: int| i <= k < j ==> !occurs_at(s, p, k),
    ensures
        find_from(s, p, i) == find_from(s, p, j),
    decreases j - i,
{
    if i < j {
        assert(!occurs_at(s, p, i));
        if i + p.len() > s.len() {
            lemma_find_from(s, p, j);
            lemma_find_from(s, p, i);
        } else {
            lemma_find_from_skip(s, p, i + 1, j);
        }
    }
}

/// `find` finds something exactly when `contains` holds.
pub proof fn lemma_find_contains(s: Seq<char>, p: Seq<char>)
    ensures
        find(s, p) is Some <==> contains(s, p),
{
    lemma_find_from(s, p, 0);
    if contains(s, p) {
        let k = choose|k: int| occurs_at(s, p, k);
        assert(0 <= k);
    }
}

/// Occurrences in a suffix are occurrences in the whole, shifted.
pub proof fn lemma_occurs_skip(s: Seq<char>, p: Seq<char>, a: int, k: int)
    requires
        0 <= a <= s.len(),
    ensures
        occurs_at(s.skip(a), p, k) <==> (0 <= k && occurs_at(s, p, a + k)),
{
    if 0 <= k && k + p.len() <= s.len() - a {
        assert(s.skip(a).subrange(k, k + p.len()) =~= s.subrange(a + k, a + k + p.len()));
    }
}

/// The first occurrence in a suffix is the first occurrence in the whole from
/// the suffix's start, shifted.
pub proof fn lemma_find_in_suffix(s: Seq<char>, p: Seq<char>, a: int)
    requires
        0 <= a <= s.len(),
    ensures
        match find(s.skip(a), p) {
            Some(k) => find_from(s, p, a) == Some(a + k),
            None => find_from(s, p, a) is None,
        },
{
    let t = s.skip(a);
    lemma_find_from(t, p, 0);
    lemma_find_from(s, p, a);
    match find(t, p) {
        Some(k) => {
            lemma_occurs_skip(s, p, a, k);
            assert forall|m: int| a <= m < a + k implies !occurs_at(s, p, m) by {
                lemma_occurs_skip(s, p, a, m - a);
            }
            match find_from(s, p, a) {
                Some(j) => {
                    lemma_occurs_skip(s, p, a, j - a);
                    if j < a + k {
                    } else if j > a + k {
                    }
                },
                None => {},
            }
        },
        None => {
            match find_from(s, p, a) {
                Some(j) => {
                    lemma_occurs_skip(s, p, a, j - a);
                },
                None => {},
            }
        },
    }
}

/// The characters of each string.
pub open spec fn strings_view(v: Seq<String>) -> Seq<Seq<char>> {
    v.map_values(|s: String| s@)
}

/// Some string of `list` contains `needle`.
pub open spec fn any_contains(list: Seq<Seq<char>>, needle: Seq<char>) -> bool {
    exists|k: int| 0 <= k < list.len() && contains(#[trigger] list[k], needle)
}

/// The characters of `s`, one by one.
pub fn chars_of(s: &str) -> (r: Vec<char>)
    ensures
        r@ == s@,
{
    let mut out: Vec<char> = Vec::new();
    for c in it: s.chars()
        invariant
            out@ == it.seq().take(it.index() as int),
            it.seq() == s@,
    {
        out.push(c);
    }
    out
}

/// Whether `pat` occurs in `hay` at index `i`.
pub fn occurs_at_index(hay: &Vec<char>, pat: &Vec<char>, i: usize) -> (r: bool)
    ensures
        r == occurs_at(hay@, pat@, i as int),
{
    if i > hay.len() || pat.len() > hay.len() - i {
        return false;
    }
    let hl = hay.len();
    let mut k: usize = 0;
    while k < pat.len()
        invariant
            hl == hay@.len(),
            i + pat@.len() <= hay@.len(),
            k <= pat@.len(),
            forall|m: int| 0 <= m < k ==> hay@[i + m] == pat@[m],
        decreases pat@.len() - k,
    {
        assert(i + k < hay@.len());
        let idx: usize = i + k;
        if hay[idx] != pat[k] {
            assert(hay@.subrange(i as int, i + pat@.len())[k as int] != pat@[k as int]);
            return false;
        }
        k = k + 1;
    }
    assert(hay@.subrange(i as int, i + pat@.len()) =~= pat@);
    true
}

/// The index of the first occurrence of `pat` in `hay` at or after `start`.
pub fn find_from_index(hay: &Vec<char>, pat: &Vec<char>, start: usize) -> (r: Option<usize>)
    ensures
        match r {
            Some(k) => find_from(hay@, pat@, start as int) == Some(k as int),
            None => find_from(hay@, pat@, start as int) is None,
        },
{
    let mut i = start;
    while i <= hay.len() && pat.len() <= hay.len() - i
        invariant
            start <= i,
            find_from(hay@, pat@, start as int) == find_from(hay@, pat@, i as int),
        decreases hay@.len() + 1 - i,
    {
        proof {
            if pat@.len() == 0 {
                assert(hay@.subrange(i as int, i as int) =~= pat@);
            }
        }
        if occurs_at_index(hay, pat, i) {
            return Some(i);
        }
        proof {
            lemma_find_from(hay@, pat@, i as int);
            lemma_find_from(hay@, pat@, start as int);
            lemma_find_from_skip(hay@, pat@, i as int, i + 1);
        }
        i = i + 1;
    }
    None
}

/// Whether `needle` occurs in `hay`.
pub fn str_contains(hay: &str, needle: &str) -> (r: bool)
    ensures
        r == contains(hay@, needle@),
{
    let h = chars_of(hay);
    let n = chars_of(needle);
    proof {
        lemma_find_contains(hay@, needle@);
    }
    find_from_index(&h, &n, 0).is_some()
}

/// Whether some string of `list` contains `needle`.
pub fn list_any_contains(list: &Vec<String>, needle: &str) -> (r: bool)
    ensures
        r == any_contains(strings_view(list@), needle@),
{
    let mut i: usize = 0;
    while i < list.len()
        invariant
            i <= list@.len(),
            forall|k: int| 0 <= k < i ==> !contains(#[trigger] list@[k]@, needle@),
        decreases list@.len() - i,
    {
        if str_contains(list[i].as_str(), needle) {
            assert(strings_view(list@)[i as int] == list@[i as int]@);
            return true;
        }
        i = i + 1;
    }
    assert forall|k: int| 0 <= k < list@.len() implies !contains(
        #[trigger] strings_view(list@)[k],
        needle@,
    ) by {
        assert(strings_view(list@)[k] == list@[k]@);
    }
    false
}

/// Whether `a` and `b` hold the same characters.
pub fn str_eq(a: &str, b: &str) -> (r: bool)
    ensures
        r == (a@ == b@),
{
    let x = chars_of(a);
    let y = chars_of(b);
    if x.len() != y.len() {
        return false;
    }
    let r = occurs_at_index(&x, &y, 0);
    assert(x@.subrange(0, y@.len() as int) =~= x@);
    r
}

/// Whether `s` begins with `p`.
pub fn str_starts_with(s: &str, p: &str) -> (r: bool)
    ensures
        r == starts_with(s@, p@),
{
    let x = chars_of(s);
    let y = chars_of(p);
    let r = occurs_at_index(&x, &y, 0);
    proof {
        if y@.len() <= x@.len() {
            assert(x@.subrange(0, y@.len() as int) =~= x@.take(y@.len() as int));
        }
    }
    r
}

/// Whether `s` ends with `p`.
pub fn str_ends_with(s: &str, p: &str) -> (r: bool)
    ensures
        r == ends_with(s@, p@),
{
    let x = chars_of(s);
    let y = chars_of(p);
    if y.len() > x.len() {
        return false;
    }
    let r = occurs_at_index(&x, &y, x.len() - y.len());
    proof {
        assert(x@.subrange(x@.len() - y@.len(), x@.len() as int) =~= x@.skip(
            x@.len() - y@.len(),
        ));
    }
    r
}

/// A new string: `a` followed by `b`.
pub fn concat(a: &str, b: &str) -> (r: String)
    ensures
        r@ == a@ + b@,
{
    String::from_str(a).concat(b)
}

/// One step of `replace`: an occurrence at the front is replaced.
proof fn lemma_replace_step(s: Seq<char>, from: Seq<char>, to: Seq<char>, i: int)
    requires
        0 <= i < s.len(),
        from.len() > 0,
    ensures
        occurs_at(s, from, i) ==> replace(s.skip(i), from, to) == to + replace(
            s.skip(i + from.len()),
            from,
            to,
        ),
        !occurs_at(s, from, i) ==> replace(s.skip(i), from, to) == seq![s[i]] + replace(
            s.skip(i + 1),
            from,
            to,
        ),
{
    let t = s.skip(i);
    if from.len() <= t.len() {
        assert(t.take(from.len() as int) =~= s.subrange(i, i + from.len()));
    }
    if i + from.len() <= s.len() {
        assert(t.skip(from.len() as int) =~= s.skip(i + from.len()));
    }
    assert(t.skip(1) =~= s.skip(i + 1));
}

/// `s` with every occurrence of `from` replaced by `to`.
pub fn replace_all(s: &str, from: &str, to: &str) -> (r: String)
    requires
        from@.len() > 0,
    ensures
        r@ == replace(s@, from@, to@),
{
    let hay = chars_of(s);
    let pat = chars_of(from);
    let n = hay.len();
    let mut out = String::new();
    let mut i: usize = 0;
    let mut last: usize = 0;
    assert(s@.skip(0) =~= s@);
    while i < n
        invariant
            hay@ == s@,
            pat@ == from@,
            n == s@.len(),
            from@.len() > 0,
            last <= i <= n,
            replace(s@, from@, to@) == out@ + s@.subrange(last as int, i as int) + replace(
                s@.skip(i as int),
                from@,
                to@,
            ),
        decreases n - i,
    {
        proof {
            lemma_replace_step(s@, from@, to@, i as int);
        }
        if occurs_at_index(&hay, &pat, i) {
            let piece = s.substring_char(last, i);
            out.append(piece);
            out.append(to);
            i = i + pat.len();
            last = i;
            assert(s@.subrange(last as int, i as int) =~= Seq::<char>::empty());
        } else {
            assert(s@.subrange(last as int, i as int) + seq![s@[i as int]] =~= s@.subrange(
                last as int,
                i + 1,
            ));
            i = i + 1;
        }
    }
    let piece = s.substring_char(last, n);
    out.append(piece);
    assert(s@.skip(n as int) =~= Seq::<char>::empty());
    out
}

/// Leading whitespace stripped up to the first other character.
proof fn lemma_trim_start(s: Seq<char>, a: int)
    requires
        0 <= a <= s.len(),
        forall|k: int| 0 <= k < a ==> is_whitespace(#[trigger] s[k]),
        a == s.len() || !is_whitespace(s[a]),
    ensures
        trim_start(s) == s.skip(a),
    decreases a,
{
    if a == 0 {
        assert(s.skip(0) =~= s);
    } else {
        let t = s.skip(1);
        assert forall|k: int| 0 <= k < a - 1 implies is_whitespace(#[trigger] t[k]) by {
            assert(t[k] == s[k + 1]);
        }
        lemma_trim_start(t, a - 1);
        assert(t.skip(a - 1) =~= s.skip(a));
    }
}

/// Trailing whitespace stripped back to the last other character.
proof fn lemma_trim_end(s: Seq<char>, b: int)
    requires
        0 <= b <= s.len(),
        forall|k: int| b <= k < s.len() ==> is_whitespace(#[trigger] s[k]),
        b == 0 || !is_whitespace(s[b - 1]),
    ensures
        trim_end(s) == s.take(b),
    decreases s.len() - b,
{
    if b == s.len() {
        assert(s.take(b) =~= s);
    } else {
        let t = s.drop_last();
        assert forall|k: int| b <= k < t.len() implies is_whitespace(#[trigger] t[k]) by {
            assert(t[k] == s[k]);
        }
        assert(is_whitespace(s[s.len() - 1]));
        lemma_trim_end(t, b);
        assert(t.take(b) =~= s.take(b));
    }
}

/// Whether `c` has the Unicode `White_Space` property.
pub fn char_is_whitespace(c: char) -> (r: bool)
    ensures
        r == is_whitespace(c),
{
    ('\u{9}' <= c && c <= '\u{d}') || c == ' ' || c == '\u{85}' || c == '\u{a0}' || c
        == '\u{1680}' || ('\u{2000}' <= c && c <= '\u{200a}') || c == '\u{2028}' || c
        == '\u{2029}' || c == '\u{202f}' || c == '\u{205f}' || c == '\u{3000}'
}

/// `s` without leading and trailing whitespace.
pub fn trim_str(s: &str) -> (r: &str)
    ensures
        r@ == trim(s@),
{
    let x = chars_of(s);
    let n = x.len();
    let mut a: usize = 0;
    while a < n && char_is_whitespace(x[a])
        invariant
            x@ == s@,
            n == x@.len(),
            a <= n,
            forall|k: int| 0 <= k < a ==> is_whitespace(#[trigger] x@[k]),
        decreases n - a,
    {
        a = a + 1;
    }
    let mut b: usize = n;
    while b > a && char_is_whitespace(x[b - 1])
        invariant
            x@ == s@,
            n == x@.len(),
            a <= b <= n,
            forall|k: int| b <= k < n ==> is_whitespace(#[trigger] x@[k]),
        decreases b,
    {
        b = b - 1;
    }
    proof {
        lemma_trim_start(s@, a as int);
        let t = s@.skip(a as int);
        assert forall|k: int| b - a <= k < t.len() implies is_whitespace(#[trigger] t[k]) by {
            assert(t[k] == s@[a + k]);
        }
        if b > a {
            assert(t[b - a - 1] == s@[b - 1]);
        }
        lemma_trim_end(t, b - a);
        assert(t.take(b - a) =~= s@.subrange(a as int, b as int));
    }
    s.substring_char(a, b)
}

/// Longer digit strings never write smaller numbers.
proof fn lemma_digits_value_grows(d: Seq<char>, k: int)
    requires
        0 <= k <= d.len(),
        forall|i: int| 0 <= i < d.len() ==> is_digit(#[trigger] d[i]),
    ensures
        digits_value(d.take(k)) <= digits_value(d),
        digits_value(d) >= 0,
    decreases d.len(),
{
    if d.len() > 0 {
        let e = d.drop_last();
        assert forall|i: int| 0 <= i < e.len() implies is_digit(#[trigger] e[i]) by {
            assert(e[i] == d[i]);
        }
        assert(is_digit(d[d.len() - 1]));
        if k == d.len() {
            assert(d.take(k) =~= d);
            lemma_digits_value_grows(e, 0);
        } else {
            lemma_digits_value_grows(e, k);
            assert(e.take(k) =~= d.take(k));
        }
    } else {
        assert(d.take(k) =~= d);
    }
}

/// Parses `s` as a `u8`: an optional `+` and then decimal digits.
pub fn parse_u8_str(s: &str) -> (r: Option<u8>)
    ensures
        r == parse_u8(s@),
{
    let x = chars_of(s);
    let n = x.len();
    let start: usize = if n > 0 && x[0] == '+' {
        1
    } else {
        0
    };
    let ghost d = unsigned_digits(s@);
    assert(d =~= s@.skip(start as int));
    if start >= n {
        return None;
    }
    let mut value: u32 = 0;
    let mut i: usize = start;
    let mut too_big = false;
    assert(d.take(0) =~= Seq::<char>::empty());
    while i < n
        invariant
            x@ == s@,
            n == x@.len(),
            start <= i <= n,
            d == s@.skip(start as int),
            d == unsigned_digits(s@),
            forall|k: int| 0 <= k < i - start ==> is_digit(#[trigger] d[k]),
            !too_big ==> value == digits_value(d.take(i - start)) && value <= 255,
            too_big ==> digits_value(d.take(i - start)) > 255,
        decreases n - i,
    {
        let c = x[i];
        if c < '0' || c > '9' {
            assert(!is_digit(d[i - start]));
            assert(!all_digits(d));
            return None;
        }
        let ghost j = i - start;
        proof {
            assert(d.take(j + 1).drop_last() =~= d.take(j));
            assert(d.take(j + 1).last() == c);
        }
        if !too_big {
            let digit: u32 = (c as u32) - ('0' as u32);
            value = value * 10 + digit;
            if value > 255 {
                too_big = true;
            }
        } else {
            proof {
                lemma_digits_prefix_step(d, j);
            }
        }
        i = i + 1;
    }
    assert(d.take(n - start) =~= d);
    if too_big {
        None
    } else {
        Some(value as u8)
    }
}

/// Appending a digit to a digit string keeps its value from shrinking.
proof fn lemma_digits_prefix_step(d: Seq<char>, j: int)
    requires
        0 <= j < d.len(),
        forall|k: int| 0 <= k <= j ==> is_digit(#[trigger] d[k]),
    ensures
        digits_value(d.take(j)) <= digits_value(d.take(j + 1)),
{
    let dp = d.take(j + 1);
    assert forall|k: int| 0 <= k < dp.len() implies is_digit(#[trigger] dp[k]) by {
        assert(dp[k] == d[k]);
    }
    lemma_digits_value_grows(dp, j);
    assert(dp.take(j) =~= d.take(j));
}

} // verus!
