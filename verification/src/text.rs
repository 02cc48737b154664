//! Text primitives shared by the parsers: whitespace, pattern search, tokens,
//! trimming, ASCII case folding and decimal numerals, each as a specification
//! over `Seq<char>` with an executable counterpart on `&[char]`.

use vstd::prelude::*;

verus! {

/// The characters with the Unicode `White_Space` property.
pub open spec fn is_whitespace(c: char) -> bool {
    ||| '\u{9}' <= c <= '\u{D}'
    ||| c == ' '
    ||| c == '\u{85}'
    ||| c == '\u{A0}'
    ||| c == '\u{1680}'
    ||| '\u{2000}' <= c <= '\u{200A}'
    ||| c == '\u{2028}'
    ||| c == '\u{2029}'
    ||| c == '\u{202F}'
    ||| c == '\u{205F}'
    ||| c == '\u{3000}'
}

/// The line terminator of the wire format.
pub open spec fn crlf() -> Seq<char> {
    seq!['\r', '\n']
}

/// The blank line that ends a header block: two line terminators.
pub open spec fn delimiter() -> Seq<char> {
    seq!['\r', '\n', '\r', '\n']
}

/// `pat` occurs in `s` at index `i`.
pub open spec fn matches_at(s: Seq<char>, pat: Seq<char>, i: int) -> bool {
    &&& 0 <= i
    &&& i + pat.len() <= s.len()
    &&& s.subrange(i, i + pat.len()) == pat
}

/// The first index at or after `from` where `pat` occurs in `s`.
pub open spec fn find_from(s: Seq<char>, pat: Seq<char>, from: int) -> Option<int>
    decreases s.len() - from,
{
    if from < 0 || from + pat.len() > s.len() {
        None
    } else if matches_at(s, pat, from) {
        Some(from)
    } else if from < s.len() {
        find_from(s, pat, from + 1)
    } else {
        None
    }
}

/// The first index where `pat` occurs in `s`.
pub open spec fn find(s: Seq<char>, pat: Seq<char>) -> Option<int> {
    find_from(s, pat, 0)
}

/// `find_from` returns the least match at or after `from`, and `None` only
/// when there is none.
pub proof fn lemma_find_from(s: Seq<char>, pat: Seq<char>, from: int)
    requires
        0 <= from,
    ensures
        match find_from(s, pat, from) {
            Some(i) => from <= i && matches_at(s, pat, i) && forall|j: int|
                from <= j < i ==> !matches_at(s, pat, j),
            None => forall|j: int| from <= j ==> !matches_at(s, pat, j),
        },
    decreases s.len() - from,
{
    if from + pat.len() > s.len() {
    } else if matches_at(s, pat, from) {
    } else if from < s.len() {
        lemma_find_from(s, pat, from + 1);
    } else {
        assert(s.subrange(from, from + pat.len()) =~= pat);
    }
}

/// A match with no earlier match is what `find_from` returns.
pub proof fn lemma_find_from_is(s: Seq<char>, pat: Seq<char>, from: int, i: int)
    requires
        0 <= from <= i,
        matches_at(s, pat, i),
        forall|j: int| from <= j < i ==> !matches_at(s, pat, j),
    ensures
        find_from(s, pat, from) == Some(i),
{
    lemma_find_from(s, pat, from);
}

/// The index of the first character at or after `i` that is not whitespace,
/// or the length of `s`.
pub open spec fn skip_whitespace(s: Seq<char>, i: int) -> int
    decreases s.len() - i,
{
    if 0 <= i < s.len() && is_whitespace(s[i]) {
        skip_whitespace(s, i + 1)
    } else {
        i
    }
}

/// The index of the first whitespace character at or after `i`, or the
/// length of `s`.
pub open spec fn skip_word(s: Seq<char>, i: int) -> int
    decreases s.len() - i,
{
    if 0 <= i < s.len() && !is_whitespace(s[i]) {
        skip_word(s, i + 1)
    } else {
        i
    }
}

/// The maximal runs of non-whitespace characters of `s` from index `i` on,
/// in order.
pub open spec fn tokens_from(s: Seq<char>, i: int) -> Seq<Seq<char>>
    decreases s.len() - i,
{
    let a = skip_whitespace(s, i);
    let b = skip_word(s, a);
    if 0 <= i <= a < b <= s.len() {
        seq![s.subrange(a, b)] + tokens_from(s, b)
    } else {
        Seq::empty()
    }
}

/// The whitespace-separated words of `s`.
pub open spec fn tokens(s: Seq<char>) -> Seq<Seq<char>> {
    tokens_from(s, 0)
}

/// The index just after the last character of `s` that is not whitespace,
/// looking only below `end`; `0` when there is none.
pub open spec fn trim_end_index(s: Seq<char>, end: int) -> int
    decreases end,
{
    if 0 < end <= s.len() && is_whitespace(s[end - 1]) {
        trim_end_index(s, end - 1)
    } else {
        end
    }
}

/// `s` without its leading and trailing whitespace.
pub open spec fn trim(s: Seq<char>) -> Seq<char> {
    let a = skip_whitespace(s, 0);
    let b = trim_end_index(s, s.len() as int);
    if a <= b {
        s.subrange(a, b)
    } else {
        Seq::empty()
    }
}

/// Skipping whitespace from `i` stops within `s`, passes over whitespace
/// only, and stops at a character that is not whitespace or at the end.
pub proof fn lemma_skip_whitespace(s: Seq<char>, i: int)
    requires
        0 <= i <= s.len(),
    ensures
        i <= skip_whitespace(s, i) <= s.len(),
        forall|j: int| i <= j < skip_whitespace(s, i) ==> is_whitespace(#[trigger] s[j]),
        skip_whitespace(s, i) < s.len() ==> !is_whitespace(s[skip_whitespace(s, i)]),
    decreases s.len() - i,
{
    if i < s.len() && is_whitespace(s[i]) {
        lemma_skip_whitespace(s, i + 1);
    }
}

/// Skipping a word from `i` stops within `s`, passes over no whitespace,
/// and stops at a whitespace character or at the end.
pub proof fn lemma_skip_word(s: Seq<char>, i: int)
    requires
        0 <= i <= s.len(),
    ensures
        i <= skip_word(s, i) <= s.len(),
        forall|j: int| i <= j < skip_word(s, i) ==> !is_whitespace(#[trigger] s[j]),
        skip_word(s, i) < s.len() ==> is_whitespace(s[skip_word(s, i)]),
    decreases s.len() - i,
{
    if i < s.len() && !is_whitespace(s[i]) {
        lemma_skip_word(s, i + 1);
    }
}

/// Trimming the end below `end` stops at or below `end`, drops whitespace
/// only, and stops after a character that is not whitespace or at the
/// start.
pub proof fn lemma_trim_end_index(s: Seq<char>, end: int)
    requires
        0 <= end <= s.len(),
    ensures
        0 <= trim_end_index(s, end) <= end,
        forall|j: int| trim_end_index(s, end) <= j < end ==> is_whitespace(#[trigger] s[j]),
        trim_end_index(s, end) > 0 ==> !is_whitespace(s[trim_end_index(s, end) - 1]),
    decreases end,
{
    if 0 < end && is_whitespace(s[end - 1]) {
        lemma_trim_end_index(s, end - 1);
    }
}

/// Whether `c` is whitespace.
pub fn char_is_whitespace(c: char) -> (b: bool)
    ensures
        b == is_whitespace(c),
{
    (c >= '\u{9}' && c <= '\u{D}') || c == ' ' || c == '\u{85}' || c == '\u{A0}' || c
        == '\u{1680}' || (c >= '\u{2000}' && c <= '\u{200A}') || c == '\u{2028}' || c
        == '\u{2029}' || c == '\u{202F}' || c == '\u{205F}' || c == '\u{3000}'
}

/// The characters of `s`, in order.
pub fn chars_of(s: &str) -> (v: Vec<char>)
    ensures
        v@ == s@,
{
    let mut v: Vec<char> = Vec::new();
    for c in it: s.chars()
        invariant
            v@ == it.seq().subrange(0, it.index() as int),
    {
        v.push(c);
    }
    v
}

/// The characters of `s` from index `a` up to index `b`, as a string.
pub(crate) fn piece(s: &str, a: usize, b: usize) -> (r: String)
    requires
        a <= b <= s@.len(),
    ensures
        r@ == s@.subrange(a as int, b as int),
{
    String::from_str(s.substring_char(a, b))
}

/// Whether two strings hold the same characters.
pub fn str_eq(a: &str, b: &str) -> (r: bool)
    ensures
        r == (a@ == b@),
{
    String::from_str(a) == String::from_str(b)
}

/// Whether `pat` occurs in `s` at index `i`.
pub fn occurs_at(s: &[char], pat: &[char], i: usize) -> (b: bool)
    ensures
        b == matches_at(s@, pat@, i as int),
{
    if pat.len() > s.len() || i > s.len() - pat.len() {
        return false;
    }
    let mut k: usize = 0;
    while k < pat.len()
        invariant
            i + pat.len() <= s.len(),
            k <= pat.len(),
            forall|j: int| 0 <= j < k ==> s@[i + j] == pat@[j],
        decreases pat.len() - k,
    {
        if s[i + k] != pat[k] {
            return false;
        }
        k = k + 1;
    }
    proof {
        assert(s@.subrange(i as int, i + pat.len()) =~= pat@);
    }
    true
}

/// The first index at or after `from` where `pat` occurs in `s`.
pub fn find_in(s: &[char], pat: &[char], from: usize) -> (r: Option<usize>)
    ensures
        match r {
            Some(i) => find_from(s@, pat@, from as int) == Some(i as int),
            None => find_from(s@, pat@, from as int).is_none(),
        },
{
    if pat.len() > s.len() {
        return None;
    }
    let last: usize = s.len() - pat.len();
    let mut i: usize = from;
    while i <= last
        invariant
            last + pat.len() == s.len(),
            from <= i,
            find_from(s@, pat@, from as int) == find_from(s@, pat@, i as int),
        decreases s.len() - i,
    {
        if occurs_at(s, pat, i) {
            return Some(i);
        }
        if i == s.len() {
            return None;
        }
        i = i + 1;
    }
    None
}

/// The index of the first character of `s` at or after `i` that is not
/// whitespace, or the length of `s`.
pub fn skip_whitespace_in(s: &[char], i: usize) -> (r: usize)
    ensures
        r == skip_whitespace(s@, i as int),
        i <= r,
        i <= s.len() ==> r <= s.len(),
{
    let mut k: usize = i;
    while k < s.len() && char_is_whitespace(s[k])
        invariant
            i <= k,
            i <= s.len() ==> k <= s.len(),
            skip_whitespace(s@, i as int) == skip_whitespace(s@, k as int),
        decreases s.len() - k,
    {
        k = k + 1;
    }
    k
}

/// The index of the first whitespace character of `s` at or after `i`, or
/// the length of `s`.
pub fn skip_word_in(s: &[char], i: usize) -> (r: usize)
    ensures
        r == skip_word(s@, i as int),
        i <= r,
        i <= s.len() ==> r <= s.len(),
{
    let mut k: usize = i;
    while k < s.len() && !char_is_whitespace(s[k])
        invariant
            i <= k,
            i <= s.len() ==> k <= s.len(),
            skip_word(s@, i as int) == skip_word(s@, k as int),
        decreases s.len() - k,
    {
        k = k + 1;
    }
    k
}

/// The bounds of `s` without its leading and trailing whitespace.
pub fn trim_bounds(s: &[char]) -> (r: (usize, usize))
    ensures
        r.0 <= r.1 <= s.len(),
        s@.subrange(r.0 as int, r.1 as int) == trim(s@),
{
    let a: usize = skip_whitespace_in(s, 0);
    let mut b: usize = s.len();
    while b > 0 && char_is_whitespace(s[b - 1])
        invariant
            b <= s.len(),
            trim_end_index(s@, s.len() as int) == trim_end_index(s@, b as int),
        decreases b,
    {
        b = b - 1;
    }
    if a <= b {
        (a, b)
    } else {
        (a, a)
    }
}

/// The bounds of the whitespace-separated words of `s`, in order.
pub fn token_bounds(s: &[char]) -> (r: Vec<(usize, usize)>)
    ensures
        r@.len() == tokens(s@).len(),
        forall|k: int|
            0 <= k < r@.len() ==> {
                &&& (#[trigger] r@[k]).0 <= r@[k].1 <= s.len()
                &&& s@.subrange(r@[k].0 as int, r@[k].1 as int) == tokens(s@)[k]
            },
{
    let mut r: Vec<(usize, usize)> = Vec::new();
    let ghost mut done: Seq<Seq<char>> = Seq::empty();
    let mut i: usize = 0;
    loop
        invariant
            i <= s.len(),
            done + tokens_from(s@, i as int) == tokens(s@),
            r@.len() == done.len(),
            forall|k: int|
                0 <= k < r@.len() ==> {
                    &&& (#[trigger] r@[k]).0 <= r@[k].1 <= s.len()
                    &&& s@.subrange(r@[k].0 as int, r@[k].1 as int) == done[k]
                },
        ensures
            r@.len() == tokens(s@).len(),
            forall|k: int|
                0 <= k < r@.len() ==> {
                    &&& (#[trigger] r@[k]).0 <= r@[k].1 <= s.len()
                    &&& s@.subrange(r@[k].0 as int, r@[k].1 as int) == tokens(s@)[k]
                },
        decreases s.len() - i,
    {
        let a: usize = skip_whitespace_in(s, i);
        let b: usize = skip_word_in(s, a);
        if a >= b {
            break;
        }
        proof {
            let word = s@.subrange(a as int, b as int);
            done = done.push(word);
        }
        r.push((a, b));
        i = b;
    }
    r
}

/// The ASCII lower-case form of `c`: `A` to `Z` move to `a` to `z`, every
/// other character stays.
pub open spec fn lower_char(c: char) -> char {
    if 'A' <= c <= 'Z' {
        ((c as u32) + 32) as char
    } else {
        c
    }
}

/// The ASCII upper-case form of `c`: `a` to `z` move to `A` to `Z`, every
/// other character stays.
pub open spec fn upper_char(c: char) -> char {
    if 'a' <= c <= 'z' {
        ((c as u32) - 32) as char
    } else {
        c
    }
}

/// `s` with each character in ASCII lower case.
pub open spec fn lower(s: Seq<char>) -> Seq<char> {
    Seq::new(s.len(), |i: int| lower_char(s[i]))
}

/// `s` with each character in ASCII upper case.
pub open spec fn upper(s: Seq<char>) -> Seq<char> {
    Seq::new(s.len(), |i: int| upper_char(s[i]))
}

/// Two texts are the same but for ASCII letter case.
pub open spec fn eq_ignore_case(a: Seq<char>, b: Seq<char>) -> bool {
    lower(a) == lower(b)
}

/// Folding is idempotent, and folding the upper-case form gives the same as
/// folding the text itself.
pub proof fn lemma_case_folding(s: Seq<char>)
    ensures
        lower(lower(s)) == lower(s),
        lower(upper(s)) == lower(s),
        eq_ignore_case(s, s),
        eq_ignore_case(upper(s), s),
        eq_ignore_case(lower(s), s),
{
    assert(lower(lower(s)) =~= lower(s));
    assert(lower(upper(s)) =~= lower(s));
}

/// The ASCII lower-case form of `c`.
pub fn to_lower_char(c: char) -> (r: char)
    ensures
        r == lower_char(c),
{
    if c >= 'A' && c <= 'Z' {
        let b: u8 = c as u8;
        (b + 32u8) as char
    } else {
        c
    }
}

/// The characters of `s`, each in ASCII lower case.
pub fn to_lower(s: &[char]) -> (r: Vec<char>)
    ensures
        r@ == lower(s@),
{
    let mut r: Vec<char> = Vec::new();
    let mut i: usize = 0;
    while i < s.len()
        invariant
            i <= s.len(),
            r@.len() == i,
            forall|k: int| 0 <= k < i ==> r@[k] == lower_char(s@[k]),
        decreases s.len() - i,
    {
        r.push(to_lower_char(s[i]));
        i = i + 1;
    }
    r
}

/// Whether two character slices hold the same characters.
pub fn chars_eq(a: &[char], b: &[char]) -> (r: bool)
    ensures
        r == (a@ == b@),
{
    if a.len() != b.len() {
        return false;
    }
    let mut i: usize = 0;
    while i < a.len()
        invariant
            a.len() == b.len(),
            i <= a.len(),
            forall|k: int| 0 <= k < i ==> a@[k] == b@[k],
        decreases a.len() - i,
    {
        if a[i] != b[i] {
            return false;
        }
        i = i + 1;
    }
    proof {
        assert(a@ =~= b@);
    }
    true
}

/// Whether `c` is an ASCII decimal digit.
pub open spec fn is_digit(c: char) -> bool {
    '0' <= c <= '9'
}

/// The value of the decimal digit `c`.
pub open spec fn digit_value(c: char) -> nat {
    ((c as u32) - ('0' as u32)) as nat
}

/// The digit that stands for `d`, for `d` below ten.
pub open spec fn digit_char(d: nat) -> char {
    (('0' as u32) + d) as char
}

/// Every character of `s` is a decimal digit.
pub open spec fn all_digits(s: Seq<char>) -> bool {
    forall|i: int| 0 <= i < s.len() ==> is_digit(#[trigger] s[i])
}

/// The number that the digits of `s` spell in base ten.
pub open spec fn digits_value(s: Seq<char>) -> nat
    decreases s.len(),
{
    if s.len() == 0 {
        0
    } else {
        digits_value(s.drop_last()) * 10 + digit_value(s.last())
    }
}

/// The number that `s` spells, when `s` is one or more decimal digits.
pub open spec fn parse_digits(s: Seq<char>) -> Option<nat> {
    if s.len() > 0 && all_digits(s) {
        Some(digits_value(s))
    } else {
        None
    }
}

/// The number that `s` spells, when `s` is one or more decimal digits after
/// an optional `+`.
pub open spec fn parse_unsigned(s: Seq<char>) -> Option<nat> {
    if s.len() > 0 && s[0] == '+' {
        parse_digits(s.drop_first())
    } else {
        parse_digits(s)
    }
}

/// The decimal numeral of `n`, without leading zeros.
pub open spec fn decimal(n: nat) -> Seq<char>
    decreases n,
{
    if n < 10 {
        seq![digit_char(n)]
    } else {
        decimal(n / 10).push(digit_char(n % 10))
    }
}

/// A longer prefix of a digit string spells no smaller a number.
pub proof fn lemma_digits_value_grows(s: Seq<char>, k: int)
    requires
        0 <= k <= s.len(),
    ensures
        digits_value(s.subrange(0, k)) <= digits_value(s),
    decreases s.len() - k,
{
    if k < s.len() {
        let longer = s.subrange(0, k + 1);
        assert(longer.drop_last() =~= s.subrange(0, k));
        assert(digits_value(s.subrange(0, k)) <= digits_value(longer)) by (nonlinear_arith)
            requires
                digits_value(longer) == digits_value(s.subrange(0, k)) * 10 + digit_value(
                    longer.last(),
                ),
        ;
        lemma_digits_value_grows(s, k + 1);
    } else {
        assert(s.subrange(0, k) =~= s);
    }
}

/// The numeral of `n` is made of digits and spells `n`.
pub proof fn lemma_decimal_parses(n: nat)
    ensures
        parse_digits(decimal(n)) == Some(n),
        parse_unsigned(decimal(n)) == Some(n),
    decreases n,
{
    if n < 10 {
        let s = decimal(n);
        assert(s.drop_last() =~= Seq::<char>::empty());
        assert(digits_value(s.drop_last()) == 0);
        assert(digits_value(s) == n);
    } else {
        lemma_decimal_parses(n / 10);
        let s = decimal(n);
        let head = decimal(n / 10);
        assert(s.drop_last() =~= head);
        assert(digits_value(s) == (n / 10) * 10 + n % 10);
        assert forall|i: int| 0 <= i < s.len() implies is_digit(#[trigger] s[i]) by {
            if i < head.len() {
                assert(s[i] == head[i]);
            }
        }
    }
}

/// The number that the digits of `s` spell, when `s` is one or more decimal
/// digits and the number fits in `usize`.
pub fn read_digits(s: &[char]) -> (r: Option<usize>)
    ensures
        r == match parse_digits(s@) {
            Some(n) => if n <= usize::MAX {
                Some(n as usize)
            } else {
                None
            },
            None => None,
        },
{
    if s.len() == 0 {
        return None;
    }
    let mut value: usize = 0;
    let mut i: usize = 0;
    while i < s.len()
        invariant
            i <= s.len(),
            value == digits_value(s@.subrange(0, i as int)),
            forall|k: int| 0 <= k < i ==> is_digit(#[trigger] s@[k]),
        decreases s.len() - i,
    {
        let c: char = s[i];
        if !(c >= '0' && c <= '9') {
            return None;
        }
        let d: usize = (c as u8 - 48u8) as usize;
        proof {
            let longer = s@.subrange(0, i + 1);
            assert(longer.drop_last() =~= s@.subrange(0, i as int));
            lemma_digits_value_grows(s@, i + 1);
        }
        let shifted: usize = match value.checked_mul(10) {
            Some(v) => v,
            None => {
                return None;
            },
        };
        value = match shifted.checked_add(d) {
            Some(v) => v,
            None => {
                return None;
            },
        };
        i = i + 1;
    }
    proof {
        assert(s@.subrange(0, i as int) =~= s@);
    }
    Some(value)
}

/// The number that `s` spells, when `s` is one or more decimal digits after
/// an optional `+` and the number fits in `usize`.
pub fn read_unsigned(s: &[char]) -> (r: Option<usize>)
    ensures
        r == match parse_unsigned(s@) {
            Some(n) => if n <= usize::MAX {
                Some(n as usize)
            } else {
                None
            },
            None => None,
        },
{
    if s.len() > 0 && s[0] == '+' {
        let rest = vstd::slice::slice_subrange(s, 1, s.len());
        read_digits(rest)
    } else {
        read_digits(s)
    }
}

/// The one-character string of the digit that stands for `d`.
fn digit_text(d: usize) -> (r: &'static str)
    requires
        d < 10,
    ensures
        r@ == seq![digit_char(d as nat)],
{
    proof {
        reveal_strlit("0");
        reveal_strlit("1");
        reveal_strlit("2");
        reveal_strlit("3");
        reveal_strlit("4");
        reveal_strlit("5");
        reveal_strlit("6");
        reveal_strlit("7");
        reveal_strlit("8");
        reveal_strlit("9");
    }
    let r = if d == 0 {
        "0"
    } else if d == 1 {
        "1"
    } else if d == 2 {
        "2"
    } else if d == 3 {
        "3"
    } else if d == 4 {
        "4"
    } else if d == 5 {
        "5"
    } else if d == 6 {
        "6"
    } else if d == 7 {
        "7"
    } else if d == 8 {
        "8"
    } else {
        "9"
    };
    r
}

/// The decimal numeral of `n`, without leading zeros.
pub fn decimal_string(n: usize) -> (r: String)
    ensures
        r@ == decimal(n as nat),
    decreases n,
{
    if n < 10 {
        String::from_str(digit_text(n))
    } else {
        let mut r = decimal_string(n / 10);
        r.append(digit_text(n % 10));
        r
    }
}

/// `s` is one word: it is not empty and holds no whitespace.
pub open spec fn is_word(s: Seq<char>) -> bool {
    &&& s.len() > 0
    &&& forall|i: int| 0 <= i < s.len() ==> !is_whitespace(#[trigger] s[i])
}

/// `s` holds neither a carriage return nor a line feed.
pub open spec fn is_one_line(s: Seq<char>) -> bool {
    forall|i: int| 0 <= i < s.len() ==> (#[trigger] s[i]) != '\r' && s[i] != '\n'
}

/// `s` neither starts nor ends with whitespace.
pub open spec fn is_trimmed(s: Seq<char>) -> bool {
    s.len() > 0 ==> !is_whitespace(s[0]) && !is_whitespace(s.last())
}

/// A match in a text that follows a prefix is a match in the whole, moved
/// by the prefix's length.
pub proof fn lemma_matches_at_after_prefix(p: Seq<char>, r: Seq<char>, pat: Seq<char>, i: int)
    requires
        0 <= i,
    ensures
        matches_at(p + r, pat, p.len() + i) == matches_at(r, pat, i),
{
    if i + pat.len() <= r.len() {
        assert((p + r).subrange(p.len() + i, p.len() + i + pat.len()) =~= r.subrange(
            i,
            i + pat.len(),
        ));
    }
}

/// A search in a text that follows a prefix finds what the search in the
/// text alone finds, moved by the prefix's length.
pub proof fn lemma_find_from_after_prefix(p: Seq<char>, r: Seq<char>, pat: Seq<char>, i: int)
    requires
        0 <= i,
    ensures
        find_from(p + r, pat, p.len() + i) == match find_from(r, pat, i) {
            Some(k) => Some(p.len() + k),
            None => None,
        },
    decreases r.len() - i,
{
    lemma_matches_at_after_prefix(p, r, pat, i);
    if i + pat.len() > r.len() {
    } else if matches_at(r, pat, i) {
    } else if i < r.len() {
        lemma_find_from_after_prefix(p, r, pat, i + 1);
    }
}

/// Skipping whitespace in a text that follows a prefix ends where it ends
/// in the text alone, moved by the prefix's length.
pub proof fn lemma_skip_whitespace_after_prefix(p: Seq<char>, r: Seq<char>, i: int)
    requires
        0 <= i,
    ensures
        skip_whitespace(p + r, p.len() + i) == p.len() + skip_whitespace(r, i),
    decreases r.len() - i,
{
    if i < r.len() {
        assert((p + r)[p.len() + i] == r[i]);
        if is_whitespace(r[i]) {
            lemma_skip_whitespace_after_prefix(p, r, i + 1);
        }
    }
}

/// Skipping a word in a text that follows a prefix ends where it ends in the
/// text alone, moved by the prefix's length.
pub proof fn lemma_skip_word_after_prefix(p: Seq<char>, r: Seq<char>, i: int)
    requires
        0 <= i,
    ensures
        skip_word(p + r, p.len() + i) == p.len() + skip_word(r, i),
    decreases r.len() - i,
{
    if i < r.len() {
        assert((p + r)[p.len() + i] == r[i]);
        if !is_whitespace(r[i]) {
            lemma_skip_word_after_prefix(p, r, i + 1);
        }
    }
}

/// The words of a text that follows a prefix, counted from the prefix's
/// end, are the words of the text alone.
pub proof fn lemma_tokens_after_prefix(p: Seq<char>, r: Seq<char>, i: int)
    requires
        0 <= i <= r.len(),
    ensures
        tokens_from(p + r, p.len() + i) == tokens_from(r, i),
    decreases r.len() - i,
{
    let s = p + r;
    lemma_skip_whitespace_after_prefix(p, r, i);
    lemma_skip_whitespace(r, i);
    let a = skip_whitespace(r, i);
    lemma_skip_word_after_prefix(p, r, a);
    lemma_skip_word(r, a);
    let b = skip_word(r, a);
    if a < b {
        assert(s.subrange(p.len() + a, p.len() + b) =~= r.subrange(a, b));
        lemma_tokens_after_prefix(p, r, b);
    }
}

/// A word alone is its own single word.
pub proof fn lemma_tokens_of_word(w: Seq<char>)
    requires
        is_word(w),
    ensures
        tokens(w) == seq![w],
{
    lemma_word_is_skipped(w, Seq::empty(), 0);
    assert(w + Seq::<char>::empty() =~= w);
    assert(skip_whitespace(w, 0) == 0);
    assert(skip_word(w, 0) == w.len());
    assert(w.subrange(0, w.len() as int) =~= w);
    assert(tokens_from(w, w.len() as int) =~= Seq::<Seq<char>>::empty());
    assert(seq![w] + Seq::<Seq<char>>::empty() =~= seq![w]);
}

/// Skipping the word `w` from index `i` within it, in `w` followed by `r`,
/// stops at the end of `w` where `r` is empty or starts with whitespace.
pub proof fn lemma_word_is_skipped(w: Seq<char>, r: Seq<char>, i: int)
    requires
        is_word(w),
        0 <= i <= w.len(),
        r.len() > 0 ==> is_whitespace(r[0]),
    ensures
        skip_word(w + r, i) == w.len(),
    decreases w.len() - i,
{
    let s = w + r;
    if i < w.len() {
        assert(s[i] == w[i]);
        lemma_word_is_skipped(w, r, i + 1);
    } else if r.len() > 0 {
        assert(s[i] == r[0]);
    }
}

/// The words of a word, a space and a rest are the word and then the words
/// of the rest.
pub proof fn lemma_tokens_of_word_and_rest(w: Seq<char>, r: Seq<char>)
    requires
        is_word(w),
    ensures
        tokens(w + seq![' '] + r) == seq![w] + tokens(r),
{
    let tail = seq![' '] + r;
    let s = w + tail;
    assert(s =~= w + seq![' '] + r);
    assert(s[0] == w[0]);
    assert(skip_whitespace(s, 0) == 0);
    lemma_word_is_skipped(w, tail, 0);
    let n = w.len() as int;
    assert(s.subrange(0, n) =~= w);
    // The words after the first one start at the space.
    assert(s[n] == ' ');
    lemma_skip_whitespace(s, n + 1);
    assert(skip_whitespace(s, n) == skip_whitespace(s, n + 1));
    assert(tokens_from(s, n) == tokens_from(s, n + 1));
    let p = w + seq![' '];
    assert(p + r =~= s);
    lemma_tokens_after_prefix(p, r, 0);
    assert(tokens_from(s, n + 1) == tokens_from(r, 0));
}

/// A text without a line feed holds no line terminator, so the first line
/// terminator of that text followed by one is its end.
pub proof fn lemma_first_line(line: Seq<char>, rest: Seq<char>)
    requires
        forall|i: int| 0 <= i < line.len() ==> (#[trigger] line[i]) != '\n',
    ensures
        find(line, crlf()).is_none(),
        find(line + crlf() + rest, crlf()) == Some(line.len() as int),
{
    let s = line + crlf() + rest;
    let n = line.len() as int;
    assert(crlf().len() == 2);
    assert forall|j: int| 0 <= j implies !matches_at(line, crlf(), j) by {
        if j + 2 <= line.len() {
            assert(line.subrange(j, j + 2)[1] == line[j + 1]);
            assert(crlf()[1] == '\n');
        }
    }
    lemma_find_from(line, crlf(), 0);
    assert(s.subrange(n, n + 2) =~= crlf());
    assert forall|j: int| 0 <= j < n implies !matches_at(s, crlf(), j) by {
        if j + 2 <= s.len() {
            assert(s.subrange(j, j + 2)[1] == s[j + 1]);
            assert(crlf()[1] == '\n');
            if j + 1 < n {
                assert(s[j + 1] == line[j + 1]);
            } else {
                assert(s[j + 1] == '\r');
            }
        }
    }
    lemma_find_from_is(s, crlf(), 0, n);
}

/// A trimmed text stays as it is when it is trimmed, also behind a space.
pub proof fn lemma_trim_of_trimmed(value: Seq<char>)
    requires
        is_trimmed(value),
    ensures
        trim(value) == value,
        trim(seq![' '] + value) == value,
{
    let s = seq![' '] + value;
    lemma_trim_end_index(value, value.len() as int);
    lemma_trim_end_index(s, s.len() as int);
    lemma_skip_whitespace(s, 1);
    if value.len() > 0 {
        assert(s[1] == value[0]);
        assert(s[s.len() - 1] == value.last());
        assert(skip_whitespace(s, 1) == 1);
        assert(skip_whitespace(s, 0) == 1);
        assert(skip_whitespace(value, 0) == 0);
        assert(s.subrange(1, s.len() as int) =~= value);
        assert(value.subrange(0, value.len() as int) =~= value);
    } else {
        assert(skip_whitespace(s, 1) == 1);
        assert(skip_whitespace(s, 0) == 1);
        assert(trim_end_index(s, 1) == trim_end_index(s, 0));
        assert(trim(s) =~= value);
        assert(trim(value) =~= value);
    }
}

} // verus!
