//! Text handling: decimal numbers, separators, white space and letter case.

use vstd::prelude::*;

verus! {

/// The characters of an optional string.
pub open spec fn text_view(text: Option<String>) -> Option<Seq<char>> {
    match text {
        Some(s) => Some(s@),
        None => None,
    }
}

/// Whether two optional strings are both absent, or hold the same characters.
pub fn same_text(a: &Option<String>, b: &Option<String>) -> (same: bool)
    ensures
        same == (text_view(*a) == text_view(*b)),
{
    match (a, b) {
        (Some(x), Some(y)) => *x == *y,
        (None, None) => true,
        _ => false,
    }
}

/// The characters of `s`, one by one.
pub fn chars_of(s: &str) -> (chars: Vec<char>)
    ensures
        chars@ == s@,
{
    let mut chars: Vec<char> = Vec::new();
    for c in iter: s.chars()
        invariant
            iter.seq() == s@,
            chars@ == s@.take(iter.index()),
    {
        chars.push(c);
        assert(chars@ =~= s@.take(iter.index() + 1));
    }
    assert(s@.take(s@.len() as int) =~= s@);
    chars
}

// ---------------------------------------------------------------------------
// Letter case
// ---------------------------------------------------------------------------

/// The code of `c`, with the ASCII capitals moved onto the small letters.
pub open spec fn folded(c: char) -> int {
    if 'A' <= c && c <= 'Z' {
        c as int + 32
    } else {
        c as int
    }
}

/// Equality of texts that takes no notice of the case of ASCII letters.
pub open spec fn same_ignoring_case(a: Seq<char>, b: Seq<char>) -> bool {
    &&& a.len() == b.len()
    &&& forall|i: int| 0 <= i < a.len() ==> folded(#[trigger] a[i]) == folded(b[i])
}

fn fold_char(c: char) -> (code: u32)
    ensures
        code == folded(c),
{
    let code: u32 = c as u32;
    if 'A' <= c && c <= 'Z' {
        code + 32
    } else {
        code
    }
}

/// Compares two strings without regard to the case of ASCII letters.
pub fn eq_ignoring_case(a: &str, b: &str) -> (same: bool)
    ensures
        same == same_ignoring_case(a@, b@),
{
    let left: Vec<char> = chars_of(a);
    let right: Vec<char> = chars_of(b);
    if left.len() != right.len() {
        return false;
    }
    let mut i: usize = 0;
    while i < left.len()
        invariant
            i <= left.len() == right.len(),
            left@ == a@,
            right@ == b@,
            forall|j: int| 0 <= j < i ==> folded(#[trigger] a@[j]) == folded(b@[j]),
        decreases left.len() - i,
    {
        if fold_char(left[i]) != fold_char(right[i]) {
            assert(folded(a@[i as int]) != folded(b@[i as int]));
            return false;
        }
        i += 1;
    }
    true
}

// ---------------------------------------------------------------------------
// Separators
// ---------------------------------------------------------------------------

/// The first position at or after `from` where `s` holds `c`, or the length of
/// `s` if there is none.
pub open spec fn find_from(s: Seq<char>, c: char, from: int) -> int
    decreases s.len() - from,
{
    if from < 0 || from >= s.len() {
        s.len() as int
    } else if s[from] == c {
        from
    } else {
        find_from(s, c, from + 1)
    }
}

/// The last position before `to` where `s` holds `c`, or -1 if there is none.
pub open spec fn find_back(s: Seq<char>, c: char, to: int) -> int
    decreases to,
{
    if to <= 0 || to > s.len() {
        -1
    } else if s[to - 1] == c {
        to - 1
    } else {
        find_back(s, c, to - 1)
    }
}

/// What stands before the first `c`, or all of `s`.
pub open spec fn before_first(s: Seq<char>, c: char) -> Seq<char> {
    s.subrange(0, find_from(s, c, 0))
}

/// What stands after the last `c`, or all of `s`.
pub open spec fn after_last(s: Seq<char>, c: char) -> Seq<char> {
    s.subrange(find_back(s, c, s.len() as int) + 1, s.len() as int)
}

/// What stands between the first `c` and the next one, or the end of `s`.
pub open spec fn second_field(s: Seq<char>, c: char) -> Option<Seq<char>> {
    let first = find_from(s, c, 0);
    if first < s.len() {
        Some(s.subrange(first + 1, find_from(s, c, first + 1)))
    } else {
        None
    }
}

/// `find_from` gives the position it is said to give.
pub proof fn lemma_find_from(s: Seq<char>, c: char, from: int)
    requires
        0 <= from <= s.len(),
    ensures
        from <= find_from(s, c, from) <= s.len(),
        find_from(s, c, from) < s.len() ==> s[find_from(s, c, from)] == c,
        forall|i: int| from <= i < find_from(s, c, from) ==> s[i] != c,
    decreases s.len() - from,
{
    if from < s.len() && s[from] != c {
        lemma_find_from(s, c, from + 1);
    }
}

/// `find_back` gives the position it is said to give.
pub proof fn lemma_find_back(s: Seq<char>, c: char, to: int)
    requires
        0 <= to <= s.len(),
    ensures
        -1 <= find_back(s, c, to) < to,
        find_back(s, c, to) >= 0 ==> s[find_back(s, c, to)] == c,
        forall|i: int| find_back(s, c, to) < i < to ==> s[i] != c,
    decreases to,
{
    if to > 0 && s[to - 1] != c {
        lemma_find_back(s, c, to - 1);
    }
}

fn position_from(chars: &Vec<char>, c: char, from: usize) -> (at: usize)
    requires
        from <= chars.len(),
    ensures
        at == find_from(chars@, c, from as int),
        from <= at <= chars.len(),
{
    let mut at: usize = from;
    while at < chars.len() && chars[at] != c
        invariant
            from <= at <= chars.len(),
            find_from(chars@, c, from as int) == find_from(chars@, c, at as int),
        decreases chars.len() - at,
    {
        at += 1;
    }
    at
}

/// The text before the first `c`, or the whole text where there is no `c`.
pub fn text_before_first(s: &str, c: char) -> (part: String)
    ensures
        part@ == before_first(s@, c),
{
    let chars: Vec<char> = chars_of(s);
    let at: usize = position_from(&chars, c, 0);
    s.substring_char(0, at).to_owned()
}

/// The text after the last `c`, or the whole text where there is no `c`.
pub fn text_after_last(s: &str, c: char) -> (part: String)
    ensures
        part@ == after_last(s@, c),
{
    let chars: Vec<char> = chars_of(s);
    let mut start: usize = chars.len();
    while start > 0 && chars[start - 1] != c
        invariant
            start <= chars.len(),
            chars@ == s@,
            find_back(s@, c, s@.len() as int) == find_back(s@, c, start as int),
        decreases start,
    {
        start -= 1;
    }
    s.substring_char(start, chars.len()).to_owned()
}

/// The second of the fields that `c` separates, if there are two or more.
pub fn text_second_field(s: &str, c: char) -> (part: Option<String>)
    ensures
        text_view(part) == second_field(s@, c),
{
    let chars: Vec<char> = chars_of(s);
    let first: usize = position_from(&chars, c, 0);
    if first < chars.len() {
        let next: usize = position_from(&chars, c, first + 1);
        Some(s.substring_char(first + 1, next).to_owned())
    } else {
        None
    }
}

// ---------------------------------------------------------------------------
// White space
// ---------------------------------------------------------------------------

/// The characters with the Unicode property `White_Space`.
pub open spec fn is_white_space(c: char) -> bool {
    ||| 0x9 <= c as int <= 0xd
    ||| c as int == 0x20
    ||| c as int == 0x85
    ||| c as int == 0xa0
    ||| c as int == 0x1680
    ||| 0x2000 <= c as int <= 0x200a
    ||| c as int == 0x2028
    ||| c as int == 0x2029
    ||| c as int == 0x202f
    ||| c as int == 0x205f
    ||| c as int == 0x3000
}

fn white_space(c: char) -> (white: bool)
    ensures
        white == is_white_space(c),
{
    let code: u32 = c as u32;
    (0x9 <= code && code <= 0xd) || code == 0x20 || code == 0x85 || code == 0xa0 || code == 0x1680
        || (0x2000 <= code && code <= 0x200a) || code == 0x2028 || code == 0x2029 || code == 0x202f
        || code == 0x205f || code == 0x3000
}

/// `s` without the white space at its front.
pub open spec fn trimmed_front(s: Seq<char>) -> Seq<char>
    decreases s.len(),
{
    if s.len() > 0 && is_white_space(s[0]) {
        trimmed_front(s.subrange(1, s.len() as int))
    } else {
        s
    }
}

/// `s` without the white space at its back.
pub open spec fn trimmed_back(s: Seq<char>) -> Seq<char>
    decreases s.len(),
{
    if s.len() > 0 && is_white_space(s[s.len() - 1]) {
        trimmed_back(s.subrange(0, s.len() - 1))
    } else {
        s
    }
}

/// `s` without the white space at its two ends.
pub open spec fn trimmed(s: Seq<char>) -> Seq<char> {
    trimmed_back(trimmed_front(s))
}

/// Cuts the white space off both ends.
pub fn trim(s: &str) -> (part: &str)
    ensures
        part@ == trimmed(s@),
{
    let chars: Vec<char> = chars_of(s);
    let len: usize = chars.len();
    let mut start: usize = 0;
    assert(s@.subrange(0, len as int) =~= s@);
    while start < len && white_space(chars[start])
        invariant
            start <= len == chars.len(),
            chars@ == s@,
            trimmed_front(s@) == trimmed_front(s@.subrange(start as int, len as int)),
        decreases len - start,
    {
        let ghost rest = s@.subrange(start as int, len as int);
        assert(rest[0] == s@[start as int]);
        assert(rest.subrange(1, rest.len() as int) =~= s@.subrange(start + 1, len as int));
        start += 1;
    }
    let ghost front = s@.subrange(start as int, len as int);
    assert(start < len ==> front[0] == s@[start as int]);
    assert(trimmed_front(s@) == front);
    let mut end: usize = len;
    while end > start && white_space(chars[end - 1])
        invariant
            start <= end <= len == chars.len(),
            chars@ == s@,
            trimmed_back(front) == trimmed_back(s@.subrange(start as int, end as int)),
        decreases end,
    {
        let ghost rest = s@.subrange(start as int, end as int);
        assert(rest[rest.len() - 1] == s@[end - 1]);
        assert(rest.subrange(0, rest.len() - 1) =~= s@.subrange(start as int, end - 1));
        end -= 1;
    }
    let ghost rest = s@.subrange(start as int, end as int);
    assert(end > start ==> rest[rest.len() - 1] == s@[end - 1]);
    s.substring_char(start, end)
}

// ---------------------------------------------------------------------------
// Decimal numbers
// ---------------------------------------------------------------------------

pub open spec fn is_digit(c: char) -> bool {
    '0' <= c && c <= '9'
}

pub open spec fn all_digits(s: Seq<char>) -> bool {
    forall|i: int| 0 <= i < s.len() ==> is_digit(#[trigger] s[i])
}

/// The number that a row of digits denotes, the most significant one first.
pub open spec fn decimal_value(s: Seq<char>) -> int
    decreases s.len(),
{
    if s.len() == 0 {
        0
    } else {
        10 * decimal_value(s.drop_last()) + (s.last() as int - '0' as int)
    }
}

/// The digits of a number that may be written with a plus sign in front.
pub open spec fn unsigned_part(s: Seq<char>) -> Seq<char> {
    if s.len() > 0 && s[0] == '+' {
        s.subrange(1, s.len() as int)
    } else {
        s
    }
}

/// The 64-bit number that `s` spells: one or more digits, with or without a
/// plus sign in front, that denote no more than the greatest such number.
pub open spec fn number_in(s: Seq<char>) -> Option<u64> {
    let digits = unsigned_part(s);
    if digits.len() > 0 && all_digits(digits) && decimal_value(digits) <= u64::MAX {
        Some(decimal_value(digits) as u64)
    } else {
        None
    }
}

pub open spec fn digit_char(d: int) -> char {
    ('0' as int + d) as char
}

/// The digits of `n`, the most significant one first, without a leading zero.
pub open spec fn decimal(n: nat) -> Seq<char>
    decreases n,
{
    if n < 10 {
        seq![digit_char(n as int)]
    } else {
        decimal(n / 10).push(digit_char(n as int % 10))
    }
}

proof fn lemma_value_nonnegative(s: Seq<char>)
    requires
        all_digits(s),
    ensures
        decimal_value(s) >= 0,
    decreases s.len(),
{
    if s.len() > 0 {
        assert(is_digit(s[s.len() - 1]));
        assert forall|i: int| 0 <= i < s.drop_last().len() implies is_digit(
            #[trigger] s.drop_last()[i],
        ) by {
            assert(is_digit(s[i]));
        }
        lemma_value_nonnegative(s.drop_last());
    }
}

/// A front part of a row of digits denotes no more than the whole row.
proof fn lemma_value_of_front(s: Seq<char>, n: int)
    requires
        all_digits(s),
        0 <= n <= s.len(),
    ensures
        0 <= decimal_value(s.take(n)) <= decimal_value(s),
    decreases s.len(),
{
    lemma_value_nonnegative(s);
    if n == s.len() {
        assert(s.take(n) =~= s);
    } else {
        assert(is_digit(s[s.len() - 1]));
        assert forall|i: int| 0 <= i < s.drop_last().len() implies is_digit(
            #[trigger] s.drop_last()[i],
        ) by {
            assert(is_digit(s[i]));
        }
        lemma_value_of_front(s.drop_last(), n);
        assert(s.drop_last().take(n) =~= s.take(n));
    }
}

/// Reads a decimal number of 64 bits.
pub fn parse_u64(s: &str) -> (number: Option<u64>)
    ensures
        number == number_in(s@),
{
    let chars: Vec<char> = chars_of(s);
    let skip: usize = if chars.len() > 0 && chars[0] == '+' {
        1
    } else {
        0
    };
    let ghost digits = unsigned_part(s@);
    assert(digits =~= s@.subrange(skip as int, s@.len() as int));
    if skip == chars.len() {
        return None;
    }
    let mut value: u64 = 0;
    let mut i: usize = skip;
    while i < chars.len()
        invariant
            skip <= i <= chars.len(),
            skip < chars.len(),
            chars@ == s@,
            digits == s@.subrange(skip as int, s@.len() as int),
            digits == unsigned_part(s@),
            value == decimal_value(digits.take(i - skip)),
            all_digits(digits.take(i - skip)),
        decreases chars.len() - i,
    {
        let c: char = chars[i];
        let ghost at = i - skip;
        assert(digits[at] == c);
        if c < '0' || '9' < c {
            assert(!is_digit(digits[at]));
            return None;
        }
        let digit: u64 = (c as u32 - '0' as u32) as u64;
        proof {
            assert(digits.take(at + 1).drop_last() =~= digits.take(at));
            assert(digits.take(at + 1).last() == c);
            assert forall|j: int| 0 <= j < at + 1 implies is_digit(
                #[trigger] digits.take(at + 1)[j],
            ) by {
                if j < at {
                    assert(is_digit(digits.take(at)[j]));
                }
            }
            if all_digits(digits) {
                lemma_value_of_front(digits, at + 1);
            }
        }
        if value > u64::MAX / 10 {
            return None;
        }
        if value * 10 > u64::MAX - digit {
            return None;
        }
        value = value * 10 + digit;
        i += 1;
    }
    assert(digits.take(digits.len() as int) =~= digits);
    Some(value)
}

fn digit_text(d: u64) -> (text: &'static str)
    requires
        d < 10,
    ensures
        text@ == seq![digit_char(d as int)],
{
    proof {
        reveal_strlit("0");
        reveal_strlit("1");
        reveal_strlit("2");
        reveal_strlit("3");
        reveal_strlit("4");
        reveal_strlit("5");
        reveal_strlit("6");
        reveal_strlit("7");
        reveal_strlit("8");
        reveal_strlit("9");
    }
    let text: &'static str = match d {
        0 => "0",
        1 => "1",
        2 => "2",
        3 => "3",
        4 => "4",
        5 => "5",
        6 => "6",
        7 => "7",
        8 => "8",
        _ => "9",
    };
    assert(text@ =~= seq![digit_char(d as int)]);
    text
}

/// Writes a number in decimal.
pub fn decimal_text(n: u64) -> (text: String)
    ensures
        text@ == decimal(n as nat),
    decreases n,
{
    if n < 10 {
        digit_text(n).to_owned()
    } else {
        let mut text: String = decimal_text(n / 10);
        text.append(digit_text(n % 10));
        assert(text@ =~= decimal(n as nat));
        text
    }
}

/// A number is written with digits only, and they denote it.
pub proof fn decimal_denotes(n: nat)
    ensures
        decimal(n).len() > 0,
        all_digits(decimal(n)),
        decimal_value(decimal(n)) == n,
    decreases n,
{
    if n < 10 {
        let s = seq![digit_char(n as int)];
        assert(s.drop_last() =~= Seq::<char>::empty());
        assert(decimal_value(s.drop_last()) == 0);
        assert(s.last() as int == '0' as int + n);
    } else {
        decimal_denotes(n / 10);
        let s = decimal(n);
        assert(s.drop_last() =~= decimal(n / 10));
        assert(s.last() as int == '0' as int + n % 10);
        assert forall|i: int| 0 <= i < s.len() implies is_digit(#[trigger] s[i]) by {
            if i < s.len() - 1 {
                assert(is_digit(decimal(n / 10)[i]));
            }
        }
    }
}

/// A number that was written in decimal is read back as it was.
pub proof fn decimal_is_read_back(n: u64)
    ensures
        number_in(decimal(n as nat)) == Some(n),
{
    decimal_denotes(n as nat);
    let s = decimal(n as nat);
    assert(is_digit(s[0]));
    assert(unsigned_part(s) == s);
}

/// Different numbers are written differently.
pub proof fn decimal_is_one_to_one(m: nat, n: nat)
    requires
        decimal(m) == decimal(n),
    ensures
        m == n,
{
    decimal_denotes(m);
    decimal_denotes(n);
}

/// An optional string shows its characters, all of them and nothing else.
pub proof fn an_optional_text_shows_its_characters(text: String)
    ensures
        text_view(Some(text)) == Some(text@),
        text_view(None::<String>) == None::<Seq<char>>,
{
}

/// Two texts count as equal without regard to case if and only if they are of
/// one length and differ at most in that the one has an ASCII capital where the
/// other has the small letter of it.
pub proof fn only_the_case_of_letters_is_of_no_account(a: Seq<char>, b: Seq<char>)
    ensures
        same_ignoring_case(a, b) <==> a.len() == b.len() && forall|i: int|
            #![trigger a[i]]
            0 <= i < a.len() ==> {
                ||| a[i] == b[i]
                ||| 'A' <= a[i] && a[i] <= 'Z' && b[i] as int - a[i] as int == 'a' as int
                    - 'A' as int
                ||| 'A' <= b[i] && b[i] <= 'Z' && a[i] as int - b[i] as int == 'a' as int
                    - 'A' as int
            },
{
    if same_ignoring_case(a, b) {
        assert forall|i: int| #![trigger a[i]] 0 <= i < a.len() implies {
            ||| a[i] == b[i]
            ||| 'A' <= a[i] && a[i] <= 'Z' && b[i] as int - a[i] as int == 'a' as int - 'A' as int
            ||| 'A' <= b[i] && b[i] <= 'Z' && a[i] as int - b[i] as int == 'a' as int - 'A' as int
        } by {
            assert(folded(a[i]) == folded(b[i]));
        }
    }
}

/// A text splits at a separator as it was put together: what stands before the
/// first one, behind the last one and between the first two, where `a`, `b` and
/// `c` hold none.
pub proof fn texts_split_where_they_were_joined(
    a: Seq<char>,
    b: Seq<char>,
    c: Seq<char>,
    rest: Seq<char>,
    by: char,
)
    requires
        !a.contains(by),
        !b.contains(by),
        !c.contains(by),
    ensures
        before_first(a, by) == a,
        before_first(a + seq![by] + rest, by) == a,
        after_last(c, by) == c,
        after_last(rest + seq![by] + c, by) == c,
        second_field(a, by) == None::<Seq<char>>,
        second_field(a + seq![by] + b, by) == Some(b),
        second_field(a + seq![by] + b + seq![by] + rest, by) == Some(b),
{
    lemma_first_is(a, by, 0, a.len() as int);
    assert(a.subrange(0, a.len() as int) =~= a);
    let s = a + seq![by] + rest;
    let k = a.len() as int;
    assert forall|i: int| 0 <= i < k implies s[i] != by by {
        assert(s[i] == a[i]);
    }
    lemma_first_is(s, by, 0, k);
    assert(s.subrange(0, k) =~= a);
    lemma_last_is(c, by, -1);
    assert(c.subrange(0, c.len() as int) =~= c);
    let s = rest + seq![by] + c;
    let m = rest.len() as int;
    assert forall|i: int| m < i < s.len() implies s[i] != by by {
        assert(s[i] == c[i - m - 1]);
    }
    lemma_last_is(s, by, m);
    assert(s.subrange(m + 1, s.len() as int) =~= c);
    let s = a + seq![by] + b;
    assert forall|i: int| 0 <= i < s.len() && i != k implies s[i] != by by {
        if i < k {
            assert(s[i] == a[i]);
        } else {
            assert(s[i] == b[i - k - 1]);
        }
    }
    lemma_first_is(s, by, 0, k);
    lemma_first_is(s, by, k + 1, s.len() as int);
    assert(s.subrange(k + 1, s.len() as int) =~= b);
    let s = a + seq![by] + b + seq![by] + rest;
    let e = k + 1 + b.len();
    assert forall|i: int| 0 <= i < e && i != k implies s[i] != by by {
        if i < k {
            assert(s[i] == a[i]);
        } else {
            assert(s[i] == b[i - k - 1]);
        }
    }
    lemma_first_is(s, by, 0, k);
    lemma_first_is(s, by, k + 1, e);
    assert(s.subrange(k + 1, e) =~= b);
}

proof fn lemma_first_is(s: Seq<char>, c: char, from: int, at: int)
    requires
        0 <= from <= at <= s.len(),
        at < s.len() ==> s[at] == c,
        forall|i: int| from <= i < at ==> s[i] != c,
    ensures
        find_from(s, c, from) == at,
{
    lemma_find_from(s, c, from);
    let found = find_from(s, c, from);
    if found < at {
        assert(s[found] != c);
    } else if found > at {
        assert(s[at] != c);
    }
}

proof fn lemma_last_is(s: Seq<char>, c: char, at: int)
    requires
        -1 <= at < s.len() || at == -1,
        at >= 0 ==> s[at] == c,
        forall|i: int| at < i < s.len() ==> s[i] != c,
    ensures
        find_back(s, c, s.len() as int) == at,
{
    lemma_find_back(s, c, s.len() as int);
    let found = find_back(s, c, s.len() as int);
    if found < at {
        assert(s[at] != c);
    } else if found > at {
        assert(s[found] != c);
    }
}

/// White space are the tab, the line breaks, the space and the no-break spaces,
/// and the spaces and separators that Unicode has beyond Latin.
pub proof fn white_space_is_what_unicode_calls_so(c: char)
    ensures
        is_white_space(c) <==> {
            ||| c == '\t' || c == '\n' || c == '\u{b}' || c == '\u{c}' || c == '\r' || c == ' '
            ||| c == '\u{85}' || c == '\u{a0}' || c == '\u{1680}'
            ||| '\u{2000}' <= c && c <= '\u{200a}'
            ||| c == '\u{2028}' || c == '\u{2029}' || c == '\u{202f}' || c == '\u{205f}'
            ||| c == '\u{3000}'
        },
{
}

/// White space at the two ends is cut off, and nothing else: whatever stands
/// between it comes out, as long as it begins and ends with another character.
pub proof fn only_white_space_is_cut_off(front: Seq<char>, text: Seq<char>, back: Seq<char>)
    requires
        forall|i: int| 0 <= i < front.len() ==> is_white_space(#[trigger] front[i]),
        forall|i: int| 0 <= i < back.len() ==> is_white_space(#[trigger] back[i]),
        text.len() > 0 ==> !is_white_space(text[0]) && !is_white_space(text[text.len() - 1]),
    ensures
        trimmed(front + text + back) == text,
{
    if text.len() == 0 {
        let all = front + text + back;
        assert forall|i: int| 0 <= i < all.len() implies is_white_space(#[trigger] all[i]) by {
            if i < front.len() {
                assert(all[i] == front[i]);
            } else {
                assert(all[i] == back[i - front.len()]);
            }
        }
        lemma_front_is_cut(all, Seq::empty());
        assert(all + Seq::<char>::empty() =~= all);
        assert(trimmed(all) =~= text);
    } else {
        assert(front + text + back =~= front + (text + back));
        assert((text + back)[0] == text[0]);
        lemma_front_is_cut(front, text + back);
        lemma_back_is_cut(text, back);
    }
}

proof fn lemma_front_is_cut(front: Seq<char>, rest: Seq<char>)
    requires
        forall|i: int| 0 <= i < front.len() ==> is_white_space(#[trigger] front[i]),
        rest.len() > 0 ==> !is_white_space(rest[0]),
    ensures
        trimmed_front(front + rest) == rest,
    decreases front.len(),
{
    let all = front + rest;
    if front.len() > 0 {
        let tail = front.subrange(1, front.len() as int);
        assert(all[0] == front[0]);
        assert forall|i: int| 0 <= i < tail.len() implies is_white_space(#[trigger] tail[i]) by {
            assert(tail[i] == front[i + 1]);
        }
        lemma_front_is_cut(tail, rest);
        assert(all.subrange(1, all.len() as int) =~= tail + rest);
    } else {
        assert(all =~= rest);
    }
}

proof fn lemma_back_is_cut(text: Seq<char>, back: Seq<char>)
    requires
        forall|i: int| 0 <= i < back.len() ==> is_white_space(#[trigger] back[i]),
        text.len() > 0,
        !is_white_space(text[text.len() - 1]),
    ensures
        trimmed_back(text + back) == text,
    decreases back.len(),
{
    let all = text + back;
    if back.len() > 0 {
        let front = back.drop_last();
        assert(all[all.len() - 1] == back[back.len() - 1]);
        assert forall|i: int| 0 <= i < front.len() implies is_white_space(#[trigger] front[i]) by {
            assert(front[i] == back[i]);
        }
        lemma_back_is_cut(text, front);
        assert(all.subrange(0, all.len() - 1) =~= text + front);
    } else {
        assert(all =~= text);
    }
}

/// A number is read digit by digit: one more digit makes ten times the number
/// and the digit, as long as that is no more than 64 bits hold. Anything else
/// behind a number, or behind what is none, makes no number; and a plus sign in
/// front makes no difference.
pub proof fn numbers_are_read_digit_by_digit(s: Seq<char>, c: char)
    ensures
        number_in(Seq::empty()) == None::<u64>,
        match number_in(seq![c]) {
            Some(n) => '0' <= c && c <= '9' && n == c as int - '0' as int,
            None => !('0' <= c && c <= '9'),
        },
        number_in(seq!['+', c]) == number_in(seq![c]),
        s.len() > 0 && s != seq!['+'] ==> match (number_in(s), number_in(s.push(c))) {
            (Some(m), Some(n)) => '0' <= c && c <= '9' && n == 10 * m + (c as int - '0' as int),
            (Some(m), None) => '0' <= c && c <= '9' ==> 10 * m + (c as int - '0' as int)
                > 18446744073709551615,
            (None, Some(_)) => false,
            (None, None) => true,
        },
{
    let one = seq![c];
    assert(one.drop_last() =~= Seq::<char>::empty());
    assert(decimal_value(one.drop_last()) == 0);
    assert(is_digit(one[0]) <==> all_digits(one));
    assert(c == '+' ==> unsigned_part(one) =~= Seq::<char>::empty());
    let plus = seq!['+', c];
    assert(plus.subrange(1, 2) =~= one);
    assert(unsigned_part(plus) == one);
    if c == '+' {
        assert(!is_digit(one[0]));
    }
    if s.len() > 0 && s != seq!['+'] {
        let all = s.push(c);
        let front = unsigned_part(s);
        assert(unsigned_part(all) =~= front.push(c));
        if s[0] == '+' && s.len() == 1 {
            assert(s =~= seq!['+']);
        }
        assert(front.len() > 0);
        assert(front.push(c).drop_last() =~= front);
        assert(decimal_value(front.push(c)) == 10 * decimal_value(front) + (c as int
            - '0' as int));
        if all_digits(front) {
            lemma_value_nonnegative(front);
            assert forall|i: int| 0 <= i < front.push(c).len() && is_digit(c) implies is_digit(
                #[trigger] front.push(c)[i],
            ) by {
                if i < front.len() {
                    assert(is_digit(front[i]));
                }
            }
        }
        if all_digits(front.push(c)) {
            assert(is_digit(front.push(c)[front.len() as int]));
            assert forall|i: int| 0 <= i < front.len() implies is_digit(#[trigger] front[i]) by {
                assert(is_digit(front.push(c)[i]));
            }
        }
    }
}

/// A number is written digit by digit: ten times a number and a digit is written
/// as the number with the digit behind it.
pub proof fn numbers_are_written_digit_by_digit(n: nat, d: nat)
    requires
        d < 10,
    ensures
        decimal(d).len() == 1,
        decimal(d)[0] as int == '0' as int + d,
        n > 0 ==> decimal(10 * n + d) == decimal(n) + decimal(d),
{
    if n > 0 {
        let all = 10 * n + d;
        assert(all / 10 == n && all % 10 == d);
        assert(decimal(all) =~= decimal(n) + decimal(d));
    }
}

} // verus!
