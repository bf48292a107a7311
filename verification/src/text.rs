//! Character sequences: the mathematical vocabulary of the parsers, and the
//! executable functions that compute it on slices of `char`.

use vstd::prelude::*;
use vstd::slice::slice_subrange;

verus! {

/// `String::push` appends one character to the string.
pub assume_specification[ String::push ](s: &mut String, c: char)
    ensures
        final(s)@ == old(s)@.push(c),
;

/// The characters of a string, in order.
pub fn chars_of(s: &str) -> (r: Vec<char>)
    ensures
        r@ == s@,
{
    let mut out: Vec<char> = Vec::new();
    for c in it: s.chars()
        invariant
            out@ == it.seq().subrange(0, it.index() as int),
            it.seq() == s@,
    {
        out.push(c);
    }
    out
}

/// The string made of the given characters.
pub fn string_of(s: &[char]) -> (r: String)
    ensures
        r@ == s@,
{
    let mut out = String::new();
    let mut i: usize = 0;
    while i < s.len()
        invariant
            i <= s.len(),
            out@ == s@.subrange(0, i as int),
        decreases s.len() - i,
    {
        out.push(s[i]);
        i += 1;
    }
    out
}

/// Appends the characters of `s` to `out`.
pub fn append_chars(out: &mut Vec<char>, s: &[char])
    ensures
        final(out)@ == old(out)@ + s@,
{
    let mut i: usize = 0;
    while i < s.len()
        invariant
            i <= s.len(),
            out@ == old(out)@ + s@.take(i as int),
        decreases s.len() - i,
    {
        out.push(s[i]);
        i += 1;
    }
}

/// Whether two slices hold the same characters.
pub fn same_chars(a: &[char], b: &[char]) -> (r: bool)
    ensures
        r == (a@ == b@),
{
    if a.len() != b.len() {
        return false;
    }
    let mut i: usize = 0;
    while i < a.len()
        invariant
            i <= a.len(),
            a.len() == b.len(),
            a@.subrange(0, i as int) == b@.subrange(0, i as int),
        decreases a.len() - i,
    {
        if a[i] != b[i] {
            return false;
        }
        i += 1;
    }
    assert(a@.subrange(0, a.len() as int) == a@);
    assert(b@.subrange(0, b.len() as int) == b@);
    true
}

/// Whether the slice holds exactly the characters of the string.
pub fn is_text(a: &[char], literal: &str) -> (r: bool)
    ensures
        r == (a@ == literal@),
{
    let other = chars_of(literal);
    same_chars(a, other.as_slice())
}

/// Whether `s` begins with `prefix`.
pub fn starts_with(s: &[char], prefix: &[char]) -> (r: bool)
    ensures
        r == prefix@.is_prefix_of(s@),
{
    if prefix.len() > s.len() {
        return false;
    }
    same_chars(slice_subrange(s, 0, prefix.len()), prefix)
}

/// The characters that Unicode classes as White_Space.
pub open spec fn is_whitespace(c: char) -> bool {
    let n = c as u32;
    ||| 0x09 <= n <= 0x0D
    ||| n == 0x20
    ||| n == 0x85
    ||| n == 0xA0
    ||| n == 0x1680
    ||| 0x2000 <= n <= 0x200A
    ||| n == 0x2028
    ||| n == 0x2029
    ||| n == 0x202F
    ||| n == 0x205F
    ||| n == 0x3000
}

/// Whether Unicode classes `c` as White_Space.
pub fn char_is_whitespace(c: char) -> (r: bool)
    ensures
        r == is_whitespace(c),
{
    let n: u32 = c as u32;
    (0x09 <= n && n <= 0x0D) || n == 0x20 || n == 0x85 || n == 0xA0 || n == 0x1680 || (0x2000 <= n
        && n <= 0x200A) || n == 0x2028 || n == 0x2029 || n == 0x202F || n == 0x205F || n == 0x3000
}

/// `s` without its leading whitespace.
pub open spec fn trim_start(s: Seq<char>) -> Seq<char>
    decreases s.len(),
{
    if s.len() > 0 && is_whitespace(s[0]) {
        trim_start(s.drop_first())
    } else {
        s
    }
}

/// `s` without its trailing whitespace.
pub open spec fn trim_end(s: Seq<char>) -> Seq<char>
    decreases s.len(),
{
    if s.len() > 0 && is_whitespace(s.last()) {
        trim_end(s.drop_last())
    } else {
        s
    }
}

/// `s` without its leading and trailing whitespace.
pub open spec fn trim(s: Seq<char>) -> Seq<char> {
    trim_end(trim_start(s))
}

/// `s` without its leading whitespace.
pub fn trimmed_start<'a>(s: &'a [char]) -> (r: &'a [char])
    ensures
        r@ == trim_start(s@),
{
    let mut i: usize = 0;
    assert(s@.skip(0) == s@);
    while i < s.len() && char_is_whitespace(s[i])
        invariant
            i <= s.len(),
            trim_start(s@) == trim_start(s@.skip(i as int)),
        decreases s.len() - i,
    {
        assert(s@.skip(i as int).drop_first() == s@.skip(i + 1));
        i += 1;
    }
    slice_subrange(s, i, s.len())
}

/// `s` without its trailing whitespace.
pub fn trimmed_end<'a>(s: &'a [char]) -> (r: &'a [char])
    ensures
        r@ == trim_end(s@),
{
    let mut n: usize = s.len();
    assert(s@.take(s.len() as int) == s@);
    while n > 0 && char_is_whitespace(s[n - 1])
        invariant
            n <= s.len(),
            trim_end(s@) == trim_end(s@.take(n as int)),
        decreases n,
    {
        assert(s@.take(n as int).drop_last() == s@.take(n - 1));
        n -= 1;
    }
    slice_subrange(s, 0, n)
}

/// `s` without its leading and trailing whitespace.
pub fn trimmed<'a>(s: &'a [char]) -> (r: &'a [char])
    ensures
        r@ == trim(s@),
{
    trimmed_end(trimmed_start(s))
}

/// The first position in `s` that holds `a` or `b`.
pub open spec fn first_of(s: Seq<char>, a: char, b: char) -> Option<int>
    decreases s.len(),
{
    if s.len() == 0 {
        None
    } else if s[0] == a || s[0] == b {
        Some(0)
    } else {
        match first_of(s.drop_first(), a, b) {
            Some(i) => Some(i + 1),
            None => None,
        }
    }
}

/// The first position in `s` that holds `c`.
pub open spec fn find_char(s: Seq<char>, c: char) -> Option<int> {
    first_of(s, c, c)
}

/// `first_of` names the least position that holds one of the two characters,
/// and is `None` exactly when no position does.
pub proof fn lemma_first_of(s: Seq<char>, a: char, b: char)
    ensures
        match first_of(s, a, b) {
            Some(i) => {
                &&& 0 <= i < s.len()
                &&& (s[i] == a || s[i] == b)
                &&& forall|j: int| 0 <= j < i ==> s[j] != a && s[j] != b
            },
            None => forall|j: int| 0 <= j < s.len() ==> s[j] != a && s[j] != b,
        },
    decreases s.len(),
{
    if s.len() == 0 {
    } else if s[0] == a || s[0] == b {
    } else {
        let t = s.drop_first();
        lemma_first_of(t, a, b);
        match first_of(t, a, b) {
            Some(i) => {
                assert forall|j: int| 0 <= j < i + 1 implies s[j] != a && s[j] != b by {
                    if j > 0 {
                        assert(s[j] == t[j - 1]);
                    }
                }
            },
            None => {
                assert forall|j: int| 0 <= j < s.len() implies s[j] != a && s[j] != b by {
                    if j > 0 {
                        assert(s[j] == t[j - 1]);
                    }
                }
            },
        }
    }
}

/// A position that holds one of the two characters, with none before it, is
/// the one that `first_of` names.
pub proof fn lemma_first_of_at(s: Seq<char>, a: char, b: char, i: int)
    requires
        0 <= i < s.len(),
        s[i] == a || s[i] == b,
        forall|j: int| 0 <= j < i ==> s[j] != a && s[j] != b,
    ensures
        first_of(s, a, b) == Some(i),
{
    lemma_first_of(s, a, b);
}

/// Where no position holds one of the two characters, `first_of` is `None`.
pub proof fn lemma_first_of_none(s: Seq<char>, a: char, b: char)
    requires
        forall|j: int| 0 <= j < s.len() ==> s[j] != a && s[j] != b,
    ensures
        first_of(s, a, b) is None,
{
    lemma_first_of(s, a, b);
}

/// The first position in `s` that holds `a` or `b`.
pub fn position_of_either(s: &[char], a: char, b: char) -> (r: Option<usize>)
    ensures
        match r {
            Some(i) => first_of(s@, a, b) == Some(i as int),
            None => first_of(s@, a, b) is None,
        },
{
    let mut i: usize = 0;
    while i < s.len()
        invariant
            i <= s.len(),
            forall|j: int| 0 <= j < i ==> s@[j] != a && s@[j] != b,
        decreases s.len() - i,
    {
        if s[i] == a || s[i] == b {
            proof {
                lemma_first_of_at(s@, a, b, i as int);
            }
            return Some(i);
        }
        i += 1;
    }
    proof {
        lemma_first_of_none(s@, a, b);
    }
    None
}

/// The first position in `s` that holds `c`.
pub fn position_of(s: &[char], c: char) -> (r: Option<usize>)
    ensures
        match r {
            Some(i) => find_char(s@, c) == Some(i as int),
            None => find_char(s@, c) is None,
        },
{
    position_of_either(s, c, c)
}

/// The first position at which `pattern` occurs in `s`.
pub open spec fn find(s: Seq<char>, pattern: Seq<char>) -> Option<int>
    decreases s.len(),
{
    if pattern.is_prefix_of(s) {
        Some(0)
    } else if s.len() == 0 {
        None
    } else {
        match find(s.drop_first(), pattern) {
            Some(i) => Some(i + 1),
            None => None,
        }
    }
}

/// `find` names the least position from which `pattern` can be read in `s`,
/// and is `None` exactly when there is no such position.
pub proof fn lemma_find(s: Seq<char>, pattern: Seq<char>)
    ensures
        match find(s, pattern) {
            Some(i) => {
                &&& 0 <= i <= s.len()
                &&& pattern.is_prefix_of(s.skip(i))
                &&& forall|j: int| 0 <= j < i ==> !pattern.is_prefix_of(s.skip(j))
            },
            None => forall|j: int| 0 <= j <= s.len() ==> !pattern.is_prefix_of(s.skip(j)),
        },
    decreases s.len(),
{
    assert(s.skip(0) == s);
    if pattern.is_prefix_of(s) {
    } else if s.len() == 0 {
    } else {
        let t = s.drop_first();
        lemma_find(t, pattern);
        assert forall|j: int| 1 <= j <= s.len() implies s.skip(j) == t.skip(j - 1) by {
            assert(s.skip(j) =~= t.skip(j - 1));
        }
    }
}

/// A position from which `pattern` can be read, with none before it, is the
/// one that `find` names.
pub proof fn lemma_find_at(s: Seq<char>, pattern: Seq<char>, k: int)
    requires
        0 <= k <= s.len(),
        pattern.is_prefix_of(s.skip(k)),
        forall|j: int| 0 <= j < k ==> !pattern.is_prefix_of(#[trigger] s.skip(j)),
    ensures
        find(s, pattern) == Some(k),
{
    lemma_find(s, pattern);
}

/// The first position at which `pattern` occurs in `s`.
pub fn position_of_text(s: &[char], pattern: &[char]) -> (r: Option<usize>)
    ensures
        match r {
            Some(i) => find(s@, pattern@) == Some(i as int),
            None => find(s@, pattern@) is None,
        },
{
    let mut i: usize = 0;
    proof {
        lemma_find(s@, pattern@);
    }
    while i <= s.len()
        invariant
            i <= s.len() + 1,
            forall|j: int| 0 <= j < i ==> !pattern@.is_prefix_of(s@.skip(j)),
            match find(s@, pattern@) {
                Some(k) => {
                    &&& 0 <= k <= s.len()
                    &&& pattern@.is_prefix_of(s@.skip(k))
                    &&& forall|j: int| 0 <= j < k ==> !pattern@.is_prefix_of(s@.skip(j))
                },
                None => forall|j: int| 0 <= j <= s.len() ==> !pattern@.is_prefix_of(s@.skip(j)),
            },
        decreases s.len() + 1 - i,
    {
        let rest = slice_subrange(s, i, s.len());
        if starts_with(rest, pattern) {
            return Some(i);
        }
        if i == s.len() {
            return None;
        }
        i += 1;
    }
    None
}

/// The lines of `s`: what stands between line feeds, each without the
/// carriage return that may end it. A last line need not end in a line feed.
pub open spec fn lines(s: Seq<char>) -> Seq<Seq<char>>
    decreases s.len(),
{
    if s.len() == 0 {
        Seq::empty()
    } else {
        match find_char(s, '\n') {
            Some(i) => {
                if 0 <= i < s.len() {
                    seq![without_carriage_return(s.take(i))] + lines(s.skip(i + 1))
                } else {
                    seq![s]
                }
            },
            None => seq![s],
        }
    }
}

/// `line` without a final carriage return.
pub open spec fn without_carriage_return(line: Seq<char>) -> Seq<char> {
    if line.len() > 0 && line.last() == '\r' {
        line.drop_last()
    } else {
        line
    }
}

/// Splits off the first line of a text: the line, and what follows it. An
/// empty text has no line, and gives two empty slices.
pub fn take_line<'a>(s: &'a [char]) -> (r: (&'a [char], &'a [char]))
    ensures
        s@.len() > 0 ==> lines(s@) == seq![r.0@] + lines(r.1@),
        s@.len() > 0 ==> r.1@.len() < s@.len(),
        s@.len() == 0 ==> r.0@.len() == 0 && r.1@.len() == 0,
{
    if s.len() == 0 {
        return (s, s);
    }
    match position_of(s, '\n') {
        Some(i) => {
            proof {
                lemma_first_of(s@, '\n', '\n');
            }
            assert(i < s.len());
            let rest = slice_subrange(s, i + 1, s.len());
            let line = slice_subrange(s, 0, i);
            if i > 0 && s[i - 1] == '\r' {
                let stripped = slice_subrange(s, 0, i - 1);
                assert(stripped@ == line@.drop_last());
                (stripped, rest)
            } else {
                (line, rest)
            }
        },
        None => {
            let rest = slice_subrange(s, s.len(), s.len());
            (s, rest)
        },
    }
}

/// The pieces of `s` between the positions that hold `a` or `b`.
pub open spec fn split_on(s: Seq<char>, a: char, b: char) -> Seq<Seq<char>>
    decreases s.len(),
{
    match first_of(s, a, b) {
        Some(i) => {
            if 0 <= i < s.len() {
                seq![s.take(i)] + split_on(s.skip(i + 1), a, b)
            } else {
                seq![s]
            }
        },
        None => seq![s],
    }
}

/// Splitting always gives a piece: a text without separator is one piece.
pub proof fn lemma_split_on_has_a_piece(s: Seq<char>, a: char, b: char)
    ensures
        split_on(s, a, b).len() >= 1,
{
}

/// The pieces of `s` between the occurrences of `c`.
pub open spec fn split(s: Seq<char>, c: char) -> Seq<Seq<char>> {
    split_on(s, c, c)
}

/// Splits off the first piece of `s`; the second component is what follows
/// the separator, if there is one.
pub fn split_first<'a>(s: &'a [char], a: char, b: char) -> (r: (&'a [char], Option<&'a [char]>))
    ensures
        split_on(s@, a, b) == seq![r.0@] + match r.1 {
            Some(rest) => split_on(rest@, a, b),
            None => Seq::empty(),
        },
        r.1 matches Some(rest) ==> rest@.len() < s@.len(),
{
    match position_of_either(s, a, b) {
        Some(i) => {
            proof {
                lemma_first_of(s@, a, b);
            }
            assert(i < s.len());
            let head = slice_subrange(s, 0, i);
            let rest = slice_subrange(s, i + 1, s.len());
            (head, Some(rest))
        },
        None => {
            (s, None)
        },
    }
}

/// The ASCII decimal digits.
pub open spec fn is_digit(c: char) -> bool {
    0x30 <= c as u32 <= 0x39
}

/// The value of a decimal digit; 0 for any other character.
pub open spec fn digit_value(c: char) -> nat {
    if is_digit(c) {
        (c as u32 - 0x30) as nat
    } else {
        0
    }
}

/// Whether every character of `s` is a decimal digit.
pub open spec fn all_digits(s: Seq<char>) -> bool {
    forall|i: int| 0 <= i < s.len() ==> is_digit(#[trigger] s[i])
}

/// The number that a sequence of decimal digits writes.
pub open spec fn decimal_value(s: Seq<char>) -> nat
    decreases s.len(),
{
    if s.len() == 0 {
        0
    } else {
        decimal_value(s.drop_last()) * 10 + digit_value(s.last())
    }
}

/// The number below 256 that `s` writes in decimal: digits only, after an
/// optional plus sign, at least one of them. `None` for every other text.
pub open spec fn parse_u8(s: Seq<char>) -> Option<u8> {
    let digits = if s.len() > 0 && s[0] == '+' {
        s.drop_first()
    } else {
        s
    };
    if digits.len() > 0 && all_digits(digits) && decimal_value(digits) <= 255 {
        Some(decimal_value(digits) as u8)
    } else {
        None
    }
}

/// A longer sequence of digits writes no smaller number than its beginning.
pub proof fn lemma_decimal_value_grows(s: Seq<char>, k: int)
    requires
        0 <= k <= s.len(),
    ensures
        decimal_value(s.take(k)) <= decimal_value(s),
    decreases s.len(),
{
    if k == s.len() {
        assert(s.take(k) == s);
    } else {
        lemma_decimal_value_grows(s.drop_last(), k);
        assert(s.drop_last().take(k) == s.take(k));
    }
}

/// Whether `c` is an ASCII decimal digit.
pub fn char_is_digit(c: char) -> (r: bool)
    ensures
        r == is_digit(c),
{
    let n: u32 = c as u32;
    0x30 <= n && n <= 0x39
}

/// Reads a number below 256 written in decimal.
pub fn parse_small_number(s: &[char]) -> (r: Option<u8>)
    ensures
        r == parse_u8(s@),
{
    let start: usize = if s.len() > 0 && s[0] == '+' {
        1
    } else {
        0
    };
    let digits = slice_subrange(s, start, s.len());
    if digits.len() == 0 {
        return None;
    }
    let mut value: u32 = 0;
    let mut i: usize = 0;
    while i < digits.len()
        invariant
            i <= digits.len(),
            digits@.len() > 0,
            digits@ == if s@.len() > 0 && s@[0] == '+' {
                s@.drop_first()
            } else {
                s@
            },
            all_digits(digits@.take(i as int)),
            value == decimal_value(digits@.take(i as int)),
            value <= 255,
        decreases digits.len() - i,
    {
        let c = digits[i];
        if !char_is_digit(c) {
            return None;
        }
        let ghost before = digits@.take(i as int);
        let ghost now = digits@.take(i + 1);
        assert(now.drop_last() == before);
        assert forall|j: int| 0 <= j < now.len() implies is_digit(#[trigger] now[j]) by {}
        value = value * 10 + (c as u32 - 0x30);
        if value > 255 {
            proof {
                lemma_decimal_value_grows(digits@, i + 1);
            }
            return None;
        }
        i += 1;
    }
    assert(digits@.take(digits.len() as int) == digits@);
    Some(value as u8)
}

/// The character that writes a digit below ten.
pub open spec fn digit_char(d: nat) -> char {
    (d + 0x30) as char
}

/// `n` in decimal, without leading zeros.
pub open spec fn decimal_text(n: nat) -> Seq<char>
    decreases n,
{
    if n < 10 {
        seq![digit_char(n)]
    } else {
        decimal_text(n / 10).push(digit_char(n % 10))
    }
}

/// `n` in decimal, with a leading zero where it is below ten.
pub open spec fn two_digit_text(n: nat) -> Seq<char> {
    if n < 10 {
        seq!['0', digit_char(n)]
    } else {
        decimal_text(n)
    }
}

fn digit_of(d: u8) -> (r: char)
    requires
        d < 10,
    ensures
        r == digit_char(d as nat),
{
    (d + 0x30) as char
}

/// Appends `n` in decimal to `out`.
pub fn push_decimal(out: &mut Vec<char>, n: u32)
    ensures
        final(out)@ == old(out)@ + decimal_text(n as nat),
    decreases n,
{
    if n >= 10 {
        push_decimal(out, n / 10);
    }
    out.push(digit_of((n % 10) as u8));
}

/// Appends `n` in decimal to `out`, in two digits at least.
pub fn push_two_digits(out: &mut Vec<char>, n: u8)
    ensures
        final(out)@ == old(out)@ + two_digit_text(n as nat),
{
    if n < 10 {
        out.push('0');
        out.push(digit_of(n));
    } else {
        push_decimal(out, n as u32);
    }
}

/// Whether every character of `s` is whitespace.
pub open spec fn all_whitespace(s: Seq<char>) -> bool {
    forall|i: int| 0 <= i < s.len() ==> is_whitespace(#[trigger] s[i])
}

/// Leading whitespace goes: what follows it, and does not itself begin
/// with whitespace, is what `trim_start` leaves.
pub proof fn lemma_trim_start_padded(left: Seq<char>, rest: Seq<char>)
    requires
        all_whitespace(left),
        rest.len() == 0 || !is_whitespace(rest[0]),
    ensures
        trim_start(left + rest) == rest,
    decreases left.len(),
{
    if left.len() == 0 {
        assert(left + rest =~= rest);
    } else {
        assert((left + rest)[0] == left[0]);
        assert((left + rest).drop_first() =~= left.drop_first() + rest);
        assert forall|i: int| 0 <= i < left.drop_first().len() implies is_whitespace(
            #[trigger] left.drop_first()[i],
        ) by {
            assert(left.drop_first()[i] == left[i + 1]);
        }
        lemma_trim_start_padded(left.drop_first(), rest);
    }
}

/// Trailing whitespace goes: what stands before it, and does not itself
/// end in whitespace, is what `trim_end` leaves.
pub proof fn lemma_trim_end_padded(rest: Seq<char>, right: Seq<char>)
    requires
        all_whitespace(right),
        rest.len() == 0 || !is_whitespace(rest.last()),
    ensures
        trim_end(rest + right) == rest,
    decreases right.len(),
{
    if right.len() == 0 {
        assert(rest + right =~= rest);
    } else {
        assert((rest + right).last() == right.last());
        assert((rest + right).drop_last() =~= rest + right.drop_last());
        assert forall|i: int| 0 <= i < right.drop_last().len() implies is_whitespace(
            #[trigger] right.drop_last()[i],
        ) by {
            assert(right.drop_last()[i] == right[i]);
        }
        lemma_trim_end_padded(rest, right.drop_last());
    }
}

/// Trimming removes the whitespace around a text that neither begins nor
/// ends with whitespace, and nothing else.
pub proof fn lemma_trim_padded(left: Seq<char>, core: Seq<char>, right: Seq<char>)
    requires
        all_whitespace(left),
        all_whitespace(right),
        core.len() > 0 ==> !is_whitespace(core[0]) && !is_whitespace(core.last()),
    ensures
        trim(left + core + right) == core,
{
    if core.len() == 0 {
        assert(left + core + right =~= (left + right) + core);
        assert forall|i: int| 0 <= i < (left + right).len() implies is_whitespace(
            #[trigger] (left + right)[i],
        ) by {
            if i < left.len() {
                assert((left + right)[i] == left[i]);
            } else {
                assert((left + right)[i] == right[i - left.len()]);
            }
        }
        lemma_trim_start_padded(left + right, core);
    } else {
        assert(left + core + right =~= left + (core + right));
        assert((core + right)[0] == core[0]);
        lemma_trim_start_padded(left, core + right);
        lemma_trim_end_padded(core, right);
    }
}

/// The pieces written one after the other, `separator` between each two.
pub open spec fn join(pieces: Seq<Seq<char>>, separator: char) -> Seq<char>
    decreases pieces.len(),
{
    if pieces.len() == 0 {
        Seq::empty()
    } else if pieces.len() == 1 {
        pieces[0]
    } else {
        pieces[0] + seq![separator] + join(pieces.drop_first(), separator)
    }
}

/// Splitting undoes joining: pieces that do not hold the separator come
/// back as they were.
pub proof fn lemma_split_join(pieces: Seq<Seq<char>>, separator: char)
    requires
        pieces.len() >= 1,
        forall|i: int| 0 <= i < pieces.len() ==> !(#[trigger] pieces[i]).contains(separator),
    ensures
        split(join(pieces, separator), separator) == pieces,
    decreases pieces.len(),
{
    let first = pieces[0];
    assert forall|j: int| 0 <= j < first.len() implies first[j] != separator by {
        if first[j] == separator {
            assert(first.contains(separator));
        }
    }
    if pieces.len() == 1 {
        lemma_first_of_none(first, separator, separator);
        assert(seq![first] =~= pieces);
    } else {
        let rest = pieces.drop_first();
        let joined = join(pieces, separator);
        assert forall|i: int| 0 <= i < rest.len() implies !(#[trigger] rest[i]).contains(
            separator,
        ) by {
            assert(rest[i] == pieces[i + 1]);
        }
        lemma_split_join(rest, separator);
        assert(joined[first.len() as int] == separator);
        assert forall|j: int| 0 <= j < first.len() implies joined[j] != separator
            && joined[j] != separator by {
            assert(joined[j] == first[j]);
        }
        lemma_first_of_at(joined, separator, separator, first.len() as int);
        assert(joined.take(first.len() as int) =~= first);
        assert(joined.skip(first.len() as int + 1) =~= join(rest, separator));
        assert(seq![first] + rest =~= pieces);
    }
}

/// The lower-case form of a text, as Unicode defines it.
pub uninterp spec fn lowercase_text(text: Seq<char>) -> Seq<char>;

/// `str::to_lowercase`: the lower-case equivalent of the text, a function of
/// the text alone.
#[verifier::external_body]
pub(crate) fn lowercase_of_text(text: &str) -> (r: String)
    ensures
        r@ == lowercase_text(text@),
{
    text.to_lowercase()
}

/// Whether `pattern` occurs in `s`.
pub open spec fn contains_text(s: Seq<char>, pattern: Seq<char>) -> bool {
    find(s, pattern) is Some
}

/// Whether `pattern` occurs in `s`.
pub fn contains_chars(s: &[char], pattern: &[char]) -> (r: bool)
    ensures
        r == contains_text(s@, pattern@),
{
    position_of_text(s, pattern).is_some()
}

} // verus!
