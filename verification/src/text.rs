//! Reading and writing small pieces of text: decimal numbers, flag values and
//! names.

use vstd::prelude::*;
use vstd::string::*;

verus! {

/// Whether two texts are the same.
pub fn same_text(a: &str, b: &str) -> (r: bool)
    ensures
        r == (a@ == b@),
{
    let n: usize = a.unicode_len();
    if n != b.unicode_len() {
        return false;
    }
    let mut i: usize = 0;
    while i < n
        invariant
            n == a@.len(),
            n == b@.len(),
            i <= n,
            forall|j: int| 0 <= j < i ==> a@[j] == b@[j],
        decreases n - i,
    {
        if a.get_char(i) != b.get_char(i) {
            return false;
        }
        i += 1;
    }
    assert(a@ =~= b@);
    true
}

/// The code of `c` with ASCII capitals lowered.
pub open spec fn folded(c: char) -> u32 {
    if 'A' <= c && c <= 'Z' {
        (c as u32 + 32) as u32
    } else {
        c as u32
    }
}

/// Two texts that differ at most in the case of ASCII letters.
pub open spec fn same_but_case(a: Seq<char>, b: Seq<char>) -> bool {
    a.len() == b.len() && forall|i: int| 0 <= i < a.len() ==> folded(a[i]) == folded(b[i])
}

fn fold(c: char) -> (r: u32)
    ensures
        r == folded(c),
{
    let code: u32 = c as u32;
    if 'A' <= c && c <= 'Z' {
        code + 32
    } else {
        code
    }
}

/// Compares two texts, ignoring the case of ASCII letters.
pub fn same_text_but_case(a: &str, b: &str) -> (r: bool)
    ensures
        r == same_but_case(a@, b@),
{
    let n: usize = a.unicode_len();
    if n != b.unicode_len() {
        return false;
    }
    let mut i: usize = 0;
    while i < n
        invariant
            n == a@.len(),
            n == b@.len(),
            i <= n,
            forall|j: int| 0 <= j < i ==> folded(a@[j]) == folded(b@[j]),
        decreases n - i,
    {
        if fold(a.get_char(i)) != fold(b.get_char(i)) {
            return false;
        }
        i += 1;
    }
    true
}

// --- decimal numbers ---------------------------------------------------------

pub open spec fn is_digit(c: char) -> bool {
    '0' <= c && c <= '9'
}

pub open spec fn all_digits(s: Seq<char>) -> bool {
    forall|i: int| 0 <= i < s.len() ==> is_digit(#[trigger] s[i])
}

/// What a row of decimal digits denotes.
pub open spec fn decimal_value(s: Seq<char>) -> int
    decreases s.len(),
{
    if s.len() == 0 {
        0
    } else {
        decimal_value(s.drop_last()) * 10 + (s.last() as int - '0' as int)
    }
}

/// The digits of a number text: all of it, or what follows one leading `+`.
pub open spec fn digits_of(s: Seq<char>) -> Seq<char> {
    if s.len() > 0 && s[0] == '+' {
        s.skip(1)
    } else {
        s
    }
}

/// A whole number from 0 to `max`, written in decimal with at most one leading
/// `+` and nothing else around it.
pub open spec fn unsigned_text(s: Seq<char>, max: int) -> Option<int> {
    let digits = digits_of(s);
    if digits.len() > 0 && all_digits(digits) && decimal_value(digits) <= max {
        Some(decimal_value(digits))
    } else {
        None
    }
}

/// Reads a whole number from 0 to `max`.
fn parse_unsigned(s: &str, max: u32) -> (r: Option<u32>)
    ensures
        match unsigned_text(s@, max as int) {
            Some(v) => r is Some && r->0 == v,
            None => r is None,
        },
{
    let n: usize = s.unicode_len();
    let mut i: usize = 0;
    if n > 0 && s.get_char(0) == '+' {
        i = 1;
    }
    let start: usize = i;
    let ghost digits = digits_of(s@);
    assert(digits =~= s@.skip(start as int));
    if i == n {
        return None;
    }
    let mut value: u64 = 0;
    let mut fits: bool = true;
    assert(digits.take(0) =~= Seq::<char>::empty());
    while i < n
        invariant
            n == s@.len(),
            start <= i <= n,
            digits == digits_of(s@),
            digits == s@.skip(start as int),
            all_digits(digits.take(i - start)),
            fits ==> value == decimal_value(digits.take(i - start)),
            fits ==> value <= max,
            !fits ==> decimal_value(digits.take(i - start)) > max,
        decreases n - i,
    {
        let c: char = s.get_char(i);
        assert(digits[i - start] == c);
        if c < '0' || c > '9' {
            assert(!is_digit(digits[i - start]));
            return None;
        }
        let d: u64 = c as u64 - '0' as u64;
        proof {
            let longer = digits.take(i - start + 1);
            assert(longer.drop_last() =~= digits.take(i - start));
            assert(longer.last() == c);
        }
        if fits {
            value = value * 10 + d;
            fits = value <= max as u64;
        }
        i += 1;
    }
    assert(digits.take(i - start) =~= digits);
    if fits {
        Some(value as u32)
    } else {
        None
    }
}

/// Reads a number that fits 32 bits.
pub fn parse_u32(s: &str) -> (r: Option<u32>)
    ensures
        match unsigned_text(s@, u32::MAX as int) {
            Some(v) => r is Some && r->0 == v,
            None => r is None,
        },
{
    parse_unsigned(s, u32::MAX)
}

/// Reads a number that fits a byte.
pub fn parse_u8(s: &str) -> (r: Option<u8>)
    ensures
        match unsigned_text(s@, u8::MAX as int) {
            Some(v) => r is Some && r->0 == v,
            None => r is None,
        },
{
    match parse_unsigned(s, 255) {
        Some(v) => Some(v as u8),
        None => None,
    }
}

pub open spec fn digit_char(d: nat) -> char {
    ('0' as int + d) as char
}

/// The decimal digits of `n`, without leading zeros.
pub open spec fn decimal(n: nat) -> Seq<char>
    decreases n,
{
    if n < 10 {
        seq![digit_char(n)]
    } else {
        decimal(n / 10).push(digit_char(n % 10))
    }
}

/// The decimal digits of `n`, with zeros in front up to `width` digits.
pub open spec fn padded_decimal(n: nat, width: nat) -> Seq<char> {
    let digits = decimal(n);
    if digits.len() >= width {
        digits
    } else {
        Seq::new((width - digits.len()) as nat, |i: int| '0') + digits
    }
}

fn digit_text(d: u32) -> (r: &'static str)
    requires
        d < 10,
    ensures
        r@ == seq![digit_char(d as nat)],
{
    proof {
        reveal_strlit("0");
        reveal_strlit("1");
        reveal_strlit("2");
        reveal_strlit("3");
        reveal_strlit("4");
        reveal_strlit("5");
        reveal_strlit("6");
        reveal_strlit("7");
        reveal_strlit("8");
        reveal_strlit("9");
    }
    let r: &'static str = match d {
        0 => "0",
        1 => "1",
        2 => "2",
        3 => "3",
        4 => "4",
        5 => "5",
        6 => "6",
        7 => "7",
        8 => "8",
        _ => "9",
    };
    assert(r@ =~= seq![digit_char(d as nat)]);
    r
}

fn decimal_text(n: u32) -> (r: String)
    ensures
        r@ == decimal(n as nat),
    decreases n,
{
    if n < 10 {
        digit_text(n).to_owned()
    } else {
        let mut text = decimal_text(n / 10);
        text.append(digit_text(n % 10));
        assert(text@ =~= decimal((n / 10) as nat).push(digit_char((n % 10) as nat)));
        text
    }
}

/// Writes `n` in decimal with at least `width` digits.
pub fn padded_decimal_text(n: u32, width: usize) -> (r: String)
    ensures
        r@ == padded_decimal(n as nat, width as nat),
{
    let digits = decimal_text(n);
    let len: usize = digits.as_str().unicode_len();
    let mut text = String::new();
    let mut i: usize = len;
    while i < width
        invariant
            len <= i,
            len < width ==> i <= width,
            len >= width ==> i == len,
            text@ =~= Seq::new((i - len) as nat, |k: int| '0'),
        decreases width - i,
    {
        proof {
            reveal_strlit("0");
        }
        text.append("0");
        i += 1;
    }
    text.append(digits.as_str());
    assert(text@ =~= padded_decimal(n as nat, width as nat));
    text
}

/// Reading back what was written gives the number: leading zeros do not count.
pub proof fn law_decimal_round_trip(n: nat, width: nat)
    ensures
        all_digits(padded_decimal(n, width)),
        decimal_value(padded_decimal(n, width)) == n,
        padded_decimal(n, width).len() >= width,
{
    lemma_decimal(n);
    let digits = decimal(n);
    if digits.len() < width {
        lemma_leading_zeros((width - digits.len()) as nat, digits);
    }
}

proof fn lemma_decimal(n: nat)
    ensures
        all_digits(decimal(n)),
        decimal_value(decimal(n)) == n,
        decimal(n).len() > 0,
    decreases n,
{
    reveal_with_fuel(decimal_value, 2);
    if n < 10 {
        assert(decimal(n).drop_last() =~= Seq::<char>::empty());
    } else {
        lemma_decimal(n / 10);
        assert(decimal(n).drop_last() =~= decimal(n / 10));
    }
}

proof fn lemma_leading_zeros(zeros: nat, digits: Seq<char>)
    requires
        all_digits(digits),
    ensures
        decimal_value(Seq::new(zeros, |i: int| '0') + digits) == decimal_value(digits),
        all_digits(Seq::new(zeros, |i: int| '0') + digits),
    decreases zeros + digits.len(),
{
    let all = Seq::new(zeros, |i: int| '0') + digits;
    if digits.len() > 0 {
        lemma_leading_zeros(zeros, digits.drop_last());
        assert(all.drop_last() =~= Seq::new(zeros, |i: int| '0') + digits.drop_last());
    } else if zeros > 0 {
        lemma_leading_zeros((zeros - 1) as nat, digits);
        assert(all.drop_last() =~= Seq::new((zeros - 1) as nat, |i: int| '0') + digits);
    }
}

// --- splitting ---------------------------------------------------------------

/// The text before and after the first `c`.
pub open spec fn split_first(s: Seq<char>, c: char) -> Option<(Seq<char>, Seq<char>)> {
    match s.index_of_first(c) {
        Some(i) => Some((s.take(i), s.skip(i + 1))),
        None => None,
    }
}

/// Splits a text at the first `c`.
pub fn split_once(s: &str, c: char) -> (r: Option<(&str, &str)>)
    ensures
        match r {
            Some((before, after)) => split_first(s@, c) == Some((before@, after@)),
            None => split_first(s@, c) is None,
        },
{
    let n: usize = s.unicode_len();
    let mut i: usize = 0;
    proof {
        s@.index_of_first_ensures(c);
    }
    while i < n
        invariant
            n == s@.len(),
            i <= n,
            forall|j: int| 0 <= j < i ==> s@[j] != c,
            match s@.index_of_first(c) {
                Some(k) => 0 <= k < s@.len() && s@[k] == c && forall|j: int| 0 <= j < k ==> s@[j] != c,
                None => !s@.contains(c),
            },
        decreases n - i,
    {
        if s.get_char(i) == c {
            assert(s@.contains(c));
            let before = s.substring_char(0, i);
            let after = s.substring_char(i + 1, n);
            assert(s@.index_of_first(c) == Some(i as int));
            assert(before@ =~= s@.take(i as int));
            assert(after@ =~= s@.skip(i as int + 1));
            return Some((before, after));
        }
        i += 1;
    }
    assert(!s@.contains(c));
    None
}

/// The two parts of a split text and the mark between them make up the text, and
/// the first part holds no mark; a text that does not split has no mark at all.
pub proof fn law_split_parts_make_up_the_text(s: Seq<char>, c: char)
    ensures
        match split_first(s, c) {
            Some((before, after)) => s == before + seq![c] + after && !before.contains(c),
            None => !s.contains(c),
        },
{
    s.index_of_first_ensures(c);
    match s.index_of_first(c) {
        Some(i) => {
            assert(s =~= s.take(i) + seq![c] + s.skip(i + 1));
            assert forall|j: int| 0 <= j < i implies s.take(i)[j] != c by {
                assert(s.take(i)[j] == s[j]);
            }
        },
        None => {},
    }
}

/// A text that holds a mark splits at the first one.
pub proof fn law_joined_texts_split_again(before: Seq<char>, c: char, after: Seq<char>)
    requires
        !before.contains(c),
    ensures
        split_first(before + seq![c] + after, c) == Some((before, after)),
{
    let s = before + seq![c] + after;
    let n = before.len() as int;
    s.index_of_first_ensures(c);
    assert(s[n] == c);
    assert(s.contains(c));
    let i = s.index_of_first(c)->0;
    if i < n {
        assert(s[i] == before[i]);
        assert(before.contains(before[i]));
    }
    assert(i == n);
    assert(s.take(n) =~= before);
    assert(s.skip(n + 1) =~= after);
}

/// Two characters count as the same, case aside, if they are the same or the
/// capital and the small form of one of the 26 letters.
pub proof fn law_only_letters_have_case(a: char, b: char)
    ensures
        folded(a) == folded(b) <==> {
            ||| a == b
            ||| 65 <= a as u32 <= 90 && b as u32 == a as u32 + 32
            ||| 65 <= b as u32 <= 90 && a as u32 == b as u32 + 32
        },
{
}

/// Texts that differ at most in case are as long as each other, and agree in
/// every character, case aside.
pub proof fn law_case_is_ignored_everywhere(a: Seq<char>, b: Seq<char>)
    ensures
        same_but_case(a, a),
        same_but_case(a, b) == same_but_case(b, a),
        same_but_case(a, b) ==> a.len() == b.len(),
        a.len() == b.len() && !same_but_case(a, b) ==> exists|i: int|
            0 <= i < a.len() && folded(#[trigger] a[i]) != folded(b[i]),
{
}

/// A digit behind a number multiplies it by ten and adds itself.
pub proof fn law_digits_count_by_ten(s: Seq<char>, c: char)
    ensures
        decimal_value(seq![]) == 0,
        decimal_value(s.push(c)) == 10 * decimal_value(s) + (c as u32 - 48),
        all_digits(s.push(c)) <==> all_digits(s) && 48 <= c as u32 <= 57,
{
    assert(s.push(c).drop_last() =~= s);
    if all_digits(s.push(c)) {
        assert forall|i: int| 0 <= i < s.len() implies is_digit(#[trigger] s[i]) by {
            assert(s.push(c)[i] == s[i]);
        }
        assert(is_digit(s.push(c)[s.len() as int]));
    }
}

/// A number text is a row of digits, with or without one `+` in front; it reads
/// as the number those digits denote as long as that is not too large.
pub proof fn law_numbers_are_read_in_decimal(digits: Seq<char>, max: int)
    requires
        digits.len() > 0,
        all_digits(digits),
    ensures
        unsigned_text(digits, max) == (if decimal_value(digits) <= max {
            Some(decimal_value(digits))
        } else {
            None
        }),
        unsigned_text(seq!['+'] + digits, max) == unsigned_text(digits, max),
{
    assert(is_digit(digits[0]));
    assert(digits_of(digits) == digits);
    assert((seq!['+'] + digits).skip(1) =~= digits);
}

/// What reads as a number holds nothing but digits, after at most one `+`.
pub proof fn law_only_digits_are_numbers(s: Seq<char>, max: int)
    requires
        unsigned_text(s, max) is Some,
    ensures
        unsigned_text(s, max)->0 <= max,
        s.len() > 0,
        forall|i: int|
            0 <= i < s.len() ==> 48 <= (#[trigger] s[i]) as u32 <= 57 || (i == 0 && s[i] == '+'
                && s.len() > 1),
{
    let digits = digits_of(s);
    assert forall|i: int| 0 <= i < s.len() implies 48 <= (#[trigger] s[i]) as u32 <= 57 || (i == 0
        && s[i] == '+' && s.len() > 1) by {
        if s[0] == '+' {
            if i > 0 {
                assert(is_digit(digits[i - 1]));
            }
        } else {
            assert(is_digit(digits[i]));
        }
    }
}

/// A written number reads back, with any number of zeros in front and with or
/// without a `+`.
pub proof fn law_written_numbers_read_back(n: nat, width: nat, max: int)
    ensures
        n <= max ==> unsigned_text(padded_decimal(n, width), max) == Some(n as int),
        n <= max ==> unsigned_text(seq!['+'] + padded_decimal(n, width), max) == Some(n as int),
        n > max ==> unsigned_text(padded_decimal(n, width), max) is None,
{
    law_decimal_round_trip(n, width);
    lemma_decimal(n);
    law_numbers_are_read_in_decimal(padded_decimal(n, width), max);
}

/// Written numbers are no longer than they need to be: zeros in front come only
/// up to the width asked for.
pub proof fn law_zeros_only_fill_the_width(n: nat, width: nat)
    ensures
        padded_decimal(n, width).len() > width ==> padded_decimal(n, width)[0] != '0' || n == 0
            && padded_decimal(n, width).len() == 1,
        padded_decimal(n, width).len() == width || padded_decimal(n, width) == padded_decimal(n, 0),
{
    lemma_first_digit(n);
}

proof fn lemma_first_digit(n: nat)
    ensures
        decimal(n).len() > 0,
        n > 0 ==> decimal(n)[0] != '0',
        n == 0 ==> decimal(n).len() == 1,
    decreases n,
{
    if n >= 10 {
        lemma_first_digit(n / 10);
        assert(decimal(n)[0] == decimal(n / 10)[0]);
    }
}

/// Digits denote no negative number.
pub proof fn lemma_decimal_value_positive(s: Seq<char>)
    ensures
        all_digits(s) ==> decimal_value(s) >= 0,
    decreases s.len(),
{
    if s.len() > 0 && all_digits(s) {
        assert(is_digit(s[s.len() - 1]));
        assert forall|i: int| 0 <= i < s.drop_last().len() implies is_digit(
            #[trigger] s.drop_last()[i],
        ) by {
            assert(is_digit(s[i]));
        }
        lemma_decimal_value_positive(s.drop_last());
    }
}

} // verus!
