//! Lines, words and other pieces of plain text.

use vstd::prelude::*;
use crate::text;
use crate::text::{chars_of, split_at_char, string_of, substring};

verus! {

/// Is this character white space (the Unicode property `White_Space`)?
pub open spec fn white(c: char) -> bool {
    let v = c as u32;
    ||| 0x9 <= v <= 0xd
    ||| v == 0x20
    ||| v == 0x85
    ||| v == 0xa0
    ||| v == 0x1680
    ||| 0x2000 <= v <= 0x200a
    ||| v == 0x2028
    ||| v == 0x2029
    ||| v == 0x202f
    ||| v == 0x205f
    ||| v == 0x3000
}

pub fn is_white(c: char) -> (r: bool)
    ensures
        r == white(c),
{
    let v: u32 = c as u32;
    (0x9 <= v && v <= 0xd) || v == 0x20 || v == 0x85 || v == 0xa0 || v == 0x1680 || (0x2000 <= v && v <= 0x200a)
        || v == 0x2028 || v == 0x2029 || v == 0x202f || v == 0x205f || v == 0x3000
}

/// The text without the white space at its start.
pub open spec fn trim_start(s: Seq<char>) -> Seq<char>
    decreases s.len(),
{
    if s.len() > 0 && white(s[0]) {
        trim_start(s.drop_first())
    } else {
        s
    }
}

/// The text without the white space at its end.
pub open spec fn trim_end(s: Seq<char>) -> Seq<char>
    decreases s.len(),
{
    if s.len() > 0 && white(s.last()) {
        trim_end(s.drop_last())
    } else {
        s
    }
}

/// The text without white space at either end.
pub open spec fn trimmed(s: Seq<char>) -> Seq<char> {
    trim_end(trim_start(s))
}

/// The text without the character `c` at either end.
pub open spec fn trimmed_of(s: Seq<char>, c: char) -> Seq<char>
    decreases s.len(),
{
    if s.len() > 0 && s[0] == c {
        trimmed_of(s.drop_first(), c)
    } else if s.len() > 0 && s.last() == c {
        trimmed_of(s.drop_last(), c)
    } else {
        s
    }
}

/// Trims a string at both ends.
pub fn trim(s: &str) -> (r: String)
    ensures
        r@ == trimmed(s@),
{
    let v = chars_of(s);
    let mut a: usize = 0;
    let mut b: usize = v.len();
    assert(s@.subrange(0, s@.len() as int) =~= s@);
    while a < b && is_white(v[a])
        invariant
            v@ == s@,
            a <= b == v@.len(),
            trim_start(s@) == trim_start(s@.subrange(a as int, b as int)),
        decreases b - a,
    {
        assert(s@.subrange(a as int, b as int).drop_first() =~= s@.subrange(a as int + 1, b as int));
        a = a + 1;
    }
    assert(trim_start(s@) == s@.subrange(a as int, b as int));
    while a < b && is_white(v[b - 1])
        invariant
            v@ == s@,
            a <= b <= v@.len(),
            trimmed(s@) == trim_end(s@.subrange(a as int, b as int)),
        decreases b - a,
    {
        assert(s@.subrange(a as int, b as int).drop_last() =~= s@.subrange(a as int, b as int - 1));
        b = b - 1;
    }
    substring(&v, a, b)
}

/// Trims a character at both ends of a string.
pub fn trim_char(s: &str, c: char) -> (r: String)
    ensures
        r@ == trimmed_of(s@, c),
{
    let v = chars_of(s);
    let mut a: usize = 0;
    let mut b: usize = v.len();
    assert(s@.subrange(0, s@.len() as int) =~= s@);
    while a < b && (v[a] == c || v[b - 1] == c)
        invariant
            v@ == s@,
            a <= b <= v@.len(),
            trimmed_of(s@, c) == trimmed_of(s@.subrange(a as int, b as int), c),
        decreases b - a,
    {
        assert(s@.subrange(a as int, b as int).drop_first() =~= s@.subrange(a as int + 1, b as int));
        assert(s@.subrange(a as int, b as int).drop_last() =~= s@.subrange(a as int, b as int - 1));
        if v[a] == c {
            a = a + 1;
        } else {
            b = b - 1;
        }
    }
    substring(&v, a, b)
}

/// The words that are complete, and the one under way.
pub open spec fn word_fold(s: Seq<char>) -> (Seq<Seq<char>>, Seq<char>)
    decreases s.len(),
{
    if s.len() == 0 {
        (Seq::empty(), Seq::empty())
    } else {
        let (done, cur) = word_fold(s.drop_last());
        if !white(s.last()) {
            (done, cur.push(s.last()))
        } else if cur.len() > 0 {
            (done.push(cur), Seq::empty())
        } else {
            (done, cur)
        }
    }
}

/// The words of a text: its runs of characters that are not white space.
pub open spec fn words_of(s: Seq<char>) -> Seq<Seq<char>> {
    let (done, cur) = word_fold(s);
    if cur.len() > 0 {
        done.push(cur)
    } else {
        done
    }
}

/// Splits a string into words.
pub fn split_words(s: &str) -> (r: Vec<String>)
    ensures
        text::views(r@) == words_of(s@),
{
    let v = chars_of(s);
    let mut done: Vec<String> = Vec::new();
    let mut cur: Vec<char> = Vec::new();
    let mut i: usize = 0;
    proof {
        assert(s@.take(0) =~= Seq::<char>::empty());
        assert(text::views(done@) =~= Seq::empty());
    }
    while i < v.len()
        invariant
            v@ == s@,
            i <= v@.len(),
            word_fold(s@.take(i as int)) == (text::views(done@), cur@),
        decreases v.len() - i,
    {
        let ghost before = text::views(done@);
        proof {
            assert(s@.take(i as int + 1).drop_last() =~= s@.take(i as int));
            assert(s@.take(i as int + 1).last() == s@[i as int]);
        }
        if !is_white(v[i]) {
            cur.push(v[i]);
        } else if cur.len() > 0 {
            let ghost w = cur@;
            done.push(string_of(&cur));
            cur = Vec::new();
            assert(text::views(done@) =~= before.push(w));
            assert(cur@ =~= Seq::<char>::empty());
        }
        i = i + 1;
    }
    assert(s@.take(i as int) =~= s@);
    if cur.len() > 0 {
        let ghost before = text::views(done@);
        let ghost w = cur@;
        done.push(string_of(&cur));
        assert(text::views(done@) =~= before.push(w));
    }
    done
}

/// A line without the carriage return at its end.
pub open spec fn without_cr(s: Seq<char>) -> Seq<char> {
    if s.len() > 0 && s.last() == '\r' {
        s.drop_last()
    } else {
        s
    }
}

/// The lines of a text. A newline at the very end starts no further line.
pub open spec fn lines_of(s: Seq<char>) -> Seq<Seq<char>> {
    let pieces = text::split_on(s, '\n');
    let body = if pieces.last().len() == 0 {
        pieces.drop_last()
    } else {
        pieces
    };
    body.map_values(|l: Seq<char>| without_cr(l))
}

/// Splits a string into lines.
pub fn split_lines(s: &str) -> (r: Vec<String>)
    ensures
        text::views(r@) == lines_of(s@),
{
    let mut pieces = split_at_char(s, '\n');
    proof {
        text::lemma_split_on_nonempty(s@, '\n');
    }
    let ghost all = text::views(pieces@);
    let last: usize = pieces.len() - 1;
    assert(all.last() == pieces@[last as int]@);
    if pieces[last].as_str().is_empty() {
        let _ = pieces.pop();
        assert(text::views(pieces@) =~= all.drop_last());
    }
    let ghost body = text::views(pieces@);
    let mut r: Vec<String> = Vec::new();
    let mut i: usize = 0;
    while i < pieces.len()
        invariant
            body == text::views(pieces@),
            i <= pieces@.len(),
            r@.len() == i,
            forall|k: int| 0 <= k < i ==> (#[trigger] r@[k])@ == without_cr(body[k]),
        decreases pieces.len() - i,
    {
        let v = chars_of(pieces[i].as_str());
        let n: usize = v.len();
        assert(body[i as int] == pieces@[i as int]@);
        if n > 0 && v[n - 1] == '\r' {
            assert(v@.subrange(0, n - 1) =~= v@.drop_last());
            r.push(substring(&v, 0, n - 1));
        } else {
            r.push(string_of(&v));
        }
        i = i + 1;
    }
    assert(text::views(r@) =~= lines_of(s@));
    r
}

/// Does `s` hold `part` at position `at`?
pub open spec fn occurs_at(s: Seq<char>, part: Seq<char>, at: int) -> bool {
    0 <= at && at + part.len() <= s.len() && s.subrange(at, at + part.len()) == part
}

pub fn matches_at(v: &Vec<char>, part: &Vec<char>, at: usize) -> (r: bool)
    ensures
        r == occurs_at(v@, part@, at as int),
{
    if at > v.len() || part.len() > v.len() - at {
        return false;
    }
    let mut i: usize = 0;
    while i < part.len()
        invariant
            at + part.len() <= v.len(),
            i <= part.len(),
            forall|k: int| 0 <= k < i ==> v@[at + k] == #[trigger] part@[k],
        decreases part.len() - i,
    {
        if v[at + i] != part[i] {
            assert(v@.subrange(at as int, at + part@.len())[i as int] != part@[i as int]);
            return false;
        }
        i = i + 1;
    }
    assert(v@.subrange(at as int, at + part@.len()) =~= part@);
    true
}

/// Is `r` the first place of `part` in `s`?
pub open spec fn first_occurrence(s: Seq<char>, part: Seq<char>, r: Option<int>) -> bool {
    match r {
        Some(at) => occurs_at(s, part, at) && forall|k: int| 0 <= k < at ==> !occurs_at(s, part, k),
        None => forall|k: int| !occurs_at(s, part, k),
    }
}

pub fn find_part(v: &Vec<char>, part: &Vec<char>) -> (r: Option<usize>)
    ensures
        r matches Some(at) ==> first_occurrence(v@, part@, Some(at as int)),
        r is None ==> first_occurrence(v@, part@, None),
{
    let mut at: usize = 0;
    while at <= v.len() && part.len() <= v.len() - at
        invariant
            forall|k: int| 0 <= k < at ==> !occurs_at(v@, part@, k),
            at <= v.len() + 1,
        decreases v.len() + 1 - at,
    {
        if matches_at(v, part, at) {
            return Some(at);
        }
        if at == v.len() {
            return None;
        }
        at = at + 1;
    }
    None
}

pub open spec fn starts_with(s: Seq<char>, part: Seq<char>) -> bool {
    occurs_at(s, part, 0)
}

pub open spec fn ends_with(s: Seq<char>, part: Seq<char>) -> bool {
    occurs_at(s, part, s.len() - part.len())
}

pub fn has_prefix(s: &str, part: &str) -> (r: bool)
    ensures
        r == starts_with(s@, part@),
{
    matches_at(&chars_of(s), &chars_of(part), 0)
}

pub fn has_suffix(s: &str, part: &str) -> (r: bool)
    ensures
        r == ends_with(s@, part@),
{
    let v = chars_of(s);
    let p = chars_of(part);
    if p.len() > v.len() {
        return false;
    }
    matches_at(&v, &p, v.len() - p.len())
}

/// The text with every `from` replaced by `to`.
pub open spec fn replaced(s: Seq<char>, from: char, to: char) -> Seq<char> {
    s.map_values(
        |c: char|
            if c == from {
                to
            } else {
                c
            },
    )
}

pub fn replace_char(s: &str, from: char, to: char) -> (r: String)
    ensures
        r@ == replaced(s@, from, to),
{
    let v = chars_of(s);
    let mut r = String::new();
    let mut i: usize = 0;
    while i < v.len()
        invariant
            v@ == s@,
            i <= v@.len(),
            r@ == replaced(s@, from, to).take(i as int),
        decreases v.len() - i,
    {
        let c = if v[i] == from {
            to
        } else {
            v[i]
        };
        r.push(c);
        assert(replaced(s@, from, to).take(i as int + 1) =~= replaced(s@, from, to).take(i as int).push(c));
        i = i + 1;
    }
    assert(replaced(s@, from, to).take(i as int) =~= replaced(s@, from, to));
    r
}

/// The place of the first `c` from `from` on.
pub open spec fn char_index(s: Seq<char>, c: char, from: int) -> Option<int>
    decreases s.len() - from,
{
    if from < 0 || from >= s.len() {
        None
    } else if s[from] == c {
        Some(from)
    } else {
        char_index(s, c, from + 1)
    }
}

pub fn find_char(v: &Vec<char>, c: char, from: usize) -> (r: Option<usize>)
    requires
        from <= v@.len(),
    ensures
        r is Some <==> char_index(v@, c, from as int) is Some,
        r matches Some(i) ==> char_index(v@, c, from as int) == Some(i as int) && from <= i < v.len(),
{
    let mut i: usize = from;
    while i < v.len()
        invariant
            from <= i <= v@.len(),
            char_index(v@, c, from as int) == char_index(v@, c, i as int),
        decreases v.len() - i,
    {
        if v[i] == c {
            return Some(i);
        }
        i = i + 1;
    }
    None
}

/// The value of a run of decimal digits; `None` where there is another character.
pub open spec fn digits_value(s: Seq<char>) -> Option<int>
    decreases s.len(),
{
    if s.len() == 0 {
        Some(0)
    } else {
        match digits_value(s.drop_last()) {
            Some(v) => if '0' as u32 <= s.last() as u32 <= '9' as u32 {
                Some(v * 10 + (s.last() as u32 - '0' as u32))
            } else {
                None
            },
            None => None,
        }
    }
}

/// The digits of an unsigned number: the text, without a plus sign in front.
pub open spec fn digits_part(s: Seq<char>) -> Seq<char> {
    if s.len() > 0 && s[0] == '+' {
        s.drop_first()
    } else {
        s
    }
}

/// The number that a text stands for, if it fits in 64 bits.
pub open spec fn number_of(s: Seq<char>) -> Option<int> {
    let d = digits_part(s);
    if d.len() == 0 {
        None
    } else {
        match digits_value(d) {
            Some(v) => if v <= u64::MAX {
                Some(v)
            } else {
                None
            },
            None => None,
        }
    }
}

proof fn lemma_digits_prefix(s: Seq<char>, n: int)
    requires
        0 <= n <= s.len(),
    ensures
        digits_value(s) is Some ==> digits_value(s.take(n)) is Some && digits_value(s.take(n))->0 <= digits_value(s)->0,
        digits_value(s) matches Some(v) ==> v >= 0,
    decreases s.len(),
{
    if s.len() > 0 {
        if n == s.len() {
            assert(s.take(n) =~= s);
            lemma_digits_prefix(s.drop_last(), n - 1);
        } else {
            lemma_digits_prefix(s.drop_last(), n);
            assert(s.drop_last().take(n) =~= s.take(n));
        }
    } else {
        assert(s.take(n) =~= s);
    }
}

/// Reads an unsigned number.
pub fn parse_number(s: &str) -> (r: Option<u64>)
    ensures
        r is Some <==> number_of(s@) is Some,
        r matches Some(n) ==> number_of(s@) == Some(n as int),
{
    let v = chars_of(s);
    let start: usize = if v.len() > 0 && v[0] == '+' {
        1
    } else {
        0
    };
    let ghost d = digits_part(s@);
    assert(d =~= v@.skip(start as int));
    if start == v.len() {
        return None;
    }
    let mut value: u64 = 0;
    let mut i: usize = start;
    assert(d.take(0) =~= Seq::<char>::empty());
    while i < v.len()
        invariant
            v@ == s@,
            d == digits_part(s@),
            d == v@.skip(start as int),
            start < v@.len(),
            start <= i <= v@.len(),
            digits_value(d.take(i - start)) == Some(value as int),
        decreases v.len() - i,
    {
        let c = v[i];
        proof {
            lemma_digits_prefix(d, i - start + 1);
            assert(d.take(i - start + 1).drop_last() =~= d.take(i - start));
            assert(d.take(i - start + 1).last() == c);
        }
        if !('0' as u32 <= c as u32 && c as u32 <= '9' as u32) {
            return None;
        }
        let digit: u64 = (c as u32 - '0' as u32) as u64;
        if value > (u64::MAX - digit) / 10 {
            return None;
        }
        value = value * 10 + digit;
        i = i + 1;
    }
    assert(d.take(i - start) =~= d);
    Some(value)
}

// ---------------------------------------------------------------------------
// Numerals
// ---------------------------------------------------------------------------

/// The character for a digit below 16.
pub open spec fn digit_char(d: int) -> char {
    seq!['0', '1', '2', '3', '4', '5', '6', '7', '8', '9', 'a', 'b', 'c', 'd', 'e', 'f'][d]
}

/// A number in a base, without leading zeroes.
pub open spec fn numeral(n: nat, base: nat) -> Seq<char>
    decreases n,
{
    if n < base || base < 2 {
        seq![digit_char(n as int)]
    } else {
        proof {
            vstd::arithmetic::div_mod::lemma_div_decreases(n as int, base as int);
        }
        numeral(n / base, base).push(digit_char((n % base) as int))
    }
}

fn digit(d: u64) -> (c: char)
    requires
        d < 16,
    ensures
        c == digit_char(d as int),
{
    match d {
        0 => '0',
        1 => '1',
        2 => '2',
        3 => '3',
        4 => '4',
        5 => '5',
        6 => '6',
        7 => '7',
        8 => '8',
        9 => '9',
        10 => 'a',
        11 => 'b',
        12 => 'c',
        13 => 'd',
        14 => 'e',
        _ => 'f',
    }
}

fn numeral_chars(n: u64, base: u64) -> (v: Vec<char>)
    requires
        2 <= base <= 16,
    ensures
        v@ == numeral(n as nat, base as nat),
    decreases n,
{
    if n < base {
        let mut v: Vec<char> = Vec::new();
        v.push(digit(n));
        assert(v@ =~= seq![digit_char(n as int)]);
        v
    } else {
        proof {
            vstd::arithmetic::div_mod::lemma_div_decreases(n as int, base as int);
            vstd::arithmetic::div_mod::lemma_mod_bound(n as int, base as int);
        }
        let mut v = numeral_chars(n / base, base);
        v.push(digit(n % base));
        v
    }
}

/// A number in decimal.
pub fn decimal(n: u64) -> (s: String)
    ensures
        s@ == numeral(n as nat, 10),
{
    let v = numeral_chars(n, 10);
    string_of(&v)
}

/// A number in hexadecimal, with small letters.
pub fn hexadecimal(n: u64) -> (s: String)
    ensures
        s@ == numeral(n as nat, 16),
{
    let v = numeral_chars(n, 16);
    string_of(&v)
}

proof fn lemma_decimal_digits(n: nat)
    ensures
        numeral(n, 10).len() > 0,
        numeral(n, 10)[0] != '+',
        digits_value(numeral(n, 10)) == Some(n as int),
    decreases n,
{
    let s = numeral(n, 10);
    if n < 10 {
        assert(s.drop_last() =~= Seq::<char>::empty());
        assert(digits_value(s.drop_last()) == Some(0int));
    } else {
        lemma_decimal_digits(n / 10);
        assert(s.drop_last() =~= numeral(n / 10, 10));
        assert(s[0] == numeral(n / 10, 10)[0]);
    }
}

/// The character of a digit is no slash, and tells the digit.
proof fn lemma_digit_char(d: int, e: int)
    requires
        0 <= d < 16,
        0 <= e < 16,
    ensures
        digit_char(d) != '/',
        digit_char(d) == digit_char(e) ==> d == e,
{
}

/// Different numbers are written differently, and without a slash.
pub proof fn lemma_hexadecimal_tells(m: nat, n: nat)
    ensures
        numeral(m, 16).len() > 0,
        !numeral(m, 16).contains('/'),
        numeral(m, 16) == numeral(n, 16) ==> m == n,
    decreases m + n,
{
    let a = numeral(m, 16);
    let b = numeral(n, 16);
    lemma_digit_char((m % 16) as int, (n % 16) as int);
    if m >= 16 {
        lemma_hexadecimal_tells(m / 16, n / 16);
        let rest = numeral(m / 16, 16);
        assert(a.drop_last() =~= rest);
        if a.contains('/') {
            let k = choose|k: int| 0 <= k < a.len() && a[k] == '/';
            if k < rest.len() {
                assert(rest[k] == '/');
                assert(rest.contains('/'));
            }
        }
        if a == b {
            if n < 16 {
                assert(b.len() == 1);
                assert(a.len() == rest.len() + 1);
            } else {
                assert(b.drop_last() =~= numeral(n / 16, 16));
                assert(a.last() == b.last());
            }
        }
    } else {
        if a == b && n >= 16 {
            lemma_hexadecimal_tells(n / 16, 0);
            assert(b.len() == numeral(n / 16, 16).len() + 1);
        }
        if a == b {
            assert(a[0] == b[0]);
        }
    }
}

/// A number that is written down is read as that number.
pub proof fn numbers_round_trip(n: u64)
    ensures
        number_of(numeral(n as nat, 10)) == Some(n as int),
{
    lemma_decimal_digits(n as nat);
}

// ---------------------------------------------------------------------------
// What holds of words, lines and trimmed text
// ---------------------------------------------------------------------------

/// In ASCII, white space is the tab, the line feed, the vertical tab, the form feed, the carriage
/// return and the space.
pub proof fn white_space_in_ascii(c: char)
    requires
        c as u32 <= 0x7f,
    ensures
        white(c) <==> (c == '\t' || c == '\n' || c as u32 == 0xb || c as u32 == 0xc || c == '\r' || c == ' '),
{
}

/// A text without white space.
pub open spec fn no_white(s: Seq<char>) -> bool {
    forall|i: int| 0 <= i < s.len() ==> !white(#[trigger] s[i])
}

/// A text of white space only.
pub open spec fn all_white(s: Seq<char>) -> bool {
    forall|i: int| 0 <= i < s.len() ==> white(#[trigger] s[i])
}

/// A word is not empty and holds no white space.
pub open spec fn is_word(s: Seq<char>) -> bool {
    s.len() > 0 && no_white(s)
}

proof fn lemma_word_fold_words(s: Seq<char>)
    ensures
        forall|i: int| 0 <= i < word_fold(s).0.len() ==> is_word(#[trigger] word_fold(s).0[i]),
        no_white(word_fold(s).1),
    decreases s.len(),
{
    if s.len() > 0 {
        lemma_word_fold_words(s.drop_last());
    }
}

/// The words of a text are words: none is empty, and none holds white space.
pub proof fn words_hold_no_white_space(s: Seq<char>)
    ensures
        forall|i: int| 0 <= i < words_of(s).len() ==> is_word(#[trigger] words_of(s)[i]),
{
    lemma_word_fold_words(s);
}

proof fn lemma_word_fold_append(a: Seq<char>, b: Seq<char>)
    requires
        word_fold(a).1.len() == 0,
    ensures
        word_fold(a + b) == (word_fold(a).0 + word_fold(b).0, word_fold(b).1),
    decreases b.len(),
{
    if b.len() == 0 {
        assert(a + b =~= a);
        assert(word_fold(a).1 =~= Seq::<char>::empty());
        assert(word_fold(a).0 + word_fold(b).0 =~= word_fold(a).0);
    } else {
        lemma_word_fold_append(a, b.drop_last());
        assert((a + b).drop_last() =~= a + b.drop_last());
        assert((a + b).last() == b.last());
        let (done, cur) = word_fold(b.drop_last());
        assert(word_fold(a).0 + done.push(cur) =~= (word_fold(a).0 + done).push(cur));
    }
}

/// White space separates words: the words of two texts with a white space character between them are
/// those of the first and then those of the second.
pub proof fn white_space_separates_words(a: Seq<char>, c: char, b: Seq<char>)
    requires
        white(c),
    ensures
        words_of(a.push(c) + b) == words_of(a) + words_of(b),
{
    assert(a.push(c).drop_last() =~= a);
    assert(word_fold(a.push(c)).1.len() == 0);
    assert(word_fold(a.push(c)).0 == words_of(a));
    lemma_word_fold_append(a.push(c), b);
    let (done, cur) = word_fold(b);
    assert(words_of(a) + done.push(cur) =~= (words_of(a) + done).push(cur));
}

proof fn lemma_word_fold_whole(s: Seq<char>)
    requires
        no_white(s),
    ensures
        word_fold(s) == (Seq::<Seq<char>>::empty(), s),
    decreases s.len(),
{
    if s.len() > 0 {
        let d = s.drop_last();
        assert forall|i: int| 0 <= i < d.len() implies !white(#[trigger] d[i]) by {
            assert(d[i] == s[i]);
        }
        lemma_word_fold_whole(d);
        assert(!white(s[s.len() - 1]));
        assert(d.push(s.last()) =~= s);
    } else {
        assert(s =~= Seq::empty());
    }
}

/// What holds no white space is one word, or none if it is empty.
pub proof fn a_word_stays_whole(s: Seq<char>)
    requires
        no_white(s),
    ensures
        s.len() > 0 ==> words_of(s) == seq![s],
        s.len() == 0 ==> words_of(s) == Seq::<Seq<char>>::empty(),
{
    lemma_word_fold_whole(s);
    assert(Seq::<Seq<char>>::empty().push(s) =~= seq![s]);
}

/// Words that are joined by single spaces are got back as they were.
pub proof fn words_come_back(parts: Seq<Seq<char>>)
    requires
        forall|i: int| 0 <= i < parts.len() ==> is_word(#[trigger] parts[i]),
    ensures
        words_of(text::join(parts, seq![' '])) == parts,
    decreases parts.len(),
{
    if parts.len() == 0 {
        a_word_stays_whole(text::join(parts, seq![' ']));
        assert(parts =~= Seq::empty());
    } else if parts.len() == 1 {
        assert(is_word(parts[0]));
        a_word_stays_whole(parts[0]);
        assert(seq![parts[0]] =~= parts);
    } else {
        let d = parts.drop_last();
        assert forall|i: int| 0 <= i < d.len() implies is_word(#[trigger] d[i]) by {
            assert(d[i] == parts[i]);
        }
        words_come_back(d);
        assert(is_word(parts[parts.len() - 1]));
        let s = text::join(d, seq![' ']);
        assert(s + seq![' '] + parts.last() =~= s.push(' ') + parts.last());
        white_space_separates_words(s, ' ', parts.last());
        a_word_stays_whole(parts.last());
        assert(d + seq![parts.last()] =~= parts);
    }
}

/// Trimming takes white space away, all of it at either end and nothing else.
pub proof fn trimming_takes_white_space_only(s: Seq<char>) -> (r: (Seq<char>, Seq<char>))
    ensures
        s == r.0 + trimmed(s) + r.1,
        all_white(r.0),
        all_white(r.1),
        trimmed(s).len() > 0 ==> !white(trimmed(s)[0]) && !white(trimmed(s).last()),
{
    let a = lemma_trim_start(s);
    let t = trim_start(s);
    let b = lemma_trim_end(t);
    assert(s =~= a + trimmed(s) + b);
    if trimmed(s).len() > 0 {
        assert(trimmed(s)[0] == t[0]);
    }
    (a, b)
}

proof fn lemma_trim_start(s: Seq<char>) -> (a: Seq<char>)
    ensures
        s == a + trim_start(s),
        all_white(a),
        trim_start(s).len() > 0 ==> !white(trim_start(s)[0]),
    decreases s.len(),
{
    if s.len() > 0 && white(s[0]) {
        let b = lemma_trim_start(s.drop_first());
        let a = seq![s[0]] + b;
        assert(s =~= seq![s[0]] + s.drop_first());
        assert(s =~= a + trim_start(s));
        a
    } else {
        assert(s =~= Seq::<char>::empty() + s);
        Seq::empty()
    }
}

proof fn lemma_trim_end(s: Seq<char>) -> (b: Seq<char>)
    ensures
        s == trim_end(s) + b,
        all_white(b),
        trim_end(s).len() > 0 ==> !white(trim_end(s).last()),
    decreases s.len(),
{
    if s.len() > 0 && white(s.last()) {
        let a = lemma_trim_end(s.drop_last());
        let b = a.push(s.last());
        assert(s =~= s.drop_last().push(s.last()));
        assert(s =~= trim_end(s) + b);
        b
    } else {
        assert(s =~= s + Seq::<char>::empty());
        Seq::empty()
    }
}

/// A text of this character only.
pub open spec fn only(s: Seq<char>, c: char) -> bool {
    forall|i: int| 0 <= i < s.len() ==> #[trigger] s[i] == c
}

/// Trimming a character takes it away at either end, all of it and nothing else.
pub proof fn trimming_takes_one_character_only(s: Seq<char>, c: char) -> (r: (Seq<char>, Seq<char>))
    ensures
        s == r.0 + trimmed_of(s, c) + r.1,
        only(r.0, c),
        only(r.1, c),
        trimmed_of(s, c).len() > 0 ==> trimmed_of(s, c)[0] != c && trimmed_of(s, c).last() != c,
    decreases s.len(),
{
    if s.len() > 0 && s[0] == c {
        let (a, b) = trimming_takes_one_character_only(s.drop_first(), c);
        let front = seq![c] + a;
        assert(s =~= seq![c] + s.drop_first());
        assert(s =~= front + trimmed_of(s, c) + b);
        (front, b)
    } else if s.len() > 0 && s.last() == c {
        let (a, b) = trimming_takes_one_character_only(s.drop_last(), c);
        let back = b.push(c);
        assert(s =~= s.drop_last().push(c));
        assert(s =~= a + trimmed_of(s, c) + back);
        (a, back)
    } else {
        assert(s =~= Seq::<char>::empty() + s + Seq::<char>::empty());
        (Seq::empty(), Seq::empty())
    }
}

/// Lines are got back as they were, whether or not the last one ends with a newline.
pub proof fn lines_come_back(lines: Seq<Seq<char>>)
    requires
        lines.len() > 0,
        forall|i: int|
            0 <= i < lines.len() ==> !(#[trigger] lines[i]).contains('\n') && (lines[i].len() == 0 || lines[i].last() != '\r'),
    ensures
        lines.last().len() > 0 ==> lines_of(text::join(lines, seq!['\n'])) == lines,
        lines_of(text::join(lines, seq!['\n']) + seq!['\n']) == lines,
{
    text::split_undoes_join(lines, '\n');
    assert(lines.map_values(|l: Seq<char>| without_cr(l)) =~= lines);
    let more = lines.push(Seq::empty());
    assert forall|i: int| 0 <= i < more.len() implies !(#[trigger] more[i]).contains('\n') by {
        if i < lines.len() {
            assert(more[i] == lines[i]);
        }
    }
    text::split_undoes_join(more, '\n');
    assert(more.drop_last() =~= lines);
    assert(text::join(lines, seq!['\n']) + seq!['\n'] + Seq::<char>::empty() =~= text::join(lines, seq!['\n']) + seq!['\n']);
}

/// Lines that end with a carriage return and a newline lose both.
pub proof fn carriage_returns_are_dropped(lines: Seq<Seq<char>>)
    requires
        lines.len() > 0,
        forall|i: int| 0 <= i < lines.len() ==> !(#[trigger] lines[i]).contains('\n'),
    ensures
        lines_of(text::join(lines.map_values(|l: Seq<char>| l.push('\r')), seq!['\n']) + seq!['\n']) == lines,
{
    let ended = lines.map_values(|l: Seq<char>| l.push('\r'));
    let more = ended.push(Seq::empty());
    assert forall|i: int| 0 <= i < more.len() implies !(#[trigger] more[i]).contains('\n') by {
        if i < lines.len() {
            assert forall|k: int| 0 <= k < more[i].len() implies more[i][k] != '\n' by {
                if k < lines[i].len() {
                    assert(more[i][k] == lines[i][k]);
                    assert(!lines[i].contains('\n'));
                }
            }
        }
    }
    text::split_undoes_join(more, '\n');
    assert(more.drop_last() =~= ended);
    assert(text::join(ended, seq!['\n']) + seq!['\n'] + Seq::<char>::empty() =~= text::join(ended, seq!['\n']) + seq!['\n']);
    let body = ended.map_values(|l: Seq<char>| without_cr(l));
    assert forall|i: int| 0 <= i < lines.len() implies body[i] == lines[i] by {
        assert(lines[i].push('\r').drop_last() =~= lines[i]);
    }
    assert(body =~= lines);
}

/// The place that is found is the first one, at or behind the start of the search.
pub proof fn the_first_place_is_found(s: Seq<char>, c: char, from: int)
    requires
        0 <= from <= s.len(),
    ensures
        match char_index(s, c, from) {
            Some(i) => from <= i < s.len() && s[i] == c && forall|k: int| from <= k < i ==> s[k] != c,
            None => forall|k: int| from <= k < s.len() ==> s[k] != c,
        },
    decreases s.len() - from,
{
    if from < s.len() && s[from] != c {
        the_first_place_is_found(s, c, from + 1);
    }
}

/// White space around a text is trimmed, whatever it is and however much of it.
pub proof fn padding_is_trimmed(a: Seq<char>, s: Seq<char>, b: Seq<char>)
    requires
        all_white(a),
        all_white(b),
        s.len() > 0 ==> !white(s[0]) && !white(s.last()),
    ensures
        trimmed(a + s + b) == s,
{
    lemma_front_trimmed(a, s + b);
    assert(a + s + b =~= a + (s + b));
    if s.len() > 0 {
        assert((s + b)[0] == s[0]);
        lemma_back_trimmed(s, b);
    } else {
        lemma_front_trimmed(b, Seq::empty());
        assert(s + b =~= b + Seq::<char>::empty());
        assert(s =~= Seq::<char>::empty());
    }
}

proof fn lemma_front_trimmed(a: Seq<char>, t: Seq<char>)
    requires
        all_white(a),
    ensures
        trim_start(a + t) == trim_start(t),
    decreases a.len(),
{
    if a.len() == 0 {
        assert(a + t =~= t);
    } else {
        assert((a + t)[0] == a[0]);
        assert((a + t).drop_first() =~= a.drop_first() + t);
        assert forall|i: int| 0 <= i < a.drop_first().len() implies white(#[trigger] a.drop_first()[i]) by {
            assert(a.drop_first()[i] == a[i + 1]);
        }
        lemma_front_trimmed(a.drop_first(), t);
    }
}

proof fn lemma_back_trimmed(s: Seq<char>, b: Seq<char>)
    requires
        s.len() > 0,
        !white(s.last()),
        all_white(b),
    ensures
        trim_end(s + b) == s,
    decreases b.len(),
{
    if b.len() == 0 {
        assert(s + b =~= s);
    } else {
        let d = b.drop_last();
        assert((s + b).last() == b[b.len() - 1]);
        assert((s + b).drop_last() =~= s + d);
        assert forall|i: int| 0 <= i < d.len() implies white(#[trigger] d[i]) by {
            assert(d[i] == b[i]);
        }
        lemma_back_trimmed(s, d);
    }
}

/// A character around a text is trimmed, however often it stands there.
pub proof fn quotes_are_trimmed(a: Seq<char>, s: Seq<char>, b: Seq<char>, c: char)
    requires
        only(a, c),
        only(b, c),
        s.len() > 0,
        s[0] != c,
        s.last() != c,
    ensures
        trimmed_of(a + s + b, c) == s,
    decreases a.len() + b.len(),
{
    let all = a + s + b;
    if a.len() > 0 {
        assert(all[0] == a[0]);
        assert(all.drop_first() =~= a.drop_first() + s + b);
        assert forall|i: int| 0 <= i < a.drop_first().len() implies #[trigger] a.drop_first()[i] == c by {
            assert(a.drop_first()[i] == a[i + 1]);
        }
        quotes_are_trimmed(a.drop_first(), s, b, c);
    } else if b.len() > 0 {
        assert(all[0] == s[0]);
        assert(all.last() == b[b.len() - 1]);
        assert(all.drop_last() =~= a + s + b.drop_last());
        assert forall|i: int| 0 <= i < b.drop_last().len() implies #[trigger] b.drop_last()[i] == c by {
            assert(b.drop_last()[i] == b[i]);
        }
        quotes_are_trimmed(a, s, b.drop_last(), c);
    } else {
        assert(all =~= s);
    }
}

/// A character is looked for only up to its first place.
pub proof fn the_first_place_is_behind(a: Seq<char>, c: char, b: Seq<char>)
    requires
        !a.contains(c),
    ensures
        char_index(a.push(c) + b, c, 0) == Some(a.len() as int),
        char_index(a, c, 0) is None,
{
    let s = a.push(c) + b;
    the_first_place_is_found(s, c, 0);
    the_first_place_is_found(a, c, 0);
    assert(s[a.len() as int] == c);
    assert forall|k: int| 0 <= k < a.len() implies s[k] != c by {
        assert(s[k] == a[k]);
    }
    if char_index(a, c, 0) is Some {
        assert(a[char_index(a, c, 0)->0] == c);
    }
}

// ---------------------------------------------------------------------------
// What holds of numbers
// ---------------------------------------------------------------------------

/// Is this a decimal digit?
pub open spec fn is_digit(c: char) -> bool {
    '0' as u32 <= c as u32 && c as u32 <= '9' as u32
}

proof fn lemma_all_digits(s: Seq<char>)
    ensures
        digits_value(s) is Some <==> forall|i: int| 0 <= i < s.len() ==> is_digit(#[trigger] s[i]),
    decreases s.len(),
{
    if s.len() > 0 {
        let d = s.drop_last();
        lemma_all_digits(d);
        if digits_value(s) is Some {
            assert forall|i: int| 0 <= i < s.len() implies is_digit(#[trigger] s[i]) by {
                if i < d.len() {
                    assert(is_digit(d[i]));
                }
            }
        }
        if forall|i: int| 0 <= i < s.len() ==> is_digit(#[trigger] s[i]) {
            assert forall|i: int| 0 <= i < d.len() implies is_digit(#[trigger] d[i]) by {
                assert(is_digit(s[i]));
            }
            assert(is_digit(s[s.len() - 1]));
        }
    }
}

/// Only digits make a number, behind one plus sign at most: any other character makes the text none, and so
/// does having no digit.
pub proof fn only_digits_make_numbers(s: Seq<char>, i: int)
    requires
        0 <= i < s.len(),
        !is_digit(s[i]),
        !(i == 0 && s[0] == '+'),
    ensures
        number_of(s) is None,
        number_of(Seq::empty()) is None,
        number_of(seq!['+']) is None,
{
    let d = digits_part(s);
    lemma_all_digits(d);
    if s[0] == '+' {
        assert(d[i - 1] == s[i]);
    }
    assert(seq!['+'].drop_first() =~= Seq::<char>::empty());
}

/// Every further digit makes ten times the number of what stands before it, plus the digit; what is too large
/// for 64 bits is no number. A plus sign in front changes nothing.
pub proof fn each_digit_counts(s: Seq<char>, c: char, n: int)
    requires
        s.len() > 0,
        is_digit(s[0]),
        number_of(s) == Some(n),
        is_digit(c),
    ensures
        ({
            let more = n * 10 + (c as u32 - '0' as u32);
            number_of(s.push(c)) == if more <= u64::MAX {
                Some(more)
            } else {
                None
            }
        }),
        number_of(seq![c]) == Some((c as u32 - '0' as u32) as int),
        number_of(seq!['+'] + s) == Some(n),
{
    assert(s.push(c).drop_last() =~= s);
    assert(s.push(c)[0] == s[0]);
    assert(seq![c].drop_last() =~= Seq::<char>::empty());
    assert(digits_value(Seq::<char>::empty()) == Some(0int));
    assert((seq!['+'] + s).drop_first() =~= s);
    assert((seq!['+'] + s)[0] == '+');
}

/// A text without a newline is one line, and an empty text has none; a newline at the end of a text starts no
/// further line, and one that stands alone ends an empty one.
pub proof fn a_text_without_newlines_is_a_line(s: Seq<char>)
    requires
        !s.contains('\n'),
    ensures
        s.len() > 0 && s.last() != '\r' ==> lines_of(s) == seq![s],
        lines_of(Seq::empty()).len() == 0,
        s.len() == 0 || s.last() != '\r' ==> lines_of(s.push('\n')) == seq![s],
{
    let none = Seq::<char>::empty();
    text::a_piece_stays_whole(s, '\n');
    text::a_piece_stays_whole(none, '\n');
    text::separators_separate(s, '\n', none);
    assert(s.push('\n') + none =~= s.push('\n'));
    assert(text::split_on(s.push('\n'), '\n') =~= seq![s, none]);
    assert(seq![s, none].drop_last() =~= seq![s]);
    assert(seq![none].drop_last() =~= Seq::<Seq<char>>::empty());
    if s.len() > 0 && s.last() != '\r' {
        assert(lines_of(s) =~= seq![s]);
    }
    if s.len() == 0 || s.last() != '\r' {
        assert(lines_of(s.push('\n')) =~= seq![s]);
    }
}

} // verus!
