//! Text handling: splitting a line into tokens, reading integer literals and
//! writing integers in decimal.

use vstd::prelude::*;
use vstd::string::*;

verus! {

/// The characters that separate tokens: the Unicode white space characters.
pub open spec fn is_space(c: char) -> bool {
    ||| '\u{9}' <= c <= '\u{D}'
    ||| c == ' '
    ||| c == '\u{85}'
    ||| c == '\u{A0}'
    ||| c == '\u{1680}'
    ||| '\u{2000}' <= c <= '\u{200A}'
    ||| c == '\u{2028}'
    ||| c == '\u{2029}'
    ||| c == '\u{202F}'
    ||| c == '\u{205F}'
    ||| c == '\u{3000}'
}

/// Whether `c` separates tokens.
pub fn is_whitespace(c: char) -> (b: bool)
    ensures
        b == is_space(c),
{
    ('\u{9}' <= c && c <= '\u{D}') || c == ' ' || c == '\u{85}' || c == '\u{A0}' || c == '\u{1680}'
        || ('\u{2000}' <= c && c <= '\u{200A}') || c == '\u{2028}' || c == '\u{2029}' || c
        == '\u{202F}' || c == '\u{205F}' || c == '\u{3000}'
}

/// The first position at or after `i` that holds no white space; the length
/// of `s` when only white space is left.
pub open spec fn skip_spaces(s: Seq<char>, i: int) -> int
    decreases s.len() - i,
{
    if 0 <= i < s.len() && is_space(s[i]) {
        skip_spaces(s, i + 1)
    } else {
        i
    }
}

/// The first position at or after `i` that holds white space; the length of
/// `s` when the token runs to the end.
pub open spec fn token_end(s: Seq<char>, i: int) -> int
    decreases s.len() - i,
{
    if 0 <= i < s.len() && !is_space(s[i]) {
        token_end(s, i + 1)
    } else {
        i
    }
}

/// `skip_spaces` skips white space only, and all of it.
pub proof fn lemma_skip_spaces(s: Seq<char>, i: int)
    requires
        0 <= i <= s.len(),
    ensures
        i <= skip_spaces(s, i) <= s.len(),
        skip_spaces(s, i) < s.len() ==> !is_space(s[skip_spaces(s, i)]),
        forall|k: int| i <= k < skip_spaces(s, i) ==> is_space(#[trigger] s[k]),
    decreases s.len() - i,
{
    if i < s.len() && is_space(s[i]) {
        lemma_skip_spaces(s, i + 1);
    }
}

/// `token_end` skips what is no white space, and all of it.
pub proof fn lemma_token_end(s: Seq<char>, i: int)
    requires
        0 <= i <= s.len(),
    ensures
        i <= token_end(s, i) <= s.len(),
        token_end(s, i) < s.len() ==> is_space(s[token_end(s, i)]),
        forall|k: int| i <= k < token_end(s, i) ==> !is_space(#[trigger] s[k]),
        i < s.len() && !is_space(s[i]) ==> i < token_end(s, i),
    decreases s.len() - i,
{
    if i < s.len() && !is_space(s[i]) {
        lemma_token_end(s, i + 1);
    }
}

/// The tokens of `s` that begin at or after position `i`: the maximal runs
/// of characters that are not white space, in order.
pub open spec fn tokens_from(s: Seq<char>, i: int) -> Seq<Seq<char>>
    decreases s.len() - i,
    via tokens_from_decreases
{
    let start = skip_spaces(s, i);
    if 0 <= i <= s.len() && start < s.len() {
        let end = token_end(s, start);
        seq![s.subrange(start, end)] + tokens_from(s, end)
    } else {
        Seq::empty()
    }
}

#[via_fn]
/// Every token holds a character, so the tokens after it begin further on.
proof fn tokens_from_decreases(s: Seq<char>, i: int) {
    if 0 <= i <= s.len() {
        lemma_skip_spaces(s, i);
        let start = skip_spaces(s, i);
        if start < s.len() {
            lemma_token_end(s, start);
        }
    }
}

/// The tokens of a line.
pub open spec fn tokenize(s: Seq<char>) -> Seq<Seq<char>> {
    tokens_from(s, 0)
}

/// What a vector of strings holds, as sequences of characters.
pub open spec fn texts(v: Seq<String>) -> Seq<Seq<char>> {
    Seq::new(v.len(), |i: int| v[i]@)
}

/// Every token holds at least one character and no white space.
pub proof fn law_token_shape(s: Seq<char>, i: int)
    requires
        0 <= i <= s.len(),
    ensures
        forall|k: int|
            0 <= k < tokens_from(s, i).len() ==> {
                let t = #[trigger] tokens_from(s, i)[k];
                t.len() > 0 && forall|j: int| 0 <= j < t.len() ==> !is_space(#[trigger] t[j])
            },
    decreases s.len() - i,
{
    lemma_skip_spaces(s, i);
    let start = skip_spaces(s, i);
    if start < s.len() {
        lemma_token_end(s, start);
        let end = token_end(s, start);
        law_token_shape(s, end);
        let rest = tokens_from(s, end);
        let all = tokens_from(s, i);
        assert forall|k: int| 0 <= k < all.len() implies {
            let t = #[trigger] all[k];
            t.len() > 0 && forall|j: int| 0 <= j < t.len() ==> !is_space(#[trigger] t[j])
        } by {
            if k == 0 {
                assert(all[0] == s.subrange(start, end));
            } else {
                assert(all[k] == rest[k - 1]);
            }
        }
    }
}

/// Splits a line at white space.
pub fn split_tokens(line: &str) -> (tokens: Vec<String>)
    ensures
        texts(tokens@) == tokenize(line@),
{
    let n: usize = line.unicode_len();
    let mut tokens: Vec<String> = Vec::new();
    let mut i: usize = 0;
    proof {
        assert(texts(tokens@) =~= Seq::<Seq<char>>::empty());
    }
    while i < n
        invariant
            n == line@.len(),
            i <= n,
            tokenize(line@) == texts(tokens@) + tokens_from(line@, i as int),
        decreases n - i,
    {
        let c: char = line.get_char(i);
        if is_whitespace(c) {
            proof {
                lemma_skip_one(line@, i as int);
            }
            i = i + 1;
        } else {
            let start: usize = i;
            while i < n && !is_whitespace(line.get_char(i))
                invariant
                    n == line@.len(),
                    start <= i <= n,
                    start < n,
                    token_end(line@, start as int) == token_end(line@, i as int),
                decreases n - i,
            {
                i = i + 1;
            }
            let token: String = line.substring_char(start, i).to_owned();
            proof {
                assert(token_end(line@, i as int) == i);
                assert(skip_spaces(line@, start as int) == start);
                let ghost before = texts(tokens@);
                assert(tokens_from(line@, start as int) == seq![token@] + tokens_from(
                    line@,
                    i as int,
                ));
                assert(texts(tokens@.push(token)) =~= before + seq![token@]);
                assert(before + (seq![token@] + tokens_from(line@, i as int)) =~= (before
                    + seq![token@]) + tokens_from(line@, i as int));
            }
            tokens.push(token);
        }
    }
    proof {
        assert(tokens_from(line@, n as int) =~= Seq::<Seq<char>>::empty());
        assert(texts(tokens@) + Seq::<Seq<char>>::empty() =~= texts(tokens@));
    }
    tokens
}

/// White space in front of the tokens can be left out.
proof fn lemma_skip_one(s: Seq<char>, i: int)
    requires
        0 <= i < s.len(),
        is_space(s[i]),
    ensures
        tokens_from(s, i) == tokens_from(s, i + 1),
{
    assert(skip_spaces(s, i) == skip_spaces(s, i + 1));
}


/// Whether a token opens a comment: it is `(`.
pub open spec fn opens_comment(token: Seq<char>) -> bool {
    token == seq!['(']
}

/// Whether a token ends a comment: its last character is `)`.
pub open spec fn closes_comment(token: Seq<char>) -> bool {
    token.len() > 0 && token.last() == ')'
}

/// The position after the first token at or after `at` that ends a
/// comment; `None` where no such token comes.
pub open spec fn comment_end(tokens: Seq<Seq<char>>, at: int) -> Option<int>
    decreases tokens.len() - at,
{
    if 0 <= at < tokens.len() {
        if closes_comment(tokens[at]) {
            Some(at + 1)
        } else {
            comment_end(tokens, at + 1)
        }
    } else {
        None
    }
}

/// A comment ends after where it was looked for, and inside the statement.
pub proof fn lemma_comment_end(tokens: Seq<Seq<char>>, at: int)
    requires
        0 <= at,
    ensures
        comment_end(tokens, at) matches Some(after) ==> at < after <= tokens.len(),
    decreases tokens.len() - at,
{
    if at < tokens.len() && !closes_comment(tokens[at]) {
        lemma_comment_end(tokens, at + 1);
    }
}

/// Whether a token opens a comment.
pub fn is_comment_start(token: &str) -> (b: bool)
    ensures
        b == opens_comment(token@),
{
    let b: bool = token.unicode_len() == 1 && token.get_char(0) == '(';
    assert(b == (token@ =~= seq!['(']));
    b
}

/// Whether a token ends a comment.
fn ends_comment(token: &str) -> (b: bool)
    ensures
        b == closes_comment(token@),
{
    let n: usize = token.unicode_len();
    n > 0 && token.get_char(n - 1) == ')'
}

/// Looks from position `from` on for the token that ends a comment, and
/// gives the position after it.
pub fn find_comment_end(tokens: &Vec<String>, from: usize) -> (r: Option<usize>)
    ensures
        match r {
            Some(after) => comment_end(texts(tokens@), from as int) == Some(after as int),
            None => comment_end(texts(tokens@), from as int) is None,
        },
{
    let n: usize = tokens.len();
    let mut at: usize = from;
    while at < n
        invariant
            n == tokens@.len(),
            from <= at,
            comment_end(texts(tokens@), from as int) == comment_end(texts(tokens@), at as int),
        decreases n - at,
    {
        if ends_comment(tokens[at].as_str()) {
            return Some(at + 1);
        }
        at = at + 1;
    }
    None
}

/// Whether `c` is one of the ten decimal digits.
pub open spec fn is_digit(c: char) -> bool {
    '0' <= c <= '9'
}

/// The number that a run of decimal digits stands for.
pub open spec fn digits_value(s: Seq<char>) -> int
    decreases s.len(),
{
    if s.len() == 0 {
        0
    } else {
        10 * digits_value(s.drop_last()) + (s.last() as int - '0' as int)
    }
}

/// Whether `s` holds decimal digits only.
pub open spec fn all_digits(s: Seq<char>) -> bool {
    forall|i: int| 0 <= i < s.len() ==> is_digit(#[trigger] s[i])
}

/// The integer that a token denotes: decimal digits, at least one, with an
/// optional `-` in front. No other token is a literal.
pub open spec fn literal_value(s: Seq<char>) -> Option<int> {
    if s.len() > 0 && s[0] == '-' {
        let digits = s.subrange(1, s.len() as int);
        if digits.len() > 0 && all_digits(digits) {
            Some(-digits_value(digits))
        } else {
            None
        }
    } else if s.len() > 0 && all_digits(s) {
        Some(digits_value(s))
    } else {
        None
    }
}

/// The number cell that a token gives: its literal value, where that fits a cell.
pub open spec fn parse_number(s: Seq<char>) -> Option<i32> {
    match literal_value(s) {
        Some(v) => if i32::MIN <= v <= i32::MAX {
            Some(v as i32)
        } else {
            None
        },
        None => None,
    }
}

/// Reads a token as a signed decimal integer.
pub fn parse_int(s: &str) -> (r: Option<i32>)
    ensures
        r == parse_number(s@),
{
    let n: usize = s.unicode_len();
    if n == 0 {
        return None;
    }
    let negative: bool = s.get_char(0) == '-';
    let first: usize = if negative {
        1
    } else {
        0
    };
    if first == n {
        return None;
    }
    let ghost digits = s@.subrange(first as int, n as int);
    proof {
        if !negative {
            assert(digits =~= s@);
        }
    }
    let mut acc: i64 = 0;
    let mut overflow: bool = false;
    let mut i: usize = first;
    while i < n
        invariant
            n == s@.len(),
            first <= i <= n,
            digits == s@.subrange(first as int, n as int),
            negative <==> s@[0] == '-',
            first == if negative { 1int } else { 0int },
            all_digits(s@.subrange(first as int, i as int)),
            !overflow ==> acc == digits_value(s@.subrange(first as int, i as int)) && 0 <= acc
                <= 0x8000_0000,
            overflow ==> digits_value(s@.subrange(first as int, i as int)) > 0x8000_0000,
        decreases n - i,
    {
        let c: char = s.get_char(i);
        if !('0' <= c && c <= '9') {
            proof {
                assert(!is_digit(digits[i - first]));
                if !negative {
                    assert(digits =~= s@);
                }
            }
            return None;
        }
        proof {
            let shorter = s@.subrange(first as int, i as int);
            let longer = s@.subrange(first as int, i + 1);
            assert(longer.drop_last() =~= shorter);
            assert(longer.last() == c);
        }
        if !overflow {
            acc = acc * 10 + (c as i64 - '0' as i64);
            if acc > 0x8000_0000 {
                overflow = true;
            }
        }
        i = i + 1;
    }
    proof {
        assert(s@.subrange(first as int, i as int) =~= digits);
    }
    if overflow {
        None
    } else if negative {
        Some((-acc) as i32)
    } else if acc <= 0x7fff_ffff {
        Some(acc as i32)
    } else {
        None
    }
}

/// The digit for `d`, a number from 0 to 9.
pub open spec fn digit_char(d: int) -> char {
    ('0' as int + d) as char
}

/// A natural number in decimal, without leading zeros.
pub open spec fn nat_text(n: nat) -> Seq<char>
    decreases n,
{
    if n < 10 {
        seq![digit_char(n as int)]
    } else {
        nat_text(n / 10).push(digit_char((n % 10) as int))
    }
}

/// An integer in decimal, with `-` in front of a negative one.
pub open spec fn int_text(n: int) -> Seq<char> {
    if n < 0 {
        seq!['-'] + nat_text((-n) as nat)
    } else {
        nat_text(n as nat)
    }
}

/// The decimal text of a natural number is made of digits, at least one,
/// and stands for that number.
pub proof fn lemma_nat_text(n: nat)
    ensures
        nat_text(n).len() > 0,
        all_digits(nat_text(n)),
        digits_value(nat_text(n)) == n,
    decreases n,
{
    if n < 10 {
        let text = nat_text(n);
        assert(text.drop_last() =~= Seq::<char>::empty());
        assert(digits_value(text.drop_last()) == 0);
    } else {
        lemma_nat_text(n / 10);
        let shorter = nat_text(n / 10);
        let text = shorter.push(digit_char((n % 10) as int));
        assert(text.drop_last() =~= shorter);
        assert forall|i: int| 0 <= i < text.len() implies is_digit(#[trigger] text[i]) by {
            if i < shorter.len() {
                assert(text[i] == shorter[i]);
            }
        }
    }
}

/// What `decimal` writes for a cell, `parse_int` reads back as that cell.
pub proof fn law_decimal_round_trip(n: i32)
    ensures
        parse_number(int_text(n as int)) == Some(n),
{
    if n < 0 {
        let digits = nat_text((-n) as nat);
        lemma_nat_text((-n) as nat);
        let text = seq!['-'] + digits;
        assert(text.subrange(1, text.len() as int) =~= digits);
    } else {
        lemma_nat_text(n as nat);
        let text = nat_text(n as nat);
        assert(is_digit(text[0]));
    }
}

/// The digit for `d` as a string.
fn digit_str(d: u8) -> (s: &'static str)
    requires
        d < 10,
    ensures
        s@ == seq![digit_char(d as int)],
{
    proof {
        reveal_strlit("0");
        reveal_strlit("1");
        reveal_strlit("2");
        reveal_strlit("3");
        reveal_strlit("4");
        reveal_strlit("5");
        reveal_strlit("6");
        reveal_strlit("7");
        reveal_strlit("8");
        reveal_strlit("9");
    }
    let s: &'static str = match d {
        0 => "0",
        1 => "1",
        2 => "2",
        3 => "3",
        4 => "4",
        5 => "5",
        6 => "6",
        7 => "7",
        8 => "8",
        _ => "9",
    };
    assert(s@ =~= seq![digit_char(d as int)]);
    s
}

/// Writes a natural number in decimal.
fn nat_string(n: u128) -> (s: String)
    ensures
        s@ == nat_text(n as nat),
    decreases n,
{
    if n < 10 {
        digit_str(n as u8).to_owned()
    } else {
        let mut s: String = nat_string(n / 10);
        s.append(digit_str((n % 10) as u8));
        s
    }
}

/// Writes an integer in decimal.
pub fn decimal(n: i128) -> (s: String)
    ensures
        s@ == int_text(n as int),
{
    if n < 0 {
        let magnitude: u128 = (-(n + 1)) as u128 + 1;
        let mut s: String = "-".to_owned();
        proof {
            reveal_strlit("-");
            assert(s@ =~= seq!['-']);
        }
        let digits: String = nat_string(magnitude);
        s.append(digits.as_str());
        s
    } else {
        nat_string(n as u128)
    }
}

/// The items of a stack in decimal, separated by a comma and a space.
pub open spec fn items_text(v: Seq<i32>) -> Seq<char>
    decreases v.len(),
{
    if v.len() == 0 {
        Seq::empty()
    } else if v.len() == 1 {
        int_text(v[0] as int)
    } else {
        items_text(v.drop_last()) + seq![',', ' '] + int_text(v.last() as int)
    }
}

/// A stack as a bracketed list, bottom first: `[1, 2, 3]`.
pub open spec fn list_text(v: Seq<i32>) -> Seq<char> {
    seq!['['] + items_text(v) + seq![']']
}

/// Appends the characters of `s` to `out`.
pub fn append_text(out: &mut Vec<char>, s: &str)
    ensures
        final(out)@ == old(out)@ + s@,
{
    let n: usize = s.unicode_len();
    let mut i: usize = 0;
    while i < n
        invariant
            n == s@.len(),
            i <= n,
            out@ == old(out)@ + s@.subrange(0, i as int),
        decreases n - i,
    {
        out.push(s.get_char(i));
        assert(s@.subrange(0, i + 1) =~= s@.subrange(0, i as int).push(s@[i as int]));
        i = i + 1;
    }
    assert(s@.subrange(0, n as int) =~= s@);
}

/// Appends a stack as a bracketed list to `out`.
pub fn append_list(out: &mut Vec<char>, v: &Vec<i32>)
    ensures
        final(out)@ == old(out)@ + list_text(v@),
{
    out.push('[');
    let mut i: usize = 0;
    while i < v.len()
        invariant
            i <= v.len(),
            out@ == old(out)@ + seq!['['] + items_text(v@.subrange(0, i as int)),
        decreases v.len() - i,
    {
        let ghost before = out@;
        if i > 0 {
            out.push(',');
            out.push(' ');
        }
        let item: String = decimal(v[i] as i128);
        append_text(out, item.as_str());
        proof {
            let shorter = v@.subrange(0, i as int);
            let longer = v@.subrange(0, i + 1);
            assert(longer.drop_last() =~= shorter);
            assert(longer.last() == v@[i as int]);
            if i > 0 {
                assert(out@ =~= before + seq![',', ' '] + int_text(v@[i as int] as int));
            }
            assert(out@ =~= old(out)@ + seq!['['] + items_text(longer));
        }
        i = i + 1;
    }
    out.push(']');
    assert(v@.subrange(0, v.len() as int) =~= v@);
    assert(out@ =~= old(out)@ + list_text(v@));
}

} // verus!
