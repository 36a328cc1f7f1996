//! Character-level helpers: moving between strings and character vectors,
//! splitting text into lines and whitespace-separated tokens, and reading
//! unsigned decimal numbers.

use vstd::prelude::*;
use vstd::std_specs::iter::IteratorSpec;

verus! {

/// `String::push` of the standard library: the character is appended at the
/// end and nothing else changes.
pub assume_specification[ String::push ](s: &mut String, ch: char)
    ensures
        final(s)@ == old(s)@.push(ch),
;

/// The characters of `s`, in order.
pub fn chars_of(s: &str) -> (out: Vec<char>)
    ensures
        out@ == s@,
{
    let mut out: Vec<char> = Vec::new();
    let mut it = s.chars();
    loop
        invariant
            out@ + it.remaining() == s@,
            it.obeys_prophetic_iter_laws(),
        decreases s@.len() - out@.len(),
    {
        match it.next() {
            Some(c) => {
                out.push(c);
                assert(out@ + it.remaining() =~= s@);
            },
            None => {
                assert(out@ =~= s@);
                return out;
            },
        }
    }
}

/// The string made of `chars[from..to]`.
pub fn string_of(chars: &Vec<char>, from: usize, to: usize) -> (out: String)
    requires
        from <= to <= chars@.len(),
    ensures
        out@ == chars@.subrange(from as int, to as int),
{
    let mut out = String::new();
    let mut i: usize = from;
    while i < to
        invariant
            from <= i <= to <= chars@.len(),
            out@ == chars@.subrange(from as int, i as int),
        decreases to - i,
    {
        out.push(chars[i]);
        i += 1;
        assert(out@ =~= chars@.subrange(from as int, i as int));
    }
    out
}

/// What a vector of strings holds: the character sequence of each, in order.
pub open spec fn texts(v: Seq<String>) -> Seq<Seq<char>> {
    Seq::new(v.len(), |i: int| v[i]@)
}

/// Whether `c` is white space: the code points with the Unicode property
/// `White_Space`.
pub open spec fn is_space(c: char) -> bool {
    let n = c as u32;
    ||| 0x09 <= n <= 0x0D
    ||| n == 0x20
    ||| n == 0x85
    ||| n == 0xA0
    ||| n == 0x1680
    ||| 0x2000 <= n <= 0x200A
    ||| n == 0x2028
    ||| n == 0x2029
    ||| n == 0x202F
    ||| n == 0x205F
    ||| n == 0x3000
}

/// Whether `c` is white space, as `is_space` says.
pub fn is_whitespace(c: char) -> (b: bool)
    ensures
        b == is_space(c),
{
    let n: u32 = c as u32;
    (0x09 <= n && n <= 0x0D) || n == 0x20 || n == 0x85 || n == 0xA0 || n == 0x1680 || (0x2000 <= n
        && n <= 0x200A) || n == 0x2028 || n == 0x2029 || n == 0x202F || n == 0x205F || n == 0x3000
}

/// How many characters of `s`, counted from position `from`, come before the
/// next white space (or the end).
pub open spec fn word_run(s: Seq<char>, from: int) -> nat
    decreases s.len() - from,
{
    if from < 0 || from >= s.len() || is_space(s[from]) {
        0
    } else {
        1 + word_run(s, from + 1)
    }
}

/// Whether a token starts at position `i` of `s`: the character there is no
/// white space, and it is the first of `s` or follows white space.
pub open spec fn starts_token(s: Seq<char>, i: int) -> bool {
    &&& 0 <= i < s.len()
    &&& !is_space(s[i])
    &&& (i == 0 || is_space(s[i - 1]))
}

/// The tokens of `s` that start at or after `from`, left to right: each is a
/// maximal run of characters that are not white space.
pub open spec fn tokens_from(s: Seq<char>, from: int) -> Seq<Seq<char>>
    decreases s.len() - from,
{
    if from < 0 || from >= s.len() {
        Seq::empty()
    } else if starts_token(s, from) {
        seq![s.subrange(from, from + word_run(s, from))] + tokens_from(s, from + 1)
    } else {
        tokens_from(s, from + 1)
    }
}

/// The whitespace-separated tokens of `s`.
pub open spec fn tokens_of(s: Seq<char>) -> Seq<Seq<char>> {
    tokens_from(s, 0)
}

/// Splits `line` at white space, as `tokens_of` says.
pub fn split_tokens(line: &str) -> (out: Vec<String>)
    ensures
        texts(out@) == tokens_of(line@),
{
    let chars = chars_of(line);
    let n = chars.len();
    let mut out: Vec<String> = Vec::new();
    let mut i: usize = 0;
    while i < n
        invariant
            n == chars@.len(),
            chars@ == line@,
            i <= n,
            0 < i < n ==> is_space(chars@[i - 1]) || is_space(chars@[i as int]),
            texts(out@) + tokens_from(chars@, i as int) == tokens_of(chars@),
        decreases n - i,
    {
        if is_whitespace(chars[i]) {
            i += 1;
        } else {
            let start = i;
            i += 1;
            while i < n && !is_whitespace(chars[i])
                invariant
                    n == chars@.len(),
                    start < i <= n,
                    !is_space(chars@[i - 1]),
                    i + word_run(chars@, i as int) == start + word_run(chars@, start as int),
                    tokens_from(chars@, i as int) == tokens_from(chars@, start + 1),
                decreases n - i,
            {
                i += 1;
            }
            let token = string_of(&chars, start, i);
            proof {
                let rest = tokens_from(chars@, i as int);
                let before = texts(out@);
                assert(starts_token(chars@, start as int));
                assert(tokens_from(chars@, start as int) == seq![token@] + rest);
                assert(texts(out@.push(token)) =~= before.push(token@));
                assert(before.push(token@) + rest =~= before + (seq![token@] + rest));
            }
            out.push(token);
        }
    }
    proof {
        assert(texts(out@) + Seq::<Seq<char>>::empty() =~= texts(out@));
    }
    out
}

/// How many characters of `s`, counted from position `from`, come before the
/// next line feed (or the end).
pub open spec fn line_run(s: Seq<char>, from: int) -> nat
    decreases s.len() - from,
{
    if from < 0 || from >= s.len() || s[from] == '\n' {
        0
    } else {
        1 + line_run(s, from + 1)
    }
}

/// The line that starts at position `from` of `s`: the characters up to the
/// next line feed, without a carriage return that stands directly before
/// that line feed. A last line that no line feed ends is taken whole.
pub open spec fn line_at(s: Seq<char>, from: int) -> Seq<char> {
    let end = from + line_run(s, from);
    if end < s.len() && end > from && s[end - 1] == '\r' {
        s.subrange(from, end - 1)
    } else {
        s.subrange(from, end)
    }
}

/// Whether a line starts at position `i` of `s`: at the first character and
/// after each line feed.
pub open spec fn starts_line(s: Seq<char>, i: int) -> bool {
    &&& 0 <= i < s.len()
    &&& (i == 0 || s[i - 1] == '\n')
}

/// The lines of `s` that start at or after `from`, in order.
pub open spec fn lines_from(s: Seq<char>, from: int) -> Seq<Seq<char>>
    decreases s.len() - from,
{
    if from < 0 || from >= s.len() {
        Seq::empty()
    } else if starts_line(s, from) {
        seq![line_at(s, from)] + lines_from(s, from + 1)
    } else {
        lines_from(s, from + 1)
    }
}

/// The lines of `s`. A line feed that ends the text starts no further line,
/// and the empty text has no line.
pub open spec fn lines_of(s: Seq<char>) -> Seq<Seq<char>> {
    lines_from(s, 0)
}

/// Splits `text` into its lines, as `lines_of` says.
pub fn split_lines(text: &str) -> (out: Vec<String>)
    ensures
        texts(out@) == lines_of(text@),
{
    let chars = chars_of(text);
    let n = chars.len();
    let mut out: Vec<String> = Vec::new();
    let mut i: usize = 0;
    while i < n
        invariant
            n == chars@.len(),
            chars@ == text@,
            i <= n,
            0 < i < n ==> chars@[i - 1] == '\n',
            texts(out@) + lines_from(chars@, i as int) == lines_of(chars@),
        decreases n - i,
    {
        let start = i;
        while i < n && chars[i] != '\n'
            invariant
                n == chars@.len(),
                start <= i <= n,
                start < n,
                i + line_run(chars@, i as int) == start + line_run(chars@, start as int),
                start < i ==> chars@[i - 1] != '\n',
                i < n ==> lines_from(chars@, i + 1) == lines_from(chars@, start + 1),
                i == n ==> lines_from(chars@, start + 1) == Seq::<Seq<char>>::empty(),
            decreases n - i,
        {
            i += 1;
            proof {
                if i < n {
                    assert(!starts_line(chars@, i as int));
                }
            }
        }
        let end = if i < n && i > start && chars[i - 1] == '\r' {
            i - 1
        } else {
            i
        };
        let line = string_of(&chars, start, end);
        if i < n {
            i += 1;
        }
        proof {
            let rest = lines_from(chars@, i as int);
            let before = texts(out@);
            assert(starts_line(chars@, start as int));
            assert(line@ == line_at(chars@, start as int));
            assert(lines_from(chars@, start as int) == seq![line@] + rest);
            assert(texts(out@.push(line)) =~= before.push(line@));
            assert(before.push(line@) + rest =~= before + (seq![line@] + rest));
        }
        out.push(line);
    }
    proof {
        assert(texts(out@) + Seq::<Seq<char>>::empty() =~= texts(out@));
    }
    out
}

/// Whether `c` is one of the ten decimal digits.
pub open spec fn is_digit(c: char) -> bool {
    '0' <= c <= '9'
}

/// Whether `s` is a decimal numeral: one digit or more, and nothing else.
pub open spec fn is_numeral(s: Seq<char>) -> bool {
    &&& s.len() > 0
    &&& forall|i: int| 0 <= i < s.len() ==> is_digit(#[trigger] s[i])
}

/// The number that the digits of `s` write in base ten.
pub open spec fn numeral_value(s: Seq<char>) -> nat
    decreases s.len(),
{
    if s.len() == 0 {
        0
    } else {
        numeral_value(s.drop_last()) * 10 + ((s.last() as u32 - '0' as u32) as nat)
    }
}

/// What reading `s` as a lock number gives: the value of a decimal numeral
/// that fits in 32 bits, and nothing for any other text.
pub open spec fn number_of(s: Seq<char>) -> Option<u32> {
    if is_numeral(s) && numeral_value(s) <= u32::MAX {
        Some(numeral_value(s) as u32)
    } else {
        None
    }
}

/// A numeral is worth at least as much as any of its prefixes.
pub proof fn lemma_numeral_value_grows(s: Seq<char>, k: int)
    requires
        0 <= k <= s.len(),
        forall|i: int| 0 <= i < s.len() ==> is_digit(#[trigger] s[i]),
    ensures
        numeral_value(s.take(k)) <= numeral_value(s),
    decreases s.len() - k,
{
    if k < s.len() {
        lemma_numeral_value_grows(s, k + 1);
        assert(s.take(k + 1).drop_last() =~= s.take(k));
    } else {
        assert(s.take(k) =~= s);
    }
}

/// Reads `chars[from..]` as a lock number, as `number_of` says.
pub fn parse_number(chars: &Vec<char>, from: usize) -> (out: Option<u32>)
    requires
        from <= chars@.len(),
    ensures
        out == number_of(chars@.skip(from as int)),
{
    let n = chars.len();
    let ghost digits = chars@.skip(from as int);
    if from == n {
        return None;
    }
    let mut value: u32 = 0;
    let mut i: usize = from;
    while i < n
        invariant
            n == chars@.len(),
            from <= i <= n,
            digits == chars@.skip(from as int),
            forall|k: int| 0 <= k < i - from ==> is_digit(#[trigger] digits[k]),
            value == numeral_value(digits.take(i - from)),
        decreases n - i,
    {
        let c = chars[i];
        if !('0' <= c && c <= '9') {
            assert(!is_digit(digits[i - from]));
            return None;
        }
        let d: u32 = c as u32 - '0' as u32;
        proof {
            assert(digits.take(i - from + 1).drop_last() =~= digits.take(i - from));
            assert(digits.take(i - from + 1).last() == c);
        }
        if value > (u32::MAX - d) / 10 {
            proof {
                if is_numeral(digits) {
                    lemma_numeral_value_grows(digits, i - from + 1);
                }
            }
            return None;
        }
        value = value * 10 + d;
        i += 1;
    }
    proof {
        assert(digits.take(n - from) =~= digits);
    }
    Some(value)
}

} // verus!
