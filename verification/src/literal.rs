//! String literals: what the source text of a literal denotes.
use vstd::prelude::*;

verus! {

/// Whether `c` is a hexadecimal digit.
pub open spec fn is_hex_digit(c: char) -> bool {
    '0' <= c <= '9' || 'a' <= c <= 'f' || 'A' <= c <= 'F'
}

/// The value of a hexadecimal digit.
pub open spec fn hex_digit(c: char) -> int {
    if '0' <= c <= '9' {
        c as int - '0' as int
    } else if 'a' <= c <= 'f' {
        c as int - 'a' as int + 10
    } else {
        c as int - 'A' as int + 10
    }
}

/// The number that a sequence of hexadecimal digits denotes.
pub open spec fn hex_number(digits: Seq<char>) -> int
    decreases digits.len(),
{
    if digits.len() == 0 {
        0
    } else {
        hex_number(digits.drop_last()) * 16 + hex_digit(digits.last())
    }
}

/// Whether `n` is the number of a character.
pub open spec fn is_scalar(n: int) -> bool {
    0 <= n < 0xD800 || 0xE000 <= n <= 0x10FFFF
}

/// Whether `c` is white space, as Unicode defines it.
pub open spec fn is_white(c: char) -> bool {
    let n = c as int;
    ||| 0x09 <= n <= 0x0D
    ||| n == 0x20 || n == 0x85 || n == 0xA0 || n == 0x1680
    ||| 0x2000 <= n <= 0x200A
    ||| n == 0x2028 || n == 0x2029 || n == 0x202F || n == 0x205F || n == 0x3000
}

/// How many characters at the front of `s` satisfy `p`.
pub open spec fn run(s: Seq<char>, p: spec_fn(char) -> bool) -> nat
    decreases s.len(),
{
    if s.len() > 0 && p(s[0]) {
        1 + run(s.skip(1), p)
    } else {
        0
    }
}

/// A run is no longer than the sequence it is in front of.
pub proof fn lemma_run_bound(s: Seq<char>, p: spec_fn(char) -> bool)
    ensures
        run(s, p) <= s.len(),
    decreases s.len(),
{
    if s.len() > 0 && p(s[0]) {
        lemma_run_bound(s.skip(1), p);
    }
}

/// The character that the escape sequence at the front of `s` denotes, and how many characters
/// of `s` the sequence takes. The backslash is already taken off `s`.
pub open spec fn escape(s: Seq<char>) -> Option<(char, nat)> {
    if s.len() == 0 {
        None
    } else if s[0] == 'n' {
        Some(('\n', 1))
    } else if s[0] == 'r' {
        Some(('\r', 1))
    } else if s[0] == 't' {
        Some(('\t', 1))
    } else if s[0] == '0' {
        Some(('\0', 1))
    } else if s[0] == '\\' || s[0] == '\'' || s[0] == '"' {
        Some((s[0], 1))
    } else if s[0] == 'x' {
        if s.len() >= 3 && is_hex_digit(s[1]) && is_hex_digit(s[2]) && hex_number(
            s.subrange(1, 3),
        ) <= 0x80 {
            Some((hex_number(s.subrange(1, 3)) as char, 3))
        } else {
            None
        }
    } else if s[0] == 'u' {
        let n = run(s.skip(2), |c: char| is_hex_digit(c));
        if s.len() >= 2 && s[1] == '{' && n <= 6 && s.len() > n + 2 && s[(n + 2) as int] == '}'
            && is_scalar(hex_number(s.subrange(2, (n + 2) as int))) {
            Some((hex_number(s.subrange(2, (n + 2) as int)) as char, n + 3))
        } else {
            None
        }
    } else {
        None
    }
}

/// The characters that `s` denotes, where `s` is what follows the opening quote of a string
/// literal; `None` if `s` is not the remainder of such a literal.
pub open spec fn unescape(s: Seq<char>) -> Option<Seq<char>>
    decreases s.len(),
{
    if s.len() == 0 {
        None
    } else if s[0] == '"' {
        if s.len() == 1 {
            Some(Seq::empty())
        } else {
            None
        }
    } else if s[0] == '\\' && s.len() > 1 && (s[1] == '\n' || s[1] == '\r') {
        // The string goes on at the next character that is not white space.
        let n = run(s.skip(2), |c: char| is_white(c));
        proof {
            lemma_run_bound(s.skip(2), |c: char| is_white(c));
        }
        unescape(s.skip((2 + n) as int))
    } else if s[0] == '\\' {
        match escape(s.skip(1)) {
            Some((c, n)) => and_then(c, unescape(s.skip((1 + n) as int))),
            None => None,
        }
    } else if s[0] == '\r' {
        // A line end is one character, and no carriage return stands alone.
        if s.len() > 1 && s[1] == '\n' {
            and_then('\n', unescape(s.skip(2)))
        } else {
            None
        }
    } else {
        and_then(s[0], unescape(s.skip(1)))
    }
}

/// `c` in front of the characters that follow it, if they denote anything.
pub open spec fn and_then(c: char, rest: Option<Seq<char>>) -> Option<Seq<char>> {
    match rest {
        Some(value) => Some(seq![c] + value),
        None => None,
    }
}

/// Whether a literal with this text is a string literal, by its first character: `"` or the `r`
/// of a raw string.
pub open spec fn is_string(text: Seq<char>) -> bool {
    text.len() > 0 && (text[0] == '"' || text[0] == 'r')
}

/// The characters that a string literal with this text denotes; `None` if the text is malformed.
///
/// A raw string denotes what stands between its first and its last quote.
pub open spec fn string_value(text: Seq<char>) -> Option<Seq<char>> {
    if text[0] == '"' {
        unescape(text.skip(1))
    } else {
        match (text.index_of_first('"'), text.index_of_last('"')) {
            (Some(first), Some(last)) => if first < last {
                Some(text.subrange(first + 1, last))
            } else {
                None
            },
            _ => None,
        }
    }
}

/// Characters that need no escape denote themselves.
pub proof fn lemma_unescape_plain(content: Seq<char>)
    requires
        forall|i: int|
            0 <= i < content.len() ==> (#[trigger] content[i]) != '"' && content[i] != '\\'
                && content[i] != '\r',
    ensures
        unescape(content.push('"')) == Some(content),
    decreases content.len(),
{
    let s = content.push('"');
    if content.len() == 0 {
        assert(content =~= Seq::empty());
    } else {
        assert(s[0] == content[0]);
        lemma_unescape_plain(content.skip(1));
        assert(s.skip(1) =~= content.skip(1).push('"'));
        assert(seq![content[0]] + content.skip(1) =~= content);
    }
}

/// A string literal without quotes, backslashes and carriage returns inside denotes what stands
/// between its quotes.
pub proof fn law_plain_string(content: Seq<char>)
    requires
        forall|i: int|
            0 <= i < content.len() ==> (#[trigger] content[i]) != '"' && content[i] != '\\'
                && content[i] != '\r',
    ensures
        string_value(seq!['"'] + content + seq!['"']) == Some(content),
{
    let text = seq!['"'] + content + seq!['"'];
    assert(text.skip(1) =~= content.push('"'));
    lemma_unescape_plain(content);
}

/// A raw string literal denotes what stands between its quotes, whatever that is.
pub proof fn law_raw_string(content: Seq<char>, hashes: nat)
    ensures
        ({
            let fence = Seq::new(hashes, |i: int| '#');
            string_value(seq!['r'] + fence + seq!['"'] + content + seq!['"'] + fence) == Some(
                content,
            )
        }),
{
    let fence = Seq::new(hashes, |i: int| '#');
    let text = seq!['r'] + fence + seq!['"'] + content + seq!['"'] + fence;
    let open = 1 + hashes as int;
    let close = open + 1 + content.len();
    assert(text[open] == '"');
    assert(text[close] == '"');
    text.index_of_first_ensures('"');
    text.index_of_last_ensures('"');
    assert(forall|j: int| 0 <= j < open ==> text[j] != '"');
    assert(forall|j: int| close < j < text.len() ==> text[j] != '"');
    assert(text.subrange(open + 1, close) =~= content);
}

/// Whether a literal with this text can be decoded: it is no string, or a well-formed one.
///
/// A string literal with a suffix, such as `"a"b`, cannot.
pub open spec fn is_decodable(text: Seq<char>) -> bool {
    is_string(text) ==> string_value(text) is Some
}

/// The value of a literal with the given source text, if it is a string literal.
///
/// Calls `LiteralExt::parse_string` of `literalext`, on a `DummyLiteral` that shows the text as
/// it is. What is taken on trust: it gives nothing for a text that starts with neither `"` nor
/// `r`; between the quotes of a raw string it keeps every character; in any other string it
/// replaces the escape sequences, drops a backslash at a line end together with the white space
/// after it, and turns a carriage return and line feed into a line feed. It panics on a string
/// that is malformed, so those are left out.
#[verifier::external_body]
pub(crate) fn parse_string(text: &str) -> (value: Option<String>)
    requires
        is_decodable(text@),
    ensures
        value is Some <==> is_string(text@),
        value matches Some(content) ==> Some(content@) == string_value(text@),
{
    literalext::LiteralExt::parse_string(&literalext::DummyLiteral(text))
}

/// Whether the character is the hexadecimal digit for this number, in either case.
pub open spec fn is_digit_for(c: char, n: int) -> bool {
    ||| 0 <= n <= 9 && c as int == '0' as int + n
    ||| 10 <= n <= 15 && c as int == 'a' as int + n - 10
    ||| 10 <= n <= 15 && c as int == 'A' as int + n - 10
}

/// Hexadecimal digits denote a number place by place.
pub proof fn law_hex_number(digits: Seq<char>, c: char, n: int)
    requires
        is_digit_for(c, n),
    ensures
        is_hex_digit(c),
        hex_number(Seq::empty()) == 0,
        hex_number(digits.push(c)) == hex_number(digits) * 16 + n,
{
    assert(digits.push(c).drop_last() =~= digits);
}

/// A simple escape denotes its character, whatever follows; the closing quote ends the string.
pub proof fn law_simple_escape(rest: Seq<char>)
    ensures
        unescape(seq!['\\', 'n'] + rest) == and_then('\n', unescape(rest)),
        unescape(seq!['\\', 'r'] + rest) == and_then('\r', unescape(rest)),
        unescape(seq!['\\', 't'] + rest) == and_then('\t', unescape(rest)),
        unescape(seq!['\\', '0'] + rest) == and_then('\0', unescape(rest)),
        unescape(seq!['\\', '\\'] + rest) == and_then('\\', unescape(rest)),
        unescape(seq!['\\', '\''] + rest) == and_then('\'', unescape(rest)),
        unescape(seq!['\\', '"'] + rest) == and_then('"', unescape(rest)),
        unescape(seq!['\r', '\n'] + rest) == and_then('\n', unescape(rest)),
        unescape(seq!['"'] + rest) == if rest.len() == 0 {
            Some(Seq::<char>::empty())
        } else {
            None
        },
{
    lemma_escape_at('n', rest);
    lemma_escape_at('r', rest);
    lemma_escape_at('t', rest);
    lemma_escape_at('0', rest);
    lemma_escape_at('\\', rest);
    lemma_escape_at('\'', rest);
    lemma_escape_at('"', rest);
    assert((seq!['\r', '\n'] + rest).skip(2) =~= rest);
}

/// What is left after a backslash and one more character.
proof fn lemma_escape_at(c: char, rest: Seq<char>)
    ensures
        (seq!['\\', c] + rest).skip(1)[0] == c,
        (seq!['\\', c] + rest).skip(2) == rest,
{
    assert((seq!['\\', c] + rest).skip(2) =~= rest);
}

/// A character that is neither quote, backslash nor carriage return denotes itself.
pub proof fn law_plain_char(c: char, rest: Seq<char>)
    requires
        c != '"',
        c != '\\',
        c != '\r',
    ensures
        unescape(seq![c] + rest) == and_then(c, unescape(rest)),
{
    assert((seq![c] + rest).skip(1) =~= rest);
}

/// Two hexadecimal digits after `\x` denote the character with that number, up to `\x80`.
pub proof fn law_hex_escape(a: char, m: int, b: char, n: int, rest: Seq<char>)
    requires
        is_digit_for(a, m),
        is_digit_for(b, n),
        m * 16 + n <= 0x80,
    ensures
        unescape(seq!['\\', 'x', a, b] + rest) == and_then((m * 16 + n) as char, unescape(rest)),
{
    let s = seq!['\\', 'x', a, b] + rest;
    let e = s.skip(1);
    let none: Seq<char> = Seq::empty();
    law_hex_number(none, a, m);
    law_hex_number(none.push(a), b, n);
    assert(e.subrange(1, 3) =~= none.push(a).push(b));
    assert(s.skip(4) =~= rest);
}

/// Up to six hexadecimal digits between `\u{` and `}` denote the character with that number.
pub proof fn law_unicode_escape(digits: Seq<char>, rest: Seq<char>)
    requires
        digits.len() <= 6,
        forall|i: int| 0 <= i < digits.len() ==> is_hex_digit(#[trigger] digits[i]),
        is_scalar(hex_number(digits)),
    ensures
        unescape(seq!['\\', 'u', '{'] + digits + seq!['}'] + rest) == and_then(
            hex_number(digits) as char,
            unescape(rest),
        ),
{
    let s = seq!['\\', 'u', '{'] + digits + seq!['}'] + rest;
    let e = s.skip(1);
    let n = digits.len() as int;
    assert(e.skip(2) =~= digits + (seq!['}'] + rest));
    lemma_run_at(digits, seq!['}'] + rest, |c: char| is_hex_digit(c));
    assert(e.subrange(2, n + 2) =~= digits);
    assert(s.skip(n + 4) =~= rest);
}

/// A backslash at a line end stands for nothing, and neither does the white space after it.
pub proof fn law_line_continuation(end: char, white: Seq<char>, rest: Seq<char>)
    requires
        end == '\n' || end == '\r',
        forall|i: int| 0 <= i < white.len() ==> is_white(#[trigger] white[i]),
        rest.len() > 0 ==> !is_white(rest[0]),
    ensures
        unescape(seq!['\\', end] + white + rest) == unescape(rest),
{
    let s = seq!['\\', end] + white + rest;
    assert(s.skip(2) =~= white + rest);
    lemma_run_at(white, rest, |c: char| is_white(c));
    assert(s.skip(2 + white.len() as int) =~= rest);
}

/// A run ends where the first character stands that does not belong to it.
proof fn lemma_run_at(front: Seq<char>, rest: Seq<char>, p: spec_fn(char) -> bool)
    requires
        forall|i: int| 0 <= i < front.len() ==> p(#[trigger] front[i]),
        rest.len() > 0 ==> !p(rest[0]),
    ensures
        run(front + rest, p) == front.len(),
    decreases front.len(),
{
    if front.len() == 0 {
        assert(front + rest =~= rest);
    } else {
        assert((front + rest)[0] == front[0]);
        assert((front + rest).skip(1) =~= front.skip(1) + rest);
        lemma_run_at(front.skip(1), rest, p);
    }
}

} // verus!
