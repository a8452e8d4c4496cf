//! Texts in JSON.

use vstd::prelude::*;
use vstd::string::*;

use crate::text::digit;

verus! {

/// A hexadecimal digit.
pub open spec fn hex_digit(d: int) -> char {
    if d < 10 {
        digit(d)
    } else if d == 10 {
        'a'
    } else if d == 11 {
        'b'
    } else if d == 12 {
        'c'
    } else if d == 13 {
        'd'
    } else if d == 14 {
        'e'
    } else {
        'f'
    }
}

/// A character as it is written between quotes.
pub open spec fn json_char(c: char) -> Seq<char> {
    if c == '"' {
        seq!['\\', '"']
    } else if c == '\\' {
        seq!['\\', '\\']
    } else if c as u32 == 8 {
        seq!['\\', 'b']
    } else if c as u32 == 9 {
        seq!['\\', 't']
    } else if c as u32 == 10 {
        seq!['\\', 'n']
    } else if c as u32 == 12 {
        seq!['\\', 'f']
    } else if c as u32 == 13 {
        seq!['\\', 'r']
    } else if (c as u32) < 32 {
        seq!['\\', 'u', '0', '0', hex_digit(c as int / 16), hex_digit(c as int % 16)]
    } else {
        seq![c]
    }
}

/// A text as it is written between quotes.
pub open spec fn json_chars(s: Seq<char>) -> Seq<char>
    decreases s.len(),
{
    if s.len() == 0 {
        Seq::empty()
    } else {
        json_chars(s.drop_last()) + json_char(s.last())
    }
}

/// A text in JSON.
pub open spec fn json_string(s: Seq<char>) -> Seq<char> {
    seq!['"'] + json_chars(s) + seq!['"']
}

/// The text in JSON, by `serde_json::to_string`.
///
/// Taken on trust: the text stands between quotes, with quotes, backslashes
/// and control characters written as escapes and all else as it is.
#[verifier::external_body]
pub(crate) fn quoted(s: &str) -> (r: String)
    ensures
        r@ == json_string(s@),
{
    serde_json::to_string(s).unwrap()
}


/// The value of a hexadecimal digit.
pub open spec fn hex_value(c: char) -> int {
    if '0' <= c && c <= '9' {
        c as int - '0' as int
    } else {
        c as int - 'a' as int + 10
    }
}

/// The text that some characters stand for between the quotes of a JSON string.
pub open spec fn unescaped(t: Seq<char>) -> Seq<char>
    decreases t.len(),
{
    if t.len() == 0 {
        Seq::empty()
    } else if t[0] != '\\' || t.len() == 1 {
        seq![t[0]] + unescaped(t.skip(1))
    } else if t[1] == 'u' && t.len() >= 6 {
        seq![(hex_value(t[4]) * 16 + hex_value(t[5])) as char] + unescaped(t.skip(6))
    } else if t[1] == 'n' {
        seq!['\n'] + unescaped(t.skip(2))
    } else if t[1] == 'r' {
        seq!['\r'] + unescaped(t.skip(2))
    } else if t[1] == 't' {
        seq!['\t'] + unescaped(t.skip(2))
    } else if t[1] == 'b' {
        seq![8 as char] + unescaped(t.skip(2))
    } else if t[1] == 'f' {
        seq![12 as char] + unescaped(t.skip(2))
    } else {
        seq![t[1]] + unescaped(t.skip(2))
    }
}

proof fn one_character_comes_back(c: char, rest: Seq<char>)
    ensures
        unescaped(json_char(c) + rest) == seq![c] + unescaped(rest),
{
    let e = json_char(c);
    let t = e + rest;
    assert(t.skip(e.len() as int) =~= rest);
    if (c as u32) < 32 {
        assert(hex_value(hex_digit(c as int / 16)) == c as int / 16);
        assert(hex_value(hex_digit(c as int % 16)) == c as int % 16);
    }
}

proof fn characters_are_written_in_turn(s: Seq<char>)
    requires
        s.len() > 0,
    ensures
        json_chars(s) == json_char(s[0]) + json_chars(s.skip(1)),
    decreases s.len(),
{
    if s.len() == 1 {
        assert(s.drop_last() =~= Seq::<char>::empty());
        assert(s.skip(1) =~= Seq::<char>::empty());
        assert(json_chars(s) =~= json_char(s[0]) + json_chars(s.skip(1)));
    } else {
        characters_are_written_in_turn(s.drop_last());
        assert(s.drop_last().skip(1) =~= s.skip(1).drop_last());
        assert(json_chars(s) =~= json_char(s[0]) + json_chars(s.skip(1)));
    }
}

/// A text that was written as a JSON string comes back when it is read.
pub proof fn written_texts_come_back(s: Seq<char>)
    ensures
        unescaped(json_chars(s)) == s,
    decreases s.len(),
{
    if s.len() > 0 {
        characters_are_written_in_turn(s);
        one_character_comes_back(s[0], json_chars(s.skip(1)));
        written_texts_come_back(s.skip(1));
        assert(seq![s[0]] + s.skip(1) =~= s);
    } else {
        assert(s =~= Seq::<char>::empty());
    }
}

/// No control character is left in what is written.
pub proof fn control_characters_are_escaped(s: Seq<char>, i: int)
    requires
        0 <= i < json_string(s).len(),
    ensures
        json_string(s)[i] as u32 >= 32,
        json_string(s)[0] == '"',
        json_string(s).last() == '"',
{
    let t = json_chars(s);
    if 0 < i <= t.len() {
        written_characters_are_printed(s, i - 1);
    }
}

proof fn written_characters_are_printed(s: Seq<char>, i: int)
    requires
        0 <= i < json_chars(s).len(),
    ensures
        json_chars(s)[i] as u32 >= 32,
    decreases s.len(),
{
    let before = json_chars(s.drop_last());
    if i < before.len() {
        written_characters_are_printed(s.drop_last(), i);
    } else {
        assert(json_chars(s)[i] == json_char(s.last())[i - before.len()]);
    }
}

} // verus!
