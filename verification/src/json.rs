//! JSON string literals: how a text is written between quotes, and how such a
//! literal is read back.

use vstd::prelude::*;

verus! {

/// The error type of `serde_json`. Nothing is read from it.
#[verifier::external_type_specification]
#[verifier::external_body]
pub struct ExJsonError(serde_json::Error);

/// The hexadecimal digit, in lower case, for a value below sixteen.
pub open spec fn hex_digit(d: nat) -> char {
    if d < 10 {
        ((48 + d) as u8) as char
    } else {
        ((87 + d) as u8) as char
    }
}

/// The value of a hexadecimal digit in lower case.
pub open spec fn hex_value(c: char) -> Option<nat> {
    let code = c as u32;
    if 48 <= code <= 57 {
        Some((code - 48) as nat)
    } else if 97 <= code <= 102 {
        Some((code - 87) as nat)
    } else {
        None
    }
}

/// The letter that follows the backslash for a character with a
/// two-character escape.
pub open spec fn short_escape(c: char) -> Option<char> {
    if c == '"' {
        Some('"')
    } else if c == '\\' {
        Some('\\')
    } else if c == '\u{8}' {
        Some('b')
    } else if c == '\t' {
        Some('t')
    } else if c == '\n' {
        Some('n')
    } else if c == '\u{c}' {
        Some('f')
    } else if c == '\r' {
        Some('r')
    } else {
        None
    }
}

/// The character that a two-character escape with the given letter stands
/// for.
pub open spec fn short_escape_value(letter: char) -> Option<char> {
    if letter == '"' {
        Some('"')
    } else if letter == '\\' {
        Some('\\')
    } else if letter == 'b' {
        Some('\u{8}')
    } else if letter == 't' {
        Some('\t')
    } else if letter == 'n' {
        Some('\n')
    } else if letter == 'f' {
        Some('\u{c}')
    } else if letter == 'r' {
        Some('\r')
    } else {
        None
    }
}

/// How one character is written inside a JSON string literal: the quote, the
/// backslash and five control characters by a two-character escape, the other
/// characters below U+0020 as `\u00` and two hexadecimal digits in lower case,
/// and every other character as it is.
pub open spec fn escape_char(c: char) -> Seq<char> {
    match short_escape(c) {
        Some(letter) => seq!['\\', letter],
        None => if (c as u32) < 0x20 {
            seq![
                '\\',
                'u',
                '0',
                '0',
                hex_digit((c as u32 / 16) as nat),
                hex_digit((c as u32 % 16) as nat),
            ]
        } else {
            seq![c]
        },
    }
}

/// The characters of `text`, each written as inside a JSON string literal.
pub open spec fn escape(text: Seq<char>) -> Seq<char>
    decreases text.len(),
{
    if text.len() == 0 {
        Seq::empty()
    } else {
        escape_char(text[0]) + escape(text.skip(1))
    }
}

/// The JSON string literal for `text`: the escaped characters between two
/// quotes.
pub open spec fn quoted(text: Seq<char>) -> Seq<char> {
    seq!['"'] + escape(text) + seq!['"']
}

/// Reads one character of a literal's body from the front of `input`. Gives
/// the character and how many characters of `input` stand for it. Only the
/// forms that `escape_char` writes are read.
pub open spec fn read_char(input: Seq<char>) -> Option<(char, nat)> {
    if input.len() == 0 {
        None
    } else if input[0] == '\\' {
        if input.len() < 2 {
            None
        } else if input[1] == 'u' {
            if input.len() < 6 || input[2] != '0' || input[3] != '0' {
                None
            } else {
                match (hex_value(input[4]), hex_value(input[5])) {
                    (Some(high), Some(low)) => {
                        let c = ((high * 16 + low) as u8) as char;
                        if high < 2 && short_escape(c) is None {
                            Some((c, 6nat))
                        } else {
                            None
                        }
                    },
                    _ => None,
                }
            }
        } else {
            match short_escape_value(input[1]) {
                Some(c) => Some((c, 2nat)),
                None => None,
            }
        }
    } else if input[0] == '"' || (input[0] as u32) < 0x20 {
        None
    } else {
        Some((input[0], 1nat))
    }
}

/// Reads the body of a literal up to and with its closing quote. Gives the
/// text and what follows the quote.
pub open spec fn read_body(input: Seq<char>) -> Option<(Seq<char>, Seq<char>)>
    decreases input.len(),
{
    if input.len() > 0 && input[0] == '"' {
        Some((Seq::empty(), input.skip(1)))
    } else {
        match read_char(input) {
            Some((c, used)) => if 0 < used <= input.len() {
                match read_body(input.skip(used as int)) {
                    Some((text, rest)) => Some((seq![c] + text, rest)),
                    None => None,
                }
            } else {
                None
            },
            None => None,
        }
    }
}

/// Reads a JSON string literal from the front of `input`. Gives the text it
/// stands for and what follows it.
pub open spec fn read_quoted(input: Seq<char>) -> Option<(Seq<char>, Seq<char>)> {
    if input.len() > 0 && input[0] == '"' {
        read_body(input.skip(1))
    } else {
        None
    }
}

/// A read result with `prefix` put before its text.
pub open spec fn prepend(prefix: Seq<char>, read: Option<(Seq<char>, Seq<char>)>) -> Option<
    (Seq<char>, Seq<char>),
> {
    match read {
        Some((text, rest)) => Some((prefix + text, rest)),
        None => None,
    }
}

/// Reading the escaped form of a character gives the character back.
pub proof fn lemma_read_char_escape(c: char, rest: Seq<char>)
    ensures
        read_char(escape_char(c) + rest) == Some((c, escape_char(c).len())),
        (escape_char(c) + rest)[0] != '"',
        escape_char(c).len() > 0,
{
    let input = escape_char(c) + rest;
    if short_escape(c) is Some {
        assert(input[0] == '\\');
        assert(input[1] == short_escape(c)->0);
    } else if (c as u32) < 0x20 {
        let high = (c as u32 / 16) as nat;
        let low = (c as u32 % 16) as nat;
        assert(input[0] == '\\');
        assert(input[1] == 'u');
        assert(input[2] == '0');
        assert(input[3] == '0');
        assert(input[4] == hex_digit(high));
        assert(input[5] == hex_digit(low));
        assert(hex_value(hex_digit(high)) == Some(high));
        assert(hex_value(hex_digit(low)) == Some(low));
        assert(((high * 16 + low) as u8) as char == c);
    } else {
        assert(input[0] == c);
    }
}

/// Reading the escaped form of a text, closed by a quote, gives the text back
/// and leaves what follows the quote.
pub proof fn lemma_read_body_escape(text: Seq<char>, rest: Seq<char>)
    ensures
        read_body(escape(text) + seq!['"'] + rest) == Some((text, rest)),
    decreases text.len(),
{
    let input = escape(text) + seq!['"'] + rest;
    if text.len() == 0 {
        assert(input[0] == '"');
        assert(input.skip(1) =~= rest);
    } else {
        let c = text[0];
        let tail = text.skip(1);
        let after = escape(tail) + seq!['"'] + rest;
        assert(input =~= escape_char(c) + after);
        lemma_read_char_escape(c, after);
        assert(input.skip(escape_char(c).len() as int) =~= after);
        lemma_read_body_escape(tail, rest);
        assert(seq![c] + tail =~= text);
    }
}

/// Round trip of a literal: reading the literal of a text gives the text back
/// and leaves what follows the literal.
pub proof fn lemma_read_quoted(text: Seq<char>, rest: Seq<char>)
    ensures
        read_quoted(quoted(text) + rest) == Some((text, rest)),
{
    let input = quoted(text) + rest;
    assert(input[0] == '"');
    assert(input.skip(1) =~= escape(text) + seq!['"'] + rest);
    lemma_read_body_escape(text, rest);
}

/// Whether no character of the text is a control character below U+0020.
pub open spec fn no_control(text: Seq<char>) -> bool {
    forall|i: int| 0 <= i < text.len() ==> (#[trigger] text[i]) as u32 >= 0x20
}

/// Two texts put together hold a control character exactly where one of them
/// does.
pub proof fn lemma_no_control_concat(a: Seq<char>, b: Seq<char>)
    ensures
        no_control(a + b) == (no_control(a) && no_control(b)),
{
    if no_control(a + b) {
        assert forall|i: int| 0 <= i < a.len() implies (#[trigger] a[i]) as u32 >= 0x20 by {
            assert((a + b)[i] == a[i]);
        }
        assert forall|i: int| 0 <= i < b.len() implies (#[trigger] b[i]) as u32 >= 0x20 by {
            assert((a + b)[a.len() + i] == b[i]);
        }
    }
    if no_control(a) && no_control(b) {
        assert forall|i: int| 0 <= i < (a + b).len() implies (#[trigger] (a + b)[i]) as u32
            >= 0x20 by {
            if i < a.len() {
                assert((a + b)[i] == a[i]);
            } else {
                assert((a + b)[i] == b[i - a.len()]);
            }
        }
    }
}

proof fn lemma_escape_no_control(text: Seq<char>)
    ensures
        no_control(escape(text)),
    decreases text.len(),
{
    if text.len() > 0 {
        lemma_escape_no_control(text.skip(1));
        lemma_no_control_concat(escape_char(text[0]), escape(text.skip(1)));
    }
}

/// A literal holds no control character, whatever its text holds: it stays
/// on one line.
pub proof fn lemma_quoted_no_control(text: Seq<char>)
    ensures
        no_control(quoted(text)),
{
    lemma_escape_no_control(text);
    lemma_no_control_concat(seq!['"'], escape(text));
    lemma_no_control_concat(seq!['"'] + escape(text), seq!['"']);
}

proof fn lemma_hex_digit_of_value(c: char)
    requires
        hex_value(c) is Some,
    ensures
        hex_value(c).unwrap() < 16,
        hex_digit(hex_value(c).unwrap()) == c,
{
    let code = c as u32;
    assert((code as u8) as char == c);
    if 48 <= code <= 57 {
        assert(48 + (code - 48) as nat == code);
    } else {
        assert(87 + (code - 87) as nat == code);
    }
}

/// What `read_char` reads is the escaped form of the character it gives.
pub proof fn lemma_read_char_sound(input: Seq<char>)
    requires
        read_char(input) is Some,
    ensures
        0 < read_char(input).unwrap().1 <= input.len(),
        input.take(read_char(input).unwrap().1 as int) == escape_char(read_char(input).unwrap().0),
        input[0] != '"',
{
    let c = read_char(input).unwrap().0;
    let used = read_char(input).unwrap().1;
    if input[0] == '\\' {
        if input[1] == 'u' {
            let high = hex_value(input[4]).unwrap();
            let low = hex_value(input[5]).unwrap();
            assert(c as u32 == high * 16 + low);
            assert(c as u32 / 16 == high && c as u32 % 16 == low);
            lemma_hex_digit_of_value(input[4]);
            lemma_hex_digit_of_value(input[5]);
            assert(input.take(6) =~= escape_char(c));
        } else {
            assert(short_escape(c) == Some(input[1]));
            assert(input.take(2) =~= escape_char(c));
        }
    } else {
        assert(short_escape(c) is None);
        assert(input.take(1) =~= escape_char(c));
    }
}

/// What `read_body` reads is the escaped form of the text it gives, closed
/// by a quote: no other text is read as a body.
pub proof fn lemma_read_body_sound(input: Seq<char>)
    requires
        read_body(input) is Some,
    ensures
        input == escape(read_body(input).unwrap().0) + seq!['"'] + read_body(input).unwrap().1,
    decreases input.len(),
{
    let text = read_body(input).unwrap().0;
    let rest = read_body(input).unwrap().1;
    if input.len() > 0 && input[0] == '"' {
        assert(input =~= escape(text) + seq!['"'] + rest);
    } else {
        let c = read_char(input).unwrap().0;
        let used = read_char(input).unwrap().1 as int;
        let tail = read_body(input.skip(used)).unwrap().0;
        lemma_read_char_sound(input);
        lemma_read_body_sound(input.skip(used));
        assert(text == seq![c] + tail);
        assert(text[0] == c);
        assert(text.skip(1) =~= tail);
        assert(escape(text) == escape_char(c) + escape(tail));
        assert(input =~= input.take(used) + input.skip(used));
        assert(input =~= escape(text) + seq!['"'] + rest);
    }
}

/// What `read_quoted` reads is the literal of the text it gives: no other
/// text is read as a literal.
pub proof fn lemma_read_quoted_sound(input: Seq<char>)
    requires
        read_quoted(input) is Some,
    ensures
        input == quoted(read_quoted(input).unwrap().0) + read_quoted(input).unwrap().1,
{
    let text = read_quoted(input).unwrap().0;
    let rest = read_quoted(input).unwrap().1;
    lemma_read_body_sound(input.skip(1));
    assert(input =~= seq!['"'] + input.skip(1));
    assert(input =~= quoted(text) + rest);
}

/// Writes `text` as a JSON string literal by `serde_json::to_string`. For a
/// string slice that function cannot fail: it writes into a buffer in memory,
/// and it fails only where a value's own serialisation fails or a map has a
/// key that is no string. It writes a quote, each character as `escape_char`
/// says, and a quote.
#[verifier::external_body]
pub(crate) fn json_quote(text: &str) -> (r: Result<String, serde_json::Error>)
    ensures
        r is Ok,
        r matches Ok(literal) ==> literal@ == quoted(text@),
{
    serde_json::to_string(text)
}

fn hex_value_of(c: char) -> (r: Option<u8>)
    ensures
        match hex_value(c) {
            Some(v) => r == Some(v as u8) && v < 16,
            None => r is None,
        },
{
    let code = c as u32;
    if 48 <= code && code <= 57 {
        Some((code - 48) as u8)
    } else if 97 <= code && code <= 102 {
        Some((code - 87) as u8)
    } else {
        None
    }
}

fn short_escape_value_of(letter: char) -> (r: Option<char>)
    ensures
        r == short_escape_value(letter),
{
    if letter == '"' {
        Some('"')
    } else if letter == '\\' {
        Some('\\')
    } else if letter == 'b' {
        Some('\u{8}')
    } else if letter == 't' {
        Some('\t')
    } else if letter == 'n' {
        Some('\n')
    } else if letter == 'f' {
        Some('\u{c}')
    } else if letter == 'r' {
        Some('\r')
    } else {
        None
    }
}

fn has_short_escape(c: char) -> (r: bool)
    ensures
        r == short_escape(c) is Some,
{
    c == '"' || c == '\\' || c == '\u{8}' || c == '\t' || c == '\n' || c == '\u{c}' || c == '\r'
}

/// Reads one character of a literal's body at `pos`. Gives the character and
/// the position behind what stands for it.
fn read_char_at(chars: &Vec<char>, pos: usize) -> (r: Option<(char, usize)>)
    requires
        pos <= chars.len(),
    ensures
        match read_char(chars@.skip(pos as int)) {
            Some((c, used)) => r == Some((c, (pos + used) as usize)) && pos + used <= chars.len(),
            None => r is None,
        },
{
    let ghost input = chars@.skip(pos as int);
    let left = chars.len() - pos;
    if left == 0 {
        return None;
    }
    assert(input[0] == chars@[pos as int]);
    let first = chars[pos];
    if first == '\\' {
        if left < 2 {
            return None;
        }
        assert(input[1] == chars@[pos + 1]);
        let letter = chars[pos + 1];
        if letter == 'u' {
            if left < 6 {
                return None;
            }
            assert(input[2] == chars@[pos + 2]);
            assert(input[3] == chars@[pos + 3]);
            assert(input[4] == chars@[pos + 4]);
            assert(input[5] == chars@[pos + 5]);
            if chars[pos + 2] != '0' || chars[pos + 3] != '0' {
                return None;
            }
            match (hex_value_of(chars[pos + 4]), hex_value_of(chars[pos + 5])) {
                (Some(high), Some(low)) => {
                    if high < 2 {
                        let c = (high * 16 + low) as char;
                        if has_short_escape(c) {
                            None
                        } else {
                            Some((c, pos + 6))
                        }
                    } else {
                        None
                    }
                },
                _ => None,
            }
        } else {
            match short_escape_value_of(letter) {
                Some(c) => Some((c, pos + 2)),
                None => None,
            }
        }
    } else if first == '"' || (first as u32) < 0x20 {
        None
    } else {
        Some((first, pos + 1))
    }
}

/// Reads a JSON string literal at `pos`. Gives the text it stands for and the
/// position behind its closing quote.
pub(crate) fn read_quoted_at(chars: &Vec<char>, pos: usize) -> (r: Option<(String, usize)>)
    requires
        pos <= chars.len(),
    ensures
        match read_quoted(chars@.skip(pos as int)) {
            Some((text, rest)) => r matches Some((found, next)) && found@ == text && pos < next
                <= chars.len() && rest == chars@.skip(next as int),
            None => r is None,
        },
{
    if pos >= chars.len() || chars[pos] != '"' {
        return None;
    }
    let ghost whole = read_body(chars@.skip(pos + 1));
    let mut text = String::new();
    let mut at: usize = pos + 1;
    proof {
        assert(chars@.skip(pos as int).skip(1) =~= chars@.skip(pos + 1));
        assert(Seq::<char>::empty() + Seq::<char>::empty() =~= Seq::<char>::empty());
        assert(whole == prepend(text@, whole)) by {
            if whole is Some {
                assert(text@ + whole.unwrap().0 =~= whole.unwrap().0);
            }
        }
    }
    loop
        invariant
            pos < at <= chars.len(),
            whole == read_body(chars@.skip(pos + 1)),
            read_quoted(chars@.skip(pos as int)) == whole,
            whole == prepend(text@, read_body(chars@.skip(at as int))),
        decreases chars.len() - at,
    {
        let ghost input = chars@.skip(at as int);
        if at < chars.len() && chars[at] == '"' {
            proof {
                assert(input[0] == '"');
                assert(input.skip(1) =~= chars@.skip(at + 1));
                assert(text@ + Seq::<char>::empty() =~= text@);
            }
            return Some((text, at + 1));
        }
        match read_char_at(chars, at) {
            None => {
                return None;
            },
            Some((c, next)) => {
                proof {
                    let used = next - at;
                    assert(input.skip(used as int) =~= chars@.skip(next as int));
                    let tail = read_body(chars@.skip(next as int));
                    if tail is Some {
                        assert(text@ + (seq![c] + tail.unwrap().0) =~= text@.push(c) + tail.unwrap().0);
                    }
                }
                text.push(c);
                at = next;
            },
        }
    }
}

} // verus!
