//! Which bytes are of which kind, and what small texts hold, said of the bytes
//! and the characters.
use crate::bytes::{is_control, is_digit, is_lower, is_space, is_upper, is_word, to_lower, to_upper};
use crate::clipboard::{base64_digit, base64_text};
use crate::edits::other_case;
use crate::screen::{chosen_size, ScreenView};
use crate::strings::{is_white, trim, trim_end, trim_start};
use vstd::prelude::*;

verus! {

/// Spaces are the blank, the tab, and what ends a line or a page. Bytes of a
/// word are letters, digits and the underscore. Control bytes are the ones
/// before the blank, and delete.
pub proof fn lemma_kinds_of_bytes(byte: u8)
    ensures
        is_space(byte) == (byte as char == ' ' || byte as char == '\t' || byte as char == '\n'
            || byte as char == '\r' || byte as char == '\u{c}'),
        is_word(byte) == ('a' <= byte as char <= 'z' || 'A' <= byte as char <= 'Z' || '0'
            <= byte as char <= '9' || byte as char == '_'),
        is_digit(byte) == ('0' <= byte as char <= '9'),
        is_lower(byte) == ('a' <= byte as char <= 'z'),
        is_upper(byte) == ('A' <= byte as char <= 'Z'),
        is_control(byte) == ((byte as char) < ' ' || byte as char == '\u{7f}'),
{
}

/// A letter and the same letter in the other case are as far apart as `a` and
/// `A`; every other byte has no other case.
pub proof fn lemma_cases_of_letters(byte: u8)
    ensures
        'a' <= byte as char <= 'z' ==> to_upper(byte) as int == byte - ('a' as int - 'A' as int)
            && to_lower(byte) == byte && other_case(byte) == to_upper(byte),
        'A' <= byte as char <= 'Z' ==> to_lower(byte) as int == byte + ('a' as int - 'A' as int)
            && to_upper(byte) == byte && other_case(byte) == to_lower(byte),
        !('a' <= byte as char <= 'z') && !('A' <= byte as char <= 'Z') ==> to_upper(byte) == byte
            && to_lower(byte) == byte && other_case(byte) == byte,
{
}

proof fn lemma_start_trimmed(white: Seq<char>, text: Seq<char>)
    requires
        forall|i: int| 0 <= i < white.len() ==> is_white(#[trigger] white[i]),
        text.len() > 0 ==> !is_white(text[0]),
    ensures
        trim_start(white + text) == text,
    decreases white.len(),
{
    let all = white + text;
    if white.len() > 0 {
        let fewer = white.subrange(1, white.len() as int);
        assert(all[0] == white[0]);
        assert(all.subrange(1, all.len() as int) =~= fewer + text);
        assert forall|i: int| 0 <= i < fewer.len() implies is_white(#[trigger] fewer[i]) by {
            assert(fewer[i] == white[i + 1]);
        }
        lemma_start_trimmed(fewer, text);
    } else {
        assert(all =~= text);
    }
}

proof fn lemma_end_trimmed(text: Seq<char>, white: Seq<char>)
    requires
        forall|i: int| 0 <= i < white.len() ==> is_white(#[trigger] white[i]),
        text.len() > 0 ==> !is_white(text.last()),
    ensures
        trim_end(text + white) == text,
    decreases white.len(),
{
    let all = text + white;
    if white.len() > 0 {
        let fewer = white.drop_last();
        assert(all.last() == white[white.len() - 1]);
        assert(all.drop_last() =~= text + fewer);
        assert forall|i: int| 0 <= i < fewer.len() implies is_white(#[trigger] fewer[i]) by {
            assert(fewer[i] == white[i]);
        }
        lemma_end_trimmed(text, fewer);
    } else {
        assert(all =~= text);
    }
}

/// Trimming takes the white space at both ends off, and nothing else.
pub proof fn lemma_white_space_is_trimmed(before: Seq<char>, text: Seq<char>, behind: Seq<char>)
    requires
        forall|i: int| 0 <= i < before.len() ==> is_white(#[trigger] before[i]),
        forall|i: int| 0 <= i < behind.len() ==> is_white(#[trigger] behind[i]),
        text.len() > 0,
        !is_white(text[0]),
        !is_white(text.last()),
    ensures
        trim(before + (text + behind)) == text,
        is_white(' ') && is_white('\t') && is_white('\n') && is_white('\r'),
{
    assert((text + behind)[0] == text[0]);
    lemma_start_trimmed(before, text + behind);
    lemma_end_trimmed(text, behind);
}

/// The number that a digit of Base64 stands for: the capital letters come
/// first, then the small ones, the figures, the plus sign and the slash.
pub open spec fn digit_value(c: char) -> int {
    if 'A' <= c <= 'Z' {
        c as int - 'A' as int
    } else if 'a' <= c <= 'z' {
        c as int - 'a' as int + 26
    } else if '0' <= c <= '9' {
        c as int - '0' as int + 52
    } else if c == '+' {
        62
    } else {
        63
    }
}

proof fn lemma_digit(n: int)
    requires
        0 <= n < 64,
    ensures
        digit_value(base64_digit(n)) == n,
        base64_digit(n) != '=',
{
}

/// In Base64, four digits hold three bytes, as one number with the first byte
/// and the first digit in front. Behind the last two bytes or the last one,
/// equals signs fill up.
pub proof fn lemma_digits_hold_bytes(bytes: Seq<u8>)
    ensures
        ({
            let text = base64_text(bytes);
            &&& bytes.len() == 0 ==> text.len() == 0
            &&& bytes.len() >= 3 ==> {
                &&& text.len() >= 4
                &&& digit_value(text[0]) * 0x40000 + digit_value(text[1]) * 0x1000 + digit_value(
                    text[2],
                ) * 0x40 + digit_value(text[3]) == bytes[0] * 0x10000 + bytes[1] * 0x100
                    + bytes[2]
                &&& text.subrange(4, text.len() as int) == base64_text(
                    bytes.subrange(3, bytes.len() as int),
                )
            }
            &&& bytes.len() == 2 ==> {
                &&& text.len() == 4
                &&& digit_value(text[0]) * 0x40000 + digit_value(text[1]) * 0x1000 + digit_value(
                    text[2],
                ) * 0x40 == bytes[0] * 0x10000 + bytes[1] * 0x100
                &&& text[3] == '='
            }
            &&& bytes.len() == 1 ==> {
                &&& text.len() == 4
                &&& digit_value(text[0]) * 0x40000 + digit_value(text[1]) * 0x1000 == bytes[0]
                    * 0x10000
                &&& text[2] == '='
                &&& text[3] == '='
            }
        }),
{
    let text = base64_text(bytes);
    if bytes.len() > 0 {
        let a = bytes[0] as int;
        lemma_digit(a / 4);
        lemma_digit(a % 4 * 16);
        if bytes.len() > 1 {
            let b = bytes[1] as int;
            lemma_digit(a % 4 * 16 + b / 16);
            lemma_digit(b % 16 * 4);
            if bytes.len() > 2 {
                let c = bytes[2] as int;
                lemma_digit(b % 16 * 4 + c / 64);
                lemma_digit(c % 64);
                assert(text.subrange(4, text.len() as int) =~= base64_text(
                    bytes.subrange(3, bytes.len() as int),
                ));
            }
        }
    }
}

/// The size that the terminal reports counts, else the one that the environment
/// gives. The rows are kept from 2 to 512 and the columns from 10 to 4096.
pub proof fn lemma_size_of_terminal(
    screen: ScreenView,
    rows: usize,
    cols: usize,
    environment: Option<(usize, usize)>,
)
    ensures
        chosen_size(Some((rows, cols)), environment) == (rows as int, cols as int),
        rows > 0 && cols > 0 ==> chosen_size(None, Some((rows, cols))) == (
            rows as int,
            cols as int,
        ),
        chosen_size(None, None) == (24int, 80int),
        2 <= screen.resized(rows as int, cols as int).rows <= 512,
        10 <= screen.resized(rows as int, cols as int).cols <= 4096,
        2 <= rows <= 512 ==> screen.resized(rows as int, cols as int).rows == rows,
        10 <= cols <= 4096 ==> screen.resized(rows as int, cols as int).cols == cols,
{
}

} // verus!
