//! Colon command lines: the line addresses in front, the name and the rest.
use crate::bytes::text_of;
use crate::motion::{find_row, row_found};
use crate::pattern::{error_of, pattern_error};
use crate::strings::{
    char_range, copy_str, decoded, trim, trim_start, trimmed, trimmed_start, utf8_lossy, utf8_of,
};
use crate::substitute::{pattern_meant, unescape_pattern};
use crate::syntax::fit_signed;
use vstd::prelude::*;
use vstd::string::*;
use vstd::utf8::encode_utf8;

verus! {

/// The pattern that was searched for last, and whether forward.
pub type Search = Option<(Vec<u8>, bool)>;

/// The pattern that was searched for last, as a value.
pub open spec fn search_of(search: Search) -> Option<(Seq<u8>, bool)> {
    match search {
        Some((pattern, forward)) => Some((pattern@, forward)),
        None => None,
    }
}

/// Where the marks `a` to `z` are.
pub type Marks = [Option<(usize, usize)>; 26];

/// Space, tab, line feed, form feed and carriage return.
#[verifier::allow_in_spec]
pub fn is_blank_char(c: char) -> bool
    returns
        c == ' ' || c == '\t' || c == '\n' || c == '\u{c}' || c == '\r',
{
    c == ' ' || c == '\t' || c == '\n' || c == '\u{c}' || c == '\r'
}

/// The characters 0 to 9.
#[verifier::allow_in_spec]
pub fn is_digit_char(c: char) -> bool
    returns
        '0' <= c && c <= '9',
{
    '0' <= c && c <= '9'
}

/// The characters A to Z and a to z.
#[verifier::allow_in_spec]
pub fn is_letter(c: char) -> bool
    returns
        ('a' <= c && c <= 'z') || ('A' <= c && c <= 'Z'),
{
    ('a' <= c && c <= 'z') || ('A' <= c && c <= 'Z')
}

/// The first place from `at` on that holds no space.
pub open spec fn behind_space(text: Seq<char>, at: int) -> int
    decreases text.len() - at,
{
    if 0 <= at < text.len() && is_blank_char(text[at]) {
        behind_space(text, at + 1)
    } else {
        at
    }
}

/// The first place from `at` on that holds no digit.
pub open spec fn behind_digits(text: Seq<char>, at: int) -> int
    decreases text.len() - at,
{
    if 0 <= at < text.len() && is_digit_char(text[at]) {
        behind_digits(text, at + 1)
    } else {
        at
    }
}

/// The first place from `at` on that holds no letter.
pub open spec fn behind_letters(text: Seq<char>, at: int) -> int
    decreases text.len() - at,
{
    if 0 <= at < text.len() && is_letter(text[at]) {
        behind_letters(text, at + 1)
    } else {
        at
    }
}

/// The number that the digits from `start` up to `end` write.
pub open spec fn number_at(text: Seq<char>, start: int, end: int) -> int
    decreases end - start,
{
    if end <= start {
        0
    } else {
        number_at(text, start, end - 1) * 10 + (text[end - 1] as int - '0' as int)
    }
}

/// The first place from `from` on that holds the delimiter without a backslash
/// before it, or the end of the text.
pub open spec fn pattern_end(text: Seq<char>, from: int, delimiter: char) -> int
    decreases text.len() - from,
{
    if from < 0 || from >= text.len() {
        text.len() as int
    } else if text[from] == '\\' {
        if from + 1 < text.len() {
            pattern_end(text, from + 2, delimiter)
        } else {
            text.len() as int
        }
    } else if text[from] == delimiter {
        from
    } else {
        pattern_end(text, from + 1, delimiter)
    }
}

fn skip_space(text: &[char], at: usize) -> (r: usize)
    requires
        at <= text@.len(),
    ensures
        r == behind_space(text@, at as int),
        at <= r <= text@.len(),
{
    let mut i: usize = at;
    while i < text.len() && is_blank_char(text[i])
        invariant
            at <= i <= text@.len(),
            behind_space(text@, i as int) == behind_space(text@, at as int),
        decreases text@.len() - i,
    {
        i += 1;
    }
    i
}

fn skip_letters(text: &[char], at: usize) -> (r: usize)
    requires
        at <= text@.len(),
    ensures
        r == behind_letters(text@, at as int),
        at <= r <= text@.len(),
{
    let mut i: usize = at;
    while i < text.len() && is_letter(text[i])
        invariant
            at <= i <= text@.len(),
            behind_letters(text@, i as int) == behind_letters(text@, at as int),
        decreases text@.len() - i,
    {
        i += 1;
    }
    i
}

/// Digits end behind the place where they begin, within the text.
pub proof fn lemma_behind_digits(text: Seq<char>, at: int)
    requires
        0 <= at <= text.len(),
    ensures
        at <= behind_digits(text, at) <= text.len(),
        forall|i: int| at <= i < behind_digits(text, at) ==> is_digit_char(#[trigger] text[i]),
    decreases text.len() - at,
{
    if at < text.len() && is_digit_char(text[at]) {
        lemma_behind_digits(text, at + 1);
    }
}

proof fn lemma_number_grows(text: Seq<char>, start: int, mid: int, end: int)
    requires
        0 <= start <= mid <= end <= text.len(),
        forall|i: int| start <= i < end ==> is_digit_char(#[trigger] text[i]),
    ensures
        0 <= number_at(text, start, mid) <= number_at(text, start, end),
    decreases end - start,
{
    if start < end {
        assert(is_digit_char(text[end - 1]));
        if mid < end {
            lemma_number_grows(text, start, mid, end - 1);
        } else {
            lemma_number_grows(text, start, end - 1, end - 1);
        }
    }
}

/// Reads the number at `at`: where its digits end, and its value unless that
/// is too large.
fn read_number(text: &[char], at: usize) -> (r: (usize, Option<isize>))
    requires
        at <= text@.len(),
    ensures
        r.0 == behind_digits(text@, at as int),
        at <= r.0 <= text@.len(),
        match r.1 {
            Some(value) => value == number_at(text@, at as int, r.0 as int),
            None => number_at(text@, at as int, r.0 as int) > isize::MAX,
        },
{
    let ghost end = behind_digits(text@, at as int);
    let mut i: usize = at;
    let mut value: u128 = 0;
    let mut large = false;
    proof {
        lemma_behind_digits(text@, at as int);
    }
    while i < text.len() && is_digit_char(text[i])
        invariant
            at <= i <= end <= text@.len(),
            end == behind_digits(text@, at as int),
            behind_digits(text@, i as int) == end,
            forall|j: int| at <= j < end ==> is_digit_char(#[trigger] text@[j]),
            !large ==> value == number_at(text@, at as int, i as int) && value
                <= isize::MAX as u128,
            large ==> number_at(text@, at as int, i as int) > isize::MAX,
        decreases text@.len() - i,
    {
        proof {
            lemma_behind_digits(text@, i as int);
            lemma_behind_digits(text@, i + 1);
            lemma_number_grows(text@, at as int, i as int, i + 1);
        }
        if !large {
            value = value * 10 + (text[i] as u32 - '0' as u32) as u128;
            if value > isize::MAX as u128 {
                large = true;
            }
        }
        i += 1;
    }
    (
        i,
        if large {
            None
        } else {
            Some(value as isize)
        },
    )
}

fn find_pattern_end(text: &[char], from: usize, delimiter: char) -> (r: usize)
    ensures
        r == pattern_end(text@, from as int, delimiter),
        from <= text@.len() ==> from <= r <= text@.len(),
{
    let mut i: usize = from;
    let total: usize = text.len();
    while i < total
        invariant
            from <= i,
            total == text@.len(),
            from <= total ==> i <= total,
            pattern_end(text@, i as int, delimiter) == pattern_end(text@, from as int, delimiter),
        decreases total - i,
    {
        if text[i] == '\\' {
            if total - i <= 2 {
                reveal_with_fuel(pattern_end, 2);
                return total;
            }
            i += 2;
        } else if text[i] == delimiter {
            return i;
        } else {
            i += 1;
        }
    }
    total
}

/// What stands at the start of a line address.
#[verifier::ext_equal]
pub enum AddressBase {
    /// No address.
    Absent,
    /// An address that cannot be resolved.
    Wrong(Seq<char>),
    /// A line number, the place behind what gave it, and the sign of an offset
    /// that is to follow.
    Line { address: int, position: int, sign: int },
}

/// The pattern of an address that searches: what stands between the
/// delimiters, or the last pattern where nothing does.
pub open spec fn address_pattern(
    rest: Seq<char>,
    at: int,
    end: int,
    search: Option<(Seq<u8>, bool)>,
) -> Seq<u8> {
    let raw = pattern_meant(encode_utf8(rest.subrange(at + 1, end)), 0, 47);
    if raw.len() == 0 {
        match search {
            Some((pattern, _)) => pattern,
            None => raw,
        }
    } else {
        raw
    }
}

/// The message about a pattern that is not well-formed.
pub open spec fn bad_pattern_message(pattern: Seq<u8>, error: Seq<char>) -> Seq<char> {
    "bad search pattern '"@ + decoded(pattern) + "': "@ + error
}

/// The start of the address at `at`, which holds no space, and the pattern
/// that was searched for last after it was looked at.
pub open spec fn address_base(
    rest: Seq<char>,
    at: int,
    current: int,
    lines: Seq<Seq<u8>>,
    ignorecase: bool,
    marks: Seq<Option<(usize, usize)>>,
    search: Option<(Seq<u8>, bool)>,
) -> (AddressBase, Option<(Seq<u8>, bool)>) {
    if at >= rest.len() {
        (AddressBase::Absent, search)
    } else if rest[at] == '.' {
        (AddressBase::Line { address: current + 1, position: at + 1, sign: 0 }, search)
    } else if rest[at] == '$' {
        (AddressBase::Line { address: lines.len() as int, position: at + 1, sign: 0 }, search)
    } else if rest[at] == '\'' {
        if at + 1 < rest.len() && 'a' <= rest[at + 1] <= 'z' {
            match marks[rest[at + 1] as int - 'a' as int] {
                Some((row, _)) => (
                    AddressBase::Line { address: row + 1, position: at + 2, sign: 0 },
                    search,
                ),
                None => (AddressBase::Wrong("Mark not set"@), search),
            }
        } else {
            (AddressBase::Wrong("Mark not set"@), search)
        }
    } else if rest[at] == '/' || rest[at] == '?' {
        let end = pattern_end(rest, at + 1, rest[at]);
        let pattern = address_pattern(rest, at, end, search);
        let forward = rest[at] == '/';
        let after = Some((pattern, forward));
        match error_of(pattern) {
            Some(error) => (AddressBase::Wrong(bad_pattern_message(pattern, error)), after),
            None => match row_found(
                lines,
                current,
                lines.len() as int,
                pattern,
                forward,
                ignorecase,
            ) {
                Some((row, _)) => (
                    AddressBase::Line {
                        address: row + 1,
                        position: if end < rest.len() {
                            end + 1
                        } else {
                            end
                        },
                        sign: 0,
                    },
                    after,
                ),
                None => (AddressBase::Wrong("Pattern not found"@), after),
            },
        }
    } else if is_digit_char(rest[at]) {
        let end = behind_digits(rest, at);
        let value = number_at(rest, at, end);
        if value > isize::MAX {
            (AddressBase::Wrong("Invalid range"@), search)
        } else {
            (AddressBase::Line { address: value, position: end, sign: 0 }, search)
        }
    } else if rest[at] == '+' {
        (AddressBase::Line { address: current + 1, position: at + 1, sign: 1 }, search)
    } else if rest[at] == '-' {
        (AddressBase::Line { address: current + 1, position: at + 1, sign: -1 }, search)
    } else {
        (AddressBase::Absent, search)
    }
}

/// The line number and the place behind it once the offsets at `at` are added
/// up, or nothing where a number is too large. A sign that ends the text
/// counts for nothing.
pub open spec fn with_offsets(rest: Seq<char>, at: int, address: int, sign: int) -> Option<
    (int, int),
>
    decreases rest.len() - at,
{
    if at < 0 || at >= rest.len() {
        Some((address, at))
    } else if is_blank_char(rest[at]) {
        with_offsets(rest, at + 1, fit_signed(address + sign), 0)
    } else if rest[at] == '+' {
        with_offsets(rest, at + 1, fit_signed(address + sign), 1)
    } else if rest[at] == '-' {
        with_offsets(rest, at + 1, fit_signed(address + sign), -1)
    } else if is_digit_char(rest[at]) {
        proof {
            lemma_behind_digits(rest, at);
            lemma_behind_digits(rest, at + 1);
        }
        let end = behind_digits(rest, at);
        let value = number_at(rest, at, end);
        if value > isize::MAX {
            None
        } else {
            with_offsets(
                rest,
                end,
                fit_signed(
                    address + if sign < 0 {
                        -value
                    } else {
                        value
                    },
                ),
                0,
            )
        }
    } else {
        Some((fit_signed(address + sign), at))
    }
}

/// What a line address stands for: the line and the place behind the address,
/// nothing where there is none, or what is wrong with it.
#[verifier::opaque]
pub open spec fn address_of(
    rest: Seq<char>,
    current: int,
    lines: Seq<Seq<u8>>,
    ignorecase: bool,
    marks: Seq<Option<(usize, usize)>>,
    search: Option<(Seq<u8>, bool)>,
) -> (Result<Option<(int, int)>, Seq<char>>, Option<(Seq<u8>, bool)>) {
    let at = behind_space(rest, 0);
    let (base, after) = address_base(rest, at, current, lines, ignorecase, marks, search);
    (
        match base {
            AddressBase::Absent => Ok(None),
            AddressBase::Wrong(message) => Err(message),
            AddressBase::Line { address, position, sign } => match with_offsets(
                rest,
                position,
                address,
                sign,
            ) {
                None => Err("Invalid range"@),
                Some((line, end)) => if line < 0 || line > lines.len() {
                    Err("Invalid range"@)
                } else if line == 0 {
                    Ok(Some((0, end)))
                } else {
                    Ok(Some((line - 1, end)))
                },
            },
        },
        after,
    )
}

fn plus_sign(a: i128, b: i128) -> (r: i128)
    requires
        -0x2_0000_0000_0000_0000 < a < 0x2_0000_0000_0000_0000,
        -0x2_0000_0000_0000_0000 < b < 0x2_0000_0000_0000_0000,
    ensures
        r == fit_signed(a + b),
{
    let sum: i128 = a + b;
    if sum < isize::MIN as i128 {
        isize::MIN as i128
    } else if sum > isize::MAX as i128 {
        isize::MAX as i128
    } else {
        sum
    }
}

/// The message about a pattern that is not well-formed.
pub fn bad_pattern_text(pattern: &[u8], error: &str) -> (r: String)
    ensures
        r@ == bad_pattern_message(pattern@, error@),
{
    let mut message = copy_str("bad search pattern '");
    message.append(utf8_lossy(pattern).as_str());
    message.append("': ");
    message.append(error);
    message
}

/// Where an address starts to point to, before any offset.
enum Base {
    Absent,
    Wrong(String),
    Line { address: i128, position: usize, sign: i128 },
}

impl View for Base {
    type V = AddressBase;

    closed spec fn view(&self) -> AddressBase {
        match *self {
            Base::Absent => AddressBase::Absent,
            Base::Wrong(message) => AddressBase::Wrong(message@),
            Base::Line { address, position, sign } => AddressBase::Line {
                address: address as int,
                position: position as int,
                sign: sign as int,
            },
        }
    }
}

/// The start of a searching address.
fn search_address(
    rest: &[char],
    at: usize,
    current: usize,
    lines: &Vec<Vec<u8>>,
    ignorecase: bool,
    search: &mut Search,
) -> (r: Base)
    requires
        at < rest@.len(),
        rest@[at as int] == '/' || rest@[at as int] == '?',
        current < lines@.len(),
    ensures
        forall|marks: Seq<Option<(usize, usize)>>|
            (r@, search_of(*final(search))) == #[trigger] address_base(
                rest@,
                at as int,
                current as int,
                text_of(lines@),
                ignorecase,
                marks,
                search_of(*old(search)),
            ),
        r.in_reach(rest@.len()),
{
    let total: usize = rest.len();
    let delimiter: char = rest[at];
    let end: usize = find_pattern_end(rest, at + 1, delimiter);
    let raw = unescape_pattern(&utf8_of(&char_range(rest, at + 1, end)));
    let pattern: Vec<u8> = if raw.len() == 0 {
        match search.as_ref() {
            Some((pattern, _)) => crate::bytes::copy_bytes(pattern),
            None => raw,
        }
    } else {
        raw
    };
    let forward = delimiter == '/';
    assert(pattern@ == address_pattern(rest@, at as int, end as int, search_of(*old(search))));
    let error = pattern_error(&pattern);
    let result = match error {
        Some(message) => Base::Wrong(bad_pattern_text(&pattern, message)),
        None => match find_row(lines, current, &pattern, forward, ignorecase) {
            Some((row, _)) => Base::Line {
                address: row as i128 + 1,
                position: if end < total {
                    end + 1
                } else {
                    end
                },
                sign: 0,
            },
            None => Base::Wrong(copy_str("Pattern not found")),
        },
    };
    *search = Some((pattern, forward));
    result
}

impl Base {
    closed spec fn in_reach(self, total: nat) -> bool {
        self matches Base::Line { address, position, sign } ==> {
            &&& position <= total
            &&& 0 <= address <= 0x1_0000_0000_0000_0000
            &&& -1 <= sign <= 1
        }
    }
}

/// The start of the address at `at`.
fn read_base(
    rest: &[char],
    at: usize,
    current: usize,
    lines: &Vec<Vec<u8>>,
    ignorecase: bool,
    marks: &Marks,
    search: &mut Search,
) -> (r: Base)
    requires
        at <= rest@.len(),
        current < lines@.len(),
    ensures
        (r@, search_of(*final(search))) == address_base(
            rest@,
            at as int,
            current as int,
            text_of(lines@),
            ignorecase,
            marks@,
            search_of(*old(search)),
        ),
        r.in_reach(rest@.len()),
{
    if at >= rest.len() {
        return Base::Absent;
    }
    let total: usize = rest.len();
    let c: char = rest[at];
    let here: i128 = current as i128 + 1;
    if c == '.' {
        Base::Line { address: here, position: at + 1, sign: 0 }
    } else if c == '$' {
        Base::Line { address: lines.len() as i128, position: at + 1, sign: 0 }
    } else if c == '\'' {
        if total - at < 2 {
            return Base::Wrong(copy_str("Mark not set"));
        }
        let mark: char = rest[at + 1];
        if !('a' <= mark && mark <= 'z') {
            return Base::Wrong(copy_str("Mark not set"));
        }
        match marks[(mark as u32 - 'a' as u32) as usize] {
            Some((row, _)) => Base::Line { address: row as i128 + 1, position: at + 2, sign: 0 },
            None => Base::Wrong(copy_str("Mark not set")),
        }
    } else if c == '/' || c == '?' {
        search_address(rest, at, current, lines, ignorecase, search)
    } else if is_digit_char(c) {
        let (end, value) = read_number(rest, at);
        proof {
            lemma_behind_digits(rest@, at as int);
            lemma_number_grows(rest@, at as int, at as int, end as int);
        }
        match value {
            Some(value) => Base::Line { address: value as i128, position: end, sign: 0 },
            None => Base::Wrong(copy_str("Invalid range")),
        }
    } else if c == '+' {
        Base::Line { address: here, position: at + 1, sign: 1 }
    } else if c == '-' {
        Base::Line { address: here, position: at + 1, sign: -1 }
    } else {
        Base::Absent
    }
}

/// Adds up the offsets at `at`.
fn read_offsets(rest: &[char], at: usize, address: i128, sign: i128) -> (r: Option<(i128, usize)>)
    requires
        at <= rest@.len(),
        0 <= address <= 0x1_0000_0000_0000_0000,
        -1 <= sign <= 1,
    ensures
        match r {
            Some((line, end)) => with_offsets(rest@, at as int, address as int, sign as int)
                == Some((line as int, end as int)) && at <= end <= rest@.len(),
            None => with_offsets(rest@, at as int, address as int, sign as int) is None,
        },
{
    let total: usize = rest.len();
    let mut i: usize = at;
    let mut line: i128 = address;
    let mut add: i128 = sign;
    while i < total
        invariant
            at <= i <= total == rest@.len(),
            -0x1_0000_0000_0000_0000 <= line <= 0x1_0000_0000_0000_0000,
            -1 <= add <= 1,
            with_offsets(rest@, i as int, line as int, add as int) == with_offsets(
                rest@,
                at as int,
                address as int,
                sign as int,
            ),
        decreases total - i,
    {
        let c: char = rest[i];
        if is_blank_char(c) {
            line = plus_sign(line, add);
            add = 0;
            i += 1;
        } else if c == '+' {
            line = plus_sign(line, add);
            add = 1;
            i += 1;
        } else if c == '-' {
            line = plus_sign(line, add);
            add = -1;
            i += 1;
        } else if is_digit_char(c) {
            let (end, value) = read_number(rest, i);
            proof {
                lemma_behind_digits(rest@, i as int);
                lemma_behind_digits(rest@, i + 1);
                lemma_number_grows(rest@, i as int, i as int, end as int);
            }
            match value {
                Some(value) => {
                    let value: i128 = value as i128;
                    line =
                    plus_sign(
                        line,
                        if add < 0 {
                            -value
                        } else {
                            value
                        },
                    );
                    add = 0;
                    i = end;
                },
                None => {
                    return None;
                },
            }
        } else {
            return Some((plus_sign(line, add), i));
        }
    }
    Some((line, i))
}

/// Reads a line address: the line and the place behind it, nothing where there
/// is none, or what is wrong with it.
pub fn parse_address(
    rest: &[char],
    current: usize,
    lines: &Vec<Vec<u8>>,
    ignorecase: bool,
    marks: &Marks,
    search: &mut Search,
) -> (r: Result<Option<(usize, usize)>, String>)
    requires
        current < lines@.len(),
    ensures
        ({
            let (meant, after) = address_of(
                rest@,
                current as int,
                text_of(lines@),
                ignorecase,
                marks@,
                search_of(*old(search)),
            );
            &&& search_of(*final(search)) == after
            &&& match r {
                Ok(Some((row, end))) => meant == Ok::<Option<(int, int)>, Seq<char>>(
                    Some((row as int, end as int)),
                ) && row < lines@.len() && end <= rest@.len(),
                Ok(None) => meant == Ok::<Option<(int, int)>, Seq<char>>(None),
                Err(message) => meant == Err::<Option<(int, int)>, Seq<char>>(message@),
            }
        }),
{
    reveal(address_of);
    let at: usize = skip_space(rest, 0);
    match read_base(rest, at, current, lines, ignorecase, marks, search) {
        Base::Absent => Ok(None),
        Base::Wrong(message) => Err(message),
        Base::Line { address, position, sign } => match read_offsets(
            rest,
            position,
            address,
            sign,
        ) {
            None => Err(copy_str("Invalid range")),
            Some((line, end)) => {
                if line < 0 || line > lines.len() as i128 {
                    Err(copy_str("Invalid range"))
                } else if line == 0 {
                    Ok(Some((0, end)))
                } else {
                    Ok(Some(((line - 1) as usize, end)))
                }
            },
        },
    }
}

/// A colon command taken apart: the lines it is for, its name, and the rest.
#[verifier::ext_equal]
pub struct ExView {
    pub addresses: Option<(int, int)>,
    pub name: Seq<char>,
    pub args: Seq<char>,
}

/// A colon command taken apart: the lines it is for, its name, and the rest.
pub struct ParsedEx {
    pub addresses: Option<(usize, usize)>,
    pub name: Vec<char>,
    pub args: Vec<char>,
}

/// Two line numbers as values.
pub open spec fn pair_of(addresses: Option<(usize, usize)>) -> Option<(int, int)> {
    match addresses {
        Some((start, end)) => Some((start as int, end as int)),
        None => None,
    }
}

impl View for ParsedEx {
    type V = ExView;

    open spec fn view(&self) -> ExView {
        ExView { addresses: pair_of(self.addresses), name: self.name@, args: self.args@ }
    }
}

/// The text from place `at` on.
pub open spec fn text_behind(text: Seq<char>, at: int) -> Seq<char> {
    text.subrange(at, text.len() as int)
}

/// The name and the rest of a command behind its addresses.
pub open spec fn named_command(addresses: Option<(int, int)>, rest: Seq<char>) -> ExView {
    let split = behind_letters(rest, 0);
    ExView { addresses, name: rest.subrange(0, split), args: trim(text_behind(rest, split)) }
}

/// A command behind its first address: a comma or a semicolon brings a second
/// one, which a semicolon counts from the first.
pub open spec fn ranged_command(
    first: Option<(int, int)>,
    rest: Seq<char>,
    current: int,
    lines: Seq<Seq<u8>>,
    ignorecase: bool,
    marks: Seq<Option<(usize, usize)>>,
    search: Option<(Seq<u8>, bool)>,
) -> (Result<ExView, Seq<char>>, Option<(Seq<u8>, bool)>) {
    if rest.len() > 0 && (rest[0] == ',' || rest[0] == ';') {
        let from = match first {
            Some((line, _)) => if rest[0] == ';' {
                line
            } else {
                current
            },
            None => current,
        };
        let behind = text_behind(rest, 1);
        let (second, after) = address_of(behind, from, lines, ignorecase, marks, search);
        (
            match second {
                Err(message) => Err(message),
                Ok(found) => {
                    let (end, tail) = match found {
                        Some((line, consumed)) => (line, text_behind(behind, consumed)),
                        None => (lines.len() - 1, behind),
                    };
                    match first {
                        Some((start, _)) => if start > end {
                            Err("Invalid range"@)
                        } else {
                            Ok(named_command(Some((start, end)), tail))
                        },
                        None => Ok(named_command(None, tail)),
                    }
                },
            },
            after,
        )
    } else {
        (Ok(named_command(first, rest)), search)
    }
}

/// A colon command taken apart, or what is wrong with its addresses, and the
/// pattern that was searched for last after that.
pub open spec fn ex_of(
    command: Seq<char>,
    current: int,
    lines: Seq<Seq<u8>>,
    ignorecase: bool,
    marks: Seq<Option<(usize, usize)>>,
    search: Option<(Seq<u8>, bool)>,
) -> (Result<ExView, Seq<char>>, Option<(Seq<u8>, bool)>) {
    if command.len() > 0 && command[0] == '%' {
        ranged_command(
            Some((0, lines.len() - 1)),
            text_behind(command, 1),
            current,
            lines,
            ignorecase,
            marks,
            search,
        )
    } else {
        let (first, after) = address_of(command, current, lines, ignorecase, marks, search);
        match first {
            Err(message) => (Err(message), after),
            Ok(None) => ranged_command(None, command, current, lines, ignorecase, marks, after),
            Ok(Some((line, consumed))) => ranged_command(
                Some((line, line)),
                text_behind(command, consumed),
                current,
                lines,
                ignorecase,
                marks,
                after,
            ),
        }
    }
}

fn name_command(addresses: Option<(usize, usize)>, rest: &[char]) -> (r: ParsedEx)
    ensures
        r@ == named_command(pair_of(addresses), rest@),
        r.addresses == addresses,
{
    let split: usize = skip_letters(rest, 0);
    let total: usize = rest.len();
    ParsedEx {
        addresses,
        name: char_range(rest, 0, split),
        args: trimmed(&char_range(rest, split, total)),
    }
}

/// Whether the lines of a command are lines of the text.
pub open spec fn within(addresses: Option<(usize, usize)>, count: nat) -> bool {
    addresses matches Some((start, end)) ==> start <= end < count
}

fn range_command(
    first: Option<(usize, usize)>,
    rest: &[char],
    current: usize,
    lines: &Vec<Vec<u8>>,
    ignorecase: bool,
    marks: &Marks,
    search: &mut Search,
) -> (r: Result<ParsedEx, String>)
    requires
        current < lines@.len(),
        within(first, lines@.len()),
    ensures
        ({
            let (meant, after) = ranged_command(
                pair_of(first),
                rest@,
                current as int,
                text_of(lines@),
                ignorecase,
                marks@,
                search_of(*old(search)),
            );
            &&& search_of(*final(search)) == after
            &&& match r {
                Ok(parsed) => meant == Ok::<ExView, Seq<char>>(parsed@) && within(
                    parsed.addresses,
                    lines@.len(),
                ),
                Err(message) => meant == Err::<ExView, Seq<char>>(message@),
            }
        }),
{
    let total: usize = rest.len();
    if total > 0 && (rest[0] == ',' || rest[0] == ';') {
        let from: usize = match first {
            Some((line, _)) => {
                if rest[0] == ';' {
                    line
                } else {
                    current
                }
            },
            None => current,
        };
        let behind = char_range(rest, 1, total);
        match parse_address(&behind, from, lines, ignorecase, marks, search) {
            Err(message) => Err(message),
            Ok(found) => {
                let (end, tail): (usize, Vec<char>) = match found {
                    Some((line, consumed)) => (line, char_range(&behind, consumed, behind.len())),
                    None => (lines.len() - 1, behind),
                };
                match first {
                    Some((start, _)) => {
                        if start > end {
                            Err(copy_str("Invalid range"))
                        } else {
                            Ok(name_command(Some((start, end)), &tail))
                        }
                    },
                    None => Ok(name_command(None, &tail)),
                }
            },
        }
    } else {
        Ok(name_command(first, rest))
    }
}

/// Takes a colon command apart.
pub fn parse_ex(
    command: &[char],
    current: usize,
    lines: &Vec<Vec<u8>>,
    ignorecase: bool,
    marks: &Marks,
    search: &mut Search,
) -> (r: Result<ParsedEx, String>)
    requires
        current < lines@.len(),
    ensures
        ({
            let (meant, after) = ex_of(
                command@,
                current as int,
                text_of(lines@),
                ignorecase,
                marks@,
                search_of(*old(search)),
            );
            &&& search_of(*final(search)) == after
            &&& match r {
                Ok(parsed) => meant == Ok::<ExView, Seq<char>>(parsed@) && within(
                    parsed.addresses,
                    lines@.len(),
                ),
                Err(message) => meant == Err::<ExView, Seq<char>>(message@),
            }
        }),
{
    let total: usize = command.len();
    if total > 0 && command[0] == '%' {
        range_command(
            Some((0, lines.len() - 1)),
            &char_range(command, 1, total),
            current,
            lines,
            ignorecase,
            marks,
            search,
        )
    } else {
        match parse_address(command, current, lines, ignorecase, marks, search) {
            Err(message) => Err(message),
            Ok(None) => range_command(None, command, current, lines, ignorecase, marks, search),
            Ok(Some((line, consumed))) => range_command(
                Some((line, line)),
                &char_range(command, consumed, total),
                current,
                lines,
                ignorecase,
                marks,
                search,
            ),
        }
    }
}

/// Whether a command, spaces dropped, begins with the line number 0.
pub open spec fn zero_address(command: Seq<char>) -> bool {
    let text = trim_start(command);
    text.len() > 0 && text[0] == '0' && !(text.len() > 1 && is_digit_char(text[1]))
}

/// What follows the line number 0 of a command, spaces dropped.
pub open spec fn behind_zero(command: Seq<char>) -> Option<char> {
    let text = trim_start(command);
    let at = behind_space(text, 1);
    if zero_address(command) && at < text.len() {
        Some(text[at])
    } else {
        None
    }
}

fn char_behind_zero(command: &[char]) -> (r: Option<char>)
    ensures
        r == behind_zero(command@),
{
    let text = trimmed_start(command);
    if text.len() == 0 || text[0] != '0' || (text.len() > 1 && is_digit_char(text[1])) {
        return None;
    }
    let at: usize = skip_space(&text, 1);
    if at < text.len() {
        Some(text[at])
    } else {
        None
    }
}

/// Whether a command asks for the number of line 0.
pub open spec fn zero_number(command: Seq<char>) -> bool {
    behind_zero(command) == Some('=')
}

/// Whether a command reads a file in before the first line.
pub open spec fn zero_read(command: Seq<char>) -> bool {
    behind_zero(command) == Some('r') || behind_zero(command) == Some(',') || behind_zero(command)
        == Some(';')
}

/// Whether a command asks for the number of line 0.
pub fn is_bare_zero_address(command: &[char]) -> (r: bool)
    ensures
        r == zero_number(command@),
{
    match char_behind_zero(command) {
        Some(c) => c == '=',
        None => false,
    }
}

/// Whether a command reads a file in before the first line.
pub fn is_zero_read_address(command: &[char]) -> (r: bool)
    ensures
        r == zero_read(command@),
{
    match char_behind_zero(command) {
        Some(c) => c == 'r' || c == ',' || c == ';',
        None => false,
    }
}

/// Whether a command name stands for a command: it begins that command's full
/// name.
pub open spec fn names(input: Seq<char>, command: Seq<char>) -> bool {
    input.len() > 0 && crate::strings::starts_with(command, input)
}

/// Whether a command name stands for a command.
pub fn command_prefix(input: &[char], command: &str) -> (r: bool)
    ensures
        r == names(input@, command@),
{
    input.len() > 0 && crate::strings::begins_with(&crate::strings::chars_of(command), input)
}

} // verus!
