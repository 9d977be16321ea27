//! The `:s` and `:set` commands.
use crate::address::{is_digit_char, number_at};
use crate::bytes::{copy_bytes, copy_range, imin, text_of};
use crate::document::{told_of_edits, unedited, DocView, Document};
use crate::editor::{Editor, EditorView, InputView, Options};
use crate::files::FilesView;
use crate::pattern::{error_of, pattern_is_valid};
use crate::strings::{
    begins_with, char_range, chars_of, copy_str, decimal, is_white, push_decimal, same_text,
    starts_with, text_from, utf8_of,
};
use crate::substitute::{
    delimiter_at, find_delimiter, pattern_meant, replace_pattern_case, replacement_meant,
    substituted, unescape_pattern_with_delimiter, unescape_replacement,
};
use vstd::prelude::*;
use vstd::string::*;
use vstd::utf8::encode_utf8;

verus! {

broadcast use crate::syntax::group_noted;

/// What is to be replaced by what.
#[verifier::ext_equal]
pub struct Replacement {
    pub pattern: Seq<u8>,
    pub text: Seq<u8>,
    pub global: bool,
    pub ignorecase: bool,
}

impl Replacement {
    /// A line with the replacement made, and how often it was made.
    pub open spec fn on(self, line: Seq<u8>) -> (Seq<u8>, int) {
        substituted(line, self.pattern, self.text, self.global, self.ignorecase)
    }
}

/// What is to be replaced by what.
pub struct Substitution {
    pub pattern: Vec<u8>,
    pub text: Vec<u8>,
    pub global: bool,
    pub ignorecase: bool,
}

impl View for Substitution {
    type V = Replacement;

    open spec fn view(&self) -> Replacement {
        Replacement {
            pattern: self.pattern@,
            text: self.text@,
            global: self.global,
            ignorecase: self.ignorecase,
        }
    }
}

/// Whether a replacement changes any of the lines from `first` to `last`.
pub open spec fn any_replaced(
    lines: Seq<Seq<u8>>,
    first: int,
    last: int,
    replacement: Replacement,
) -> bool {
    exists|row: int| first <= row <= last && replacement.on(#[trigger] lines[row]).1 != 0
}

impl DocView {
    /// The document with the replacement made in the lines from `row` to
    /// `last`, how often it was made, and in how many lines.
    pub open spec fn rows_replaced(self, row: int, last: int, replacement: Replacement) -> (
        DocView,
        int,
        int,
    )
        decreases last + 1 - row,
    {
        if row > last {
            (self, 0, 0)
        } else {
            let (line, count) = replacement.on(self.lines[row]);
            if count != 0 {
                let rest = self.bytes_replaced(
                    row,
                    0,
                    self.lines[row].len() as int,
                    line,
                ).rows_replaced(row + 1, last, replacement);
                (rest.0, count + rest.1, 1 + rest.2)
            } else {
                self.rows_replaced(row + 1, last, replacement)
            }
        }
    }
}

/// What a `:s` command asks for, or the message about what is wrong with it.
/// The pattern that was searched for last comes along.
pub open spec fn substitution_of(
    args: Seq<u8>,
    search: Option<(Seq<u8>, bool)>,
    ignorecase: bool,
) -> (Result<Replacement, (bool, Seq<char>)>, Option<(Seq<u8>, bool)>) {
    let missing = Err::<Replacement, (bool, Seq<char>)>(
        (false, ":s expression missing delimiters"@),
    );
    if args.len() == 0 {
        (missing, search)
    } else {
        match delimiter_at(args, 1, args[0]) {
            None => (missing, search),
            Some(split) => match delimiter_at(args, split + 1, args[0]) {
                None => (missing, search),
                Some(end) => {
                    let text = replacement_meant(args.subrange(split + 1, end), 0);
                    let global = args.subrange(end + 1, args.len() as int).contains(103u8);
                    let given = pattern_meant(args.subrange(1, split), 0, args[0]);
                    let after = if split == 1 {
                        search
                    } else {
                        Some((given, true))
                    };
                    match after {
                        None => (Err((true, "No previous search"@)), after),
                        Some((pattern, _)) => if error_of(pattern) is Some {
                            (Err((false, ":s bad search pattern"@)), after)
                        } else {
                            (Ok(Replacement { pattern, text, global, ignorecase }), after)
                        },
                    }
                },
            },
        }
    }
}

/// The message about several replacements.
pub open spec fn replaced_message(count: int, lines: int) -> Seq<char> {
    decimal(count) + " substitutions on "@ + decimal(lines) + " lines"@
}

impl EditorView {
    /// `:s`: a pattern replaced in lines. The change goes on.
    #[verifier::opaque]
    pub open spec fn substituted(self, args: Seq<char>, addresses: Option<(int, int)>) -> EditorView {
        let (asked, search) = substitution_of(
            encode_utf8(args),
            self.input.search,
            self.options.ignorecase,
        );
        let known = EditorView { input: InputView { search, ..self.input }, ..self };
        match asked {
            Err((error, message)) => if error {
                known.failed(message)
            } else {
                known.told(message)
            },
            Ok(replacement) => {
                let (start, end) = match addresses {
                    Some(range) => range,
                    None => (self.doc.row, self.doc.row),
                };
                let first = imin(start, self.doc.lines.len() - 1);
                let last = imin(end, self.doc.lines.len() - 1);
                if any_replaced(self.doc.lines, first, last, replacement) {
                    let (doc, count, lines) = self.doc.begun().rows_replaced(
                        first,
                        last,
                        replacement,
                    );
                    if count > 1 {
                        known.with_doc(doc).told(replaced_message(count, lines))
                    } else {
                        known.with_doc(doc)
                    }
                } else {
                    known.failed("No match"@)
                }
            },
        }
    }
}

fn has_byte(bytes: &[u8], from: usize, wanted: u8) -> (r: bool)
    requires
        from <= bytes@.len(),
    ensures
        r == bytes@.subrange(from as int, bytes@.len() as int).contains(wanted),
{
    let ghost tail = bytes@.subrange(from as int, bytes@.len() as int);
    let mut i: usize = from;
    while i < bytes.len()
        invariant
            from <= i <= bytes@.len(),
            tail == bytes@.subrange(from as int, bytes@.len() as int),
            forall|j: int| 0 <= j < i - from ==> #[trigger] tail[j] != wanted,
        decreases bytes@.len() - i,
    {
        if bytes[i] == wanted {
            assert(tail[i - from] == wanted);
            return true;
        }
        i += 1;
    }
    false
}

/// Reads a `:s` command.
pub fn read_substitution(args: &[u8], search: &mut crate::address::Search, ignorecase: bool) -> (r:
    Result<Substitution, (bool, &'static str)>)
    ensures
        ({
            let (asked, after) = substitution_of(
                args@,
                crate::address::search_of(*old(search)),
                ignorecase,
            );
            &&& crate::address::search_of(*final(search)) == after
            &&& match r {
                Ok(found) => asked == Ok::<Replacement, (bool, Seq<char>)>(found@),
                Err((error, message)) => asked == Err::<Replacement, (bool, Seq<char>)>(
                    (error, message@),
                ),
            }
        }),
{
    let total: usize = args.len();
    if total == 0 {
        return Err((false, ":s expression missing delimiters"));
    }
    let delimiter: u8 = args[0];
    let split: usize = match find_delimiter(args, 1, delimiter) {
        Some(split) => split,
        None => {
            return Err((false, ":s expression missing delimiters"));
        },
    };
    let end: usize = match find_delimiter(args, split + 1, delimiter) {
        Some(end) => end,
        None => {
            return Err((false, ":s expression missing delimiters"));
        },
    };
    let text = unescape_replacement(&copy_range(args, split + 1, end));
    let global = has_byte(args, end + 1, 103);
    if split != 1 {
        let given = unescape_pattern_with_delimiter(&copy_range(args, 1, split), delimiter);
        *search = Some((given, true));
    }
    match search.as_ref() {
        None => Err((true, "No previous search")),
        Some((pattern, _)) => {
            if pattern_is_valid(pattern) {
                Ok(Substitution { pattern: copy_bytes(pattern), text, global, ignorecase })
            } else {
                Err((false, ":s bad search pattern"))
            }
        },
    }
}

fn replaces_any(
    lines: &Vec<Vec<u8>>,
    first: usize,
    last: usize,
    substitution: &Substitution,
) -> (r: bool)
    requires
        last < lines@.len(),
    ensures
        r == any_replaced(text_of(lines@), first as int, last as int, substitution@),
{
    let ghost text = text_of(lines@);
    let count: usize = lines.len();
    let mut row: usize = first;
    while row <= last
        invariant
            first <= row,
            last < count == lines@.len(),
            text == text_of(lines@),
            forall|i: int| first <= i < row ==> substitution@.on(#[trigger] text[i]).1 == 0,
        decreases last + 1 - row,
    {
        let (_, found) = replace_pattern_case(
            &lines[row],
            &substitution.pattern,
            &substitution.text,
            substitution.global,
            substitution.ignorecase,
        );
        if found != 0 {
            assert(substitution@.on(text[row as int]).1 != 0);
            return true;
        }
        row += 1;
    }
    false
}

impl Document {
    fn replace_rows(&mut self, first: usize, last: usize, substitution: &Substitution) -> (r: (
        u128,
        u128,
    ))
        requires
            old(self)@.wf(),
            old(self)@.pending is Some,
            last < old(self)@.lines.len(),
        ensures
            (final(self)@, r.0 as int, r.1 as int) == old(self)@.rows_replaced(
                first as int,
                last as int,
                substitution@,
            ),
            final(self)@.wf(),
            final(self)@.origin == old(self)@.origin,
            told_of_edits(*old(self), *final(self)),
    {
        let ghost start = self@;
        let count: usize = self.lines.len();
        let mut changed: u128 = 0;
        let mut changed_lines: u128 = 0;
        let mut row: usize = first;
        while row <= last
            invariant
                first <= row,
                last < count == self@.lines.len(),
                row <= last + 1 || row == first,
                self@.wf(),
                self@.origin == old(self)@.origin,
                self@.pending is Some,
                told_of_edits(*old(self), *self),
                changed <= row * 0x1_0000_0000_0000_0000,
                changed_lines <= row,
                ({
                    let rest = self@.rows_replaced(row as int, last as int, substitution@);
                    let whole = start.rows_replaced(first as int, last as int, substitution@);
                    &&& rest.0 == whole.0
                    &&& changed + rest.1 == whole.1
                    &&& changed_lines + rest.2 == whole.2
                }),
            decreases last + 1 - row,
        {
            let length: usize = self.lines[row].len();
            let (line, found) = replace_pattern_case(
                &self.lines[row],
                &substitution.pattern,
                &substitution.text,
                substitution.global,
                substitution.ignorecase,
            );
            assert((line@, found as int) == substitution@.on(self@.lines[row as int]));
            if found != 0 {
                let _ = self.replace_bytes(row, 0, length, line);
                changed = changed + found;
                changed_lines = changed_lines + 1;
            }
            row += 1;
        }
        (changed, changed_lines)
    }
}

impl Editor {
    /// `:s`: replaces a pattern in lines. The change goes on.
    pub fn substitute(&mut self, args: &[char], addresses: Option<(usize, usize)>)
        requires
            old(self)@.wf(),
            crate::address::within(addresses, old(self)@.doc.lines.len()),
        ensures
            final(self)@ == old(self)@.substituted(args@, crate::address::pair_of(addresses)),
            final(self)@.wf(),
            final(self)@.doc.origin == old(self)@.doc.origin,
            told_of_edits(old(self).doc, final(self).doc),
    {
        reveal(EditorView::substituted);
        let bytes = utf8_of(args);
        let asked = read_substitution(&bytes, &mut self.input.search, self.options.ignorecase);
        match asked {
            Err((error, message)) => {
                if error {
                    self.fail(message);
                } else {
                    self.tell(message);
                }
            },
            Ok(substitution) => {
                let (first, last) = match addresses {
                    Some(range) => range,
                    None => (self.doc.row, self.doc.row),
                };
                if replaces_any(&self.doc.lines, first, last, &substitution) {
                    self.doc.begin_change();
                    let (count, lines) = self.doc.replace_rows(first, last, &substitution);
                    if count > 1 {
                        let mut message = String::new();
                        push_decimal(&mut message, count);
                        message.append(" substitutions on ");
                        push_decimal(&mut message, lines);
                        message.append(" lines");
                        assert(message@ =~= replaced_message(count as int, lines as int));
                        self.set_status(message);
                    }
                } else {
                    self.fail("No match");
                }
            },
        }
    }
}

/// Whether a text holds digits only.
pub open spec fn all_digits(text: Seq<char>) -> bool {
    forall|i: int| 0 <= i < text.len() ==> is_digit_char(#[trigger] text[i])
}

/// A number without its plus sign.
pub open spec fn without_plus(text: Seq<char>) -> Seq<char> {
    if text.len() > 1 && text[0] == '+' {
        text.subrange(1, text.len() as int)
    } else {
        text
    }
}

/// The value of a tab stop setting: a number, with or without a plus sign.
pub open spec fn size_of(text: Seq<char>) -> Option<int> {
    let digits = without_plus(text);
    if digits.len() > 0 && all_digits(digits) {
        Some(number_at(digits, 0, digits.len() as int))
    } else {
        None
    }
}

/// Where the word at `at` ends.
pub open spec fn word_end(text: Seq<char>, at: int) -> int
    decreases text.len() - at,
{
    if 0 <= at < text.len() && !is_white(text[at]) {
        word_end(text, at + 1)
    } else {
        at
    }
}

/// Where the next word from `at` on begins.
pub open spec fn word_begin(text: Seq<char>, at: int) -> int
    decreases text.len() - at,
{
    if 0 <= at < text.len() && is_white(text[at]) {
        word_begin(text, at + 1)
    } else {
        at
    }
}

/// A word ends behind the place where it begins, within the text.
pub proof fn lemma_word_end(text: Seq<char>, at: int)
    requires
        0 <= at <= text.len(),
    ensures
        at <= word_end(text, at) <= text.len(),
        at < text.len() && !is_white(text[at]) ==> at < word_end(text, at),
    decreases text.len() - at,
{
    if at < text.len() && !is_white(text[at]) {
        lemma_word_end(text, at + 1);
    }
}

/// The next word begins at or behind the place where it is looked for.
pub proof fn lemma_word_begin(text: Seq<char>, at: int)
    requires
        0 <= at <= text.len(),
    ensures
        at <= word_begin(text, at) <= text.len(),
        word_begin(text, at) < text.len() ==> !is_white(text[word_begin(text, at)]),
    decreases text.len() - at,
{
    if at < text.len() && is_white(text[at]) {
        lemma_word_begin(text, at + 1);
    }
}

/// The options and whether the file is read-only after a word of `:set`, or
/// nothing where the word names no option.
pub open spec fn option_set(options: Options, readonly: bool, word: Seq<char>) -> Option<
    (Options, bool),
> {
    if word == "number"@ || word == "nu"@ {
        Some((Options { number: true, ..options }, readonly))
    } else if word == "nonumber"@ || word == "nonu"@ {
        Some((Options { number: false, ..options }, readonly))
    } else if word == "autoindent"@ || word == "ai"@ {
        Some((Options { autoindent: true, ..options }, readonly))
    } else if word == "noautoindent"@ || word == "noai"@ {
        Some((Options { autoindent: false, ..options }, readonly))
    } else if word == "expandtab"@ || word == "et"@ {
        Some((Options { expandtab: true, ..options }, readonly))
    } else if word == "noexpandtab"@ || word == "noet"@ {
        Some((Options { expandtab: false, ..options }, readonly))
    } else if word == "flash"@ || word == "fl"@ {
        Some((Options { flash: true, ..options }, readonly))
    } else if word == "noflash"@ || word == "nofl"@ {
        Some((Options { flash: false, ..options }, readonly))
    } else if word == "ignorecase"@ || word == "ic"@ {
        Some((Options { ignorecase: true, ..options }, readonly))
    } else if word == "noignorecase"@ || word == "noic"@ {
        Some((Options { ignorecase: false, ..options }, readonly))
    } else if word == "showmatch"@ || word == "sm"@ {
        Some((Options { showmatch: true, ..options }, readonly))
    } else if word == "noshowmatch"@ || word == "nosm"@ {
        Some((Options { showmatch: false, ..options }, readonly))
    } else if word == "readonly"@ || word == "ro"@ {
        Some((options, true))
    } else if word == "noreadonly"@ || word == "noro"@ {
        Some((options, false))
    } else if starts_with(word, "tabstop="@) {
        match size_of(word.subrange("tabstop="@.len() as int, word.len() as int)) {
            Some(size) => if 1 <= size <= 32 {
                Some((Options { tabstop: size as usize, ..options }, readonly))
            } else {
                None
            },
            None => None,
        }
    } else {
        None
    }
}

/// How an option is shown: by its name, with `no` in front where it is off.
pub open spec fn option_text(on: bool, name: Seq<char>) -> Seq<char> {
    (if on {
        Seq::empty()
    } else {
        "no"@
    }) + name
}

/// The options, as `:set all` shows them.
pub open spec fn options_message(options: Options) -> Seq<char> {
    option_text(options.autoindent, "autoindent "@) + option_text(options.expandtab, "expandtab "@)
        + option_text(options.flash, "flash "@) + option_text(options.ignorecase, "ignorecase "@)
        + option_text(options.showmatch, "showmatch "@) + "tabstop="@ + decimal(
        options.tabstop as int,
    )
}

impl EditorView {
    /// One word of `:set`.
    pub open spec fn word_set(self, word: Seq<char>) -> EditorView {
        match option_set(self.options, self.files.readonly, word) {
            Some((options, readonly)) => EditorView {
                options,
                files: FilesView { readonly, ..self.files },
                ..self
            },
            None => self.failed("bad option: "@ + word),
        }
    }

    /// The words of `:set` from `at` on.
    pub open spec fn words_set(self, args: Seq<char>, at: int) -> EditorView
        decreases args.len() - at,
    {
        let begin = word_begin(args, at);
        if at < 0 || begin >= args.len() {
            self
        } else {
            proof {
                if at <= args.len() {
                    lemma_word_begin(args, at);
                    lemma_word_end(args, begin);
                }
            }
            let end = word_end(args, begin);
            self.word_set(args.subrange(begin, end)).words_set(args, end)
        }
    }

    /// `:set`.
    #[verifier::opaque]
    pub open spec fn options_set(self, args: Seq<char>) -> EditorView {
        if args.len() == 0 || args == "all"@ {
            self.failed(options_message(self.options))
        } else {
            self.words_set(args, 0)
        }
    }
}

fn read_size(text: &[char]) -> (r: Option<usize>)
    ensures
        match r {
            Some(size) => 1 <= size <= 32 && size_of(text@) == Some(size as int),
            None => !(size_of(text@) matches Some(size) && 1 <= size <= 32),
        },
{
    let digits: Vec<char> = if text.len() > 1 && text[0] == '+' {
        char_range(text, 1, text.len())
    } else {
        char_range(text, 0, text.len())
    };
    assert(text@.subrange(0, text@.len() as int) =~= text@);
    if digits.len() == 0 {
        return None;
    }
    let mut value: usize = 0;
    let mut large = false;
    let mut i: usize = 0;
    while i < digits.len()
        invariant
            i <= digits@.len(),
            digits@.len() > 0,
            digits@ == without_plus(text@),
            forall|j: int| 0 <= j < i ==> is_digit_char(#[trigger] digits@[j]),
            !large ==> value == number_at(digits@, 0, i as int) && value <= 32,
            large ==> number_at(digits@, 0, i as int) > 32,
        decreases digits@.len() - i,
    {
        if !is_digit_char(digits[i]) {
            assert(!is_digit_char(digits@[i as int]));
            return None;
        }
        if !large {
            value = value * 10 + (digits[i] as u32 - '0' as u32) as usize;
            if value > 32 {
                large = true;
            }
        }
        i += 1;
    }
    if large || value < 1 {
        None
    } else {
        Some(value)
    }
}

fn push_option(out: &mut String, on: bool, name: &str)
    ensures
        final(out)@ == old(out)@ + option_text(on, name@),
{
    if !on {
        out.append("no");
    }
    out.append(name);
    assert(out@ =~= old(out)@ + option_text(on, name@));
}

fn options_status(options: Options) -> (r: String)
    ensures
        r@ == options_message(options),
{
    let mut r = String::new();
    push_option(&mut r, options.autoindent, "autoindent ");
    assert(r@ =~= option_text(options.autoindent, "autoindent "@));
    push_option(&mut r, options.expandtab, "expandtab ");
    push_option(&mut r, options.flash, "flash ");
    push_option(&mut r, options.ignorecase, "ignorecase ");
    push_option(&mut r, options.showmatch, "showmatch ");
    r.append("tabstop=");
    push_decimal(&mut r, options.tabstop as u128);
    r
}

/// The options and whether the file is read-only after a word of `:set`.
pub fn set_option(options: Options, readonly: bool, word: &[char]) -> (r: Option<(Options, bool)>)
    requires
        1 <= options.tabstop <= 32,
    ensures
        r == option_set(options, readonly, word@),
        r matches Some((after, _)) ==> 1 <= after.tabstop <= 32,
{
    let mut after = options;
    if same_text(word, "number") || same_text(word, "nu") {
        after.number = true;
    } else if same_text(word, "nonumber") || same_text(word, "nonu") {
        after.number = false;
    } else if same_text(word, "autoindent") || same_text(word, "ai") {
        after.autoindent = true;
    } else if same_text(word, "noautoindent") || same_text(word, "noai") {
        after.autoindent = false;
    } else if same_text(word, "expandtab") || same_text(word, "et") {
        after.expandtab = true;
    } else if same_text(word, "noexpandtab") || same_text(word, "noet") {
        after.expandtab = false;
    } else if same_text(word, "flash") || same_text(word, "fl") {
        after.flash = true;
    } else if same_text(word, "noflash") || same_text(word, "nofl") {
        after.flash = false;
    } else if same_text(word, "ignorecase") || same_text(word, "ic") {
        after.ignorecase = true;
    } else if same_text(word, "noignorecase") || same_text(word, "noic") {
        after.ignorecase = false;
    } else if same_text(word, "showmatch") || same_text(word, "sm") {
        after.showmatch = true;
    } else if same_text(word, "noshowmatch") || same_text(word, "nosm") {
        after.showmatch = false;
    } else if same_text(word, "readonly") || same_text(word, "ro") {
        return Some((after, true));
    } else if same_text(word, "noreadonly") || same_text(word, "noro") {
        return Some((after, false));
    } else {
        let prefix = chars_of("tabstop=");
        if !begins_with(word, &prefix) {
            return None;
        }
        match read_size(&char_range(word, prefix.len(), word.len())) {
            Some(size) => {
                after.tabstop = size;
            },
            None => {
                return None;
            },
        }
    }
    Some((after, readonly))
}

impl Editor {
    fn set_word(&mut self, word: &[char])
        requires
            old(self)@.wf(),
        ensures
            final(self)@ == old(self)@.word_set(word@),
            final(self)@.wf(),
            final(self)@.doc.origin == old(self)@.doc.origin,
            unedited(old(self).doc, final(self).doc),
    {
        match set_option(self.options, self.files.readonly, word) {
            Some((options, readonly)) => {
                self.options = options;
                self.files.readonly = readonly;
            },
            None => {
                let mut message = copy_str("bad option: ");
                message.append(text_from(word).as_str());
                self.set_error(message);
            },
        }
    }

    /// `:set`.
    pub fn set_options(&mut self, args: &[char])
        requires
            old(self)@.wf(),
        ensures
            final(self)@ == old(self)@.options_set(args@),
            final(self)@.wf(),
            final(self)@.doc.origin == old(self)@.doc.origin,
            unedited(old(self).doc, final(self).doc),
    {
        reveal(EditorView::options_set);
        if args.len() == 0 || same_text(args, "all") {
            let message = options_status(self.options);
            self.set_error(message);
            return;
        }
        let ghost start = self@;
        let total: usize = args.len();
        let mut at: usize = 0;
        while at < total
            invariant
                at <= total == args@.len(),
                self@.wf(),
                self@.doc.origin == old(self)@.doc.origin,
                unedited(old(self).doc, self.doc),
                self@.words_set(args@, at as int) == start.words_set(args@, 0),
            ensures
                self@.words_set(args@, at as int) == self@,
            decreases total - at,
        {
            let mut begin: usize = at;
            while begin < total && is_white(args[begin])
                invariant
                    at <= begin <= total == args@.len(),
                    word_begin(args@, begin as int) == word_begin(args@, at as int),
                decreases total - begin,
            {
                begin += 1;
            }
            if begin == total {
                break;
            }
            let mut end: usize = begin;
            while end < total && !is_white(args[end])
                invariant
                    begin <= end <= total == args@.len(),
                    word_end(args@, end as int) == word_end(args@, begin as int),
                decreases total - end,
            {
                end += 1;
            }
            proof {
                lemma_word_end(args@, begin as int);
            }
            let word = char_range(args, begin, end);
            self.set_word(&word);
            at = end;
        }
    }
}

} // verus!
