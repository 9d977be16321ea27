//! What `:set` does, said of the words that are typed.
use crate::address::{address_of, behind_space, is_digit_char, is_letter, text_behind};
use crate::colon::{
    asked_for, lemma_decimal_digits, lemma_letters_end, lemma_nothing_to_trim, lemma_number_at,
    lemma_taken_apart, quieted,
};
use crate::editor::{EditorView, Options};
use crate::strings::{decimal, decimal_bytes, is_white, trim_start};
use crate::substitution::{option_set, size_of, word_begin, word_end};
use vstd::prelude::*;

verus! {

/// A command of a name and something behind a space.
pub(crate) proof fn lemma_word_command(editor: EditorView, name: Seq<char>, args: Seq<char>)
    requires
        name.len() > 0,
        forall|i: int| 0 <= i < name.len() ==> is_letter(#[trigger] name[i]),
        args.len() > 0,
        !is_white(args[0]),
        !is_white(args.last()),
        args[0] != '!',
        args.last() != '!',
    ensures
        editor.ex_executed(name + seq![' '] + args) == quieted(editor).ex_named(
            asked_for(editor, None, name, args, name + seq![' '] + args),
        ),
{
    let command = name + seq![' '] + args;
    let rest = seq![' '] + args;
    assert(command[0] == name[0]);
    assert(command.last() == args.last());
    assert forall|i: int| 0 <= i < name.len() implies is_letter(#[trigger] command[i]) by {
        assert(command[i] == name[i]);
    }
    assert(command[name.len() as int] == ' ');
    lemma_letters_end(command, 0, name.len() as int);
    assert(command.subrange(0, name.len() as int) =~= name);
    assert(text_behind(command, name.len() as int) =~= rest);
    assert(rest.subrange(1, rest.len() as int) =~= args);
    assert(rest[0] == ' ');
    reveal_with_fuel(trim_start, 2);
    assert(trim_start(rest) == args);
    lemma_nothing_to_trim(args);
    assert(behind_space(command, 0) == 0);
    reveal(address_of);
    assert(is_letter(name[0]));
    lemma_taken_apart(editor, command, None, name, args);
}

/// What can be on or off.
pub enum Switch {
    Number,
    Autoindent,
    Expandtab,
    Flash,
    Ignorecase,
    Showmatch,
    Readonly,
}

impl Switch {
    /// Its name, or the short form of it.
    pub open spec fn name(self, short: bool) -> Seq<char> {
        match self {
            Switch::Number => if short {
                "nu"@
            } else {
                "number"@
            },
            Switch::Autoindent => if short {
                "ai"@
            } else {
                "autoindent"@
            },
            Switch::Expandtab => if short {
                "et"@
            } else {
                "expandtab"@
            },
            Switch::Flash => if short {
                "fl"@
            } else {
                "flash"@
            },
            Switch::Ignorecase => if short {
                "ic"@
            } else {
                "ignorecase"@
            },
            Switch::Showmatch => if short {
                "sm"@
            } else {
                "showmatch"@
            },
            Switch::Readonly => if short {
                "ro"@
            } else {
                "readonly"@
            },
        }
    }

    /// Whether it is on.
    pub open spec fn is_on(self, options: Options, readonly: bool) -> bool {
        match self {
            Switch::Number => options.number,
            Switch::Autoindent => options.autoindent,
            Switch::Expandtab => options.expandtab,
            Switch::Flash => options.flash,
            Switch::Ignorecase => options.ignorecase,
            Switch::Showmatch => options.showmatch,
            Switch::Readonly => readonly,
        }
    }

    /// The word that turns it on or off.
    pub open spec fn word(self, on: bool, short: bool) -> Seq<char> {
        if on {
            self.name(short)
        } else {
            "no"@ + self.name(short)
        }
    }
}

proof fn lemma_word_known(options: Options, readonly: bool, switch: Switch, on: bool, short: bool)
    ensures
        option_set(options, readonly, switch.word(on, short)) is Some,
        ({
            let (set, guarded) = option_set(options, readonly, switch.word(on, short)).unwrap();
            &&& switch.is_on(set, guarded) == on
            &&& set.tabstop == options.tabstop
            &&& forall|other: Switch|
                other != switch ==> #[trigger] other.is_on(set, guarded) == other.is_on(
                    options,
                    readonly,
                )
        }),
{
    let word = switch.word(on, short);
    reveal_strlit("no");
    reveal_strlit("number");
    reveal_strlit("nu");
    reveal_strlit("nonumber");
    reveal_strlit("nonu");
    reveal_strlit("autoindent");
    reveal_strlit("ai");
    reveal_strlit("noautoindent");
    reveal_strlit("noai");
    reveal_strlit("expandtab");
    reveal_strlit("et");
    reveal_strlit("noexpandtab");
    reveal_strlit("noet");
    reveal_strlit("flash");
    reveal_strlit("fl");
    reveal_strlit("noflash");
    reveal_strlit("nofl");
    reveal_strlit("ignorecase");
    reveal_strlit("ic");
    reveal_strlit("noignorecase");
    reveal_strlit("noic");
    reveal_strlit("showmatch");
    reveal_strlit("sm");
    reveal_strlit("noshowmatch");
    reveal_strlit("nosm");
    reveal_strlit("readonly");
    reveal_strlit("ro");
    reveal_strlit("noreadonly");
    reveal_strlit("noro");
    assert("number"@.len() == 6 && "number"@[0] == 'n' && "number"@[1] == 'u'
        && "number"@[2] == 'm' && "number"@[3] == 'b');
    assert("nu"@.len() == 2 && "nu"@[0] == 'n' && "nu"@[1] == 'u');
    assert("nonumber"@.len() == 8 && "nonumber"@[0] == 'n' && "nonumber"@[1] == 'o'
        && "nonumber"@[2] == 'n' && "nonumber"@[3] == 'u');
    assert("nonu"@.len() == 4 && "nonu"@[0] == 'n' && "nonu"@[1] == 'o' && "nonu"@[2] == 'n'
        && "nonu"@[3] == 'u');
    assert("autoindent"@.len() == 10 && "autoindent"@[0] == 'a' && "autoindent"@[1] == 'u'
        && "autoindent"@[2] == 't' && "autoindent"@[3] == 'o');
    assert("ai"@.len() == 2 && "ai"@[0] == 'a' && "ai"@[1] == 'i');
    assert("noautoindent"@.len() == 12 && "noautoindent"@[0] == 'n' && "noautoindent"@[1] == 'o'
        && "noautoindent"@[2] == 'a' && "noautoindent"@[3] == 'u');
    assert("noai"@.len() == 4 && "noai"@[0] == 'n' && "noai"@[1] == 'o' && "noai"@[2] == 'a'
        && "noai"@[3] == 'i');
    assert("expandtab"@.len() == 9 && "expandtab"@[0] == 'e' && "expandtab"@[1] == 'x'
        && "expandtab"@[2] == 'p' && "expandtab"@[3] == 'a');
    assert("et"@.len() == 2 && "et"@[0] == 'e' && "et"@[1] == 't');
    assert("noexpandtab"@.len() == 11 && "noexpandtab"@[0] == 'n' && "noexpandtab"@[1] == 'o'
        && "noexpandtab"@[2] == 'e' && "noexpandtab"@[3] == 'x');
    assert("noet"@.len() == 4 && "noet"@[0] == 'n' && "noet"@[1] == 'o' && "noet"@[2] == 'e'
        && "noet"@[3] == 't');
    assert("flash"@.len() == 5 && "flash"@[0] == 'f' && "flash"@[1] == 'l' && "flash"@[2] == 'a'
        && "flash"@[3] == 's');
    assert("fl"@.len() == 2 && "fl"@[0] == 'f' && "fl"@[1] == 'l');
    assert("noflash"@.len() == 7 && "noflash"@[0] == 'n' && "noflash"@[1] == 'o'
        && "noflash"@[2] == 'f' && "noflash"@[3] == 'l');
    assert("nofl"@.len() == 4 && "nofl"@[0] == 'n' && "nofl"@[1] == 'o' && "nofl"@[2] == 'f'
        && "nofl"@[3] == 'l');
    assert("ignorecase"@.len() == 10 && "ignorecase"@[0] == 'i' && "ignorecase"@[1] == 'g'
        && "ignorecase"@[2] == 'n' && "ignorecase"@[3] == 'o');
    assert("ic"@.len() == 2 && "ic"@[0] == 'i' && "ic"@[1] == 'c');
    assert("noignorecase"@.len() == 12 && "noignorecase"@[0] == 'n' && "noignorecase"@[1] == 'o'
        && "noignorecase"@[2] == 'i' && "noignorecase"@[3] == 'g');
    assert("noic"@.len() == 4 && "noic"@[0] == 'n' && "noic"@[1] == 'o' && "noic"@[2] == 'i'
        && "noic"@[3] == 'c');
    assert("showmatch"@.len() == 9 && "showmatch"@[0] == 's' && "showmatch"@[1] == 'h'
        && "showmatch"@[2] == 'o' && "showmatch"@[3] == 'w');
    assert("sm"@.len() == 2 && "sm"@[0] == 's' && "sm"@[1] == 'm');
    assert("noshowmatch"@.len() == 11 && "noshowmatch"@[0] == 'n' && "noshowmatch"@[1] == 'o'
        && "noshowmatch"@[2] == 's' && "noshowmatch"@[3] == 'h');
    assert("nosm"@.len() == 4 && "nosm"@[0] == 'n' && "nosm"@[1] == 'o' && "nosm"@[2] == 's'
        && "nosm"@[3] == 'm');
    assert("readonly"@.len() == 8 && "readonly"@[0] == 'r' && "readonly"@[1] == 'e'
        && "readonly"@[2] == 'a' && "readonly"@[3] == 'd');
    assert("ro"@.len() == 2 && "ro"@[0] == 'r' && "ro"@[1] == 'o');
    assert("noreadonly"@.len() == 10 && "noreadonly"@[0] == 'n' && "noreadonly"@[1] == 'o'
        && "noreadonly"@[2] == 'r' && "noreadonly"@[3] == 'e');
    assert("noro"@.len() == 4 && "noro"@[0] == 'n' && "noro"@[1] == 'o' && "noro"@[2] == 'r'
        && "noro"@[3] == 'o');
    if !on {
        match switch {
            Switch::Number => {
                assert(short ==> word =~= "nonu"@);
                assert(!short ==> word =~= "nonumber"@);
            },
            Switch::Autoindent => {
                assert(short ==> word =~= "noai"@);
                assert(!short ==> word =~= "noautoindent"@);
            },
            Switch::Expandtab => {
                assert(short ==> word =~= "noet"@);
                assert(!short ==> word =~= "noexpandtab"@);
            },
            Switch::Flash => {
                assert(short ==> word =~= "nofl"@);
                assert(!short ==> word =~= "noflash"@);
            },
            Switch::Ignorecase => {
                assert(short ==> word =~= "noic"@);
                assert(!short ==> word =~= "noignorecase"@);
            },
            Switch::Showmatch => {
                assert(short ==> word =~= "nosm"@);
                assert(!short ==> word =~= "noshowmatch"@);
            },
            Switch::Readonly => {
                assert(short ==> word =~= "noro"@);
                assert(!short ==> word =~= "noreadonly"@);
            },
        }
    }
}

/// A word without white space stands alone.
proof fn lemma_word_alone(word: Seq<char>, at: int)
    requires
        0 <= at <= word.len(),
        forall|i: int| 0 <= i < word.len() ==> !is_white(#[trigger] word[i]),
    ensures
        word_end(word, at) == word.len(),
    decreases word.len() - at,
{
    if at < word.len() {
        lemma_word_alone(word, at + 1);
    }
}

/// How `:set` goes on with one word.
proof fn lemma_set_word(editor: EditorView, word: Seq<char>)
    requires
        word.len() > 0,
        word != "all"@,
        word[0] != '!',
        word.last() != '!',
        forall|i: int| 0 <= i < word.len() ==> !is_white(#[trigger] word[i]),
    ensures
        editor.ex_executed("set"@ + seq![' '] + word) == quieted(editor).word_set(word).ended(),
{
    let name = "set"@;
    reveal_strlit("set");
    lemma_word_command(editor, name, word);
    lemma_set_named();
    reveal(EditorView::options_set);
    assert(word_begin(word, 0) == 0);
    lemma_word_alone(word, 0);
    assert(word.subrange(0, word.len() as int) =~= word);
    reveal_with_fuel(EditorView::words_set, 2);
}

proof fn lemma_set_named()
    ensures
        !crate::address::names("set"@, "quit"@),
        !crate::address::names("set"@, "next"@),
        !crate::address::names("set"@, "prev"@),
        !crate::address::names("set"@, "rewind"@),
        !crate::address::names("set"@, "write"@),
        !crate::address::names("set"@, "edit"@),
        crate::address::names("set"@, "set"@),
        "set"@ != "wq"@,
        "set"@ != "x"@,
        "set"@ != "wn"@,
        "set"@.len() == 3,
{
    reveal_strlit("set");
    reveal_strlit("quit");
    reveal_strlit("next");
    reveal_strlit("prev");
    reveal_strlit("rewind");
    reveal_strlit("write");
    reveal_strlit("edit");
    reveal_strlit("wq");
    reveal_strlit("x");
    reveal_strlit("wn");
    let name = "set"@;
    assert("quit"@.subrange(0, 3)[0] != name[0]);
    assert("next"@.subrange(0, 3)[0] != name[0]);
    assert("prev"@.subrange(0, 3)[0] != name[0]);
    assert("rewind"@.subrange(0, 3)[0] != name[0]);
    assert("write"@.subrange(0, 3)[0] != name[0]);
    assert("edit"@.subrange(0, 3)[0] != name[0]);
    assert(name.subrange(0, 3) =~= name);
}

/// `:set` with the name of an option, in full or short, turns just that option
/// on, and with `no` in front of the name off. The text and the cursor stay.
pub proof fn lemma_option_is_set(editor: EditorView, switch: Switch, on: bool, short: bool)
    requires
        editor.doc.pending is None,
    ensures
        ({
            let after = editor.ex_executed("set"@ + seq![' '] + switch.word(on, short));
            &&& switch.is_on(after.options, after.files.readonly) == on
            &&& after.options.tabstop == editor.options.tabstop
            &&& forall|other: Switch|
                other != switch ==> #[trigger] other.is_on(after.options, after.files.readonly)
                    == other.is_on(editor.options, editor.files.readonly)
            &&& after.doc == editor.doc
        }),
{
    let word = switch.word(on, short);
    lemma_word_known(editor.options, editor.files.readonly, switch, on, short);
    lemma_switch_word(switch, on, short);
    lemma_set_word(editor, word);
}

proof fn lemma_switch_word(switch: Switch, on: bool, short: bool)
    ensures
        ({
            let word = switch.word(on, short);
            &&& word.len() > 0
            &&& word != "all"@
            &&& word[0] != '!'
            &&& word.last() != '!'
            &&& forall|i: int| 0 <= i < word.len() ==> !is_white(#[trigger] word[i])
        }),
{
    reveal_strlit("all");
    reveal_strlit("no");
    reveal_strlit("number");
    reveal_strlit("nu");
    reveal_strlit("autoindent");
    reveal_strlit("ai");
    reveal_strlit("expandtab");
    reveal_strlit("et");
    reveal_strlit("flash");
    reveal_strlit("fl");
    reveal_strlit("ignorecase");
    reveal_strlit("ic");
    reveal_strlit("showmatch");
    reveal_strlit("sm");
    reveal_strlit("readonly");
    reveal_strlit("ro");
    let word = switch.word(on, short);
    let name = switch.name(short);
    assert(forall|i: int| 0 <= i < name.len() ==> !is_white(#[trigger] name[i]));
    if !on {
        assert(forall|i: int|
            2 <= i < word.len() ==> #[trigger] word[i] == name[i - 2]);
        assert(word[0] == 'n' && word[1] == 'o');
        assert(word.last() == name.last());
        assert("all"@[0] == 'a');
    }
}

/// `:set tabstop=` and a number from 1 to 32 set the tab stops to it, and
/// nothing else. Another number is refused with a message that quotes the word.
pub proof fn lemma_tab_stop_is_set(editor: EditorView, n: nat)
    requires
        editor.doc.pending is None,
    ensures
        ({
            let word = "tabstop="@ + decimal(n as int);
            let after = editor.ex_executed("set"@ + seq![' '] + word);
            &&& after.doc == editor.doc
            &&& 1 <= n <= 32 ==> after.options == (Options {
                tabstop: n as usize,
                ..editor.options
            })
            &&& !(1 <= n <= 32) ==> {
                &&& after.options == editor.options
                &&& after.message.text == "bad option: "@ + word
                &&& after.message.highlighted
            }
        }),
{
    let front = "tabstop="@;
    let digits = decimal(n as int);
    let word = front + digits;
    reveal_strlit("tabstop=");
    reveal_strlit("all");
    lemma_decimal_digits(n);
    assert forall|i: int| 0 <= i < digits.len() implies is_digit_char(#[trigger] digits[i]) by {
        assert(digits[i] == decimal_bytes(n)[i] as char);
    }
    assert(front.len() == 8 && front[0] == 't' && "all"@[0] == 'a');
    assert(front[1] == 'a' && front[2] == 'b' && front[3] == 's' && front[4] == 't');
    assert(front[5] == 'o' && front[6] == 'p' && front[7] == '=');
    assert(word[0] == 't' && word[1] == 'a' && word[7] == '=');
    assert forall|i: int| 0 <= i < word.len() implies !is_white(#[trigger] word[i]) by {
        if i >= 8 {
            assert(word[i] == digits[i - 8]);
            assert(is_digit_char(digits[i - 8]));
        } else {
            assert(word[i] == front[i]);
        }
    }
    assert(word.last() == digits[digits.len() - 1]);
    assert(is_digit_char(digits[digits.len() - 1]));
    lemma_set_word(editor, word);
    assert(word.subrange(0, 8) =~= front);
    assert(word.subrange(8, word.len() as int) =~= digits);
    assert(digits.subrange(0, digits.len() as int) =~= digits);
    lemma_number_at(digits, 0, n);
    assert(is_digit_char(digits[0]));
    assert(size_of(digits) == Some(n as int));
    lemma_no_switch(word);
}

/// No name of an option has an equals sign.
proof fn lemma_no_switch(word: Seq<char>)
    requires
        word.len() > 8,
        word[7] == '=',
    ensures
        word != "number"@ && word != "nu"@ && word != "nonumber"@ && word != "nonu"@,
        word != "autoindent"@ && word != "ai"@ && word != "noautoindent"@ && word != "noai"@,
        word != "expandtab"@ && word != "et"@ && word != "noexpandtab"@ && word != "noet"@,
        word != "flash"@ && word != "fl"@ && word != "noflash"@ && word != "nofl"@,
        word != "ignorecase"@ && word != "ic"@ && word != "noignorecase"@ && word != "noic"@,
        word != "showmatch"@ && word != "sm"@ && word != "noshowmatch"@ && word != "nosm"@,
        word != "readonly"@ && word != "ro"@ && word != "noreadonly"@ && word != "noro"@,
{
    reveal_strlit("number");
    reveal_strlit("nu");
    reveal_strlit("nonumber");
    reveal_strlit("nonu");
    reveal_strlit("autoindent");
    reveal_strlit("ai");
    reveal_strlit("noautoindent");
    reveal_strlit("noai");
    reveal_strlit("expandtab");
    reveal_strlit("et");
    reveal_strlit("noexpandtab");
    reveal_strlit("noet");
    reveal_strlit("flash");
    reveal_strlit("fl");
    reveal_strlit("noflash");
    reveal_strlit("nofl");
    reveal_strlit("ignorecase");
    reveal_strlit("ic");
    reveal_strlit("noignorecase");
    reveal_strlit("noic");
    reveal_strlit("showmatch");
    reveal_strlit("sm");
    reveal_strlit("noshowmatch");
    reveal_strlit("nosm");
    reveal_strlit("readonly");
    reveal_strlit("ro");
    reveal_strlit("noreadonly");
    reveal_strlit("noro");
    assert("number"@.len() == 6);
    assert("nu"@.len() == 2);
    assert("nonumber"@.len() == 8);
    assert("nonu"@.len() == 4);
    assert("autoindent"@.len() == 10 && "autoindent"@[7] == 'e');
    assert("ai"@.len() == 2);
    assert("noautoindent"@.len() == 12 && "noautoindent"@[7] == 'n');
    assert("noai"@.len() == 4);
    assert("expandtab"@.len() == 9 && "expandtab"@[7] == 'a');
    assert("et"@.len() == 2);
    assert("noexpandtab"@.len() == 11 && "noexpandtab"@[7] == 'd');
    assert("noet"@.len() == 4);
    assert("flash"@.len() == 5);
    assert("fl"@.len() == 2);
    assert("noflash"@.len() == 7);
    assert("nofl"@.len() == 4);
    assert("ignorecase"@.len() == 10 && "ignorecase"@[7] == 'a');
    assert("ic"@.len() == 2);
    assert("noignorecase"@.len() == 12 && "noignorecase"@[7] == 'e');
    assert("noic"@.len() == 4);
    assert("showmatch"@.len() == 9 && "showmatch"@[7] == 'c');
    assert("sm"@.len() == 2);
    assert("noshowmatch"@.len() == 11 && "noshowmatch"@[7] == 'a');
    assert("nosm"@.len() == 4);
    assert("readonly"@.len() == 8);
    assert("ro"@.len() == 2);
    assert("noreadonly"@.len() == 10 && "noreadonly"@[7] == 'n');
    assert("noro"@.len() == 4);
}

} // verus!
