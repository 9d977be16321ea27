//! The texts that the editor shows on its status line.
use crate::bytes::{
    fit, imax, imin, is_control, max_of, min_of, plus_of, push_all, text_of,
};
use crate::history::{edits_of, Change, Edit, EditView};
use crate::strings::{copy_str, decimal, push_decimal};
use crate::text::{
    line_count, line_count_of, offset_before, offset_of_line, serialized_len, serialized_lines_len,
};
use vstd::prelude::*;
use vstd::string::*;

verus! {

/// What the help text lists.
pub const HELP: &'static str = "These features are available:\n\tPattern searches with / and ?\n\tLast command repeat with .\n\tLine marking with 'x\n\tNamed buffers with \"x\n\tSome colon mode commands with :\n\tSettable options with \":set\"\n\tSignal catching- ^C\n\tJob suspend and resume with ^Z\n\tAdapt to window re-sizes\n";

/// The byte that stands for a control byte behind a caret.
#[verifier::allow_in_spec]
pub fn caret_byte(byte: u8) -> u8
    returns
        if byte == 127 {
            63u8
        } else if byte < 32 {
            (byte + 64) as u8
        } else {
            byte
        },
{
    if byte == 127 {
        63
    } else if byte < 32 {
        byte + 64
    } else {
        byte
    }
}

/// How a byte is shown by `:list`: control bytes behind a caret, the control
/// sequence introducer as a highlighted dot.
pub open spec fn literal_byte(byte: u8) -> Seq<u8> {
    if byte == 0x9b {
        seq![27u8, 91, 55, 109, 46, 27, 91, 109]
    } else if is_control(byte) {
        seq![94u8, caret_byte(byte)]
    } else {
        seq![byte]
    }
}

/// How bytes are shown by `:list`.
pub open spec fn literal_bytes(line: Seq<u8>) -> Seq<u8>
    decreases line.len(),
{
    if line.len() == 0 {
        Seq::empty()
    } else {
        literal_bytes(line.drop_last()) + literal_byte(line.last())
    }
}

/// How a line is shown by `:list`, with a dollar sign at its end.
pub fn display_literal_bytes(line: &[u8]) -> (r: Vec<u8>)
    ensures
        r@ == literal_bytes(line@).push(36),
{
    let mut result: Vec<u8> = Vec::new();
    let mut i: usize = 0;
    assert(line@.subrange(0, 0) =~= Seq::<u8>::empty());
    while i < line.len()
        invariant
            i <= line@.len(),
            result@ == literal_bytes(line@.subrange(0, i as int)),
        decreases line@.len() - i,
    {
        let byte: u8 = line[i];
        let ghost before = result@;
        assert(line@.subrange(0, i + 1).drop_last() =~= line@.subrange(0, i as int));
        if byte == 0x9b {
            push_all(&mut result, &[27, 91, 55, 109, 46, 27, 91, 109]);
        } else if is_control(byte) {
            result.push(94);
            result.push(caret_byte(byte));
        } else {
            result.push(byte);
        }
        assert(result@ =~= before + literal_byte(byte));
        i += 1;
    }
    assert(line@.subrange(0, line@.len() as int) =~= line@);
    result.push(36);
    result
}

/// How a key is named in a message.
pub open spec fn key_name(byte: u8) -> Seq<char> {
    if is_control(byte) {
        seq!['^', caret_byte(byte) as char]
    } else if byte < 128 {
        seq![byte as char]
    } else {
        seq!['?']
    }
}

/// How a key is named in a message.
pub fn display_command_byte(byte: u8) -> (r: String)
    ensures
        r@ == key_name(byte),
{
    let mut r = String::new();
    if is_control(byte) {
        r.push('^');
        r.push(caret_byte(byte) as char);
    } else if byte < 128 {
        r.push(byte as char);
    } else {
        r.push('?');
    }
    assert(r@ =~= key_name(byte));
    r
}

/// The message about a key that means nothing.
pub open spec fn not_implemented(name: Seq<char>) -> Seq<char> {
    "'"@ + name + "' is not implemented"@
}

/// The message about a key that means nothing.
pub fn not_implemented_text(name: &str) -> (r: String)
    ensures
        r@ == not_implemented(name@),
{
    let mut r = copy_str("'");
    r.append(name);
    r.append("' is not implemented");
    r
}

/// How a register is named: `D` for the one without a name.
#[verifier::allow_in_spec]
pub fn register_name(register: Option<u8>) -> char
    returns
        match register {
            Some(name) => name as char,
            None => 'D',
        },
{
    match register {
        Some(name) => name as char,
        None => 'D',
    }
}

/// The number of characters that lines take: with their newlines where they
/// are whole lines.
pub open spec fn char_count(lines: Seq<Seq<u8>>, linewise: bool) -> int {
    if linewise {
        serialized_len(lines)
    } else {
        serialized_len(lines) - lines.len()
    }
}

/// The message about lines that moved to or from a register.
pub open spec fn register_message(
    operation: Seq<char>,
    lines: Seq<Seq<u8>>,
    linewise: bool,
    register: char,
) -> Seq<char> {
    operation + " "@ + decimal(
        if linewise {
            lines.len() as int
        } else {
            0
        },
    ) + " lines ("@ + decimal(char_count(lines, linewise)) + " chars) from ["@ + seq![register]
        + "]"@
}

proof fn lemma_serialized_len_bound(lines: Seq<Seq<u8>>)
    ensures
        serialized_len(lines) >= lines.len(),
    decreases lines.len(),
{
    if lines.len() > 0 {
        lemma_serialized_len_bound(lines.drop_last());
    }
}

fn count_chars(lines: &Vec<Vec<u8>>, linewise: bool) -> (r: u128)
    ensures
        r == char_count(text_of(lines@), linewise),
{
    let total: u128 = serialized_lines_len(lines);
    proof {
        lemma_serialized_len_bound(text_of(lines@));
    }
    if linewise {
        total
    } else {
        total - lines.len() as u128
    }
}

/// The message about lines that moved to or from a register.
pub fn register_status(operation: &str, lines: &Vec<Vec<u8>>, linewise: bool, register: char) -> (r:
    String)
    ensures
        r@ == register_message(operation@, text_of(lines@), linewise, register),
{
    let mut r = copy_str(operation);
    r.append(" ");
    push_decimal(
        &mut r,
        if linewise {
            lines.len() as u128
        } else {
            0
        },
    );
    r.append(" lines (");
    push_decimal(&mut r, count_chars(lines, linewise));
    r.append(" chars) from [");
    r.push(register);
    r.append("]");
    assert(r@ =~= register_message(operation@, text_of(lines@), linewise, register));
    r
}

/// The message about lines that `:yank` took.
pub open spec fn yank_message(lines: Seq<Seq<u8>>, register: char) -> Seq<char> {
    "Yank "@ + decimal(lines.len() as int) + " lines ("@ + decimal(serialized_len(lines))
        + " chars) into ["@ + seq![register] + "]"@
}

/// The message about lines that `:yank` took.
pub fn yank_status(lines: &Vec<Vec<u8>>, register: char) -> (r: String)
    ensures
        r@ == yank_message(text_of(lines@), register),
{
    let mut r = copy_str("Yank ");
    push_decimal(&mut r, lines.len() as u128);
    r.append(" lines (");
    push_decimal(&mut r, serialized_lines_len(lines));
    r.append(" chars) into [");
    r.push(register);
    r.append("]");
    assert(r@ =~= yank_message(text_of(lines@), register));
    r
}

/// How much a change removed and inserted, and where it first touched the
/// text. Counts stay within the range of machine numbers.
#[verifier::ext_equal]
pub struct Extent {
    pub removed: int,
    pub inserted: int,
    pub row: int,
    pub col: int,
}

/// How much edits removed and inserted, and where they first touched the text.
pub open spec fn extent_of(edits: Seq<EditView>) -> Extent
    decreases edits.len(),
{
    if edits.len() == 0 {
        Extent { removed: 0, inserted: 0, row: usize::MAX as int, col: usize::MAX as int }
    } else {
        let before = extent_of(edits.drop_last());
        match edits.last() {
            EditView::Bytes { row, start, removed, inserted } => Extent {
                removed: fit(before.removed + removed.len()),
                inserted: fit(before.inserted + inserted.len()),
                row: imin(before.row, row),
                col: if row < before.row {
                    start
                } else if row == before.row {
                    imin(before.col, start)
                } else {
                    before.col
                },
            },
            EditView::Lines { start, removed, inserted } => Extent {
                removed: fit(before.removed + fit(serialized_len(removed))),
                inserted: fit(before.inserted + fit(serialized_len(inserted))),
                row: imin(before.row, start),
                col: if start < before.row {
                    0
                } else {
                    before.col
                },
            },
        }
    }
}

/// The message about a change that was taken back: `left` changes can still
/// be taken back, and `lines` is the text afterwards.
pub open spec fn undo_message(edits: Seq<EditView>, lines: Seq<Seq<u8>>, left: int) -> Seq<char> {
    let extent = extent_of(edits);
    let deleted = extent.inserted > extent.removed;
    let row = imin(extent.row, lines.len() - 1);
    let position = offset_of_line(lines, row) + imin(extent.col, lines[row].len() as int);
    "Undo ["@ + decimal(left + 1) + "] "@ + (if deleted {
        "deleted"@
    } else {
        "restored"@
    }) + " "@ + decimal(
        if deleted {
            extent.inserted
        } else if extent.removed > extent.inserted {
            extent.removed
        } else {
            imax(extent.removed, 1)
        },
    ) + " chars at position "@ + decimal(position)
}

fn fit_length(lines: &Vec<Vec<u8>>) -> (r: usize)
    ensures
        r == fit(serialized_len(text_of(lines@))),
{
    let total: u128 = serialized_lines_len(lines);
    if total > usize::MAX as u128 {
        usize::MAX
    } else {
        total as usize
    }
}

fn measure(edits: &Vec<Edit>) -> (r: (usize, usize, usize, usize))
    ensures
        (Extent { removed: r.0 as int, inserted: r.1 as int, row: r.2 as int, col: r.3 as int })
            == extent_of(edits_of(edits@)),
{
    let ghost all = edits_of(edits@);
    let mut removed_total: usize = 0;
    let mut inserted_total: usize = 0;
    let mut first_row: usize = usize::MAX;
    let mut first_col: usize = usize::MAX;
    let mut i: usize = 0;
    assert(all.subrange(0, 0) =~= Seq::<EditView>::empty());
    while i < edits.len()
        invariant
            i <= edits@.len(),
            all == edits_of(edits@),
            extent_of(all.subrange(0, i as int)) == (Extent {
                removed: removed_total as int,
                inserted: inserted_total as int,
                row: first_row as int,
                col: first_col as int,
            }),
        decreases edits@.len() - i,
    {
        let ghost part = all.subrange(0, i + 1);
        assert(part.drop_last() =~= all.subrange(0, i as int));
        assert(part.last() == edits@[i as int]@);
        match &edits[i] {
            Edit::Bytes { row, start, removed, inserted } => {
                removed_total = plus_of(removed_total, removed.len());
                inserted_total = plus_of(inserted_total, inserted.len());
                if *row < first_row {
                    first_col = *start;
                } else if *row == first_row {
                    first_col = min_of(first_col, *start);
                }
                first_row = min_of(first_row, *row);
            },
            Edit::Lines { start, removed, inserted } => {
                removed_total = plus_of(removed_total, fit_length(removed));
                inserted_total = plus_of(inserted_total, fit_length(inserted));
                if *start < first_row {
                    first_col = 0;
                }
                first_row = min_of(first_row, *start);
            },
        }
        i += 1;
    }
    assert(all.subrange(0, edits@.len() as int) =~= all);
    (removed_total, inserted_total, first_row, first_col)
}

/// The message about a change that was taken back.
pub fn undo_status(change: &Change, lines: &Vec<Vec<u8>>, left: usize) -> (r: String)
    requires
        lines@.len() > 0,
    ensures
        r@ == undo_message(change@.edits, text_of(lines@), left as int),
{
    let (removed, inserted, first_row, first_col) = measure(&change.edits);
    let deleted = inserted > removed;
    let row: usize = min_of(first_row, lines.len() - 1);
    let col: usize = min_of(first_col, lines[row].len());
    let offset: u128 = offset_before(lines, row);
    let mut r = copy_str("Undo [");
    push_decimal(&mut r, left as u128 + 1);
    r.append("] ");
    if deleted {
        r.append("deleted");
    } else {
        r.append("restored");
    }
    r.append(" ");
    push_decimal(
        &mut r,
        if deleted {
            inserted as u128
        } else if removed > inserted {
            removed as u128
        } else {
            max_of(removed, 1) as u128
        },
    );
    r.append(" chars at position ");
    push_decimal(&mut r, offset + col as u128);
    r
}

/// The message about a file that was read or written.
pub open spec fn file_message(name: Seq<char>, data: Seq<u8>, new_file: bool, readonly: bool) -> Seq<
    char,
> {
    "'"@ + name + "'"@ + (if new_file {
        " [New file]"@
    } else {
        Seq::empty()
    }) + (if readonly {
        " [Readonly]"@
    } else {
        Seq::empty()
    }) + " "@ + decimal(line_count_of(data)) + "L, "@ + decimal(data.len() as int) + "C"@
}

/// The message about a file that was read or written.
pub fn format_file_status(name: &str, data: &[u8], new_file: bool, readonly: bool) -> (r: String)
    ensures
        r@ == file_message(name@, data@, new_file, readonly),
{
    let mut r = copy_str("'");
    r.append(name);
    r.append("'");
    if new_file {
        r.append(" [New file]");
    } else {
        assert(r@ + Seq::<char>::empty() =~= r@);
    }
    if readonly {
        r.append(" [Readonly]");
    } else {
        assert(r@ + Seq::<char>::empty() =~= r@);
    }
    r.append(" ");
    push_decimal(&mut r, line_count(data) as u128);
    r.append("L, ");
    push_decimal(&mut r, data.len() as u128);
    r.append("C");
    r
}

/// The message about files that are left to edit.
pub open spec fn files_left_message(left: int) -> Seq<char> {
    decimal(left) + " more file(s) to edit"@
}

/// The message about files that are left to edit.
pub fn files_left_text(left: usize) -> (r: String)
    ensures
        r@ == files_left_message(left as int),
{
    let mut r = String::new();
    push_decimal(&mut r, left as u128);
    r.append(" more file(s) to edit");
    assert(r@ =~= files_left_message(left as int));
    r
}

/// The message about a command that would lose changes.
pub open spec fn unwritten_message(command: Seq<char>) -> Seq<char> {
    "No write since last change (:"@ + command + "! overrides)"@
}

/// The message about a command that would lose changes.
pub fn unwritten_text(command: &str) -> (r: String)
    ensures
        r@ == unwritten_message(command@),
{
    let mut r = copy_str("No write since last change (:");
    r.append(command);
    r.append("! overrides)");
    r
}

/// The mode, as the status line shows it.
#[derive(Clone, Copy, Debug, PartialEq, Eq, Structural)]
pub enum Mode {
    Command,
    Insert,
    Replace,
}

/// The status line where there is no message.
pub open spec fn edit_message(
    mode: Mode,
    filename: Option<Seq<char>>,
    readonly: bool,
    modified: bool,
    row: int,
    count: int,
) -> Seq<char> {
    seq![
        match mode {
            Mode::Command => '-',
            Mode::Insert => 'I',
            Mode::Replace => 'R',
        },
    ] + " "@ + (match filename {
        Some(name) => name,
        None => "No file"@,
    }) + (if readonly {
        " [Readonly]"@
    } else {
        Seq::empty()
    }) + (if modified {
        " [Modified]"@
    } else {
        Seq::empty()
    }) + " "@ + decimal(row + 1) + "/"@ + decimal(count) + " "@ + decimal(
        (row + 1) * 100 / imax(count, 1),
    ) + "%"@
}

/// The status line where there is no message.
pub fn edit_status(
    mode: Mode,
    filename: Option<&str>,
    readonly: bool,
    modified: bool,
    row: usize,
    count: usize,
) -> (r: String)
    ensures
        r@ == edit_message(
            mode,
            match filename {
                Some(name) => Some(name@),
                None => None,
            },
            readonly,
            modified,
            row as int,
            count as int,
        ),
{
    let mut r = String::new();
    r.push(
        match mode {
            Mode::Command => '-',
            Mode::Insert => 'I',
            Mode::Replace => 'R',
        },
    );
    assert(r@ =~= seq![
        match mode {
            Mode::Command => '-',
            Mode::Insert => 'I',
            Mode::Replace => 'R',
        },
    ]);
    r.append(" ");
    match filename {
        Some(name) => r.append(name),
        None => r.append("No file"),
    }
    if readonly {
        r.append(" [Readonly]");
    } else {
        assert(r@ + Seq::<char>::empty() =~= r@);
    }
    if modified {
        r.append(" [Modified]");
    } else {
        assert(r@ + Seq::<char>::empty() =~= r@);
    }
    r.append(" ");
    let current: u128 = row as u128 + 1;
    push_decimal(&mut r, current);
    r.append("/");
    push_decimal(&mut r, count as u128);
    r.append(" ");
    push_decimal(&mut r, current * 100 / max_of(count, 1) as u128);
    r.append("%");
    r
}

} // verus!
