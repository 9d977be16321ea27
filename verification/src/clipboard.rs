//! Copying text to the clipboards: through the terminal, and through programs
//! that do it.
use crate::bytes::push_all;
use crate::screen::Platform;
use crate::strings::utf8_of_str;
use crossterm::clipboard::CopyToClipboard;
use crossterm::Command;
use vstd::prelude::*;
use vstd::string::*;
use vstd::utf8::encode_utf8;

verus! {

/// The character for a number below 64 in the standard alphabet of base64.
pub open spec fn base64_digit(n: int) -> char {
    if n < 26 {
        (65 + n) as char
    } else if n < 52 {
        (71 + n) as char
    } else if n < 62 {
        (n - 4) as char
    } else if n == 62 {
        '+'
    } else {
        '/'
    }
}

/// Bytes in base64, with the standard alphabet and padding: each three bytes
/// become four characters of six bits.
pub open spec fn base64_text(bytes: Seq<u8>) -> Seq<char>
    decreases bytes.len(),
{
    let a = bytes[0] as int;
    let b = bytes[1] as int;
    let c = bytes[2] as int;
    let first = base64_digit(a / 4);
    if bytes.len() == 0 {
        Seq::empty()
    } else if bytes.len() == 1 {
        seq![first, base64_digit(a % 4 * 16), '=', '=']
    } else if bytes.len() == 2 {
        seq![first, base64_digit(a % 4 * 16 + b / 16), base64_digit(b % 16 * 4), '=']
    } else {
        seq![
            first,
            base64_digit(a % 4 * 16 + b / 16),
            base64_digit(b % 16 * 4 + c / 64),
            base64_digit(c % 64),
        ] + base64_text(bytes.subrange(3, bytes.len() as int))
    }
}

/// The escape sequence that has a terminal copy `text` to its clipboard, from
/// `crossterm::clipboard::CopyToClipboard::to_clipboard_from`: the control
/// sequence 52 with the selection `c` and the text in base64.
#[verifier::external_body]
fn clipboard_sequence(text: &[u8]) -> (r: String)
    ensures
        r@ == "\x1b]52;c;"@ + base64_text(text@) + "\x1b\\"@,
{
    let mut out = String::new();
    let _ = CopyToClipboard::to_clipboard_from(text).write_ansi(&mut out);
    out
}

/// The escape sequence that has a terminal copy `text` to its primary
/// selection, from `crossterm::clipboard::CopyToClipboard::to_primary_from`:
/// the control sequence 52 with the selection `p` and the text in base64.
#[verifier::external_body]
fn primary_sequence(text: &[u8]) -> (r: String)
    ensures
        r@ == "\x1b]52;p;"@ + base64_text(text@) + "\x1b\\"@,
{
    let mut out = String::new();
    let _ = CopyToClipboard::to_primary_from(text).write_ansi(&mut out);
    out
}

/// Where text is copied to.
#[derive(Clone, Copy, Debug, PartialEq, Eq, Structural)]
pub enum ClipboardDestination {
    Clipboard,
    Primary,
}

/// A program that copies its input, with its arguments.
#[derive(Debug, PartialEq, Eq)]
pub struct ClipboardHelperCommand {
    pub program: &'static str,
    pub args: Vec<&'static str>,
}

/// Programs with their arguments, as values.
pub open spec fn helpers_of(commands: Seq<ClipboardHelperCommand>) -> Seq<
    (Seq<char>, Seq<Seq<char>>),
> {
    Seq::new(
        commands.len(),
        |i: int|
            (
                commands[i].program@,
                Seq::new(commands[i].args@.len(), |j: int| commands[i].args@[j]@),
            ),
    )
}

/// The programs that copy to a place, in the order in which they are tried.
pub open spec fn helpers(destination: ClipboardDestination, platform: Platform) -> Seq<
    (Seq<char>, Seq<Seq<char>>),
> {
    match (platform, destination) {
        (Platform::Windows, ClipboardDestination::Clipboard) => seq![
            ("clip.exe"@, Seq::empty()),
        ],
        (Platform::Windows, ClipboardDestination::Primary) => Seq::empty(),
        (_, ClipboardDestination::Clipboard) => {
            let common = seq![
                ("wl-copy"@, Seq::empty()),
                ("xclip"@, seq!["-selection"@, "clipboard"@]),
                ("xsel"@, seq!["--clipboard"@, "--input"@]),
            ];
            if platform == Platform::MacOs {
                common.push(("pbcopy"@, Seq::empty()))
            } else {
                common
            }
        },
        (_, ClipboardDestination::Primary) => seq![
            ("wl-copy"@, seq!["--primary"@]),
            ("xclip"@, seq!["-selection"@, "primary"@]),
            ("xsel"@, seq!["--primary"@, "--input"@]),
        ],
    }
}

fn bare(program: &'static str) -> (r: ClipboardHelperCommand)
    ensures
        r.program@ == program@,
        r.args@.len() == 0,
{
    ClipboardHelperCommand { program, args: Vec::new() }
}

fn with_one(program: &'static str, arg: &'static str) -> (r: ClipboardHelperCommand)
    ensures
        r.program@ == program@,
        r.args@ =~= seq![arg],
{
    let mut args: Vec<&'static str> = Vec::new();
    args.push(arg);
    ClipboardHelperCommand { program, args }
}

fn with_two(program: &'static str, first: &'static str, second: &'static str) -> (r:
    ClipboardHelperCommand)
    ensures
        r.program@ == program@,
        r.args@ =~= seq![first, second],
{
    let mut args: Vec<&'static str> = Vec::new();
    args.push(first);
    args.push(second);
    ClipboardHelperCommand { program, args }
}

/// The programs that copy to a place, in the order in which they are tried.
pub fn clipboard_helper_commands(destination: ClipboardDestination, platform: Platform) -> (r: Vec<
    ClipboardHelperCommand,
>)
    ensures
        helpers_of(r@) == helpers(destination, platform),
{
    let mut commands: Vec<ClipboardHelperCommand> = Vec::new();
    match (platform, destination) {
        (Platform::Windows, ClipboardDestination::Clipboard) => {
            commands.push(bare("clip.exe"));
        },
        (Platform::Windows, ClipboardDestination::Primary) => {},
        (_, ClipboardDestination::Clipboard) => {
            commands.push(bare("wl-copy"));
            commands.push(with_two("xclip", "-selection", "clipboard"));
            commands.push(with_two("xsel", "--clipboard", "--input"));
            if platform == Platform::MacOs {
                commands.push(bare("pbcopy"));
            }
        },
        (_, ClipboardDestination::Primary) => {
            commands.push(with_one("wl-copy", "--primary"));
            commands.push(with_two("xclip", "-selection", "primary"));
            commands.push(with_two("xsel", "--primary", "--input"));
        },
    }
    assert(helpers_of(commands@) =~~= helpers(destination, platform));
    commands
}

/// What has a terminal copy a text to its clipboard, and where there is a
/// primary selection, to that too.
pub open spec fn osc52_text(text: Seq<u8>, platform: Platform) -> Seq<u8> {
    let clipboard = encode_utf8("\x1b]52;c;"@ + base64_text(text) + "\x1b\\"@);
    if platform == Platform::Windows {
        clipboard
    } else {
        clipboard + encode_utf8("\x1b]52;p;"@ + base64_text(text) + "\x1b\\"@)
    }
}

/// Appends what has a terminal copy a text.
pub fn write_osc52_clipboard(out: &mut Vec<u8>, text: &[u8], platform: Platform)
    ensures
        final(out)@ == old(out)@ + osc52_text(text@, platform),
{
    push_all(out, &utf8_of_str(&clipboard_sequence(text)));
    match platform {
        Platform::Windows => {},
        _ => {
            push_all(out, &utf8_of_str(&primary_sequence(text)));
        },
    }
    assert(out@ =~= old(out)@ + osc52_text(text@, platform));
}

} // verus!
