//! The files that are edited: their names, what the host is asked to read or
//! write, and what it answered.
use crate::bytes::{less, max_of};
use crate::strings::copy_str;
use vstd::prelude::*;
use vstd::string::*;

verus! {

/// What follows once a file is written.
#[derive(Clone, Copy, Debug, PartialEq, Eq, Structural)]
pub enum AfterWrite {
    /// Nothing.
    Stay,
    /// The editor stops, unless files are left to edit and it is not forced.
    Quit { force: bool },
    /// The editor goes on with the next file.
    Next,
    /// As `ZZ` does: the editor stops, unless files are left to edit.
    Close,
}

/// What the editor asks its host to do with a file.
#[derive(Debug)]
pub enum FileRequest {
    /// Write these bytes. Where `guard` is set, refuse if the file exists,
    /// unless it is the file of that name.
    Write { path: String, data: Vec<u8>, guard: Guard, ranged: bool, after: AfterWrite },
    /// Read the file that is to be edited; where `tell` is set, the status line
    /// names it afterwards.
    Load { path: String, tell: bool },
    /// Read a file whose lines go into the text before line `at`.
    Read { path: String, at: usize },
}

/// Whether a write may overwrite a file that exists.
#[derive(Debug)]
pub enum Guard {
    /// It may.
    Overwrite,
    /// It may not, unless the file is the one that is edited.
    Refuse { except: Option<String> },
}

/// Whether a write may overwrite a file that exists, as a value.
#[verifier::ext_equal]
pub enum GuardView {
    Overwrite,
    Refuse { except: Option<Seq<char>> },
}

/// What the editor asks its host to do with a file, as a value.
#[verifier::ext_equal]
pub enum RequestView {
    Write {
        path: Seq<char>,
        data: Seq<u8>,
        guard: GuardView,
        ranged: bool,
        after: AfterWrite,
    },
    Load { path: Seq<char>, tell: bool },
    Read { path: Seq<char>, at: int },
}

/// An optional name as a value.
pub open spec fn name_of(name: Option<String>) -> Option<Seq<char>> {
    match name {
        Some(text) => Some(text@),
        None => None,
    }
}

impl View for Guard {
    type V = GuardView;

    open spec fn view(&self) -> GuardView {
        match *self {
            Guard::Overwrite => GuardView::Overwrite,
            Guard::Refuse { except } => GuardView::Refuse { except: name_of(except) },
        }
    }
}

/// `==` of `std::path::Path`: whether two names are the same path, component by
/// component. The same text is the same path. Which other texts are depends on
/// how the system separates components, and nothing is promised of it.
#[verifier::external_body]
fn same_path(a: &str, b: &str) -> (r: bool)
    ensures
        a@ == b@ ==> r,
{
    std::path::Path::new(a) == std::path::Path::new(b)
}

/// Whether the system may take two names for the same path, or for two.
pub closed spec fn may_be_same_path(a: Seq<char>, b: Seq<char>, same: bool) -> bool {
    exists|first: &str, second: &str|
        first@ == a && second@ == b && #[trigger] call_ensures(same_path, (first, second), same)
}

impl Guard {
    /// Whether a write to `path` is refused, where the file is present or
    /// not: it is where the file is present and not the one that is edited.
    pub fn refuses(&self, path: &str, present: bool) -> (r: bool)
        ensures
            self@.may_refuse(path@, present, r),
    {
        match self {
            Guard::Overwrite => false,
            Guard::Refuse { except } => match except.as_ref() {
                None => present,
                Some(name) => {
                    let same = same_path(name.as_str(), path);
                    assert(may_be_same_path(name@, path@, same));
                    present && !same
                },
            },
        }
    }
}

impl GuardView {
    /// Whether a write to `path` may be refused, or not: it is refused where
    /// the file is present and the system does not take it for the one that is
    /// edited.
    pub open spec fn may_refuse(self, path: Seq<char>, present: bool, refused: bool) -> bool {
        match self {
            GuardView::Overwrite => !refused,
            GuardView::Refuse { except } => match except {
                None => refused == present,
                Some(name) => if name == path {
                    !refused
                } else {
                    exists|same: bool|
                        #[trigger] may_be_same_path(name, path, same) && refused == (present
                            && !same)
                },
            },
        }
    }
}

impl View for FileRequest {
    type V = RequestView;

    open spec fn view(&self) -> RequestView {
        match *self {
            FileRequest::Write { path, data, guard, ranged, after } => RequestView::Write {
                path: path@,
                data: data@,
                guard: guard@,
                ranged,
                after,
            },
            FileRequest::Load { path, tell } => RequestView::Load { path: path@, tell },
            FileRequest::Read { path, at } => RequestView::Read { path: path@, at: at as int },
        }
    }
}

/// An optional request as a value.
pub open spec fn request_of(request: Option<FileRequest>) -> Option<RequestView> {
    match request {
        Some(asked) => Some(asked@),
        None => None,
    }
}

/// What came of a write.
#[derive(Debug)]
pub enum WriteReply {
    /// The bytes are in the file.
    Written,
    /// The file exists and was not to be overwritten.
    Exists,
    /// The write failed.
    Failed(String),
}

/// What came of reading the file that is to be edited.
#[derive(Debug)]
pub enum LoadReply {
    /// Its bytes, and whether nobody may write to it.
    Loaded { data: Vec<u8>, write_protected: bool },
    /// There is no such file, or it could not be read.
    Missing,
}

/// What came of reading a file into the text.
#[derive(Debug)]
pub enum ReadReply {
    /// Its bytes.
    Data(Vec<u8>),
    /// It is not a regular file.
    NotRegular,
    /// The read failed.
    Failed(String),
}

/// The files that are edited.
pub struct Files {
    pub filename: Option<String>,
    pub alternate_filename: Option<String>,
    pub readonly: bool,
    pub index: usize,
    pub count: usize,
    pub quit: bool,
    pub force_quit: bool,
    pub next_file: bool,
    pub previous_file: bool,
    pub rewind_files: bool,
    pub request: Option<FileRequest>,
}

/// The files that are edited.
#[verifier::ext_equal]
pub struct FilesView {
    /// The name of the file, if it has one.
    pub filename: Option<Seq<char>>,
    /// The name that it had before, if any.
    pub alternate: Option<Seq<char>>,
    /// Whether the file is not to be written.
    pub readonly: bool,
    /// Which of the files this is.
    pub index: int,
    /// How many files there are.
    pub count: int,
    /// Whether the editor is to stop.
    pub quit: bool,
    /// Whether it is to stop at any price.
    pub force_quit: bool,
    /// Whether the next file is to follow.
    pub next_file: bool,
    /// Whether the previous file is to follow.
    pub previous_file: bool,
    /// Whether the first file is to follow.
    pub rewind_files: bool,
    /// What the host was asked to do and has not answered yet.
    pub request: Option<RequestView>,
}

impl View for Files {
    type V = FilesView;

    open spec fn view(&self) -> FilesView {
        FilesView {
            filename: name_of(self.filename),
            alternate: name_of(self.alternate_filename),
            readonly: self.readonly,
            index: self.index as int,
            count: self.count as int,
            quit: self.quit,
            force_quit: self.force_quit,
            next_file: self.next_file,
            previous_file: self.previous_file,
            rewind_files: self.rewind_files,
            request: request_of(self.request),
        }
    }
}

impl FilesView {
    /// A single file.
    pub open spec fn single(filename: Option<Seq<char>>, readonly: bool) -> FilesView {
        FilesView {
            filename,
            alternate: None,
            readonly,
            index: 0,
            count: 1,
            quit: false,
            force_quit: false,
            next_file: false,
            previous_file: false,
            rewind_files: false,
            request: None,
        }
    }

    /// How many files are left behind this one.
    pub open spec fn remaining(self) -> int {
        less(self.count, self.index + 1)
    }
}

/// A copy of an optional name.
pub fn copy_name(name: &Option<String>) -> (r: Option<String>)
    ensures
        name_of(r) == name_of(*name),
{
    match name {
        Some(text) => Some(copy_str(text.as_str())),
        None => None,
    }
}

impl Files {
    /// A single file.
    pub fn single(filename: Option<String>, readonly: bool) -> (r: Self)
        ensures
            r@ == FilesView::single(name_of(filename), readonly),
    {
        Files {
            filename,
            alternate_filename: None,
            readonly,
            index: 0,
            count: 1,
            quit: false,
            force_quit: false,
            next_file: false,
            previous_file: false,
            rewind_files: false,
            request: None,
        }
    }

    /// How many files are left behind this one.
    pub fn remaining_files(&self) -> (r: usize)
        ensures
            r == self@.remaining(),
    {
        if self.count > self.index {
            self.count - self.index - 1
        } else {
            0
        }
    }

    /// Which of how many files this is; there is at least one.
    pub fn set_file_context(&mut self, index: usize, count: usize)
        ensures
            final(self)@ == (FilesView {
                index: index as int,
                count: if count >= 1 {
                    count as int
                } else {
                    1
                },
                ..old(self)@
            }),
    {
        self.index = index;
        self.count = max_of(count, 1);
    }
}

/// A file name from place `at` on with `%` and `#` replaced by the current and
/// the previous name, unless a backslash precedes them; nothing where there is
/// no such name.
pub open spec fn expanded_from(
    argument: Seq<char>,
    at: int,
    current: Seq<char>,
    alternate: Seq<char>,
) -> Option<Seq<char>>
    decreases argument.len() - at,
{
    if at < 0 || at >= argument.len() {
        Some(Seq::empty())
    } else if argument[at] == '\\' {
        if at + 1 < argument.len() {
            match expanded_from(argument, at + 2, current, alternate) {
                Some(rest) => Some(seq![argument[at + 1]] + rest),
                None => None,
            }
        } else {
            Some(seq!['\\'])
        }
    } else {
        let piece = if argument[at] == '%' {
            current
        } else if argument[at] == '#' {
            alternate
        } else {
            seq![argument[at]]
        };
        if piece.len() == 0 {
            None
        } else {
            match expanded_from(argument, at + 1, current, alternate) {
                Some(rest) => Some(piece + rest),
                None => None,
            }
        }
    }
}

/// The characters of an optional name, none where there is no name.
pub open spec fn name_or_empty(name: Option<Seq<char>>) -> Seq<char> {
    match name {
        Some(text) => text,
        None => Seq::empty(),
    }
}

/// A file name with `%` and `#` replaced by the current and the previous name.
pub open spec fn expanded(
    argument: Seq<char>,
    filename: Option<Seq<char>>,
    alternate: Option<Seq<char>>,
) -> Option<Seq<char>> {
    expanded_from(argument, 0, name_or_empty(filename), name_or_empty(alternate))
}

/// What was collected so far, in front of what is to come.
spec fn in_front(done: Seq<char>, rest: Option<Seq<char>>) -> Option<Seq<char>> {
    match rest {
        Some(text) => Some(done + text),
        None => None,
    }
}

/// A file name with `%` and `#` replaced by the current and the previous name,
/// nothing where there is no such name.
pub fn expand_filename(argument: &[char], filename: &Option<String>, alternate: &Option<String>) -> (r:
    Option<String>)
    ensures
        name_of(r) == expanded(argument@, name_of(*filename), name_of(*alternate)),
{
    let current = match filename {
        Some(name) => copy_str(name.as_str()),
        None => String::new(),
    };
    let other = match alternate {
        Some(name) => copy_str(name.as_str()),
        None => String::new(),
    };
    let ghost wanted = expanded(argument@, name_of(*filename), name_of(*alternate));
    let mut done = String::new();
    let mut at: usize = 0;
    let total: usize = argument.len();
    proof {
        match wanted {
            Some(text) => assert(done@ + text =~= text),
            None => {},
        }
    }
    while at < total
        invariant
            at <= total == argument@.len(),
            current@ == name_or_empty(name_of(*filename)),
            other@ == name_or_empty(name_of(*alternate)),
            wanted == expanded(argument@, name_of(*filename), name_of(*alternate)),
            in_front(done@, expanded_from(argument@, at as int, current@, other@)) == wanted,
        decreases total - at,
    {
        let c: char = argument[at];
        let ghost before = done@;
        let ghost here = expanded_from(argument@, at as int, current@, other@);
        if c == '\\' {
            if total - at == 1 {
                done.push('\\');
                assert(done@ =~= before + seq!['\\']);
                return Some(done);
            }
            done.push(argument[at + 1]);
            at += 2;
        } else if c == '%' {
            if current.as_str().is_empty() {
                return None;
            }
            done.append(current.as_str());
            at += 1;
        } else if c == '#' {
            if other.as_str().is_empty() {
                return None;
            }
            done.append(other.as_str());
            at += 1;
        } else {
            done.push(c);
            at += 1;
        }
        proof {
            let rest = expanded_from(argument@, at as int, current@, other@);
            match rest {
                Some(text) => {
                    assert(done@ + text =~= before + here->0);
                },
                None => {},
            }
        }
    }
    assert(done@ + Seq::<char>::empty() =~= done@);
    Some(done)
}

/// Whether the permission bits of a file let nobody write to it.
pub fn is_write_protected(mode: u32) -> (r: bool)
    ensures
        r == (mode & 0o222 == 0),
{
    mode & 0o222 == 0
}

/// Whether a start-up file is not to be trusted: somebody besides its owner
/// may write to it, or its owner is not the user.
pub fn startup_file_denied(mode: u32, owner: u32, user: Option<u32>) -> (r: bool)
    ensures
        r == (mode & 0o022 != 0 || user != Some(owner)),
{
    if mode & 0o022 != 0 {
        return true;
    }
    match user {
        Some(uid) => uid != owner,
        None => true,
    }
}

} // verus!
