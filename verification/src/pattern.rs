//! Search patterns: literals, `.`, bracket classes, `*` after any of these,
//! `^` and `$`, groups `\( \)` and references `\1` to `\9` to what they held.
use std::collections::HashMap;

use vstd::prelude::*;

use crate::bytes::{copy_bytes, has_at, imin, is_digit, to_lower};

verus! {

/// The byte at place `at`, if there is one.
pub open spec fn byte_at(s: Seq<u8>, at: int) -> Option<u8> {
    if 0 <= at < s.len() {
        Some(s[at])
    } else {
        None
    }
}

/// The byte at place `at`, if there is one.
pub fn get_byte(bytes: &[u8], at: usize) -> (r: Option<u8>)
    ensures
        r == byte_at(bytes@, at as int),
{
    if at < bytes.len() {
        Some(bytes[at])
    } else {
        None
    }
}

/// What one step of a pattern accepts.
#[verifier::ext_equal]
pub enum Token {
    /// One byte.
    Literal(u8),
    /// Any byte.
    Any,
    /// A byte inside one of the ranges, or, where the flag is set, outside all of them.
    Class(Seq<(u8, u8)>, bool),
}

/// One member of a bracket class at `index`, and the place behind it.
pub open spec fn class_item(pattern: Seq<u8>, index: int) -> (u8, int) {
    if pattern[index] == 92 && index + 1 < pattern.len() {
        (pattern[index + 1], index + 2)
    } else {
        (pattern[index], index + 1)
    }
}

/// The ranges of a bracket class from `index` on, and the place of the `]`
/// that ends it (or of the pattern's end).
pub open spec fn class_from(pattern: Seq<u8>, index: int) -> (Seq<(u8, u8)>, int)
    decreases pattern.len() - index,
{
    if index < 0 || index >= pattern.len() || pattern[index] == 93 {
        (Seq::empty(), index)
    } else {
        let (first, next) = class_item(pattern, index);
        if byte_at(pattern, next) == Some(45u8) && next + 1 < pattern.len() && pattern[next + 1]
            != 93 {
            let (last, after) = class_item(pattern, next + 1);
            let (rest, end) = class_from(pattern, after);
            (seq![(first, last)] + rest, end)
        } else {
            let (rest, end) = class_from(pattern, next);
            (seq![(first, first)] + rest, end)
        }
    }
}

/// The token at place `at` of a pattern, and the place behind it. A bracket
/// that is never closed stands for itself.
pub open spec fn token_at(pattern: Seq<u8>, at: int) -> Option<(Token, int)> {
    if at < 0 || at >= pattern.len() {
        None
    } else if pattern[at] == 92 {
        if at + 1 < pattern.len() {
            Some((Token::Literal(pattern[at + 1]), at + 2))
        } else {
            None
        }
    } else if pattern[at] == 46 {
        Some((Token::Any, at + 1))
    } else if pattern[at] != 91 {
        Some((Token::Literal(pattern[at]), at + 1))
    } else {
        let negated = byte_at(pattern, at + 1) == Some(94u8);
        let (ranges, end) = class_from(
            pattern,
            if negated {
                at + 2
            } else {
                at + 1
            },
        );
        if end < pattern.len() {
            Some((Token::Class(ranges, negated), end + 1))
        } else {
            Some((Token::Literal(91), at + 1))
        }
    }
}

/// Whether one of the ranges holds the byte.
pub open spec fn in_ranges(ranges: Seq<(u8, u8)>, byte: u8) -> bool {
    exists|i: int| 0 <= i < ranges.len() && (#[trigger] ranges[i]).0 <= byte <= ranges[i].1
}

/// Whether a token accepts a byte.
pub open spec fn token_accepts(token: Token, byte: u8) -> bool {
    match token {
        Token::Literal(value) => value == byte,
        Token::Any => true,
        Token::Class(ranges, negated) => in_ranges(ranges, byte) != negated,
    }
}

proof fn lemma_class_from(pattern: Seq<u8>, index: int)
    requires
        0 <= index <= pattern.len(),
    ensures
        index <= class_from(pattern, index).1 <= pattern.len(),
    decreases pattern.len() - index,
{
    if index < pattern.len() && pattern[index] != 93 {
        let (first, next) = class_item(pattern, index);
        if byte_at(pattern, next) == Some(45u8) && next + 1 < pattern.len() && pattern[next + 1]
            != 93 {
            let (last, after) = class_item(pattern, next + 1);
            lemma_class_from(pattern, after);
        } else {
            lemma_class_from(pattern, next);
        }
    }
}

/// The place behind a token lies behind the token's own and inside the pattern.
pub proof fn lemma_token_next(pattern: Seq<u8>, at: int)
    ensures
        token_at(pattern, at) matches Some((token, next)) ==> at < next <= pattern.len(),
{
    if 0 <= at < pattern.len() && pattern[at] == 91 {
        let negated = byte_at(pattern, at + 1) == Some(94u8);
        lemma_class_from(
            pattern,
            if negated {
                at + 2
            } else {
                at + 1
            },
        );
    }
}

/// What each of the groups 0 to 9 has captured so far: where it begins and ends.
pub type Groups = Seq<Option<(int, int)>>;

/// No group has captured anything.
pub open spec fn no_groups() -> Groups {
    Seq::new(10, |i: int| None)
}

/// How many groups a pattern opens before place `at`.
pub open spec fn groups_before(pattern: Seq<u8>, at: int) -> int
    decreases at,
{
    if at < 2 {
        0
    } else {
        groups_before(pattern, at - 1) + if pattern[at - 2] == 92 && pattern[at - 1] == 40 {
            1int
        } else {
            0int
        }
    }
}

/// The number of the group that opens at place `at`; from the ninth on they
/// share a number.
pub open spec fn group_number_at(pattern: Seq<u8>, at: int) -> int {
    imin(groups_before(pattern, at) + 1, 9)
}

/// Whether the pattern has a backslash and then `byte` at place `at`.
pub open spec fn escaped_at(pattern: Seq<u8>, at: int, byte: u8) -> bool {
    at + 1 < pattern.len() && pattern[at] == 92 && pattern[at + 1] == byte
}

/// Ends the group that was opened last.
pub open spec fn close_group(groups: Groups, open: Seq<int>, at: int) -> Groups {
    if open.len() > 0 {
        match groups[open.last()] {
            Some((start, end)) => groups.update(open.last(), Some((start, at))),
            None => groups,
        }
    } else {
        groups
    }
}

/// The open groups without the one that was opened last.
pub open spec fn pop_group(open: Seq<int>) -> Seq<int> {
    if open.len() > 0 {
        open.drop_last()
    } else {
        open
    }
}

/// Whether `text` holds `wanted` at place `at`.
pub open spec fn holds_at(text: Seq<u8>, at: int, wanted: Seq<u8>) -> bool {
    at + wanted.len() <= text.len() && text.subrange(at, at + wanted.len()) == wanted
}

/// How the pattern from place `pi` on matches the text from place `at` on:
/// where the match ends and what the groups hold then. A `*` takes as much as
/// it can and gives back only what the rest of the pattern needs.
pub open spec fn match_from(
    text: Seq<u8>,
    at: int,
    pattern: Seq<u8>,
    pi: int,
    groups: Groups,
    open: Seq<int>,
) -> Option<(int, Groups)>
    decreases pattern.len() - pi, text.len() - at,
{
    if pi < 0 || pi >= pattern.len() {
        Some((at, groups))
    } else if escaped_at(pattern, pi, 40) {
        let group = group_number_at(pattern, pi);
        match_from(
            text,
            at,
            pattern,
            pi + 2,
            groups.update(group, Some((at, at))),
            open.push(group),
        )
    } else if escaped_at(pattern, pi, 41) {
        match_from(text, at, pattern, pi + 2, close_group(groups, open, at), pop_group(open))
    } else if pattern[pi] == 92 && pi + 1 < pattern.len() && is_digit(pattern[pi + 1]) {
        match groups[pattern[pi + 1] - 48] {
            Some((start, end)) => {
                let captured = text.subrange(start, end);
                if holds_at(text, at, captured) {
                    match_from(text, at + captured.len(), pattern, pi + 2, groups, open)
                } else {
                    None
                }
            },
            None => None,
        }
    } else if pattern[pi] == 94 {
        if at == 0 {
            match_from(text, at, pattern, pi + 1, groups, open)
        } else {
            None
        }
    } else if pattern[pi] == 36 && pi + 1 == pattern.len() {
        if at == text.len() {
            Some((at, groups))
        } else {
            None
        }
    } else {
        match token_at(pattern, pi) {
            None => None,
            Some((token, next)) => {
                proof {
                    lemma_token_next(pattern, pi);
                }
                let here = 0 <= at < text.len() && token_accepts(token, text[at]);
                if byte_at(pattern, next) == Some(42u8) {
                    let longer = if here {
                        match_from(text, at + 1, pattern, pi, groups, open)
                    } else {
                        None
                    };
                    if longer is Some {
                        longer
                    } else {
                        match_from(text, at, pattern, next + 1, groups, open)
                    }
                } else if here {
                    match_from(text, at + 1, pattern, next, groups, open)
                } else {
                    None
                }
            },
        }
    }
}

/// How the whole pattern matches the text from place `at` on.
pub open spec fn match_at(text: Seq<u8>, at: int, pattern: Seq<u8>) -> Option<(int, Groups)> {
    match_from(text, at, pattern, 0, no_groups(), Seq::empty())
}

/// The first place from `start` to `end` (both among them) where the pattern matches.
pub open spec fn first_match(text: Seq<u8>, pattern: Seq<u8>, start: int, end: int) -> Option<int>
    decreases end - start + 1,
{
    if start > end {
        None
    } else if match_at(text, start, pattern) is Some {
        Some(start)
    } else {
        first_match(text, pattern, start + 1, end)
    }
}

/// The last place up to `end` (itself among them) where the pattern matches.
pub open spec fn last_match(text: Seq<u8>, pattern: Seq<u8>, end: int) -> Option<int>
    decreases end + 1,
{
    if end < 0 {
        None
    } else if match_at(text, end, pattern) is Some {
        Some(end)
    } else {
        last_match(text, pattern, end - 1)
    }
}

/// The first place at or behind `from` where the pattern matches. An empty
/// pattern matches at once; one that begins with `^` only at the start.
pub open spec fn pattern_found(text: Seq<u8>, pattern: Seq<u8>, from: int) -> Option<int> {
    if pattern.len() == 0 {
        Some(imin(from, text.len() as int))
    } else if pattern[0] == 94 {
        first_match(text, pattern, imin(from, 1), imin(from, 1))
    } else {
        first_match(text, pattern, imin(from, text.len() as int), text.len() as int)
    }
}

/// The last place at or before `before` where the pattern matches.
pub open spec fn pattern_found_before(text: Seq<u8>, pattern: Seq<u8>, before: int) -> Option<int> {
    last_match(text, pattern, imin(before, text.len() as int))
}

/// The bytes with their ASCII letters in lower case.
pub open spec fn folded(bytes: Seq<u8>) -> Seq<u8> {
    Seq::new(bytes.len(), |i: int| to_lower(bytes[i]))
}

/// `folded` where case is to be ignored, the bytes themselves elsewhere.
pub open spec fn cased(bytes: Seq<u8>, ignorecase: bool) -> Seq<u8> {
    if ignorecase {
        folded(bytes)
    } else {
        bytes
    }
}

/// One step of a pattern.
#[derive(Debug)]
pub enum PatternToken {
    /// One byte.
    Literal(u8),
    /// Any byte.
    Any,
    /// A byte inside one of the ranges, or, where the flag is set, outside all of them.
    Class(Vec<(u8, u8)>, bool),
}

impl View for PatternToken {
    type V = Token;

    open spec fn view(&self) -> Token {
        match self {
            PatternToken::Literal(value) => Token::Literal(*value),
            PatternToken::Any => Token::Any,
            PatternToken::Class(ranges, negated) => Token::Class(ranges@, *negated),
        }
    }
}

fn class_member(pattern: &[u8], index: usize) -> (r: (u8, usize))
    requires
        index < pattern@.len(),
    ensures
        r.0 == class_item(pattern@, index as int).0,
        r.1 == class_item(pattern@, index as int).1,
        index < r.1 <= pattern@.len(),
{
    if pattern[index] == 92 && index + 1 < pattern.len() {
        (pattern[index + 1], index + 2)
    } else {
        (pattern[index], index + 1)
    }
}

fn class_ranges(pattern: &[u8], start: usize) -> (r: (Vec<(u8, u8)>, usize))
    requires
        start <= pattern@.len(),
    ensures
        r.0@ == class_from(pattern@, start as int).0,
        r.1 == class_from(pattern@, start as int).1,
        r.1 <= pattern@.len(),
{
    let mut ranges: Vec<(u8, u8)> = Vec::new();
    let mut index: usize = start;
    assert(ranges@ + class_from(pattern@, start as int).0 =~= class_from(pattern@, start as int).0);
    while index < pattern.len() && pattern[index] != 93
        invariant
            start <= index <= pattern@.len(),
            ranges@ + class_from(pattern@, index as int).0 == class_from(pattern@, start as int).0,
            class_from(pattern@, index as int).1 == class_from(pattern@, start as int).1,
        decreases pattern@.len() - index,
    {
        let ghost before = ranges@;
        let ghost entry = index as int;
        let (first, next) = class_member(pattern, index);
        let item: (u8, u8);
        if get_byte(pattern, next) == Some(45u8) && pattern.len() - next > 1 && pattern[next + 1]
            != 93 {
            let (last, after) = class_member(pattern, next + 1);
            item = (first, last);
            index = after;
        } else {
            item = (first, first);
            index = next;
        }
        ranges.push(item);
        assert(class_from(pattern@, entry).0 == seq![item] + class_from(pattern@, index as int).0);
        assert(ranges@ + class_from(pattern@, index as int).0 =~= before + class_from(
            pattern@,
            entry,
        ).0);
    }
    assert(ranges@ + class_from(pattern@, index as int).0 =~= ranges@);
    (ranges, index)
}

/// The token at place `at` of the pattern, and the place behind it.
pub fn pattern_token(pattern: &[u8], at: usize) -> (r: Option<(PatternToken, usize)>)
    ensures
        match r {
            Some((token, next)) => token_at(pattern@, at as int) == Some((token@, next as int)),
            None => token_at(pattern@, at as int) is None,
        },
{
    if at >= pattern.len() {
        return None;
    }
    let byte: u8 = pattern[at];
    if byte == 92 {
        if at + 1 < pattern.len() {
            return Some((PatternToken::Literal(pattern[at + 1]), at + 2));
        }
        return None;
    }
    if byte == 46 {
        return Some((PatternToken::Any, at + 1));
    }
    if byte != 91 {
        return Some((PatternToken::Literal(byte), at + 1));
    }
    let negated: bool = get_byte(pattern, at + 1) == Some(94u8);
    let start: usize = if negated {
        at + 2
    } else {
        at + 1
    };
    let (ranges, end) = class_ranges(pattern, start);
    if end < pattern.len() {
        Some((PatternToken::Class(ranges, negated), end + 1))
    } else {
        Some((PatternToken::Literal(91), at + 1))
    }
}

/// Whether the token accepts the byte.
pub fn token_matches(token: &PatternToken, byte: u8) -> (r: bool)
    ensures
        r == token_accepts(token@, byte),
{
    match token {
        PatternToken::Literal(value) => *value == byte,
        PatternToken::Any => true,
        PatternToken::Class(ranges, negated) => {
            let mut i: usize = 0;
            while i < ranges.len()
                invariant
                    i <= ranges@.len(),
                    token@ == Token::Class(ranges@, *negated),
                    forall|j: int|
                        0 <= j < i ==> !((#[trigger] ranges@[j]).0 <= byte <= ranges@[j].1),
                decreases ranges@.len() - i,
            {
                if ranges[i].0 <= byte && byte <= ranges[i].1 {
                    assert(ranges@[i as int].0 <= byte <= ranges@[i as int].1);
                    assert(in_ranges(ranges@, byte));
                    return !*negated;
                }
                i += 1;
            }
            assert(!in_ranges(ranges@, byte));
            *negated
        },
    }
}

/// What each of the groups 0 to 9 has captured.
pub type Captures = [Option<(usize, usize)>; 10];

/// The contents of the captures.
pub open spec fn groups_of(captures: Captures) -> Groups {
    Seq::new(
        10,
        |i: int|
            match captures@[i] {
                Some((start, end)) => Some((start as int, end as int)),
                None => None,
            },
    )
}

/// The numbers of the open groups.
pub open spec fn open_of(stack: Seq<usize>) -> Seq<int> {
    Seq::new(stack.len(), |i: int| stack[i] as int)
}

/// The captures lie inside the text up to `at`, and the open groups have valid numbers.
pub open spec fn captures_valid(captures: Captures, stack: Seq<usize>, at: int) -> bool {
    &&& forall|i: int|
        0 <= i < 10 ==> ((#[trigger] captures@[i]) matches Some((start, end)) ==> start <= end
            <= at)
    &&& forall|i: int| 0 <= i < stack.len() ==> 1 <= #[trigger] stack[i] <= 9
}

/// A place in a text and in a pattern, with what has been captured on the way there.
#[derive(Debug)]
pub struct MatchState {
    pub text_at: usize,
    pub pattern_at: usize,
    pub captures: Captures,
    pub stack: Vec<usize>,
}

/// A place in a text and in a pattern, with what has been captured on the way
/// there, as a value.
#[verifier::ext_equal]
pub struct StateView {
    pub text_at: int,
    pub pattern_at: int,
    pub groups: Groups,
    pub open: Seq<int>,
}

impl StateView {
    /// Whether the state lies at these places or behind them: further on in
    /// the pattern, or at the same place there and not before in the text.
    pub open spec fn lies_behind(self, text_at: int, pattern_at: int) -> bool {
        self.pattern_at > pattern_at || (self.pattern_at == pattern_at && self.text_at >= text_at)
    }
}

/// Whether a pattern opens no group.
pub open spec fn groupless(pattern: Seq<u8>) -> bool {
    forall|i: int| 0 <= i < pattern.len() ==> !#[trigger] escaped_at(pattern, i, 40)
}

/// The state made of these parts.
pub open spec fn state_of(
    text_at: usize,
    pattern_at: usize,
    captures: Captures,
    stack: Seq<usize>,
) -> StateView {
    StateView {
        text_at: text_at as int,
        pattern_at: pattern_at as int,
        groups: groups_of(captures),
        open: open_of(stack),
    }
}

impl View for MatchState {
    type V = StateView;

    open spec fn view(&self) -> StateView {
        state_of(self.text_at, self.pattern_at, self.captures, self.stack@)
    }
}

impl MatchState {
    /// No match continues from this state.
    pub open spec fn fails(self, text: Seq<u8>, pattern: Seq<u8>) -> bool {
        match_from(
            text,
            self.text_at as int,
            pattern,
            self.pattern_at as int,
            groups_of(self.captures),
            open_of(self.stack@),
        ) is None
    }

    /// Whether this state is the one given by its parts.
    fn is_at(
        &self,
        text_at: usize,
        pattern_at: usize,
        captures: &Captures,
        stack: &Vec<usize>,
    ) -> (r: bool)
        ensures
            r == (self@ == state_of(text_at, pattern_at, *captures, stack@)),
    {
        let ghost other = state_of(text_at, pattern_at, *captures, stack@);
        if self.text_at != text_at || self.pattern_at != pattern_at || self.stack.len()
            != stack.len() {
            assert(self@.open.len() != other.open.len() || self@.text_at != other.text_at
                || self@.pattern_at != other.pattern_at);
            return false;
        }
        let mut i: usize = 0;
        while i < 10
            invariant
                i <= 10,
                forall|j: int| 0 <= j < i ==> self.captures@[j] == captures@[j],
                other == state_of(text_at, pattern_at, *captures, stack@),
            decreases 10 - i,
        {
            let same = match (self.captures[i], captures[i]) {
                (Some((a, b)), Some((c, d))) => a == c && b == d,
                (None, None) => true,
                _ => false,
            };
            if !same {
                assert(self@.groups[i as int] != other.groups[i as int]);
                return false;
            }
            i += 1;
        }
        assert(self@.groups =~= other.groups);
        let mut k: usize = 0;
        while k < stack.len()
            invariant
                k <= stack@.len(),
                self.stack@.len() == stack@.len(),
                forall|j: int| 0 <= j < k ==> self.stack@[j] == stack@[j],
                other == state_of(text_at, pattern_at, *captures, stack@),
            decreases stack@.len() - k,
        {
            if self.stack[k] != stack[k] {
                assert(self@.open[k as int] != other.open[k as int]);
                return false;
            }
            k += 1;
        }
        assert(self@.open =~= other.open);
        true
    }
}

/// A number that states at the same places have in common.
#[verifier::allow_in_spec]
pub fn state_key(text_at: usize, pattern_at: usize) -> u64
    returns
        (text_at as u64).wrapping_mul(0x1_0000_0001).wrapping_add(pattern_at as u64),
{
    (text_at as u64).wrapping_mul(0x1_0000_0001).wrapping_add(pattern_at as u64)
}

/// The states of one text and pattern that are known not to lead to a match.
pub struct MatchContext {
    pub failed: HashMap<u64, Vec<MatchState>>,
    /// How often a state has been looked into.
    pub evaluated_states: u64,
    /// The states that are known to fail, as they were found out.
    pub learned: Ghost<Seq<StateView>>,
}

impl MatchContext {
    /// Every state that is held does fail.
    pub open spec fn sound(self, text: Seq<u8>, pattern: Seq<u8>) -> bool {
        forall|key: u64, i: int|
            #![trigger self.failed@[key]@[i]]
            self.failed@.contains_key(key) && 0 <= i < self.failed@[key]@.len()
                ==> self.failed@[key]@[i].fails(text, pattern)
    }

    /// Whether a state is held.
    pub open spec fn holds(self, state: StateView) -> bool {
        let key = state_key(state.text_at as usize, state.pattern_at as usize);
        self.failed@.contains_key(key) && exists|i: int|
            0 <= i < self.failed@[key]@.len() && #[trigger] self.failed@[key]@[i]@ == state
    }

    /// Every state that was found to fail was found once, and is held.
    pub open spec fn orderly(self) -> bool {
        &&& self.learned@.no_duplicates()
        &&& forall|j: int|
            0 <= j < self.learned@.len() ==> self.holds(#[trigger] self.learned@[j])
    }

    /// Whether more is known than before, of states that lie at these places
    /// or behind them, and as much as was looked into where nothing matched.
    pub open spec fn grown(
        self,
        before: MatchContext,
        text_at: int,
        pattern_at: int,
        failed: bool,
    ) -> bool {
        let known = before.learned@.len();
        &&& known <= self.learned@.len()
        &&& forall|j: int|
            0 <= j < known ==> #[trigger] self.learned@[j] == before.learned@[j]
        &&& forall|j: int|
            known <= j < self.learned@.len() ==> (#[trigger] self.learned@[j]).lies_behind(
                text_at,
                pattern_at,
            )
        &&& before.evaluated_states <= self.evaluated_states
        &&& failed ==> self.evaluated_states - before.evaluated_states <= self.learned@.len()
            - known
    }

    /// Whether what is known more than before are states within the text and
    /// the pattern. Where no group is open and the pattern opens none, nothing
    /// more is captured on the way to any of them.
    pub open spec fn spread(
        self,
        before: MatchContext,
        text: Seq<u8>,
        pattern: Seq<u8>,
        groups: Groups,
        open: Seq<int>,
    ) -> bool {
        forall|j: int|
            before.learned@.len() <= j < self.learned@.len() ==> {
                let state = #[trigger] self.learned@[j];
                &&& 0 <= state.text_at <= text.len()
                &&& 0 <= state.pattern_at < pattern.len()
                &&& groupless(pattern) && open.len() == 0 ==> state.groups == groups && state.open
                    == open
            }
    }

    /// A context that knows of no failure yet.
    pub fn new(_pattern: &[u8]) -> (r: Self)
        ensures
            forall|text: Seq<u8>, pattern: Seq<u8>| r.sound(text, pattern),
            r.orderly(),
            r.failed@ == Map::<u64, Vec<MatchState>>::empty(),
            r.evaluated_states == 0,
            r.learned@ == Seq::<StateView>::empty(),
    {
        broadcast use vstd::std_specs::hash::group_hash_axioms;

        MatchContext { failed: HashMap::new(), evaluated_states: 0, learned: Ghost(Seq::empty()) }
    }

    fn knows(
        &self,
        text_at: usize,
        pattern_at: usize,
        captures: &Captures,
        stack: &Vec<usize>,
        Ghost(text): Ghost<Seq<u8>>,
        Ghost(pattern): Ghost<Seq<u8>>,
    ) -> (r: bool)
        requires
            self.sound(text, pattern),
        ensures
            r == self.holds(state_of(text_at, pattern_at, *captures, stack@)),
            r ==> match_from(
                text,
                text_at as int,
                pattern,
                pattern_at as int,
                groups_of(*captures),
                open_of(stack@),
            ) is None,
    {
        broadcast use vstd::std_specs::hash::group_hash_axioms;

        let ghost wanted = state_of(text_at, pattern_at, *captures, stack@);
        let key: u64 = state_key(text_at, pattern_at);
        match self.failed.get(&key) {
            None => false,
            Some(states) => {
                let mut i: usize = 0;
                while i < states.len()
                    invariant
                        i <= states@.len(),
                        self.sound(text, pattern),
                        self.failed@.contains_key(key),
                        *states == self.failed@[key],
                        key == state_key(text_at, pattern_at),
                        wanted == state_of(text_at, pattern_at, *captures, stack@),
                        forall|j: int| 0 <= j < i ==> #[trigger] self.failed@[key]@[j]@ != wanted,
                    decreases states@.len() - i,
                {
                    if states[i].is_at(text_at, pattern_at, captures, stack) {
                        assert(self.failed@[key]@[i as int].fails(text, pattern));
                        assert(self.failed@[key]@[i as int]@ == wanted);
                        return true;
                    }
                    i += 1;
                }
                false
            },
        }
    }

    fn learn(&mut self, state: MatchState, Ghost(text): Ghost<Seq<u8>>, Ghost(pattern): Ghost<
        Seq<u8>,
    >)
        requires
            old(self).sound(text, pattern),
            old(self).orderly(),
            state.fails(text, pattern),
            !old(self).learned@.contains(state@),
        ensures
            final(self).sound(text, pattern),
            final(self).orderly(),
            final(self).evaluated_states == old(self).evaluated_states,
            final(self).learned@ == old(self).learned@.push(state@),
    {
        broadcast use vstd::std_specs::hash::group_hash_axioms;

        let ghost added_state = state@;
        let key: u64 = state_key(state.text_at, state.pattern_at);
        let mut states = match self.failed.remove(&key) {
            Some(states) => states,
            None => Vec::new(),
        };
        let ghost kept = states@;
        states.push(state);
        let ghost added = states@;
        self.failed.insert(key, states);
        self.learned = Ghost(self.learned@.push(added_state));
        assert(added[added.len() - 1]@ == added_state);
        assert forall|k: u64, i: int|
            #![trigger self.failed@[k]@[i]]
            self.failed@.contains_key(k) && 0 <= i
                < self.failed@[k]@.len() implies self.failed@[k]@[i].fails(text, pattern) by {
            if k == key {
                if i < added.len() - 1 {
                    assert(old(self).failed@[k]@[i].fails(text, pattern));
                }
            } else {
                assert(old(self).failed@[k]@[i].fails(text, pattern));
            }
        }
        assert forall|j: int| 0 <= j < self.learned@.len() implies self.holds(
            #[trigger] self.learned@[j],
        ) by {
            let known = self.learned@[j];
            let place = state_key(known.text_at as usize, known.pattern_at as usize);
            if j < old(self).learned@.len() {
                assert(known == old(self).learned@[j]);
                assert(old(self).holds(known));
                let i = choose|i: int|
                    0 <= i < old(self).failed@[place]@.len()
                        && #[trigger] old(self).failed@[place]@[i]@ == known;
                if place == key {
                    assert(kept[i]@ == known);
                    assert(added[i] == kept[i]);
                }
                assert(self.failed@[place]@[i]@ == known);
            } else {
                assert(self.failed@[place]@[added.len() - 1]@ == known);
            }
        }
    }
}

/// The number of the group that opens at place `at`.
pub fn group_number(pattern: &[u8], at: usize) -> (r: usize)
    requires
        at <= pattern@.len(),
    ensures
        r == group_number_at(pattern@, at as int),
        1 <= r <= 9,
{
    let mut count: usize = 0;
    let mut i: usize = 0;
    while i < at
        invariant
            i <= at <= pattern@.len(),
            count == groups_before(pattern@, i as int),
            count <= i,
        decreases at - i,
    {
        if i > 0 && pattern[i - 1] == 92 && pattern[i] == 40 {
            count += 1;
        }
        i += 1;
    }
    if count < 9 {
        count + 1
    } else {
        9
    }
}

/// Matches the pattern from `pattern_at` on against the text from `text_at`
/// on: where the match ends and what the groups hold then. States that are
/// known to fail are not looked into again.
pub fn match_pattern_captures(
    text: &[u8],
    text_at: usize,
    pattern: &[u8],
    pattern_at: usize,
    captures: Captures,
    stack: Vec<usize>,
    context: &mut MatchContext,
) -> (r: Option<(usize, Captures)>)
    requires
        text_at <= text@.len(),
        captures_valid(captures, stack@, text_at as int),
        old(context).sound(text@, pattern@),
        old(context).orderly(),
    ensures
        final(context).sound(text@, pattern@),
        final(context).orderly(),
        final(context).grown(*old(context), text_at as int, pattern_at as int, r is None),
        final(context).spread(
            *old(context),
            text@,
            pattern@,
            groups_of(captures),
            open_of(stack@),
        ),
        r is None && groupless(pattern@) && stack@.len() == 0 && old(context).learned@.len() == 0
            ==> final(context).evaluated_states - old(context).evaluated_states <= (text@.len() + 1)
            * pattern@.len(),
        match r {
            Some((end, groups)) => match_from(
                text@,
                text_at as int,
                pattern@,
                pattern_at as int,
                groups_of(captures),
                open_of(stack@),
            ) == Some((end as int, groups_of(groups))) && text_at <= end <= text@.len()
                && captures_valid(groups, Seq::empty(), end as int),
            None => match_from(
                text@,
                text_at as int,
                pattern@,
                pattern_at as int,
                groups_of(captures),
                open_of(stack@),
            ) is None,
        },
    decreases pattern@.len() - pattern_at, text@.len() - text_at, 1int,
{
    if context.knows(text_at, pattern_at, &captures, &stack, Ghost(text@), Ghost(pattern@)) {
        return None;
    }
    if context.evaluated_states < u64::MAX {
        context.evaluated_states += 1;
    }
    let ghost looked = *context;
    let state = MatchState { text_at, pattern_at, captures, stack: copy_sizes(&stack) };
    let result = match_pattern_captures_inner(
        text,
        text_at,
        pattern,
        pattern_at,
        captures,
        stack,
        context,
    );
    if result.is_none() {
        let ghost known = context.learned@;
        proof {
            if known.contains(state@) {
                let j = choose|j: int| 0 <= j < known.len() && known[j] == state@;
                if j < looked.learned@.len() {
                    assert(looked.learned@[j] == state@);
                    assert(looked.holds(looked.learned@[j]));
                } else {
                    assert(known[j].lies_behind(text_at + 1, pattern_at as int));
                }
            }
        }
        context.learn(state, Ghost(text@), Ghost(pattern@));
        proof {
            if groupless(pattern@) && stack@.len() == 0 && old(context).learned@.len() == 0 {
                lemma_states_counted(
                    context.learned@,
                    text@.len(),
                    pattern@.len(),
                    groups_of(captures),
                    open_of(stack@),
                );
            }
        }
    }
    result
}

/// There are no more states with the same captures than places in a text of
/// `n` bytes and a pattern of `m` bytes.
pub proof fn lemma_states_counted(
    states: Seq<StateView>,
    n: nat,
    m: nat,
    groups: Groups,
    open: Seq<int>,
)
    requires
        states.no_duplicates(),
        forall|j: int|
            0 <= j < states.len() ==> {
                let state = #[trigger] states[j];
                &&& 0 <= state.text_at <= n
                &&& 0 <= state.pattern_at < m
                &&& state.groups == groups
                &&& state.open == open
            },
    ensures
        states.len() <= (n + 1) * m,
{
    let places = Seq::new(
        states.len(),
        |j: int| states[j].text_at * m + states[j].pattern_at,
    );
    assert forall|i: int, j: int|
        0 <= i < places.len() && 0 <= j < places.len() && i != j implies places[i] != places[j] by {
        let a = states[i];
        let b = states[j];
        if places[i] == places[j] {
            lemma_same_place(a.text_at, a.pattern_at, b.text_at, b.pattern_at, m as int);
            assert(a == b);
        }
    }
    assert(places.no_duplicates());
    let all = vstd::set_lib::set_int_range(0, ((n + 1) * m) as int);
    assert forall|x: int| places.to_set().contains(x) implies all.contains(x) by {
        let j = choose|j: int| 0 <= j < places.len() && places[j] == x;
        let state = states[j];
        assert(0 <= state.text_at * m + state.pattern_at < (n + 1) * m) by (nonlinear_arith)
            requires
                0 <= state.text_at <= n,
                0 <= state.pattern_at < m,
        ;
    }
    assert(0 <= (n + 1) * m) by (nonlinear_arith);
    vstd::set_lib::lemma_int_range(0, ((n + 1) * m) as int);
    vstd::set_lib::lemma_len_subset(places.to_set(), all);
    places.unique_seq_to_set();
}

proof fn lemma_same_place(a: int, b: int, c: int, d: int, m: int)
    requires
        0 <= b < m,
        0 <= d < m,
        a * m + b == c * m + d,
    ensures
        a == c,
        b == d,
{
    if a < c {
        assert((a + 1) * m <= c * m) by (nonlinear_arith)
            requires
                a + 1 <= c,
                0 < m,
        ;
        assert((a + 1) * m == a * m + m) by (nonlinear_arith);
    } else if c < a {
        assert((c + 1) * m <= a * m) by (nonlinear_arith)
            requires
                c + 1 <= a,
                0 < m,
        ;
        assert((c + 1) * m == c * m + m) by (nonlinear_arith);
    }
}

fn copy_sizes(sizes: &Vec<usize>) -> (r: Vec<usize>)
    ensures
        r@ == sizes@,
{
    let mut r: Vec<usize> = Vec::new();
    let mut i: usize = 0;
    while i < sizes.len()
        invariant
            i <= sizes@.len(),
            r@ == sizes@.subrange(0, i as int),
        decreases sizes@.len() - i,
    {
        r.push(sizes[i]);
        i += 1;
        assert(r@ =~= sizes@.subrange(0, i as int));
    }
    assert(r@ =~= sizes@);
    r
}

fn match_pattern_captures_inner(
    text: &[u8],
    text_at: usize,
    pattern: &[u8],
    pattern_at: usize,
    captures: Captures,
    stack: Vec<usize>,
    context: &mut MatchContext,
) -> (r: Option<(usize, Captures)>)
    requires
        text_at <= text@.len(),
        captures_valid(captures, stack@, text_at as int),
        old(context).sound(text@, pattern@),
        old(context).orderly(),
    ensures
        final(context).sound(text@, pattern@),
        final(context).orderly(),
        final(context).grown(*old(context), text_at + 1, pattern_at as int, r is None),
        final(context).spread(
            *old(context),
            text@,
            pattern@,
            groups_of(captures),
            open_of(stack@),
        ),
        match r {
            Some((end, groups)) => match_from(
                text@,
                text_at as int,
                pattern@,
                pattern_at as int,
                groups_of(captures),
                open_of(stack@),
            ) == Some((end as int, groups_of(groups))) && text_at <= end <= text@.len()
                && captures_valid(groups, Seq::empty(), end as int),
            None => match_from(
                text@,
                text_at as int,
                pattern@,
                pattern_at as int,
                groups_of(captures),
                open_of(stack@),
            ) is None,
        },
    decreases pattern@.len() - pattern_at, text@.len() - text_at, 0int,
{
    if pattern_at >= pattern.len() {
        return Some((text_at, captures));
    }
    let ghost groups = groups_of(captures);
    let ghost open = open_of(stack@);
    let escaped: Option<u8> = if pattern[pattern_at] == 92 {
        get_byte(pattern, pattern_at + 1)
    } else {
        None
    };
    if escaped == Some(40u8) {
        let mut captures = captures;
        let mut stack = stack;
        let group: usize = group_number(pattern, pattern_at);
        captures[group] = Some((text_at, text_at));
        stack.push(group);
        assert(groups_of(captures) =~= groups.update(
            group as int,
            Some((text_at as int, text_at as int)),
        ));
        assert(open_of(stack@) =~= open.push(group as int));
        return match_pattern_captures(
            text,
            text_at,
            pattern,
            pattern_at + 2,
            captures,
            stack,
            context,
        );
    }
    if escaped == Some(41u8) {
        let mut captures = captures;
        let mut stack = stack;
        let ghost full = stack@;
        if let Some(group) = stack.pop() {
            assert(group == full[full.len() - 1]);
            assert(open.last() == group as int);
            if let Some((start, _)) = captures[group] {
                captures[group] = Some((start, text_at));
                assert(groups_of(captures) =~= groups.update(
                    group as int,
                    Some((start as int, text_at as int)),
                ));
            }
            assert(groups_of(captures) =~= close_group(groups, open, text_at as int));
            assert(open_of(stack@) =~= open.drop_last());
        }
        assert(open_of(stack@) =~= pop_group(open));
        return match_pattern_captures(
            text,
            text_at,
            pattern,
            pattern_at + 2,
            captures,
            stack,
            context,
        );
    }
    if let Some(digit) = escaped {
        if is_digit(digit) {
            let group: usize = (digit - 48) as usize;
            match captures[group] {
                None => {
                    assert(groups[group as int] is None);
                    return None;
                },
                Some((start, end)) => {
                    assert(groups[group as int] == Some((start as int, end as int)));
                    let captured = crate::bytes::copy_range(text, start, end);
                    if has_at(text, text_at, &captured) {
                        let length: usize = captured.len();
                        let total: usize = text.len();
                        assert(text_at + length <= total);
                        return match_pattern_captures(
                            text,
                            text_at + length,
                            pattern,
                            pattern_at + 2,
                            captures,
                            stack,
                            context,
                        );
                    }
                    return None;
                },
            }
        }
    }
    if pattern[pattern_at] == 94 {
        if text_at == 0 {
            return match_pattern_captures(
                text,
                text_at,
                pattern,
                pattern_at + 1,
                captures,
                stack,
                context,
            );
        }
        return None;
    }
    if pattern[pattern_at] == 36 && pattern_at + 1 == pattern.len() {
        if text_at == text.len() {
            return Some((text_at, captures));
        }
        return None;
    }
    proof {
        lemma_token_next(pattern@, pattern_at as int);
    }
    let (token, next) = match pattern_token(pattern, pattern_at) {
        Some(found) => found,
        None => {
            return None;
        },
    };
    let here: bool = text_at < text.len() && token_matches(&token, text[text_at]);
    if get_byte(pattern, next) == Some(42u8) {
        if here {
            let longer = match_pattern_captures(
                text,
                text_at + 1,
                pattern,
                pattern_at,
                captures,
                copy_sizes(&stack),
                context,
            );
            if longer.is_some() {
                return longer;
            }
        }
        return match_pattern_captures(text, text_at, pattern, next + 1, captures, stack, context);
    }
    if here {
        match_pattern_captures(text, text_at + 1, pattern, next, captures, stack, context)
    } else {
        None
    }
}

/// No group has captured anything.
pub fn no_captures() -> (r: Captures)
    ensures
        groups_of(r) == no_groups(),
        forall|at: int| captures_valid(r, Seq::empty(), at),
{
    let r: Captures = [None, None, None, None, None, None, None, None, None, None];
    assert(groups_of(r) =~= no_groups());
    r
}

/// Matches the whole pattern against the text from `text_at` on.
pub fn match_pattern_at(
    text: &[u8],
    text_at: usize,
    pattern: &[u8],
    context: &mut MatchContext,
) -> (r: Option<(usize, Captures)>)
    requires
        text_at <= text@.len(),
        old(context).sound(text@, pattern@),
        old(context).orderly(),
    ensures
        final(context).sound(text@, pattern@),
        final(context).orderly(),
        final(context).grown(*old(context), text_at as int, 0, r is None),
        final(context).spread(*old(context), text@, pattern@, no_groups(), Seq::empty()),
        match r {
            Some((end, groups)) => match_at(text@, text_at as int, pattern@) == Some(
                (end as int, groups_of(groups)),
            ) && text_at <= end <= text@.len() && captures_valid(groups, Seq::empty(), end as int),
            None => match_at(text@, text_at as int, pattern@) is None,
        },
{
    let stack: Vec<usize> = Vec::new();
    assert(open_of(stack@) =~= Seq::<int>::empty());
    match_pattern_captures(text, text_at, pattern, 0, no_captures(), stack, context)
}

/// The first place at or behind `from` where the pattern matches.
pub fn find_pattern(text: &[u8], pattern: &[u8], from: usize) -> (r: Option<usize>)
    ensures
        match r {
            Some(start) => pattern_found(text@, pattern@, from as int) == Some(start as int)
                && start <= text@.len(),
            None => pattern_found(text@, pattern@, from as int) is None,
        },
{
    if pattern.len() == 0 {
        return Some(crate::bytes::min_of(from, text.len()));
    }
    let mut context = MatchContext::new(pattern);
    if pattern[0] == 94 {
        let start: usize = crate::bytes::min_of(from, 1);
        reveal_with_fuel(first_match, 2);
        if start > text.len() {
            assert(match_at(text@, 1, pattern@) is None);
            return None;
        }
        return match match_pattern_at(text, start, pattern, &mut context) {
            Some(_) => Some(start),
            None => None,
        };
    }
    let end: usize = text.len();
    let begin: usize = crate::bytes::min_of(from, end);
    let mut start: usize = begin;
    loop
        invariant
            begin <= start <= end,
            end == text@.len(),
            context.sound(text@, pattern@),
            context.orderly(),
            first_match(text@, pattern@, begin as int, end as int) == first_match(
                text@,
                pattern@,
                start as int,
                end as int,
            ),
            pattern_found(text@, pattern@, from as int) == first_match(
                text@,
                pattern@,
                begin as int,
                end as int,
            ),
        decreases end - start,
    {
        if match_pattern_at(text, start, pattern, &mut context).is_some() {
            return Some(start);
        }
        if start == end {
            assert(first_match(text@, pattern@, end + 1, end as int) is None);
            return None;
        }
        start += 1;
    }
}

/// The last place at or before `before` where the pattern matches.
pub fn find_pattern_before(text: &[u8], pattern: &[u8], before: usize) -> (r: Option<usize>)
    ensures
        match r {
            Some(start) => pattern_found_before(text@, pattern@, before as int) == Some(
                start as int,
            ) && start <= text@.len(),
            None => pattern_found_before(text@, pattern@, before as int) is None,
        },
{
    let mut context = MatchContext::new(pattern);
    let begin: usize = crate::bytes::min_of(before, text.len());
    let mut start: usize = begin;
    loop
        invariant
            start <= begin <= text@.len(),
            context.sound(text@, pattern@),
            context.orderly(),
            pattern_found_before(text@, pattern@, before as int) == last_match(
                text@,
                pattern@,
                start as int,
            ),
        decreases start,
    {
        if match_pattern_at(text, start, pattern, &mut context).is_some() {
            return Some(start);
        }
        if start == 0 {
            assert(last_match(text@, pattern@, -1) is None);
            return None;
        }
        start -= 1;
    }
}

/// The bytes with their ASCII letters in lower case.
pub fn fold_ascii(bytes: &[u8]) -> (r: Vec<u8>)
    ensures
        r@ == folded(bytes@),
{
    let mut r: Vec<u8> = Vec::new();
    let mut i: usize = 0;
    while i < bytes.len()
        invariant
            i <= bytes@.len(),
            r@ == folded(bytes@.subrange(0, i as int)),
        decreases bytes@.len() - i,
    {
        r.push(to_lower(bytes[i]));
        i += 1;
        assert(r@ =~= folded(bytes@.subrange(0, i as int)));
    }
    assert(r@ =~= folded(bytes@));
    r
}

/// The bytes as they are compared: folded where case is to be ignored.
pub fn cased_bytes(bytes: &[u8], ignorecase: bool) -> (r: Vec<u8>)
    ensures
        r@ == cased(bytes@, ignorecase),
{
    if ignorecase {
        fold_ascii(bytes)
    } else {
        copy_bytes(bytes)
    }
}

/// `find_pattern`, ignoring case where asked to.
pub fn find_pattern_case(text: &[u8], pattern: &[u8], from: usize, ignorecase: bool) -> (r: Option<
    usize,
>)
    ensures
        match r {
            Some(start) => pattern_found(
                cased(text@, ignorecase),
                cased(pattern@, ignorecase),
                from as int,
            ) == Some(start as int) && start <= text@.len(),
            None => pattern_found(
                cased(text@, ignorecase),
                cased(pattern@, ignorecase),
                from as int,
            ) is None,
        },
{
    if ignorecase {
        find_pattern(&fold_ascii(text), &fold_ascii(pattern), from)
    } else {
        find_pattern(text, pattern, from)
    }
}

/// `find_pattern_before`, ignoring case where asked to.
pub fn find_pattern_before_case(
    text: &[u8],
    pattern: &[u8],
    before: usize,
    ignorecase: bool,
) -> (r: Option<usize>)
    ensures
        match r {
            Some(start) => pattern_found_before(
                cased(text@, ignorecase),
                cased(pattern@, ignorecase),
                before as int,
            ) == Some(start as int) && start <= text@.len(),
            None => pattern_found_before(
                cased(text@, ignorecase),
                cased(pattern@, ignorecase),
                before as int,
            ) is None,
        },
{
    if ignorecase {
        find_pattern_before(&fold_ascii(text), &fold_ascii(pattern), before)
    } else {
        find_pattern_before(text, pattern, before)
    }
}

/// The place behind the bracket that closes a class, searched from `index` on.
pub open spec fn class_close(pattern: Seq<u8>, index: int) -> Option<int>
    decreases pattern.len() - index,
{
    if index < 0 || index >= pattern.len() {
        None
    } else if pattern[index] == 92 {
        if index + 1 < pattern.len() {
            class_close(pattern, index + 2)
        } else {
            None
        }
    } else if pattern[index] == 93 {
        Some(index + 1)
    } else {
        class_close(pattern, index + 1)
    }
}

/// What is wrong with a pattern from `index` on, with `groups` groups open there.
pub open spec fn error_from(pattern: Seq<u8>, index: int, groups: int) -> Option<Seq<char>>
    decreases pattern.len() - index,
{
    if index < 0 || index >= pattern.len() {
        if groups == 0 {
            None
        } else {
            Some("Unmatched ( or \\("@)
        }
    } else if pattern[index] == 92 {
        if index + 1 >= pattern.len() {
            Some("Trailing backslash"@)
        } else if pattern[index + 1] == 40 {
            error_from(pattern, index + 2, groups + 1)
        } else if pattern[index + 1] == 41 {
            if groups == 0 {
                Some("Unmatched ) or \\)"@)
            } else {
                error_from(pattern, index + 2, groups - 1)
            }
        } else {
            error_from(pattern, index + 2, groups)
        }
    } else if pattern[index] == 91 {
        match class_close(pattern, index + 1) {
            Some(next) => if index < next <= pattern.len() {
                error_from(pattern, next, groups)
            } else {
                None
            },
            None => Some("Unmatched [, [^, [:, [., or [="@),
        }
    } else {
        error_from(pattern, index + 1, groups)
    }
}

/// What is wrong with a pattern, if anything is.
pub open spec fn error_of(pattern: Seq<u8>) -> Option<Seq<char>> {
    if pattern == seq![91u8] {
        Some("Invalid regular expression"@)
    } else {
        error_from(pattern, 0, 0)
    }
}

fn close_of_class(pattern: &[u8], start: usize) -> (r: Option<usize>)
    requires
        start <= pattern@.len(),
    ensures
        match r {
            Some(next) => class_close(pattern@, start as int) == Some(next as int) && start < next
                <= pattern@.len(),
            None => class_close(pattern@, start as int) is None,
        },
{
    let mut index: usize = start;
    while index < pattern.len()
        invariant
            start <= index <= pattern@.len(),
            class_close(pattern@, index as int) == class_close(pattern@, start as int),
        decreases pattern@.len() - index,
    {
        if pattern[index] == 92 {
            if index + 1 == pattern.len() {
                return None;
            }
            index += 2;
        } else if pattern[index] == 93 {
            return Some(index + 1);
        } else {
            index += 1;
        }
    }
    None
}

/// What is wrong with the pattern, if anything is.
pub fn pattern_error(pattern: &[u8]) -> (r: Option<&'static str>)
    ensures
        match r {
            Some(message) => error_of(pattern@) == Some(message@),
            None => error_of(pattern@) is None,
        },
{
    if pattern.len() == 1 && pattern[0] == 91 {
        assert(pattern@ =~= seq![91u8]);
        return Some("Invalid regular expression");
    }
    assert(pattern@ != seq![91u8]) by {
        if pattern@ == seq![91u8] {
            assert(pattern@.len() == 1 && pattern@[0] == 91);
        }
    }
    let mut groups: usize = 0;
    let mut index: usize = 0;
    while index < pattern.len()
        invariant
            index <= pattern@.len(),
            groups <= index,
            error_of(pattern@) == error_from(pattern@, index as int, groups as int),
        decreases pattern@.len() - index,
    {
        let byte: u8 = pattern[index];
        if byte == 92 {
            if index + 1 == pattern.len() {
                return Some("Trailing backslash");
            }
            let next: u8 = pattern[index + 1];
            if next == 40 {
                groups += 1;
            } else if next == 41 {
                if groups == 0 {
                    return Some("Unmatched ) or \\)");
                }
                groups -= 1;
            }
            index += 2;
        } else if byte == 91 {
            match close_of_class(pattern, index + 1) {
                Some(next) => {
                    index = next;
                },
                None => {
                    return Some("Unmatched [, [^, [:, [., or [=");
                },
            }
        } else {
            index += 1;
        }
    }
    if groups == 0 {
        None
    } else {
        Some("Unmatched ( or \\(")
    }
}

/// Whether nothing is wrong with the pattern.
pub fn pattern_is_valid(pattern: &[u8]) -> (r: bool)
    ensures
        r == (error_of(pattern@) is None),
{
    pattern_error(pattern).is_none()
}

} // verus!
