//! Rewriting the `"version"` field of a JSON package manifest.
//!
//! The document is checked against JSON's grammar (its top level must be an
//! object), stripped of the white space between tokens, given the new version
//! in its top-level `"version"` member, and laid out again with two spaces of
//! indentation per level and one trailing newline. Everything else, members
//! and their order included, passes through byte for byte.
use vstd::prelude::*;
use crate::version::{Version, dotted};

verus! {

/// `"`
pub const QUOTE: u8 = 34;

/// A backslash.
pub const BACKSLASH: u8 = 92;

/// `{`
pub const OPEN_BRACE: u8 = 123;

/// `}`
pub const CLOSE_BRACE: u8 = 125;

/// `[`
pub const OPEN_BRACKET: u8 = 91;

/// `]`
pub const CLOSE_BRACKET: u8 = 93;

/// `,`
pub const COMMA: u8 = 44;

/// `:`
pub const COLON: u8 = 58;

/// A space.
pub const SPACE: u8 = 32;

/// A line feed.
pub const NEWLINE: u8 = 10;

/// The white space that JSON allows between tokens.
pub open spec fn is_ws(b: u8) -> bool {
    b == SPACE || b == 9 || b == NEWLINE || b == 13
}

/// An ASCII decimal digit.
pub open spec fn is_dec(b: u8) -> bool {
    48 <= b && b <= 57
}

/// An ASCII hexadecimal digit.
pub open spec fn is_hex(b: u8) -> bool {
    is_dec(b) || (97 <= b && b <= 102) || (65 <= b && b <= 70)
}

/// The bytes of the literal words `true`, `false` and `null`.
pub open spec fn word(w: u8) -> Seq<u8> {
    if w == 0 {
        seq![116u8, 114u8, 117u8, 101u8]
    } else if w == 1 {
        seq![102u8, 97u8, 108u8, 115u8, 101u8]
    } else {
        seq![110u8, 117u8, 108u8, 108u8]
    }
}

/// Where a JSON checker stands after the bytes read so far.
#[derive(Debug, Copy, Clone, PartialEq, Eq, Structural)]
pub enum Mode {
    /// Before the opening `{` of the document.
    Start,
    /// A value must come.
    Value,
    /// A value or `]` must come, just after `[`.
    ValueOrClose,
    /// A member name must come.
    Key,
    /// A member name or `}` must come, just after `{`.
    KeyOrClose,
    /// `:` must come, after a member name.
    Colon,
    /// A value has ended: `,` or a closing bracket must come.
    AfterValue,
    /// Inside a string; `key` tells a member name from a value.
    Str { key: bool },
    /// Just after a backslash inside a string.
    Escape { key: bool },
    /// Inside a `\u` escape, with `left` hex digits still to come.
    Hex { key: bool, left: u8 },
    /// Inside a number, in the given state of its automaton.
    Num { state: u8 },
    /// Inside a literal word, `pos` of its bytes read.
    Word { which: u8, pos: u8 },
    /// The document's object is closed: only white space may follow.
    Done,
    /// The bytes are not JSON.
    Fail,
}

/// The number grammar `-?(0|[1-9][0-9]*)(\.[0-9]+)?([eE][+-]?[0-9]+)?` as an
/// automaton: the state after reading `b` in `state`, or 0 where `b` cannot
/// continue the number.
pub open spec fn num_next(state: u8, b: u8) -> u8 {
    if state == 1 {
        if b == 48 {
            2
        } else if is_dec(b) {
            3
        } else {
            0
        }
    } else if state == 2 {
        if b == 46 {
            4
        } else if b == 101 || b == 69 {
            6
        } else {
            0
        }
    } else if state == 3 {
        if is_dec(b) {
            3
        } else if b == 46 {
            4
        } else if b == 101 || b == 69 {
            6
        } else {
            0
        }
    } else if state == 4 || state == 5 {
        if is_dec(b) {
            5
        } else if state == 5 && (b == 101 || b == 69) {
            6
        } else {
            0
        }
    } else if state == 6 {
        if b == 43 || b == 45 {
            7
        } else if is_dec(b) {
            8
        } else {
            0
        }
    } else if state == 7 || state == 8 {
        if is_dec(b) {
            8
        } else {
            0
        }
    } else {
        0
    }
}

/// The states in which a number may end.
pub open spec fn num_complete(state: u8) -> bool {
    state == 2 || state == 3 || state == 5 || state == 8
}

/// Closing the innermost open container with `b`.
pub open spec fn close_step(stack: Seq<u8>, b: u8) -> (Mode, Seq<u8>) {
    if stack.len() > 0 && ((stack.last() == OPEN_BRACE && b == CLOSE_BRACE) || (stack.last()
        == OPEN_BRACKET && b == CLOSE_BRACKET)) {
        if stack.len() == 1 {
            (Mode::Done, stack.drop_last())
        } else {
            (Mode::AfterValue, stack.drop_last())
        }
    } else {
        (Mode::Fail, stack)
    }
}

/// Reading `b` after a complete value.
pub open spec fn after_value_step(stack: Seq<u8>, b: u8) -> (Mode, Seq<u8>) {
    if is_ws(b) {
        (Mode::AfterValue, stack)
    } else if b == COMMA && stack.len() > 0 {
        if stack.last() == OPEN_BRACE {
            (Mode::Key, stack)
        } else {
            (Mode::Value, stack)
        }
    } else if b == CLOSE_BRACE || b == CLOSE_BRACKET {
        close_step(stack, b)
    } else {
        (Mode::Fail, stack)
    }
}

/// Reading the first byte `b` of a value.
pub open spec fn value_step(stack: Seq<u8>, b: u8) -> (Mode, Seq<u8>) {
    if b == OPEN_BRACE {
        (Mode::KeyOrClose, stack.push(OPEN_BRACE))
    } else if b == OPEN_BRACKET {
        (Mode::ValueOrClose, stack.push(OPEN_BRACKET))
    } else if b == QUOTE {
        (Mode::Str { key: false }, stack)
    } else if b == 45 {
        (Mode::Num { state: 1 }, stack)
    } else if b == 48 {
        (Mode::Num { state: 2 }, stack)
    } else if is_dec(b) {
        (Mode::Num { state: 3 }, stack)
    } else if b == 116 {
        (Mode::Word { which: 0, pos: 1 }, stack)
    } else if b == 102 {
        (Mode::Word { which: 1, pos: 1 }, stack)
    } else if b == 110 {
        (Mode::Word { which: 2, pos: 1 }, stack)
    } else {
        (Mode::Fail, stack)
    }
}

/// One byte of JSON's grammar: the mode and the stack of open containers
/// after reading `b`.
pub open spec fn check_step(mode: Mode, stack: Seq<u8>, b: u8) -> (Mode, Seq<u8>) {
    match mode {
        Mode::Fail => (Mode::Fail, stack),
        Mode::Done => if is_ws(b) {
            (Mode::Done, stack)
        } else {
            (Mode::Fail, stack)
        },
        Mode::Start => if is_ws(b) {
            (Mode::Start, stack)
        } else if b == OPEN_BRACE {
            (Mode::KeyOrClose, stack.push(OPEN_BRACE))
        } else {
            (Mode::Fail, stack)
        },
        Mode::Str { key } => if b == QUOTE {
            if key {
                (Mode::Colon, stack)
            } else {
                (Mode::AfterValue, stack)
            }
        } else if b == BACKSLASH {
            (Mode::Escape { key }, stack)
        } else if b < 32 {
            (Mode::Fail, stack)
        } else {
            (Mode::Str { key }, stack)
        },
        Mode::Escape { key } => if b == QUOTE || b == BACKSLASH || b == 47 || b == 98 || b == 102
            || b == 110 || b == 114 || b == 116 {
            (Mode::Str { key }, stack)
        } else if b == 117 {
            (Mode::Hex { key, left: 4 }, stack)
        } else {
            (Mode::Fail, stack)
        },
        Mode::Hex { key, left } => if is_hex(b) {
            if left <= 1 {
                (Mode::Str { key }, stack)
            } else {
                (Mode::Hex { key, left: (left - 1) as u8 }, stack)
            }
        } else {
            (Mode::Fail, stack)
        },
        Mode::Num { state } => if num_next(state, b) != 0 {
            (Mode::Num { state: num_next(state, b) }, stack)
        } else if num_complete(state) {
            after_value_step(stack, b)
        } else {
            (Mode::Fail, stack)
        },
        Mode::Word { which, pos } => if pos < word(which).len() {
            if b == word(which)[pos as int] {
                (Mode::Word { which, pos: (pos + 1) as u8 }, stack)
            } else {
                (Mode::Fail, stack)
            }
        } else {
            after_value_step(stack, b)
        },
        Mode::Key | Mode::KeyOrClose => if is_ws(b) {
            (mode, stack)
        } else if b == QUOTE {
            (Mode::Str { key: true }, stack)
        } else if b == CLOSE_BRACE && mode == Mode::KeyOrClose {
            close_step(stack, b)
        } else {
            (Mode::Fail, stack)
        },
        Mode::Colon => if is_ws(b) {
            (Mode::Colon, stack)
        } else if b == COLON {
            (Mode::Value, stack)
        } else {
            (Mode::Fail, stack)
        },
        Mode::Value | Mode::ValueOrClose => if is_ws(b) {
            (mode, stack)
        } else if b == CLOSE_BRACKET && mode == Mode::ValueOrClose {
            close_step(stack, b)
        } else {
            value_step(stack, b)
        },
        Mode::AfterValue => after_value_step(stack, b),
    }
}

/// The checker's mode and stack after reading `s` from `mode` and `stack`.
pub open spec fn check_from(mode: Mode, stack: Seq<u8>, s: Seq<u8>) -> (Mode, Seq<u8>)
    decreases s.len(),
{
    if s.len() == 0 {
        (mode, stack)
    } else {
        let (m, k) = check_from(mode, stack, s.drop_last());
        check_step(m, k, s.last())
    }
}

/// The checker's mode and stack after reading all of `s`.
pub open spec fn check_run(s: Seq<u8>) -> (Mode, Seq<u8>) {
    check_from(Mode::Start, Seq::<u8>::empty(), s)
}

/// A JSON document whose top level is an object, with white space around it.
pub open spec fn is_manifest(s: Seq<u8>) -> bool {
    check_run(s).0 == Mode::Done
}

fn ws_byte(b: u8) -> (r: bool)
    ensures
        r == is_ws(b),
{
    b == SPACE || b == 9 || b == NEWLINE || b == 13
}

fn dec_byte(b: u8) -> (r: bool)
    ensures
        r == is_dec(b),
{
    48 <= b && b <= 57
}

fn hex_byte(b: u8) -> (r: bool)
    ensures
        r == is_hex(b),
{
    dec_byte(b) || (97 <= b && b <= 102) || (65 <= b && b <= 70)
}

fn word_len(w: u8) -> (r: u8)
    ensures
        r as int == word(w).len(),
{
    if w == 1 {
        5
    } else {
        4
    }
}

fn word_byte(w: u8, pos: u8) -> (r: u8)
    requires
        pos < word(w).len(),
    ensures
        r == word(w)[pos as int],
{
    if w == 0 {
        if pos == 0 {
            116
        } else if pos == 1 {
            114
        } else if pos == 2 {
            117
        } else {
            101
        }
    } else if w == 1 {
        if pos == 0 {
            102
        } else if pos == 1 {
            97
        } else if pos == 2 {
            108
        } else if pos == 3 {
            115
        } else {
            101
        }
    } else {
        if pos == 0 {
            110
        } else if pos == 1 {
            117
        } else {
            108
        }
    }
}

fn next_in_number(state: u8, b: u8) -> (r: u8)
    ensures
        r == num_next(state, b),
{
    if state == 1 {
        if b == 48 {
            2
        } else if dec_byte(b) {
            3
        } else {
            0
        }
    } else if state == 2 {
        if b == 46 {
            4
        } else if b == 101 || b == 69 {
            6
        } else {
            0
        }
    } else if state == 3 {
        if dec_byte(b) {
            3
        } else if b == 46 {
            4
        } else if b == 101 || b == 69 {
            6
        } else {
            0
        }
    } else if state == 4 || state == 5 {
        if dec_byte(b) {
            5
        } else if state == 5 && (b == 101 || b == 69) {
            6
        } else {
            0
        }
    } else if state == 6 {
        if b == 43 || b == 45 {
            7
        } else if dec_byte(b) {
            8
        } else {
            0
        }
    } else if state == 7 || state == 8 {
        if dec_byte(b) {
            8
        } else {
            0
        }
    } else {
        0
    }
}

fn close_container(stack: &mut Vec<u8>, b: u8) -> (r: Mode)
    ensures
        (r, final(stack)@) == close_step(old(stack)@, b),
{
    let n = stack.len();
    if n > 0 && ((stack[n - 1] == OPEN_BRACE && b == CLOSE_BRACE) || (stack[n - 1] == OPEN_BRACKET
        && b == CLOSE_BRACKET)) {
        stack.pop();
        if n == 1 {
            Mode::Done
        } else {
            Mode::AfterValue
        }
    } else {
        Mode::Fail
    }
}

fn after_value(stack: &mut Vec<u8>, b: u8) -> (r: Mode)
    ensures
        (r, final(stack)@) == after_value_step(old(stack)@, b),
{
    if ws_byte(b) {
        Mode::AfterValue
    } else if b == COMMA && stack.len() > 0 {
        if stack[stack.len() - 1] == OPEN_BRACE {
            Mode::Key
        } else {
            Mode::Value
        }
    } else if b == CLOSE_BRACE || b == CLOSE_BRACKET {
        close_container(stack, b)
    } else {
        Mode::Fail
    }
}

fn begin_value(stack: &mut Vec<u8>, b: u8) -> (r: Mode)
    ensures
        (r, final(stack)@) == value_step(old(stack)@, b),
{
    if b == OPEN_BRACE {
        stack.push(OPEN_BRACE);
        Mode::KeyOrClose
    } else if b == OPEN_BRACKET {
        stack.push(OPEN_BRACKET);
        Mode::ValueOrClose
    } else if b == QUOTE {
        Mode::Str { key: false }
    } else if b == 45 {
        Mode::Num { state: 1 }
    } else if b == 48 {
        Mode::Num { state: 2 }
    } else if dec_byte(b) {
        Mode::Num { state: 3 }
    } else if b == 116 {
        Mode::Word { which: 0, pos: 1 }
    } else if b == 102 {
        Mode::Word { which: 1, pos: 1 }
    } else if b == 110 {
        Mode::Word { which: 2, pos: 1 }
    } else {
        Mode::Fail
    }
}

/// Reads one byte of a document: the checker's next mode, with `stack`
/// updated to the containers then open.
pub fn check_byte(mode: Mode, stack: &mut Vec<u8>, b: u8) -> (r: Mode)
    ensures
        (r, final(stack)@) == check_step(mode, old(stack)@, b),
{
    match mode {
        Mode::Fail => Mode::Fail,
        Mode::Done => if ws_byte(b) {
            Mode::Done
        } else {
            Mode::Fail
        },
        Mode::Start => if ws_byte(b) {
            Mode::Start
        } else if b == OPEN_BRACE {
            stack.push(OPEN_BRACE);
            Mode::KeyOrClose
        } else {
            Mode::Fail
        },
        Mode::Str { key } => if b == QUOTE {
            if key {
                Mode::Colon
            } else {
                Mode::AfterValue
            }
        } else if b == BACKSLASH {
            Mode::Escape { key }
        } else if b < 32 {
            Mode::Fail
        } else {
            Mode::Str { key }
        },
        Mode::Escape { key } => if b == QUOTE || b == BACKSLASH || b == 47 || b == 98 || b == 102
            || b == 110 || b == 114 || b == 116 {
            Mode::Str { key }
        } else if b == 117 {
            Mode::Hex { key, left: 4 }
        } else {
            Mode::Fail
        },
        Mode::Hex { key, left } => if hex_byte(b) {
            if left <= 1 {
                Mode::Str { key }
            } else {
                Mode::Hex { key, left: left - 1 }
            }
        } else {
            Mode::Fail
        },
        Mode::Num { state } => {
            let next = next_in_number(state, b);
            if next != 0 {
                Mode::Num { state: next }
            } else if state == 2 || state == 3 || state == 5 || state == 8 {
                after_value(stack, b)
            } else {
                Mode::Fail
            }
        },
        Mode::Word { which, pos } => if pos < word_len(which) {
            if b == word_byte(which, pos) {
                Mode::Word { which, pos: pos + 1 }
            } else {
                Mode::Fail
            }
        } else {
            after_value(stack, b)
        },
        Mode::Key | Mode::KeyOrClose => if ws_byte(b) {
            mode
        } else if b == QUOTE {
            Mode::Str { key: true }
        } else if b == CLOSE_BRACE && mode == Mode::KeyOrClose {
            close_container(stack, b)
        } else {
            Mode::Fail
        },
        Mode::Colon => if ws_byte(b) {
            Mode::Colon
        } else if b == COLON {
            Mode::Value
        } else {
            Mode::Fail
        },
        Mode::Value | Mode::ValueOrClose => if ws_byte(b) {
            mode
        } else if b == CLOSE_BRACKET && mode == Mode::ValueOrClose {
            close_container(stack, b)
        } else {
            begin_value(stack, b)
        },
        Mode::AfterValue => after_value(stack, b),
    }
}

/// Whether `doc` is a JSON document whose top level is an object.
pub fn check_manifest(doc: &Vec<u8>) -> (r: bool)
    ensures
        r == is_manifest(doc@),
{
    let mut mode = Mode::Start;
    let mut stack: Vec<u8> = Vec::new();
    let mut i: usize = 0;
    while i < doc.len()
        invariant
            i <= doc@.len(),
            (mode, stack@) == check_run(doc@.take(i as int)),
        decreases doc@.len() - i,
    {
        proof {
            assert(doc@.take(i + 1).drop_last() =~= doc@.take(i as int));
        }
        mode = check_byte(mode, &mut stack, doc[i]);
        i = i + 1;
    }
    proof {
        assert(doc@.take(i as int) =~= doc@);
    }
    mode == Mode::Done
}

/// Whether the bytes read so far leave us inside a string, and just after a
/// backslash there.
#[derive(Debug, Copy, Clone, PartialEq, Eq, Structural)]
pub struct Scan {
    pub in_str: bool,
    pub esc: bool,
}

pub open spec fn scan_start() -> Scan {
    Scan { in_str: false, esc: false }
}

/// The string state after reading `b`.
pub open spec fn scan_step(st: Scan, b: u8) -> Scan {
    if st.in_str {
        if st.esc {
            Scan { in_str: true, esc: false }
        } else if b == BACKSLASH {
            Scan { in_str: true, esc: true }
        } else if b == QUOTE {
            Scan { in_str: false, esc: false }
        } else {
            st
        }
    } else if b == QUOTE {
        Scan { in_str: true, esc: false }
    } else {
        st
    }
}

/// The nesting depth after reading `b`; `outside` says that `b` stands
/// outside any string.
pub open spec fn depth_step(depth: u64, outside: bool, b: u8) -> u64 {
    if outside && (b == OPEN_BRACE || b == OPEN_BRACKET) {
        if depth < u64::MAX {
            (depth + 1) as u64
        } else {
            depth
        }
    } else if outside && (b == CLOSE_BRACE || b == CLOSE_BRACKET) {
        if depth > 0 {
            (depth - 1) as u64
        } else {
            0
        }
    } else {
        depth
    }
}

/// `s` read from the string state `st`: the bytes that stay once the white
/// space outside strings is dropped, with the string state at the end.
pub open spec fn compact_from(st: Scan, s: Seq<u8>) -> (Scan, Seq<u8>)
    decreases s.len(),
{
    if s.len() == 0 {
        (st, Seq::<u8>::empty())
    } else {
        let (mid, out) = compact_from(st, s.drop_last());
        let b = s.last();
        (scan_step(mid, b), if !mid.in_str && is_ws(b) {
            out
        } else {
            out.push(b)
        })
    }
}

/// `s` without the white space that stands outside strings, with the string
/// state at its end.
pub open spec fn compact_run(s: Seq<u8>) -> (Scan, Seq<u8>) {
    compact_from(scan_start(), s)
}

pub open spec fn compacted(s: Seq<u8>) -> Seq<u8> {
    compact_run(s).1
}

/// The bytes of the member name `version`.
pub open spec fn version_key() -> Seq<u8> {
    seq![118u8, 101u8, 114u8, 115u8, 105u8, 111u8, 110u8]
}

/// A JSON string holding `text`.
pub open spec fn quoted(text: Seq<u8>) -> Seq<u8> {
    seq![QUOTE] + text + seq![QUOTE]
}

/// Where the version rewriter stands at the top level of the document.
#[derive(Debug, Copy, Clone, PartialEq, Eq, Structural)]
pub enum Phase {
    /// Anywhere else.
    Other,
    /// A member name of the top-level object starts with the next byte.
    KeyStart,
    /// Inside a top-level member name: `pos` bytes of it read (at most 8
    /// counted), `same` while they agree with `version`.
    InKey { pos: u8, same: bool },
    /// A top-level member name has closed; `is_version` if it was `version`.
    AfterKey { is_version: bool },
    /// Dropping the old value of a `version` member.
    Skip,
}

/// The state of the version rewriter.
#[derive(Debug, Copy, Clone, PartialEq, Eq, Structural)]
pub struct Retag {
    pub scan: Scan,
    pub depth: u64,
    pub phase: Phase,
    /// A `version` member has been rewritten.
    pub seen: bool,
}

pub open spec fn retag_start() -> Retag {
    Retag { scan: scan_start(), depth: 0, phase: Phase::Other, seen: false }
}

/// The phase after a byte `b` that neither starts nor ends a member name:
/// a top-level name starts after the opening `{` and after each top-level `,`.
pub open spec fn plain_phase(st: Retag, b: u8) -> Phase {
    if !st.scan.in_str && ((b == OPEN_BRACE && st.depth == 0) || (b == COMMA && st.depth == 1)) {
        Phase::KeyStart
    } else {
        Phase::Other
    }
}

/// One byte of the version rewriter on compact JSON: its next state and the
/// bytes it writes. The value of each top-level `version` member becomes the
/// string `q`; where the object has no such member, one is added at its end.
pub open spec fn retag_step(st: Retag, q: Seq<u8>, b: u8) -> (Retag, Seq<u8>) {
    let outside = !st.scan.in_str;
    let next = Retag {
        scan: scan_step(st.scan, b),
        depth: depth_step(st.depth, outside, b),
        ..st
    };
    let closes_top = outside && b == CLOSE_BRACE && st.depth == 1;
    if st.phase == Phase::Skip {
        if outside && st.depth == 1 && b == COMMA {
            (Retag { phase: Phase::KeyStart, ..next }, seq![b])
        } else if closes_top {
            (Retag { phase: Phase::Other, ..next }, seq![b])
        } else {
            (next, Seq::<u8>::empty())
        }
    } else if closes_top {
        (
            Retag { phase: Phase::Other, seen: true, ..next },
            if st.seen {
                seq![b]
            } else {
                (if st.phase == Phase::KeyStart {
                    Seq::<u8>::empty()
                } else {
                    seq![COMMA]
                }) + quoted(version_key()) + seq![COLON] + q + seq![b]
            },
        )
    } else {
        match st.phase {
            Phase::KeyStart => if b == QUOTE {
                (Retag { phase: Phase::InKey { pos: 0, same: true }, ..next }, seq![b])
            } else {
                (Retag { phase: plain_phase(st, b), ..next }, seq![b])
            },
            Phase::InKey { pos, same } => if next.scan.in_str {
                (
                    Retag {
                        phase: Phase::InKey {
                            pos: if pos < 8 {
                                (pos + 1) as u8
                            } else {
                                8
                            },
                            same: same && pos < 7 && b == version_key()[pos as int],
                        },
                        ..next
                    },
                    seq![b],
                )
            } else {
                (Retag { phase: Phase::AfterKey { is_version: same && pos == 7 }, ..next }, seq![b])
            },
            Phase::AfterKey { is_version } => if is_version && b == COLON {
                (Retag { phase: Phase::Skip, seen: true, ..next }, seq![b] + q)
            } else {
                (Retag { phase: plain_phase(st, b), ..next }, seq![b])
            },
            _ => (Retag { phase: plain_phase(st, b), ..next }, seq![b]),
        }
    }
}

/// The version rewriter run over `s` from the state `st`.
pub open spec fn retag_from(st: Retag, s: Seq<u8>, q: Seq<u8>) -> (Retag, Seq<u8>)
    decreases s.len(),
{
    if s.len() == 0 {
        (st, Seq::<u8>::empty())
    } else {
        let (mid, out) = retag_from(st, s.drop_last(), q);
        let (next, e) = retag_step(mid, q, s.last());
        (next, out + e)
    }
}

pub open spec fn retag_run(s: Seq<u8>, q: Seq<u8>) -> (Retag, Seq<u8>) {
    retag_from(retag_start(), s, q)
}

/// Compact JSON with its top-level `version` set to the string `q`.
pub open spec fn retagged(s: Seq<u8>, q: Seq<u8>) -> Seq<u8> {
    retag_run(s, q).1
}

/// The state of the layout writer.
#[derive(Debug, Copy, Clone, PartialEq, Eq, Structural)]
pub struct Layout {
    pub scan: Scan,
    pub depth: u64,
    /// The last byte opened an object or an array.
    pub pending: bool,
}

pub open spec fn layout_start() -> Layout {
    Layout { scan: scan_start(), depth: 0, pending: false }
}

/// Two spaces for each level.
pub open spec fn indent(depth: u64) -> Seq<u8> {
    Seq::new(2 * depth as nat, |i: int| SPACE)
}

/// One byte of the layout writer on compact JSON: each member and element on
/// a line of its own, indented two spaces per level, `: ` after a name, and
/// empty objects and arrays kept on one line.
pub open spec fn layout_step(st: Layout, b: u8) -> (Layout, Seq<u8>) {
    let outside = !st.scan.in_str;
    let opening = outside && (b == OPEN_BRACE || b == OPEN_BRACKET);
    let closing = outside && (b == CLOSE_BRACE || b == CLOSE_BRACKET);
    let depth = depth_step(st.depth, outside, b);
    let lead = if st.pending && !closing {
        seq![NEWLINE] + indent(st.depth)
    } else {
        Seq::<u8>::empty()
    };
    let body = if closing && !st.pending {
        seq![NEWLINE] + indent(depth) + seq![b]
    } else if outside && b == COMMA {
        seq![b, NEWLINE] + indent(st.depth)
    } else if outside && b == COLON {
        seq![b, SPACE]
    } else {
        seq![b]
    };
    (Layout { scan: scan_step(st.scan, b), depth, pending: opening }, lead + body)
}

pub open spec fn layout_run(s: Seq<u8>) -> (Layout, Seq<u8>)
    decreases s.len(),
{
    if s.len() == 0 {
        (layout_start(), Seq::<u8>::empty())
    } else {
        let (st, out) = layout_run(s.drop_last());
        let (st2, e) = layout_step(st, s.last());
        (st2, out + e)
    }
}

/// Compact JSON laid out with two-space indentation.
pub open spec fn laid_out_json(s: Seq<u8>) -> Seq<u8> {
    layout_run(s).1
}

/// The manifest `doc` with its version set to `v`: compacted, given the new
/// version, laid out and ended with one newline.
pub open spec fn synchronized(doc: Seq<u8>, v: Version) -> Seq<u8> {
    laid_out_json(retagged(compacted(doc), quoted(dotted(v)))) + seq![NEWLINE]
}

/// The manifest is not a JSON document with an object at its top level.
#[derive(Debug, Copy, Clone, PartialEq, Eq, Structural)]
pub enum ManifestError {
    InvalidDocument,
}

fn scan_byte(st: Scan, b: u8) -> (r: Scan)
    ensures
        r == scan_step(st, b),
{
    if st.in_str {
        if st.esc {
            Scan { in_str: true, esc: false }
        } else if b == BACKSLASH {
            Scan { in_str: true, esc: true }
        } else if b == QUOTE {
            Scan { in_str: false, esc: false }
        } else {
            st
        }
    } else if b == QUOTE {
        Scan { in_str: true, esc: false }
    } else {
        st
    }
}

fn depth_byte(depth: u64, outside: bool, b: u8) -> (r: u64)
    ensures
        r == depth_step(depth, outside, b),
{
    if outside && (b == OPEN_BRACE || b == OPEN_BRACKET) {
        if depth < u64::MAX {
            depth + 1
        } else {
            depth
        }
    } else if outside && (b == CLOSE_BRACE || b == CLOSE_BRACKET) {
        if depth > 0 {
            depth - 1
        } else {
            0
        }
    } else {
        depth
    }
}

/// Drops the white space that stands outside strings.
pub fn compact(doc: &Vec<u8>) -> (r: Vec<u8>)
    ensures
        r@ == compacted(doc@),
{
    let mut st = Scan { in_str: false, esc: false };
    let mut out: Vec<u8> = Vec::new();
    let mut i: usize = 0;
    while i < doc.len()
        invariant
            i <= doc@.len(),
            (st, out@) == compact_run(doc@.take(i as int)),
        decreases doc@.len() - i,
    {
        proof {
            assert(doc@.take(i + 1).drop_last() =~= doc@.take(i as int));
        }
        let b = doc[i];
        if st.in_str || !ws_byte(b) {
            out.push(b);
        }
        st = scan_byte(st, b);
        i = i + 1;
    }
    proof {
        assert(doc@.take(i as int) =~= doc@);
    }
    out
}

fn push_all(out: &mut Vec<u8>, bytes: &Vec<u8>)
    ensures
        final(out)@ == old(out)@ + bytes@,
{
    let ghost start = out@;
    let mut i: usize = 0;
    while i < bytes.len()
        invariant
            i <= bytes@.len(),
            out@ == start + bytes@.take(i as int),
        decreases bytes@.len() - i,
    {
        out.push(bytes[i]);
        proof {
            assert(bytes@.take(i + 1) =~= bytes@.take(i as int).push(bytes@[i as int]));
        }
        i = i + 1;
    }
    proof {
        assert(bytes@.take(i as int) =~= bytes@);
    }
}

fn version_key_byte(pos: u8) -> (r: u8)
    requires
        pos < 7,
    ensures
        r == version_key()[pos as int],
{
    if pos == 0 {
        118
    } else if pos == 1 {
        101
    } else if pos == 2 {
        114
    } else if pos == 3 {
        115
    } else if pos == 4 {
        105
    } else if pos == 5 {
        111
    } else {
        110
    }
}

fn push_version_member(out: &mut Vec<u8>, q: &Vec<u8>)
    ensures
        final(out)@ == old(out)@ + quoted(version_key()) + seq![COLON] + q@,
{
    out.push(QUOTE);
    let mut k: u8 = 0;
    while k < 7
        invariant
            k <= 7,
            out@ == old(out)@ + seq![QUOTE] + version_key().take(k as int),
        decreases 7 - k,
    {
        out.push(version_key_byte(k));
        proof {
            assert(version_key().take(k + 1) =~= version_key().take(k as int).push(
                version_key()[k as int],
            ));
        }
        k = k + 1;
    }
    proof {
        assert(version_key().take(7) =~= version_key());
    }
    out.push(QUOTE);
    out.push(COLON);
    push_all(out, q);
    proof {
        assert(final(out)@ =~= old(out)@ + quoted(version_key()) + seq![COLON] + q@);
    }
}

fn phase_after(st: Retag, b: u8) -> (r: Phase)
    ensures
        r == plain_phase(st, b),
{
    if !st.scan.in_str && ((b == OPEN_BRACE && st.depth == 0) || (b == COMMA && st.depth == 1)) {
        Phase::KeyStart
    } else {
        Phase::Other
    }
}

fn retag_byte(st: Retag, q: &Vec<u8>, b: u8, out: &mut Vec<u8>) -> (r: Retag)
    ensures
        r == retag_step(st, q@, b).0,
        final(out)@ == old(out)@ + retag_step(st, q@, b).1,
{
    let outside = !st.scan.in_str;
    let next = Retag {
        scan: scan_byte(st.scan, b),
        depth: depth_byte(st.depth, outside, b),
        ..st
    };
    let closes_top = outside && b == CLOSE_BRACE && st.depth == 1;
    if st.phase == Phase::Skip {
        if outside && st.depth == 1 && b == COMMA {
            out.push(b);
            Retag { phase: Phase::KeyStart, ..next }
        } else if closes_top {
            out.push(b);
            Retag { phase: Phase::Other, ..next }
        } else {
            proof {
                assert(old(out)@ + Seq::<u8>::empty() =~= old(out)@);
            }
            next
        }
    } else if closes_top {
        if !st.seen {
            if st.phase != Phase::KeyStart {
                out.push(COMMA);
            }
            push_version_member(out, q);
        }
        out.push(b);
        proof {
            assert(final(out)@ =~= old(out)@ + retag_step(st, q@, b).1);
        }
        Retag { phase: Phase::Other, seen: true, ..next }
    } else {
        match st.phase {
            Phase::KeyStart => {
                out.push(b);
                if b == QUOTE {
                    Retag { phase: Phase::InKey { pos: 0, same: true }, ..next }
                } else {
                    Retag { phase: phase_after(st, b), ..next }
                }
            },
            Phase::InKey { pos, same } => {
                out.push(b);
                if next.scan.in_str {
                    let same2 = same && pos < 7 && b == version_key_byte(pos);
                    let pos2 = if pos < 8 {
                        pos + 1
                    } else {
                        8
                    };
                    Retag { phase: Phase::InKey { pos: pos2, same: same2 }, ..next }
                } else {
                    Retag { phase: Phase::AfterKey { is_version: same && pos == 7 }, ..next }
                }
            },
            Phase::AfterKey { is_version } => {
                out.push(b);
                if is_version && b == COLON {
                    push_all(out, q);
                    proof {
                        assert(final(out)@ =~= old(out)@ + (seq![b] + q@));
                    }
                    Retag { phase: Phase::Skip, seen: true, ..next }
                } else {
                    Retag { phase: phase_after(st, b), ..next }
                }
            },
            _ => {
                out.push(b);
                Retag { phase: phase_after(st, b), ..next }
            },
        }
    }
}

/// Sets the top-level `version` of compact JSON to the string `q`.
pub fn retag(compact: &Vec<u8>, q: &Vec<u8>) -> (r: Vec<u8>)
    ensures
        r@ == retagged(compact@, q@),
{
    let mut st = Retag {
        scan: Scan { in_str: false, esc: false },
        depth: 0,
        phase: Phase::Other,
        seen: false,
    };
    let mut out: Vec<u8> = Vec::new();
    let mut i: usize = 0;
    while i < compact.len()
        invariant
            i <= compact@.len(),
            (st, out@) == retag_run(compact@.take(i as int), q@),
        decreases compact@.len() - i,
    {
        proof {
            assert(compact@.take(i + 1).drop_last() =~= compact@.take(i as int));
        }
        st = retag_byte(st, q, compact[i], &mut out);
        i = i + 1;
    }
    proof {
        assert(compact@.take(i as int) =~= compact@);
    }
    out
}

fn push_indent(out: &mut Vec<u8>, depth: u64)
    ensures
        final(out)@ == old(out)@ + indent(depth),
{
    let mut k: u64 = 0;
    while k < depth
        invariant
            k <= depth,
            out@ == old(out)@ + indent(k),
        decreases depth - k,
    {
        out.push(SPACE);
        out.push(SPACE);
        proof {
            assert(indent((k + 1) as u64) =~= indent(k) + seq![SPACE, SPACE]);
        }
        k = k + 1;
    }
}

fn layout_byte(st: Layout, b: u8, out: &mut Vec<u8>) -> (r: Layout)
    ensures
        r == layout_step(st, b).0,
        final(out)@ == old(out)@ + layout_step(st, b).1,
{
    let outside = !st.scan.in_str;
    let opening = outside && (b == OPEN_BRACE || b == OPEN_BRACKET);
    let closing = outside && (b == CLOSE_BRACE || b == CLOSE_BRACKET);
    let depth = depth_byte(st.depth, outside, b);
    if st.pending && !closing {
        out.push(NEWLINE);
        push_indent(out, st.depth);
    }
    let ghost mid = out@;
    if closing && !st.pending {
        out.push(NEWLINE);
        push_indent(out, depth);
        out.push(b);
    } else if outside && b == COMMA {
        out.push(b);
        out.push(NEWLINE);
        push_indent(out, st.depth);
    } else if outside && b == COLON {
        out.push(b);
        out.push(SPACE);
    } else {
        out.push(b);
    }
    proof {
        let e = layout_step(st, b).1;
        if st.pending && !closing {
            assert(mid =~= old(out)@ + (seq![NEWLINE] + indent(st.depth)));
        } else {
            assert(mid =~= old(out)@);
        }
        assert(final(out)@ =~= old(out)@ + e);
    }
    Layout { scan: scan_byte(st.scan, b), depth, pending: opening }
}

/// Lays out compact JSON with two-space indentation.
pub fn lay_out(compact: &Vec<u8>) -> (r: Vec<u8>)
    ensures
        r@ == laid_out_json(compact@),
{
    let mut st = Layout { scan: Scan { in_str: false, esc: false }, depth: 0, pending: false };
    let mut out: Vec<u8> = Vec::new();
    let mut i: usize = 0;
    while i < compact.len()
        invariant
            i <= compact@.len(),
            (st, out@) == layout_run(compact@.take(i as int)),
        decreases compact@.len() - i,
    {
        proof {
            assert(compact@.take(i + 1).drop_last() =~= compact@.take(i as int));
        }
        st = layout_byte(st, compact[i], &mut out);
        i = i + 1;
    }
    proof {
        assert(compact@.take(i as int) =~= compact@);
    }
    out
}

/// Sets the `"version"` of a package manifest to `version`. The result is
/// the document laid out with two-space indentation and one trailing
/// newline, every other member kept in its place; a document that is not a
/// JSON object is refused.
pub fn synchronize_manifest(doc: &Vec<u8>, version: &Version) -> (r: Result<
    Vec<u8>,
    ManifestError,
>)
    ensures
        r is Ok <==> is_manifest(doc@),
        r matches Ok(out) ==> out@ == synchronized(doc@, *version),
{
    if !check_manifest(doc) {
        return Err(ManifestError::InvalidDocument);
    }
    let mut q: Vec<u8> = Vec::new();
    q.push(QUOTE);
    push_all(&mut q, &version.dotted_bytes());
    q.push(QUOTE);
    proof {
        assert(q@ =~= quoted(dotted(*version)));
    }
    let mut out = lay_out(&retag(&compact(doc), &q));
    out.push(NEWLINE);
    Ok(out)
}

} // verus!
