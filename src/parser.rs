//! The package-operation line grammar and the log scanner.
//!
//! A record line reads `[<stamp>] [ALPM] <action> <name>...`, where the stamp
//! is a run of digits and `T:+-`, the action is one of `installed`,
//! `upgraded` or `removed`, and the name runs up to whitespace (ASCII or
//! not), an opening parenthesis or the end of the line. The record may
//! start anywhere in the line; the leftmost one counts. Lines that hold no
//! record are skipped.
use crate::event::{EventTable, EventView, PackageEvent, Status};
use crate::text::{find_byte, utf8_text};
use vstd::prelude::*;
use vstd::utf8::{decode_utf8, valid_utf8};

verus! {

/// Lines shorter than this are rejected before matching, a cheap filter:
/// the package-operation lines of the log are longer.
pub const MIN_LINE_LEN: usize = 50;

/// `'\n'`
pub const NEWLINE: u8 = 10;

/// `'['`
pub const OPEN_BRACKET: u8 = 91;

/// `'('`
pub const OPEN_PAREN: u8 = 40;

/// `]` followed by ` [ALPM] `.
pub open spec fn marker() -> Seq<u8> {
    seq![93u8, 32u8, 91u8, 65u8, 76u8, 80u8, 77u8, 93u8, 32u8]
}

/// The action keyword for a status, with the space that follows it.
pub open spec fn action_word(s: Status) -> Seq<u8> {
    match s {
        Status::Installed => seq![105u8, 110u8, 115u8, 116u8, 97u8, 108u8, 108u8, 101u8, 100u8, 32u8],
        Status::Upgraded => seq![117u8, 112u8, 103u8, 114u8, 97u8, 100u8, 101u8, 100u8, 32u8],
        Status::Removed => seq![114u8, 101u8, 109u8, 111u8, 118u8, 101u8, 100u8, 32u8],
        Status::Unknown => Seq::empty(),
    }
}

/// Digits and `T`, `:`, `+`, `-`.
pub open spec fn is_stamp_byte(b: u8) -> bool {
    (48 <= b <= 57) || b == 84 || b == 58 || b == 43 || b == 45
}

/// Tab, line feed, vertical tab, form feed, carriage return and space.
pub open spec fn is_space_byte(b: u8) -> bool {
    (9 <= b <= 13) || b == 32
}

pub open spec fn is_name_byte(b: u8) -> bool {
    !is_space_byte(b) && b != OPEN_PAREN
}

/// The end of the run of stamp bytes that starts at `j`.
pub open spec fn stamp_end(l: Seq<u8>, j: int) -> int
    decreases l.len() - j,
{
    if 0 <= j < l.len() && is_stamp_byte(l[j]) {
        stamp_end(l, j + 1)
    } else {
        j
    }
}

/// The UTF-8 encoding of a whitespace character beyond ASCII starts at `j`:
/// U+0085, U+00A0, U+1680, U+2000 to U+200A, U+2028, U+2029, U+202F,
/// U+205F or U+3000.
pub open spec fn wide_space_at(l: Seq<u8>, j: int) -> bool {
    0 <= j && ((j + 1 < l.len() && l[j] == 0xC2 && (l[j + 1] == 0x85 || l[j + 1] == 0xA0)) || (j
        + 2 < l.len() && l[j] == 0xE1 && l[j + 1] == 0x9A && l[j + 2] == 0x80) || (j + 2 < l.len()
        && l[j] == 0xE2 && l[j + 1] == 0x80 && ((0x80 <= l[j + 2] <= 0x8A) || l[j + 2] == 0xA8
        || l[j + 2] == 0xA9 || l[j + 2] == 0xAF)) || (j + 2 < l.len() && l[j] == 0xE2 && l[j + 1]
        == 0x81 && l[j + 2] == 0x9F) || (j + 2 < l.len() && l[j] == 0xE3 && l[j + 1] == 0x80 && l[j
        + 2] == 0x80))
}

/// The end of the run of name bytes that starts at `j`: it stops at
/// whitespace, ASCII or not, and at an opening parenthesis.
pub open spec fn name_end(l: Seq<u8>, j: int) -> int
    decreases l.len() - j,
{
    if 0 <= j < l.len() && is_name_byte(l[j]) && !wide_space_at(l, j) {
        name_end(l, j + 1)
    } else {
        j
    }
}

/// `w` occurs in `l` at `at`.
pub open spec fn has_at(l: Seq<u8>, at: int, w: Seq<u8>) -> bool {
    0 <= at && at + w.len() <= l.len() && l.subrange(at, at + w.len()) == w
}

pub open spec fn action_at(l: Seq<u8>, at: int) -> Option<Status> {
    if has_at(l, at, action_word(Status::Installed)) {
        Some(Status::Installed)
    } else if has_at(l, at, action_word(Status::Upgraded)) {
        Some(Status::Upgraded)
    } else if has_at(l, at, action_word(Status::Removed)) {
        Some(Status::Removed)
    } else {
        None
    }
}

/// A record that starts at `i`: the end of its stamp, its status and the
/// bounds of its name.
pub open spec fn match_at(l: Seq<u8>, i: int) -> Option<(int, Status, int, int)> {
    if 0 <= i < l.len() && l[i] == OPEN_BRACKET {
        let e = stamp_end(l, i + 1);
        if e > i + 1 && has_at(l, e, marker()) {
            match action_at(l, e + marker().len()) {
                Some(st) => {
                    let n0 = e + marker().len() + action_word(st).len();
                    let n1 = name_end(l, n0);
                    if n1 > n0 {
                        Some((e, st, n0, n1))
                    } else {
                        None
                    }
                },
                None => None,
            }
        } else {
            None
        }
    } else {
        None
    }
}

/// The leftmost record at or after `i`: its start, then as `match_at`.
pub open spec fn first_match(l: Seq<u8>, i: int) -> Option<(int, int, Status, int, int)>
    decreases l.len() - i,
{
    if i < 0 || i >= l.len() {
        None
    } else {
        match match_at(l, i) {
            Some((e, st, n0, n1)) => Some((i, e, st, n0, n1)),
            None => first_match(l, i + 1),
        }
    }
}

/// The package name and event that one line records, if it records one.
/// Short lines and lines that are not valid UTF-8 record nothing.
pub open spec fn line_event(l: Seq<u8>) -> Option<(Seq<char>, EventView)> {
    if l.len() < MIN_LINE_LEN || !valid_utf8(l) {
        None
    } else {
        match first_match(l, 0) {
            Some((i, e, st, n0, n1)) => {
                let stamp = l.subrange(i + 1, e);
                let name = l.subrange(n0, n1);
                if valid_utf8(stamp) && valid_utf8(name) {
                    Some((decode_utf8(name), (decode_utf8(stamp), st)))
                } else {
                    None
                }
            },
            None => None,
        }
    }
}

pub open spec fn apply_line(m: Map<Seq<char>, EventView>, l: Seq<u8>) -> Map<Seq<char>, EventView> {
    match line_event(l) {
        Some((name, ev)) => m.insert(name, ev),
        None => m,
    }
}

/// The position of the first newline at or after `pos`, or the length.
pub open spec fn next_newline(b: Seq<u8>, pos: int) -> int
    decreases b.len() - pos,
{
    if pos < 0 || pos >= b.len() {
        b.len() as int
    } else if b[pos] == NEWLINE {
        pos
    } else {
        next_newline(b, pos + 1)
    }
}

/// `m` updated by each newline-terminated line from `pos` on, in order. A
/// trailing segment without a newline is a record still being written and
/// is not read.
pub open spec fn events_from(b: Seq<u8>, pos: int, m: Map<Seq<char>, EventView>) -> Map<
    Seq<char>,
    EventView,
>
    decreases b.len() - pos,
{
    let e = next_newline(b, pos);
    if pos <= e < b.len() {
        events_from(b, e + 1, apply_line(m, b.subrange(pos, e)))
    } else {
        m
    }
}

/// The latest event of each package in a log, later lines winning.
pub open spec fn parsed_events(log: Seq<u8>) -> Map<Seq<char>, EventView> {
    events_from(log, 0, Map::empty())
}

pub(crate) proof fn lemma_next_newline(b: Seq<u8>, pos: int, e: int)
    requires
        0 <= pos <= e <= b.len(),
        forall|j: int| pos <= j < e ==> b[j] != NEWLINE,
        e == b.len() || b[e] == NEWLINE,
    ensures
        next_newline(b, pos) == e,
    decreases e - pos,
{
    if pos < e {
        lemma_next_newline(b, pos + 1, e);
    }
}

fn word_at(l: &[u8], at: usize, w: &[u8]) -> (r: bool)
    ensures
        r == has_at(l@, at as int, w@),
{
    if at > l.len() || l.len() - at < w.len() {
        return false;
    }
    let n = l.len();
    let mut k: usize = 0;
    while k < w.len()
        invariant
            n == l@.len(),
            at + w@.len() <= l@.len(),
            k <= w@.len(),
            forall|j: int| 0 <= j < k ==> l@[at + j] == w@[j],
        decreases w@.len() - k,
    {
        assert(at + k < l@.len());
        if l[at + k] != w[k] {
            assert(l@.subrange(at as int, at + w@.len())[k as int] != w@[k as int]);
            return false;
        }
        k = k + 1;
    }
    assert(l@.subrange(at as int, at + w@.len()) =~= w@);
    true
}

fn stamp_run_end(l: &[u8], j: usize) -> (r: usize)
    requires
        j <= l@.len(),
    ensures
        r as int == stamp_end(l@, j as int),
        j <= r <= l@.len(),
{
    let mut k = j;
    while k < l.len() && ((48 <= l[k] && l[k] <= 57) || l[k] == 84 || l[k] == 58 || l[k] == 43
        || l[k] == 45)
        invariant
            j <= k <= l@.len(),
            stamp_end(l@, k as int) == stamp_end(l@, j as int),
        decreases l@.len() - k,
    {
        k = k + 1;
    }
    k
}

fn wide_space_exec(l: &[u8], j: usize) -> (r: bool)
    ensures
        r == wide_space_at(l@, j as int),
{
    let n = l.len();
    (j < n && n - j > 1 && l[j] == 0xC2 && (l[j + 1] == 0x85 || l[j + 1] == 0xA0)) || (j < n && n
        - j > 2 && l[j] == 0xE1 && l[j + 1] == 0x9A && l[j + 2] == 0x80) || (j < n && n - j > 2
        && l[j] == 0xE2 && l[j + 1] == 0x80 && ((0x80 <= l[j + 2] && l[j + 2] <= 0x8A) || l[j + 2]
        == 0xA8 || l[j + 2] == 0xA9 || l[j + 2] == 0xAF)) || (j < n && n - j > 2 && l[j] == 0xE2
        && l[j + 1] == 0x81 && l[j + 2] == 0x9F) || (j < n && n - j > 2 && l[j] == 0xE3 && l[j + 1]
        == 0x80 && l[j + 2] == 0x80)
}

fn name_run_end(l: &[u8], j: usize) -> (r: usize)
    requires
        j <= l@.len(),
    ensures
        r as int == name_end(l@, j as int),
        j <= r <= l@.len(),
{
    let mut k = j;
    while k < l.len() && !((9 <= l[k] && l[k] <= 13) || l[k] == 32) && l[k] != OPEN_PAREN
        && !wide_space_exec(l, k)
        invariant
            j <= k <= l@.len(),
            name_end(l@, k as int) == name_end(l@, j as int),
        decreases l@.len() - k,
    {
        k = k + 1;
    }
    k
}

fn action_at_exec(l: &[u8], at: usize) -> (r: Option<Status>)
    ensures
        r == action_at(l@, at as int),
{
    let installed: [u8; 10] = [105u8, 110u8, 115u8, 116u8, 97u8, 108u8, 108u8, 101u8, 100u8, 32u8];
    let upgraded: [u8; 9] = [117u8, 112u8, 103u8, 114u8, 97u8, 100u8, 101u8, 100u8, 32u8];
    let removed: [u8; 8] = [114u8, 101u8, 109u8, 111u8, 118u8, 101u8, 100u8, 32u8];
    assert(installed@ == action_word(Status::Installed));
    assert(upgraded@ == action_word(Status::Upgraded));
    assert(removed@ == action_word(Status::Removed));
    if word_at(l, at, installed.as_slice()) {
        Some(Status::Installed)
    } else if word_at(l, at, upgraded.as_slice()) {
        Some(Status::Upgraded)
    } else if word_at(l, at, removed.as_slice()) {
        Some(Status::Removed)
    } else {
        None
    }
}

fn match_at_exec(l: &[u8], i: usize) -> (r: Option<(usize, Status, usize, usize)>)
    requires
        i < l@.len(),
    ensures
        match r {
            Some((e, st, n0, n1)) => match_at(l@, i as int) == Some(
                (e as int, st, n0 as int, n1 as int),
            ) && i + 1 < e <= n0 < n1 <= l@.len(),
            None => match_at(l@, i as int) is None,
        },
{
    if l[i] != OPEN_BRACKET {
        return None;
    }
    let e = stamp_run_end(l, i + 1);
    let mark: [u8; 9] = [93u8, 32u8, 91u8, 65u8, 76u8, 80u8, 77u8, 93u8, 32u8];
    assert(mark@ == marker());
    if e <= i + 1 || !word_at(l, e, mark.as_slice()) {
        return None;
    }
    let a = e + 9;
    match action_at_exec(l, a) {
        Some(st) => {
            let n0 = match st {
                Status::Installed => a + 10,
                Status::Upgraded => a + 9,
                _ => a + 8,
            };
            let n1 = name_run_end(l, n0);
            if n1 > n0 {
                Some((e, st, n0, n1))
            } else {
                None
            }
        },
        None => None,
    }
}

/// The name and event that one line records, if any.
pub fn parse_line(l: &[u8]) -> (r: Option<(String, PackageEvent)>)
    ensures
        match r {
            Some((name, ev)) => line_event(l@) == Some((name@, ev@)),
            None => line_event(l@) is None,
        },
{
    if l.len() < MIN_LINE_LEN {
        return None;
    }
    if utf8_text(l).is_none() {
        return None;
    }
    let mut i: usize = 0;
    while i < l.len()
        invariant
            i <= l@.len(),
            first_match(l@, i as int) == first_match(l@, 0),
            valid_utf8(l@),
            l@.len() >= MIN_LINE_LEN,
        decreases l@.len() - i,
    {
        match match_at_exec(l, i) {
            Some((e, st, n0, n1)) => {
                assert(first_match(l@, i as int) == Some((i as int, e as int, st, n0 as int, n1 as int)));
                let stamp_bytes = &l[i + 1..e];
                let name_bytes = &l[n0..n1];
                assert(stamp_bytes@ == l@.subrange(i + 1, e as int));
                assert(name_bytes@ == l@.subrange(n0 as int, n1 as int));
                let stamp = utf8_text(stamp_bytes);
                let name = utf8_text(name_bytes);
                return match (name, stamp) {
                    (Some(name), Some(stamp)) => Some((name, PackageEvent::new(stamp, st))),
                    _ => None,
                };
            },
            None => {},
        }
        i = i + 1;
    }
    None
}

/// Scans the log line by line and keeps, for each package, the event of
/// the last line that records one.
pub fn parse_log_entries(log: &[u8]) -> (r: EventTable)
    ensures
        r.wf(),
        r@ == parsed_events(log@),
{
    let mut table = EventTable::new();
    let mut pos: usize = 0;
    let mut done = false;
    while !done
        invariant
            pos <= log@.len(),
            table.wf(),
            events_from(log@, pos as int, table@) == parsed_events(log@),
            done ==> table@ == parsed_events(log@),
        decreases log@.len() - pos + if done { 0int } else { 1int },
    {
        let rest = &log[pos..log.len()];
        match find_byte(NEWLINE, rest) {
            Some(k) => {
                let end = pos + k;
                proof {
                    assert forall|j: int| pos <= j < end implies log@[j] != NEWLINE by {
                        assert(rest@[j - pos] == log@[j]);
                    }
                    assert(rest@[k as int] == log@[end as int]);
                    lemma_next_newline(log@, pos as int, end as int);
                }
                let line = &log[pos..end];
                match parse_line(line) {
                    Some((name, ev)) => table.insert(name, ev),
                    None => {},
                }
                pos = end + 1;
            },
            None => {
                proof {
                    assert forall|j: int| pos <= j < log@.len() implies log@[j] != NEWLINE by {
                        assert(rest@[j - pos] == log@[j]);
                    }
                    lemma_next_newline(log@, pos as int, log@.len() as int);
                }
                done = true;
            },
        }
    }
    table
}

} // verus!
