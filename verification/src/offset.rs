//! File arguments of the form `path` or `path:offset`.

use vstd::prelude::*;

verus! {

/// The offset suffix of a file argument is no number.
#[derive(Debug, Clone, Copy, PartialEq, Eq, Structural)]
pub enum OffsetError {
    InvalidOffset,
}

/// Index of the first colon of `s` at or after `from`.
pub open spec fn colon_from(s: Seq<char>, from: nat) -> Option<nat>
    decreases s.len() - from,
{
    if from >= s.len() {
        None
    } else if s[from as int] == ':' {
        Some(from)
    } else {
        colon_from(s, from + 1)
    }
}

/// The path of a file argument: what stands before its first colon, or
/// all of it where it has none.
pub open spec fn path_part(s: Seq<char>) -> Seq<char> {
    match colon_from(s, 0) {
        Some(c) => s.subrange(0, c as int),
        None => s,
    }
}

/// The offset text of a file argument: what stands between its first
/// colon and its second, or its end. An argument without a colon has none.
pub open spec fn suffix_part(s: Seq<char>) -> Option<Seq<char>> {
    match colon_from(s, 0) {
        Some(c) => match colon_from(s, c + 1) {
            Some(d) => Some(s.subrange((c + 1) as int, d as int)),
            None => Some(s.subrange((c + 1) as int, s.len() as int)),
        },
        None => None,
    }
}

/// The number that `clap_num::maybe_hex` reads from `text` as a `u64`, or
/// `None` where it rejects the text.
pub uninterp spec fn maybe_hex_u64(text: Seq<char>) -> Option<u64>;

/// `clap_num::maybe_hex::<u64>`: base 10, or base 16 after a prefix `0x`.
///
/// The value depends on the text alone, so it has a name; the contract
/// claims nothing else of it. The message of a rejection is dropped.
#[verifier::external_body]
fn maybe_hex(text: &str) -> (value: Option<u64>)
    ensures
        value == maybe_hex_u64(text@),
{
    clap_num::maybe_hex::<u64>(text).ok()
}

/// A colon found by scanning is the first one from `from` on.
pub proof fn lemma_colon_from(s: Seq<char>, from: nat, at: nat)
    requires
        from <= at <= s.len(),
        forall|k: int| from <= k < at ==> s[k] != ':',
        at < s.len() ==> s[at as int] == ':',
    ensures
        colon_from(s, from) == if at < s.len() {
            Some(at)
        } else {
            None
        },
    decreases at - from,
{
    if from < at {
        lemma_colon_from(s, from + 1, at);
    }
}

/// Finds the first colon of `s` at or after `from`; gives the length of
/// `s` where there is none.
fn find_colon(s: &str, from: usize) -> (at: usize)
    requires
        from <= s@.len(),
    ensures
        from <= at <= s@.len(),
        colon_from(s@, from as nat) == if at < s@.len() {
            Some(at as nat)
        } else {
            None
        },
{
    let n: usize = s.unicode_len();
    let mut at: usize = from;
    while at < n && s.get_char(at) != ':'
        invariant
            n == s@.len(),
            from <= at <= n,
            forall|k: int| from <= k < at ==> s@[k] != ':',
        decreases n - at,
    {
        at = at + 1;
    }
    proof {
        lemma_colon_from(s@, from as nat, at as nat);
    }
    at
}

/// Splits a file argument into its path and, where it holds a colon, the
/// text of its offset.
pub fn split_offset(filename: &str) -> (parts: (String, Option<String>))
    ensures
        parts.0@ == path_part(filename@),
        parts.1.deep_view() == suffix_part(filename@),
{
    let n: usize = filename.unicode_len();
    let first: usize = find_colon(filename, 0);
    if first == n {
        assert(filename@.subrange(0, n as int) =~= filename@);
        (filename.substring_char(0, n).to_owned(), None)
    } else {
        let second: usize = find_colon(filename, first + 1);
        (
            filename.substring_char(0, first).to_owned(),
            Some(filename.substring_char(first + 1, second).to_owned()),
        )
    }
}

/// The place that a path and the reading of its offset text give.
pub open spec fn located(path: Seq<char>, parsed: Option<u64>) -> Result<
    (Seq<char>, u64),
    OffsetError,
> {
    match parsed {
        Some(offset) => Ok((path, offset)),
        None => Err(OffsetError::InvalidOffset),
    }
}

/// The place that a file argument names: its path with offset zero where
/// it has no colon, else with the number that its offset text reads as.
pub open spec fn placed(filename: Seq<char>) -> Result<(Seq<char>, u64), OffsetError> {
    match suffix_part(filename) {
        Some(text) => located(path_part(filename), maybe_hex_u64(text)),
        None => Ok((path_part(filename), 0)),
    }
}

/// Model of a place or its refusal.
pub open spec fn place_result(res: Result<(String, u64), OffsetError>) -> Result<
    (Seq<char>, u64),
    OffsetError,
> {
    match res {
        Ok((path, offset)) => Ok((path@, offset)),
        Err(e) => Err(e),
    }
}

/// Pairs a path with the offset that was read for it; an offset text that
/// was rejected gives an error.
pub fn with_offset(path: String, parsed: Option<u64>) -> (res: Result<(String, u64), OffsetError>)
    ensures
        place_result(res) == located(path@, parsed),
{
    match parsed {
        Some(offset) => Ok((path, offset)),
        None => Err(OffsetError::InvalidOffset),
    }
}

/// Reads a file argument `path` or `path:offset`.
///
/// Without a colon the offset is zero. With one, the text after it, up to
/// a second colon if there is one, is read as a decimal number, or as a
/// hexadecimal one after `0x`; the call fails exactly when that text is
/// rejected.
pub fn extract_offset(filename: &str) -> (res: Result<(String, u64), OffsetError>)
    ensures
        place_result(res) == placed(filename@),
        suffix_part(filename@) is None ==> res is Ok,
{
    let (path, suffix) = split_offset(filename);
    match suffix {
        Some(text) => with_offset(path, maybe_hex(text.as_str())),
        None => Ok((path, 0)),
    }
}

} // verus!
