//! The block boundary matcher: from a line that opens a block, find the
//! line on which the brace depth returns to zero.
//!
//! The scan is a flat character counter: `{` raises the depth, `}` lowers
//! it, and the match is the first `}` that brings the depth back to zero
//! after at least one `{` was seen. Braces inside comments or quoted
//! values are counted like any others; that blind spot is part of the
//! stated behaviour, not an accident.
use vstd::prelude::*;

verus! {

use vstd::string::StrSliceExecFns;
use crate::model::ParseError;
use crate::strutil::{contains_char, sp_contains_char, sp_starts_with, sp_trim, starts_with_str, trim_str};
use crate::lines::{
    lemma_elem_le_total, lemma_total_nonneg, lemma_total_subrange_le, lemma_total_subrange_step,
    sp_total_chars,
};

// ---------------------------------------------------------------------------
// Specification: one line
// ---------------------------------------------------------------------------

/// Position of the first `}` at or after `j` that closes the depth to zero
/// after an opening brace was seen, given the running state `(depth, found)`.
pub open spec fn sp_hit_in(s: Seq<char>, j: int, depth: int, found: bool) -> Option<int>
    decreases s.len() - j,
{
    if j < 0 || j >= s.len() {
        None
    } else if s[j] == '{' {
        sp_hit_in(s, j + 1, depth + 1, true)
    } else if s[j] == '}' {
        if depth - 1 == 0 && found {
            Some(j)
        } else {
            sp_hit_in(s, j + 1, depth - 1, found)
        }
    } else {
        sp_hit_in(s, j + 1, depth, found)
    }
}

/// The running state after the whole rest of the line, from position `j`.
pub open spec fn sp_line_state(s: Seq<char>, j: int, depth: int, found: bool) -> (int, bool)
    decreases s.len() - j,
{
    if j < 0 || j >= s.len() {
        (depth, found)
    } else if s[j] == '{' {
        sp_line_state(s, j + 1, depth + 1, true)
    } else if s[j] == '}' {
        sp_line_state(s, j + 1, depth - 1, found)
    } else {
        sp_line_state(s, j + 1, depth, found)
    }
}

// ---------------------------------------------------------------------------
// Specification: across lines
// ---------------------------------------------------------------------------

/// The first line at or after `i` within which the scan hits its match,
/// threading the state line by line; `None` if the input ends first.
pub open spec fn sp_scan_from(ls: Seq<Seq<char>>, i: int, depth: int, found: bool) -> Option<int>
    decreases ls.len() - i,
{
    if i < 0 || i >= ls.len() {
        None
    } else if sp_hit_in(ls[i], 0, depth, found) is Some {
        Some(i)
    } else {
        let st = sp_line_state(ls[i], 0, depth, found);
        sp_scan_from(ls, i + 1, st.0, st.1)
    }
}

/// The boundary matcher: scan from `start` with depth zero.
pub open spec fn sp_find_block_end(ls: Seq<Seq<char>>, start: int) -> Option<int> {
    sp_scan_from(ls, start, 0, false)
}

// ---------------------------------------------------------------------------
// Executable scan
// ---------------------------------------------------------------------------

/// The depth moves by at most one per character.
proof fn lemma_line_state_bound(s: Seq<char>, j: int, depth: int, found: bool)
    requires
        0 <= j <= s.len(),
    ensures
        depth - (s.len() - j) <= sp_line_state(s, j, depth, found).0 <= depth + (s.len() - j),
    decreases s.len() - j,
{
    if j < s.len() {
        if s[j] == '{' {
            lemma_line_state_bound(s, j + 1, depth + 1, true);
        } else if s[j] == '}' {
            lemma_line_state_bound(s, j + 1, depth - 1, found);
        } else {
            lemma_line_state_bound(s, j + 1, depth, found);
        }
    }
}

/// Scans one line from the given state; reports whether the match lies in
/// this line, else the state after it.
fn scan_line(s: &str, depth: i128, found: bool) -> (r: (bool, i128, bool))
    requires
        depth + s@.len() <= i128::MAX,
        depth - s@.len() >= i128::MIN,
    ensures
        r.0 == (sp_hit_in(s@, 0, depth as int, found) is Some),
        !r.0 ==> (r.1 as int, r.2) == sp_line_state(s@, 0, depth as int, found),
{
    let n = s.unicode_len();
    let mut j: usize = 0;
    let mut d: i128 = depth;
    let mut f: bool = found;
    while j < n
        invariant
            0 <= j <= n,
            n == s@.len(),
            depth - j <= d <= depth + j,
            depth + s@.len() <= i128::MAX,
            depth - s@.len() >= i128::MIN,
            sp_hit_in(s@, 0, depth as int, found) == sp_hit_in(s@, j as int, d as int, f),
            sp_line_state(s@, 0, depth as int, found) == sp_line_state(s@, j as int, d as int, f),
        decreases n - j,
    {
        let c = s.get_char(j);
        if c == '{' {
            d = d + 1;
            f = true;
        } else if c == '}' {
            d = d - 1;
            if d == 0 && f {
                return (true, d, f);
            }
        }
        j += 1;
    }
    (false, d, f)
}

/// Scans lines from `from` with the given starting state; returns the line
/// on which the match falls, if any.
fn scan_lines_from(lines: &Vec<String>, from: usize, depth0: i128, found0: bool) -> (r: Option<
    usize,
>)
    requires
        sp_total_chars(lines.deep_view()) <= usize::MAX as int,
        -(usize::MAX as int) <= depth0 <= usize::MAX as int,
        from <= lines@.len(),
    ensures
        match r {
            Some(e) => sp_scan_from(lines.deep_view(), from as int, depth0 as int, found0) == Some(
                e as int,
            ) && from <= e < lines@.len(),
            None => sp_scan_from(lines.deep_view(), from as int, depth0 as int, found0) is None,
        },
{
    let ghost ls = lines.deep_view();
    let n = lines.len();
    let mut i: usize = from;
    let mut d: i128 = depth0;
    let mut f: bool = found0;
    proof {
        assert(ls.subrange(from as int, from as int).len() == 0);
        assert(sp_total_chars(ls.subrange(from as int, from as int)) == 0);
    }
    while i < n
        invariant
            from <= i <= n,
            n == ls.len(),
            ls == lines.deep_view(),
            sp_total_chars(ls) <= usize::MAX as int,
            -(usize::MAX as int) <= depth0 <= usize::MAX as int,
            depth0 - sp_total_chars(ls.subrange(from as int, i as int)) <= d <= depth0
                + sp_total_chars(ls.subrange(from as int, i as int)),
            sp_total_chars(ls.subrange(from as int, i as int)) <= usize::MAX as int,
            sp_scan_from(ls, from as int, depth0 as int, found0) == sp_scan_from(
                ls,
                i as int,
                d as int,
                f,
            ),
        decreases n - i,
    {
        proof {
            lemma_elem_le_total(ls, i as int);
            lemma_total_nonneg(ls.subrange(from as int, i as int));
            assert(lines@[i as int]@ == ls[i as int]);
        }
        let (hit, d2, f2) = scan_line(lines[i].as_str(), d, f);
        if hit {
            return Some(i);
        }
        proof {
            lemma_line_state_bound(ls[i as int], 0, d as int, f);
            lemma_total_subrange_step(ls, from as int, i as int);
            lemma_total_subrange_le(ls, from as int, i as int + 1);
        }
        d = d2;
        f = f2;
        i += 1;
    }
    None
}

/// Finds the line index of the closing brace that matches the block opened
/// on line `start` (both zero-based); fails when the input ends first.
pub fn find_block_end(lines: &Vec<String>, start: usize) -> (r: Result<usize, ParseError>)
    requires
        sp_total_chars(lines.deep_view()) <= usize::MAX as int,
        start < lines@.len(),
    ensures
        match r {
            Ok(e) => sp_find_block_end(lines.deep_view(), start as int) == Some(e as int) && start
                <= e < lines@.len(),
            Err(pe) => sp_find_block_end(lines.deep_view(), start as int) is None && pe == (
            ParseError::UnterminatedBlock { line: (start + 1) as usize }),
        },
{
    let n = lines.len();
    match scan_lines_from(lines, start, 0, false) {
        Some(e) => Ok(e),
        None => {
            assert(start < n);
            Err(ParseError::UnterminatedBlock { line: start + 1 })
        },
    }
}

// ---------------------------------------------------------------------------
// The enclosing `http` block
// ---------------------------------------------------------------------------

/// First line at or after `i` whose trimmed text starts with `http` and
/// that contains an opening brace.
pub open spec fn sp_find_http_start(ls: Seq<Seq<char>>, i: int) -> Option<int>
    decreases ls.len() - i,
{
    if i < 0 || i >= ls.len() {
        None
    } else if sp_starts_with(sp_trim(ls[i]), "http"@) && sp_contains_char(sp_trim(ls[i]), '{') {
        Some(i)
    } else {
        sp_find_http_start(ls, i + 1)
    }
}

/// The enclosing top-level block: its header line and its closing line.
/// The scan for the closing brace starts on the line after the header,
/// with depth one: further braces on the header line itself do not count.
pub open spec fn sp_find_http_block(ls: Seq<Seq<char>>) -> Result<(int, int), ParseError> {
    match sp_find_http_start(ls, 0) {
        None => Err(ParseError::MissingHttpBlock),
        Some(h) => match sp_scan_from(ls, h + 1, 1, true) {
            Some(e) => Ok((h, e)),
            None => Err(ParseError::UnterminatedBlock { line: (h + 1) as usize }),
        },
    }
}

/// Locates the `http { ... }` block: the header line and the line of its
/// closing brace (both zero-based).
pub fn find_http_block(lines: &Vec<String>) -> (r: Result<(usize, usize), ParseError>)
    requires
        sp_total_chars(lines.deep_view()) <= usize::MAX as int,
    ensures
        match r {
            Ok((h, e)) => sp_find_http_block(lines.deep_view()) == Ok::<_, ParseError>(
                (h as int, e as int),
            ) && h < e < lines@.len(),
            Err(pe) => sp_find_http_block(lines.deep_view()) == Err::<(int, int), _>(pe),
        },
{
    let ghost ls = lines.deep_view();
    let n = lines.len();
    let mut i: usize = 0;
    while i < n
        invariant
            0 <= i <= n,
            n == ls.len(),
            ls == lines.deep_view(),
            sp_total_chars(ls) <= usize::MAX as int,
            sp_find_http_start(ls, 0) == sp_find_http_start(ls, i as int),
        decreases n - i,
    {
        proof {
            assert(lines@[i as int]@ == ls[i as int]);
        }
        let t = trim_str(lines[i].as_str());
        if starts_with_str(t.as_str(), "http") && contains_char(t.as_str(), '{') {
            match scan_lines_from(lines, i + 1, 1, true) {
                Some(e) => {
                    return Ok((i, e));
                },
                None => {
                    return Err(ParseError::UnterminatedBlock { line: i + 1 });
                },
            }
        }
        i += 1;
    }
    Err(ParseError::MissingHttpBlock)
}

} // verus!
