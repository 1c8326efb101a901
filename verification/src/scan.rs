//! The directive scanner: turns one physical line into an optional
//! `(name, value)` pair, stripping a trailing comment and one trailing
//! semicolon.
use vstd::prelude::*;

verus! {

use vstd::string::StrSliceExecFns;
use vstd::string::StringExecFns;
use crate::strutil::{
    ends_with_char, index_of_char, index_of_ws, lemma_index_of_is, lemma_index_of_range,
    lemma_index_ws_is, lemma_index_ws_range, sp_ends_with_char, sp_index_of, sp_index_ws,
    sp_is_space, sp_strip_one_end, sp_trim, sp_trim_end, sp_trim_start, strip_one_end_char,
    trim_str,
};
use crate::model::Directive;

// ---------------------------------------------------------------------------
// Specification
// ---------------------------------------------------------------------------

/// The line up to (not including) its first `#`.
pub open spec fn sp_cut_comment(line: Seq<char>) -> Seq<char> {
    line.take(sp_index_of(line, '#'))
}

/// The comment-free line with one trailing semicolon and surrounding
/// whitespace removed: the text the scanner actually inspects.
pub open spec fn sp_scan_core(line: Seq<char>) -> Seq<char> {
    sp_trim(sp_strip_one_end(sp_cut_comment(line), ';'))
}

/// What scanning a line yields: `None` for blank, comment-only, block-open
/// and block-close lines, else the name before the first whitespace run and
/// the trimmed remainder as value.
pub open spec fn sp_scan_directive(line: Seq<char>) -> Option<(Seq<char>, Seq<char>)> {
    let t = sp_scan_core(line);
    if t.len() == 0 || t[0] == '#' || sp_ends_with_char(t, '{') || (t.len() == 1 && t[0] == '}') {
        None
    } else {
        let k = sp_index_ws(t);
        if k >= t.len() {
            Some((t, Seq::empty()))
        } else {
            Some((t.take(k), sp_trim(t.skip(k + 1))))
        }
    }
}

// ---------------------------------------------------------------------------
// Executable scanner
// ---------------------------------------------------------------------------

/// Scans one line; `line_number` is recorded in the directive unchanged.
pub fn parse_directive(line: &str, line_number: usize) -> (r: Option<Directive>)
    ensures
        match r {
            Some(d) => sp_scan_directive(line@) == Some((d.name@, d.value@)) && d.line
                == line_number,
            None => sp_scan_directive(line@) is None,
        },
{
    let h = index_of_char(line, '#');
    proof {
        lemma_index_of_range(line@, '#');
    }
    let head = line.substring_char(0, h);
    proof {
        assert(head@ =~= sp_cut_comment(line@));
    }
    let stripped = strip_one_end_char(head, ';');
    let t = trim_str(stripped.as_str());
    let n = t.as_str().unicode_len();
    if n == 0 {
        return None;
    }
    if t.as_str().get_char(0) == '#' {
        return None;
    }
    if ends_with_char(t.as_str(), '{') {
        return None;
    }
    if n == 1 && t.as_str().get_char(0) == '}' {
        return None;
    }
    let k = index_of_ws(t.as_str());
    proof {
        lemma_index_ws_range(t@);
    }
    if k >= n {
        Some(Directive { name: t, value: String::new(), line: line_number })
    } else {
        let name = t.as_str().substring_char(0, k);
        let rest = t.as_str().substring_char(k + 1, n);
        let value = trim_str(rest);
        proof {
            assert(t@.take(k as int) =~= t@.subrange(0, k as int));
            assert(t@.skip(k as int + 1) =~= t@.subrange(k as int + 1, n as int));
        }
        Some(Directive { name: name.to_owned(), value, line: line_number })
    }
}

// ---------------------------------------------------------------------------
// Scanning a rendered directive gives the pair back
// ---------------------------------------------------------------------------

/// A directive's rendered statement: `name value;`, or `name;` when the
/// value is empty.
pub open spec fn sp_render_statement(name: Seq<char>, value: Seq<char>) -> Seq<char> {
    if value.len() == 0 {
        name + seq![';']
    } else {
        name + seq![' '] + value + seq![';']
    }
}

pub proof fn lemma_trim_noop(s: Seq<char>)
    requires
        s.len() > 0,
        !sp_is_space(s[0]),
        !sp_is_space(s[s.len() - 1]),
    ensures
        sp_trim(s) == s,
{
    assert(sp_trim_start(s) == s);
    assert(sp_trim_end(s) == s);
}

/// Scanning a directive's own rendered form reproduces the original
/// `(name, value)` pair, for any name without whitespace or `#`, and any
/// trimmed value without `#` that does not end in `{` (a rendered value
/// ending in `{` would read back as a block opener). A lone `}` as bare
/// name is the one further exception: that line reads as a block close.
pub proof fn lemma_directive_scan_round_trip(name: Seq<char>, value: Seq<char>)
    requires
        name.len() > 0,
        forall|k: int| 0 <= k < name.len() ==> !sp_is_space(#[trigger] name[k]),
        forall|k: int| 0 <= k < name.len() ==> #[trigger] name[k] != '#',
        forall|k: int| 0 <= k < value.len() ==> #[trigger] value[k] != '#',
        sp_trim(value) == value,
        value.len() > 0 ==> value[value.len() - 1] != '{',
        value.len() == 0 ==> name[name.len() - 1] != '{' && !(name.len() == 1 && name[0] == '}'),
    ensures
        sp_scan_directive(sp_render_statement(name, value)) == Some((name, value)),
{
    let line = sp_render_statement(name, value);
    // no `#` anywhere, so the comment cut keeps the whole line
    assert forall|k: int| 0 <= k < line.len() implies line[k] != '#' by {
        if value.len() == 0 {
            if k < name.len() {
                assert(line[k] == name[k]);
            } else {
                assert(line[k] == ';');
            }
        } else {
            if k < name.len() {
                assert(line[k] == name[k]);
            } else if k == name.len() {
                assert(line[k] == ' ');
            } else if k < name.len() + 1 + value.len() {
                assert(line[k] == value[k - name.len() - 1]);
            } else {
                assert(line[k] == ';');
            }
        }
    }
    lemma_index_of_is(line, '#', line.len() as int);
    assert(sp_cut_comment(line) =~= line);
    // exactly the final `;` is stripped
    let core = if value.len() == 0 {
        name
    } else {
        name + seq![' '] + value
    };
    assert(line =~= core + seq![';']);
    assert(core.len() == line.len() - 1);
    assert(line[line.len() - 1] == ';');
    assert(sp_strip_one_end(line, ';') == line.take(line.len() - 1));
    assert(line.take(line.len() - 1) =~= core);
    // trimming is a no-op on the remaining text
    assert(core[0] == name[0]);
    if value.len() == 0 {
        assert(core[core.len() - 1] == name[name.len() - 1]);
    } else {
        assert(core[core.len() - 1] == value[value.len() - 1]);
        assert(value[value.len() - 1] == sp_trim(value)[value.len() - 1]);
    }
    assert(!sp_is_space(core[0]));
    assert(!sp_is_space(core[core.len() - 1])) by {
        if value.len() > 0 {
            // a trimmed, non-empty value never ends in whitespace
            lemma_trim_end_last_nonspace(sp_trim_start(value));
        }
    }
    lemma_trim_noop(core);
    assert(sp_scan_core(line) == core);
    // the kept text is not empty, no comment, no block opener, no `}`
    assert(core.len() > 0);
    assert(core[0] != '#');
    assert(core[core.len() - 1] != '{');
    assert(!(core.len() == 1 && core[0] == '}')) by {
        if value.len() == 0 {
        } else {
            assert(core.len() >= name.len() + 2);
        }
    }
    // the split point is the single separator space (or absent)
    if value.len() == 0 {
        lemma_index_ws_is(core, core.len() as int);
        assert(sp_scan_directive(line) == Some((name, Seq::<char>::empty())));
    } else {
        assert forall|k: int| 0 <= k < name.len() implies !sp_is_space(#[trigger] core[k]) by {
            assert(core[k] == name[k]);
        }
        assert(core[name.len() as int] == ' ');
        assert(sp_is_space(' '));
        lemma_index_ws_is(core, name.len() as int);
        assert(core.take(name.len() as int) =~= name);
        assert(core.skip(name.len() as int + 1) =~= value);
        assert(sp_scan_directive(line) == Some((name, value)));
    }
}

/// A trimmed sequence never ends in whitespace.
pub proof fn lemma_trim_end_last_nonspace(s: Seq<char>)
    ensures
        sp_trim_end(s).len() > 0 ==> !sp_is_space(sp_trim_end(s)[sp_trim_end(s).len() - 1]),
    decreases s.len(),
{
    if s.len() > 0 && sp_is_space(s[s.len() - 1]) {
        lemma_trim_end_last_nonspace(s.take(s.len() - 1));
    }
}

} // verus!
