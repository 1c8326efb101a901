//! Laws of the parser and editor: every parsed block is well formed
//! (its raw text round-trips through its line range), parsing is a
//! function of the text alone, and the boundary matcher's answer is
//! exactly a return of the brace depth to zero.
use vstd::prelude::*;

verus! {

use crate::braces::{
    sp_find_block_end, sp_find_http_block, sp_find_http_start, sp_hit_in, sp_line_state,
    sp_scan_from,
};
use crate::edit::{
    lemma_find_server_in, sp_add_location_lines, sp_delete_server_lines, sp_find_server,
    sp_gen_add_server_lines, sp_gen_update_server_lines, sp_indent_block, sp_location_text,
    sp_update_server_lines, sp_update_server_text,
};
use crate::lines::{lemma_splice_outside, sp_join_lines, sp_lines};
use crate::model::{LocationInputModel, LocationModel, ServerInputModel, ServerModel};
use crate::parse::{
    sp_config_items, sp_parse_config, sp_parse_location, sp_parse_server, sp_server_items,
};
use crate::strutil::{sp_contains_char, sp_trim};

// ---------------------------------------------------------------------------
// Well-formedness: line ranges and raw text
// ---------------------------------------------------------------------------

/// A location block is well formed against the file's lines: its 1-based
/// range lies within the file and its raw text is exactly those lines
/// joined by newlines.
pub open spec fn sp_location_wf(lm: LocationModel, ls: Seq<Seq<char>>) -> bool {
    &&& 1 <= lm.start_line <= lm.end_line <= ls.len()
    &&& lm.raw_content == sp_join_lines(ls.subrange(lm.start_line - 1, lm.end_line))
}

/// A server block is well formed against the file's lines, and so is each
/// of its location blocks.
pub open spec fn sp_server_wf(sm: ServerModel, ls: Seq<Seq<char>>) -> bool {
    &&& 1 <= sm.start_line <= sm.end_line <= ls.len()
    &&& sm.raw_content == sp_join_lines(ls.subrange(sm.start_line - 1, sm.end_line))
    &&& forall|j: int| 0 <= j < sm.locations.len() ==> sp_location_wf(#[trigger] sm.locations[j], ls)
}

/// A found boundary lies at or after the start and within the input.
pub proof fn lemma_scan_from_range(ls: Seq<Seq<char>>, i: int, depth: int, found: bool)
    ensures
        sp_scan_from(ls, i, depth, found) matches Some(e) ==> i <= e < ls.len(),
    decreases ls.len() - i,
{
    if i < 0 || i >= ls.len() {
    } else if sp_hit_in(ls[i], 0, depth, found) is Some {
    } else {
        let st = sp_line_state(ls[i], 0, depth, found);
        lemma_scan_from_range(ls, i + 1, st.0, st.1);
    }
}

pub proof fn lemma_parse_location_wf(ls: Seq<Seq<char>>, start: int)
    requires
        0 <= start < ls.len(),
    ensures
        sp_parse_location(ls, start) matches Ok(p) ==> {
            &&& sp_location_wf(p.0, ls)
            &&& start <= p.1 < ls.len()
            &&& p.0.start_line == start + 1
            &&& p.0.end_line == p.1 + 1
        },
{
    lemma_scan_from_range(ls, start, 0, false);
}

pub proof fn lemma_server_items_wf(ls: Seq<Seq<char>>, i: int, end: int)
    ensures
        sp_server_items(ls, i, end) matches Ok(items) ==> forall|j: int|
            0 <= j < items.2.len() ==> sp_location_wf(#[trigger] items.2[j], ls),
    decreases end - i,
{
    if i < 0 || i >= end || i >= ls.len() {
    } else if sp_server_items(ls, i, end) is Ok {
        let t = crate::strutil::sp_trim(ls[i]);
        if t.len() == 0 || t[0] == '#' {
            lemma_server_items_wf(ls, i + 1, end);
        } else if crate::strutil::sp_starts_with(t, "location"@) && crate::strutil::sp_contains_char(
            t,
            '{',
        ) {
            lemma_parse_location_wf(ls, i);
            match sp_parse_location(ls, i) {
                Ok((lm, lend)) => {
                    let up = if lend + 1 > i + 1 {
                        lend + 1
                    } else {
                        i + 1
                    };
                    let next = if up > end {
                        end
                    } else {
                        up
                    };
                    lemma_server_items_wf(ls, next, end);
                    let items = sp_server_items(ls, i, end)->Ok_0;
                    let rest = sp_server_items(ls, next, end)->Ok_0;
                    assert forall|j: int| 0 <= j < items.2.len() implies sp_location_wf(
                        #[trigger] items.2[j],
                        ls,
                    ) by {
                        if j == 0 {
                            assert(items.2[0] == lm);
                        } else {
                            assert(items.2[j] == rest.2[j - 1]);
                        }
                    }
                },
                Err(_) => {
                },
            }
        } else {
            lemma_server_items_wf(ls, i + 1, end);
            match crate::scan::sp_scan_directive(t) {
                Some(p) => {
                    let items = sp_server_items(ls, i, end)->Ok_0;
                    let rest = sp_server_items(ls, i + 1, end)->Ok_0;
                    assert(items.2 == rest.2);
                },
                None => {
                },
            }
        }
    }
}

pub proof fn lemma_parse_server_wf(ls: Seq<Seq<char>>, start: int)
    requires
        0 <= start < ls.len(),
    ensures
        sp_parse_server(ls, start) matches Ok(p) ==> {
            &&& sp_server_wf(p.0, ls)
            &&& start <= p.1 < ls.len()
            &&& p.0.start_line == start + 1
            &&& p.0.end_line == p.1 + 1
        },
{
    lemma_scan_from_range(ls, start, 0, false);
    match sp_find_block_end(ls, start) {
        Some(end) => {
            lemma_server_items_wf(ls, start + 1, end);
        },
        None => {
        },
    }
}

pub proof fn lemma_config_items_wf(ls: Seq<Seq<char>>, i: int)
    ensures
        sp_config_items(ls, i) matches Ok(items) ==> forall|j: int|
            0 <= j < items.0.len() ==> sp_server_wf(#[trigger] items.0[j], ls),
    decreases ls.len() - i,
{
    if i < 0 || i >= ls.len() {
    } else if sp_config_items(ls, i) is Ok {
        let t = crate::strutil::sp_trim(ls[i]);
        if t.len() == 0 || t[0] == '#' {
            lemma_config_items_wf(ls, i + 1);
        } else if crate::strutil::sp_starts_with(t, "server"@) && crate::strutil::sp_contains_char(
            t,
            '{',
        ) {
            lemma_parse_server_wf(ls, i);
            match sp_parse_server(ls, i) {
                Ok((sm, send)) => {
                    let up = if send + 1 > i + 1 {
                        send + 1
                    } else {
                        i + 1
                    };
                    let next = if up > ls.len() {
                        ls.len() as int
                    } else {
                        up
                    };
                    lemma_config_items_wf(ls, next);
                    let items = sp_config_items(ls, i)->Ok_0;
                    let rest = sp_config_items(ls, next)->Ok_0;
                    assert forall|j: int| 0 <= j < items.0.len() implies sp_server_wf(
                        #[trigger] items.0[j],
                        ls,
                    ) by {
                        if j == 0 {
                            assert(items.0[0] == sm);
                        } else {
                            assert(items.0[j] == rest.0[j - 1]);
                        }
                    }
                },
                Err(_) => {
                },
            }
        } else {
            lemma_config_items_wf(ls, i + 1);
            match crate::scan::sp_scan_directive(t) {
                Some(_) => {
                    let items = sp_config_items(ls, i)->Ok_0;
                    let rest = sp_config_items(ls, i + 1)->Ok_0;
                    assert(items.0 == rest.0);
                },
                None => {
                },
            }
        }
    }
}

// ---------------------------------------------------------------------------
// Round-trip fidelity
// ---------------------------------------------------------------------------

/// For any text that parses, every block's `raw_content` equals its source
/// lines `start_line..=end_line` joined by newlines — servers and their
/// locations alike.
pub proof fn lemma_round_trip(content: Seq<char>, file_path: Seq<char>)
    ensures
        sp_parse_config(content, file_path) matches Ok(cm) ==> forall|j: int|
            0 <= j < cm.servers.len() ==> sp_server_wf(#[trigger] cm.servers[j], sp_lines(content)),
{
    lemma_config_items_wf(sp_lines(content), 0);
}

// ---------------------------------------------------------------------------
// Identifier determinism
// ---------------------------------------------------------------------------

/// Parsing the same text twice yields the same structure and the same
/// identifiers: the result depends on the text alone, never on the path
/// under which it was read.
pub proof fn lemma_identifier_determinism(content: Seq<char>, path_a: Seq<char>, path_b: Seq<char>)
    ensures
        (sp_parse_config(content, path_a) is Ok) == (sp_parse_config(content, path_b) is Ok),
        sp_parse_config(content, path_a) matches Ok(ca) ==> {
            let cb = sp_parse_config(content, path_b)->Ok_0;
            ca.servers == cb.servers && ca.global_directives == cb.global_directives
        },
{
}

// ---------------------------------------------------------------------------
// Unrelated-text preservation
// ---------------------------------------------------------------------------

/// Rewriting a server block keeps every line before it and every line
/// after it byte-identical and in order; only the block's own line range
/// is replaced.
pub proof fn lemma_update_unrelated_lines(
    content: Seq<char>,
    id: Seq<char>,
    input: ServerInputModel,
)
    ensures
        sp_update_server_lines(content, id, input) matches Ok(nl) ==> {
            let ls = sp_lines(content);
            let items = sp_config_items(ls, 0)->Ok_0;
            let sb = sp_find_server(items.0, id)->Some_0;
            let rep = sp_lines(sp_update_server_text(input, sb.locations));
            &&& nl.len() == (sb.start_line - 1) + rep.len() + (ls.len() - sb.end_line)
            &&& forall|k: int| 0 <= k < sb.start_line - 1 ==> nl[k] == ls[k]
            &&& forall|k: int|
                sb.end_line <= k < ls.len() ==> nl[(sb.start_line - 1) + rep.len() + (k
                    - sb.end_line)] == ls[k]
        },
{
    let ls = sp_lines(content);
    if sp_update_server_lines(content, id, input) is Ok {
        lemma_config_items_wf(ls, 0);
        let items = sp_config_items(ls, 0)->Ok_0;
        lemma_find_server_in(items.0, id);
        let sb = sp_find_server(items.0, id)->Some_0;
        let rep = sp_lines(sp_update_server_text(input, sb.locations));
        lemma_splice_outside(ls, rep, sb.start_line - 1, sb.end_line);
    }
}

/// Deleting a server block removes exactly its line range: every other
/// line reappears, in order.
pub proof fn lemma_delete_unrelated_lines(content: Seq<char>, id: Seq<char>)
    ensures
        sp_delete_server_lines(content, id) matches Ok(nl) ==> {
            let ls = sp_lines(content);
            let items = sp_config_items(ls, 0)->Ok_0;
            let sb = sp_find_server(items.0, id)->Some_0;
            &&& nl.len() == (sb.start_line - 1) + (ls.len() - sb.end_line)
            &&& forall|k: int| 0 <= k < sb.start_line - 1 ==> nl[k] == ls[k]
            &&& forall|k: int|
                sb.end_line <= k < ls.len() ==> nl[(sb.start_line - 1) + (k - sb.end_line)]
                    == ls[k]
        },
{
    let ls = sp_lines(content);
    if sp_delete_server_lines(content, id) is Ok {
        lemma_config_items_wf(ls, 0);
        let items = sp_config_items(ls, 0)->Ok_0;
        lemma_find_server_in(items.0, id);
        let sb = sp_find_server(items.0, id)->Some_0;
        lemma_splice_outside(ls, Seq::empty(), sb.start_line - 1, sb.end_line);
        let nl = sp_delete_server_lines(content, id)->Ok_0;
        assert(nl =~= ls.subrange(0, sb.start_line - 1) + Seq::<Seq<char>>::empty() + ls.skip(
            sb.end_line,
        ));
    }
}

/// Inserting a location block into a server touches no existing line:
/// everything up to the server's closing line, and that line and all
/// lines after it, reappear in order around the insertion.
pub proof fn lemma_add_location_unrelated_lines(
    content: Seq<char>,
    id: Seq<char>,
    li: LocationInputModel,
)
    ensures
        sp_add_location_lines(content, id, li) matches Ok(nl) ==> {
            let ls = sp_lines(content);
            let items = sp_config_items(ls, 0)->Ok_0;
            let sb = sp_find_server(items.0, id)->Some_0;
            let rep = sp_lines(sp_location_text(li));
            &&& nl.len() == ls.len() + rep.len()
            &&& forall|k: int| 0 <= k < sb.end_line - 1 ==> nl[k] == ls[k]
            &&& forall|k: int|
                sb.end_line - 1 <= k < ls.len() ==> nl[rep.len() + k] == ls[k]
        },
{
    let ls = sp_lines(content);
    if sp_add_location_lines(content, id, li) is Ok {
        lemma_config_items_wf(ls, 0);
        let items = sp_config_items(ls, 0)->Ok_0;
        lemma_find_server_in(items.0, id);
        let sb = sp_find_server(items.0, id)->Some_0;
        let rep = sp_lines(sp_location_text(li));
        lemma_splice_outside(ls, rep, sb.end_line - 1, sb.end_line - 1);
    }
}

/// Replacing a server block by caller-supplied literal text keeps every
/// line outside the block's range byte-identical and in order.
pub proof fn lemma_gen_update_unrelated_lines(content: Seq<char>, id: Seq<char>, text: Seq<char>)
    ensures
        sp_gen_update_server_lines(content, id, text) matches Ok(nl) ==> {
            let ls = sp_lines(content);
            let items = sp_config_items(ls, 0)->Ok_0;
            let sb = sp_find_server(items.0, id)->Some_0;
            let rep = sp_lines(text);
            &&& nl.len() == (sb.start_line - 1) + rep.len() + (ls.len() - sb.end_line)
            &&& forall|k: int| 0 <= k < sb.start_line - 1 ==> nl[k] == ls[k]
            &&& forall|k: int|
                sb.end_line <= k < ls.len() ==> nl[(sb.start_line - 1) + rep.len() + (k
                    - sb.end_line)] == ls[k]
        },
{
    let ls = sp_lines(content);
    if sp_gen_update_server_lines(content, id, text) is Ok {
        lemma_config_items_wf(ls, 0);
        let items = sp_config_items(ls, 0)->Ok_0;
        lemma_find_server_in(items.0, id);
        let sb = sp_find_server(items.0, id)->Some_0;
        lemma_splice_outside(ls, sp_lines(text), sb.start_line - 1, sb.end_line);
    }
}

/// Inserting caller-supplied server text before the closing line of the
/// enclosing block touches no existing line.
pub proof fn lemma_gen_add_unrelated_lines(content: Seq<char>, text: Seq<char>)
    ensures
        sp_gen_add_server_lines(content, text) matches Ok(nl) ==> {
            let ls = sp_lines(content);
            let he = sp_find_http_block(ls)->Ok_0.1;
            let rep = seq![Seq::<char>::empty()] + sp_indent_block(sp_lines(sp_trim(text)))
                + seq![Seq::<char>::empty()];
            &&& nl.len() == ls.len() + rep.len()
            &&& forall|k: int| 0 <= k < he ==> nl[k] == ls[k]
            &&& forall|k: int| he <= k < ls.len() ==> nl[rep.len() + k] == ls[k]
        },
{
    let ls = sp_lines(content);
    if sp_gen_add_server_lines(content, text) is Ok {
        let he = sp_find_http_block(ls)->Ok_0.1;
        let rep = seq![Seq::<char>::empty()] + sp_indent_block(sp_lines(sp_trim(text))) + seq![
            Seq::<char>::empty(),
        ];
        lemma_find_http_range(ls);
        lemma_splice_outside(ls, rep, he, he);
        let nl = sp_gen_add_server_lines(content, text)->Ok_0;
        assert(nl =~= ls.subrange(0, he) + rep + ls.skip(he));
    }
}

/// A located enclosing block lies within the input, its close after its
/// header.
proof fn lemma_find_http_range(ls: Seq<Seq<char>>)
    ensures
        sp_find_http_block(ls) matches Ok(p) ==> 0 <= p.0 < p.1 < ls.len(),
{
    lemma_find_http_start_range(ls, 0);
    match sp_find_http_start(ls, 0) {
        Some(h) => {
            lemma_scan_from_range(ls, h + 1, 1, true);
        },
        None => {
        },
    }
}

proof fn lemma_find_http_start_range(ls: Seq<Seq<char>>, i: int)
    ensures
        sp_find_http_start(ls, i) matches Some(h) ==> i <= h < ls.len(),
    decreases ls.len() - i,
{
    if i < 0 || i >= ls.len() {
    } else {
        lemma_find_http_start_range(ls, i + 1);
    }
}

// ---------------------------------------------------------------------------
// Brace balance
// ---------------------------------------------------------------------------

/// The number of `{` minus the number of `}` in a character sequence.
pub open spec fn sp_brace_delta(s: Seq<char>) -> int
    decreases s.len(),
{
    if s.len() == 0 {
        0
    } else {
        (if s[0] == '{' {
            1int
        } else if s[0] == '}' {
            -1int
        } else {
            0int
        }) + sp_brace_delta(s.skip(1))
    }
}

/// The brace delta summed over the whole lines `[a, b)`.
pub open spec fn sp_lines_delta(ls: Seq<Seq<char>>, a: int, b: int) -> int
    decreases b - a,
{
    if a < 0 || a >= b || a >= ls.len() {
        0
    } else {
        sp_brace_delta(ls[a]) + sp_lines_delta(ls, a + 1, b)
    }
}

/// Whether any of the lines `[a, b)` holds an opening brace.
pub open spec fn sp_has_open_lines(ls: Seq<Seq<char>>, a: int, b: int) -> bool {
    exists|k: int| a <= k < b && k < ls.len() && sp_contains_char(#[trigger] ls[k], '{')
}

/// The boundary condition, stated over plain character counts: at
/// character `j` of line `e` stands a `}`, the cumulative brace depth
/// from the start of line `start` through that character is exactly
/// zero, and an opening brace was seen before it.
pub open spec fn sp_balanced_at(ls: Seq<Seq<char>>, start: int, e: int, j: int) -> bool {
    &&& start <= e < ls.len()
    &&& 0 <= j < ls[e].len()
    &&& ls[e][j] == '}'
    &&& sp_lines_delta(ls, start, e) + sp_brace_delta(ls[e].take(j + 1)) == 0
    &&& (sp_has_open_lines(ls, start, e) || exists|t: int| 0 <= t < j && ls[e][t] == '{')
}

proof fn lemma_line_state_char(s: Seq<char>, j: int, d: int, f: bool)
    requires
        0 <= j <= s.len(),
    ensures
        sp_line_state(s, j, d, f).0 == d + sp_brace_delta(s.skip(j)),
        sp_line_state(s, j, d, f).1 == (f || exists|t: int| j <= t < s.len() && s[t] == '{'),
    decreases s.len() - j,
{
    if j == s.len() {
        assert(s.skip(j) =~= Seq::<char>::empty());
    } else {
        assert(s.skip(j)[0] == s[j]);
        assert(s.skip(j).skip(1) =~= s.skip(j + 1));
        if s[j] == '{' {
            lemma_line_state_char(s, j + 1, d + 1, true);
            assert(s[j] == '{');
            assert(exists|t: int| j <= t < s.len() && s[t] == '{') by {
                assert(s[j] == '{');
            }
        } else if s[j] == '}' {
            lemma_line_state_char(s, j + 1, d - 1, f);
            assert((exists|t: int| j + 1 <= t < s.len() && s[t] == '{') == (exists|t: int|
                j <= t < s.len() && s[t] == '{')) by {
                if exists|t: int| j <= t < s.len() && s[t] == '{' {
                    let t = choose|t: int| j <= t < s.len() && s[t] == '{';
                    assert(j + 1 <= t < s.len() && s[t] == '{');
                }
            }
        } else {
            lemma_line_state_char(s, j + 1, d, f);
            assert((exists|t: int| j + 1 <= t < s.len() && s[t] == '{') == (exists|t: int|
                j <= t < s.len() && s[t] == '{')) by {
                if exists|t: int| j <= t < s.len() && s[t] == '{' {
                    let t = choose|t: int| j <= t < s.len() && s[t] == '{';
                    assert(j + 1 <= t < s.len() && s[t] == '{');
                }
            }
        }
    }
}

/// The in-line hit condition, characterised by character counts: a hit
/// at `p` means a `}` whose prefix delta with the incoming depth is zero
/// after an opening brace; no hit means no such position exists.
proof fn lemma_hit_char(s: Seq<char>, j: int, d: int, f: bool)
    requires
        0 <= j <= s.len(),
    ensures
        sp_hit_in(s, j, d, f) matches Some(p) ==> {
            &&& j <= p < s.len()
            &&& s[p] == '}'
            &&& d + sp_brace_delta(s.subrange(j, p + 1)) == 0
            &&& (f || exists|t: int| j <= t < p && s[t] == '{')
        },
        sp_hit_in(s, j, d, f) is None ==> forall|p: int|
            j <= p < s.len() ==> !(s[p] == '}' && d + sp_brace_delta(
                #[trigger] s.subrange(j, p + 1),
            ) == 0 && (f || exists|t: int| j <= t < p && s[t] == '{')),
    decreases s.len() - j,
{
    if j == s.len() {
    } else {
        let c = s[j];
        let d2 = if c == '{' {
            d + 1
        } else if c == '}' {
            d - 1
        } else {
            d
        };
        let f2 = if c == '{' {
            true
        } else {
            f
        };
        assert forall|p: int| j + 1 <= p < s.len() implies sp_brace_delta(
            #[trigger] s.subrange(j, p + 1),
        ) == (d2 - d) + sp_brace_delta(s.subrange(j + 1, p + 1)) by {
            assert(s.subrange(j, p + 1)[0] == s[j]);
            assert(s.subrange(j, p + 1).skip(1) =~= s.subrange(j + 1, p + 1));
        }
        assert forall|p: int|
            #![trigger s.subrange(j + 1, p + 1)]
        j + 1 <= p < s.len() implies ((f2 || exists|t: int|
            j + 1 <= t < p && s[t] == '{') == (f || exists|t: int| j <= t < p && s[t] == '{'))
            by {
            if c == '{' {
                assert(s[j] == '{');
            } else {
                if exists|t: int| j <= t < p && s[t] == '{' {
                    let t = choose|t: int| j <= t < p && s[t] == '{';
                    assert(t != j);
                    assert(j + 1 <= t < p && s[t] == '{');
                }
            }
        }
        if c == '}' && d2 == 0 && f {
            assert(s.subrange(j, j + 1) =~= seq![s[j]]);
            lemma_delta_single(s[j]);
        } else {
            if c == '{' {
                lemma_hit_char(s, j + 1, d + 1, true);
            } else if c == '}' {
                lemma_hit_char(s, j + 1, d - 1, f);
            } else {
                lemma_hit_char(s, j + 1, d, f);
            }
            if sp_hit_in(s, j, d, f) is None {
                assert forall|p: int| j <= p < s.len() implies !(s[p] == '}' && d
                    + sp_brace_delta(#[trigger] s.subrange(j, p + 1)) == 0 && (f || exists|t: int|
                    j <= t < p && s[t] == '{')) by {
                    if p == j {
                        assert(s.subrange(j, j + 1) =~= seq![s[j]]);
                        lemma_delta_single(s[j]);
                        if s[j] == '}' {
                            assert(!(exists|t: int| j <= t < j && s[t] == '{'));
                        }
                    }
                }
            }
        }
    }
}

proof fn lemma_delta_single(c: char)
    ensures
        sp_brace_delta(seq![c]) == (if c == '{' {
            1int
        } else if c == '}' {
            -1int
        } else {
            0int
        }),
{
    assert(seq![c].skip(1) =~= Seq::<char>::empty());
    assert(sp_brace_delta(Seq::<char>::empty()) == 0);
    assert(seq![c][0] == c);
}

proof fn lemma_lines_delta_snoc(ls: Seq<Seq<char>>, a: int, b: int)
    requires
        0 <= a <= b < ls.len(),
    ensures
        sp_lines_delta(ls, a, b + 1) == sp_lines_delta(ls, a, b) + sp_brace_delta(ls[b]),
    decreases b - a,
{
    assert(sp_lines_delta(ls, b + 1, b + 1) == 0);
    assert(sp_lines_delta(ls, b, b) == 0);
    if a < b {
        lemma_lines_delta_snoc(ls, a + 1, b);
    }
}

proof fn lemma_state_step(ls: Seq<Seq<char>>, start: int, i: int)
    requires
        0 <= start <= i < ls.len(),
    ensures
        sp_line_state(ls[i], 0, sp_lines_delta(ls, start, i), sp_has_open_lines(ls, start, i)).0
            == sp_lines_delta(ls, start, i + 1),
        sp_line_state(ls[i], 0, sp_lines_delta(ls, start, i), sp_has_open_lines(ls, start, i)).1
            == sp_has_open_lines(ls, start, i + 1),
{
    let d = sp_lines_delta(ls, start, i);
    let f = sp_has_open_lines(ls, start, i);
    lemma_line_state_char(ls[i], 0, d, f);
    lemma_lines_delta_snoc(ls, start, i);
    assert(ls[i].skip(0) =~= ls[i]);
    let st = sp_line_state(ls[i], 0, d, f);
    assert(st.1 == sp_has_open_lines(ls, start, i + 1)) by {
        if st.1 {
            if f {
                let k = choose|k: int|
                    start <= k < i && k < ls.len() && sp_contains_char(#[trigger] ls[k], '{');
                assert(start <= k < i + 1 && k < ls.len() && sp_contains_char(ls[k], '{'));
            } else {
                let t = choose|t: int| 0 <= t < ls[i].len() && ls[i][t] == '{';
                assert(sp_contains_char(ls[i], '{'));
                assert(start <= i < i + 1 && i < ls.len() && sp_contains_char(ls[i], '{'));
            }
        }
        if sp_has_open_lines(ls, start, i + 1) {
            let k = choose|k: int|
                start <= k < i + 1 && k < ls.len() && sp_contains_char(#[trigger] ls[k], '{');
            if k < i {
                assert(sp_has_open_lines(ls, start, i));
            } else {
                assert(k == i);
                let t = choose|t: int| 0 <= t < ls[i].len() && ls[i][t] == '{';
                assert(0 <= t < ls[i].len() && ls[i][t] == '{');
            }
        }
    }
}

#[verifier::spinoff_prover]
proof fn lemma_scan_from_balanced_some(ls: Seq<Seq<char>>, start: int, i: int)
    requires
        0 <= start <= i <= ls.len(),
    ensures
        sp_scan_from(ls, i, sp_lines_delta(ls, start, i), sp_has_open_lines(ls, start, i))
            matches Some(e) ==> i <= e && exists|j: int| sp_balanced_at(ls, start, e, j),
    decreases ls.len() - i,
{
    let d = sp_lines_delta(ls, start, i);
    let f = sp_has_open_lines(ls, start, i);
    if i == ls.len() {
    } else {
        lemma_hit_char(ls[i], 0, d, f);
        match sp_hit_in(ls[i], 0, d, f) {
            Some(p) => {
                assert(ls[i].subrange(0, p + 1) =~= ls[i].take(p + 1));
                assert(sp_balanced_at(ls, start, i, p));
                assert(sp_scan_from(ls, i, d, f) == Some(i));
                assert(exists|j: int| sp_balanced_at(ls, start, i, j)) by {
                    assert(sp_balanced_at(ls, start, i, p));
                }
            },
            None => {
                lemma_state_step(ls, start, i);
                lemma_scan_from_balanced_some(ls, start, i + 1);
                assert(sp_scan_from(ls, i, d, f) == sp_scan_from(
                    ls,
                    i + 1,
                    sp_lines_delta(ls, start, i + 1),
                    sp_has_open_lines(ls, start, i + 1),
                ));
                match sp_scan_from(
                    ls,
                    i + 1,
                    sp_lines_delta(ls, start, i + 1),
                    sp_has_open_lines(ls, start, i + 1),
                ) {
                    Some(e) => {
                        let j = choose|j: int| sp_balanced_at(ls, start, e, j);
                        assert(sp_balanced_at(ls, start, e, j));
                        assert(i <= e);
                    },
                    None => {
                    },
                }
            },
        }
    }
}

#[verifier::spinoff_prover]
proof fn lemma_scan_from_balanced_none(ls: Seq<Seq<char>>, start: int, i: int)
    requires
        0 <= start <= i <= ls.len(),
    ensures
        sp_scan_from(ls, i, sp_lines_delta(ls, start, i), sp_has_open_lines(ls, start, i)) is None
            ==> forall|e: int, j: int| i <= e ==> !sp_balanced_at(ls, start, e, j),
    decreases ls.len() - i,
{
    let d = sp_lines_delta(ls, start, i);
    let f = sp_has_open_lines(ls, start, i);
    if i == ls.len() {
    } else {
        lemma_hit_char(ls[i], 0, d, f);
        match sp_hit_in(ls[i], 0, d, f) {
            Some(p) => {
            },
            None => {
                lemma_state_step(ls, start, i);
                lemma_scan_from_balanced_none(ls, start, i + 1);
                assert(sp_scan_from(ls, i, d, f) == sp_scan_from(
                    ls,
                    i + 1,
                    sp_lines_delta(ls, start, i + 1),
                    sp_has_open_lines(ls, start, i + 1),
                ));
                if sp_scan_from(ls, i, d, f) is None {
                    assert forall|e: int, j: int| i <= e implies !sp_balanced_at(ls, start, e, j)
                        by {
                        if e == i {
                            if sp_balanced_at(ls, start, i, j) {
                                assert(ls[i].take(j + 1) =~= ls[i].subrange(0, j + 1));
                            }
                        }
                    }
                }
            },
        }
    }
}

#[verifier::spinoff_prover]
proof fn lemma_scan_from_first(ls: Seq<Seq<char>>, start: int, i: int)
    requires
        0 <= start <= i <= ls.len(),
    ensures
        sp_scan_from(ls, i, sp_lines_delta(ls, start, i), sp_has_open_lines(ls, start, i))
            matches Some(e) ==> forall|e2: int, j: int|
            i <= e2 < e ==> !sp_balanced_at(ls, start, e2, j),
    decreases ls.len() - i,
{
    let d = sp_lines_delta(ls, start, i);
    let f = sp_has_open_lines(ls, start, i);
    if i == ls.len() {
    } else {
        lemma_hit_char(ls[i], 0, d, f);
        match sp_hit_in(ls[i], 0, d, f) {
            Some(p) => {
                // the hit falls on line i itself: no earlier line is asked about
            },
            None => {
                lemma_state_step(ls, start, i);
                lemma_scan_from_first(ls, start, i + 1);
                assert(sp_scan_from(ls, i, d, f) == sp_scan_from(
                    ls,
                    i + 1,
                    sp_lines_delta(ls, start, i + 1),
                    sp_has_open_lines(ls, start, i + 1),
                ));
                match sp_scan_from(ls, i, d, f) {
                    Some(e) => {
                        assert forall|e2: int, j: int| i <= e2 < e implies !sp_balanced_at(
                            ls,
                            start,
                            e2,
                            j,
                        ) by {
                            if e2 == i {
                                if sp_balanced_at(ls, start, i, j) {
                                    assert(ls[i].take(j + 1) =~= ls[i].subrange(0, j + 1));
                                }
                            }
                        }
                    },
                    None => {
                    },
                }
            },
        }
    }
}

/// Brace balance: an index the boundary matcher returns closes the block
/// at a character where the cumulative brace depth from the start line is
/// exactly zero after an opening brace, it is the first line holding such
/// a position, and the matcher fails only when no such position exists at
/// all.
pub proof fn lemma_boundary_balanced(ls: Seq<Seq<char>>, start: int)
    requires
        0 <= start <= ls.len(),
    ensures
        sp_find_block_end(ls, start) matches Some(e) ==> exists|j: int|
            sp_balanced_at(ls, start, e, j),
        sp_find_block_end(ls, start) matches Some(e) ==> forall|e2: int, j: int|
            e2 < e ==> !sp_balanced_at(ls, start, e2, j),
        sp_find_block_end(ls, start) is None ==> forall|e: int, j: int|
            !sp_balanced_at(ls, start, e, j),
{
    assert(sp_lines_delta(ls, start, start) == 0);
    assert(!sp_has_open_lines(ls, start, start));
    lemma_scan_from_balanced_some(ls, start, start);
    lemma_scan_from_balanced_none(ls, start, start);
    lemma_scan_from_first(ls, start, start);
    if sp_find_block_end(ls, start) is None {
        assert forall|e: int, j: int| !sp_balanced_at(ls, start, e, j) by {
            if sp_balanced_at(ls, start, e, j) {
                assert(start <= e);
            }
        }
    }
    match sp_find_block_end(ls, start) {
        Some(e) => {
            assert forall|e2: int, j: int| e2 < e implies !sp_balanced_at(ls, start, e2, j) by {
                if sp_balanced_at(ls, start, e2, j) {
                    assert(start <= e2);
                }
            }
        },
        None => {
        },
    }
}

} // verus!
