//! The structural builder: walks the line sequence, delimits `server` and
//! `location` blocks with the boundary matcher, fills their directive
//! lists with the scanner, and derives each block's identifier from its
//! start line.
//!
//! A block is recognised by its trimmed line starting with the `server`
//! (or `location`) token and containing `{` — a deliberate heuristic that
//! also fires on directives whose name merely begins with that token.
use vstd::prelude::*;

verus! {

use vstd::string::StrSliceExecFns;
use vstd::string::StringExecFns;
use crate::braces::{find_block_end, sp_find_block_end};
use crate::lines::{
    join_range, lemma_lines_total, sp_join_lines, sp_lines, sp_total_chars, split_lines,
};
use crate::model::{
    ConfigModel, Directive, DirectiveModel, LocationBlock, LocationModel, NginxConfig, ParseError,
    ServerBlock, ServerModel,
};
use crate::scan::{parse_directive, sp_scan_directive};
use crate::strutil::{
    contains_char, sp_contains_char, sp_dec, sp_slash_to_underscore, sp_split_ws, sp_starts_with,
    sp_strip_end, sp_trim, slash_to_underscore, split_whitespace_str, starts_with_str, str_eq,
    strip_end_char, trim_str, usize_to_string,
};

// ---------------------------------------------------------------------------
// Specification
// ---------------------------------------------------------------------------

/// The directives recorded inside a location body, lines `(i, end)`
/// exclusive: every non-blank, non-comment line that scans as a directive.
pub open spec fn sp_location_dirs(ls: Seq<Seq<char>>, i: int, end: int) -> Seq<DirectiveModel>
    decreases end - i,
{
    if i < 0 || i >= end || i >= ls.len() {
        Seq::empty()
    } else {
        let t = sp_trim(ls[i]);
        let rest = sp_location_dirs(ls, i + 1, end);
        if t.len() == 0 || t[0] == '#' {
            rest
        } else {
            match sp_scan_directive(t) {
                Some(p) => seq![DirectiveModel { name: p.0, value: p.1, line: i + 1 }] + rest,
                None => rest,
            }
        }
    }
}

/// The location-matching prefixes: `=`, `~`, `~*`, `^~`. Only these are
/// ever taken as a header's modifier; any other second token is the path,
/// so a free-standing `{` token never displaces it.
pub open spec fn sp_is_location_modifier(t: Seq<char>) -> bool {
    ||| (t.len() == 1 && (t[0] == '=' || t[0] == '~'))
    ||| (t.len() == 2 && t[0] == '~' && t[1] == '*')
    ||| (t.len() == 2 && t[0] == '^' && t[1] == '~')
}

fn is_location_modifier(t: &str) -> (r: bool)
    ensures
        r == sp_is_location_modifier(t@),
{
    let n = t.unicode_len();
    if n == 1 {
        let c = t.get_char(0);
        c == '=' || c == '~'
    } else if n == 2 {
        let c0 = t.get_char(0);
        let c1 = t.get_char(1);
        (c0 == '~' && c1 == '*') || (c0 == '^' && c1 == '~')
    } else {
        false
    }
}

/// What parsing a location block from line `start` yields: the header's
/// modifier and path, the body's directives, the block's raw text and its
/// 1-based line range, together with the zero-based closing line.
pub open spec fn sp_parse_location(ls: Seq<Seq<char>>, start: int) -> Result<
    (LocationModel, int),
    ParseError,
> {
    let t = sp_trim(ls[start]);
    let parts = sp_split_ws(t);
    if parts.len() < 2 {
        Err(ParseError::InvalidLocationSyntax { line: (start + 1) as usize })
    } else {
        let has_modifier = parts.len() >= 3 && sp_is_location_modifier(parts[1]);
        let modifier = if has_modifier {
            Some(parts[1])
        } else {
            None
        };
        let path = sp_trim(sp_strip_end(if has_modifier {
            parts[2]
        } else {
            parts[1]
        }, '{'));
        match sp_find_block_end(ls, start) {
            None => Err(ParseError::UnterminatedBlock { line: (start + 1) as usize }),
            Some(end) => Ok(
                (
                    LocationModel {
                        id: "location_"@ + sp_dec(start as nat) + "_"@ + sp_slash_to_underscore(
                            path,
                        ),
                        path: path,
                        modifier: modifier,
                        directives: sp_location_dirs(ls, start + 1, end),
                        raw_content: sp_join_lines(ls.subrange(start, end + 1)),
                        start_line: start + 1,
                        end_line: end + 1,
                    },
                    end,
                ),
            ),
        }
    }
}

/// What walking a server body collects, lines `(i, end)` exclusive:
/// listen values, flattened server names, location blocks, and every
/// recorded directive, in encounter order.
pub open spec fn sp_server_items(ls: Seq<Seq<char>>, i: int, end: int) -> Result<
    (Seq<Seq<char>>, Seq<Seq<char>>, Seq<LocationModel>, Seq<DirectiveModel>),
    ParseError,
>
    decreases end - i,
{
    if i < 0 || i >= end || i >= ls.len() {
        Ok((Seq::empty(), Seq::empty(), Seq::empty(), Seq::empty()))
    } else {
        let t = sp_trim(ls[i]);
        if t.len() == 0 || t[0] == '#' {
            sp_server_items(ls, i + 1, end)
        } else if sp_starts_with(t, "location"@) && sp_contains_char(t, '{') {
            match sp_parse_location(ls, i) {
                Err(e) => Err(e),
                Ok((lm, lend)) => {
                    let up = if lend + 1 > i + 1 {
                        lend + 1
                    } else {
                        i + 1
                    };
                    let next = if up > end {
                        end
                    } else {
                        up
                    };
                    match sp_server_items(ls, next, end) {
                        Err(e) => Err(e),
                        Ok(rest) => Ok((rest.0, rest.1, seq![lm] + rest.2, rest.3)),
                    }
                },
            }
        } else {
            match sp_scan_directive(t) {
                None => sp_server_items(ls, i + 1, end),
                Some(p) => match sp_server_items(ls, i + 1, end) {
                    Err(e) => Err(e),
                    Ok(rest) => {
                        let d = DirectiveModel { name: p.0, value: p.1, line: i + 1 };
                        let listen = if p.0 == "listen"@ {
                            seq![p.1] + rest.0
                        } else {
                            rest.0
                        };
                        let names = if p.0 == "server_name"@ {
                            sp_split_ws(p.1) + rest.1
                        } else {
                            rest.1
                        };
                        Ok((listen, names, rest.2, seq![d] + rest.3))
                    },
                },
            }
        }
    }
}

/// What parsing a server block from line `start` yields.
pub open spec fn sp_parse_server(ls: Seq<Seq<char>>, start: int) -> Result<
    (ServerModel, int),
    ParseError,
> {
    match sp_find_block_end(ls, start) {
        None => Err(ParseError::UnterminatedBlock { line: (start + 1) as usize }),
        Some(end) => match sp_server_items(ls, start + 1, end) {
            Err(e) => Err(e),
            Ok(items) => Ok(
                (
                    ServerModel {
                        id: "server_"@ + sp_dec(start as nat),
                        listen: items.0,
                        server_name: items.1,
                        locations: items.2,
                        directives: items.3,
                        raw_content: sp_join_lines(ls.subrange(start, end + 1)),
                        start_line: start + 1,
                        end_line: end + 1,
                    },
                    end,
                ),
            ),
        },
    }
}

/// The top level: server blocks and global directives, in encounter order.
pub open spec fn sp_config_items(ls: Seq<Seq<char>>, i: int) -> Result<
    (Seq<ServerModel>, Seq<DirectiveModel>),
    ParseError,
>
    decreases ls.len() - i,
{
    if i < 0 || i >= ls.len() {
        Ok((Seq::empty(), Seq::empty()))
    } else {
        let t = sp_trim(ls[i]);
        if t.len() == 0 || t[0] == '#' {
            sp_config_items(ls, i + 1)
        } else if sp_starts_with(t, "server"@) && sp_contains_char(t, '{') {
            match sp_parse_server(ls, i) {
                Err(e) => Err(e),
                Ok((sm, send)) => {
                    let up = if send + 1 > i + 1 {
                        send + 1
                    } else {
                        i + 1
                    };
                    let next = if up > ls.len() {
                        ls.len() as int
                    } else {
                        up
                    };
                    match sp_config_items(ls, next) {
                        Err(e) => Err(e),
                        Ok(rest) => Ok((seq![sm] + rest.0, rest.1)),
                    }
                },
            }
        } else {
            match sp_scan_directive(t) {
                None => sp_config_items(ls, i + 1),
                Some(p) => match sp_config_items(ls, i + 1) {
                    Err(e) => Err(e),
                    Ok(rest) => Ok(
                        (
                            rest.0,
                            seq![DirectiveModel { name: p.0, value: p.1, line: i + 1 }] + rest.1,
                        ),
                    ),
                },
            }
        }
    }
}

/// What parsing a whole file yields: its lines walked from the top, plus
/// the file path and the raw text as given.
pub open spec fn sp_parse_config(content: Seq<char>, file_path: Seq<char>) -> Result<
    ConfigModel,
    ParseError,
> {
    match sp_config_items(sp_lines(content), 0) {
        Err(e) => Err(e),
        Ok(items) => Ok(
            ConfigModel {
                servers: items.0,
                global_directives: items.1,
                file_path: file_path,
                raw_content: content,
            },
        ),
    }
}

// ---------------------------------------------------------------------------
// Executable parser
// ---------------------------------------------------------------------------

/// Parses one `location ... { ... }` block starting at line `start`
/// (zero-based); returns the block and the zero-based closing line.
pub fn parse_location_block(lines: &Vec<String>, start: usize) -> (r: Result<
    (LocationBlock, usize),
    ParseError,
>)
    requires
        sp_total_chars(lines.deep_view()) <= usize::MAX as int,
        start < lines@.len(),
    ensures
        match r {
            Ok((lb, end)) => sp_parse_location(lines.deep_view(), start as int) == Ok::<
                _,
                ParseError,
            >((lb@, end as int)) && start <= end < lines@.len(),
            Err(e) => sp_parse_location(lines.deep_view(), start as int) == Err::<
                (LocationModel, int),
                _,
            >(e),
        },
{
    let ghost ls = lines.deep_view();
    let n = lines.len();
    proof {
        assert(start < n);
        assert(lines@[start as int]@ == ls[start as int]);
    }
    let t = trim_str(lines[start].as_str());
    let parts = split_whitespace_str(t.as_str());
    if parts.len() < 2 {
        return Err(ParseError::InvalidLocationSyntax { line: start + 1 });
    }
    let has_modifier = parts.len() >= 3 && is_location_modifier(parts[1].as_str());
    let (modifier, raw_path): (Option<String>, &String) = if has_modifier {
        (Some(parts[1].clone()), &parts[2])
    } else {
        (None, &parts[1])
    };
    proof {
        assert(parts@[1]@ == sp_split_ws(t@)[1]);
        if parts@.len() >= 3 {
            assert(parts@[2]@ == sp_split_ws(t@)[2]);
        }
    }
    let stripped = strip_end_char(raw_path.as_str(), '{');
    let path = trim_str(stripped.as_str());
    let end = match find_block_end(lines, start) {
        Ok(e) => e,
        Err(pe) => {
            return Err(pe);
        },
    };
    // the body's directives
    let mut dirs: Vec<Directive> = Vec::new();
    let mut i: usize = start + 1;
    proof {
        assert(dirs.deep_view() =~= Seq::<DirectiveModel>::empty());
        assert(dirs.deep_view() + sp_location_dirs(ls, i as int, end as int) =~= sp_location_dirs(
            ls,
            i as int,
            end as int,
        ));
    }
    while i < end
        invariant
            start + 1 <= i,
            i <= end || i == start + 1,
            end < ls.len(),
            ls == lines.deep_view(),
            sp_location_dirs(ls, start + 1 as int, end as int) == dirs.deep_view()
                + sp_location_dirs(ls, i as int, end as int),
        decreases end - i,
    {
        proof {
            assert(lines@[i as int]@ == ls[i as int]);
        }
        let lt = trim_str(lines[i].as_str());
        let ln = lt.as_str().unicode_len();
        if ln > 0 && lt.as_str().get_char(0) != '#' {
            match parse_directive(lt.as_str(), i + 1) {
                Some(d) => {
                    let ghost old_dv = dirs.deep_view();
                    let ghost dm = DirectiveModel {
                        name: d.name@,
                        value: d.value@,
                        line: i as int + 1,
                    };
                    dirs.push(d);
                    proof {
                        assert(dirs.deep_view() =~= old_dv.push(dm));
                        assert(old_dv.push(dm) + sp_location_dirs(ls, i as int + 1, end as int)
                            =~= old_dv + (seq![dm] + sp_location_dirs(
                            ls,
                            i as int + 1,
                            end as int,
                        )));
                    }
                },
                None => {
                },
            }
        }
        i += 1;
    }
    proof {
        assert(sp_location_dirs(ls, i as int, end as int) =~= Seq::<DirectiveModel>::empty());
        assert(dirs.deep_view() + Seq::<DirectiveModel>::empty() =~= dirs.deep_view());
    }
    // the derived identifier
    let mut id = String::from_str("location_");
    id.append(usize_to_string(start).as_str());
    id.append("_");
    id.append(slash_to_underscore(path.as_str()).as_str());
    proof {
        assert(id@ =~= "location_"@ + sp_dec(start as nat) + "_"@ + sp_slash_to_underscore(path@));
    }
    // the raw text
    let raw = join_range(lines, start, end + 1, "\n");
    proof {
        reveal_strlit("\n");
        assert("\n"@ =~= seq!['\n']);
    }
    let lb = LocationBlock {
        id,
        path,
        modifier,
        directives: dirs,
        raw_content: raw,
        start_line: start + 1,
        end_line: end + 1,
    };
    Ok((lb, end))
}

/// Parses one `server { ... }` block starting at line `start` (zero-based);
/// returns the block and the zero-based closing line.
#[verifier::rlimit(100)]
#[verifier::spinoff_prover]
#[verifier::loop_isolation(false)]
pub fn parse_server_block(lines: &Vec<String>, start: usize) -> (r: Result<
    (ServerBlock, usize),
    ParseError,
>)
    requires
        sp_total_chars(lines.deep_view()) <= usize::MAX as int,
        start < lines@.len(),
    ensures
        match r {
            Ok((sb, end)) => sp_parse_server(lines.deep_view(), start as int) == Ok::<
                _,
                ParseError,
            >((sb@, end as int)) && start <= end < lines@.len(),
            Err(e) => sp_parse_server(lines.deep_view(), start as int) == Err::<
                (ServerModel, int),
                _,
            >(e),
        },
{
    let ghost ls = lines.deep_view();
    let n = lines.len();
    proof {
        assert(start < n);
        // the two specially handled directive names are distinct
        reveal_strlit("listen");
        reveal_strlit("server_name");
    }
    let end = match find_block_end(lines, start) {
        Ok(e) => e,
        Err(pe) => {
            return Err(pe);
        },
    };
    let mut listen: Vec<String> = Vec::new();
    let mut names: Vec<String> = Vec::new();
    let mut locs: Vec<LocationBlock> = Vec::new();
    let mut dirs: Vec<Directive> = Vec::new();
    let mut i: usize = start + 1;
    proof {
        assert(listen.deep_view() =~= Seq::<Seq<char>>::empty());
        assert(names.deep_view() =~= Seq::<Seq<char>>::empty());
        assert(locs.deep_view() =~= Seq::<LocationModel>::empty());
        assert(dirs.deep_view() =~= Seq::<DirectiveModel>::empty());
        if sp_server_items(ls, i as int, end as int) is Ok {
            let rest = sp_server_items(ls, i as int, end as int)->Ok_0;
            assert(listen.deep_view() + rest.0 =~= rest.0);
            assert(names.deep_view() + rest.1 =~= rest.1);
            assert(locs.deep_view() + rest.2 =~= rest.2);
            assert(dirs.deep_view() + rest.3 =~= rest.3);
        }
    }
    while i < end
        invariant
            start + 1 <= i,
            end < ls.len(),
            i <= ls.len(),
            ls == lines.deep_view(),
            sp_total_chars(ls) <= usize::MAX as int,
            sp_server_items(ls, start + 1 as int, end as int) == (match sp_server_items(
                ls,
                i as int,
                end as int,
            ) {
                Ok(rest) => Ok::<_, ParseError>(
                    (
                        listen.deep_view() + rest.0,
                        names.deep_view() + rest.1,
                        locs.deep_view() + rest.2,
                        dirs.deep_view() + rest.3,
                    ),
                ),
                Err(e) => Err(e),
            }),
        decreases (if i <= end { end - i } else { 0 }) as int,
    {
        proof {
            assert(lines@[i as int]@ == ls[i as int]);
        }
        let t = trim_str(lines[i].as_str());
        let tn = t.as_str().unicode_len();
        if tn == 0 || t.as_str().get_char(0) == '#' {
            proof {
                assert(sp_server_items(ls, i as int, end as int) == sp_server_items(
                    ls,
                    i as int + 1,
                    end as int,
                ));
            }
            i += 1;
            continue;
        }
        if starts_with_str(t.as_str(), "location") && contains_char(t.as_str(), '{') {
            let ghost i0 = i as int;
            match parse_location_block(lines, i) {
                Ok((lb, lend)) => {
                    let ghost old_locs = locs.deep_view();
                    let ghost lm = lb@;
                    locs.push(lb);
                    proof {
                        assert(locs.deep_view() =~= old_locs.push(lm));
                        let up = if lend as int + 1 > i0 + 1 {
                            lend as int + 1
                        } else {
                            i0 + 1
                        };
                        let next = if up > end as int {
                            end as int
                        } else {
                            up
                        };
                        assert(up == lend as int + 1);
                        if lend as int + 1 > end as int {
                            assert(sp_server_items(ls, lend as int + 1, end as int) == Ok::<
                                _,
                                ParseError,
                            >((
                                Seq::<Seq<char>>::empty(),
                                Seq::<Seq<char>>::empty(),
                                Seq::<LocationModel>::empty(),
                                Seq::<DirectiveModel>::empty(),
                            )));
                            assert(sp_server_items(ls, next, end as int) == Ok::<
                                _,
                                ParseError,
                            >((
                                Seq::<Seq<char>>::empty(),
                                Seq::<Seq<char>>::empty(),
                                Seq::<LocationModel>::empty(),
                                Seq::<DirectiveModel>::empty(),
                            )));
                        }
                        assert(sp_server_items(ls, lend as int + 1, end as int)
                            == sp_server_items(ls, next, end as int));
                        if sp_server_items(ls, next, end as int) is Ok {
                            let rest = sp_server_items(ls, next, end as int)->Ok_0;
                            assert(old_locs.push(lm) + rest.2 =~= old_locs + (seq![lm] + rest.2));
                        }
                        assert(sp_server_items(ls, i0, end as int) == (match sp_server_items(
                            ls,
                            next,
                            end as int,
                        ) {
                            Ok(rest) => Ok::<_, ParseError>(
                                (rest.0, rest.1, seq![lm] + rest.2, rest.3),
                            ),
                            Err(e) => Err(e),
                        }));
                    }
                    i = lend + 1;
                    proof {
                        assert(sp_server_items(ls, start + 1 as int, end as int) == (
                        match sp_server_items(ls, i as int, end as int) {
                            Ok(rest) => Ok::<_, ParseError>(
                                (
                                    listen.deep_view() + rest.0,
                                    names.deep_view() + rest.1,
                                    locs.deep_view() + rest.2,
                                    dirs.deep_view() + rest.3,
                                ),
                            ),
                            Err(e) => Err(e),
                        }));
                    }
                },
                Err(e) => {
                    proof {
                        assert(sp_server_items(ls, i0, end as int) == Err::<
                            (Seq<Seq<char>>, Seq<Seq<char>>, Seq<LocationModel>, Seq<
                                DirectiveModel,
                            >),
                            _,
                        >(e));
                    }
                    return Err(e);
                },
            }
            continue;
        }
        match parse_directive(t.as_str(), i + 1) {
            Some(d) => {
                let ghost dm = DirectiveModel { name: d.name@, value: d.value@, line: i as int + 1 };
                let val = d.value.clone();
                let is_listen = str_eq(d.name.as_str(), "listen");
                let is_server_name = str_eq(d.name.as_str(), "server_name");
                let ghost old_dirs = dirs.deep_view();
                dirs.push(d);
                proof {
                    assert(dirs.deep_view() =~= old_dirs.push(dm));
                    if sp_server_items(ls, i as int + 1, end as int) is Ok {
                        let rest = sp_server_items(ls, i as int + 1, end as int)->Ok_0;
                        assert(old_dirs.push(dm) + rest.3 =~= old_dirs + (seq![dm] + rest.3));
                    }
                }
                if is_listen {
                    let ghost old_listen = listen.deep_view();
                    listen.push(val);
                    proof {
                        assert(listen.deep_view() =~= old_listen.push(dm.value));
                        if sp_server_items(ls, i as int + 1, end as int) is Ok {
                            let rest = sp_server_items(ls, i as int + 1, end as int)->Ok_0;
                            assert(old_listen.push(dm.value) + rest.0 =~= old_listen + (seq![
                                dm.value,
                            ] + rest.0));
                        }
                        assert(dm.name == "listen"@);
                        assert(dm.name != "server_name"@);
                        assert(sp_server_items(ls, i as int, end as int) == (
                        match sp_server_items(ls, i as int + 1, end as int) {
                            Ok(rest) => Ok::<_, ParseError>(
                                (seq![dm.value] + rest.0, rest.1, rest.2, seq![dm] + rest.3),
                            ),
                            Err(e) => Err(e),
                        }));
                        assert(sp_server_items(ls, start + 1 as int, end as int) == (
                        match sp_server_items(ls, i as int + 1, end as int) {
                            Ok(rest) => Ok::<_, ParseError>(
                                (
                                    listen.deep_view() + rest.0,
                                    names.deep_view() + rest.1,
                                    locs.deep_view() + rest.2,
                                    dirs.deep_view() + rest.3,
                                ),
                            ),
                            Err(e) => Err(e),
                        }));
                    }
                } else if is_server_name {
                    let vparts = split_whitespace_str(val.as_str());
                    let ghost old_names = names.deep_view();
                    let mut k: usize = 0;
                    proof {
                        assert(old_names + vparts.deep_view().subrange(0, 0) =~= old_names);
                    }
                    while k < vparts.len()
                        invariant
                            0 <= k <= vparts@.len(),
                            names.deep_view() == old_names + vparts.deep_view().subrange(
                                0,
                                k as int,
                            ),
                        decreases vparts@.len() - k,
                    {
                        let ghost prev = names.deep_view();
                        names.push(vparts[k].clone());
                        proof {
                            assert(names.deep_view() =~= prev.push(vparts.deep_view()[k as int]));
                            assert(prev.push(vparts.deep_view()[k as int]) =~= old_names
                                + vparts.deep_view().subrange(0, k as int + 1));
                        }
                        k += 1;
                    }
                    proof {
                        assert(vparts.deep_view().subrange(0, vparts@.len() as int)
                            =~= sp_split_ws(dm.value));
                        assert(names.deep_view() == old_names + sp_split_ws(dm.value));
                        if sp_server_items(ls, i as int + 1, end as int) is Ok {
                            let rest = sp_server_items(ls, i as int + 1, end as int)->Ok_0;
                            assert((old_names + sp_split_ws(dm.value)) + rest.1 =~= old_names + (
                            sp_split_ws(dm.value) + rest.1));
                        }
                        assert(sp_server_items(ls, start + 1 as int, end as int) == (
                        match sp_server_items(ls, i as int + 1, end as int) {
                            Ok(rest) => Ok::<_, ParseError>(
                                (
                                    listen.deep_view() + rest.0,
                                    names.deep_view() + rest.1,
                                    locs.deep_view() + rest.2,
                                    dirs.deep_view() + rest.3,
                                ),
                            ),
                            Err(e) => Err(e),
                        }));
                    }
                } else {
                    proof {
                        assert(sp_server_items(ls, start + 1 as int, end as int) == (
                        match sp_server_items(ls, i as int + 1, end as int) {
                            Ok(rest) => Ok::<_, ParseError>(
                                (
                                    listen.deep_view() + rest.0,
                                    names.deep_view() + rest.1,
                                    locs.deep_view() + rest.2,
                                    dirs.deep_view() + rest.3,
                                ),
                            ),
                            Err(e) => Err(e),
                        }));
                    }
                }
            },
            None => {
                proof {
                    assert(sp_server_items(ls, i as int, end as int) == sp_server_items(
                        ls,
                        i as int + 1,
                        end as int,
                    ));
                    assert(sp_server_items(ls, start + 1 as int, end as int) == (
                    match sp_server_items(ls, i as int + 1, end as int) {
                        Ok(rest) => Ok::<_, ParseError>(
                            (
                                listen.deep_view() + rest.0,
                                names.deep_view() + rest.1,
                                locs.deep_view() + rest.2,
                                dirs.deep_view() + rest.3,
                            ),
                        ),
                        Err(e) => Err(e),
                    }));
                }
            },
        }
        i += 1;
    }
    proof {
        assert(sp_server_items(ls, i as int, end as int) == Ok::<_, ParseError>((
            Seq::<Seq<char>>::empty(),
            Seq::<Seq<char>>::empty(),
            Seq::<LocationModel>::empty(),
            Seq::<DirectiveModel>::empty(),
        )));
        assert(listen.deep_view() + Seq::<Seq<char>>::empty() =~= listen.deep_view());
        assert(names.deep_view() + Seq::<Seq<char>>::empty() =~= names.deep_view());
        assert(locs.deep_view() + Seq::<LocationModel>::empty() =~= locs.deep_view());
        assert(dirs.deep_view() + Seq::<DirectiveModel>::empty() =~= dirs.deep_view());
    }
    let mut id = String::from_str("server_");
    id.append(usize_to_string(start).as_str());
    proof {
        assert(id@ =~= "server_"@ + sp_dec(start as nat));
    }
    let raw = join_range(lines, start, end + 1, "\n");
    proof {
        reveal_strlit("\n");
        assert("\n"@ =~= seq!['\n']);
    }
    let sb = ServerBlock {
        id,
        listen,
        server_name: names,
        locations: locs,
        directives: dirs,
        raw_content: raw,
        start_line: start + 1,
        end_line: end + 1,
    };
    Ok((sb, end))
}

/// Walks all lines from the top: server blocks and global directives.
pub fn parse_items(lines: &Vec<String>) -> (r: Result<
    (Vec<ServerBlock>, Vec<Directive>),
    ParseError,
>)
    requires
        sp_total_chars(lines.deep_view()) <= usize::MAX as int,
    ensures
        match r {
            Ok((ss, gs)) => sp_config_items(lines.deep_view(), 0) == Ok::<_, ParseError>(
                (ss.deep_view(), gs.deep_view()),
            ),
            Err(e) => sp_config_items(lines.deep_view(), 0) == Err::<
                (Seq<ServerModel>, Seq<DirectiveModel>),
                _,
            >(e),
        },
{
    let ghost ls = lines.deep_view();
    let n = lines.len();
    let mut servers: Vec<ServerBlock> = Vec::new();
    let mut globals: Vec<Directive> = Vec::new();
    let mut i: usize = 0;
    proof {
        assert(servers.deep_view() =~= Seq::<ServerModel>::empty());
        assert(globals.deep_view() =~= Seq::<DirectiveModel>::empty());
        if sp_config_items(ls, 0) is Ok {
            let rest = sp_config_items(ls, 0)->Ok_0;
            assert(servers.deep_view() + rest.0 =~= rest.0);
            assert(globals.deep_view() + rest.1 =~= rest.1);
        }
    }
    while i < n
        invariant
            0 <= i <= n,
            n == ls.len(),
            ls == lines.deep_view(),
            sp_total_chars(ls) <= usize::MAX as int,
            sp_config_items(ls, 0) == (match sp_config_items(ls, i as int) {
                Ok(rest) => Ok::<_, ParseError>(
                    (servers.deep_view() + rest.0, globals.deep_view() + rest.1),
                ),
                Err(e) => Err(e),
            }),
        decreases n - i,
    {
        proof {
            assert(lines@[i as int]@ == ls[i as int]);
        }
        let t = trim_str(lines[i].as_str());
        let tn = t.as_str().unicode_len();
        if tn == 0 || t.as_str().get_char(0) == '#' {
            i += 1;
            continue;
        }
        if starts_with_str(t.as_str(), "server") && contains_char(t.as_str(), '{') {
            match parse_server_block(lines, i) {
                Ok((sb, send)) => {
                    let ghost old_servers = servers.deep_view();
                    let ghost sm = sb@;
                    servers.push(sb);
                    proof {
                        assert(servers.deep_view() =~= old_servers.push(sm));
                        let up = if send as int + 1 > i as int + 1 {
                            send as int + 1
                        } else {
                            i as int + 1
                        };
                        let next = if up > ls.len() {
                            ls.len() as int
                        } else {
                            up
                        };
                        assert(sp_config_items(ls, send as int + 1) == sp_config_items(ls, next));
                        if sp_config_items(ls, next) is Ok {
                            let rest = sp_config_items(ls, next)->Ok_0;
                            assert(old_servers.push(sm) + rest.0 =~= old_servers + (seq![sm]
                                + rest.0));
                        }
                    }
                    i = send + 1;
                },
                Err(e) => {
                    return Err(e);
                },
            }
            continue;
        }
        match parse_directive(t.as_str(), i + 1) {
            Some(d) => {
                let ghost dm = DirectiveModel { name: d.name@, value: d.value@, line: i as int + 1 };
                let ghost old_globals = globals.deep_view();
                globals.push(d);
                proof {
                    assert(globals.deep_view() =~= old_globals.push(dm));
                    if sp_config_items(ls, i as int + 1) is Ok {
                        let rest = sp_config_items(ls, i as int + 1)->Ok_0;
                        assert(old_globals.push(dm) + rest.1 =~= old_globals + (seq![dm]
                            + rest.1));
                    }
                }
            },
            None => {
            },
        }
        i += 1;
    }
    proof {
        assert(sp_config_items(ls, i as int) == Ok::<_, ParseError>((
            Seq::<ServerModel>::empty(),
            Seq::<DirectiveModel>::empty(),
        )));
        assert(servers.deep_view() + Seq::<ServerModel>::empty() =~= servers.deep_view());
        assert(globals.deep_view() + Seq::<DirectiveModel>::empty() =~= globals.deep_view());
    }
    Ok((servers, globals))
}

/// Parses a whole configuration file.
pub fn parse_nginx_config(content: &str, file_path: &str) -> (r: Result<NginxConfig, ParseError>)
    ensures
        match r {
            Ok(c) => sp_parse_config(content@, file_path@) == Ok::<_, ParseError>(c@),
            Err(e) => sp_parse_config(content@, file_path@) == Err::<ConfigModel, _>(e),
        },
{
    let total = content.unicode_len();
    let lines = split_lines(content);
    proof {
        lemma_lines_total(content@);
    }
    match parse_items(&lines) {
        Err(e) => Err(e),
        Ok((servers, globals)) => Ok(
            NginxConfig {
                servers,
                global_directives: globals,
                file_path: file_path.to_owned(),
                raw_content: content.to_owned(),
            },
        ),
    }
}

} // verus!
