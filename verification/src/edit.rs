//! The mutation engine: render a block from structured fields or take the
//! caller's literal text, locate the target range against a fresh parse,
//! and splice — every line outside the replaced range is carried through
//! unchanged.
use vstd::prelude::*;

verus! {

use vstd::string::StrSliceExecFns;
use vstd::string::StringExecFns;
use crate::braces::{find_http_block, sp_find_http_block};
use crate::lines::{
    extend_range, join_range, lemma_lines_total, sp_join_lines, sp_join_sep, sp_lines, split_lines,
};
use crate::model::{
    DirectiveInputModel, EditError, EditErrorModel, LocationBlock, LocationBlockInput,
    LocationInputModel, LocationModel, ParseError, ServerBlock, ServerBlockInput,
    ServerInputModel, ServerModel,
};
use crate::parse::{parse_items, sp_config_items};
use crate::strutil::{sp_trim, str_eq, trim_str};

// ---------------------------------------------------------------------------
// Rendering a server block from structured fields
// ---------------------------------------------------------------------------

/// One `    listen value;` line per entry, in input order.
pub open spec fn sp_listen_lines(listen: Seq<Seq<char>>) -> Seq<char>
    decreases listen.len(),
{
    if listen.len() == 0 {
        Seq::empty()
    } else {
        "    listen "@ + listen[0] + ";\n"@ + sp_listen_lines(listen.skip(1))
    }
}

/// One space-joined `    server_name ...;` line, only when non-empty.
pub open spec fn sp_server_name_line(names: Seq<Seq<char>>) -> Seq<char> {
    if names.len() == 0 {
        Seq::empty()
    } else {
        "    server_name "@ + sp_join_sep(names, " "@) + ";\n"@
    }
}

/// One `name value;` (or bare `name;`) line per directive, each behind the
/// given indentation.
pub open spec fn sp_dir_lines(dirs: Seq<DirectiveInputModel>, ind: Seq<char>) -> Seq<char>
    decreases dirs.len(),
{
    if dirs.len() == 0 {
        Seq::empty()
    } else {
        let d = dirs[0];
        (if d.value.len() == 0 {
            ind + d.name + ";\n"@
        } else {
            ind + d.name + " "@ + d.value + ";\n"@
        }) + sp_dir_lines(dirs.skip(1), ind)
    }
}

/// The rendered interior of a server block.
pub open spec fn sp_server_body(input: ServerInputModel) -> Seq<char> {
    sp_listen_lines(input.listen) + sp_server_name_line(input.server_name) + sp_dir_lines(
        input.directives,
        "    "@,
    )
}

/// The raw text of each kept location block, each preceded by a blank line.
pub open spec fn sp_location_raws(locs: Seq<LocationModel>) -> Seq<char>
    decreases locs.len(),
{
    if locs.len() == 0 {
        Seq::empty()
    } else {
        "\n"@ + locs[0].raw_content + sp_location_raws(locs.skip(1))
    }
}

fn render_listen_lines(listen: &Vec<String>, k: usize) -> (r: String)
    requires
        k <= listen@.len(),
    ensures
        r@ == sp_listen_lines(listen.deep_view().skip(k as int)),
    decreases listen@.len() - k,
{
    if k == listen.len() {
        proof {
            assert(listen.deep_view().skip(k as int) =~= Seq::<Seq<char>>::empty());
        }
        String::new()
    } else {
        let mut s = String::from_str("    listen ");
        s.append(listen[k].as_str());
        s.append(";\n");
        let rest = render_listen_lines(listen, k + 1);
        s.append(rest.as_str());
        proof {
            let dv = listen.deep_view();
            assert(dv.skip(k as int)[0] == dv[k as int]);
            assert(dv.skip(k as int).skip(1) =~= dv.skip(k as int + 1));
            assert(s@ =~= sp_listen_lines(dv.skip(k as int)));
        }
        s
    }
}

fn render_server_name_line(names: &Vec<String>) -> (r: String)
    ensures
        r@ == sp_server_name_line(names.deep_view()),
{
    if names.len() == 0 {
        proof {
            assert(names.deep_view().len() == 0);
        }
        String::new()
    } else {
        let mut s = String::from_str("    server_name ");
        let joined = join_range(names, 0, names.len(), " ");
        s.append(joined.as_str());
        s.append(";\n");
        proof {
            assert(names.deep_view().subrange(0, names@.len() as int) =~= names.deep_view());
            assert(s@ =~= sp_server_name_line(names.deep_view()));
        }
        s
    }
}

fn render_dir_lines(dirs: &Vec<crate::model::DirectiveInput>, k: usize, ind: &str) -> (r: String)
    requires
        k <= dirs@.len(),
    ensures
        r@ == sp_dir_lines(dirs.deep_view().skip(k as int), ind@),
    decreases dirs@.len() - k,
{
    if k == dirs.len() {
        proof {
            assert(dirs.deep_view().skip(k as int) =~= Seq::<DirectiveInputModel>::empty());
        }
        String::new()
    } else {
        let mut s = String::from_str(ind);
        s.append(dirs[k].name.as_str());
        if dirs[k].value.unicode_len() > 0 {
            s.append(" ");
            s.append(dirs[k].value.as_str());
        }
        s.append(";\n");
        let rest = render_dir_lines(dirs, k + 1, ind);
        s.append(rest.as_str());
        proof {
            let dv = dirs.deep_view();
            assert(dv.skip(k as int)[0] == dv[k as int]);
            assert(dv.skip(k as int).skip(1) =~= dv.skip(k as int + 1));
            assert(s@ =~= sp_dir_lines(dv.skip(k as int), ind@));
        }
        s
    }
}

fn render_location_raws(locs: &Vec<LocationBlock>, k: usize) -> (r: String)
    requires
        k <= locs@.len(),
    ensures
        r@ == sp_location_raws(locs.deep_view().skip(k as int)),
    decreases locs@.len() - k,
{
    if k == locs.len() {
        proof {
            assert(locs.deep_view().skip(k as int) =~= Seq::<LocationModel>::empty());
        }
        String::new()
    } else {
        let mut s = String::from_str("\n");
        s.append(locs[k].raw_content.as_str());
        let rest = render_location_raws(locs, k + 1);
        s.append(rest.as_str());
        proof {
            let dv = locs.deep_view();
            assert(dv.skip(k as int)[0] == dv[k as int]);
            assert(dv.skip(k as int).skip(1) =~= dv.skip(k as int + 1));
            assert(s@ =~= sp_location_raws(dv.skip(k as int)));
        }
        s
    }
}

// ---------------------------------------------------------------------------
// Locating a server block by identifier
// ---------------------------------------------------------------------------

/// The first server whose derived identifier equals `id`.
pub open spec fn sp_find_server(ss: Seq<ServerModel>, id: Seq<char>) -> Option<ServerModel>
    decreases ss.len(),
{
    if ss.len() == 0 {
        None
    } else if ss[0].id == id {
        Some(ss[0])
    } else {
        sp_find_server(ss.skip(1), id)
    }
}

fn find_server<'a>(servers: &'a Vec<ServerBlock>, id: &str) -> (r: Option<&'a ServerBlock>)
    ensures
        match r {
            Some(sb) => sp_find_server(servers.deep_view(), id@) == Some(sb@),
            None => sp_find_server(servers.deep_view(), id@) is None,
        },
{
    let ghost dv = servers.deep_view();
    let n = servers.len();
    let mut j: usize = 0;
    proof {
        assert(dv.skip(0) =~= dv);
    }
    while j < n
        invariant
            0 <= j <= n,
            n == dv.len(),
            dv == servers.deep_view(),
            sp_find_server(dv, id@) == sp_find_server(dv.skip(j as int), id@),
        decreases n - j,
    {
        proof {
            assert(dv.skip(j as int)[0] == dv[j as int]);
            assert(dv.skip(j as int).skip(1) =~= dv.skip(j as int + 1));
        }
        if str_eq(servers[j].id.as_str(), id) {
            return Some(&servers[j]);
        }
        j += 1;
    }
    proof {
        assert(dv.skip(n as int) =~= Seq::<ServerModel>::empty());
    }
    None
}

// ---------------------------------------------------------------------------
// The operations, over the line sequence
// ---------------------------------------------------------------------------

/// Appending a structured server block to the end of the file text; this
/// operation never parses the file.
pub open spec fn sp_add_server_append(content: Seq<char>, input: ServerInputModel) -> Seq<char> {
    content + "\nserver {\n"@ + sp_server_body(input) + "}\n"@
}

/// The rendered replacement for an updated server block: the structured
/// fields, then the untouched raw text of every location block it had.
pub open spec fn sp_update_server_text(input: ServerInputModel, locs: Seq<LocationModel>) -> Seq<
    char,
> {
    "server {\n"@ + sp_server_body(input) + sp_location_raws(locs) + "}\n"@
}

/// The line sequence after rewriting the server with identifier `id` from
/// `input`, against a fresh parse of `content`.
pub open spec fn sp_update_server_lines(
    content: Seq<char>,
    id: Seq<char>,
    input: ServerInputModel,
) -> Result<Seq<Seq<char>>, EditErrorModel> {
    let ls = sp_lines(content);
    match sp_config_items(ls, 0) {
        Err(e) => Err(EditErrorModel::Parse(e)),
        Ok(items) => match sp_find_server(items.0, id) {
            None => Err(EditErrorModel::NotFound(id)),
            Some(sb) => Ok(
                ls.subrange(0, sb.start_line - 1) + sp_lines(
                    sp_update_server_text(input, sb.locations),
                ) + ls.skip(sb.end_line),
            ),
        },
    }
}

/// The full text after rewriting a server block.
pub open spec fn sp_update_server(
    content: Seq<char>,
    id: Seq<char>,
    input: ServerInputModel,
) -> Result<Seq<char>, EditErrorModel> {
    match sp_update_server_lines(content, id, input) {
        Err(e) => Err(e),
        Ok(nl) => Ok(sp_join_lines(nl)),
    }
}

/// The line sequence after deleting the server with identifier `id`: its
/// lines are omitted, everything else is kept in order.
pub open spec fn sp_delete_server_lines(content: Seq<char>, id: Seq<char>) -> Result<
    Seq<Seq<char>>,
    EditErrorModel,
> {
    let ls = sp_lines(content);
    match sp_config_items(ls, 0) {
        Err(e) => Err(EditErrorModel::Parse(e)),
        Ok(items) => match sp_find_server(items.0, id) {
            None => Err(EditErrorModel::NotFound(id)),
            Some(sb) => Ok(ls.subrange(0, sb.start_line - 1) + ls.skip(sb.end_line)),
        },
    }
}

pub open spec fn sp_delete_server(content: Seq<char>, id: Seq<char>) -> Result<
    Seq<char>,
    EditErrorModel,
> {
    match sp_delete_server_lines(content, id) {
        Err(e) => Err(e),
        Ok(nl) => Ok(sp_join_lines(nl)),
    }
}

/// The rendered text of a location block to insert, blank-line-prefixed
/// and indented one level, its directives two levels.
pub open spec fn sp_location_text(li: LocationInputModel) -> Seq<char> {
    "\n    location "@ + (match li.modifier {
        Some(m) => m + " "@,
        None => Seq::empty(),
    }) + li.path + " {\n"@ + sp_dir_lines(li.directives, "        "@) + "    }\n"@
}

/// The line sequence after inserting a location block immediately before
/// the closing line of the server with identifier `id`.
pub open spec fn sp_add_location_lines(
    content: Seq<char>,
    id: Seq<char>,
    li: LocationInputModel,
) -> Result<Seq<Seq<char>>, EditErrorModel> {
    let ls = sp_lines(content);
    match sp_config_items(ls, 0) {
        Err(e) => Err(EditErrorModel::Parse(e)),
        Ok(items) => match sp_find_server(items.0, id) {
            None => Err(EditErrorModel::NotFound(id)),
            Some(sb) => Ok(
                ls.subrange(0, sb.end_line - 1) + sp_lines(sp_location_text(li)) + ls.skip(
                    sb.end_line - 1,
                ),
            ),
        },
    }
}

pub open spec fn sp_add_location(
    content: Seq<char>,
    id: Seq<char>,
    li: LocationInputModel,
) -> Result<Seq<char>, EditErrorModel> {
    match sp_add_location_lines(content, id, li) {
        Err(e) => Err(e),
        Ok(nl) => Ok(sp_join_lines(nl)),
    }
}

/// A caller-supplied block, trimmed, indented one level (blank lines kept
/// blank), and blank-line-padded.
pub open spec fn sp_indent_block(tls: Seq<Seq<char>>) -> Seq<Seq<char>> {
    Seq::new(
        tls.len(),
        |i: int|
            if sp_trim(tls[i]).len() == 0 {
                Seq::empty()
            } else {
                "    "@ + tls[i]
            },
    )
}

/// The line sequence after inserting caller-supplied server text
/// immediately before the closing line of the enclosing `http` block.
pub open spec fn sp_gen_add_server_lines(content: Seq<char>, text: Seq<char>) -> Result<
    Seq<Seq<char>>,
    ParseError,
> {
    let ls = sp_lines(content);
    match sp_find_http_block(ls) {
        Err(e) => Err(e),
        Ok((h, he)) => Ok(
            ls.subrange(0, he) + seq![Seq::<char>::empty()] + sp_indent_block(
                sp_lines(sp_trim(text)),
            ) + seq![Seq::<char>::empty()] + ls.skip(he),
        ),
    }
}

pub open spec fn sp_gen_add_server(content: Seq<char>, text: Seq<char>) -> Result<
    Seq<char>,
    ParseError,
> {
    match sp_gen_add_server_lines(content, text) {
        Err(e) => Err(e),
        Ok(nl) => Ok(sp_join_lines(nl)),
    }
}

/// The line sequence after replacing the lines of the server with
/// identifier `id` by caller-supplied literal text.
pub open spec fn sp_gen_update_server_lines(
    content: Seq<char>,
    id: Seq<char>,
    text: Seq<char>,
) -> Result<Seq<Seq<char>>, EditErrorModel> {
    let ls = sp_lines(content);
    match sp_config_items(ls, 0) {
        Err(e) => Err(EditErrorModel::Parse(e)),
        Ok(items) => match sp_find_server(items.0, id) {
            None => Err(EditErrorModel::NotFound(id)),
            Some(sb) => Ok(
                ls.subrange(0, sb.start_line - 1) + sp_lines(text) + ls.skip(sb.end_line),
            ),
        },
    }
}

pub open spec fn sp_gen_update_server(content: Seq<char>, id: Seq<char>, text: Seq<char>) -> Result<
    Seq<char>,
    EditErrorModel,
> {
    match sp_gen_update_server_lines(content, id, text) {
        Err(e) => Err(e),
        Ok(nl) => Ok(sp_join_lines(nl)),
    }
}

// ---------------------------------------------------------------------------
// Executable operations
// ---------------------------------------------------------------------------

/// The new full text after appending a structured server block to the end
/// of the file content.
pub fn add_server_block_content(content: &str, input: &ServerBlockInput) -> (r: String)
    ensures
        r@ == sp_add_server_append(content@, input@),
{
    let mut s = String::from_str(content);
    s.append("\nserver {\n");
    s.append(render_listen_lines(&input.listen, 0).as_str());
    s.append(render_server_name_line(&input.server_name).as_str());
    s.append(render_dir_lines(&input.directives, 0, "    ").as_str());
    s.append("}\n");
    proof {
        assert(input.listen.deep_view().skip(0) =~= input.listen.deep_view());
        assert(input.directives.deep_view().skip(0) =~= input.directives.deep_view());
        assert(s@ =~= sp_add_server_append(content@, input@));
    }
    s
}

/// The rendered replacement text for an updated server block.
fn render_update_text(input: &ServerBlockInput, locs: &Vec<LocationBlock>) -> (r: String)
    ensures
        r@ == sp_update_server_text(input@, locs.deep_view()),
{
    let mut s = String::from_str("server {\n");
    s.append(render_listen_lines(&input.listen, 0).as_str());
    s.append(render_server_name_line(&input.server_name).as_str());
    s.append(render_dir_lines(&input.directives, 0, "    ").as_str());
    s.append(render_location_raws(locs, 0).as_str());
    s.append("}\n");
    proof {
        assert(input.listen.deep_view().skip(0) =~= input.listen.deep_view());
        assert(input.directives.deep_view().skip(0) =~= input.directives.deep_view());
        assert(locs.deep_view().skip(0) =~= locs.deep_view());
        assert(s@ =~= sp_update_server_text(input@, locs.deep_view()));
    }
    s
}

/// The rendered text of a location block to insert.
fn render_location_text(li: &LocationBlockInput) -> (r: String)
    ensures
        r@ == sp_location_text(li@),
{
    let mut s = String::from_str("\n    location ");
    match &li.modifier {
        Some(m) => {
            s.append(m.as_str());
            s.append(" ");
        },
        None => {
        },
    }
    s.append(li.path.as_str());
    s.append(" {\n");
    s.append(render_dir_lines(&li.directives, 0, "        ").as_str());
    s.append("    }\n");
    proof {
        assert(li.directives.deep_view().skip(0) =~= li.directives.deep_view());
        assert(s@ =~= sp_location_text(li@));
    }
    s
}

/// The new full text after rewriting the server with identifier
/// `server_id` from the structured input, keeping its location blocks'
/// raw text; fails when the file does not parse or the identifier does
/// not resolve.
#[verifier::loop_isolation(false)]
pub fn update_server_block_content(content: &str, server_id: &str, input: &ServerBlockInput) -> (r:
    Result<String, EditError>)
    ensures
        match r {
            Ok(s) => sp_update_server(content@, server_id@, input@) == Ok::<_, EditErrorModel>(s@),
            Err(e) => sp_update_server(content@, server_id@, input@) == Err::<Seq<char>, _>(e@),
        },
{
    let _total = content.unicode_len();
    let lines = split_lines(content);
    proof {
        lemma_lines_total(content@);
    }
    let ghost ls = lines.deep_view();
    let (servers, _globals) = match parse_items(&lines) {
        Ok(p) => p,
        Err(e) => {
            return Err(EditError::Parse { error: e });
        },
    };
    let sb = match find_server(&servers, server_id) {
        Some(s) => s,
        None => {
            return Err(EditError::NotFound { id: server_id.to_owned() });
        },
    };
    proof {
        crate::laws::lemma_config_items_wf(ls, 0);
        lemma_find_server_in(servers.deep_view(), server_id@);
        assert(crate::laws::sp_server_wf(sb@, ls));
    }
    let text = render_update_text(input, &sb.locations);
    let tlines = split_lines(text.as_str());
    let mut nl: Vec<String> = Vec::new();
    extend_range(&mut nl, &lines, 0, sb.start_line - 1);
    extend_range(&mut nl, &tlines, 0, tlines.len());
    extend_range(&mut nl, &lines, sb.end_line, lines.len());
    proof {
        assert(tlines.deep_view().subrange(0, tlines@.len() as int) =~= tlines.deep_view());
        assert(ls.subrange(sb.end_line as int, ls.len() as int) =~= ls.skip(sb.end_line as int));
        assert(nl.deep_view() =~= ls.subrange(0, sb.start_line - 1) + sp_lines(
            sp_update_server_text(input@, sb@.locations),
        ) + ls.skip(sb.end_line as int));
    }
    let out = join_range(&nl, 0, nl.len(), "\n");
    proof {
        reveal_strlit("\n");
        assert("\n"@ =~= seq!['\n']);
        assert(nl.deep_view().subrange(0, nl@.len() as int) =~= nl.deep_view());
    }
    Ok(out)
}

/// The new full text after deleting the server with identifier
/// `server_id`: exactly its lines are omitted.
pub fn delete_server_block_content(content: &str, server_id: &str) -> (r: Result<String, EditError>)
    ensures
        match r {
            Ok(s) => sp_delete_server(content@, server_id@) == Ok::<_, EditErrorModel>(s@),
            Err(e) => sp_delete_server(content@, server_id@) == Err::<Seq<char>, _>(e@),
        },
{
    let _total = content.unicode_len();
    let lines = split_lines(content);
    proof {
        lemma_lines_total(content@);
    }
    let ghost ls = lines.deep_view();
    let (servers, _globals) = match parse_items(&lines) {
        Ok(p) => p,
        Err(e) => {
            return Err(EditError::Parse { error: e });
        },
    };
    let sb = match find_server(&servers, server_id) {
        Some(s) => s,
        None => {
            return Err(EditError::NotFound { id: server_id.to_owned() });
        },
    };
    proof {
        crate::laws::lemma_config_items_wf(ls, 0);
        lemma_find_server_in(servers.deep_view(), server_id@);
        assert(crate::laws::sp_server_wf(sb@, ls));
    }
    let mut nl: Vec<String> = Vec::new();
    extend_range(&mut nl, &lines, 0, sb.start_line - 1);
    extend_range(&mut nl, &lines, sb.end_line, lines.len());
    proof {
        assert(ls.subrange(sb.end_line as int, ls.len() as int) =~= ls.skip(sb.end_line as int));
        assert(nl.deep_view() =~= ls.subrange(0, sb.start_line - 1) + ls.skip(
            sb.end_line as int,
        ));
    }
    let out = join_range(&nl, 0, nl.len(), "\n");
    proof {
        reveal_strlit("\n");
        assert("\n"@ =~= seq!['\n']);
        assert(nl.deep_view().subrange(0, nl@.len() as int) =~= nl.deep_view());
    }
    Ok(out)
}

/// The new full text after inserting a rendered location block
/// immediately before the closing line of the server with identifier
/// `server_id`.
pub fn add_location_content(content: &str, server_id: &str, li: &LocationBlockInput) -> (r: Result<
    String,
    EditError,
>)
    ensures
        match r {
            Ok(s) => sp_add_location(content@, server_id@, li@) == Ok::<_, EditErrorModel>(s@),
            Err(e) => sp_add_location(content@, server_id@, li@) == Err::<Seq<char>, _>(e@),
        },
{
    let _total = content.unicode_len();
    let lines = split_lines(content);
    proof {
        lemma_lines_total(content@);
    }
    let ghost ls = lines.deep_view();
    let (servers, _globals) = match parse_items(&lines) {
        Ok(p) => p,
        Err(e) => {
            return Err(EditError::Parse { error: e });
        },
    };
    let sb = match find_server(&servers, server_id) {
        Some(s) => s,
        None => {
            return Err(EditError::NotFound { id: server_id.to_owned() });
        },
    };
    proof {
        crate::laws::lemma_config_items_wf(ls, 0);
        lemma_find_server_in(servers.deep_view(), server_id@);
        assert(crate::laws::sp_server_wf(sb@, ls));
    }
    let text = render_location_text(li);
    let tlines = split_lines(text.as_str());
    let mut nl: Vec<String> = Vec::new();
    extend_range(&mut nl, &lines, 0, sb.end_line - 1);
    extend_range(&mut nl, &tlines, 0, tlines.len());
    extend_range(&mut nl, &lines, sb.end_line - 1, lines.len());
    proof {
        assert(tlines.deep_view().subrange(0, tlines@.len() as int) =~= tlines.deep_view());
        assert(ls.subrange(sb.end_line - 1, ls.len() as int) =~= ls.skip(sb.end_line - 1));
        assert(nl.deep_view() =~= ls.subrange(0, sb.end_line - 1) + sp_lines(sp_location_text(li@))
            + ls.skip(sb.end_line - 1));
    }
    let out = join_range(&nl, 0, nl.len(), "\n");
    proof {
        reveal_strlit("\n");
        assert("\n"@ =~= seq!['\n']);
        assert(nl.deep_view().subrange(0, nl@.len() as int) =~= nl.deep_view());
    }
    Ok(out)
}

/// The new full text after inserting caller-supplied server text, trimmed
/// and indented one level, immediately before the closing line of the
/// enclosing `http` block.
pub fn generate_add_server_text(content: &str, server_text: &str) -> (r: Result<String, ParseError>)
    ensures
        match r {
            Ok(s) => sp_gen_add_server(content@, server_text@) == Ok::<_, ParseError>(s@),
            Err(e) => sp_gen_add_server(content@, server_text@) == Err::<Seq<char>, _>(e),
        },
{
    let _total = content.unicode_len();
    let lines = split_lines(content);
    proof {
        lemma_lines_total(content@);
    }
    let ghost ls = lines.deep_view();
    let (_h, he) = match find_http_block(&lines) {
        Ok(p) => p,
        Err(e) => {
            return Err(e);
        },
    };
    let trimmed = trim_str(server_text);
    let tlines = split_lines(trimmed.as_str());
    let ghost tdv = tlines.deep_view();
    let mut ind: Vec<String> = Vec::new();
    let m = tlines.len();
    let mut k: usize = 0;
    proof {
        assert(ind.deep_view() =~= sp_indent_block(tdv).subrange(0, 0));
    }
    while k < m
        invariant
            0 <= k <= m,
            m == tdv.len(),
            tdv == tlines.deep_view(),
            ind.deep_view() == sp_indent_block(tdv).subrange(0, k as int),
        decreases m - k,
    {
        let ghost prev = ind.deep_view();
        proof {
            assert(tlines@[k as int]@ == tdv[k as int]);
        }
        let tr = trim_str(tlines[k].as_str());
        if tr.as_str().unicode_len() == 0 {
            ind.push(String::new());
        } else {
            let mut s = String::from_str("    ");
            s.append(tlines[k].as_str());
            ind.push(s);
        }
        proof {
            assert(ind.deep_view() =~= prev.push(sp_indent_block(tdv)[k as int]));
            assert(prev.push(sp_indent_block(tdv)[k as int]) =~= sp_indent_block(tdv).subrange(
                0,
                k as int + 1,
            ));
        }
        k += 1;
    }
    let mut nl: Vec<String> = Vec::new();
    extend_range(&mut nl, &lines, 0, he);
    let ghost nl1 = nl.deep_view();
    nl.push(String::new());
    proof {
        assert(nl.deep_view() =~= nl1 + seq![Seq::<char>::empty()]);
    }
    extend_range(&mut nl, &ind, 0, ind.len());
    let ghost nl2 = nl.deep_view();
    nl.push(String::new());
    proof {
        assert(nl.deep_view() =~= nl2 + seq![Seq::<char>::empty()]);
    }
    extend_range(&mut nl, &lines, he, lines.len());
    proof {
        assert(sp_indent_block(tdv).subrange(0, m as int) =~= sp_indent_block(tdv));
        assert(ind.deep_view().subrange(0, ind@.len() as int) =~= ind.deep_view());
        assert(ls.subrange(he as int, ls.len() as int) =~= ls.skip(he as int));
        assert(nl.deep_view() =~= ls.subrange(0, he as int) + seq![Seq::<char>::empty()]
            + sp_indent_block(sp_lines(sp_trim(server_text@))) + seq![Seq::<char>::empty()]
            + ls.skip(he as int));
    }
    let out = join_range(&nl, 0, nl.len(), "\n");
    proof {
        reveal_strlit("\n");
        assert("\n"@ =~= seq!['\n']);
        assert(nl.deep_view().subrange(0, nl@.len() as int) =~= nl.deep_view());
    }
    Ok(out)
}

/// The new full text after replacing the lines of the server with
/// identifier `server_id` by caller-supplied literal text.
pub fn generate_update_server_text(content: &str, server_id: &str, server_text: &str) -> (r: Result<
    String,
    EditError,
>)
    ensures
        match r {
            Ok(s) => sp_gen_update_server(content@, server_id@, server_text@) == Ok::<
                _,
                EditErrorModel,
            >(s@),
            Err(e) => sp_gen_update_server(content@, server_id@, server_text@) == Err::<
                Seq<char>,
                _,
            >(e@),
        },
{
    let _total = content.unicode_len();
    let lines = split_lines(content);
    proof {
        lemma_lines_total(content@);
    }
    let ghost ls = lines.deep_view();
    let (servers, _globals) = match parse_items(&lines) {
        Ok(p) => p,
        Err(e) => {
            return Err(EditError::Parse { error: e });
        },
    };
    let sb = match find_server(&servers, server_id) {
        Some(s) => s,
        None => {
            return Err(EditError::NotFound { id: server_id.to_owned() });
        },
    };
    proof {
        crate::laws::lemma_config_items_wf(ls, 0);
        lemma_find_server_in(servers.deep_view(), server_id@);
        assert(crate::laws::sp_server_wf(sb@, ls));
    }
    let tlines = split_lines(server_text);
    let mut nl: Vec<String> = Vec::new();
    extend_range(&mut nl, &lines, 0, sb.start_line - 1);
    extend_range(&mut nl, &tlines, 0, tlines.len());
    extend_range(&mut nl, &lines, sb.end_line, lines.len());
    proof {
        assert(tlines.deep_view().subrange(0, tlines@.len() as int) =~= tlines.deep_view());
        assert(ls.subrange(sb.end_line as int, ls.len() as int) =~= ls.skip(sb.end_line as int));
        assert(nl.deep_view() =~= ls.subrange(0, sb.start_line - 1) + sp_lines(server_text@)
            + ls.skip(sb.end_line as int));
    }
    let out = join_range(&nl, 0, nl.len(), "\n");
    proof {
        reveal_strlit("\n");
        assert("\n"@ =~= seq!['\n']);
        assert(nl.deep_view().subrange(0, nl@.len() as int) =~= nl.deep_view());
    }
    Ok(out)
}

/// A found server stands in the list, so the facts that hold of every
/// listed server hold of it.
pub proof fn lemma_find_server_in(ss: Seq<ServerModel>, id: Seq<char>)
    ensures
        sp_find_server(ss, id) matches Some(sm) ==> exists|j: int|
            0 <= j < ss.len() && ss[j] == sm,
    decreases ss.len(),
{
    if ss.len() == 0 {
    } else if ss[0].id == id {
        assert(ss[0] == sp_find_server(ss, id)->Some_0);
    } else {
        lemma_find_server_in(ss.skip(1), id);
        if sp_find_server(ss, id) is Some {
            let sm = sp_find_server(ss, id)->Some_0;
            let j = choose|j: int| 0 <= j < ss.skip(1).len() && ss.skip(1)[j] == sm;
            assert(ss[j + 1] == sm);
        }
    }
}

} // verus!
