//! Splitting text into physical lines and joining lines back into text.
//!
//! A line break is a `\n`, optionally preceded by a `\r` that is dropped;
//! a final line break produces no empty last line. Joining uses a single
//! `\n` between lines, so splitting and joining are the exact model of how
//! the editor reads a file into lines and writes lines back.
use vstd::prelude::*;

verus! {

use vstd::string::StrSliceExecFns;
use vstd::string::StringExecFns;

// ---------------------------------------------------------------------------
// Splitting
// ---------------------------------------------------------------------------

/// Drops one trailing carriage return, as a `\r\n` line break requires.
pub open spec fn sp_strip_cr(s: Seq<char>) -> Seq<char> {
    if s.len() > 0 && s[s.len() - 1] == '\r' {
        s.take(s.len() - 1)
    } else {
        s
    }
}

pub open spec fn sp_lines_go(s: Seq<char>, cur: Seq<char>) -> Seq<Seq<char>>
    decreases s.len(),
{
    if s.len() == 0 {
        if cur.len() > 0 {
            seq![cur]
        } else {
            Seq::empty()
        }
    } else if s[0] == '\n' {
        seq![sp_strip_cr(cur)] + sp_lines_go(s.skip(1), Seq::empty())
    } else {
        sp_lines_go(s.skip(1), cur.push(s[0]))
    }
}

/// The physical lines of `s`.
pub open spec fn sp_lines(s: Seq<char>) -> Seq<Seq<char>> {
    sp_lines_go(s, Seq::empty())
}

/// Splits `s` into its physical lines.
pub fn split_lines(s: &str) -> (r: Vec<String>)
    ensures
        r.deep_view() == sp_lines(s@),
{
    let n = s.unicode_len();
    let mut out: Vec<String> = Vec::new();
    let mut ls: usize = 0;
    let mut i: usize = 0;
    proof {
        assert(out.deep_view() =~= Seq::<Seq<char>>::empty());
        assert(s@.skip(0) =~= s@);
        assert(s@.subrange(0, 0) =~= Seq::<char>::empty());
    }
    while i < n
        invariant
            0 <= ls <= i <= n,
            n == s@.len(),
            sp_lines(s@) == out.deep_view() + sp_lines_go(
                s@.skip(i as int),
                s@.subrange(ls as int, i as int),
            ),
        decreases n - i,
    {
        let ghost cur = s@.subrange(ls as int, i as int);
        proof {
            assert(s@.skip(i as int).len() > 0);
            assert(s@.skip(i as int)[0] == s@[i as int]);
            assert(s@.skip(i as int).skip(1) =~= s@.skip(i as int + 1));
        }
        if s.get_char(i) == '\n' {
            let pe: usize = if i > ls && s.get_char(i - 1) == '\r' {
                i - 1
            } else {
                i
            };
            proof {
                assert(sp_strip_cr(cur) =~= s@.subrange(ls as int, pe as int));
            }
            let piece = s.substring_char(ls, pe);
            let ghost old_dv = out.deep_view();
            out.push(piece.to_owned());
            proof {
                assert(out.deep_view() =~= old_dv.push(sp_strip_cr(cur)));
                assert(old_dv.push(sp_strip_cr(cur)) =~= old_dv + seq![sp_strip_cr(cur)]);
                assert((old_dv + seq![sp_strip_cr(cur)]) + sp_lines_go(
                    s@.skip(i as int + 1),
                    Seq::<char>::empty(),
                ) =~= old_dv + (seq![sp_strip_cr(cur)] + sp_lines_go(
                    s@.skip(i as int + 1),
                    Seq::<char>::empty(),
                )));
                assert(s@.subrange(i as int + 1, i as int + 1) =~= Seq::<char>::empty());
            }
            ls = i + 1;
        } else {
            proof {
                assert(cur.push(s@[i as int]) =~= s@.subrange(ls as int, i as int + 1));
            }
        }
        i += 1;
    }
    proof {
        assert(s@.skip(n as int) =~= Seq::<char>::empty());
    }
    if ls < n {
        let piece = s.substring_char(ls, n);
        let ghost old_dv = out.deep_view();
        out.push(piece.to_owned());
        proof {
            let cur = s@.subrange(ls as int, n as int);
            assert(out.deep_view() =~= old_dv.push(cur));
            assert(old_dv.push(cur) =~= old_dv + seq![cur]);
        }
    } else {
        proof {
            assert(s@.subrange(ls as int, n as int).len() == 0);
            assert(out.deep_view() + Seq::<Seq<char>>::empty() =~= out.deep_view());
        }
    }
    out
}

// ---------------------------------------------------------------------------
// Total character count of a line sequence
// ---------------------------------------------------------------------------

pub open spec fn sp_total_chars(ls: Seq<Seq<char>>) -> int
    decreases ls.len(),
{
    if ls.len() == 0 {
        0
    } else {
        ls[0].len() + sp_total_chars(ls.skip(1))
    }
}

pub proof fn lemma_total_nonneg(ls: Seq<Seq<char>>)
    ensures
        sp_total_chars(ls) >= 0,
    decreases ls.len(),
{
    if ls.len() > 0 {
        lemma_total_nonneg(ls.skip(1));
    }
}

pub proof fn lemma_total_concat(a: Seq<Seq<char>>, b: Seq<Seq<char>>)
    ensures
        sp_total_chars(a + b) == sp_total_chars(a) + sp_total_chars(b),
    decreases a.len(),
{
    if a.len() == 0 {
        assert(a + b =~= b);
    } else {
        assert((a + b).skip(1) =~= a.skip(1) + b);
        assert((a + b)[0] == a[0]);
        lemma_total_concat(a.skip(1), b);
    }
}

pub proof fn lemma_total_single(x: Seq<char>)
    ensures
        sp_total_chars(seq![x]) == x.len(),
{
    assert(seq![x].skip(1) =~= Seq::<Seq<char>>::empty());
    assert(sp_total_chars(Seq::<Seq<char>>::empty()) == 0);
    assert(seq![x][0] == x);
}

pub proof fn lemma_total_push(ls: Seq<Seq<char>>, x: Seq<char>)
    ensures
        sp_total_chars(ls.push(x)) == sp_total_chars(ls) + x.len(),
{
    assert(ls.push(x) =~= ls + seq![x]);
    lemma_total_concat(ls, seq![x]);
    lemma_total_single(x);
}

/// The characters of any slice of lines are no more than those of the whole.
pub proof fn lemma_total_subrange_le(ls: Seq<Seq<char>>, a: int, b: int)
    requires
        0 <= a <= b <= ls.len(),
    ensures
        sp_total_chars(ls.subrange(a, b)) <= sp_total_chars(ls),
{
    assert(ls =~= ls.subrange(0, a) + ls.subrange(a, b) + ls.subrange(b, ls.len() as int));
    lemma_total_concat(ls.subrange(0, a) + ls.subrange(a, b), ls.subrange(b, ls.len() as int));
    lemma_total_concat(ls.subrange(0, a), ls.subrange(a, b));
    lemma_total_nonneg(ls.subrange(0, a));
    lemma_total_nonneg(ls.subrange(b, ls.len() as int));
}

pub proof fn lemma_elem_le_total(ls: Seq<Seq<char>>, i: int)
    requires
        0 <= i < ls.len(),
    ensures
        ls[i].len() <= sp_total_chars(ls),
{
    assert(ls.subrange(i, i).len() == 0);
    assert(sp_total_chars(ls.subrange(i, i)) == 0);
    lemma_total_subrange_step(ls, i, i);
    lemma_total_subrange_le(ls, i, i + 1);
}

pub proof fn lemma_total_subrange_step(ls: Seq<Seq<char>>, a: int, b: int)
    requires
        0 <= a <= b < ls.len(),
    ensures
        sp_total_chars(ls.subrange(a, b + 1)) == sp_total_chars(ls.subrange(a, b)) + ls[b].len(),
{
    assert(ls.subrange(a, b + 1) =~= ls.subrange(a, b).push(ls[b]));
    lemma_total_push(ls.subrange(a, b), ls[b]);
}

/// Splitting never yields more characters than the split text holds.
pub proof fn lemma_lines_go_total(s: Seq<char>, cur: Seq<char>)
    ensures
        sp_total_chars(sp_lines_go(s, cur)) <= s.len() + cur.len(),
    decreases s.len(),
{
    if s.len() == 0 {
        if cur.len() > 0 {
            lemma_total_single(cur);
        }
    } else if s[0] == '\n' {
        lemma_lines_go_total(s.skip(1), Seq::empty());
        let rest = sp_lines_go(s.skip(1), Seq::empty());
        lemma_total_concat(seq![sp_strip_cr(cur)], rest);
        lemma_total_single(sp_strip_cr(cur));
    } else {
        lemma_lines_go_total(s.skip(1), cur.push(s[0]));
    }
}

pub proof fn lemma_lines_total(s: Seq<char>)
    ensures
        sp_total_chars(sp_lines(s)) <= s.len(),
{
    lemma_lines_go_total(s, Seq::empty());
}

// ---------------------------------------------------------------------------
// Joining
// ---------------------------------------------------------------------------

pub open spec fn sp_join_sep(parts: Seq<Seq<char>>, sep: Seq<char>) -> Seq<char>
    decreases parts.len(),
{
    if parts.len() == 0 {
        Seq::empty()
    } else if parts.len() == 1 {
        parts[0]
    } else {
        parts[0] + sep + sp_join_sep(parts.skip(1), sep)
    }
}

/// Lines joined by a single `\n`, the editor's output form.
pub open spec fn sp_join_lines(parts: Seq<Seq<char>>) -> Seq<char> {
    sp_join_sep(parts, seq!['\n'])
}

pub proof fn lemma_join_push(parts: Seq<Seq<char>>, sep: Seq<char>, x: Seq<char>)
    ensures
        sp_join_sep(parts.push(x), sep) == if parts.len() == 0 {
            x
        } else {
            sp_join_sep(parts, sep) + sep + x
        },
    decreases parts.len(),
{
    let p = parts.push(x);
    if parts.len() == 0 {
        assert(p.len() == 1);
        assert(p[0] == x);
    } else if parts.len() == 1 {
        assert(p.skip(1) =~= seq![x]);
        assert(sp_join_sep(p.skip(1), sep) == x);
        assert(p[0] == parts[0]);
        assert(sp_join_sep(parts, sep) == parts[0]);
    } else {
        assert(p.skip(1) =~= parts.skip(1).push(x));
        lemma_join_push(parts.skip(1), sep, x);
        assert(p[0] == parts[0]);
        assert(parts[0] + sep + (sp_join_sep(parts.skip(1), sep) + sep + x) =~= (parts[0] + sep
            + sp_join_sep(parts.skip(1), sep)) + sep + x);
    }
}

/// Joins `v[a..b]` with the separator `sep`.
pub fn join_range(v: &Vec<String>, a: usize, b: usize, sep: &str) -> (r: String)
    requires
        a <= b <= v@.len(),
    ensures
        r@ == sp_join_sep(v.deep_view().subrange(a as int, b as int), sep@),
{
    let ghost dv = v.deep_view();
    let mut acc = String::new();
    let mut i: usize = a;
    proof {
        assert(dv.subrange(a as int, a as int) =~= Seq::<Seq<char>>::empty());
    }
    while i < b
        invariant
            a <= i <= b <= v@.len(),
            dv == v.deep_view(),
            acc@ == sp_join_sep(dv.subrange(a as int, i as int), sep@),
        decreases b - i,
    {
        if i > a {
            acc.append(sep);
        }
        acc.append(v[i].as_str());
        proof {
            assert(dv.subrange(a as int, i as int + 1) =~= dv.subrange(a as int, i as int).push(
                dv[i as int],
            ));
            lemma_join_push(dv.subrange(a as int, i as int), sep@, dv[i as int]);
            assert(v@[i as int]@ == dv[i as int]);
        }
        i += 1;
    }
    acc
}

// ---------------------------------------------------------------------------
// Splices
// ---------------------------------------------------------------------------

/// Replacing lines `[a, b)` touches nothing else: every line before `a` and
/// every line from `b` on reappears, in order, around the replacement.
pub proof fn lemma_splice_outside(ls: Seq<Seq<char>>, rep: Seq<Seq<char>>, a: int, b: int)
    requires
        0 <= a <= b <= ls.len(),
    ensures
        (ls.subrange(0, a) + rep + ls.skip(b)).len() == a + rep.len() + (ls.len() - b),
        forall|k: int| 0 <= k < a ==> (ls.subrange(0, a) + rep + ls.skip(b))[k] == ls[k],
        forall|k: int|
            b <= k < ls.len() ==> (ls.subrange(0, a) + rep + ls.skip(b))[a + rep.len() + (k - b)]
                == ls[k],
{
}

/// Copies `v[a..b]` onto the end of `out`.
pub fn extend_range(out: &mut Vec<String>, v: &Vec<String>, a: usize, b: usize)
    requires
        a <= b <= v@.len(),
    ensures
        final (out).deep_view() == old(out).deep_view() + v.deep_view().subrange(a as int, b as int),
{
    let ghost dv0 = old(out).deep_view();
    let mut i: usize = a;
    proof {
        assert(dv0 + v.deep_view().subrange(a as int, a as int) =~= dv0);
    }
    while i < b
        invariant
            a <= i <= b <= v@.len(),
            out.deep_view() == dv0 + v.deep_view().subrange(a as int, i as int),
        decreases b - i,
    {
        let ghost prev = out.deep_view();
        out.push(v[i].clone());
        proof {
            assert(out.deep_view() =~= prev.push(v.deep_view()[i as int]));
            assert(prev.push(v.deep_view()[i as int]) =~= dv0 + v.deep_view().subrange(
                a as int,
                i as int + 1,
            ));
        }
        i += 1;
    }
}

} // verus!
