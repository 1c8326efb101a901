//! Character-level string utilities: whitespace classification, trimming,
//! first-index searches, prefix tests and decimal rendering.
//!
//! Every executable function here is verified against a spec function over
//! the string's view (a `Seq<char>`); those spec functions are the
//! vocabulary in which the parser's and editor's contracts are written.
use vstd::prelude::*;

verus! {

use vstd::string::StrSliceExecFns;
use vstd::string::StringExecFns;

// ---------------------------------------------------------------------------
// Whitespace
// ---------------------------------------------------------------------------

/// The Unicode `White_Space` code points, the class used for trimming and
/// for splitting a directive into name and value.
pub open spec fn sp_is_space(c: char) -> bool {
    let u = c as u32;
    u == 0x20 || (0x9 <= u && u <= 0xd) || u == 0x85 || u == 0xa0 || u == 0x1680 || (0x2000 <= u
        && u <= 0x200a) || u == 0x2028 || u == 0x2029 || u == 0x202f || u == 0x205f || u == 0x3000
}

pub fn is_space_char(c: char) -> (r: bool)
    ensures
        r == sp_is_space(c),
{
    let u = c as u32;
    u == 0x20 || (0x9 <= u && u <= 0xd) || u == 0x85 || u == 0xa0 || u == 0x1680 || (0x2000 <= u
        && u <= 0x200a) || u == 0x2028 || u == 0x2029 || u == 0x202f || u == 0x205f || u == 0x3000
}

// ---------------------------------------------------------------------------
// First-index searches
// ---------------------------------------------------------------------------

/// Index of the first occurrence of `c` in `s`, or `s.len()` if absent.
pub open spec fn sp_index_of(s: Seq<char>, c: char) -> int
    decreases s.len(),
{
    if s.len() == 0 {
        0
    } else if s[0] == c {
        0
    } else {
        1 + sp_index_of(s.skip(1), c)
    }
}

/// Index of the first whitespace character in `s`, or `s.len()` if absent.
pub open spec fn sp_index_ws(s: Seq<char>) -> int
    decreases s.len(),
{
    if s.len() == 0 {
        0
    } else if sp_is_space(s[0]) {
        0
    } else {
        1 + sp_index_ws(s.skip(1))
    }
}

pub open spec fn sp_contains_char(s: Seq<char>, c: char) -> bool {
    exists|k: int| 0 <= k < s.len() && s[k] == c
}

pub proof fn lemma_index_of_range(s: Seq<char>, c: char)
    ensures
        0 <= sp_index_of(s, c) <= s.len(),
        sp_index_of(s, c) < s.len() ==> s[sp_index_of(s, c)] == c,
        forall|k: int| 0 <= k < sp_index_of(s, c) ==> s[k] != c,
    decreases s.len(),
{
    if s.len() == 0 {
    } else if s[0] == c {
    } else {
        lemma_index_of_range(s.skip(1), c);
        assert forall|k: int| 0 <= k < sp_index_of(s, c) implies s[k] != c by {
            if k > 0 {
                assert(s.skip(1)[k - 1] == s[k]);
            }
        }
    }
}

pub proof fn lemma_index_ws_range(s: Seq<char>)
    ensures
        0 <= sp_index_ws(s) <= s.len(),
        sp_index_ws(s) < s.len() ==> sp_is_space(s[sp_index_ws(s)]),
        forall|k: int| 0 <= k < sp_index_ws(s) ==> !sp_is_space(s[k]),
    decreases s.len(),
{
    if s.len() == 0 {
    } else if sp_is_space(s[0]) {
    } else {
        lemma_index_ws_range(s.skip(1));
        assert forall|k: int| 0 <= k < sp_index_ws(s) implies !sp_is_space(s[k]) by {
            if k > 0 {
                assert(s.skip(1)[k - 1] == s[k]);
            }
        }
    }
}

/// A position below which `c` does not occur and at which `c` stands (or the
/// end of the string) is exactly `sp_index_of`.
pub proof fn lemma_index_of_is(s: Seq<char>, c: char, i: int)
    requires
        0 <= i <= s.len(),
        forall|k: int| 0 <= k < i ==> s[k] != c,
        i < s.len() ==> s[i] == c,
    ensures
        sp_index_of(s, c) == i,
    decreases s.len(),
{
    if s.len() == 0 {
    } else if s[0] == c {
        assert(i == 0);
    } else {
        assert(i >= 1) by {
            if i == 0 {
                assert(s[0] == c);
            }
        }
        assert forall|k: int| 0 <= k < i - 1 implies s.skip(1)[k] != c by {
            assert(s.skip(1)[k] == s[k + 1]);
        }
        assert(i - 1 < s.skip(1).len() ==> s.skip(1)[i - 1] == c);
        lemma_index_of_is(s.skip(1), c, i - 1);
    }
}

pub proof fn lemma_index_ws_is(s: Seq<char>, i: int)
    requires
        0 <= i <= s.len(),
        forall|k: int| 0 <= k < i ==> !sp_is_space(s[k]),
        i < s.len() ==> sp_is_space(s[i]),
    ensures
        sp_index_ws(s) == i,
    decreases s.len(),
{
    if s.len() == 0 {
    } else if sp_is_space(s[0]) {
        assert(i == 0);
    } else {
        assert(i >= 1) by {
            if i == 0 {
                assert(sp_is_space(s[0]));
            }
        }
        assert forall|k: int| 0 <= k < i - 1 implies !sp_is_space(s.skip(1)[k]) by {
            assert(s.skip(1)[k] == s[k + 1]);
        }
        assert(i - 1 < s.skip(1).len() ==> sp_is_space(s.skip(1)[i - 1]));
        lemma_index_ws_is(s.skip(1), i - 1);
    }
}

/// First occurrence of `c`, or the length of `s` when `c` is absent.
pub fn index_of_char(s: &str, c: char) -> (r: usize)
    ensures
        r as int == sp_index_of(s@, c),
{
    let n = s.unicode_len();
    let mut i: usize = 0;
    while i < n
        invariant
            0 <= i <= n,
            n == s@.len(),
            forall|k: int| 0 <= k < i ==> s@[k] != c,
        decreases n - i,
    {
        if s.get_char(i) == c {
            proof {
                lemma_index_of_is(s@, c, i as int);
            }
            return i;
        }
        i += 1;
    }
    proof {
        lemma_index_of_is(s@, c, n as int);
    }
    n
}

/// First whitespace character, or the length of `s` when none occurs.
pub fn index_of_ws(s: &str) -> (r: usize)
    ensures
        r as int == sp_index_ws(s@),
{
    let n = s.unicode_len();
    let mut i: usize = 0;
    while i < n
        invariant
            0 <= i <= n,
            n == s@.len(),
            forall|k: int| 0 <= k < i ==> !sp_is_space(s@[k]),
        decreases n - i,
    {
        if is_space_char(s.get_char(i)) {
            proof {
                lemma_index_ws_is(s@, i as int);
            }
            return i;
        }
        i += 1;
    }
    proof {
        lemma_index_ws_is(s@, n as int);
    }
    n
}

pub fn contains_char(s: &str, c: char) -> (r: bool)
    ensures
        r == sp_contains_char(s@, c),
{
    let n = s.unicode_len();
    let i = index_of_char(s, c);
    proof {
        lemma_index_of_range(s@, c);
    }
    i < n
}

// ---------------------------------------------------------------------------
// Trimming
// ---------------------------------------------------------------------------

pub open spec fn sp_trim_start(s: Seq<char>) -> Seq<char>
    decreases s.len(),
{
    if s.len() > 0 && sp_is_space(s[0]) {
        sp_trim_start(s.skip(1))
    } else {
        s
    }
}

pub open spec fn sp_trim_end(s: Seq<char>) -> Seq<char>
    decreases s.len(),
{
    if s.len() > 0 && sp_is_space(s[s.len() - 1]) {
        sp_trim_end(s.take(s.len() - 1))
    } else {
        s
    }
}

/// `s` with leading and trailing whitespace removed.
pub open spec fn sp_trim(s: Seq<char>) -> Seq<char> {
    sp_trim_end(sp_trim_start(s))
}

pub proof fn lemma_trim_start_skip(s: Seq<char>, a: int)
    requires
        0 <= a <= s.len(),
        forall|k: int| 0 <= k < a ==> sp_is_space(s[k]),
        a < s.len() ==> !sp_is_space(s[a]),
    ensures
        sp_trim_start(s) == s.skip(a),
    decreases a,
{
    if a == 0 {
        assert(s.skip(0) =~= s);
    } else {
        assert(sp_is_space(s[0]));
        assert forall|k: int| 0 <= k < a - 1 implies sp_is_space(s.skip(1)[k]) by {
            assert(s.skip(1)[k] == s[k + 1]);
        }
        assert(a - 1 < s.skip(1).len() ==> !sp_is_space(s.skip(1)[a - 1]));
        lemma_trim_start_skip(s.skip(1), a - 1);
        assert(s.skip(1).skip(a - 1) =~= s.skip(a));
    }
}

pub proof fn lemma_trim_end_take(s: Seq<char>, b: int)
    requires
        0 <= b <= s.len(),
        forall|k: int| b <= k < s.len() ==> sp_is_space(s[k]),
        b > 0 ==> !sp_is_space(s[b - 1]),
    ensures
        sp_trim_end(s) == s.take(b),
    decreases s.len(),
{
    if b == s.len() {
        if s.len() > 0 && sp_is_space(s[s.len() - 1]) {
            assert(!sp_is_space(s[b - 1]));
        }
        assert(s.take(b) =~= s);
    } else {
        assert(sp_is_space(s[s.len() - 1]));
        let t = s.take(s.len() - 1);
        assert forall|k: int| b <= k < t.len() implies sp_is_space(t[k]) by {
            assert(t[k] == s[k]);
        }
        lemma_trim_end_take(t, b);
        assert(t.take(b) =~= s.take(b));
    }
}

/// `s` with leading and trailing whitespace removed.
pub fn trim_str(s: &str) -> (r: String)
    ensures
        r@ == sp_trim(s@),
{
    let n = s.unicode_len();
    let mut a: usize = 0;
    while a < n && is_space_char(s.get_char(a))
        invariant
            0 <= a <= n,
            n == s@.len(),
            forall|k: int| 0 <= k < a ==> sp_is_space(s@[k]),
        decreases n - a,
    {
        a += 1;
    }
    proof {
        lemma_trim_start_skip(s@, a as int);
    }
    if a == n {
        proof {
            assert(s@.skip(a as int) =~= Seq::<char>::empty());
        }
        return String::new();
    }
    let mut b: usize = n;
    while b > a && is_space_char(s.get_char(b - 1))
        invariant
            a <= b <= n,
            n == s@.len(),
            forall|k: int| b <= k < n ==> sp_is_space(s@[k]),
        decreases b,
    {
        b -= 1;
    }
    proof {
        // the first non-space character keeps b above a
        assert(b > a || !sp_is_space(s@[a as int]));
        let t = s@.skip(a as int);
        assert forall|k: int| b - a <= k < t.len() implies sp_is_space(t[k]) by {
            assert(t[k] == s@[k + a]);
        }
        assert(t[b - a - 1] == s@[b - 1]);
        lemma_trim_end_take(t, b - a);
        assert(t.take(b - a) =~= s@.subrange(a as int, b as int));
    }
    let piece = s.substring_char(a, b);
    String::from_str(piece)
}

// ---------------------------------------------------------------------------
// Stripping a run of one character from the end
// ---------------------------------------------------------------------------

/// `s` with every trailing occurrence of `c` removed.
pub open spec fn sp_strip_end(s: Seq<char>, c: char) -> Seq<char>
    decreases s.len(),
{
    if s.len() > 0 && s[s.len() - 1] == c {
        sp_strip_end(s.take(s.len() - 1), c)
    } else {
        s
    }
}

pub proof fn lemma_strip_end_take(s: Seq<char>, c: char, b: int)
    requires
        0 <= b <= s.len(),
        forall|k: int| b <= k < s.len() ==> s[k] == c,
        b > 0 ==> s[b - 1] != c,
    ensures
        sp_strip_end(s, c) == s.take(b),
    decreases s.len(),
{
    if b == s.len() {
        if s.len() > 0 && s[s.len() - 1] == c {
            assert(s[b - 1] != c);
        }
        assert(s.take(b) =~= s);
    } else {
        assert(s[s.len() - 1] == c);
        let t = s.take(s.len() - 1);
        assert forall|k: int| b <= k < t.len() implies t[k] == c by {
            assert(t[k] == s[k]);
        }
        lemma_strip_end_take(t, c, b);
        assert(t.take(b) =~= s.take(b));
    }
}

/// `s` with one trailing occurrence of `c` removed, if it ends with one.
pub open spec fn sp_strip_one_end(s: Seq<char>, c: char) -> Seq<char> {
    if s.len() > 0 && s[s.len() - 1] == c {
        s.take(s.len() - 1)
    } else {
        s
    }
}

/// `s` with one trailing occurrence of `c` removed, if it ends with one.
pub fn strip_one_end_char(s: &str, c: char) -> (r: String)
    ensures
        r@ == sp_strip_one_end(s@, c),
{
    let n = s.unicode_len();
    if n > 0 && s.get_char(n - 1) == c {
        let piece = s.substring_char(0, n - 1);
        proof {
            assert(s@.subrange(0, n as int - 1) =~= s@.take(n as int - 1));
        }
        String::from_str(piece)
    } else {
        s.to_owned()
    }
}

/// `s` with every trailing occurrence of `c` removed.
pub fn strip_end_char(s: &str, c: char) -> (r: String)
    ensures
        r@ == sp_strip_end(s@, c),
{
    let n = s.unicode_len();
    let mut b: usize = n;
    while b > 0 && s.get_char(b - 1) == c
        invariant
            0 <= b <= n,
            n == s@.len(),
            forall|k: int| b <= k < n ==> s@[k] == c,
        decreases b,
    {
        b -= 1;
    }
    proof {
        lemma_strip_end_take(s@, c, b as int);
        assert(s@.take(b as int) =~= s@.subrange(0, b as int));
    }
    let piece = s.substring_char(0, b);
    String::from_str(piece)
}

// ---------------------------------------------------------------------------
// Prefix / suffix tests
// ---------------------------------------------------------------------------

pub open spec fn sp_starts_with(s: Seq<char>, p: Seq<char>) -> bool {
    p.len() <= s.len() && s.subrange(0, p.len() as int) == p
}

pub fn starts_with_str(s: &str, p: &str) -> (r: bool)
    ensures
        r == sp_starts_with(s@, p@),
{
    let n = s.unicode_len();
    let m = p.unicode_len();
    if m > n {
        return false;
    }
    let mut i: usize = 0;
    while i < m
        invariant
            0 <= i <= m <= n,
            n == s@.len(),
            m == p@.len(),
            forall|k: int| 0 <= k < i ==> s@[k] == p@[k],
        decreases m - i,
    {
        if s.get_char(i) != p.get_char(i) {
            proof {
                assert(s@.subrange(0, m as int)[i as int] == s@[i as int]);
            }
            return false;
        }
        i += 1;
    }
    proof {
        assert(s@.subrange(0, m as int) =~= p@);
    }
    true
}

pub fn str_eq(a: &str, b: &str) -> (r: bool)
    ensures
        r == (a@ == b@),
{
    let n = a.unicode_len();
    let m = b.unicode_len();
    if n != m {
        return false;
    }
    let mut i: usize = 0;
    while i < n
        invariant
            0 <= i <= n,
            n == a@.len(),
            n == b@.len(),
            forall|k: int| 0 <= k < i ==> a@[k] == b@[k],
        decreases n - i,
    {
        if a.get_char(i) != b.get_char(i) {
            return false;
        }
        i += 1;
    }
    proof {
        assert(a@ =~= b@);
    }
    true
}

/// Whether the last character of `s` is `c`.
pub open spec fn sp_ends_with_char(s: Seq<char>, c: char) -> bool {
    s.len() > 0 && s[s.len() - 1] == c
}

pub fn ends_with_char(s: &str, c: char) -> (r: bool)
    ensures
        r == sp_ends_with_char(s@, c),
{
    let n = s.unicode_len();
    n > 0 && s.get_char(n - 1) == c
}

// ---------------------------------------------------------------------------
// Splitting on whitespace runs
// ---------------------------------------------------------------------------

pub open spec fn sp_split_ws_go(s: Seq<char>, cur: Seq<char>) -> Seq<Seq<char>>
    decreases s.len(),
{
    if s.len() == 0 {
        if cur.len() > 0 {
            seq![cur]
        } else {
            Seq::empty()
        }
    } else if sp_is_space(s[0]) {
        if cur.len() > 0 {
            seq![cur] + sp_split_ws_go(s.skip(1), Seq::empty())
        } else {
            sp_split_ws_go(s.skip(1), Seq::empty())
        }
    } else {
        sp_split_ws_go(s.skip(1), cur.push(s[0]))
    }
}

/// The maximal whitespace-free runs of `s`, in order.
pub open spec fn sp_split_ws(s: Seq<char>) -> Seq<Seq<char>> {
    sp_split_ws_go(s, Seq::empty())
}

/// Splits `s` at whitespace runs, dropping all the whitespace.
pub fn split_whitespace_str(s: &str) -> (r: Vec<String>)
    ensures
        r.deep_view() == sp_split_ws(s@),
{
    let n = s.unicode_len();
    let mut out: Vec<String> = Vec::new();
    let mut ts: usize = 0;
    let mut in_tok: bool = false;
    let mut i: usize = 0;
    proof {
        assert(out.deep_view() =~= Seq::<Seq<char>>::empty());
        assert(s@.skip(0) =~= s@);
    }
    while i < n
        invariant
            0 <= i <= n,
            n == s@.len(),
            in_tok ==> ts < i,
            sp_split_ws(s@) == out.deep_view() + sp_split_ws_go(
                s@.skip(i as int),
                if in_tok {
                    s@.subrange(ts as int, i as int)
                } else {
                    Seq::<char>::empty()
                },
            ),
        decreases n - i,
    {
        let ghost cur: Seq<char> = if in_tok {
            s@.subrange(ts as int, i as int)
        } else {
            Seq::<char>::empty()
        };
        proof {
            assert(s@.skip(i as int).len() > 0);
            assert(s@.skip(i as int)[0] == s@[i as int]);
            assert(s@.skip(i as int).skip(1) =~= s@.skip(i as int + 1));
        }
        if is_space_char(s.get_char(i)) {
            if in_tok {
                let piece = s.substring_char(ts, i);
                let ghost old_dv = out.deep_view();
                out.push(piece.to_owned());
                proof {
                    assert(out.deep_view() =~= old_dv.push(cur));
                    assert(old_dv.push(cur) =~= old_dv + seq![cur]);
                    assert((old_dv + seq![cur]) + sp_split_ws_go(
                        s@.skip(i as int + 1),
                        Seq::<char>::empty(),
                    ) =~= old_dv + (seq![cur] + sp_split_ws_go(
                        s@.skip(i as int + 1),
                        Seq::<char>::empty(),
                    )));
                }
                in_tok = false;
            }
        } else {
            if !in_tok {
                ts = i;
                in_tok = true;
                proof {
                    assert(cur.push(s@[i as int]) =~= s@.subrange(i as int, i as int + 1));
                }
            } else {
                proof {
                    assert(cur.push(s@[i as int]) =~= s@.subrange(ts as int, i as int + 1));
                }
            }
        }
        i += 1;
    }
    proof {
        assert(s@.skip(n as int) =~= Seq::<char>::empty());
    }
    if in_tok {
        let piece = s.substring_char(ts, n);
        let ghost old_dv = out.deep_view();
        out.push(piece.to_owned());
        proof {
            let cur = s@.subrange(ts as int, n as int);
            assert(out.deep_view() =~= old_dv.push(cur));
            assert(old_dv.push(cur) =~= old_dv + seq![cur]);
        }
    } else {
        proof {
            assert(out.deep_view() + Seq::<Seq<char>>::empty() =~= out.deep_view());
        }
    }
    out
}

// ---------------------------------------------------------------------------
// Character replacement
// ---------------------------------------------------------------------------

/// `s` with every `/` replaced by `_`, as block identifiers flatten paths.
pub open spec fn sp_slash_to_underscore(s: Seq<char>) -> Seq<char> {
    Seq::new(
        s.len(),
        |i: int|
            if s[i] == '/' {
                '_'
            } else {
                s[i]
            },
    )
}

pub fn slash_to_underscore(s: &str) -> (r: String)
    ensures
        r@ == sp_slash_to_underscore(s@),
{
    let n = s.unicode_len();
    let mut acc = String::new();
    let mut i: usize = 0;
    proof {
        reveal_strlit("_");
        assert(acc@ =~= sp_slash_to_underscore(s@).subrange(0, 0));
    }
    while i < n
        invariant
            0 <= i <= n,
            n == s@.len(),
            acc@ == sp_slash_to_underscore(s@).subrange(0, i as int),
        decreases n - i,
    {
        let c = s.get_char(i);
        if c == '/' {
            acc.append("_");
            proof {
                reveal_strlit("_");
                assert(acc@ =~= sp_slash_to_underscore(s@).subrange(0, i as int + 1));
            }
        } else {
            let piece = s.substring_char(i, i + 1);
            acc.append(piece);
            proof {
                assert(piece@ =~= seq![s@[i as int]]);
                assert(acc@ =~= sp_slash_to_underscore(s@).subrange(0, i as int + 1));
            }
        }
        i += 1;
    }
    proof {
        assert(sp_slash_to_underscore(s@).subrange(0, n as int) =~= sp_slash_to_underscore(s@));
    }
    acc
}

// ---------------------------------------------------------------------------
// Decimal rendering
// ---------------------------------------------------------------------------

pub open spec fn sp_digit(d: int) -> char {
    if d == 0 {
        '0'
    } else if d == 1 {
        '1'
    } else if d == 2 {
        '2'
    } else if d == 3 {
        '3'
    } else if d == 4 {
        '4'
    } else if d == 5 {
        '5'
    } else if d == 6 {
        '6'
    } else if d == 7 {
        '7'
    } else if d == 8 {
        '8'
    } else {
        '9'
    }
}

/// The usual decimal rendering of `n`, without leading zeros.
pub open spec fn sp_dec(n: nat) -> Seq<char>
    decreases n,
{
    if n < 10 {
        seq![sp_digit(n as int)]
    } else {
        sp_dec(n / 10).push(sp_digit((n % 10) as int))
    }
}

fn digit_str(d: u64) -> (r: &'static str)
    requires
        d < 10,
    ensures
        r@ == seq![sp_digit(d as int)],
{
    proof {
        reveal_strlit("0");
        reveal_strlit("1");
        reveal_strlit("2");
        reveal_strlit("3");
        reveal_strlit("4");
        reveal_strlit("5");
        reveal_strlit("6");
        reveal_strlit("7");
        reveal_strlit("8");
        reveal_strlit("9");
    }
    let r: &'static str = if d == 0 {
        "0"
    } else if d == 1 {
        "1"
    } else if d == 2 {
        "2"
    } else if d == 3 {
        "3"
    } else if d == 4 {
        "4"
    } else if d == 5 {
        "5"
    } else if d == 6 {
        "6"
    } else if d == 7 {
        "7"
    } else if d == 8 {
        "8"
    } else {
        "9"
    };
    proof {
        assert(r@ =~= seq![sp_digit(d as int)]);
    }
    r
}

pub fn u64_to_string(n: u64) -> (r: String)
    ensures
        r@ == sp_dec(n as nat),
    decreases n,
{
    if n < 10 {
        let d = digit_str(n);
        let r = String::from_str(d);
        proof {
            assert(r@ =~= sp_dec(n as nat));
        }
        r
    } else {
        let mut r = u64_to_string(n / 10);
        r.append(digit_str(n % 10));
        proof {
            assert(r@ =~= sp_dec(n as nat));
        }
        r
    }
}

pub fn usize_to_string(n: usize) -> (r: String)
    ensures
        r@ == sp_dec(n as nat),
{
    u64_to_string(n as u64)
}

} // verus!
