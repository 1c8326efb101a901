//! Decoding of process output and splitting of the server's install path
//! into an executable path and a working directory.
use vstd::prelude::*;

verus! {

use vstd::string::StrSliceExecFns;
use vstd::string::StringExecFns;
use crate::strutil::{ends_with_char, sp_ends_with_char, sp_strip_end, strip_end_char};

// ---------------------------------------------------------------------------
// Decoding process output
// ---------------------------------------------------------------------------

/// What lossy UTF-8 decoding yields for the given bytes.
pub uninterp spec fn utf8_lossy_of(bytes: Seq<u8>) -> Seq<char>;

/// Relies on String::from_utf8_lossy: valid UTF-8 decodes as written and
/// invalid sequences become replacement characters, a function of the
/// bytes alone.
#[verifier::external_body]
fn from_utf8_lossy(bytes: &[u8]) -> (r: String)
    ensures
        r@ == utf8_lossy_of(bytes@),
{
    String::from_utf8_lossy(bytes).to_string()
}

/// Decodes captured process output as UTF-8, lossily.
pub fn decode_output(bytes: &[u8]) -> (r: String)
    ensures
        r@ == utf8_lossy_of(bytes@),
{
    from_utf8_lossy(bytes)
}

/// What GBK decoding yields for the given bytes.
pub uninterp spec fn gbk_chars_of(bytes: Seq<u8>) -> Seq<char>;

/// Relies on encoding_rs's `GBK.decode`: the decoding (including its BOM
/// sniffing and replacement of errors) is a function of the bytes alone.
#[verifier::external_body]
fn gbk_decode(bytes: &[u8]) -> (r: String)
    ensures
        r@ == gbk_chars_of(bytes@),
{
    let (cow, _, _) = encoding_rs::GBK.decode(bytes);
    cow.into_owned()
}

/// Decodes captured process output that a GBK console produced.
pub fn decode_gbk(bytes: &[u8]) -> (r: String)
    ensures
        r@ == gbk_chars_of(bytes@),
{
    gbk_decode(bytes)
}

// ---------------------------------------------------------------------------
// Splitting the server's install path
// ---------------------------------------------------------------------------

/// Index of the last `/` in `s`, or -1 when none occurs.
pub open spec fn sp_last_slash(s: Seq<char>) -> int
    decreases s.len(),
{
    if s.len() == 0 {
        -1
    } else if s[s.len() - 1] == '/' {
        s.len() - 1
    } else {
        sp_last_slash(s.take(s.len() - 1))
    }
}

/// The directory part of a path: everything before the last `/`, with
/// that separator run dropped; the root stays `/`, and a path without a
/// separator has the empty directory.
pub open spec fn sp_parent_dir(s: Seq<char>) -> Seq<char> {
    let i = sp_last_slash(s);
    if i < 0 {
        Seq::empty()
    } else {
        let p = sp_strip_end(s.take(i), '/');
        if p.len() == 0 && s[0] == '/' {
            seq!['/']
        } else {
            p
        }
    }
}

proof fn lemma_last_slash_is(s: Seq<char>, i: int)
    requires
        -1 <= i < s.len(),
        i >= 0 ==> s[i] == '/',
        forall|k: int| i < k < s.len() ==> s[k] != '/',
    ensures
        sp_last_slash(s) == i,
    decreases s.len(),
{
    if s.len() == 0 {
    } else if s[s.len() - 1] == '/' {
        assert(i == s.len() - 1);
    } else {
        assert(i < s.len() - 1);
        let t = s.take(s.len() - 1);
        assert forall|k: int| i < k < t.len() implies t[k] != '/' by {
            assert(t[k] == s[k]);
        }
        lemma_last_slash_is(t, i);
    }
}

/// Splits the configured server path into the executable to invoke and
/// the working directory: a path with a trailing `/` names the install
/// directory and gets `nginx` appended; any other path names the binary
/// itself, whose directory is its parent.
pub fn parse_nginx_path(nginx_path: &str) -> (r: (String, String))
    ensures
        sp_ends_with_char(nginx_path@, '/') ==> r.0@ == nginx_path@ + "nginx"@ && r.1@
            == nginx_path@,
        !sp_ends_with_char(nginx_path@, '/') ==> r.0@ == nginx_path@ && r.1@ == sp_parent_dir(
            nginx_path@,
        ),
{
    let n = nginx_path.unicode_len();
    if ends_with_char(nginx_path, '/') {
        let mut exe = String::from_str(nginx_path);
        exe.append("nginx");
        (exe, nginx_path.to_owned())
    } else {
        // find the last separator
        let mut j: usize = n;
        while j > 0 && nginx_path.get_char(j - 1) != '/'
            invariant
                0 <= j <= n,
                n == nginx_path@.len(),
                forall|k: int| j <= k < n ==> nginx_path@[k] != '/',
            decreases j,
        {
            j -= 1;
        }
        proof {
            lemma_last_slash_is(nginx_path@, j - 1);
        }
        let dir: String = if j == 0 {
            String::new()
        } else {
            let prefix = nginx_path.substring_char(0, j - 1);
            proof {
                assert(prefix@ =~= nginx_path@.take(j - 1));
            }
            let stripped = strip_end_char(prefix, '/');
            if stripped.as_str().unicode_len() == 0 && nginx_path.get_char(0) == '/' {
                proof {
                    reveal_strlit("/");
                }
                let root = String::from_str("/");
                proof {
                    assert(root@ =~= seq!['/']);
                }
                root
            } else {
                stripped
            }
        };
        (nginx_path.to_owned(), dir)
    }
}

} // verus!
