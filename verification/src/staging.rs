//! Validation staging: derive a throwaway sibling path that carries a
//! fixed marker, so that candidate content can be written there for an
//! external validator, and so that only paths carrying the marker are
//! ever deleted afterwards.
use vstd::prelude::*;

verus! {

use vstd::string::StrSliceExecFns;
use vstd::string::StringExecFns;
use crate::strutil::{sp_dec, u64_to_string};

/// Whether `p` occurs in `s` as a contiguous run.
pub open spec fn sp_contains_seq(s: Seq<char>, p: Seq<char>) -> bool {
    exists|k: int| 0 <= k && k + p.len() <= s.len() && #[trigger] s.subrange(k, k + p.len()) == p
}

/// The staging file's name: the fixed marker, a millisecond timestamp,
/// and the configuration suffix.
pub open spec fn sp_temp_name(millis: nat) -> Seq<char> {
    ".nginx_temp_"@ + sp_dec(millis) + ".conf"@
}

/// Builds the staging file name for the given timestamp.
pub fn make_temp_file_name(millis: u64) -> (r: String)
    ensures
        r@ == sp_temp_name(millis as nat),
{
    let mut s = String::from_str(".nginx_temp_");
    s.append(u64_to_string(millis).as_str());
    s.append(".conf");
    proof {
        assert(s@ =~= sp_temp_name(millis as nat));
    }
    s
}

/// Whether a path may be deleted by the staging cleanup: only paths that
/// carry the fixed staging marker qualify.
pub fn is_temp_config_path(path: &str) -> (r: bool)
    ensures
        r == sp_contains_seq(path@, ".nginx_temp_"@),
{
    contains_str(path, ".nginx_temp_")
}

/// Substring search by scanning every start position.
fn contains_str(s: &str, p: &str) -> (r: bool)
    ensures
        r == sp_contains_seq(s@, p@),
{
    let n = s.unicode_len();
    let m = p.unicode_len();
    if m > n {
        proof {
            assert forall|k: int|
                !(0 <= k && k + p@.len() <= s@.len() && #[trigger] s@.subrange(k, k + p@.len())
                    == p@) by {}
        }
        return false;
    }
    let mut k: usize = 0;
    while k <= n - m
        invariant
            0 <= k <= n - m + 1,
            m <= n,
            n == s@.len(),
            m == p@.len(),
            forall|k2: int| 0 <= k2 < k ==> #[trigger] s@.subrange(k2, k2 + p@.len()) != p@,
        decreases n + 1 - m - k,
    {
        let mut j: usize = 0;
        let mut hit = true;
        while j < m && hit
            invariant
                0 <= j <= m,
                k + m <= n,
                n == s@.len(),
                m == p@.len(),
                hit ==> forall|t: int| 0 <= t < j ==> s@[k + t] == p@[t],
                !hit ==> exists|t: int| 0 <= t < m && s@[k + t] != p@[t],
            decreases m - j + (if hit {
                1int
            } else {
                0int
            }),
        {
            if s.get_char(k + j) != p.get_char(j) {
                hit = false;
            } else {
                j += 1;
            }
        }
        if hit {
            proof {
                assert(s@.subrange(k as int, k + p@.len()) =~= p@);
            }
            return true;
        }
        proof {
            assert(s@.subrange(k as int, k + p@.len()) != p@) by {
                let t = choose|t: int| 0 <= t < m && s@[k + t] != p@[t];
                assert(s@.subrange(k as int, k + p@.len())[t] == s@[k + t]);
            }
        }
        k += 1;
    }
    proof {
        assert forall|k2: int|
            !(0 <= k2 && k2 + p@.len() <= s@.len() && #[trigger] s@.subrange(k2, k2 + p@.len())
                == p@) by {
            if 0 <= k2 && k2 + p@.len() <= s@.len() {
                assert(k2 < k);
            }
        }
    }
    false
}

} // verus!
