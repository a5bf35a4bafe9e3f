//! Path resolution: joining an untrusted, client-supplied relative path onto
//! the canonical root, rejecting any parent-directory traversal before the
//! filesystem is ever touched.

use vstd::prelude::*;
use crate::error::AppError;
use crate::strutil::{has_dotdot, str_has_dotdot};

verus! {

/// A client path with one leading `/` removed, as the handlers normalize it.
pub open spec fn strip_one_slash(s: Seq<char>) -> Seq<char> {
    if s.len() > 0 && s[0] == '/' {
        s.skip(1)
    } else {
        s
    }
}

/// The candidate absolute path for a cleaned relative request under `root`.
pub open spec fn joined(root: Seq<char>, cleaned: Seq<char>) -> Seq<char> {
    if cleaned.len() == 0 {
        root
    } else {
        root + seq!['/'] + cleaned
    }
}

/// `p` lies strictly below the folder `root` (textually: `root`, a `/`, and
/// more).
pub open spec fn under_folder(root: Seq<char>, p: Seq<char>) -> bool {
    p.len() > root.len() && p.subrange(0, root.len() as int) == root && p[root.len() as int] == '/'
}

/// `p` equals `root` or lies strictly below it (textually: `root` followed by
/// a `/`-separated suffix).
pub open spec fn is_descendant(root: Seq<char>, p: Seq<char>) -> bool {
    ||| p == root
    ||| under_folder(root, p)
}

/// Joining one more segment onto a descendant of `root` lands strictly below
/// `root`.
pub proof fn lemma_join_stays_under(root: Seq<char>, dir: Seq<char>, name: Seq<char>)
    requires
        is_descendant(root, dir),
    ensures
        under_folder(root, dir + seq!['/'] + name),
{
    let p = dir + seq!['/'] + name;
    assert(p.subrange(0, root.len() as int) =~= root) by {
        assert forall|t: int| 0 <= t < root.len() implies #[trigger] p.subrange(
            0,
            root.len() as int,
        )[t] == root[t] by {
            assert(p[t] == dir[t]);
            if dir != root {
                assert(dir.subrange(0, root.len() as int)[t] == dir[t]);
            }
        }
    }
    if dir == root {
        assert(p[root.len() as int] == '/');
    } else {
        assert(p[root.len() as int] == dir[root.len() as int]);
    }
}

/// Removing a leading `/` neither creates nor removes a `..` occurrence.
proof fn lemma_dotdot_strip(s: Seq<char>)
    ensures
        has_dotdot(strip_one_slash(s)) == has_dotdot(s),
{
    if s.len() > 0 && s[0] == '/' {
        let t = s.skip(1);
        if has_dotdot(t) {
            let i = choose|i: int| 0 <= i && i + 2 <= t.len() && #[trigger] t[i] == '.' && t[i + 1]
                == '.';
            assert(s[i + 1] == '.' && s[i + 2] == '.');
        }
        if has_dotdot(s) {
            let i = choose|i: int| 0 <= i && i + 2 <= s.len() && #[trigger] s[i] == '.' && s[i + 1]
                == '.';
            assert(i >= 1);
            assert(t[i - 1] == '.' && t[i] == '.');
        }
    }
}

/// Resolves a client-supplied request path against the canonical root.
///
/// A single leading `/` is stripped, then any occurrence of the parent
/// reference `..` is rejected as `InvalidPath` before the string is joined
/// onto the root. The textual check is deliberately conservative: a name
/// merely containing `..` is rejected too. No filesystem canonicalization is
/// performed here, and existence is not checked; callers map a missing path
/// to `NotFound`.
pub fn resolve(root: &str, requested: &str) -> (r: Result<String, AppError>)
    ensures
        r is Err <==> has_dotdot(requested@),
        r matches Err(e) ==> e == AppError::InvalidPath,
        r matches Ok(p) ==> {
            &&& p@ == joined(root@, strip_one_slash(requested@))
            &&& is_descendant(root@, p@)
            &&& !has_dotdot(strip_one_slash(requested@))
        },
{
    proof {
        lemma_dotdot_strip(requested@);
    }
    let len = requested.unicode_len();
    let cleaned: &str = if len > 0 && requested.get_char(0) == '/' {
        let c = requested.substring_char(1, len);
        proof {
            assert(c@ =~= requested@.skip(1));
        }
        c
    } else {
        requested
    };
    if str_has_dotdot(cleaned) {
        return Err(AppError::InvalidPath);
    }
    if cleaned.unicode_len() == 0 {
        let p = root.to_owned();
        Ok(p)
    } else {
        let mut p = root.to_owned();
        p.append("/");
        p.append(cleaned);
        proof {
            reveal_strlit("/");
            assert(p@ =~= root@ + seq!['/'] + cleaned@);
            assert(p@.subrange(0, root@.len() as int) =~= root@);
        }
        Ok(p)
    }
}

} // verus!
