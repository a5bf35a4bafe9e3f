//! Upload receiver logic: sanitizing client-supplied file names and resolving
//! name collisions by appending `(1)`, `(2)`, ... before the extension.

use vstd::prelude::*;
use vstd::set_lib::{lemma_int_range, lemma_len_subset, lemma_map_size};
use vstd::set::Set;
use vstd::relations::injective_on;
use crate::strutil::{
    after_last, lemma_after_last_bounds, last_segment, spec_dec, str_after_last, str_eq,
    str_last_segment, str_without_trailing, u64_to_dec, without_trailing,
};

verus! {

/// The query parameters of an upload request: the target directory, relative
/// to the shared root.
pub struct UploadParams {
    pub path: String,
}

/// The sanitized form of a client-supplied file name: trailing slashes are
/// dropped, only the final path segment is kept, and an empty or purely
/// relative segment falls back to a fixed name.
pub open spec fn sanitized_name(raw: Seq<char>) -> Seq<char> {
    let seg = last_segment(without_trailing(raw, '/'));
    if seg.len() == 0 || seg == "."@ || seg == ".."@ {
        "uploaded_file"@
    } else {
        seg
    }
}

/// Strips directory components from a client-supplied file name, so an upload
/// can never write outside its target directory.
pub fn sanitize_file_name(raw: &str) -> (r: String)
    ensures
        r@ == sanitized_name(raw@),
{
    let trimmed = str_without_trailing(raw, '/');
    let seg = str_last_segment(trimmed.as_str());
    if seg.as_str().unicode_len() == 0 || str_eq(seg.as_str(), ".") || str_eq(seg.as_str(), "..") {
        "uploaded_file".to_owned()
    } else {
        seg
    }
}

/// Where the extension (including its dot) starts in `name`: the last dot, if
/// one exists at index 1 or later; otherwise the end of the name.
pub open spec fn ext_start(name: Seq<char>) -> int {
    if after_last(name, '.') >= 2 {
        after_last(name, '.') - 1
    } else {
        name.len() as int
    }
}

pub open spec fn stem_of(name: Seq<char>) -> Seq<char> {
    name.subrange(0, ext_start(name))
}

pub open spec fn ext_of(name: Seq<char>) -> Seq<char> {
    name.subrange(ext_start(name), name.len() as int)
}

/// The `k`-th collision-avoiding variant of `name`: `stem(k)ext`.
pub open spec fn suffixed(name: Seq<char>, k: nat) -> Seq<char> {
    stem_of(name) + seq!['('] + spec_dec(k) + seq![')'] + ext_of(name)
}

/// The `k`-th candidate destination name: the name itself first, then its
/// suffixed variants in order.
pub open spec fn candidate(name: Seq<char>, k: nat) -> Seq<char> {
    if k == 0 {
        name
    } else {
        suffixed(name, k)
    }
}

/// Whether some entry of `list` is the name `n`.
pub open spec fn contains_name(list: Seq<String>, n: Seq<char>) -> bool {
    exists|i: int| 0 <= i < list.len() && #[trigger] list[i]@ == n
}

/// Decides `contains_name(existing@, name@)`.
pub fn contains_name_exec(existing: &Vec<String>, name: &str) -> (r: bool)
    ensures
        r == contains_name(existing@, name@),
{
    let n = existing.len();
    let mut i: usize = 0;
    while i < n
        invariant
            0 <= i <= n,
            n == existing@.len(),
            forall|j: int| 0 <= j < i ==> #[trigger] existing@[j]@ != name@,
        decreases n - i,
    {
        if str_eq(existing[i].as_str(), name) {
            return true;
        }
        i = i + 1;
    }
    false
}

proof fn lemma_dec_len_pos(n: nat)
    ensures
        spec_dec(n).len() >= 1,
    decreases n,
{
    if n >= 10 {
        lemma_dec_len_pos(n / 10);
    }
}

/// Distinct digits render as distinct characters.
proof fn lemma_digit_char_injective(x: nat, y: nat)
    requires
        x < 10,
        y < 10,
        crate::strutil::digit_char(x) == crate::strutil::digit_char(y),
    ensures
        x == y,
{
}

proof fn lemma_dec_injective(a: nat, b: nat)
    requires
        spec_dec(a) == spec_dec(b),
    ensures
        a == b,
    decreases a,
{
    lemma_dec_len_pos(a);
    lemma_dec_len_pos(b);
    if a < 10 && b < 10 {
        assert(spec_dec(a)[0] == spec_dec(b)[0]);
        assert(spec_dec(a)[0] == crate::strutil::digit_char(a));
        assert(spec_dec(b)[0] == crate::strutil::digit_char(b));
        lemma_digit_char_injective(a, b);
    } else if a < 10 && b >= 10 {
        lemma_dec_len_pos(b / 10);
        assert(spec_dec(b).len() >= 2);
    } else if a >= 10 && b < 10 {
        lemma_dec_len_pos(a / 10);
        assert(spec_dec(a).len() >= 2);
    } else {
        lemma_dec_len_pos(a / 10);
        lemma_dec_len_pos(b / 10);
        assert(spec_dec(a) == spec_dec(a / 10) + seq![digit_last(a)]);
        assert(spec_dec(b) == spec_dec(b / 10) + seq![digit_last(b)]);
        assert(spec_dec(a).last() == digit_last(a));
        assert(spec_dec(b).last() == digit_last(b));
        lemma_digit_char_injective(a % 10, b % 10);
        assert(spec_dec(a).drop_last() =~= spec_dec(a / 10));
        assert(spec_dec(b).drop_last() =~= spec_dec(b / 10));
        lemma_dec_injective(a / 10, b / 10);
        assert(a % 10 == b % 10);
        assert(a == 10 * (a / 10) + a % 10);
        assert(b == 10 * (b / 10) + b % 10);
    }
}

/// The last digit character of the decimal rendering of `n >= 10`.
spec fn digit_last(n: nat) -> char {
    crate::strutil::digit_char(n % 10)
}

/// Equal middles: if two concatenations with the same flanks and equally long
/// middles are equal, the middles are equal.
proof fn lemma_concat_mid_eq(a: Seq<char>, x: Seq<char>, y: Seq<char>, b: Seq<char>)
    requires
        x.len() == y.len(),
        a + x + b == a + y + b,
    ensures
        x == y,
{
    assert forall|i: int| 0 <= i < x.len() implies x[i] == y[i] by {
        assert((a + x + b)[a.len() + i] == x[i]);
        assert((a + y + b)[a.len() + i] == y[i]);
    }
    assert(x =~= y);
}

proof fn lemma_candidate_injective(name: Seq<char>, k1: nat, k2: nat)
    requires
        candidate(name, k1) == candidate(name, k2),
    ensures
        k1 == k2,
{
    let stem = stem_of(name);
    let ext = ext_of(name);
    lemma_after_last_bounds(name, '.');
    assert(stem + ext =~= name);
    if k1 == 0 && k2 != 0 {
        lemma_dec_len_pos(k2);
        assert(suffixed(name, k2).len() >= name.len() + 3);
    } else if k1 != 0 && k2 == 0 {
        lemma_dec_len_pos(k1);
        assert(suffixed(name, k1).len() >= name.len() + 3);
    } else if k1 != 0 && k2 != 0 {
        let d1 = spec_dec(k1);
        let d2 = spec_dec(k2);
        assert(suffixed(name, k1).len() == stem.len() + 1 + d1.len() + 1 + ext.len());
        assert(suffixed(name, k2).len() == stem.len() + 1 + d2.len() + 1 + ext.len());
        assert(d1.len() == d2.len());
        let pre = stem + seq!['('];
        let post = seq![')'] + ext;
        assert(suffixed(name, k1) =~= pre + d1 + post);
        assert(suffixed(name, k2) =~= pre + d2 + post);
        lemma_concat_mid_eq(pre, d1, d2, post);
        lemma_dec_injective(k1, k2);
    }
}

/// Among the first `n + 1` candidate names, at least one is free: they are
/// pairwise distinct, and only `n` existing names could block them.
proof fn lemma_free_candidate(existing: Seq<String>, name: Seq<char>)
    ensures
        exists|k: nat|
            k <= existing.len() && !contains_name(existing, #[trigger] candidate(name, k)),
{
    let n = existing.len();
    if forall|j: nat| j <= n ==> contains_name(existing, #[trigger] candidate(name, j)) {
        lemma_candidates_blocked(existing, name, n);
        let k0 = choose|k: nat|
            k <= existing.len() && !contains_name(existing, #[trigger] candidate(name, k));
    } else {
        let k0 = choose|j: nat| j <= n && !contains_name(existing, #[trigger] candidate(name, j));
        assert(k0 <= existing.len() && !contains_name(existing, candidate(name, k0)));
    }
}

/// Under the (impossible) assumption that all of the first `n + 1` candidates
/// are blocked, a free one exists all the same: the witness map from
/// candidates to the slots blocking them would be injective from `n + 1`
/// values into `n` slots.
proof fn lemma_candidates_blocked(existing: Seq<String>, name: Seq<char>, n: nat)
    requires
        existing.len() == n,
        forall|j: nat| j <= n ==> contains_name(existing, #[trigger] candidate(name, j)),
    ensures
        exists|k: nat|
            k <= existing.len() && !contains_name(existing, #[trigger] candidate(name, k)),
{
    let f = |j: int|
        choose|i: int| 0 <= i < existing.len() && #[trigger] existing[i]@ == candidate(
            name,
            j as nat,
        );
    let x = Set::new(|j: int| 0 <= j < n + 1);
    assert(x =~= vstd::set_lib::set_int_range(0, n as int + 1));
    lemma_int_range(0, n as int + 1);
    assert forall|j: int| x.contains(j) implies 0 <= #[trigger] f(j) < n by {
        assert(contains_name(existing, candidate(name, j as nat)));
    }
    assert(injective_on(f, x)) by {
        assert forall|j1: int, j2: int|
            #![trigger f(j1), f(j2)]
            x.contains(j1) && x.contains(j2) && f(j1) == f(j2) implies j1 == j2 by {
            assert(contains_name(existing, candidate(name, j1 as nat)));
            assert(contains_name(existing, candidate(name, j2 as nat)));
            assert(existing[f(j1)]@ == candidate(name, j1 as nat));
            assert(existing[f(j2)]@ == candidate(name, j2 as nat));
            lemma_candidate_injective(name, j1 as nat, j2 as nat);
        }
    }
    let y = x.map(f);
    lemma_map_size(x, y, f);
    assert(y.len() == n + 1);
    let slots = vstd::set_lib::set_int_range(0, n as int);
    lemma_int_range(0, n as int);
    assert(y.subset_of(slots)) by {
        assert forall|v: int| y.contains(v) implies slots.contains(v) by {
            let j = choose|j: int| x.contains(j) && #[trigger] f(j) == v;
        }
    }
    lemma_len_subset(y, slots);
    assert(n + 1 <= n);
}

/// The collision-suffix progression: a free name is kept; a taken name gets
/// `(1)`; when `(1)` is taken too, `(2)`; and so on. Stated of any result
/// that satisfies the destination-name contract.
pub proof fn lemma_collision_suffix_progression(
    existing: Seq<String>,
    desired: Seq<char>,
    r: Seq<char>,
)
    requires
        !contains_name(existing, r),
        exists|k: nat|
            r == #[trigger] candidate(desired, k) && (forall|j: nat|
                j < k ==> contains_name(existing, #[trigger] candidate(desired, j))),
    ensures
        !contains_name(existing, desired) ==> r == desired,
        contains_name(existing, desired) && !contains_name(existing, suffixed(desired, 1)) ==> r
            == suffixed(desired, 1),
        contains_name(existing, desired) && contains_name(existing, suffixed(desired, 1))
            && !contains_name(existing, suffixed(desired, 2)) ==> r == suffixed(desired, 2),
{
    let k = choose|k: nat|
        r == #[trigger] candidate(desired, k) && (forall|j: nat|
            j < k ==> contains_name(existing, #[trigger] candidate(desired, j)));
    if !contains_name(existing, desired) {
        assert(k == 0) by {
            if k > 0 {
                assert(contains_name(existing, candidate(desired, 0)));
            }
        }
    } else {
        assert(k != 0);
        if !contains_name(existing, suffixed(desired, 1)) {
            assert(k == 1) by {
                if k > 1 {
                    assert(contains_name(existing, candidate(desired, 1)));
                }
            }
        } else if !contains_name(existing, suffixed(desired, 2)) {
            assert(k != 1);
            assert(k == 2) by {
                if k > 2 {
                    assert(contains_name(existing, candidate(desired, 2)));
                }
            }
        }
    }
}

/// Builds `stem(k)ext`.
fn build_suffixed(stem: &str, ext: &str, k: u64) -> (r: String)
    ensures
        r@ == stem@ + seq!['('] + spec_dec(k as nat) + seq![')'] + ext@,
{
    let mut r = stem.to_owned();
    r.append("(");
    let dec = u64_to_dec(k);
    r.append(dec.as_str());
    r.append(")");
    r.append(ext);
    proof {
        reveal_strlit("(");
        reveal_strlit(")");
        assert("("@ =~= seq!['(']);
        assert(")"@ =~= seq![')']);
        assert(r@ =~= stem@ + seq!['('] + spec_dec(k as nat) + seq![')'] + ext@);
    }
    r
}

/// Picks the destination name for `desired` among the names already present:
/// the name itself when free, else the first free `stem(k)ext` variant, for
/// the least `k >= 1`.
///
/// The existence check and the eventual file creation are not atomic;
/// concurrent uploads of one name may still race, as the transport layer
/// documents.
#[verifier::loop_isolation(false)]
pub fn resolve_collision(existing: &Vec<String>, desired: &str) -> (r: String)
    requires
        existing@.len() < usize::MAX - 1,
    ensures
        !contains_name(existing@, r@),
        !contains_name(existing@, desired@) ==> r@ == desired@,
        exists|k: nat|
            r@ == #[trigger] candidate(desired@, k) && (forall|j: nat|
                j < k ==> contains_name(existing@, #[trigger] candidate(desired@, j))),
{
    let n = existing.len();
    let len = desired.unicode_len();
    let cut_after = str_after_last(desired, '.');
    let cut: usize = if cut_after >= 2 {
        cut_after - 1
    } else {
        len
    };
    proof {
        lemma_after_last_bounds(desired@, '.');
        assert(cut as int == ext_start(desired@));
    }
    let stem = desired.substring_char(0, cut);
    let ext = desired.substring_char(cut, len);
    proof {
        assert(stem@ == stem_of(desired@));
        assert(ext@ == ext_of(desired@));
    }
    let mut k: usize = 0;
    loop
        invariant
            k <= n + 1,
            forall|j: nat| j < k ==> contains_name(existing@, #[trigger] candidate(desired@, j)),
        decreases n + 1 - k,
    {
        let name = if k == 0 {
            let d = desired.to_owned();
            proof {
                assert(d@ == candidate(desired@, 0));
            }
            d
        } else {
            let s = build_suffixed(stem, ext, k as u64);
            proof {
                assert(s@ == candidate(desired@, k as nat));
            }
            s
        };
        if !contains_name_exec(existing, name.as_str()) {
            proof {
                if k > 0 {
                    assert(contains_name(existing@, candidate(desired@, 0)));
                }
            }
            return name;
        }
        proof {
            if k >= n {
                lemma_free_candidate(existing@, desired@);
                let kf = choose|kf: nat|
                    kf <= existing@.len() && !contains_name(
                        existing@,
                        #[trigger] candidate(desired@, kf),
                    );
                if kf < k as nat {
                    assert(contains_name(existing@, candidate(desired@, kf)));
                } else {
                    assert(kf == k as nat);
                    assert(name@ == candidate(desired@, kf));
                    assert(contains_name(existing@, candidate(desired@, kf)));
                }
            }
        }
        k = k + 1;
    }
}

} // verus!
