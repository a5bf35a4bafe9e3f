//! Directory listing: hidden entries are dropped and the rest are ordered
//! directories-first, then ascending lexicographic by name.

use vstd::prelude::*;
use vstd::multiset::Multiset;
use crate::strutil::{lex_le, str_lex_le, lemma_lex_le_total, lemma_lex_le_trans};

verus! {

/// One directory entry as the lister reports it: name, kind, and byte size
/// (0 for directories).
#[derive(Debug, Clone)]
pub struct DirEntry {
    pub name: String,
    pub is_dir: bool,
    pub size: u64,
}

/// Hidden-file convention: a name starting with a dot.
pub open spec fn hidden(e: DirEntry) -> bool {
    e.name@.len() > 0 && e.name@[0] == '.'
}

/// Listing order: directories before files; within one kind, ascending
/// lexicographic (codepoint) order by name.
pub open spec fn entry_le(a: DirEntry, b: DirEntry) -> bool {
    if a.is_dir != b.is_dir {
        a.is_dir
    } else {
        lex_le(a.name@, b.name@)
    }
}

/// The sequence is sorted under the listing order.
pub open spec fn entries_sorted(s: Seq<DirEntry>) -> bool {
    forall|i: int, j: int| 0 <= i < j < s.len() ==> entry_le(#[trigger] s[i], #[trigger] s[j])
}

proof fn lemma_entry_le_total(a: DirEntry, b: DirEntry)
    ensures
        entry_le(a, b) || entry_le(b, a),
{
    lemma_lex_le_total(a.name@, b.name@);
}

proof fn lemma_entry_le_trans(a: DirEntry, b: DirEntry, c: DirEntry)
    requires
        entry_le(a, b),
        entry_le(b, c),
    ensures
        entry_le(a, c),
{
    if a.is_dir == b.is_dir && b.is_dir == c.is_dir {
        lemma_lex_le_trans(a.name@, b.name@, c.name@);
    }
}

fn entry_le_exec(a: &DirEntry, b: &DirEntry) -> (r: bool)
    ensures
        r == entry_le(*a, *b),
{
    if a.is_dir != b.is_dir {
        a.is_dir
    } else {
        str_lex_le(a.name.as_str(), b.name.as_str())
    }
}

fn is_hidden(e: &DirEntry) -> (r: bool)
    ensures
        r == hidden(*e),
{
    let len = e.name.as_str().unicode_len();
    len > 0 && e.name.as_str().get_char(0) == '.'
}

/// `filter` of a sequence extended by one element.
proof fn lemma_filter_push<A>(s: Seq<A>, pred: spec_fn(A) -> bool, e: A)
    ensures
        s.push(e).filter(pred) == if pred(e) {
            s.filter(pred).push(e)
        } else {
            s.filter(pred)
        },
{
    reveal(Seq::filter);
    assert(s.push(e).drop_last() =~= s);
    assert(s.push(e).last() == e);
}

/// The multiset of a one-element sequence.
proof fn lemma_singleton_multiset<A>(e: A)
    ensures
        seq![e].to_multiset() == Multiset::empty().insert(e),
{
    broadcast use vstd::seq_lib::group_to_multiset_ensures;
    broadcast use vstd::multiset::group_multiset_axioms;

    assert(seq![e] =~= Seq::empty().push(e));
    assert(Seq::<A>::empty().to_multiset() =~= Multiset::empty());
    assert(seq![e].to_multiset() =~= Multiset::empty().insert(e));
}

/// Filtering a sequence extended on the left by one element: the multiset of
/// results gains exactly that element when it satisfies the predicate.
proof fn lemma_cons_filter_multiset<A>(s: Seq<A>, e: A, pred: spec_fn(A) -> bool)
    ensures
        (seq![e] + s).filter(pred).to_multiset() == if pred(e) {
            s.filter(pred).to_multiset().insert(e)
        } else {
            s.filter(pred).to_multiset()
        },
{
    broadcast use vstd::seq_lib::group_to_multiset_ensures;
    broadcast use vstd::multiset::group_multiset_axioms;

    Seq::filter_distributes_over_add(seq![e], s, pred);
    vstd::seq_lib::lemma_multiset_commutative(seq![e].filter(pred), s.filter(pred));
    assert(seq![e] =~= Seq::<A>::empty().push(e));
    lemma_filter_push(Seq::<A>::empty(), pred, e);
    assert(Seq::<A>::empty().filter(pred) =~= Seq::<A>::empty()) by {
        reveal(Seq::filter);
    }
    lemma_singleton_multiset(e);
    if pred(e) {
        assert(seq![e].filter(pred) == seq![e]);
        assert((seq![e] + s).filter(pred).to_multiset() =~= s.filter(pred).to_multiset().insert(e));
    } else {
        assert(seq![e].filter(pred) == Seq::<A>::empty());
        assert(Seq::<A>::empty().to_multiset() =~= Multiset::empty());
        assert((seq![e] + s).filter(pred).to_multiset() =~= s.filter(pred).to_multiset());
    }
}

/// Inserting an element anywhere adds exactly it to the multiset of elements.
proof fn lemma_insert_to_multiset<A>(s: Seq<A>, p: int, e: A)
    requires
        0 <= p <= s.len(),
    ensures
        s.insert(p, e).to_multiset() == s.to_multiset().insert(e),
{
    broadcast use vstd::seq_lib::group_to_multiset_ensures;
    broadcast use vstd::multiset::group_multiset_axioms;

    let pre = s.subrange(0, p);
    let post = s.subrange(p, s.len() as int);
    assert(s =~= pre + post);
    assert(s.insert(p, e) =~= pre + (seq![e] + post));
    vstd::seq_lib::lemma_multiset_commutative(pre, post);
    vstd::seq_lib::lemma_multiset_commutative(pre, seq![e] + post);
    vstd::seq_lib::lemma_multiset_commutative(seq![e], post);
    assert(seq![e].to_multiset() =~= Multiset::empty().insert(e)) by {
        assert(seq![e] =~= Seq::empty().push(e));
        assert(Seq::<A>::empty().to_multiset() =~= Multiset::empty());
    }
    assert(s.insert(p, e).to_multiset() =~= s.to_multiset().insert(e));
}

/// The listing order, spelled out: in a sorted listing every directory stands
/// before every file, and within each group names ascend lexicographically.
pub proof fn lemma_listing_order(s: Seq<DirEntry>)
    requires
        entries_sorted(s),
    ensures
        forall|i: int, j: int|
            0 <= i < j < s.len() && (#[trigger] s[i]).is_dir != (#[trigger] s[j]).is_dir
                ==> s[i].is_dir,
        forall|i: int, j: int|
            0 <= i < j < s.len() && (#[trigger] s[i]).is_dir == (#[trigger] s[j]).is_dir ==> lex_le(
                s[i].name@,
                s[j].name@,
            ),
{
}

/// Builds the listing from the raw directory entries: hidden entries are
/// removed, and the rest are reordered into the listing order. The result
/// holds exactly the non-hidden input entries (as a multiset), is sorted, and
/// shows no hidden entry.
#[verifier::loop_isolation(false)]
pub fn build_listing(entries: Vec<DirEntry>) -> (r: Vec<DirEntry>)
    ensures
        entries_sorted(r@),
        r@.to_multiset() == entries@.filter(|e: DirEntry| !hidden(e)).to_multiset(),
        forall|i: int| 0 <= i < r@.len() ==> !hidden(#[trigger] r@[i]),
{
    broadcast use vstd::seq_lib::group_to_multiset_ensures;
    broadcast use vstd::multiset::group_multiset_axioms;

    let ghost orig = entries@;
    let ghost n = entries@.len() as int;
    let ghost pred = |e: DirEntry| !hidden(e);
    let mut rest = entries;
    let mut out: Vec<DirEntry> = Vec::new();
    proof {
        assert(Seq::<DirEntry>::empty().to_multiset() =~= Multiset::empty());
        assert(orig.subrange(n, n).filter(pred) =~= Seq::<DirEntry>::empty()) by {
            reveal(Seq::filter);
            assert(orig.subrange(n, n) =~= Seq::<DirEntry>::empty());
        }
        assert(rest@ =~= orig.subrange(0, n));
    }
    while rest.len() > 0
        invariant
            rest@.len() <= n,
            rest@ == orig.subrange(0, rest@.len() as int),
            entries_sorted(out@),
            out@.to_multiset() == orig.subrange(rest@.len() as int, n).filter(pred).to_multiset(),
            n == orig.len(),
            forall|i: int| 0 <= i < out@.len() ==> !hidden(#[trigger] out@[i]),
        decreases rest@.len(),
    {
        let ghost old_rest = rest@;
        let ghost k = rest@.len() as int - 1;
        let e = rest.pop().unwrap();
        let ghost ge = e;
        let hide = is_hidden(&e);
        proof {
            assert(old_rest == orig.subrange(0, k + 1));
            assert(ge == old_rest[k]);
            assert(orig.subrange(0, k + 1)[k] == orig[k]);
            assert(rest@ == old_rest.subrange(0, k));
            assert(rest@ =~= orig.subrange(0, k));
            assert(orig.subrange(k, n) =~= seq![ge] + orig.subrange(k + 1, n));
            lemma_cons_filter_multiset(orig.subrange(k + 1, n), ge, pred);
            if pred(ge) {
                assert(orig.subrange(k, n).filter(pred).to_multiset() == out@.to_multiset().insert(
                    ge,
                ));
            } else {
                assert(orig.subrange(k, n).filter(pred).to_multiset() == out@.to_multiset());
            }
        }
        if !hide {
            // find the insertion point: everything before it is <= e
            let mut p: usize = 0;
            while p < out.len() && entry_le_exec(&out[p], &e)
                invariant
                    0 <= p <= out@.len(),
                    forall|t: int| 0 <= t < p ==> entry_le(#[trigger] out@[t], e),
                decreases out@.len() - p,
            {
                p = p + 1;
            }
            proof {
                if p < out@.len() {
                    lemma_entry_le_total(out@[p as int], e);
                    assert(entry_le(e, out@[p as int]));
                    assert forall|t: int| p <= t < out@.len() implies entry_le(
                        e,
                        #[trigger] out@[t],
                    ) by {
                        if t > p {
                            lemma_entry_le_trans(e, out@[p as int], out@[t]);
                        }
                    }
                }
                lemma_insert_to_multiset(out@, p as int, e);
            }
            let ghost old_out = out@;
            out.insert(p, e);
            proof {
                assert forall|i: int, j: int| 0 <= i < j < out@.len() implies entry_le(
                    #[trigger] out@[i],
                    #[trigger] out@[j],
                ) by {
                    if i < p && j < p {
                        assert(out@[i] == old_out[i] && out@[j] == old_out[j]);
                    } else if i < p && j == p {
                        assert(out@[i] == old_out[i]);
                    } else if i < p && j > p {
                        assert(out@[i] == old_out[i] && out@[j] == old_out[j - 1]);
                    } else if i == p {
                        assert(out@[j] == old_out[j - 1]);
                    } else {
                        assert(out@[i] == old_out[i - 1] && out@[j] == old_out[j - 1]);
                    }
                }
                assert(out@.to_multiset() == old_out.to_multiset().insert(ge));
                assert(orig.subrange(k, n) =~= seq![ge] + orig.subrange(k + 1, n));
                lemma_cons_filter_multiset(orig.subrange(k + 1, n), ge, pred);
                assert(orig.subrange(k, n).filter(pred).to_multiset() == out@.to_multiset());
            }
        }
    }
    proof {
        assert(orig.subrange(0, n) =~= orig);
    }
    out
}

} // verus!
