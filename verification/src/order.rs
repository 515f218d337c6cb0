use vstd::prelude::*;

use vstd::seq_lib::{to_multiset_insert, to_multiset_remove};
use vstd::string::StringSliceAdditionalSpecFns;

verus! {

/// Lexicographic order over byte sequences: the order `str` comparison uses,
/// since strings compare by their UTF-8 bytes and UTF-8 preserves code point
/// order.
pub open spec fn bytes_lex_le(a: Seq<u8>, b: Seq<u8>) -> bool
    decreases a.len(),
{
    if a.len() == 0 {
        true
    } else if b.len() == 0 {
        false
    } else if a[0] < b[0] {
        true
    } else if a[0] > b[0] {
        false
    } else {
        bytes_lex_le(a.drop_first(), b.drop_first())
    }
}

pub proof fn lemma_bytes_lex_le_total(a: Seq<u8>, b: Seq<u8>)
    ensures
        bytes_lex_le(a, b) || bytes_lex_le(b, a),
    decreases a.len(),
{
    if a.len() > 0 && b.len() > 0 && a[0] == b[0] {
        lemma_bytes_lex_le_total(a.drop_first(), b.drop_first());
    }
}

pub proof fn lemma_bytes_lex_le_trans(a: Seq<u8>, b: Seq<u8>, c: Seq<u8>)
    requires
        bytes_lex_le(a, b),
        bytes_lex_le(b, c),
    ensures
        bytes_lex_le(a, c),
    decreases a.len(),
{
    if a.len() > 0 {
        if a[0] == b[0] && b[0] == c[0] {
            lemma_bytes_lex_le_trans(a.drop_first(), b.drop_first(), c.drop_first());
        }
    }
}

/// If two byte sequences agree up to position `i`, their order is decided by
/// what follows.
proof fn lemma_bytes_lex_le_common_prefix(a: Seq<u8>, b: Seq<u8>, i: int)
    requires
        0 <= i <= a.len(),
        i <= b.len(),
        forall|t: int| 0 <= t < i ==> a[t] == b[t],
    ensures
        bytes_lex_le(a, b) == bytes_lex_le(a.skip(i), b.skip(i)),
    decreases i,
{
    if i > 0 {
        assert(a.len() > 0 && b.len() > 0 && a[0] == b[0]);
        lemma_bytes_lex_le_common_prefix(a.drop_first(), b.drop_first(), i - 1);
        assert(a.drop_first().skip(i - 1) =~= a.skip(i));
        assert(b.drop_first().skip(i - 1) =~= b.skip(i));
    } else {
        assert(a.skip(0) =~= a);
        assert(b.skip(0) =~= b);
    }
}

/// Compares two strings by their UTF-8 bytes, the order `str`'s own
/// comparison defines.
pub fn str_bytes_le(a: &str, b: &str) -> (r: bool)
    ensures
        r == bytes_lex_le(a.spec_bytes(), b.spec_bytes()),
{
    let ab = a.as_bytes();
    let bb = b.as_bytes();
    let na = ab.len();
    let nb = bb.len();
    let shorter = if na < nb {
        na
    } else {
        nb
    };
    let mut i: usize = 0;
    while i < shorter
        invariant
            ab@ == a.spec_bytes(),
            bb@ == b.spec_bytes(),
            na == ab@.len(),
            nb == bb@.len(),
            shorter == (if na < nb {
                na
            } else {
                nb
            }),
            i <= shorter,
            forall|t: int| 0 <= t < i ==> ab@[t] == bb@[t],
        decreases shorter - i,
    {
        let x = *vstd::slice::slice_index_get(ab, i);
        let y = *vstd::slice::slice_index_get(bb, i);
        if x < y {
            proof {
                lemma_bytes_lex_le_common_prefix(ab@, bb@, i as int);
                assert(ab@.skip(i as int)[0] == ab@[i as int]);
                assert(bb@.skip(i as int)[0] == bb@[i as int]);
            }
            return true;
        }
        if x > y {
            proof {
                lemma_bytes_lex_le_common_prefix(ab@, bb@, i as int);
                assert(ab@.skip(i as int)[0] == ab@[i as int]);
                assert(bb@.skip(i as int)[0] == bb@[i as int]);
            }
            return false;
        }
        i += 1;
    }
    proof {
        lemma_bytes_lex_le_common_prefix(ab@, bb@, shorter as int);
        if na <= nb {
            assert(ab@.skip(shorter as int).len() == 0);
        } else {
            assert(ab@.skip(shorter as int).len() > 0);
            assert(bb@.skip(shorter as int).len() == 0);
        }
    }
    na <= nb
}

/// A total order a row type offers for sorting: a specification-level
/// relation, its totality and transitivity, and an executable test agreeing
/// with it.
pub trait SortOrd: Sized {
    spec fn le(self, other: Self) -> bool;

    proof fn lemma_le_total(a: Self, b: Self)
        ensures
            a.le(b) || b.le(a),
    ;

    proof fn lemma_le_trans(a: Self, b: Self, c: Self)
        requires
            a.le(b),
            b.le(c),
        ensures
            a.le(c),
    ;

    fn le_exec(&self, other: &Self) -> (r: bool)
        ensures
            r == self.le(*other),
    ;
}

pub open spec fn sorted_by_le<T: SortOrd>(s: Seq<T>) -> bool {
    forall|i: int, j: int| #![trigger s[i], s[j]] 0 <= i < j < s.len() ==> s[i].le(s[j])
}

/// Sorts in place by the row type's order. The result is sorted and a
/// permutation of the input (same multiset of rows).
pub fn insertion_sort<T: SortOrd>(v: &mut Vec<T>)
    ensures
        sorted_by_le(final(v)@),
        final(v)@.to_multiset() == old(v)@.to_multiset(),
{
    let n = v.len();
    let mut i: usize = 1;
    while i < n
        invariant
            n == v@.len(),
            i >= 1,
            forall|a: int, b: int| #![trigger v@[a], v@[b]] 0 <= a < b < i && b < n ==> v@[a].le(
                v@[b],
            ),
            v@.to_multiset() == old(v)@.to_multiset(),
        decreases n - i,
    {
        let ghost pre = v@;
        let mut j: usize = 0;
        while j < i && v[j].le_exec(&v[i])
            invariant
                v@ == pre,
                n == v@.len(),
                1 <= i < n,
                j <= i,
                forall|a: int| 0 <= a < j ==> (#[trigger] v@[a]).le(v@[i as int]),
            decreases i - j,
        {
            j += 1;
        }
        proof {
            if j < i {
                T::lemma_le_total(pre[j as int], pre[i as int]);
                assert(pre[i as int].le(pre[j as int]));
            }
        }
        let x = v.remove(i);
        v.insert(j, x);
        proof {
            let rem = pre.remove(i as int);
            assert(v@ == rem.insert(j as int, pre[i as int]));
            // permutation: taking the row out and putting it back elsewhere
            // keeps the multiset
            to_multiset_remove(pre, i as int);
            to_multiset_insert(rem, j as int, pre[i as int]);
            assert(pre.contains(pre[i as int]));
            pre.to_multiset_ensures();
            assert(pre.to_multiset().count(pre[i as int]) > 0);
            assert(v@.to_multiset() =~= pre.to_multiset()) by {
                broadcast use vstd::multiset::group_multiset_axioms;

            }
            // the prefix one longer is sorted again
            assert forall|a: int, b: int|
                #![trigger v@[a], v@[b]]
                0 <= a < b < i + 1 && b < n implies v@[a].le(v@[b]) by {
                let x_val = pre[i as int];
                if b < j {
                    assert(v@[a] == pre[a] && v@[b] == pre[b]);
                } else if b == j {
                    assert(v@[a] == pre[a] && v@[b] == x_val);
                } else {
                    // b > j
                    assert(v@[b] == pre[b - 1]);
                    if a < j {
                        assert(v@[a] == pre[a]);
                        assert(pre[a].le(pre[b - 1]));
                    } else if a == j {
                        assert(v@[a] == x_val);
                        if j < i {
                            assert(x_val.le(pre[j as int]));
                            if b - 1 > j {
                                assert(pre[j as int].le(pre[b - 1]));
                                T::lemma_le_trans(x_val, pre[j as int], pre[b - 1]);
                            }
                        }
                    } else {
                        assert(v@[a] == pre[a - 1]);
                        assert(pre[a - 1].le(pre[b - 1]));
                    }
                }
            }
        }
        i += 1;
    }
}

/// A permutation of rows is a permutation of their readings.
pub(crate) proof fn lemma_map_values_multiset<A, B>(a: Seq<A>, b: Seq<A>, f: spec_fn(A) -> B)
    requires
        a.to_multiset() == b.to_multiset(),
    ensures
        a.map_values(f).to_multiset() == b.map_values(f).to_multiset(),
    decreases a.len(),
{
    broadcast use vstd::multiset::group_multiset_axioms;

    a.to_multiset_ensures();
    b.to_multiset_ensures();
    if a.len() == 0 {
        assert(b.to_multiset().len() == 0);
        assert(b.len() == 0);
        assert(a.map_values(f) =~= b.map_values(f));
    } else {
        let x = a.last();
        assert(a[a.len() - 1] == x);
        assert(a.contains(x));
        assert(a.to_multiset().count(x) > 0);
        assert(b.contains(x));
        let bi = choose|bi: int| 0 <= bi < b.len() && b[bi] == x;
        let a2 = a.drop_last();
        let b2 = b.remove(bi);
        to_multiset_remove(b, bi);
        assert(a =~= a2.push(x));
        assert(a.to_multiset() == a2.to_multiset().insert(x)) by {
            a2.to_multiset_ensures();
        }
        assert(a2.to_multiset() =~= b2.to_multiset()) by {
            assert(a2.to_multiset() == a.to_multiset().remove(x)) by {
                a2.to_multiset_ensures();
                assert(a2.to_multiset().insert(x).remove(x) =~= a2.to_multiset());
            }
        }
        lemma_map_values_multiset(a2, b2, f);
        // put the mapped row back on both sides
        let ma = a.map_values(f);
        let mb = b.map_values(f);
        assert(ma =~= a2.map_values(f).push(f(x)));
        assert(mb.remove(bi) =~= b2.map_values(f));
        to_multiset_remove(mb, bi);
        assert(mb[bi] == f(x));
        a2.map_values(f).to_multiset_ensures();
        assert(ma.to_multiset() == a2.map_values(f).to_multiset().insert(f(x)));
        assert(mb.to_multiset().remove(f(x)) == b2.map_values(f).to_multiset());
        assert(mb.contains(f(x))) by {
            assert(mb[bi] == f(x));
        }
        mb.to_multiset_ensures();
        assert(mb.to_multiset().count(f(x)) > 0);
        assert(mb.to_multiset().remove(f(x)).insert(f(x)) =~= mb.to_multiset());
        assert(ma.to_multiset() =~= mb.to_multiset());
    }
}

} // verus!
