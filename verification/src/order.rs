//! Lexicographic ordering of byte-string name tokens.
//!
//! Migration modules are identified by ASCII name tokens whose lexicographic
//! order is, by the naming convention, their chronological order.  This module
//! defines that order, proves it is a total ordering, and provides a verified
//! sort used by the registry builder.

use vstd::prelude::*;
use vstd::relations::{sorted_by, total_ordering};
use vstd::seq_lib::{lemma_multiset_commutative, lemma_sorted_unique, group_to_multiset_ensures};
use vstd::multiset::group_multiset_axioms;

verus! {

/// `a` is lexicographically at or before `b`, comparing bytes from the front;
/// a proper prefix comes before every extension of it.
pub open spec fn lex_le(a: Seq<u8>, b: Seq<u8>) -> bool
    decreases a.len(),
{
    if a.len() == 0 {
        true
    } else if b.len() == 0 {
        false
    } else if a[0] < b[0] {
        true
    } else if a[0] > b[0] {
        false
    } else {
        lex_le(a.drop_first(), b.drop_first())
    }
}

/// The ordering as a relation value, for use with `sorted_by`.
pub open spec fn lex_leq() -> spec_fn(Seq<u8>, Seq<u8>) -> bool {
    |a: Seq<u8>, b: Seq<u8>| lex_le(a, b)
}

pub proof fn lemma_lex_le_refl(a: Seq<u8>)
    ensures
        lex_le(a, a),
    decreases a.len(),
{
    if a.len() > 0 {
        lemma_lex_le_refl(a.drop_first());
    }
}

pub proof fn lemma_lex_le_antisym(a: Seq<u8>, b: Seq<u8>)
    requires
        lex_le(a, b),
        lex_le(b, a),
    ensures
        a == b,
    decreases a.len(),
{
    if a.len() == 0 {
        assert(b.len() == 0);
        assert(a =~= b);
    } else {
        assert(b.len() > 0);
        assert(a[0] == b[0]);
        lemma_lex_le_antisym(a.drop_first(), b.drop_first());
        assert(a.drop_first() =~= b.drop_first());
        assert(a.drop_first().len() == a.len() - 1);
        assert(b.drop_first().len() == b.len() - 1);
        assert forall|i: int| 0 <= i < a.len() implies a[i] == b[i] by {
            if i > 0 {
                assert(a.drop_first()[i - 1] == b.drop_first()[i - 1]);
                assert(a.drop_first()[i - 1] == a[i]);
                assert(b.drop_first()[i - 1] == b[i]);
            }
        }
        assert(a =~= b);
    }
}

pub proof fn lemma_lex_le_trans(a: Seq<u8>, b: Seq<u8>, c: Seq<u8>)
    requires
        lex_le(a, b),
        lex_le(b, c),
    ensures
        lex_le(a, c),
    decreases a.len(),
{
    if a.len() == 0 {
    } else {
        assert(b.len() > 0);
        assert(c.len() > 0);
        if a[0] == c[0] {
            assert(a[0] == b[0] && b[0] == c[0]);
            lemma_lex_le_trans(a.drop_first(), b.drop_first(), c.drop_first());
        }
    }
}

pub proof fn lemma_lex_le_connected(a: Seq<u8>, b: Seq<u8>)
    ensures
        lex_le(a, b) || lex_le(b, a),
    decreases a.len(),
{
    if a.len() > 0 && b.len() > 0 && a[0] == b[0] {
        lemma_lex_le_connected(a.drop_first(), b.drop_first());
    }
}

/// Lexicographic order on byte strings is a total ordering.
pub proof fn lemma_lex_total_ordering()
    ensures
        total_ordering(lex_leq()),
{
    let r = lex_leq();
    assert forall|a: Seq<u8>| #[trigger] r(a, a) by {
        lemma_lex_le_refl(a);
    }
    assert forall|a: Seq<u8>, b: Seq<u8>| #[trigger] r(a, b) && #[trigger] r(b, a) implies a == b by {
        lemma_lex_le_antisym(a, b);
    }
    assert forall|a: Seq<u8>, b: Seq<u8>, c: Seq<u8>| #[trigger] r(a, b) && #[trigger] r(b, c) implies r(a, c) by {
        lemma_lex_le_trans(a, b, c);
    }
    assert forall|a: Seq<u8>, b: Seq<u8>| !(#[trigger] r(a, b)) implies r(b, a) by {
        lemma_lex_le_connected(a, b);
    }
}

/// Compares two byte strings; returns whether `a` is at or before `b` in
/// lexicographic order.
pub fn bytes_le(a: &Vec<u8>, b: &Vec<u8>) -> (r: bool)
    ensures
        r == lex_le(a@, b@),
{
    let mut i: usize = 0;
    proof {
        assert(a@.skip(0) =~= a@);
        assert(b@.skip(0) =~= b@);
    }
    loop
        invariant
            i <= a.len(),
            i <= b.len(),
            lex_le(a@, b@) == lex_le(a@.skip(i as int), b@.skip(i as int)),
        decreases a@.len() - i,
    {
        if i == a.len() {
            proof {
                assert(a@.skip(i as int).len() == 0);
            }
            return true;
        }
        if i == b.len() {
            proof {
                assert(a@.skip(i as int).len() > 0);
                assert(b@.skip(i as int).len() == 0);
            }
            return false;
        }
        let x = a[i];
        let y = b[i];
        proof {
            assert(a@.skip(i as int)[0] == a@[i as int]);
            assert(b@.skip(i as int)[0] == b@[i as int]);
        }
        if x < y {
            return true;
        }
        if x > y {
            return false;
        }
        proof {
            assert(a@.skip(i as int).drop_first() =~= a@.skip(i as int + 1));
            assert(b@.skip(i as int).drop_first() =~= b@.skip(i as int + 1));
        }
        i = i + 1;
    }
}

/// The byte strings held by a vector of tokens, as a sequence of sequences.
pub open spec fn views_of(s: Seq<Vec<u8>>) -> Seq<Seq<u8>> {
    Seq::new(s.len(), |i: int| s[i]@)
}

proof fn lemma_insert_to_multiset(s: Seq<Seq<u8>>, p: int, x: Seq<u8>)
    requires
        0 <= p <= s.len(),
    ensures
        s.insert(p, x).to_multiset() == s.to_multiset().insert(x),
{
    broadcast use group_multiset_axioms;
    broadcast use group_to_multiset_ensures;

    let u = s.subrange(0, p);
    let w = s.subrange(p, s.len() as int);
    assert(s.insert(p, x) == u.push(x) + w);
    lemma_multiset_commutative(u.push(x), w);
    lemma_multiset_commutative(u, w);
    assert(u.push(x).to_multiset() =~= u.to_multiset().insert(x));
    assert(s =~= u + w);
    assert(s.insert(p, x).to_multiset() =~= s.to_multiset().insert(x));
}

proof fn lemma_sorted_pair(s: Seq<Seq<u8>>, i: int, j: int)
    requires
        sorted_by(s, lex_leq()),
        0 <= i < j < s.len(),
    ensures
        lex_le(s[i], s[j]),
{
    assert((lex_leq())(s[i], s[j]));
}

/// Finds the position at which `x` belongs in a sorted vector of tokens.
fn find_pos(out: &Vec<Vec<u8>>, x: &Vec<u8>) -> (p: usize)
    ensures
        p <= out.len(),
        forall|j: int| 0 <= j < p ==> lex_le(#[trigger] views_of(out@)[j], x@),
        p < out.len() ==> !lex_le(views_of(out@)[p as int], x@),
{
    let mut p: usize = 0;
    loop
        invariant
            p <= out.len(),
            forall|j: int| 0 <= j < p ==> lex_le(#[trigger] views_of(out@)[j], x@),
        decreases out@.len() - p,
    {
        if p == out.len() {
            return p;
        }
        if !bytes_le(&out[p], &x) {
            return p;
        }
        p = p + 1;
    }
}

/// Inserts `x` into an already sorted vector of tokens, keeping it sorted.
fn insert_token(out: &mut Vec<Vec<u8>>, x: Vec<u8>)
    requires
        sorted_by(views_of(old(out)@), lex_leq()),
    ensures
        sorted_by(views_of(final(out)@), lex_leq()),
        views_of(final(out)@).to_multiset() == views_of(old(out)@).to_multiset().insert(x@),
{
    let ghost dv0 = views_of(old(out)@);
    let p = find_pos(out, &x);
    proof {
        if p < out.len() {
            lemma_lex_le_connected(dv0[p as int], x@);
            assert(lex_le(x@, dv0[p as int]));
        }
    }
    let ghost pos = p as int;
    out.insert(p, x);
    proof {
        assert(out@ == old(out)@.insert(pos, x));
        let dv1 = views_of(out@);
        assert(dv1 =~= dv0.insert(pos, x@)) by {
            dv0.insert_ensures(pos, x@);
            old(out)@.insert_ensures(pos, x);
            assert(dv1.len() == out@.len());
            assert(forall|i: int| 0 <= i < pos ==> #[trigger] out@[i] == old(out)@[i]);
            assert(forall|i: int| pos < i < out@.len() ==> #[trigger] out@[i] == old(out)@[i - 1]);
            assert(out@[pos] == x);
        }
        lemma_insert_to_multiset(dv0, pos, x@);
        let s = dv0.insert(pos, x@);
        dv0.insert_ensures(pos, x@);
        assert forall|i: int, j: int| 0 <= i < j < s.len() implies (lex_leq())(s[i], s[j]) by {
            if j < pos {
                lemma_sorted_pair(dv0, i, j);
            } else if i > pos {
                assert(s[i] == dv0[i - 1] && s[j] == dv0[j - 1]);
                lemma_sorted_pair(dv0, i - 1, j - 1);
            } else if i == pos {
                // s[i] is x; everything after position pos was at or after x.
                assert(s[j] == dv0[j - 1]);
                assert(lex_le(x@, dv0[pos]));
                if j - 1 > pos {
                    lemma_sorted_pair(dv0, pos, j - 1);
                    lemma_lex_le_trans(x@, dv0[pos], dv0[j - 1]);
                }
            } else if j == pos {
                // s[j] is x; everything before position pos is at or before x.
                assert(s[i] == dv0[i]);
                assert(lex_le(dv0[i], x@));
            } else {
                // i < pos < j
                assert(s[i] == dv0[i] && s[j] == dv0[j - 1]);
                assert(lex_le(dv0[i], x@));
                assert(lex_le(x@, dv0[pos]));
                if j - 1 > pos {
                    lemma_sorted_pair(dv0, pos, j - 1);
                    lemma_lex_le_trans(x@, dv0[pos], dv0[j - 1]);
                }
                lemma_lex_le_trans(dv0[i], x@, dv0[j - 1]);
            }
        }
    }
}

/// Sorts name tokens into ascending lexicographic order; the result is a
/// permutation of the input.
pub fn sort_tokens(tokens: Vec<Vec<u8>>) -> (r: Vec<Vec<u8>>)
    ensures
        sorted_by(views_of(r@), lex_leq()),
        views_of(r@).to_multiset() == views_of(tokens@).to_multiset(),
{
    broadcast use group_multiset_axioms;

    let ghost orig = views_of(tokens@);
    let mut rest = tokens;
    let mut out: Vec<Vec<u8>> = Vec::new();
    proof {
        broadcast use group_to_multiset_ensures;

        assert(views_of(out@) =~= Seq::<Seq<u8>>::empty());
        assert(views_of(out@).to_multiset().add(views_of(rest@).to_multiset()) =~= orig.to_multiset());
    }
    while rest.len() > 0
        invariant
            sorted_by(views_of(out@), lex_leq()),
            views_of(out@).to_multiset().add(views_of(rest@).to_multiset()) =~= orig.to_multiset(),
        decreases rest@.len(),
    {
        broadcast use group_to_multiset_ensures;

        let ghost rest0 = views_of(rest@);
        let x = match rest.pop() {
            Some(x) => x,
            None => vstd::pervasive::unreached(),
        };
        proof {
            assert(rest0 =~= views_of(rest@).push(x@));
            assert(rest0.to_multiset() =~= views_of(rest@).to_multiset().insert(x@));
        }
        insert_token(&mut out, x);
    }
    proof {
        broadcast use group_to_multiset_ensures;

        assert(views_of(rest@).len() == 0);
        assert(views_of(rest@).to_multiset().len() == 0);
        assert(views_of(out@).to_multiset() =~= orig.to_multiset());
    }
    out
}

/// A sorted registry order is unique: any two orderings of the same tokens
/// that are both ascending are the same ordering.  Together with the
/// postcondition of `sort_tokens` this makes registry regeneration
/// deterministic: the same directory contents always give the same order.
pub proof fn lemma_sorted_order_unique(r1: Seq<Seq<u8>>, r2: Seq<Seq<u8>>)
    requires
        sorted_by(r1, lex_leq()),
        sorted_by(r2, lex_leq()),
        r1.to_multiset() == r2.to_multiset(),
    ensures
        r1 == r2,
{
    lemma_lex_total_ordering();
    lemma_sorted_unique(r1, r2, lex_leq());
    assert(r1 =~= r2);
}

} // verus!
