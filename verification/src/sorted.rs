//! Sets of strings kept as strictly increasing vectors.
//!
//! Several stores (the adblock allowlists among them) need a set of strings that
//! can be listed in sorted order; keeping the vector sorted on every update gives
//! both at once.
use vstd::prelude::*;

use crate::text::{
    chars_of, lemma_lex_asym, lemma_lex_irrefl, lemma_lex_total, lemma_lex_trans, lex_less, lex_lt,
    seq_eq, sorted_strict,
};

verus! {

broadcast use {vstd::string::group_string_axioms, vstd::set::group_set_axioms};

/// The character sequences of a vector of strings.
pub open spec fn views(v: Seq<String>) -> Seq<Seq<char>> {
    v.map_values(|s: String| s@)
}

/// A strictly sorted sequence whose elements are exactly the set.
pub open spec fn lists_set(s: Seq<Seq<char>>, set: Set<Seq<char>>) -> bool {
    sorted_strict(s) && s.to_set() == set
}

pub proof fn lemma_push_to_set<A>(s: Seq<A>, x: A)
    ensures
        s.push(x).to_set() == s.to_set().insert(x),
{
    assert forall|e: A| #[trigger] s.push(x).to_set().contains(e) <==> s.to_set().insert(x).contains(e) by {
        if s.push(x).contains(e) {
            let k = choose|k: int| 0 <= k < s.push(x).len() && s.push(x)[k] == e;
            if k < s.len() {
                assert(s[k] == e);
            }
        }
        if s.contains(e) {
            let k = choose|k: int| 0 <= k < s.len() && s[k] == e;
            assert(s.push(x)[k] == e);
        }
        if e == x {
            assert(s.push(x)[s.len() as int] == x);
        }
    }
    assert(s.push(x).to_set() =~= s.to_set().insert(x));
}

/// A copy of the vector.
pub fn clone_strings(v: &Vec<String>) -> (r: Vec<String>)
    ensures
        r@ == v@,
{
    let mut r: Vec<String> = Vec::new();
    let mut i: usize = 0;
    while i < v.len()
        invariant
            i <= v.len(),
            r@ == v@.take(i as int),
        decreases v.len() - i,
    {
        r.push(v[i].clone());
        i = i + 1;
        assert(r@ =~= v@.take(i as int));
    }
    assert(v@.take(v.len() as int) =~= v@);
    r
}

/// Position of the first element not below `x`, and whether it equals `x`.
fn lower_bound(v: &Vec<String>, x: &Vec<char>) -> (r: (usize, bool))
    requires
        sorted_strict(views(v@)),
    ensures
        r.0 <= v@.len(),
        forall|k: int| 0 <= k < r.0 ==> lex_lt(#[trigger] views(v@)[k], x@),
        r.0 < v@.len() ==> !lex_lt(views(v@)[r.0 as int], x@),
        r.1 == (r.0 < v@.len() && views(v@)[r.0 as int] == x@),
        !r.1 ==> (r.0 < v@.len() ==> lex_lt(x@, views(v@)[r.0 as int])),
{
    let mut i: usize = 0;
    while i < v.len()
        invariant
            i <= v.len(),
            sorted_strict(views(v@)),
            forall|k: int| 0 <= k < i ==> lex_lt(#[trigger] views(v@)[k], x@),
        decreases v.len() - i,
    {
        let cur = chars_of(v[i].as_str());
        assert(cur@ == views(v@)[i as int]);
        if !lex_less(&cur, x) {
            let eq = seq_eq(&cur, x);
            proof {
                if !eq {
                    lemma_lex_total(cur@, x@);
                }
            }
            return (i, eq);
        }
        i = i + 1;
    }
    (i, false)
}

/// Whether `x` is an element.
pub fn sorted_contains(v: &Vec<String>, x: &Vec<char>) -> (b: bool)
    requires
        sorted_strict(views(v@)),
    ensures
        b == views(v@).to_set().contains(x@),
{
    let (i, found) = lower_bound(v, x);
    proof {
        if !found && views(v@).contains(x@) {
            let k = choose|k: int| 0 <= k < views(v@).len() && views(v@)[k] == x@;
            if k < i {
                lemma_lex_irrefl(x@);
            } else {
                assert(i < v@.len());
                if k > i {
                    lemma_lex_trans(x@, views(v@)[i as int], views(v@)[k]);
                }
                lemma_lex_irrefl(x@);
            }
        }
    }
    found
}

/// Adds `x` to the set.
pub fn sorted_insert(v: &mut Vec<String>, x: String)
    requires
        sorted_strict(views(old(v)@)),
    ensures
        sorted_strict(views(final(v)@)),
        views(final(v)@).to_set() == views(old(v)@).to_set().insert(x@),
{
    let xc = chars_of(x.as_str());
    let (i, found) = lower_bound(v, &xc);
    if found {
        assert(views(v@).to_set().insert(x@) =~= views(v@).to_set());
        return ;
    }
    let ghost old_views = views(v@);
    v.insert(i, x);
    proof {
        let nv = views(v@);
        assert(nv =~= old_views.insert(i as int, xc@));
        assert forall|a: int, b: int| 0 <= a < b < nv.len() implies lex_lt(
            #[trigger] nv[a],
            #[trigger] nv[b],
        ) by {
            if b < i {
            } else if b == i {
            } else if a < i {
                assert(lex_lt(nv[a], xc@));
                assert(lex_lt(xc@, old_views[i as int]));
                if b - 1 > i {
                    lemma_lex_trans(xc@, old_views[i as int], old_views[b - 1]);
                }
                lemma_lex_trans(nv[a], xc@, nv[b]);
            } else if a == i {
                if b - 1 > i {
                    lemma_lex_trans(xc@, old_views[i as int], old_views[b - 1]);
                }
            } else {
            }
        }
        assert(nv.to_set() =~= old_views.to_set().insert(xc@)) by {
            assert forall|e: Seq<char>| nv.contains(e) <==> (old_views.contains(e) || e == xc@) by {
                if nv.contains(e) {
                    let k = choose|k: int| 0 <= k < nv.len() && nv[k] == e;
                    if k < i {
                        assert(old_views[k] == e);
                    } else if k > i {
                        assert(old_views[k - 1] == e);
                    }
                }
                if old_views.contains(e) {
                    let k = choose|k: int| 0 <= k < old_views.len() && old_views[k] == e;
                    if k < i {
                        assert(nv[k] == e);
                    } else {
                        assert(nv[k + 1] == e);
                    }
                }
                if e == xc@ {
                    assert(nv[i as int] == e);
                }
            }
        }
    }
}

/// Removes `x` from the set.
pub fn sorted_remove(v: &mut Vec<String>, x: &Vec<char>)
    requires
        sorted_strict(views(old(v)@)),
    ensures
        sorted_strict(views(final(v)@)),
        views(final(v)@).to_set() == views(old(v)@).to_set().remove(x@),
{
    let (i, found) = lower_bound(v, x);
    let ghost old_views = views(v@);
    if !found {
        proof {
            assert(old_views.to_set().remove(x@) =~= old_views.to_set()) by {
                if old_views.contains(x@) {
                    let k = choose|k: int| 0 <= k < old_views.len() && old_views[k] == x@;
                    if k < i {
                        lemma_lex_irrefl(x@);
                    } else {
                        if k > i {
                            lemma_lex_trans(x@, old_views[i as int], old_views[k]);
                        }
                        lemma_lex_irrefl(x@);
                    }
                }
            }
        }
        return ;
    }
    v.remove(i);
    proof {
        let nv = views(v@);
        assert(nv =~= old_views.remove(i as int));
        assert forall|a: int, b: int| 0 <= a < b < nv.len() implies lex_lt(
            #[trigger] nv[a],
            #[trigger] nv[b],
        ) by {
            let oa = if a < i {
                a
            } else {
                a + 1
            };
            let ob = if b < i {
                b
            } else {
                b + 1
            };
            assert(nv[a] == old_views[oa]);
            assert(nv[b] == old_views[ob]);
        }
        assert(nv.to_set() =~= old_views.to_set().remove(x@)) by {
            assert forall|e: Seq<char>| nv.contains(e) <==> (old_views.contains(e) && e != x@) by {
                if nv.contains(e) {
                    let k = choose|k: int| 0 <= k < nv.len() && nv[k] == e;
                    if k < i {
                        assert(old_views[k] == e);
                        lemma_lex_asym(old_views[k], old_views[i as int]);
                        if e == x@ {
                            lemma_lex_irrefl(x@);
                        }
                    } else {
                        assert(old_views[k + 1] == e);
                        if e == x@ {
                            lemma_lex_irrefl(x@);
                        }
                    }
                }
                if old_views.contains(e) && e != x@ {
                    let k = choose|k: int| 0 <= k < old_views.len() && old_views[k] == e;
                    if k < i {
                        assert(nv[k] == e);
                    } else if k > i {
                        assert(nv[k - 1] == e);
                    }
                }
            }
        }
    }
}

/// The sorted union of two sorted sets.
pub fn sorted_union(a: &Vec<String>, b: &Vec<String>) -> (r: Vec<String>)
    requires
        sorted_strict(views(a@)),
        sorted_strict(views(b@)),
    ensures
        sorted_strict(views(r@)),
        views(r@).to_set() == views(a@).to_set().union(views(b@).to_set()),
{
    let mut r: Vec<String> = Vec::new();
    let mut i: usize = 0;
    let mut j: usize = 0;
    let ghost av = views(a@);
    let ghost bv = views(b@);
    while i < a.len() || j < b.len()
        invariant
            i <= a.len(),
            j <= b.len(),
            av == views(a@),
            bv == views(b@),
            sorted_strict(av),
            sorted_strict(bv),
            sorted_strict(views(r@)),
            views(r@).to_set() == av.take(i as int).to_set().union(bv.take(j as int).to_set()),
            forall|k: int|
                0 <= k < r@.len() ==> (i < a@.len() ==> lex_lt(#[trigger] views(r@)[k], av[i as int])),
            forall|k: int|
                0 <= k < r@.len() ==> (j < b@.len() ==> lex_lt(#[trigger] views(r@)[k], bv[j as int])),
        decreases a.len() + b.len() - i - j,
    {
        let ghost rv = views(r@);
        let ghost oi = i;
        let ghost oj = j;
        let take_a: bool;
        let take_b: bool;
        if i < a.len() && j < b.len() {
            let ac = chars_of(a[i].as_str());
            let bc = chars_of(b[j].as_str());
            if lex_less(&ac, &bc) {
                take_a = true;
                take_b = false;
            } else if seq_eq(&ac, &bc) {
                take_a = true;
                take_b = true;
            } else {
                proof {
                    lemma_lex_total(ac@, bc@);
                }
                take_a = false;
                take_b = true;
            }
        } else if i < a.len() {
            take_a = true;
            take_b = false;
        } else {
            take_a = false;
            take_b = true;
        }
        let ghost x: Seq<char> = if take_a {
            av[i as int]
        } else {
            bv[j as int]
        };
        if take_a {
            r.push(a[i].clone());
        } else {
            r.push(b[j].clone());
        }
        if take_a {
            i = i + 1;
        }
        if take_b {
            j = j + 1;
        }
        proof {
            let nv = views(r@);
            assert(nv =~= rv.push(x));
            // x is below every element still to come
            if i < a@.len() {
                if take_a {
                    assert(lex_lt(av[oi as int], av[i as int]));
                } else {
                    assert(lex_lt(x, av[i as int]));
                }
            }
            if j < b@.len() {
                if take_b {
                    assert(lex_lt(bv[oj as int], bv[j as int]));
                } else {
                    assert(x == av[oi as int]);
                    assert(lex_lt(x, bv[oj as int]));
                }
            }
            assert forall|k: int| 0 <= k < nv.len() && i < a@.len() implies lex_lt(
                #[trigger] nv[k],
                av[i as int],
            ) by {
                if k < rv.len() && i < a@.len() && take_a {
                    lemma_lex_trans(nv[k], av[oi as int], av[i as int]);
                }
            }
            assert forall|k: int| 0 <= k < nv.len() && j < b@.len() implies lex_lt(
                #[trigger] nv[k],
                bv[j as int],
            ) by {
                if k < rv.len() && j < b@.len() && take_b {
                    lemma_lex_trans(nv[k], bv[oj as int], bv[j as int]);
                }
            }
            assert forall|p: int, q: int| 0 <= p < q < nv.len() implies lex_lt(
                #[trigger] nv[p],
                #[trigger] nv[q],
            ) by {
                if q == rv.len() {
                    if take_a {
                        assert(oi < a@.len());
                    } else {
                        assert(oj < b@.len());
                    }
                }
            }
            assert(av.take(i as int).to_set() =~= if take_a {
                av.take(oi as int).to_set().insert(x)
            } else {
                av.take(oi as int).to_set()
            }) by {
                if take_a {
                    assert(av.take(i as int) =~= av.take(oi as int).push(x));
                    lemma_push_to_set(av.take(oi as int), x);
                }
            }
            assert(bv.take(j as int).to_set() =~= if take_b {
                bv.take(oj as int).to_set().insert(bv[oj as int])
            } else {
                bv.take(oj as int).to_set()
            }) by {
                if take_b {
                    assert(bv.take(j as int) =~= bv.take(oj as int).push(bv[oj as int]));
                    lemma_push_to_set(bv.take(oj as int), bv[oj as int]);
                }
            }
            lemma_push_to_set(rv, x);
            assert(views(r@).to_set() =~= av.take(i as int).to_set().union(
                bv.take(j as int).to_set(),
            ));
        }
    }
    assert(av.take(i as int) =~= av);
    assert(bv.take(j as int) =~= bv);
    r
}


/// A strictly sorted listing of a set is unique.
pub proof fn lemma_lists_set_unique(a: Seq<Seq<char>>, b: Seq<Seq<char>>)
    requires
        sorted_strict(a),
        sorted_strict(b),
        a.to_set() == b.to_set(),
    ensures
        a == b,
    decreases a.len(),
{
    if a.len() == 0 {
        if b.len() > 0 {
            assert(b.to_set().contains(b[0]));
        }
        assert(a =~= b);
    } else {
        assert(a.to_set().contains(a[0]));
        assert(b.len() > 0);
        assert(b.to_set().contains(b[0]));
        let k = choose|k: int| 0 <= k < b.len() && b[k] == a[0];
        let m = choose|m: int| 0 <= m < a.len() && a[m] == b[0];
        if k > 0 {
            assert(lex_lt(b[0], b[k]));
            if m > 0 {
                assert(lex_lt(a[0], a[m]));
                lemma_lex_asym(a[0], a[m]);
            } else {
                lemma_lex_irrefl(a[0]);
            }
        }
        assert(a[0] == b[0]);
        let a1 = a.drop_first();
        let b1 = b.drop_first();
        assert forall|e: Seq<char>| #[trigger] a1.to_set().contains(e) <==> b1.to_set().contains(e) by {
            if a1.to_set().contains(e) {
                let p = choose|p: int| 0 <= p < a1.len() && a1[p] == e;
                assert(a[p + 1] == e);
                assert(a.to_set().contains(e));
                let q = choose|q: int| 0 <= q < b.len() && b[q] == e;
                if q == 0 {
                    assert(lex_lt(a[0], a[p + 1]));
                    lemma_lex_irrefl(e);
                }
                assert(b1[q - 1] == e);
            }
            if b1.to_set().contains(e) {
                let p = choose|p: int| 0 <= p < b1.len() && b1[p] == e;
                assert(b[p + 1] == e);
                assert(b.to_set().contains(e));
                let q = choose|q: int| 0 <= q < a.len() && a[q] == e;
                if q == 0 {
                    assert(lex_lt(b[0], b[p + 1]));
                    lemma_lex_irrefl(e);
                }
                assert(a1[q - 1] == e);
            }
        }
        assert(a1.to_set() =~= b1.to_set());
        lemma_lists_set_unique(a1, b1);
        assert(a =~= seq![a[0]] + a1);
        assert(b =~= seq![b[0]] + b1);
    }
}

/// The sorted listing of a set that has one.
pub open spec fn sorted_list(set: Set<Seq<char>>) -> Seq<Seq<char>> {
    choose|s: Seq<Seq<char>>| lists_set(s, set)
}

pub proof fn lemma_sorted_list(s: Seq<Seq<char>>, set: Set<Seq<char>>)
    requires
        lists_set(s, set),
    ensures
        sorted_list(set) == s,
{
    let t = sorted_list(set);
    assert(lists_set(t, set));
    lemma_lists_set_unique(s, t);
}

} // verus!
