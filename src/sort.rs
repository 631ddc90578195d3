//! The sort engine: ranks, the order between them, and a stable sort by rank.
use vstd::prelude::*;
use core::cmp::Ordering;
use crate::text::{compare_str, lex_lt, lemma_lex_asymmetric, lemma_lex_irreflexive, lemma_lex_total, lemma_lex_transitive};

verus! {

/// Where an element stands in an ordering: by `major` ascending first, then by
/// `minor` in lexicographic order, ascending or descending.
#[derive(Clone, Debug)]
pub struct Rank {
    pub major: i64,
    pub minor: String,
}

impl View for Rank {
    type V = (int, Seq<char>);

    open spec fn view(&self) -> (int, Seq<char>) {
        (self.major as int, self.minor@)
    }
}

/// Whether rank `a` comes strictly before rank `b`.
pub open spec fn rank_lt(a: (int, Seq<char>), b: (int, Seq<char>), desc: bool) -> bool {
    a.0 < b.0 || (a.0 == b.0 && if desc {
        lex_lt(b.1, a.1)
    } else {
        lex_lt(a.1, b.1)
    })
}

/// Whether neither of two ranks comes before the other.
pub open spec fn rank_tied(a: (int, Seq<char>), b: (int, Seq<char>), desc: bool) -> bool {
    !rank_lt(a, b, desc) && !rank_lt(b, a, desc)
}

pub proof fn lemma_rank_irreflexive(a: (int, Seq<char>), desc: bool)
    ensures
        !rank_lt(a, a, desc),
{
    lemma_lex_irreflexive(a.1);
}

pub proof fn lemma_rank_transitive(a: (int, Seq<char>), b: (int, Seq<char>), c: (int, Seq<char>), desc: bool)
    requires
        rank_lt(a, b, desc),
        rank_lt(b, c, desc),
    ensures
        rank_lt(a, c, desc),
{
    if a.0 == b.0 && b.0 == c.0 {
        if desc {
            lemma_lex_transitive(c.1, b.1, a.1);
        } else {
            lemma_lex_transitive(a.1, b.1, c.1);
        }
    }
}

/// Ranks that are tied are equal.
pub proof fn lemma_rank_tied_equal(a: (int, Seq<char>), b: (int, Seq<char>), desc: bool)
    ensures
        rank_tied(a, b, desc) <==> a == b,
{
    lemma_lex_total(a.1, b.1);
    lemma_lex_irreflexive(a.1);
}

/// If `c` comes before `a`, then `b` comes after `c` or before `a`.
pub proof fn lemma_rank_split(a: (int, Seq<char>), b: (int, Seq<char>), c: (int, Seq<char>), desc: bool)
    requires
        rank_lt(c, a, desc),
    ensures
        rank_lt(c, b, desc) || rank_lt(b, a, desc),
{
    lemma_rank_tied_equal(b, c, desc);
    if rank_lt(b, c, desc) {
        lemma_rank_transitive(b, c, a, desc);
    }
}

/// Compares two ranks; `Less` where `a` comes first.
pub fn compare_rank(a: &Rank, b: &Rank, desc: bool) -> (r: Ordering)
    ensures
        r == Ordering::Less <==> rank_lt(a@, b@, desc),
        r == Ordering::Greater <==> rank_lt(b@, a@, desc),
        r == Ordering::Equal <==> a@ == b@,
{
    proof {
        lemma_lex_asymmetric(a.minor@, b.minor@);
        lemma_lex_irreflexive(a.minor@);
    }
    if a.major < b.major {
        Ordering::Less
    } else if a.major > b.major {
        Ordering::Greater
    } else {
        let c = compare_str(a.minor.as_str(), b.minor.as_str());
        if desc {
            match c {
                Ordering::Less => Ordering::Greater,
                Ordering::Greater => Ordering::Less,
                Ordering::Equal => Ordering::Equal,
            }
        } else {
            c
        }
    }
}

/// Whether `a` comes strictly before `b`.
pub fn rank_before(a: &Rank, b: &Rank, desc: bool) -> (r: bool)
    ensures
        r == rank_lt(a@, b@, desc),
{
    match compare_rank(a, b, desc) {
        Ordering::Less => true,
        _ => false,
    }
}

/// `p` lists each position below `n` exactly once.
pub open spec fn is_permutation(p: Seq<int>, n: int) -> bool {
    &&& p.len() == n
    &&& forall|k: int| 0 <= k < n ==> 0 <= #[trigger] p[k] < n
    &&& forall|k: int, l: int| 0 <= k < n && 0 <= l < n && k != l ==> p[k] != p[l]
    &&& forall|v: int| 0 <= v < n ==> #[trigger] p.contains(v)
}

/// `out` holds the element `inp[p[k]]` at each position `k`, ordered by the
/// ranks that `ranks` gives the input positions, with tied elements in input order.
pub open spec fn sorts_stably<T>(
    p: Seq<int>,
    out: Seq<T>,
    inp: Seq<T>,
    ranks: Seq<(int, Seq<char>)>,
    desc: bool,
) -> bool {
    &&& out.len() == inp.len()
    &&& ranks.len() == inp.len()
    &&& is_permutation(p, inp.len() as int)
    &&& forall|k: int| 0 <= k < out.len() ==> out[k] == inp[#[trigger] p[k]]
    &&& forall|k: int, l: int|
        0 <= k < l < out.len() ==> !rank_lt(ranks[p[l]], ranks[p[k]], desc)
    &&& forall|k: int, l: int|
        0 <= k < l < out.len() && rank_tied(ranks[p[k]], ranks[p[l]], desc) ==> p[k] < p[l]
}

/// `out` is `inp` sorted stably by `ranks`.
pub open spec fn stable_sorted<T>(
    out: Seq<T>,
    inp: Seq<T>,
    ranks: Seq<(int, Seq<char>)>,
    desc: bool,
) -> bool {
    exists|p: Seq<int>| sorts_stably(p, out, inp, ranks, desc)
}

/// Sorts `items` by the rank at the same position of `ranks`, keeping tied
/// items in their input order.
pub fn stable_sort<T>(items: Vec<T>, ranks: Vec<Rank>, desc: bool) -> (r: Vec<T>)
    requires
        items@.len() == ranks@.len(),
    ensures
        stable_sorted(r@, items@, ranks@.map_values(|x: Rank| x@), desc),
{
    let ghost inp = items@;
    let ghost rv = ranks@.map_values(|x: Rank| x@);
    let ghost n = items@.len() as int;
    let mut items = items;
    let mut ranks = ranks;
    let mut out: Vec<T> = Vec::new();
    let mut out_ranks: Vec<Rank> = Vec::new();
    let ghost mut p: Seq<int> = Seq::empty();
    while items.len() > 0
        invariant
            items@.len() == ranks@.len(),
            items@.len() <= n,
            n == inp.len(),
            rv.len() == n,
            items@ == inp.subrange(0, items@.len() as int),
            forall|k: int| 0 <= k < ranks@.len() ==> rv[k] == #[trigger] ranks@[k]@,
            out@.len() == n - items@.len(),
            out_ranks@.len() == out@.len(),
            p.len() == out@.len(),
            forall|k: int| 0 <= k < p.len() ==> items@.len() <= #[trigger] p[k] < n,
            forall|k: int| 0 <= k < p.len() ==> out@[k] == inp[#[trigger] p[k]],
            forall|k: int| 0 <= k < p.len() ==> #[trigger] out_ranks@[k]@ == rv[p[k]],
            forall|k: int, l: int| 0 <= k < p.len() && 0 <= l < p.len() && k != l ==> p[k] != p[l],
            forall|v: int| items@.len() <= v < n ==> #[trigger] p.contains(v),
            forall|k: int, l: int| 0 <= k < l < p.len() ==> !rank_lt(rv[p[l]], rv[p[k]], desc),
            forall|k: int, l: int|
                0 <= k < l < p.len() && rank_tied(rv[p[k]], rv[p[l]], desc) ==> p[k] < p[l],
        decreases items@.len(),
    {
        let ghost i = items@.len() - 1;
        let x = items.pop().unwrap();
        let rx = ranks.pop().unwrap();
        assert(items@ =~= inp.subrange(0, i));
        let mut pos: usize = 0;
        while pos < out_ranks.len() && rank_before(&out_ranks[pos], &rx, desc)
            invariant
                pos <= out_ranks@.len(),
                forall|k: int| 0 <= k < pos ==> rank_lt(#[trigger] out_ranks@[k]@, rx@, desc),
            decreases out_ranks@.len() - pos,
        {
            pos = pos + 1;
        }
        let ghost old_p = p;
        let ghost old_ranks = out_ranks@;
        out.insert(pos, x);
        out_ranks.insert(pos, rx);
        proof {
            p = old_p.insert(pos as int, i);
            assert(rv[i] == rx@);
            // Every rank from `pos` on comes no earlier than `rx`.
            assert forall|l: int| pos <= l < old_p.len() implies !rank_lt(
                rv[old_p[l]],
                rx@,
                desc,
            ) by {
                assert(old_ranks[pos as int]@ == rv[old_p[pos as int]]);
                if rank_lt(rv[old_p[l]], rx@, desc) {
                    lemma_rank_split(rx@, rv[old_p[pos as int]], rv[old_p[l]], desc);
                    if l > pos {
                        assert(!rank_lt(rv[old_p[l]], rv[old_p[pos as int]], desc));
                    }
                }
            }
            assert forall|k: int| 0 <= k < p.len() implies #[trigger] out_ranks@[k]@ == rv[p[k]] by {
                if k > pos {
                    assert(out_ranks@[k] == old_ranks[k - 1]);
                }
            }
            assert forall|k: int, l: int| 0 <= k < l < p.len() implies !rank_lt(
                rv[p[l]],
                rv[p[k]],
                desc,
            ) by {
                if k < pos && l == pos {
                    assert(old_ranks[k]@ == rv[old_p[k]]);
                    lemma_rank_irreflexive(rx@, desc);
                    if rank_lt(rx@, rv[old_p[k]], desc) {
                        lemma_rank_transitive(rx@, rv[old_p[k]], rx@, desc);
                    }
                } else if k < pos && l > pos {
                    assert(old_ranks[k]@ == rv[old_p[k]]);
                    if rank_lt(rv[old_p[l - 1]], rv[old_p[k]], desc) {
                        lemma_rank_transitive(rv[old_p[l - 1]], rv[old_p[k]], rx@, desc);
                    }
                } else if k > pos {
                    assert(p[k] == old_p[k - 1] && p[l] == old_p[l - 1]);
                } else if k == pos {
                    assert(p[l] == old_p[l - 1]);
                }
            }
            assert forall|k: int, l: int|
                0 <= k < l < p.len() && rank_tied(rv[p[k]], rv[p[l]], desc) implies p[k] < p[l] by {
                if k < pos && l == pos {
                    assert(old_ranks[k]@ == rv[old_p[k]]);
                } else if k < pos && l > pos {
                    assert(p[l] == old_p[l - 1]);
                } else if k > pos {
                    assert(p[k] == old_p[k - 1] && p[l] == old_p[l - 1]);
                } else if k == pos {
                    assert(p[l] == old_p[l - 1]);
                }
            }
            assert forall|v: int| i <= v < n implies #[trigger] p.contains(v) by {
                if v == i {
                    assert(p[pos as int] == v);
                } else {
                    assert(old_p.contains(v));
                    let k0 = choose|k0: int| 0 <= k0 < old_p.len() && #[trigger] old_p[k0] == v;
                    if k0 < pos {
                        assert(p[k0] == v);
                    } else {
                        assert(p[k0 + 1] == v);
                    }
                }
            }
            assert forall|k: int| 0 <= k < p.len() implies out@[k] == inp[#[trigger] p[k]] by {
                if k > pos {
                    assert(p[k] == old_p[k - 1]);
                }
            }
        }
    }
    proof {
        assert(sorts_stably(p, out@, inp, rv, desc));
    }
    out
}

} // verus!
