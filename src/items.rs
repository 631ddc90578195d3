//! Ordering item lists by a sort key with its date fallback chain, items with
//! no date in the chain always last.
use vstd::prelude::*;
use core::cmp::Ordering;
use crate::date::{date_key, normalize_date_key};
use crate::model::{ItemToml, SortKey};
use crate::sort::{compare_rank, rank_lt, stable_sort, stable_sorted, sorts_stably, Rank};
use crate::text::lex_le;

verus! {

/// The value of a date field, where it is present and not empty.
pub open spec fn nonempty(o: Option<String>) -> Option<Seq<char>> {
    match o {
        Some(d) => if d@.len() > 0 {
            Some(d@)
        } else {
            None
        },
        None => None,
    }
}

/// The first non-empty date among three candidates.
pub open spec fn first_date(a: Option<String>, b: Option<String>, c: Option<String>) -> Option<Seq<char>> {
    match nonempty(a) {
        Some(d) => Some(d),
        None => match nonempty(b) {
            Some(d) => Some(d),
            None => nonempty(c),
        },
    }
}

/// The value of a date field, where it is present and not empty.
fn nonempty_field(o: &Option<String>) -> (r: Option<&String>)
    ensures
        match r {
            Some(d) => nonempty(*o) == Some(d@),
            None => nonempty(*o) is None,
        },
{
    match o {
        Some(d) => if d.as_str().unicode_len() > 0 {
            Some(d)
        } else {
            None
        },
        None => None,
    }
}

/// The date fields of `it` in the fallback order of `key`.
pub open spec fn date_chain(key: SortKey, it: ItemToml) -> Option<Seq<char>> {
    match key {
        SortKey::StartDate => first_date(it.start_date, it.date, it.end_date),
        SortKey::EndDate => first_date(it.end_date, it.date, it.start_date),
        _ => first_date(it.date, it.start_date, it.end_date),
    }
}

/// Whether `it` has no non-empty date anywhere in the fallback chain of `key`.
pub open spec fn lacks_date(key: SortKey, it: ItemToml) -> bool {
    key != SortKey::Title && date_chain(key, it) is None
}

/// The rank of `it` under `key`: a dated item has major `0` and its date key,
/// an undated one major `1`; under `Title` every item has major `0` and its title.
pub open spec fn item_rank_spec(key: SortKey, it: ItemToml) -> (int, Seq<char>) {
    if key == SortKey::Title {
        (0, it.title@)
    } else {
        match date_chain(key, it) {
            Some(d) => (0, date_key(d)),
            None => (1, Seq::empty()),
        }
    }
}

pub open spec fn item_ranks(key: SortKey, items: Seq<ItemToml>) -> Seq<(int, Seq<char>)> {
    items.map_values(|it: ItemToml| item_rank_spec(key, it))
}

/// Whether `a` comes strictly before `b` under `key`, descending where `rev`.
pub open spec fn item_before(key: SortKey, rev: bool, a: ItemToml, b: ItemToml) -> bool {
    rank_lt(item_rank_spec(key, a), item_rank_spec(key, b), rev)
}

/// Whether the three candidates hold no non-empty date, and the key of the first one.
pub fn item_date_key(a: &Option<String>, b: &Option<String>, c: &Option<String>) -> (r: (bool, String))
    ensures
        r.0 == (first_date(*a, *b, *c) is None),
        r.1@ == match first_date(*a, *b, *c) {
            Some(d) => date_key(d),
            None => Seq::empty(),
        },
{
    let first = match nonempty_field(a) {
        Some(d) => Some(d),
        None => match nonempty_field(b) {
            Some(d) => Some(d),
            None => nonempty_field(c),
        },
    };
    match first {
        Some(d) => (false, normalize_date_key(d.as_str())),
        None => (true, String::new()),
    }
}

fn item_rank(key: SortKey, it: &ItemToml) -> (r: Rank)
    ensures
        r@ == item_rank_spec(key, *it),
{
    let (missing, k) = match key {
        SortKey::Title => {
            return Rank { major: 0, minor: it.title.clone() };
        },
        SortKey::Date => item_date_key(&it.date, &it.start_date, &it.end_date),
        SortKey::StartDate => item_date_key(&it.start_date, &it.date, &it.end_date),
        SortKey::EndDate => item_date_key(&it.end_date, &it.date, &it.start_date),
    };
    Rank { major: if missing { 1 } else { 0 }, minor: k }
}

/// Compares two items under `sort`, descending where `rev`; undated items come
/// after dated ones either way.
pub fn get_item_sort_by(sort: SortKey, rev: bool, a: &ItemToml, b: &ItemToml) -> (r: Ordering)
    ensures
        r == Ordering::Less <==> item_before(sort, rev, *a, *b),
        r == Ordering::Greater <==> item_before(sort, rev, *b, *a),
        r == Ordering::Equal <==> item_rank_spec(sort, *a) == item_rank_spec(sort, *b),
{
    compare_rank(&item_rank(sort, a), &item_rank(sort, b), rev)
}

/// Sorts `items` stably by `sort`, descending where `rev` is `Some(true)`;
/// without a sort key the list is left as it is.
pub fn sort_items(sort: Option<SortKey>, rev: Option<bool>, items: &mut Vec<ItemToml>)
    ensures
        sort is None ==> final(items)@ == old(items)@,
        sort is Some ==> stable_sorted(
            final(items)@,
            old(items)@,
            item_ranks(sort->0, old(items)@),
            rev.unwrap_or(false),
        ),
{
    let key = match sort {
        Some(k) => k,
        None => {
            return;
        },
    };
    let desc = match rev {
        Some(b) => b,
        None => false,
    };
    let mut ranks: Vec<Rank> = Vec::new();
    let n = items.len();
    let mut i: usize = 0;
    while i < n
        invariant
            n == items@.len(),
            i <= n,
            ranks@.len() == i,
            forall|k: int| 0 <= k < i ==> #[trigger] ranks@[k]@ == item_rank_spec(key, items@[k]),
        decreases n - i,
    {
        ranks.push(item_rank(key, &items[i]));
        i = i + 1;
    }
    assert(ranks@.map_values(|x: Rank| x@) =~= item_ranks(key, items@));
    let mut taken: Vec<ItemToml> = Vec::new();
    core::mem::swap(items, &mut taken);
    *items = stable_sort(taken, ranks, desc);
}

/// When exactly one item of a list has no date in the chain of a date key, a
/// sort by that key puts it last, in either direction.
pub proof fn lemma_sole_undated_item_last(
    key: SortKey,
    rev: bool,
    inp: Seq<ItemToml>,
    out: Seq<ItemToml>,
    j: int,
)
    requires
        stable_sorted(out, inp, item_ranks(key, inp), rev),
        0 <= j < inp.len(),
        lacks_date(key, inp[j]),
        forall|i: int| 0 <= i < inp.len() && i != j ==> !lacks_date(key, #[trigger] inp[i]),
    ensures
        out.last() == inp[j],
{
    let ranks = item_ranks(key, inp);
    let p = choose|p: Seq<int>| sorts_stably(p, out, inp, ranks, rev);
    let n = inp.len() as int;
    assert(p.contains(j));
    let k = choose|k: int| 0 <= k < n && p[k] == j;
    if k != n - 1 {
        let q = p[n - 1];
        assert(0 <= q < n);
        assert(q != j);
        assert(!lacks_date(key, inp[q]));
        assert(ranks[q].0 == 0 && ranks[j].0 == 1);
        assert(!rank_lt(ranks[p[n - 1]], ranks[p[k]], rev));
    }
    assert(out[n - 1] == inp[p[n - 1]]);
}

/// After a sort by a date key, in either direction, no undated item comes
/// before a dated one.
pub proof fn lemma_undated_items_last(
    key: SortKey,
    rev: bool,
    inp: Seq<ItemToml>,
    out: Seq<ItemToml>,
)
    requires
        stable_sorted(out, inp, item_ranks(key, inp), rev),
    ensures
        forall|k: int, l: int|
            0 <= k < l < out.len() && lacks_date(key, #[trigger] out[k]) ==> lacks_date(
                key,
                #[trigger] out[l],
            ),
{
    let ranks = item_ranks(key, inp);
    let p = choose|p: Seq<int>| sorts_stably(p, out, inp, ranks, rev);
    assert forall|k: int, l: int|
        0 <= k < l < out.len() && lacks_date(key, #[trigger] out[k]) implies lacks_date(
        key,
        #[trigger] out[l],
    ) by {
        assert(out[k] == inp[p[k]] && out[l] == inp[p[l]]);
        assert(!rank_lt(ranks[p[l]], ranks[p[k]], rev));
    }
}

/// A sort by title orders items by their titles alone, in lexicographic order
/// (reversed where `rev`), whatever dates they have or lack.
pub proof fn lemma_title_sort_lexicographic(rev: bool, inp: Seq<ItemToml>, out: Seq<ItemToml>)
    requires
        stable_sorted(out, inp, item_ranks(SortKey::Title, inp), rev),
    ensures
        forall|k: int, l: int|
            0 <= k < l < out.len() ==> if rev {
                lex_le(out[l].title@, out[k].title@)
            } else {
                lex_le(out[k].title@, out[l].title@)
            },
{
    let ranks = item_ranks(SortKey::Title, inp);
    let p = choose|p: Seq<int>| sorts_stably(p, out, inp, ranks, rev);
    assert forall|k: int, l: int| 0 <= k < l < out.len() implies if rev {
        lex_le(out[l].title@, out[k].title@)
    } else {
        lex_le(out[k].title@, out[l].title@)
    } by {
        assert(out[k] == inp[p[k]] && out[l] == inp[p[l]]);
        assert(!rank_lt(ranks[p[l]], ranks[p[k]], rev));
    }
}

} // verus!
