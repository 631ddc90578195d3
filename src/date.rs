//! Partial dates (`YYYY`, `YYYY-MM`, `YYYY-MM-DD`) turned into fixed-width keys
//! whose lexicographic order is their chronological order.
use vstd::prelude::*;
use crate::text::slice_chars;
use crate::text::{find_char, index_of, lemma_index_of, lemma_index_of_bounds, lex_lt};

verus! {

/// The text before the first `-`.
pub open spec fn head_token(s: Seq<char>) -> Seq<char> {
    s.subrange(0, index_of(s, '-'))
}

/// The text after the first `-`; meaningful where `s` holds one.
pub open spec fn after_dash(s: Seq<char>) -> Seq<char> {
    s.subrange(index_of(s, '-') + 1, s.len() as int)
}

/// `t` left-padded with `0` to `w` characters; a longer `t` is kept whole.
pub open spec fn zero_pad(t: Seq<char>, w: nat) -> Seq<char> {
    if t.len() >= w {
        t
    } else {
        Seq::new((w - t.len()) as nat, |i: int| '0') + t
    }
}

/// The key of a date string: year to four digits, month and day to two, with
/// `00` for an absent part; tokens after the third are not looked at.
pub open spec fn date_key(s: Seq<char>) -> Seq<char> {
    if !s.contains('-') {
        zero_pad(s, 4) + seq!['-', '0', '0', '-', '0', '0']
    } else if !after_dash(s).contains('-') {
        zero_pad(head_token(s), 4) + seq!['-'] + zero_pad(after_dash(s), 2) + seq!['-', '0', '0']
    } else {
        let r = after_dash(s);
        zero_pad(head_token(s), 4) + seq!['-'] + zero_pad(head_token(r), 2) + seq!['-']
            + zero_pad(head_token(after_dash(r)), 2)
    }
}

/// The first `-` of `s`, with what it tells of `index_of` and `contains`.
pub(crate) fn dash_position(s: &str) -> (r: usize)
    ensures
        r as int == index_of(s@, '-'),
        s@.contains('-') <==> r < s@.len(),
        r <= s@.len(),
{
    let n = s.unicode_len();
    match find_char(s, 0, '-') {
        Some(k) => {
            proof {
                lemma_index_of(s@, '-', k as int);
            }
            k
        },
        None => {
            proof {
                lemma_index_of(s@, '-', n as int);
            }
            n
        },
    }
}

/// Appends `t` to `out`, left-padded with `0` to `width` characters.
fn push_padded(out: &mut String, t: &str, width: usize)
    ensures
        final(out)@ == old(out)@ + zero_pad(t@, width as nat),
{
    let n = t.unicode_len();
    let ghost start = out@;
    if n < width {
        let mut k: usize = 0;
        while k < width - n
            invariant
                n < width,
                k <= width - n,
                out@ == start + Seq::new(k as nat, |i: int| '0'),
            decreases width - n - k,
        {
            out.append("0");
            proof {
                reveal_strlit("0");
                assert(start + Seq::new((k + 1) as nat, |i: int| '0') =~= start + Seq::new(
                    k as nat,
                    |i: int| '0',
                ) + "0"@);
            }
            k = k + 1;
        }
    }
    out.append(t);
    proof {
        if n < width {
            assert(final(out)@ =~= start + zero_pad(t@, width as nat));
        }
    }
}

/// The sortable key of a date string, as `date_key` states it.
pub fn normalize_date_key(s: &str) -> (r: String)
    ensures
        r@ == date_key(s@),
{
    proof {
        reveal_strlit("-");
        reveal_strlit("-00");
        reveal_strlit("-00-00");
        assert(seq!['-', '0', '0', '-', '0', '0'] =~= "-00-00"@);
        assert(seq!['-', '0', '0'] =~= "-00"@);
        assert(seq!['-'] =~= "-"@);
    }
    let n = s.unicode_len();
    let mut out = String::new();
    let d1 = dash_position(s);
    if d1 == n {
        push_padded(&mut out, s, 4);
        out.append("-00-00");
        return out;
    }
    let year = slice_chars(s, 0, d1);
    let rest = slice_chars(s, d1 + 1, n);
    let d2 = dash_position(rest);
    push_padded(&mut out, year, 4);
    out.append("-");
    if d2 == rest.unicode_len() {
        push_padded(&mut out, rest, 2);
        out.append("-00");
        return out;
    }
    let month = slice_chars(rest, 0, d2);
    let rest2 = slice_chars(rest, d2 + 1, rest.unicode_len());
    let d3 = dash_position(rest2);
    let day = slice_chars(rest2, 0, d3);
    push_padded(&mut out, month, 2);
    out.append("-");
    push_padded(&mut out, day, 2);
    out
}

/// Whether every character of `t` is an ASCII digit.
pub open spec fn is_digits(t: Seq<char>) -> bool {
    forall|k: int| 0 <= k < t.len() ==> '0' <= #[trigger] t[k] && t[k] <= '9'
}

/// The number that the decimal digits `t` write.
pub open spec fn digits_value(t: Seq<char>) -> int
    decreases t.len(),
{
    if t.len() == 0 {
        0
    } else {
        digits_value(t.drop_last()) * 10 + ((t.last() as u32) as int - ('0' as u32) as int)
    }
}

/// Whether `t` is a run of one to `max` decimal digits.
pub open spec fn digit_token(t: Seq<char>, max: nat) -> bool {
    is_digits(t) && 1 <= t.len() <= max
}

/// A date of granularity one to three, `Y`, `Y-M` or `Y-M-D`: a year of one to
/// four digits, a month and a day of one or two.
pub open spec fn is_valid_date(s: Seq<char>) -> bool {
    if !s.contains('-') {
        digit_token(s, 4)
    } else {
        let r = after_dash(s);
        digit_token(head_token(s), 4) && if !r.contains('-') {
            digit_token(r, 2)
        } else {
            digit_token(head_token(r), 2) && !after_dash(r).contains('-') && digit_token(
                after_dash(r),
                2,
            )
        }
    }
}

/// The year digits of a valid date.
pub open spec fn year_of(s: Seq<char>) -> Seq<char> {
    if !s.contains('-') {
        s
    } else {
        head_token(s)
    }
}

/// The month digits of a valid date, none where it has no month.
pub open spec fn month_of(s: Seq<char>) -> Seq<char> {
    if !s.contains('-') {
        Seq::empty()
    } else if !after_dash(s).contains('-') {
        after_dash(s)
    } else {
        head_token(after_dash(s))
    }
}

/// The day digits of a valid date, none where it has no day.
pub open spec fn day_of(s: Seq<char>) -> Seq<char> {
    if !s.contains('-') || !after_dash(s).contains('-') {
        Seq::empty()
    } else {
        after_dash(after_dash(s))
    }
}

/// Whether the valid date `a` is earlier than `b`: by year, then month, then
/// day, as numbers, an absent month or day counting as zero.
pub open spec fn date_before(a: Seq<char>, b: Seq<char>) -> bool {
    let (ya, ma, da) = (digits_value(year_of(a)), digits_value(month_of(a)), digits_value(day_of(a)));
    let (yb, mb, db) = (digits_value(year_of(b)), digits_value(month_of(b)), digits_value(day_of(b)));
    ya < yb || (ya == yb && (ma < mb || (ma == mb && da < db)))
}

proof fn lemma_head_whole(t: Seq<char>)
    requires
        !t.contains('-'),
    ensures
        head_token(t) == t,
{
    lemma_index_of_bounds(t, '-');
    assert(head_token(t) =~= t);
}

proof fn lemma_valid_date_key(s: Seq<char>)
    requires
        is_valid_date(s),
    ensures
        date_key(s) == zero_pad(year_of(s), 4) + seq!['-'] + zero_pad(month_of(s), 2) + seq!['-']
            + zero_pad(day_of(s), 2),
        is_digits(year_of(s)) && year_of(s).len() <= 4,
        is_digits(month_of(s)) && month_of(s).len() <= 2,
        is_digits(day_of(s)) && day_of(s).len() <= 2,
{
    let e = Seq::<char>::empty();
    assert(zero_pad(e, 2) =~= seq!['0', '0']);
    if s.contains('-') && after_dash(s).contains('-') {
        lemma_head_whole(after_dash(after_dash(s)));
    }
    assert(date_key(s) =~= zero_pad(year_of(s), 4) + seq!['-'] + zero_pad(month_of(s), 2) + seq![
        '-',
    ] + zero_pad(day_of(s), 2));
}

proof fn lemma_zeros_value(k: nat)
    ensures
        digits_value(Seq::new(k, |i: int| '0')) == 0,
    decreases k,
{
    if k > 0 {
        assert(Seq::new(k, |i: int| '0').drop_last() =~= Seq::new((k - 1) as nat, |i: int| '0'));
        lemma_zeros_value((k - 1) as nat);
    }
}

proof fn lemma_zeros_prefix(k: nat, t: Seq<char>)
    ensures
        digits_value(Seq::new(k, |i: int| '0') + t) == digits_value(t),
    decreases t.len(),
{
    let z = Seq::new(k, |i: int| '0');
    if t.len() == 0 {
        assert(z + t =~= z);
        lemma_zeros_value(k);
    } else {
        assert((z + t).drop_last() =~= z + t.drop_last());
        assert((z + t).last() == t.last());
        lemma_zeros_prefix(k, t.drop_last());
    }
}

/// Padding digits with zeros keeps them digits and keeps their value.
proof fn lemma_zero_pad_digits(t: Seq<char>, w: nat)
    requires
        is_digits(t),
        t.len() <= w,
    ensures
        is_digits(zero_pad(t, w)),
        zero_pad(t, w).len() == w,
        digits_value(zero_pad(t, w)) == digits_value(t),
{
    if t.len() < w {
        let k = (w - t.len()) as nat;
        lemma_zeros_prefix(k, t);
        let p = zero_pad(t, w);
        assert forall|j: int| 0 <= j < p.len() implies '0' <= #[trigger] p[j] && p[j] <= '9' by {
            if j >= k {
                assert(p[j] == t[j - k]);
            }
        }
    }
}

/// Comparing two joined sequences whose first parts have one length compares
/// the first parts, and where they are equal, the second.
proof fn lemma_lex_concat(a1: Seq<char>, a2: Seq<char>, b1: Seq<char>, b2: Seq<char>)
    requires
        a1.len() == b1.len(),
    ensures
        lex_lt(a1 + a2, b1 + b2) == if a1 == b1 {
            lex_lt(a2, b2)
        } else {
            lex_lt(a1, b1)
        },
    decreases a1.len(),
{
    if a1.len() == 0 {
        assert(a1 + a2 =~= a2);
        assert(b1 + b2 =~= b2);
        assert(a1 =~= b1);
    } else {
        assert((a1 + a2).drop_first() =~= a1.drop_first() + a2);
        assert((b1 + b2).drop_first() =~= b1.drop_first() + b2);
        lemma_lex_concat(a1.drop_first(), a2, b1.drop_first(), b2);
        if a1[0] == b1[0] && a1.drop_first() == b1.drop_first() {
            assert(a1 =~= seq![a1[0]] + a1.drop_first());
            assert(b1 =~= seq![b1[0]] + b1.drop_first());
        }
        if a1 == b1 {
            assert(a1.drop_first() == b1.drop_first());
        }
    }
}

/// On digit strings of one length, lexicographic order is numeric order.
proof fn lemma_digits_order(a: Seq<char>, b: Seq<char>)
    requires
        is_digits(a),
        is_digits(b),
        a.len() == b.len(),
    ensures
        lex_lt(a, b) <==> digits_value(a) < digits_value(b),
        a == b <==> digits_value(a) == digits_value(b),
    decreases a.len(),
{
    if a.len() == 0 {
        assert(a =~= b);
    } else {
        let (a1, b1) = (a.drop_last(), b.drop_last());
        assert(is_digits(a1)) by {
            assert forall|k: int| 0 <= k < a1.len() implies '0' <= #[trigger] a1[k] && a1[k] <= '9' by {
                assert(a[k] == a1[k]);
            }
        }
        assert(is_digits(b1)) by {
            assert forall|k: int| 0 <= k < b1.len() implies '0' <= #[trigger] b1[k] && b1[k] <= '9' by {
                assert(b[k] == b1[k]);
            }
        }
        lemma_digits_order(a1, b1);
        let (x, y) = (a.last(), b.last());
        assert('0' <= a[a.len() - 1] && a[a.len() - 1] <= '9');
        assert('0' <= b[b.len() - 1] && b[b.len() - 1] <= '9');
        assert(a =~= a1 + seq![x]);
        assert(b =~= b1 + seq![y]);
        lemma_lex_concat(a1, seq![x], b1, seq![y]);
        assert(seq![x].drop_first() =~= seq![y].drop_first());
        assert(!lex_lt(seq![x].drop_first(), seq![y].drop_first()));
        assert(lex_lt(seq![x], seq![y]) == (x < y));
        let (va, vb) = (digits_value(a1), digits_value(b1));
        let (dx, dy) = ((x as u32) as int - ('0' as u32) as int, (y as u32) as int - ('0' as u32) as int);
        assert(0 <= dx < 10 && 0 <= dy < 10);
        if va < vb {
            assert(va * 10 + dx < vb * 10 + dy) by (nonlinear_arith)
                requires
                    va < vb,
                    0 <= dx < 10,
                    0 <= dy < 10,
            ;
        }
        if vb < va {
            assert(vb * 10 + dy < va * 10 + dx) by (nonlinear_arith)
                requires
                    vb < va,
                    0 <= dx < 10,
                    0 <= dy < 10,
            ;
        }
        if a1 == b1 && x != y {
            assert(a[a.len() - 1] != b[b.len() - 1]);
        }
        if a == b {
            assert(a1 == b1);
        }
        if a1 == b1 && x == y {
            assert(a =~= b);
        }
        if x < y {
            assert((x as u32) < (y as u32));
        }
        if y < x {
            assert((y as u32) < (x as u32));
        }
    }
}

/// On valid dates the key's lexicographic order is chronological order.
pub proof fn lemma_date_key_chronological(a: Seq<char>, b: Seq<char>)
    requires
        is_valid_date(a),
        is_valid_date(b),
    ensures
        lex_lt(date_key(a), date_key(b)) <==> date_before(a, b),
{
    lemma_valid_date_key(a);
    lemma_valid_date_key(b);
    let (ya, ma, da) = (zero_pad(year_of(a), 4), zero_pad(month_of(a), 2), zero_pad(day_of(a), 2));
    let (yb, mb, db) = (zero_pad(year_of(b), 4), zero_pad(month_of(b), 2), zero_pad(day_of(b), 2));
    lemma_zero_pad_digits(year_of(a), 4);
    lemma_zero_pad_digits(year_of(b), 4);
    lemma_zero_pad_digits(month_of(a), 2);
    lemma_zero_pad_digits(month_of(b), 2);
    lemma_zero_pad_digits(day_of(a), 2);
    lemma_zero_pad_digits(day_of(b), 2);
    lemma_digits_order(ya, yb);
    lemma_digits_order(ma, mb);
    lemma_digits_order(da, db);
    let dash = seq!['-'];
    assert(date_key(a) =~= ya + (dash + (ma + (dash + da))));
    assert(date_key(b) =~= yb + (dash + (mb + (dash + db))));
    lemma_lex_concat(ya, dash + (ma + (dash + da)), yb, dash + (mb + (dash + db)));
    lemma_lex_concat(dash, ma + (dash + da), dash, mb + (dash + db));
    lemma_lex_concat(ma, dash + da, mb, dash + db);
    lemma_lex_concat(dash, da, dash, db);
}

} // verus!
