//! Character-level helpers over `str`, each stated over the string's view as a
//! sequence of characters.
use vstd::prelude::*;

verus! {

/// Unicode `White_Space` characters, the set that `char::is_whitespace` tests.
pub open spec fn is_ws(c: char) -> bool {
    ('\u{9}' <= c && c <= '\u{d}') || c == ' ' || c == '\u{85}' || c == '\u{a0}' || c
        == '\u{1680}' || ('\u{2000}' <= c && c <= '\u{200a}') || c == '\u{2028}' || c
        == '\u{2029}' || c == '\u{202f}' || c == '\u{205f}' || c == '\u{3000}'
}

pub fn is_whitespace(c: char) -> (r: bool)
    ensures
        r == is_ws(c),
{
    ('\u{9}' <= c && c <= '\u{d}') || c == ' ' || c == '\u{85}' || c == '\u{a0}' || c
        == '\u{1680}' || ('\u{2000}' <= c && c <= '\u{200a}') || c == '\u{2028}' || c
        == '\u{2029}' || c == '\u{202f}' || c == '\u{205f}' || c == '\u{3000}'
}

/// `s` without its leading whitespace.
pub open spec fn trim_start_spec(s: Seq<char>) -> Seq<char>
    decreases s.len(),
{
    if s.len() > 0 && is_ws(s[0]) {
        trim_start_spec(s.drop_first())
    } else {
        s
    }
}

/// `s` without its trailing whitespace.
pub open spec fn trim_end_spec(s: Seq<char>) -> Seq<char>
    decreases s.len(),
{
    if s.len() > 0 && is_ws(s.last()) {
        trim_end_spec(s.drop_last())
    } else {
        s
    }
}

/// `s` without whitespace at either end, as `str::trim` gives it.
pub open spec fn trim_spec(s: Seq<char>) -> Seq<char> {
    trim_end_spec(trim_start_spec(s))
}

/// Whether `s` holds nothing but whitespace.
pub open spec fn is_blank_spec(s: Seq<char>) -> bool {
    trim_spec(s).len() == 0
}

/// The characters of `s` from `from` to `to`.
pub fn slice_chars<'a>(s: &'a str, from: usize, to: usize) -> (r: &'a str)
    requires
        from <= to <= s@.len(),
    ensures
        r@ == s@.subrange(from as int, to as int),
{
    s.substring_char(from, to)
}

pub fn trim<'a>(s: &'a str) -> (r: &'a str)
    ensures
        r@ == trim_spec(s@),
{
    let n = s.unicode_len();
    let mut i: usize = 0;
    assert(s@.subrange(0, n as int) =~= s@);
    while i < n && is_whitespace(s.get_char(i))
        invariant
            n == s@.len(),
            i <= n,
            trim_start_spec(s@) == trim_start_spec(s@.subrange(i as int, n as int)),
        decreases n - i,
    {
        assert(s@.subrange(i as int, n as int).drop_first() =~= s@.subrange(
            i + 1,
            n as int,
        ));
        i = i + 1;
    }
    assert(trim_start_spec(s@.subrange(i as int, n as int)) == s@.subrange(i as int, n as int));
    let mut j: usize = n;
    while j > i && is_whitespace(s.get_char(j - 1))
        invariant
            n == s@.len(),
            i <= j <= n,
            trim_start_spec(s@) == s@.subrange(i as int, n as int),
            trim_spec(s@) == trim_end_spec(s@.subrange(i as int, j as int)),
        decreases j,
    {
        assert(s@.subrange(i as int, j as int).drop_last() =~= s@.subrange(
            i as int,
            j - 1,
        ));
        j = j - 1;
    }
    s.substring_char(i, j)
}

pub fn is_blank(s: &str) -> (r: bool)
    ensures
        r == is_blank_spec(s@),
{
    trim(s).unicode_len() == 0
}

/// A character folded to lower case as `char::to_ascii_lowercase` does.
pub open spec fn lower(c: char) -> char {
    if 'A' <= c && c <= 'Z' {
        ((c as u32) + 32) as char
    } else {
        c
    }
}

pub fn to_ascii_lower(c: char) -> (r: char)
    ensures
        r == lower(c),
{
    if 'A' <= c && c <= 'Z' {
        ((c as u8) + 32) as char
    } else {
        c
    }
}

/// `s` folded to lower case, character by character.
pub open spec fn lower_seq(s: Seq<char>) -> Seq<char> {
    s.map_values(|c: char| lower(c))
}

pub open spec fn has_prefix(s: Seq<char>, p: Seq<char>) -> bool {
    p.len() <= s.len() && s.subrange(0, p.len() as int) == p
}

pub fn starts_with(s: &str, p: &str) -> (r: bool)
    ensures
        r == has_prefix(s@, p@),
{
    let n = s.unicode_len();
    let m = p.unicode_len();
    if m > n {
        return false;
    }
    let mut i: usize = 0;
    while i < m
        invariant
            n == s@.len(),
            m == p@.len(),
            m <= n,
            i <= m,
            forall|k: int| 0 <= k < i ==> s@[k] == p@[k],
        decreases m - i,
    {
        if s.get_char(i) != p.get_char(i) {
            assert(s@.subrange(0, m as int)[i as int] != p@[i as int]);
            return false;
        }
        i = i + 1;
    }
    assert(s@.subrange(0, m as int) =~= p@);
    true
}

/// Whether the lower-case form of `s` begins with `p`.
pub fn starts_with_lower(s: &str, p: &str) -> (r: bool)
    ensures
        r == has_prefix(lower_seq(s@), p@),
{
    let n = s.unicode_len();
    let m = p.unicode_len();
    if m > n {
        return false;
    }
    let mut i: usize = 0;
    while i < m
        invariant
            n == s@.len(),
            m == p@.len(),
            m <= n,
            i <= m,
            forall|k: int| 0 <= k < i ==> lower(s@[k]) == p@[k],
        decreases m - i,
    {
        if to_ascii_lower(s.get_char(i)) != p.get_char(i) {
            assert(lower_seq(s@).subrange(0, m as int)[i as int] != p@[i as int]);
            return false;
        }
        i = i + 1;
    }
    assert(lower_seq(s@).subrange(0, m as int) =~= p@);
    true
}

/// The first position at or after `from` where `s` holds `c`.
pub fn find_char(s: &str, from: usize, c: char) -> (r: Option<usize>)
    requires
        from <= s@.len(),
    ensures
        match r {
            Some(k) => from <= k < s@.len() && s@[k as int] == c && forall|j: int|
                from <= j < k ==> s@[j] != c,
            None => forall|j: int| from <= j < s@.len() ==> s@[j] != c,
        },
{
    let n = s.unicode_len();
    let mut i: usize = from;
    while i < n
        invariant
            n == s@.len(),
            from <= i <= n,
            forall|j: int| from <= j < i ==> s@[j] != c,
        decreases n - i,
    {
        if s.get_char(i) == c {
            return Some(i);
        }
        i = i + 1;
    }
    None
}

/// The position of the first `c` in `s`, or the length of `s` where there is none.
pub open spec fn index_of(s: Seq<char>, c: char) -> int
    decreases s.len(),
{
    if s.len() == 0 {
        0
    } else if s[0] == c {
        0
    } else {
        1 + index_of(s.drop_first(), c)
    }
}

pub proof fn lemma_index_of(s: Seq<char>, c: char, k: int)
    requires
        0 <= k <= s.len(),
        forall|j: int| 0 <= j < k ==> s[j] != c,
        k == s.len() || s[k] == c,
    ensures
        index_of(s, c) == k,
        s.contains(c) <==> k < s.len(),
    decreases s.len(),
{
    if s.len() > 0 && s[0] != c {
        assert forall|j: int| 0 <= j < k - 1 implies s.drop_first()[j] != c by {
            assert(s[j + 1] != c);
        }
        lemma_index_of(s.drop_first(), c, k - 1);
    }
    if k < s.len() {
        assert(s[k] == c);
    }
}

pub proof fn lemma_index_of_bounds(s: Seq<char>, c: char)
    ensures
        0 <= index_of(s, c) <= s.len(),
        index_of(s, c) < s.len() <==> s.contains(c),
    decreases s.len(),
{
    if s.len() > 0 {
        lemma_index_of_bounds(s.drop_first(), c);
        if s[0] != c && s.contains(c) {
            let k = choose|k: int| 0 <= k < s.len() && s[k] == c;
            assert(s.drop_first()[k - 1] == c);
        }
        if s[0] == c {
            assert(s.contains(c));
        } else if s.drop_first().contains(c) {
            let k = choose|k: int| 0 <= k < s.len() - 1 && s.drop_first()[k] == c;
            assert(s[k + 1] == c);
        }
    }
}

/// The first position at or after `from` where `s` holds `c`, or the length
/// of `s` where there is none.
pub fn find_from(s: &str, from: usize, c: char) -> (r: usize)
    requires
        from <= s@.len(),
    ensures
        r as int == from + index_of(s@.subrange(from as int, s@.len() as int), c),
        from <= r <= s@.len(),
        r < s@.len() ==> s@[r as int] == c,
{
    let n = s.unicode_len();
    let ghost t = s@.subrange(from as int, n as int);
    match find_char(s, from, c) {
        Some(k) => {
            proof {
                assert forall|j: int| 0 <= j < k - from implies t[j] != c by {
                    assert(s@[from + j] != c);
                }
                lemma_index_of(t, c, k - from);
            }
            k
        },
        None => {
            proof {
                assert forall|j: int| 0 <= j < n - from implies t[j] != c by {
                    assert(s@[from + j] != c);
                }
                lemma_index_of(t, c, n - from);
            }
            n
        },
    }
}

/// Lexicographic order on character sequences, which is the order of `String`.
pub open spec fn lex_lt(a: Seq<char>, b: Seq<char>) -> bool
    decreases a.len(),
{
    if a.len() == 0 {
        b.len() > 0
    } else if b.len() == 0 {
        false
    } else if a[0] != b[0] {
        a[0] < b[0]
    } else {
        lex_lt(a.drop_first(), b.drop_first())
    }
}

pub open spec fn lex_le(a: Seq<char>, b: Seq<char>) -> bool {
    !lex_lt(b, a)
}

pub proof fn lemma_lex_irreflexive(a: Seq<char>)
    ensures
        !lex_lt(a, a),
    decreases a.len(),
{
    if a.len() > 0 {
        lemma_lex_irreflexive(a.drop_first());
    }
}

pub proof fn lemma_lex_total(a: Seq<char>, b: Seq<char>)
    ensures
        a == b || lex_lt(a, b) || lex_lt(b, a),
    decreases a.len(),
{
    if a.len() > 0 && b.len() > 0 && a[0] == b[0] {
        lemma_lex_total(a.drop_first(), b.drop_first());
        if a.drop_first() == b.drop_first() {
            assert(a =~= seq![a[0]] + a.drop_first());
            assert(b =~= seq![b[0]] + b.drop_first());
        }
    } else if a.len() == 0 && b.len() == 0 {
        assert(a =~= b);
    }
}

pub proof fn lemma_lex_asymmetric(a: Seq<char>, b: Seq<char>)
    ensures
        !(lex_lt(a, b) && lex_lt(b, a)),
    decreases a.len(),
{
    if a.len() > 0 && b.len() > 0 && a[0] == b[0] {
        lemma_lex_asymmetric(a.drop_first(), b.drop_first());
    }
}

pub proof fn lemma_lex_transitive(a: Seq<char>, b: Seq<char>, c: Seq<char>)
    requires
        lex_lt(a, b),
        lex_lt(b, c),
    ensures
        lex_lt(a, c),
    decreases a.len(),
{
    if a.len() > 0 && b.len() > 0 && c.len() > 0 && a[0] == b[0] && b[0] == c[0] {
        lemma_lex_transitive(a.drop_first(), b.drop_first(), c.drop_first());
    }
}

/// Compares two strings in lexicographic order.
pub fn compare_str(a: &str, b: &str) -> (r: core::cmp::Ordering)
    ensures
        r == core::cmp::Ordering::Less <==> lex_lt(a@, b@),
        r == core::cmp::Ordering::Greater <==> lex_lt(b@, a@),
        r == core::cmp::Ordering::Equal <==> a@ == b@,
{
    let n = a.unicode_len();
    let m = b.unicode_len();
    let mut i: usize = 0;
    proof {
        assert(a@.subrange(0, 0) =~= b@.subrange(0, 0));
        assert(a@.subrange(0, n as int) =~= a@);
        assert(b@.subrange(0, m as int) =~= b@);
    }
    while i < n && i < m
        invariant
            n == a@.len(),
            m == b@.len(),
            i <= n,
            i <= m,
            a@.subrange(0, i as int) == b@.subrange(0, i as int),
            lex_lt(a@, b@) == lex_lt(a@.subrange(i as int, n as int), b@.subrange(i as int, m as int)),
            lex_lt(b@, a@) == lex_lt(b@.subrange(i as int, m as int), a@.subrange(i as int, n as int)),
        decreases n - i,
    {
        let x = a.get_char(i);
        let y = b.get_char(i);
        if x != y {
            proof {
                lemma_lex_asymmetric(a@, b@);
                if a@ == b@ {
                    assert(a@[i as int] == b@[i as int]);
                }
            }
            if x < y {
                return core::cmp::Ordering::Less;
            } else {
                return core::cmp::Ordering::Greater;
            }
        }
        assert(a@.subrange(i as int, n as int).drop_first() =~= a@.subrange(i + 1, n as int));
        assert(b@.subrange(i as int, m as int).drop_first() =~= b@.subrange(i + 1, m as int));
        assert(a@.subrange(0, i + 1) =~= a@.subrange(0, i as int).push(x));
        assert(b@.subrange(0, i + 1) =~= b@.subrange(0, i as int).push(y));
        i = i + 1;
    }
    proof {
        lemma_lex_irreflexive(a@);
        if n == m {
            assert(a@ =~= a@.subrange(0, i as int));
            assert(b@ =~= b@.subrange(0, i as int));
        } else if a@ == b@ {
            assert(false);
        }
    }
    if n < m {
        core::cmp::Ordering::Less
    } else if n > m {
        core::cmp::Ordering::Greater
    } else {
        core::cmp::Ordering::Equal
    }
}

} // verus!
