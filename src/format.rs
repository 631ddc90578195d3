//! Text shown for items on the page: Japanese-style dates, the time span of an
//! entry, and the choice between the publication and the timeline layout.
use vstd::prelude::*;
use crate::date::{after_dash, dash_position, head_token};
use crate::model::ItemToml;
use crate::text::{is_blank, is_blank_spec, slice_chars, trim, trim_spec};

verus! {

/// `t` without its leading `0`s.
pub open spec fn strip_zeros(t: Seq<char>) -> Seq<char>
    decreases t.len(),
{
    if t.len() > 0 && t[0] == '0' {
        strip_zeros(t.drop_first())
    } else {
        t
    }
}

/// `YYYY` as `YYYY年`, `YYYY-MM` as `YYYY年M月`, `YYYY-MM-DD` as `YYYY年M月D日`,
/// leading zeros of month and day dropped; tokens after the third are not looked at.
pub open spec fn date_ja(s: Seq<char>) -> Seq<char> {
    if !s.contains('-') {
        s + "年"@
    } else if !after_dash(s).contains('-') {
        head_token(s) + "年"@ + strip_zeros(after_dash(s)) + "月"@
    } else {
        let r = after_dash(s);
        head_token(s) + "年"@ + strip_zeros(head_token(r)) + "月"@ + strip_zeros(
            head_token(after_dash(r)),
        ) + "日"@
    }
}

/// Appends `t` without its leading `0`s.
fn push_stripped(out: &mut String, t: &str)
    ensures
        final(out)@ == old(out)@ + strip_zeros(t@),
{
    let n = t.unicode_len();
    let mut i: usize = 0;
    assert(t@.subrange(0, n as int) =~= t@);
    while i < n && t.get_char(i) == '0'
        invariant
            n == t@.len(),
            i <= n,
            strip_zeros(t@) == strip_zeros(t@.subrange(i as int, n as int)),
        decreases n - i,
    {
        assert(t@.subrange(i as int, n as int).drop_first() =~= t@.subrange(i + 1, n as int));
        i = i + 1;
    }
    out.append(slice_chars(t, i, n));
}

pub fn format_date_or_month_ja(s: &str) -> (r: String)
    ensures
        r@ == date_ja(s@),
{
    let n = s.unicode_len();
    let d1 = dash_position(s);
    if d1 == n {
        let mut out = String::from_str(s);
        out.append("年");
        return out;
    }
    let year = slice_chars(s, 0, d1);
    let rest = slice_chars(s, d1 + 1, n);
    let mut out = String::from_str(year);
    out.append("年");
    let d2 = dash_position(rest);
    if d2 == rest.unicode_len() {
        push_stripped(&mut out, rest);
        out.append("月");
        return out;
    }
    let month = slice_chars(rest, 0, d2);
    let rest2 = slice_chars(rest, d2 + 1, rest.unicode_len());
    let d3 = dash_position(rest2);
    push_stripped(&mut out, month);
    out.append("月");
    push_stripped(&mut out, slice_chars(rest2, 0, d3));
    out.append("日");
    out
}

/// The date of a publication, in the same form.
pub fn format_date_ja(s: &str) -> (r: String)
    ensures
        r@ == date_ja(s@),
{
    format_date_or_month_ja(s)
}

/// The trimmed value of an optional field, where it is not blank.
pub open spec fn filled(o: Option<String>) -> Option<Seq<char>> {
    match o {
        Some(v) => if is_blank_spec(v@) {
            None
        } else {
            Some(trim_spec(v@))
        },
        None => None,
    }
}

/// The time shown before a timeline entry: its date where it has one, else its
/// span from `start_date` to `end_date` (or to `現在`, now), else nothing.
pub open spec fn time_label(it: ItemToml) -> Option<Seq<char>> {
    match filled(it.date) {
        Some(d) => Some(date_ja(d)),
        None => match filled(it.start_date) {
            None => None,
            Some(s) => Some(
                date_ja(s) + "–"@ + match filled(it.end_date) {
                    Some(e) => date_ja(e),
                    None => "現在"@,
                },
            ),
        },
    }
}

/// The trimmed value of an optional field, where it is not blank.
fn filled_field(o: &Option<String>) -> (r: Option<&str>)
    ensures
        match r {
            Some(v) => filled(*o) == Some(v@),
            None => filled(*o) is None,
        },
{
    match o {
        Some(v) => {
            let t = trim(v.as_str());
            if t.unicode_len() == 0 {
                None
            } else {
                Some(t)
            }
        },
        None => None,
    }
}

pub fn format_time(it: &ItemToml) -> (r: Option<String>)
    ensures
        r matches Some(t) ==> time_label(*it) == Some(t@),
        r is None ==> time_label(*it) is None,
{
    if let Some(d) = filled_field(&it.date) {
        return Some(format_date_or_month_ja(d));
    }
    let s = match filled_field(&it.start_date) {
        Some(s) => s,
        None => {
            return None;
        },
    };
    let mut out = format_date_or_month_ja(s);
    out.append("–");
    match filled_field(&it.end_date) {
        Some(e) => {
            let e = format_date_or_month_ja(e);
            out.append(e.as_str());
        },
        None => {
            out.append("現在");
        },
    }
    Some(out)
}

/// Whether an optional field holds more than whitespace.
pub open spec fn present(o: Option<String>) -> bool {
    filled(o) is Some
}

/// Whether an item is shown as a publication: it has authors, and a venue, a
/// location and a date that are not blank.
pub open spec fn publication_like(it: ItemToml) -> bool {
    it.authors@.len() > 0 && present(it.venue) && present(it.location) && present(it.date)
}

fn is_present(o: &Option<String>) -> (r: bool)
    ensures
        r == present(*o),
{
    match o {
        Some(v) => !is_blank(v.as_str()),
        None => false,
    }
}

pub fn is_publication_like(it: &ItemToml) -> (r: bool)
    ensures
        r == publication_like(*it),
{
    it.authors.len() > 0 && is_present(&it.venue) && is_present(&it.location) && is_present(&it.date)
}

} // verus!
