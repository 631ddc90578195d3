//! Free text with inline `[text](url)` links turned into escaped markup. Any
//! malformed or unsafe link degrades to literal escaped text.
use vstd::prelude::*;
use crate::text::{
    find_from, has_prefix, index_of, lemma_index_of_bounds, is_blank, is_blank_spec, lower_seq, slice_chars,
    starts_with, starts_with_lower, trim, trim_spec,
};

verus! {

/// A character as it stands in escaped text content.
pub open spec fn escape_text_char(c: char) -> Seq<char> {
    if c == '&' {
        "&amp;"@
    } else if c == '<' {
        "&lt;"@
    } else if c == '>' {
        "&gt;"@
    } else {
        seq![c]
    }
}

/// A character as it stands in an escaped attribute value.
pub open spec fn escape_attr_char(c: char) -> Seq<char> {
    if c == '"' {
        "&quot;"@
    } else if c == '\'' {
        "&#x27;"@
    } else {
        escape_text_char(c)
    }
}

pub open spec fn escape_text(s: Seq<char>) -> Seq<char>
    decreases s.len(),
{
    if s.len() == 0 {
        Seq::empty()
    } else {
        escape_text(s.drop_last()) + escape_text_char(s.last())
    }
}

pub open spec fn escape_attr(s: Seq<char>) -> Seq<char>
    decreases s.len(),
{
    if s.len() == 0 {
        Seq::empty()
    } else {
        escape_attr(s.drop_last()) + escape_attr_char(s.last())
    }
}

/// Appends `s` to `out` with `&`, `<` and `>` escaped.
pub fn escape_html_text(s: &str, out: &mut String)
    ensures
        final(out)@ == old(out)@ + escape_text(s@),
{
    let n = s.unicode_len();
    let ghost start = out@;
    let mut i: usize = 0;
    while i < n
        invariant
            n == s@.len(),
            i <= n,
            out@ == start + escape_text(s@.subrange(0, i as int)),
        decreases n - i,
    {
        let c = s.get_char(i);
        if c == '&' {
            out.append("&amp;");
        } else if c == '<' {
            out.append("&lt;");
        } else if c == '>' {
            out.append("&gt;");
        } else {
            out.append(slice_chars(s, i, i + 1));
        }
        proof {
            assert(s@.subrange(0, i + 1).drop_last() =~= s@.subrange(0, i as int));
            assert(s@.subrange(i as int, i + 1) =~= seq![c]);
        }
        i = i + 1;
    }
    assert(s@.subrange(0, n as int) =~= s@);
}

/// Appends `s` to `out` with `&`, `<`, `>`, `"` and `'` escaped.
pub fn escape_html_attr(s: &str, out: &mut String)
    ensures
        final(out)@ == old(out)@ + escape_attr(s@),
{
    let n = s.unicode_len();
    let ghost start = out@;
    let mut i: usize = 0;
    while i < n
        invariant
            n == s@.len(),
            i <= n,
            out@ == start + escape_attr(s@.subrange(0, i as int)),
        decreases n - i,
    {
        let c = s.get_char(i);
        if c == '&' {
            out.append("&amp;");
        } else if c == '<' {
            out.append("&lt;");
        } else if c == '>' {
            out.append("&gt;");
        } else if c == '"' {
            out.append("&quot;");
        } else if c == '\'' {
            out.append("&#x27;");
        } else {
            out.append(slice_chars(s, i, i + 1));
        }
        proof {
            assert(s@.subrange(0, i + 1).drop_last() =~= s@.subrange(0, i as int));
            assert(s@.subrange(i as int, i + 1) =~= seq![c]);
        }
        i = i + 1;
    }
    assert(s@.subrange(0, n as int) =~= s@);
}

/// Whether a link target may be emitted: not empty, not a `javascript:` or
/// `data:` URL, and either one of the allowed forms or free of `:`.
pub open spec fn safe_url(u: Seq<char>) -> bool {
    let l = lower_seq(u);
    &&& u.len() > 0
    &&& !has_prefix(l, "javascript:"@)
    &&& !has_prefix(l, "data:"@)
    &&& (has_prefix(l, "http://"@) || has_prefix(l, "https://"@) || has_prefix(l, "mailto:"@)
        || has_prefix(u, "/"@) || has_prefix(u, "./"@) || has_prefix(u, "../"@) || has_prefix(
        u,
        "#"@,
    ) || !u.contains(':'))
}

pub fn is_safe_url(url: &str) -> (r: bool)
    ensures
        r == safe_url(url@),
{
    if url.unicode_len() == 0 {
        return false;
    }
    if starts_with_lower(url, "javascript:") || starts_with_lower(url, "data:") {
        return false;
    }
    if starts_with_lower(url, "http://") || starts_with_lower(url, "https://") || starts_with_lower(
        url,
        "mailto:",
    ) || starts_with(url, "/") || starts_with(url, "./") || starts_with(url, "../") || starts_with(
        url,
        "#",
    ) {
        return true;
    }
    let n = url.unicode_len();
    proof {
        assert(url@.subrange(0, n as int) =~= url@);
        lemma_index_of_bounds(url@, ':');
    }
    find_from(url, 0, ':') == n
}

/// The first position at or after `from` where `s` holds `c`, or its length.
pub open spec fn next_of(s: Seq<char>, from: int, c: char) -> int {
    from + index_of(s.subrange(from, s.len() as int), c)
}

/// The markup for `s` from position `i` on, scanning left to right: a
/// well-formed `[text](url)` with non-blank text and a safe trimmed URL becomes
/// an anchor, everything else escaped text.
pub open spec fn links_from(s: Seq<char>, i: int) -> Seq<char>
    decreases s.len() - i
    via links_from_decreases

{
    if i < 0 || i > s.len() {
        Seq::empty()
    } else {
        let n = s.len() as int;
        let start = next_of(s, i, '[');
        if start >= n {
            escape_text(s.subrange(i, n))
        } else {
            let close = next_of(s, start + 1, ']');
            if close >= n {
                escape_text(s.subrange(i, n))
            } else if close + 1 >= n || s[close + 1] != '(' {
                escape_text(s.subrange(i, start + 1)) + links_from(s, start + 1)
            } else {
                let cp = next_of(s, close + 2, ')');
                if cp >= n {
                    escape_text(s.subrange(i, n))
                } else {
                    let text = s.subrange(start + 1, close);
                    let url = trim_spec(s.subrange(close + 2, cp));
                    if is_blank_spec(text) || !safe_url(url) {
                        escape_text(s.subrange(i, cp + 1)) + links_from(s, cp + 1)
                    } else {
                        escape_text(s.subrange(i, start)) + "<a href=\""@ + escape_attr(url)
                            + "\">"@ + escape_text(text) + "</a>"@ + links_from(s, cp + 1)
                    }
                }
            }
        }
    }
}

#[via_fn]
proof fn links_from_decreases(s: Seq<char>, i: int) {
    if 0 <= i <= s.len() {
        lemma_index_of_bounds(s.subrange(i, s.len() as int), '[');
        let start = next_of(s, i, '[');
        if start < s.len() {
            lemma_index_of_bounds(s.subrange(start + 1, s.len() as int), ']');
            let close = next_of(s, start + 1, ']');
            if close + 2 <= s.len() {
                lemma_index_of_bounds(s.subrange(close + 2, s.len() as int), ')');
            }
        }
    }
}

/// The markup for a whole text.
pub open spec fn rendered_links(s: Seq<char>) -> Seq<char> {
    links_from(s, 0)
}

/// Renders `s` as escaped markup in which each safe `[text](url)` span is an
/// anchor.
pub fn render_text_with_links(s: &str) -> (r: String)
    ensures
        r@ == rendered_links(s@),
{
    let n = s.unicode_len();
    let mut out = String::new();
    let mut i: usize = 0;
    loop
        invariant
            n == s@.len(),
            i <= n,
            out@ + links_from(s@, i as int) == rendered_links(s@),
        decreases n - i,
    {
        let start = find_from(s, i, '[');
        if start == n {
            escape_html_text(slice_chars(s, i, n), &mut out);
            return out;
        }
        let close = find_from(s, start + 1, ']');
        if close == n {
            escape_html_text(slice_chars(s, i, n), &mut out);
            return out;
        }
        if close + 1 >= n || s.get_char(close + 1) != '(' {
            escape_html_text(slice_chars(s, i, start + 1), &mut out);
            i = start + 1;
            continue;
        }
        let cp = find_from(s, close + 2, ')');
        if cp == n {
            escape_html_text(slice_chars(s, i, n), &mut out);
            return out;
        }
        let text = slice_chars(s, start + 1, close);
        let url = trim(slice_chars(s, close + 2, cp));
        if is_blank(text) || !is_safe_url(url) {
            escape_html_text(slice_chars(s, i, cp + 1), &mut out);
            i = cp + 1;
            continue;
        }
        escape_html_text(slice_chars(s, i, start), &mut out);
        out.append("<a href=\"");
        escape_html_attr(url, &mut out);
        out.append("\">");
        escape_html_text(text, &mut out);
        out.append("</a>");
        i = cp + 1;
    }
}

} // verus!
