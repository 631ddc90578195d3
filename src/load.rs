//! The content loader: which files of the sections directory are read, the
//! checks on section documents, and the arrangement of the tree.
use vstd::prelude::*;
use crate::items::{item_ranks, sort_items};
use crate::model::{ConfigToml, IndexData, ItemToml, ProfileToml, SectionToml, SortKey, SubsectionToml};
use crate::sort::{stable_sort, stable_sorted, Rank};
use crate::text::{is_blank, is_blank_spec};

verus! {

/// Where a content tree is read from.
#[derive(Clone, Debug)]
pub struct LoadOptions {
    pub content_dir: String,
}

impl Default for LoadOptions {
    fn default() -> (r: Self)
        ensures
            r.content_dir@ == "content"@,
    {
        LoadOptions { content_dir: String::from_str("content") }
    }
}

/// Why a set of section documents was refused.
#[derive(Clone, Copy, Debug, PartialEq, Eq, Structural)]
pub enum LoadError {
    /// The section at this position of the list has an empty or blank key.
    EmptySectionKey { index: usize },
    /// The section at this position repeats the key of an earlier one.
    DuplicateSectionKey { index: usize },
}

/// The order a section or subsection has where its document gives none.
pub const DEFAULT_ORDER: i64 = 1000;

pub open spec fn order_value(order: Option<i32>) -> int {
    match order {
        Some(o) => o as int,
        None => DEFAULT_ORDER as int,
    }
}

/// Sections are ordered by `order`, then by key.
pub open spec fn section_rank(s: SectionToml) -> (int, Seq<char>) {
    (order_value(s.order), s.key@)
}

/// Subsections are ordered by `order` alone, ties kept in document order.
pub open spec fn subsection_rank(s: SubsectionToml) -> (int, Seq<char>) {
    (order_value(s.order), Seq::empty())
}

pub open spec fn section_ranks(s: Seq<SectionToml>) -> Seq<(int, Seq<char>)> {
    s.map_values(|x: SectionToml| section_rank(x))
}

pub open spec fn subsection_ranks(s: Seq<SubsectionToml>) -> Seq<(int, Seq<char>)> {
    s.map_values(|x: SubsectionToml| subsection_rank(x))
}

/// `new` is the list `old` under an item sort configuration.
pub open spec fn items_arranged(sort: Option<SortKey>, rev: Option<bool>, new: Seq<ItemToml>, old: Seq<ItemToml>) -> bool {
    match sort {
        None => new == old,
        Some(k) => stable_sorted(new, old, item_ranks(k, old), rev.unwrap_or(false)),
    }
}

/// `new` is `old` with its items sorted by its own configuration.
pub open spec fn subsection_arranged(new: SubsectionToml, old: SubsectionToml) -> bool {
    &&& new.name == old.name
    &&& new.order == old.order
    &&& new.sort == old.sort
    &&& new.rev == old.rev
    &&& new.numbering == old.numbering
    &&& items_arranged(old.sort, old.rev, new.items@, old.items@)
}

/// `new` is `old` with its items sorted by its own configuration, its
/// subsections ordered, and each subsection's items sorted by that subsection's
/// configuration.
pub open spec fn section_arranged(new: SectionToml, old: SectionToml) -> bool {
    &&& new.name == old.name
    &&& new.key == old.key
    &&& new.order == old.order
    &&& new.sort == old.sort
    &&& new.rev == old.rev
    &&& new.numbering == old.numbering
    &&& items_arranged(old.sort, old.rev, new.items@, old.items@)
    &&& exists|subs: Seq<SubsectionToml>|
        {
            &&& stable_sorted(subs, old.subsections@, subsection_ranks(old.subsections@), false)
            &&& new.subsections@.len() == subs.len()
            &&& forall|k: int|
                0 <= k < subs.len() ==> subsection_arranged(
                    #[trigger] new.subsections@[k],
                    subs[k],
                )
        }
}

/// `new` is the list `old` ordered, each section arranged.
pub open spec fn sections_arranged(new: Seq<SectionToml>, old: Seq<SectionToml>) -> bool {
    exists|secs: Seq<SectionToml>|
        {
            &&& stable_sorted(secs, old, section_ranks(old), false)
            &&& new.len() == secs.len()
            &&& forall|k: int| 0 <= k < secs.len() ==> section_arranged(#[trigger] new[k], secs[k])
        }
}

/// Whether the key of section `i` is blank.
pub open spec fn key_blank(s: Seq<SectionToml>, i: int) -> bool {
    is_blank_spec(s[i].key@)
}

/// Whether section `i` repeats the key of an earlier one.
pub open spec fn key_repeated(s: Seq<SectionToml>, i: int) -> bool {
    exists|h: int| 0 <= h < i && #[trigger] s[h].key@ == s[i].key@
}

/// Whether section `i` is refused: its key is blank or repeated.
pub open spec fn section_faulty(s: Seq<SectionToml>, i: int) -> bool {
    key_blank(s, i) || key_repeated(s, i)
}

/// Whether section `i` is the first refused one.
pub open spec fn first_fault(s: Seq<SectionToml>, i: int) -> bool {
    &&& 0 <= i < s.len()
    &&& section_faulty(s, i)
    &&& forall|h: int| 0 <= h < i ==> !section_faulty(s, h)
}

/// Whether a directory entry is a section document: a file whose extension is
/// `toml`. A directory, and with it anything nested inside it, is never one.
pub fn is_section_file(is_file: bool, file_name: &str) -> (r: bool)
    ensures
        r == (is_file && file_name@.len() > 5 && file_name@.subrange(
            file_name@.len() - 5,
            file_name@.len() as int,
        ) == ".toml"@),
        !is_file ==> !r,
{
    proof {
        reveal_strlit(".toml");
    }
    if !is_file {
        return false;
    }
    let n = file_name.unicode_len();
    if n <= 5 {
        return false;
    }
    let tail = crate::text::slice_chars(file_name, n - 5, n);
    assert(tail@.subrange(0, 5) =~= tail@);
    crate::text::starts_with(tail, ".toml")
}

/// The first refused section, if any.
fn find_fault(sections: &Vec<SectionToml>) -> (r: Option<LoadError>)
    ensures
        match r {
            None => forall|i: int| 0 <= i < sections@.len() ==> !section_faulty(sections@, i),
            Some(LoadError::EmptySectionKey { index }) => first_fault(sections@, index as int)
                && key_blank(sections@, index as int),
            Some(LoadError::DuplicateSectionKey { index }) => first_fault(sections@, index as int)
                && !key_blank(sections@, index as int),
        },
{
    let n = sections.len();
    let mut i: usize = 0;
    while i < n
        invariant
            n == sections@.len(),
            i <= n,
            forall|h: int| 0 <= h < i ==> !section_faulty(sections@, h),
        decreases n - i,
    {
        let key = sections[i].key.as_str();
        if is_blank(key) {
            return Some(LoadError::EmptySectionKey { index: i });
        }
        let mut h: usize = 0;
        while h < i
            invariant
                n == sections@.len(),
                h <= i < n,
                key@ == sections@[i as int].key@,
                !key_blank(sections@, i as int),
                forall|g: int| 0 <= g < i ==> !section_faulty(sections@, g),
                forall|g: int| 0 <= g < h ==> sections@[g].key@ != sections@[i as int].key@,
            decreases i - h,
        {
            if sections[h].key == sections[i].key {
                assert(sections@[h as int].key@ == sections@[i as int].key@);
                assert(key_repeated(sections@, i as int));
                return Some(LoadError::DuplicateSectionKey { index: i });
            }
            h = h + 1;
        }
        assert(!key_repeated(sections@, i as int));
        i = i + 1;
    }
    None
}

fn order_of(order: Option<i32>) -> (r: i64)
    ensures
        r as int == order_value(order),
{
    match order {
        Some(o) => o as i64,
        None => DEFAULT_ORDER,
    }
}

fn arrange_subsection(sub: SubsectionToml) -> (r: SubsectionToml)
    ensures
        subsection_arranged(r, sub),
{
    let SubsectionToml { name, order, sort, rev, numbering, items } = sub;
    let mut items = items;
    sort_items(sort, rev, &mut items);
    SubsectionToml { name, order, sort, rev, numbering, items }
}

fn arrange_section(sec: SectionToml) -> (r: SectionToml)
    ensures
        section_arranged(r, sec),
{
    let SectionToml { name, key, order, sort, rev, numbering, items, subsections } = sec;
    let mut items = items;
    sort_items(sort, rev, &mut items);

    let n = subsections.len();
    let mut ranks: Vec<Rank> = Vec::new();
    let mut i: usize = 0;
    while i < n
        invariant
            n == subsections@.len(),
            i <= n,
            ranks@.len() == i,
            forall|k: int| 0 <= k < i ==> #[trigger] ranks@[k]@ == subsection_rank(subsections@[k]),
        decreases n - i,
    {
        ranks.push(Rank { major: order_of(subsections[i].order), minor: String::new() });
        i = i + 1;
    }
    assert(ranks@.map_values(|x: Rank| x@) =~= subsection_ranks(subsections@));
    let ghost old_subs = subsections@;
    let sorted = stable_sort(subsections, ranks, false);
    let ghost subs = sorted@;
    let mut rest = sorted;
    let mut out: Vec<SubsectionToml> = Vec::new();
    while rest.len() > 0
        invariant
            subs.len() == n,
            out@.len() + rest@.len() == n,
            rest@ == subs.subrange(out@.len() as int, n as int),
            forall|k: int| 0 <= k < out@.len() ==> subsection_arranged(#[trigger] out@[k], subs[k]),
        decreases rest@.len(),
    {
        let s = rest.remove(0);
        assert(rest@ =~= subs.subrange(out@.len() as int + 1, n as int));
        out.push(arrange_subsection(s));
    }
    let r = SectionToml { name, key, order, sort, rev, numbering, items, subsections: out };
    assert(stable_sorted(subs, old_subs, subsection_ranks(old_subs), false));
    assert(forall|k: int| 0 <= k < subs.len() ==> subsection_arranged(#[trigger] r.subsections@[k], subs[k]));
    r
}

/// Checks the section documents and assembles the content tree: sections
/// ordered by `order` (then key), each section's items sorted by its own
/// configuration, its subsections ordered by `order`, and each subsection's
/// items sorted by that subsection's configuration. The first section with a
/// blank or repeated key refuses the whole load.
pub fn load_all(config: ConfigToml, profile: ProfileToml, sections: Vec<SectionToml>) -> (r: Result<IndexData, LoadError>)
    ensures
        (exists|i: int| 0 <= i < sections@.len() && key_blank(sections@, i)) ==> r is Err,
        match r {
            Ok(d) => {
                &&& forall|i: int| 0 <= i < sections@.len() ==> !section_faulty(sections@, i)
                &&& d.config == config
                &&& d.profile == profile
                &&& sections_arranged(d.sections@, sections@)
            },
            Err(LoadError::EmptySectionKey { index }) => first_fault(sections@, index as int)
                && key_blank(sections@, index as int),
            Err(LoadError::DuplicateSectionKey { index }) => first_fault(sections@, index as int)
                && !key_blank(sections@, index as int),
        },
{
    if let Some(e) = find_fault(&sections) {
        return Err(e);
    }
    assert forall|i: int| 0 <= i < sections@.len() implies !key_blank(sections@, i) by {
        assert(!section_faulty(sections@, i));
    }
    let n = sections.len();
    let mut ranks: Vec<Rank> = Vec::new();
    let mut i: usize = 0;
    while i < n
        invariant
            n == sections@.len(),
            i <= n,
            ranks@.len() == i,
            forall|k: int| 0 <= k < i ==> #[trigger] ranks@[k]@ == section_rank(sections@[k]),
        decreases n - i,
    {
        ranks.push(Rank { major: order_of(sections[i].order), minor: sections[i].key.clone() });
        i = i + 1;
    }
    assert(ranks@.map_values(|x: Rank| x@) =~= section_ranks(sections@));
    let ghost old_secs = sections@;
    let sorted = stable_sort(sections, ranks, false);
    let ghost secs = sorted@;
    let mut rest = sorted;
    let mut out: Vec<SectionToml> = Vec::new();
    while rest.len() > 0
        invariant
            secs.len() == n,
            out@.len() + rest@.len() == n,
            rest@ == secs.subrange(out@.len() as int, n as int),
            forall|k: int| 0 <= k < out@.len() ==> section_arranged(#[trigger] out@[k], secs[k]),
        decreases rest@.len(),
    {
        let s = rest.remove(0);
        assert(rest@ =~= secs.subrange(out@.len() as int + 1, n as int));
        out.push(arrange_section(s));
    }
    assert(stable_sorted(secs, old_secs, section_ranks(old_secs), false));
    Ok(IndexData { config, profile, sections: out })
}

} // verus!
