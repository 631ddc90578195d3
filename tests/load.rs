use sitegen::load::{is_section_file, load_all, LoadError, LoadOptions};
use sitegen::model::{
    Affiliation, ConfigToml, Contact, ItemToml, Name, ProfileToml, SectionToml, SortKey,
    SubsectionToml,
};

fn config() -> ConfigToml {
    ConfigToml {
        title: "Test Site".to_string(),
        language: None,
        google_site_verification: None,
        build: None,
        assets: None,
    }
}

fn profile() -> ProfileToml {
    ProfileToml {
        name: Name { ja: "Taro".to_string(), en: "Taro".to_string() },
        affiliation: Affiliation { affiliation: "Example University".to_string() },
        contact: Contact { email: "taro@example.com".to_string() },
        lead: None,
    }
}

fn item(title: &str, date: Option<&str>, start_date: Option<&str>) -> ItemToml {
    ItemToml {
        date: date.map(|d| d.to_string()),
        start_date: start_date.map(|d| d.to_string()),
        end_date: None,
        authors: vec![],
        venue: None,
        location: None,
        title: title.to_string(),
        detail: None,
    }
}

fn section(name: &str, key: &str, order: Option<i32>) -> SectionToml {
    SectionToml {
        name: name.to_string(),
        key: key.to_string(),
        order,
        sort: None,
        rev: None,
        numbering: false,
        items: vec![],
        subsections: vec![],
    }
}

fn subsection(name: &str, order: Option<i32>) -> SubsectionToml {
    SubsectionToml {
        name: name.to_string(),
        order,
        sort: None,
        rev: None,
        numbering: false,
        items: vec![],
    }
}

#[test]
fn load_all_reads_sections_and_sorts() {
    // The directory holds b.toml, a.toml and nested/ignored.toml.
    assert!(is_section_file(true, "b.toml"));
    assert!(is_section_file(true, "a.toml"));
    assert!(!is_section_file(false, "nested"));

    let b = section("Section B", "b", Some(1));
    let mut a = section("Section A", "a", Some(2));
    a.sort = Some(SortKey::Date);
    a.rev = Some(true);
    a.items = vec![
        item("Old", Some("2020-01-01"), None),
        item("None", None, None),
        item("New", None, Some("2021-05")),
    ];
    let mut sub = subsection("Sub A1", Some(1));
    sub.sort = Some(SortKey::Title);
    sub.items = vec![
        item("Sub B", Some("2019"), None),
        item("Sub C", None, None),
        item("Sub A", None, Some("2022-01-01")),
    ];
    a.subsections = vec![sub];

    let data = load_all(config(), profile(), vec![b, a]).unwrap();

    println!("{data:#?}");

    assert_eq!(data.sections.len(), 2);
    assert_eq!(data.sections[0].key, "b");
    assert_eq!(data.sections[1].key, "a");

    let items = &data.sections[1].items;
    assert_eq!(items.len(), 3);
    assert_eq!(items[0].title, "New");
    assert_eq!(items[1].title, "Old");
    assert_eq!(items[2].title, "None");

    let sub_items = &data.sections[1].subsections[0].items;
    assert_eq!(sub_items.len(), 3);
    assert_eq!(sub_items[0].title, "Sub A");
    assert_eq!(sub_items[1].title, "Sub B");
    assert_eq!(sub_items[2].title, "Sub C");
}

#[test]
fn empty_section_key_refuses_the_load() {
    let r = load_all(config(), profile(), vec![section("A", "a", None), section("B", "", None)]);
    assert_eq!(r.unwrap_err(), LoadError::EmptySectionKey { index: 1 });
    let r = load_all(config(), profile(), vec![section("A", " \t", None)]);
    assert_eq!(r.unwrap_err(), LoadError::EmptySectionKey { index: 0 });
}

#[test]
fn duplicate_section_key_refuses_the_load() {
    let r = load_all(
        config(),
        profile(),
        vec![section("A", "x", None), section("B", "y", None), section("C", "x", None)],
    );
    assert_eq!(r.unwrap_err(), LoadError::DuplicateSectionKey { index: 2 });
}

#[test]
fn sections_default_order_and_key_tie_break() {
    let secs = vec![
        section("Late", "late", None),
        section("Zed", "z", Some(5)),
        section("Alpha", "a", Some(5)),
        section("First", "first", Some(-3)),
    ];
    let data = load_all(config(), profile(), secs).unwrap();
    let keys: Vec<&str> = data.sections.iter().map(|s| s.key.as_str()).collect();
    assert_eq!(keys, vec!["first", "a", "z", "late"]);
    assert_eq!(data.config.title, "Test Site");
    assert_eq!(data.profile.contact.email, "taro@example.com");
}

#[test]
fn subsections_keep_document_order_on_ties() {
    let mut s = section("S", "s", None);
    s.items = vec![item("b", None, None), item("a", None, None)];
    s.subsections = vec![
        subsection("one", Some(2)),
        subsection("two", None),
        subsection("three", Some(2)),
        subsection("four", Some(1)),
    ];
    let data = load_all(config(), profile(), vec![s]).unwrap();
    let names: Vec<&str> =
        data.sections[0].subsections.iter().map(|s| s.name.as_str()).collect();
    assert_eq!(names, vec!["four", "one", "three", "two"]);
    // Without a sort key the items keep their document order.
    assert_eq!(data.sections[0].items[0].title, "b");
    assert_eq!(data.sections[0].items[1].title, "a");
}

#[test]
fn no_sections_is_an_empty_tree() {
    let data = load_all(config(), profile(), vec![]).unwrap();
    assert!(data.sections.is_empty());
}

#[test]
fn section_files_are_toml_files_only() {
    assert!(is_section_file(true, "research.toml"));
    assert!(is_section_file(true, "..toml"));
    assert!(!is_section_file(true, ".toml"));
    assert!(!is_section_file(true, "notes.md"));
    assert!(!is_section_file(true, "a.toml.bak"));
    assert!(!is_section_file(false, "dir.toml"));
}

#[test]
fn load_options_default_to_content() {
    assert_eq!(LoadOptions::default().content_dir, "content");
}
