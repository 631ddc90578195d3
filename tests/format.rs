use sitegen::format::{format_date_ja, format_date_or_month_ja, format_time, is_publication_like};
use sitegen::output::resolve_build_output;
use sitegen::model::{
    Affiliation, Build, ConfigToml, Contact, IndexData, ItemToml, Name, ProfileToml,
};

fn item_publication() -> ItemToml {
    ItemToml {
        date: Some("2025-07-03".to_string()),
        start_date: None,
        end_date: None,
        authors: vec!["A".to_string(), "B".to_string()],
        venue: Some("Conf".to_string()),
        location: Some("Tokyo".to_string()),
        title: "Paper".to_string(),
        detail: None,
    }
}

fn item_timeline(date: &str, detail: Option<&str>) -> ItemToml {
    ItemToml {
        date: Some(date.to_string()),
        start_date: None,
        end_date: None,
        authors: vec![],
        venue: None,
        location: None,
        title: "Item".to_string(),
        detail: detail.map(|d| d.to_string()),
    }
}

fn data_with_build(build: Option<Build>) -> IndexData {
    IndexData {
        config: ConfigToml {
            title: "My Site".to_string(),
            language: None,
            google_site_verification: None,
            build,
            assets: None,
        },
        profile: ProfileToml {
            name: Name { ja: "Ken".to_string(), en: "Ken".to_string() },
            affiliation: Affiliation { affiliation: "Uni".to_string() },
            contact: Contact { email: "a@example.com".to_string() },
            lead: None,
        },
        sections: vec![],
    }
}

#[test]
fn format_date_or_month_ja_handles_year_month_day() {
    assert_eq!(format_date_or_month_ja("2025"), "2025年");
    assert_eq!(format_date_or_month_ja("2025-07"), "2025年7月");
    assert_eq!(format_date_or_month_ja("2025-07-03"), "2025年7月3日");
}

#[test]
fn format_time_uses_date_or_range() {
    let it = item_timeline("2023-02", None);
    assert_eq!(format_time(&it).as_deref(), Some("2023年2月"));

    let it = ItemToml {
        date: None,
        start_date: Some("2020-04".to_string()),
        end_date: None,
        authors: vec![],
        venue: None,
        location: None,
        title: "Item".to_string(),
        detail: None,
    };
    assert_eq!(format_time(&it).as_deref(), Some("2020年4月–現在"));

    let it = ItemToml {
        date: None,
        start_date: Some("2020-04".to_string()),
        end_date: Some("2022-03".to_string()),
        authors: vec![],
        venue: None,
        location: None,
        title: "Item".to_string(),
        detail: None,
    };
    assert_eq!(format_time(&it).as_deref(), Some("2020年4月–2022年3月"));
}

#[test]
fn format_date_ja_drops_leading_zeros_and_extra_tokens() {
    assert_eq!(format_date_ja("2025-07-03"), "2025年7月3日");
    assert_eq!(format_date_or_month_ja("2025-10-20-99"), "2025年10月20日");
    assert_eq!(format_date_or_month_ja("2025-00"), "2025年月");
}

#[test]
fn format_time_trims_and_skips_blank_fields() {
    let mut it = item_timeline("  2021-09 ", None);
    assert_eq!(format_time(&it).as_deref(), Some("2021年9月"));

    it.date = Some("   ".to_string());
    assert_eq!(format_time(&it), None);

    it.start_date = Some("2019".to_string());
    it.end_date = Some(" ".to_string());
    assert_eq!(format_time(&it).as_deref(), Some("2019年–現在"));

    it.date = None;
    it.start_date = None;
    it.end_date = Some("2022".to_string());
    assert_eq!(format_time(&it), None);
}

#[test]
fn publication_like_needs_authors_venue_location_and_date() {
    assert!(is_publication_like(&item_publication()));
    assert!(!is_publication_like(&item_timeline("2020-01", Some("Detail"))));

    let mut it = item_publication();
    it.venue = Some(" ".to_string());
    assert!(!is_publication_like(&it));

    let mut it = item_publication();
    it.authors.clear();
    assert!(!is_publication_like(&it));

    let mut it = item_publication();
    it.date = None;
    assert!(!is_publication_like(&it));
}

#[test]
fn build_output_defaults_and_overrides() {
    let (dir, file) = resolve_build_output(&data_with_build(None));
    assert_eq!((dir.as_str(), file.as_str()), ("docs", "index.html"));

    let blank = Build { output_dir: Some("  ".to_string()), output_file: None };
    let (dir, file) = resolve_build_output(&data_with_build(Some(blank)));
    assert_eq!((dir.as_str(), file.as_str()), ("docs", "index.html"));

    let set = Build {
        output_dir: Some("public".to_string()),
        output_file: Some("page.html".to_string()),
    };
    let (dir, file) = resolve_build_output(&data_with_build(Some(set)));
    assert_eq!((dir.as_str(), file.as_str()), ("public", "page.html"));
}
