use legifrance::dumps::fonds::Fond;
use legifrance::dumps::tarballs::{
    extract_date_from_tarball_name, get_tarballs_from_page_content, get_year_juri,
    is_archive_name, plan_chunks, tarballs_to_fetch, Date, IndexDocument, InvalidTarballDate,
    MissingYear, Tarball,
};

const MOCK_CASS_CONTENT: &str = r#"
<img src="/icons/compressed.gif" alt="[   ]"> <a href="CASS_20231125-130812.tar.gz">CASS_20231125-130812.tar.gz</a>                 2023-11-25 15:04  261K  
<img src="/icons/compressed.gif" alt="[   ]"> <a href="CASS_20231127-204209.tar.gz">CASS_20231127-204209.tar.gz</a>                 2023-11-27 20:44  130K  
<img src="/icons/compressed.gif" alt="[   ]"> <a href="CASS_20231204-205306.tar.gz">CASS_20231204-205306.tar.gz</a>                 2023-12-04 20:55  145K  
<img src="/icons/compressed.gif" alt="[   ]"> <a href="CASS_20231211-211048.tar.gz">CASS_20231211-211048.tar.gz</a>                 2023-12-11 21:13  212K  
<img src="/icons/compressed.gif" alt="[   ]"> <a href="CASS_20231218-205651.tar.gz">CASS_20231218-205651.tar.gz</a>                 2023-12-18 20:59  311K  
<img src="/icons/compressed.gif" alt="[   ]"> <a href="CASS_20240101-200918.tar.gz">CASS_20240101-200918.tar.gz</a>                 2024-01-01 20:10  408K  
<img src="/icons/compressed.gif" alt="[   ]"> <a href="CASS_20240108-211850.tar.gz">CASS_20240108-211850.tar.gz</a>                 2024-01-08 21:22  165K  
<img src="/icons/compressed.gif" alt="[   ]"> <a href="CASS_20240115-204455.tar.gz">CASS_20240115-204455.tar.gz</a>                 2024-01-15 20:47  306K
"#;

fn tarball(name: &str) -> Tarball {
    Tarball {
        name: name.to_string(),
        fond: Fond::CASS,
        time: extract_date_from_tarball_name(name).unwrap(),
    }
}

#[test]
fn test_date_parsing() {
    let name = "CASS_20231125-130812.tar.gz";
    let date = extract_date_from_tarball_name(name).unwrap();
    assert_eq!(date.day(), 25);
    assert_eq!(date.month(), 11);
    assert_eq!(date.year(), 2023);

    let name = "CASS_20240101-200918.tar.gz";
    let date = extract_date_from_tarball_name(name).unwrap();
    assert_eq!(date.day(), 1);
    assert_eq!(date.month(), 1);
    assert_eq!(date.year(), 2024);

    let name = "Freemium_jorf_global_20231119-100000.tar.gz";
    let date = extract_date_from_tarball_name(name).unwrap();
    assert_eq!(date.day(), 19);
    assert_eq!(date.month(), 11);
    assert_eq!(date.year(), 2023);
}

#[test]
fn test_get_tarballs_from_page_content() {
    let tarballs = get_tarballs_from_page_content(&Fond::CASS, MOCK_CASS_CONTENT);
    assert_eq!(tarballs.len(), 8);
    assert_eq!(tarballs[0].name, "CASS_20231125-130812.tar.gz");
    assert_eq!(tarballs[0].fond, Fond::CASS);
    assert_eq!(tarballs[0].time.day(), 25);
    assert_eq!(tarballs[0].time.month(), 11);
    assert_eq!(tarballs[0].time.year(), 2023);
}

#[test]
fn test_get_year_juri() {
    let doc = r#"<DATE_JURI>2023-01-01</DATE_JURI>"#;
    let year = get_year_juri(doc).unwrap();
    assert_eq!(year, 2023);
}

#[test]
fn listing_is_sorted_unique_and_dated() {
    let page = "b CASS_20240101-200918.tar.gz a CASS_20231125-130812.tar.gz \
                again CASS_20240101-200918.tar.gz bad CASS_20231131-000000.tar.gz";
    let tarballs = get_tarballs_from_page_content(&Fond::CASS, page);
    let names: Vec<&str> = tarballs.iter().map(|t| t.name.as_str()).collect();
    assert_eq!(
        names,
        vec!["CASS_20231125-130812.tar.gz", "CASS_20240101-200918.tar.gz"]
    );
    assert_eq!(tarballs[1].time, Date { year: 2024, month: 1, day: 1 });
    let again = get_tarballs_from_page_content(&Fond::CASS, page);
    assert_eq!(tarballs, again);
}

#[test]
fn listing_of_empty_page_is_empty() {
    assert!(get_tarballs_from_page_content(&Fond::JORF, "").is_empty());
    assert!(get_tarballs_from_page_content(&Fond::JORF, "<html>nothing</html>").is_empty());
}

#[test]
fn legacy_listing_keeps_undated_names() {
    let page = "x-y.tar.gz CASS_20231125-130812.tar.gz x-y.tar.gz";
    let names = legifrance::tarballs::get_tarballs_from_page_content(page);
    assert_eq!(names, vec!["CASS_20231125-130812.tar.gz", "x-y.tar.gz"]);
}

#[test]
fn invalid_dates_are_rejected() {
    assert_eq!(
        extract_date_from_tarball_name("CASS_20231131-130812.tar.gz"),
        Err(InvalidTarballDate)
    );
    assert_eq!(
        extract_date_from_tarball_name("CASS_2023112-130812.tar.gz"),
        Err(InvalidTarballDate)
    );
    assert_eq!(extract_date_from_tarball_name("no-date.tar.gz"), Err(InvalidTarballDate));
    assert_eq!(
        extract_date_from_tarball_name("CASS_20240229-000000.tar.gz"),
        Ok(Date { year: 2024, month: 2, day: 29 })
    );
    assert_eq!(
        extract_date_from_tarball_name("CASS_21000229-000000.tar.gz"),
        Err(InvalidTarballDate)
    );
}

#[test]
fn tarball_url_and_label() {
    let t = tarball("CASS_20231125-130812.tar.gz");
    assert_eq!(
        t.url(),
        "https://echanges.dila.gouv.fr/OPENDATA/CASS/CASS_20231125-130812.tar.gz"
    );
    assert_eq!(t.label(), "CASS_CASS_20231125-130812.tar.gz");
}

#[test]
fn present_tarballs_are_not_fetched_again() {
    let all = vec![
        tarball("CASS_20231125-130812.tar.gz"),
        tarball("CASS_20231127-204209.tar.gz"),
        tarball("CASS_20231204-205306.tar.gz"),
    ];
    let fetch = tarballs_to_fetch(&all, &vec![true, false, true]);
    assert_eq!(fetch, vec![all[1].clone()]);
    let none = tarballs_to_fetch(&all, &vec![true, true, true]);
    assert!(none.is_empty());
    let every = tarballs_to_fetch(&all, &vec![false, false, false]);
    assert_eq!(every, all);
}

#[test]
fn chunks_are_newest_first_by_ten() {
    let listing: Vec<Tarball> = (1..=25)
        .map(|d| tarball(&format!("CASS_202301{:02}-000000.tar.gz", d)))
        .collect();
    let chunks = plan_chunks(&listing, 10);
    assert_eq!(chunks.len(), 3);
    assert_eq!(chunks[0].len(), 10);
    assert_eq!(chunks[1].len(), 10);
    assert_eq!(chunks[2].len(), 5);
    assert_eq!(chunks[0][0].name, "CASS_20230125-000000.tar.gz");
    assert_eq!(chunks[2][4].name, "CASS_20230101-000000.tar.gz");
    assert!(plan_chunks(&Vec::new(), 10).is_empty());
}

#[test]
fn archive_names() {
    assert!(is_archive_name("CASS_20231125-130812.tar.gz"));
    assert!(is_archive_name("a.gz"));
    assert!(!is_archive_name(".gz"));
    assert!(!is_archive_name("file.xml"));
    assert!(!is_archive_name("gz"));
}

#[test]
fn index_document_needs_a_year() {
    let doc = IndexDocument::from_xml(
        "a/b.xml".to_string(),
        "<DATE_DEC>2010-05-04</DATE_DEC>".to_string(),
    )
    .unwrap();
    assert_eq!(doc.path, "a/b.xml");
    assert_eq!(doc.year, 2010);
    assert_eq!(
        IndexDocument::from_xml("c.xml".to_string(), "<ID>x</ID>".to_string()),
        Err(MissingYear)
    );
}

#[test]
fn year_skips_empty_groups() {
    assert_eq!(get_year_juri("<A>-01-01</DATE> <B>2001-02-03</DATE_X>"), Ok(2001));
    assert_eq!(get_year_juri("2001-02-03"), Err(MissingYear));
}
