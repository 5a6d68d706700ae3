use legifrance::dumps::fonds::{Fond, NotAFond};

#[test]
fn test_fond() {
    let fond = Fond::JORF;
    assert_eq!(fond.as_str(), "JORF");
    assert_eq!(fond.to_string(), "JORF");
    assert_eq!(fond, Fond::JORF);
    assert_eq!(fond, Fond::try_from("JORF".to_string()).unwrap());
}

#[test]
fn test_fond_as_str() {
    for fond in &Fond::all() {
        let str = fond.as_str();
        let fond2 = Fond::try_from(str.to_string());
        assert!(fond2.is_ok());
        assert_eq!(fond, &fond2.unwrap());
    }
}

#[test]
fn fond_catalog_has_seven_datasets() {
    let all = Fond::all();
    assert_eq!(all.len(), 7);
    assert_eq!(all[0], Fond::JORF);
    assert_eq!(all[6], Fond::CAPP);
}

#[test]
fn unknown_fond_name_is_rejected() {
    assert_eq!(Fond::try_from("KALI".to_string()), Err(NotAFond));
    assert_eq!(Fond::try_from("jorf".to_string()), Err(NotAFond));
    assert_eq!(Fond::try_from(String::new()), Err(NotAFond));
}

#[test]
fn listing_url_of_a_fond() {
    assert_eq!(
        Fond::CASS.listing_url(),
        "https://echanges.dila.gouv.fr/OPENDATA/CASS/"
    );
}
