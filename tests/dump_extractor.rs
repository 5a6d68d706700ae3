use legifrance::dumps::extractor::{
    count_tags, event_to_reading_state, law_regex, law_uses, law_uses_with, pre_dila_from_str,
    record_from_events, update_pre_dila, LawCount, PreDilaText, ReadingState, TagCount, XmlEvent,
    XmlMalformed,
};

const EXAMPLE_XML: &str = r#"
<?xml version="1.0" encoding="UTF-8"?>
<TEXTE_JURI_ADMIN>
<META>
<META_COMMUN>
<ID>CETATEXT000049314894</ID>
<ANCIEN_ID>JG_L_2024_03_000000490536</ANCIEN_ID>
<ORIGINE>CETAT</ORIGINE>
<URL>texte/juri/admin/CETA/TEXT/00/00/49/31/48/CETATEXT000049314894.xml</URL>
<NATURE>Texte</NATURE>
</META_COMMUN>
<META_SPEC>
<META_JURI>
<TITRE>Conseil d'État, 2ème - 7ème chambres réunies, 21/03/2024, 490536</TITRE>
<DATE_DEC>2024-03-21</DATE_DEC>
<JURIDICTION>Conseil d'État</JURIDICTION>
<NUMERO>490536</NUMERO>
<SOLUTION/>
</META_JURI>
<META_JURI_ADMIN>

<FORMATION>2ème - 7ème chambres réunies</FORMATION>
<TYPE_REC>Autres</TYPE_REC>
<PUBLI_RECUEIL>B</PUBLI_RECUEIL>
<DEMANDEUR/>
<DEFENDEUR/>
<PRESIDENT/>
<AVOCATS>SCP BAUER-VIOLAS - FESCHOTTE-DESBOIS - SEBAGH ; SCP MARLANGE, DE LA BURGADE ; SCP SPINOSI</AVOCATS>
<RAPPORTEUR>M. Alexandre Trémolière</RAPPORTEUR>
<COMMISSAIRE_GVT>M. Clément Malverti</COMMISSAIRE_GVT>
<ECLI>ECLI:FR:CECHR:2024:490536.20240321</ECLI>
</META_JURI_ADMIN>
</META_SPEC>
</META>
<TEXTE>
<BLOC_TEXTUEL>
<CONTENU>
              2.	En vertu de l'article R. 421-1 du code de l'urbanisme, les constructions nouvelles doivent être précédées de la délivrance d'un permis de construire à l'exception des constructions mentionnées aux articles R. 421-2 à R. 421-8, qui sont dispensées de toute formalité au titre du code de l'urbanisme, et des constructions mentionnées aux articles R. 421-9 à R. 421-12, qui doivent faire l'objet d'une déclaration préalable. Selon le a) de l'article R. 421-2 du même code, les constructions nouvelles dont la hauteur au-dessus du sol est inférieure à douze mètres et qui ont pour effet de créer une surface de plancher et une emprise au sol inférieures ou égales à cinq mètres carrés sont dispensées, en dehors des secteurs sauvegardés et des sites classés, de toute formalité au titre du code de l'urbanisme. Aux termes de l'article R. 421-9 du même code, dans sa rédaction issue du décret du 10 décembre 2018 relatif à l'extension du régime de la déclaration préalable aux projets d'installation d'antennes-relais de radiotéléphonie mobile et à leurs locaux ou installations techniques au titre du code de l'urbanisme : " En dehors du périmètre des sites patrimoniaux remarquables, des abords des monuments historiques et des sites classés ou en instance de classement, les constructions nouvelles suivantes doivent être précédées d'une déclaration préalable, à l'exception des cas mentionnés à la sous-section 2 ci-dessus : / (...) c) Les constructions répondant aux critères cumulatifs suivants : / - une hauteur au-dessus du sol supérieure à douze mètres ; / - une emprise au sol inférieure ou égale à cinq mètres carrés ; / - une surface de plancher inférieure ou égale à cinq mètres carrés. / Toutefois, ces dispositions ne sont applicables ni aux éoliennes, ni aux ouvrages de production d'électricité à partir de l'énergie solaire installés au sol, ni aux antennes-relais de radiotéléphonie mobile ; (...) / j) Les antennes-relais de radiotéléphonie mobile et leurs systèmes d'accroche, quelle que soit leur hauteur, et les locaux ou installations techniques nécessaires à leur fonctionnement dès lors que ces locaux ou installations techniques ont une surface de plancher et une emprise au sol supérieures à 5 m² et inférieures ou égales à 20 m² ".<br/>
<br/>
</CONTENU>
</BLOC_TEXTUEL>
<SOMMAIRE>
<SCT ID="8A" TYPE="PRINCIPAL">51-02-01 POSTES ET COMMUNICATIONS ÉLECTRONIQUES. - COMMUNICATIONS ÉLECTRONIQUES. - TÉLÉPHONE. - CONSTRUCTION NOUVELLE D’ANTENNES-RELAIS DE RADIOTÉLÉPHONIE MOBILE EN DEHORS DES SECTEURS PROTÉGÉS – 1) A) PROJETS SOUMIS À DÉCLARATION PRÉALABLE – I) POUR TOUTES LES ANTENNES – SURFACE DE PLANCHER ET EMPRISE AU SOL ENTRE 5 ET 20 M² – II) POUR LES ANTENNES DE PLUS DE 12 M – SURFACE DE PLANCHER ET EMPRISE AU SOL INFÉRIEURES À 5 M² – B) PROJETS DISPENSÉS DE TOUTE FORMALITÉ – ANTENNES DE MOINS DE 12 M ENTRAÎNANT LA CRÉATION D’UNE SURFACE DE PLANCHER ET D’UNE EMPRISE AU SOL INFÉRIEURES OU ÉGALES À 5 M² – 2) APPRÉCIATION DES SEUILS DE SURFACE DE PLANCHER ET D’EMPRISE AU SOL – INCLUSION – SURFACE ET EMPRISE DES LOCAUX ET INSTALLATIONS TECHNIQUES – EXCLUSION – EMPRISE DES PYLÔNES [RJ1].
</SCT>
<SCT ID="8B" TYPE="PRINCIPAL">68-03-01-02 URBANISME ET AMÉNAGEMENT DU TERRITOIRE. - PERMIS DE CONSTRUIRE. - TRAVAUX SOUMIS AU PERMIS. - NE PRÉSENTENT PAS CE CARACTÈRE. - CONSTRUCTION NOUVELLE D’ANTENNES-RELAIS DE RADIOTÉLÉPHONIE MOBILE EN DEHORS DES SECTEURS PROTÉGÉS – 1) A) PROJETS SOUMIS À DÉCLARATION PRÉALABLE – I) POUR TOUTES LES ANTENNES – SURFACE DE PLANCHER ET EMPRISE AU SOL ENTRE 5 ET 20 M² – II) POUR LES ANTENNES DE PLUS DE 12 M – SURFACE DE PLANCHER ET EMPRISE AU SOL INFÉRIEURES À 5 M² – B) PROJETS DISPENSÉS DE TOUTE FORMALITÉ – ANTENNES DE MOINS DE 12 M ENTRAÎNANT LA CRÉATION D’UNE SURFACE DE PLANCHER ET D’UNE EMPRISE AU SOL INFÉRIEURES OU ÉGALES À 5 M² – 2) APPRÉCIATION DES SEUILS DE SURFACE DE PLANCHER ET D’EMPRISE AU SOL – INCLUSION – SURFACE ET EMPRISE DES LOCAUX ET INSTALLATIONS TECHNIQUES – EXCLUSION – EMPRISE DES PYLÔNES [RJ1].
</SCT>
<SCT ID="8C" TYPE="PRINCIPAL">68-04-045 URBANISME ET AMÉNAGEMENT DU TERRITOIRE. - AUTORISATIONS D`UTILISATION DES SOLS DIVERSES. - RÉGIMES DE DÉCLARATION PRÉALABLE. - CONSTRUCTION NOUVELLE D’ANTENNES-RELAIS DE RADIOTÉLÉPHONIE MOBILE EN DEHORS DES SECTEURS PROTÉGÉS – 1) A) PROJETS SOUMIS À DÉCLARATION PRÉALABLE – I) POUR TOUTES LES ANTENNES – SURFACE DE PLANCHER ET EMPRISE AU SOL ENTRE 5 ET 20 M² – II) POUR LES ANTENNES DE PLUS DE 12 M – SURFACE DE PLANCHER ET EMPRISE AU SOL INFÉRIEURES À 5 M² – B) PROJETS DISPENSÉS DE TOUTE FORMALITÉ – ANTENNES DE MOINS DE 12 M ENTRAÎNANT LA CRÉATION D’UNE SURFACE DE PLANCHER ET D’UNE EMPRISE AU SOL INFÉRIEURES OU ÉGALES À 5 M² – 2) APPRÉCIATION DES SEUILS DE SURFACE DE PLANCHER ET D’EMPRISE AU SOL – INCLUSION – SURFACE ET EMPRISE DES LOCAUX ET INSTALLATIONS TECHNIQUES – EXCLUSION – EMPRISE DES PYLÔNES [RJ1].
</SCT>
<ANA ID="9A"> 51-02-01 1) a) Les c et j de l’article R. 421-9 du code de l’urbanisme, dans leur rédaction issue du décret n° 2018-1123 du 10 décembre 2018, doivent être lus, au regard de l’objet des modifications opérées par ce décret, comme soumettant à la procédure de déclaration préalable la construction d’antennes-relais de radiotéléphonie mobile, de leurs systèmes d'accroche, et des locaux ou installations techniques nécessaires à leur fonctionnement lorsque i) soit, quelle que soit la hauteur de l’antenne, la surface de plancher et l'emprise au sol créées sont supérieures à 5 mètres carrés et inférieure ou égale à 20 mètres carrés, ii) soit, s’agissant des antennes d’une hauteur supérieure à douze mètres, la surface de plancher et l'emprise au sol créées sont inférieures ou égales à 5 mètres carrés. ...b) Les projets comportant des antennes d’une hauteur inférieure ou égale à 12 mètres et entraînant la création d’une surface de plancher et d’une emprise au sol inférieures ou égales à 5 mètres carrés restent dispensés de toute formalité en application des dispositions de l’article R. 421-2....2) Pour l’appréciation des seuils applicables à ces projets de constructions, s’agissant tant de ceux fixés au j de l’article R. 421-9 du code de l’urbanisme, que de ceux mentionnés au c de cet article et au a de l’article R. 421-2, seules la surface de plancher et l’emprise au sol des locaux et installations techniques doivent être prises en compte, et non l’emprise au sol des pylônes.</ANA>
<ANA ID="9B"> 68-03-01-02 1) a) Les c et j de l’article R. 421-9 du code de l’urbanisme, dans leur rédaction issue du décret n° 2018-1123 du 10 décembre 2018, doivent être lus, au regard de l’objet des modifications opérées par ce décret, comme soumettant à la procédure de déclaration préalable la construction d’antennes-relais de radiotéléphonie mobile, de leurs systèmes d'accroche, et des locaux ou installations techniques nécessaires à leur fonctionnement lorsque i) soit, quelle que soit la hauteur de l’antenne, la surface de plancher et l'emprise au sol créées sont supérieures à 5 mètres carrés et inférieure ou égale à 20 mètres carrés, ii) soit, s’agissant des antennes d’une hauteur supérieure à douze mètres, la surface de plancher et l'emprise au sol créées sont inférieures ou égales à 5 mètres carrés. ...b) Les projets comportant des antennes d’une hauteur inférieure ou égale à 12 mètres et entraînant la création d’une surface de plancher et d’une emprise au sol inférieures ou égales à 5 mètres carrés restent dispensés de toute formalité en application des dispositions de l’article R. 421-2....2) Pour l’appréciation des seuils applicables à ces projets de constructions, s’agissant tant de ceux fixés au j de l’article R. 421-9 du code de l’urbanisme, que de ceux mentionnés au c de cet article et au a de l’article R. 421-2, seules la surface de plancher et l’emprise au sol des locaux et installations techniques doivent être prises en compte, et non l’emprise au sol des pylônes.</ANA>
<ANA ID="9C"> 68-04-045 1) a) Les c et j de l’article R. 421-9 du code de l’urbanisme, dans leur rédaction issue du décret n° 2018-1123 du 10 décembre 2018, doivent être lus, au regard de l’objet des modifications opérées par ce décret, comme soumettant à la procédure de déclaration préalable la construction d’antennes-relais de radiotéléphonie mobile, de leurs systèmes d'accroche, et des locaux ou installations techniques nécessaires à leur fonctionnement lorsque i) soit, quelle que soit la hauteur de l’antenne, la surface de plancher et l'emprise au sol créées sont supérieures à 5 mètres carrés et inférieure ou égale à 20 mètres carrés, ii) soit, s’agissant des antennes d’une hauteur supérieure à douze mètres, la surface de plancher et l'emprise au sol créées sont inférieures ou égales à 5 mètres carrés. ...b) Les projets comportant des antennes d’une hauteur inférieure ou égale à 12 mètres et entraînant la création d’une surface de plancher et d’une emprise au sol inférieures ou égales à 5 mètres carrés restent dispensés de toute formalité en application des dispositions de l’article R. 421-2....2) Pour l’appréciation des seuils applicables à ces projets de constructions, s’agissant tant de ceux fixés au j de l’article R. 421-9 du code de l’urbanisme, que de ceux mentionnés au c de cet article et au a de l’article R. 421-2, seules la surface de plancher et l’emprise au sol des locaux et installations techniques doivent être prises en compte, et non l’emprise au sol des pylônes.</ANA>
</SOMMAIRE>

<CITATION_JP>
<CONTENU>[RJ1] Comp., avant l’intervention du décret n° 2018-1123 du 10 décembre 2018, CE, 20 juin 2012, M. Richard et autres, n° 344646, T. pp. 889-1023.</CONTENU>
</CITATION_JP>
</TEXTE>
<LIENS/>
</TEXTE_JURI_ADMIN>"#;

#[test]
fn test_pre_dila_metadata_parser() {
    let pre_dila = pre_dila_from_str(EXAMPLE_XML).unwrap();

    assert_eq!(pre_dila.id, "CETATEXT000049314894");
    assert_eq!(pre_dila.oldid, "JG_L_2024_03_000000490536");
    assert_eq!(pre_dila.origin, "CETAT");
    assert_eq!(
        pre_dila.url,
        "texte/juri/admin/CETA/TEXT/00/00/49/31/48/CETATEXT000049314894.xml"
    );
    assert_eq!(pre_dila.nature, "Texte");
    assert_eq!(
        pre_dila.title,
        Some("Conseil d'État, 2ème - 7ème chambres réunies, 21/03/2024, 490536".to_string())
    );
    assert_eq!(pre_dila.decision_date, Some("2024-03-21".to_string()));
    assert_eq!(pre_dila.jurisdiction, Some("Conseil d'État".to_string()));
    assert_eq!(pre_dila.juri_code, Some("490536".to_string()));
    assert_eq!(pre_dila.requester, None);
    assert_eq!(pre_dila.president, None);
    assert_eq!(pre_dila.lawyers, Some("SCP BAUER-VIOLAS - FESCHOTTE-DESBOIS - SEBAGH ; SCP MARLANGE, DE LA BURGADE ; SCP SPINOSI".to_string()));
    assert_eq!(
        pre_dila.rapporteur,
        Some("M. Alexandre Trémolière".to_string())
    );
    assert_eq!(
        pre_dila.government_commissioner,
        Some("M. Clément Malverti".to_string())
    );
    assert_eq!(
        pre_dila.ecli_code,
        Some("ECLI:FR:CECHR:2024:490536.20240321".to_string())
    );
}

#[test]
fn text_keeps_all_contenu_in_order() {
    let r = pre_dila_from_str(EXAMPLE_XML).unwrap();
    assert!(r.text.contains("R. 421-1 du code de l'urbanisme"));
    assert!(r.text.contains("20 m² \".<br/>\n<br/>\n"));
    assert!(r.text.ends_with("T. pp. 889-1023."));
    assert!(!r.text.contains("POSTES ET COMMUNICATIONS"));
}

#[test]
fn text_is_unescaped() {
    let r = pre_dila_from_str("<R><ID>a&amp;b</ID><CONTENU>x &lt; y</CONTENU></R>").unwrap();
    assert_eq!(r.id, "a&b");
    assert_eq!(r.text, "x < y");
}

#[test]
fn events_drive_the_state_machine() {
    let ev = vec![
        XmlEvent::Start("ID".to_string()),
        XmlEvent::Text("first".to_string()),
        XmlEvent::Text("second".to_string()),
        XmlEvent::End("ID".to_string()),
        XmlEvent::Text("ignored".to_string()),
        XmlEvent::Start("CONTENU".to_string()),
        XmlEvent::Text("a".to_string()),
        XmlEvent::Start("OTHER".to_string()),
        XmlEvent::Text("b".to_string()),
        XmlEvent::End("OTHER".to_string()),
        XmlEvent::End("CONTENU".to_string()),
        XmlEvent::Start("TITRE".to_string()),
        XmlEvent::Text("t".to_string()),
        XmlEvent::Other,
    ];
    let r = record_from_events(&ev);
    assert_eq!(r.id, "second");
    assert_eq!(r.text, "ab");
    assert_eq!(r.title, Some("t".to_string()));
    assert_eq!(r.nature, "");
    assert_eq!(r.ecli_code, None);
}

#[test]
fn empty_record_is_default() {
    assert_eq!(record_from_events(&Vec::new()), PreDilaText::default());
    assert_eq!(PreDilaText::new().title, None);
}

#[test]
fn tag_names_select_fields() {
    assert_eq!(event_to_reading_state("ID"), Some(ReadingState::ID));
    assert_eq!(event_to_reading_state("COMMISSAIRE_GVT"), Some(ReadingState::GovernmentCommissioner));
    assert_eq!(event_to_reading_state("CONTENU"), Some(ReadingState::Text));
    assert_eq!(event_to_reading_state("id"), None);
    assert_eq!(event_to_reading_state("SOLUTION"), None);
}

#[test]
fn update_replaces_scalars_and_appends_text() {
    let mut r = PreDilaText::new();
    update_pre_dila(&mut r, &Some(ReadingState::Nature), "Arrêt");
    update_pre_dila(&mut r, &Some(ReadingState::Nature), "Texte");
    update_pre_dila(&mut r, &Some(ReadingState::Text), "one ");
    update_pre_dila(&mut r, &Some(ReadingState::Text), "two");
    update_pre_dila(&mut r, &None, "lost");
    assert_eq!(r.nature, "Texte");
    assert_eq!(r.text, "one two");
}

#[test]
fn tags_are_counted_twice_per_element() {
    let mut c = TagCount::new();
    assert!(count_tags("<A><B>x</B><B/><B></B></A>", &mut c));
    assert_eq!(c.get("A"), 2);
    assert_eq!(c.get("B"), 6);
    assert_eq!(c.get("C"), 0);
    assert_eq!(c.total(), 8);
    assert_eq!(c.entries().len(), 2);
    assert!(count_tags("<A></A>", &mut c));
    assert_eq!(c.get("A"), 4);
}

#[test]
fn law_citations_are_tallied() {
    let mut c = LawCount::new();
    law_uses(
        "articles R. 421-1 et R.  421-1, puis L. 600-5 ; pas r. 12 ni R.12",
        &mut c,
    );
    assert_eq!(c.get("R", "421-1"), 2);
    assert_eq!(c.get("L", "600-5"), 1);
    assert_eq!(c.get("R", "12"), 0);
    assert_eq!(c.total(), 3);
    assert_eq!(c.entries().len(), 2);
}

#[test]
fn empty_elements_in_text_are_kept() {
    let r = pre_dila_from_str("<R><CONTENU>a<br/>b</CONTENU><TITRE>t<br/></TITRE><DEMANDEUR/></R>")
        .unwrap();
    assert_eq!(r.text, "a<br/>b");
    assert_eq!(r.title, Some("t".to_string()));
    assert_eq!(r.requester, None);
}

#[test]
fn self_closing_element_counts_twice() {
    let mut c = TagCount::new();
    assert!(count_tags("<a/>", &mut c));
    assert_eq!(c.get("a"), 2);
}

#[test]
fn malformed_xml_is_rejected() {
    assert_eq!(pre_dila_from_str("<R><ID>x</ID></Q>"), Err(XmlMalformed));
    assert_eq!(pre_dila_from_str("<R><ID>&bogus;</ID></R>"), Err(XmlMalformed));
    assert!(pre_dila_from_str("").is_ok());
}

#[test]
fn law_pattern_is_reused() {
    let pattern = law_regex();
    let mut c = LawCount::new();
    law_uses_with(&pattern, "R. 1", &mut c);
    law_uses_with(&pattern, "R. 1 et L. 2", &mut c);
    assert_eq!(c.get("R", "1"), 2);
    assert_eq!(c.get("L", "2"), 1);
}
