use projekttage::types::Klasse;
use projekttage::types::ProjektId;
use projekttage::types::SaveFileStufe;
use projekttage::types::SchuelerId;

fn stufe(label: &str) -> Option<u32> {
    Klasse::new(label.to_string()).stufe()
}

#[test]
fn grade_of_a_class_label() {
    assert_eq!(stufe("KS1"), Some(12));
    assert_eq!(stufe("KS2"), Some(13));
    assert_eq!(stufe("10c"), Some(10));
    assert_eq!(stufe("7a"), Some(7));
    assert_eq!(stufe("Klasse 9b und 10"), Some(9));
    assert_eq!(stufe("KS3"), Some(3));
    assert_eq!(stufe("007"), Some(7));
}

#[test]
fn grade_unknown() {
    assert_eq!(stufe(""), None);
    assert_eq!(stufe("abc"), None);
    assert_eq!(stufe("99999999999a"), None);
    assert_eq!(stufe("4294967295"), Some(4294967295));
    assert_eq!(stufe("4294967296"), None);
}

#[test]
fn class_label_is_kept() {
    let k = Klasse::new("10c".to_string());
    assert_eq!(k.klasse(), "10c");
    assert_eq!(k.clone(), k);
}

#[test]
fn project_id_from_text() {
    assert_eq!(ProjektId::parse("0"), Some(ProjektId::new(0)));
    assert_eq!(ProjektId::parse("17"), Some(ProjektId::new(17)));
    assert_eq!(ProjektId::parse("+17"), Some(ProjektId::new(17)));
    assert_eq!(ProjektId::parse("-1"), Some(ProjektId::none()));
    assert_eq!(ProjektId::parse("-0"), Some(ProjektId::new(0)));
    assert_eq!(ProjektId::parse("-2147483648"), Some(ProjektId::none()));
    assert_eq!(ProjektId::parse("2147483647"), Some(ProjektId::new(2147483647)));
    assert_eq!(ProjektId::parse("2147483648"), None);
    assert_eq!(ProjektId::parse("-2147483649"), None);
    assert_eq!(ProjektId::parse(""), None);
    assert_eq!(ProjektId::parse("-"), None);
    assert_eq!(ProjektId::parse("1a"), None);
    assert_eq!(ProjektId::parse(" 1"), None);
}

#[test]
fn project_id_values() {
    assert_eq!(ProjektId::new(4).id(), 4);
    assert_eq!(ProjektId::none().id(), u32::MAX);
    assert!(ProjektId::none().is_none());
    assert!(!ProjektId::new(0).is_none());
    assert_eq!(ProjektId::new(4).sub(1), ProjektId::new(3));
    assert_eq!(ProjektId::new(0).sub(1), ProjektId::none());
    assert_eq!(ProjektId::default(), ProjektId::new(0));
    assert_eq!(ProjektId::new(0).to_text(), "1");
    assert_eq!(ProjektId::new(41).to_text(), "42");
    assert_eq!(ProjektId::none().to_text(), "4294967296");
}

#[test]
fn project_id_as_it_is_stored() {
    assert_eq!(ProjektId::from_number(0), ProjektId::new(0));
    assert_eq!(ProjektId::from_number(17), ProjektId::new(17));
    assert_eq!(ProjektId::from_number(-1), ProjektId::none());
    assert_eq!(ProjektId::from_number(-5), ProjektId::none());
    assert_eq!(ProjektId::from_number(4294967294), ProjektId::new(4294967294));
    assert_eq!(ProjektId::from_number(4294967295), ProjektId::none());
    assert_eq!(ProjektId::from_number(4294967296), ProjektId::none());
    assert_eq!(ProjektId::from_number(i64::MIN), ProjektId::none());
    assert_eq!(ProjektId::new(17).to_number(), 17);
    assert_eq!(ProjektId::new(0).to_number(), 0);
    assert_eq!(ProjektId::none().to_number(), -1);
    assert_eq!(ProjektId::from_number(ProjektId::new(4294967294).to_number()), ProjektId::new(4294967294));
}

#[test]
fn student_id_and_grade_key() {
    assert_eq!(SchuelerId::new(9).id(), 9);
    assert!(SchuelerId::new(1) < SchuelerId::new(2));
    assert_eq!(SaveFileStufe(11).stufe(), 11);
}
