use projekttage::partner::choose_partner;
use projekttage::partner::find_partner;
use projekttage::partner::match_all_partner;
use projekttage::partner::Kandidat;
use projekttage::partner::Wunschpartner;
use projekttage::text::first_word_of;
use projekttage::text::is_space_char;
use projekttage::text::last_word_of;
use projekttage::text::normalize;
use projekttage::types::Klasse;
use projekttage::types::SaveFileSchueler;
use projekttage::types::SchuelerId;
use std::collections::BTreeMap;

fn schueler(name: &str, klasse: &str) -> SaveFileSchueler {
    SaveFileSchueler {
        uid: 0,
        name: name.to_string(),
        wishes: None,
        partner_raw: None,
        ignore: false,
        fest: None,
        klasse: Klasse::new(klasse.to_string()),
        partner: None,
    }
}

fn roster() -> BTreeMap<u128, SaveFileSchueler> {
    let mut data = BTreeMap::new();
    data.insert(1, schueler("Anna Meier", "9a"));
    data.insert(2, schueler("Anna Müller", "9b"));
    data
}

fn kandidat(id: u128, klasse: &str, vorname: &str, nachname: &str, name: &str) -> Kandidat {
    Kandidat {
        id: SchuelerId::new(id),
        klasse: klasse.to_string(),
        vorname: vorname.to_string(),
        nachname: nachname.to_string(),
        name: name.to_string(),
    }
}

#[test]
fn name_and_class_resolve() {
    assert_eq!(find_partner(&roster(), "Anna Meier 9a".to_string()), Some(SchuelerId::new(1)));
}

#[test]
fn first_name_alone_is_ambiguous() {
    assert_eq!(find_partner(&roster(), "Anna".to_string()), None);
}

#[test]
fn last_name_tells_apart() {
    assert_eq!(find_partner(&roster(), "Anna Müller".to_string()), Some(SchuelerId::new(2)));
}

#[test]
fn class_tells_apart() {
    assert_eq!(find_partner(&roster(), "Anna (Klasse 9b)".to_string()), Some(SchuelerId::new(2)));
    assert_eq!(find_partner(&roster(), "Anna, 9a".to_string()), Some(SchuelerId::new(1)));
}

#[test]
fn class_is_compared_like_a_name() {
    assert_eq!(find_partner(&roster(), "Anna 9B".to_string()), Some(SchuelerId::new(2)));
}

#[test]
fn unknown_class_is_set_aside() {
    assert_eq!(find_partner(&roster(), "Anna Meier 7c".to_string()), Some(SchuelerId::new(1)));
}

#[test]
fn case_and_decomposition_do_not_matter() {
    assert_eq!(find_partner(&roster(), "anna MÜLLER".to_string()), Some(SchuelerId::new(2)));
}

#[test]
fn unknown_name_resolves_to_none() {
    assert_eq!(find_partner(&roster(), "Berta Meier".to_string()), None);
    assert_eq!(find_partner(&roster(), "".to_string()), None);
    assert_eq!(find_partner(&roster(), "12345".to_string()), None);
}

#[test]
fn all_wishes_are_resolved() {
    let mut data = roster();
    data.get_mut(&1).unwrap().partner_raw = Some("Anna Müller 9b".to_string());
    data.get_mut(&2).unwrap().partner_raw = Some("Niemand".to_string());
    data.get_mut(&2).unwrap().partner = Some(SchuelerId::new(1));
    data.insert(3, schueler("Carl Otto", "9b"));
    data.get_mut(&3).unwrap().partner = Some(SchuelerId::new(1));
    let resolved = match_all_partner(&data);
    assert_eq!(resolved.len(), 3);
    assert_eq!(resolved[&1].partner, Some(SchuelerId::new(2)));
    assert_eq!(resolved[&2].partner, None);
    assert_eq!(resolved[&3].partner, Some(SchuelerId::new(1)));
    assert_eq!(resolved[&1].name, "Anna Meier");
    assert_eq!(resolved[&1].partner_raw, Some("Anna Müller 9b".to_string()));
}

#[test]
fn empty_wish_is_not_resolved() {
    let mut data = roster();
    data.get_mut(&1).unwrap().partner_raw = Some("".to_string());
    data.get_mut(&1).unwrap().partner = Some(SchuelerId::new(2));
    data.get_mut(&2).unwrap().partner_raw = Some("Niemand".to_string());
    data.get_mut(&2).unwrap().partner = Some(SchuelerId::new(1));
    let resolved = match_all_partner(&data);
    assert_eq!(resolved[&1].partner, Some(SchuelerId::new(2)));
    assert_eq!(resolved[&1].partner_raw, Some("".to_string()));
    assert_eq!(resolved[&2].partner, None);
}

#[test]
fn resolving_twice_changes_nothing() {
    let mut data = roster();
    data.get_mut(&1).unwrap().partner_raw = Some("Anna Müller 9b".to_string());
    data.get_mut(&2).unwrap().partner_raw = Some("Anna".to_string());
    let once = match_all_partner(&data);
    let twice = match_all_partner(&once);
    assert_eq!(once, twice);
}

#[test]
fn names_are_decomposed_and_lowered() {
    assert_eq!(normalize("Müller"), "mu\u{308}ller");
    assert_eq!(normalize("ÄB"), "a\u{308}b");
    assert_eq!(normalize("ﬁn"), "fin");
}

#[test]
fn first_and_last_word() {
    assert_eq!(first_word_of("Anna Lena Meier"), "Anna");
    assert_eq!(last_word_of("Anna Lena Meier"), "Meier");
    assert_eq!(first_word_of("Anna"), "Anna");
    assert_eq!(last_word_of("Anna"), "Anna");
    assert_eq!(first_word_of(" Anna"), "Anna");
    assert_eq!(last_word_of("Anna "), "Anna");
    assert_eq!(first_word_of("\t Anna\u{a0}Lena\nMeier \u{3000}"), "Anna");
    assert_eq!(last_word_of("\t Anna\u{a0}Lena\nMeier \u{3000}"), "Meier");
    assert_eq!(first_word_of("Anna  Meier"), "Anna");
    assert_eq!(last_word_of("Anna  Meier"), "Meier");
    assert_eq!(first_word_of(""), "");
    assert_eq!(last_word_of(""), "");
    assert_eq!(first_word_of(" \t "), "");
    assert_eq!(last_word_of(" \t "), "");
    assert_eq!(last_word_of("Zoë Ägidius"), "Ägidius");
    for text in ["Anna Lena Meier", "  x\u{2003}y ", "", "\u{85}", "a\u{200b}b c"] {
        assert_eq!(first_word_of(text), text.split_whitespace().next().unwrap_or(""));
        assert_eq!(last_word_of(text), text.split_whitespace().last().unwrap_or(""));
    }
    for c in ['\u{9}', '\u{d}', ' ', '\u{85}', '\u{a0}', '\u{1680}', '\u{2000}', '\u{200a}', '\u{2028}', '\u{2029}', '\u{202f}', '\u{205f}', '\u{3000}', 'a', '\u{200b}', '\u{8}', '\u{e}', '\u{180e}', '\u{feff}'] {
        assert_eq!(is_space_char(c), c.is_whitespace());
    }
}

#[test]
fn middle_name_tells_apart() {
    let mut data = roster();
    data.insert(3, schueler("Anna Lena Meier", "9a"));
    assert_eq!(find_partner(&data, "Anna Meier".to_string()), Some(SchuelerId::new(1)));
    assert_eq!(find_partner(&data, "Anna Lena Meier 9a".to_string()), Some(SchuelerId::new(3)));
    // one Anna in 9b: the first name decides before the last name is looked at
    assert_eq!(find_partner(&data, "Anna Meier, 9b".to_string()), Some(SchuelerId::new(2)));
    data.insert(4, schueler("Anna Meier", "9a"));
    assert_eq!(find_partner(&data, "Anna Meier".to_string()), None);
}

#[test]
fn name_is_split_at_any_white_space() {
    let mut data = roster();
    data.insert(3, schueler("  Berta\tvon\u{a0}Stein ", "9a"));
    data.insert(4, schueler("Berta Klein", "9a"));
    assert_eq!(find_partner(&data, "Berta Stein".to_string()), Some(SchuelerId::new(3)));
    assert_eq!(find_partner(&data, "Berta Klein".to_string()), Some(SchuelerId::new(4)));
    assert_eq!(find_partner(&data, "Berta".to_string()), None);
}

#[test]
fn whole_name_decides_last() {
    let kandidaten = vec![
        kandidat(1, "9a", "anna", "meier", "anna lena meier"),
        kandidat(2, "9a", "anna", "meier", "anna meier"),
    ];
    let wish = Wunschpartner {
        vorname: "anna".to_string(),
        mittename: Some("".to_string()),
        nachname: Some("meier".to_string()),
        klasse: None,
    };
    assert_eq!(choose_partner(&kandidaten, &wish), Some(SchuelerId::new(2)));
    let wish = Wunschpartner {
        vorname: "anna".to_string(),
        mittename: Some("lena".to_string()),
        nachname: Some("meier".to_string()),
        klasse: Some("9a".to_string()),
    };
    assert_eq!(choose_partner(&kandidaten, &wish), Some(SchuelerId::new(1)));
    let wish = Wunschpartner {
        vorname: "anna".to_string(),
        mittename: None,
        nachname: Some("meier".to_string()),
        klasse: Some("9b".to_string()),
    };
    assert_eq!(choose_partner(&kandidaten, &wish), None);
}
