use projekttage::data::FileType;
use projekttage::einteilung::auswerten;
use projekttage::einteilung::edit_zuordnung;
use projekttage::einteilung::read_outcome;
use projekttage::einteilung::to_solver_projects;
use projekttage::export::export_csv;
use projekttage::schueler::edit_schueler;
use projekttage::solver::backend::SolveError;
use projekttage::schueler::Edit;
use projekttage::tabelle::Auslastung;
use projekttage::tabelle::EinteilungTableLine;
use projekttage::tabelle::ProjektTableLine;
use projekttage::tabelle::SchuelerTableLine;
use projekttage::text::contains_text;
use projekttage::text::decimal_string;
use projekttage::text::parse_u32;
use projekttage::types::schueler_file::parse_wish;
use projekttage::types::schueler_file::ImportError;
use projekttage::types::schueler_file::SchuelerFile;
use projekttage::types::schueler_liste_file::SchuelerListeFile;
use projekttage::types::Klasse;
use projekttage::types::ProjektId;
use projekttage::types::SaveFileProjekt;
use projekttage::types::SaveFileSchueler;
use projekttage::types::SaveFileZuordnung;
use projekttage::types::SchuelerId;
use projekttage::Data;
use projekttage::Projekt;
use std::collections::BTreeMap;

fn saved(name: &str, stufen: (u32, u32), num: Option<u32>) -> SaveFileProjekt {
    SaveFileProjekt {
        name: name.to_string(),
        min_teilnehmer: 2,
        max_teilnehmer: 3,
        min_stufe: stufen.0,
        max_stufe: stufen.1,
        ignore: false,
        num_einteilung: num,
    }
}

fn schueler(name: &str, klasse: &str) -> SaveFileSchueler {
    SaveFileSchueler {
        uid: 1,
        name: name.to_string(),
        wishes: None,
        partner_raw: None,
        ignore: false,
        fest: None,
        klasse: Klasse::new(klasse.to_string()),
        partner: None,
    }
}

fn record(id: u32, schueler: u128, projekt: Option<u32>) -> SaveFileZuordnung {
    SaveFileZuordnung { id, schueler: SchuelerId::new(schueler), projekt: projekt.map(ProjektId::new) }
}

fn data() -> Data {
    let mut projekte = BTreeMap::new();
    projekte.insert(0, saved("Theater", (5, 10), None));
    projekte.insert(4, saved("Chor", (7, 13), Some(2)));
    let mut students = BTreeMap::new();
    students.insert(10, schueler("Anna Meier", "9a"));
    students.insert(20, schueler("Ben Schulz", "KS1"));
    students.insert(30, schueler("Carl Otto", "5c"));
    Data {
        projekte,
        schueler: students,
        zuordnung: vec![record(0, 10, Some(4)), record(1, 20, None), record(2, 30, Some(9))],
        klassen: BTreeMap::new(),
    }
}

fn answers(uid: &str, id: u128, wishes: [Option<&str>; 5]) -> projekttage::types::schueler_file::Schueler {
    projekttage::types::schueler_file::Schueler {
        antworten: uid.to_string(),
        anmeldename: SchuelerId::new(id),
        vollstndigername: "Anna Meier".to_string(),
        gruppe: "9a".to_string(),
        q01_erstwunsch: wishes[0].map(str::to_string),
        q02_zweitwunsch: wishes[1].map(str::to_string),
        q03_drittwunsch: wishes[2].map(str::to_string),
        q04_viertwunsch: wishes[3].map(str::to_string),
        q05_fnftwunsch: wishes[4].map(str::to_string),
        q06_wunschpartner: Some("Ben".to_string()),
    }
}

fn listed(id: &str, anmeldename: &str) -> projekttage::types::schueler_liste_file::Schueler {
    projekttage::types::schueler_liste_file::Schueler {
        id: id.to_string(),
        anmeldename: anmeldename.to_string(),
        vorname: "Anna".to_string(),
        nachname: "Meier".to_string(),
        gruppen: "9a".to_string(),
    }
}

#[test]
fn table_in_text_form() {
    let text = export_csv(&data()).unwrap();
    assert_eq!(
        text,
        "ID;Schueler;Projekt\n0;Anna Meier (9a);4: Chor (7-13)\n1;Ben Schulz (KS1);--\n2;Carl Otto (5c);--"
    );
    let mut empty = data();
    empty.zuordnung.clear();
    assert_eq!(export_csv(&empty).unwrap(), "ID;Schueler;Projekt");
    let mut unknown = data();
    unknown.zuordnung.push(record(3, 99, None));
    assert_eq!(export_csv(&unknown), None);
}

#[test]
fn numbers_in_base_ten() {
    assert_eq!(decimal_string(0), "0");
    assert_eq!(decimal_string(7), "7");
    assert_eq!(decimal_string(10), "10");
    assert_eq!(decimal_string(4294967295), "4294967295");
    assert_eq!(parse_u32("0042"), Some(42));
    assert_eq!(parse_u32("+7"), Some(7));
    assert_eq!(parse_u32("4294967295"), Some(4294967295));
    assert_eq!(parse_u32("4294967296"), None);
    assert_eq!(parse_u32("-1"), None);
    assert_eq!(parse_u32(""), None);
    assert_eq!(parse_u32("+"), None);
    assert_eq!(parse_u32("1 "), None);
}

#[test]
fn wish_names_the_project_before_its_number() {
    assert_eq!(parse_wish("3 : Theater"), Some(ProjektId::new(2)));
    assert_eq!(parse_wish("1 : A : B"), Some(ProjektId::new(0)));
    assert_eq!(parse_wish("12"), Some(ProjektId::new(11)));
    assert_eq!(parse_wish("0 : nichts"), Some(ProjektId::none()));
    assert_eq!(parse_wish("-1 : nichts"), Some(ProjektId::new(u32::MAX - 1)));
    assert_eq!(parse_wish("3: Theater"), None);
    assert_eq!(parse_wish(" : Theater"), None);
    assert_eq!(parse_wish("Theater"), None);
}

#[test]
fn wishes_file_becomes_roster() {
    let w = [Some("1 : A"), Some("2 : B"), Some("3 : C"), Some("4 : D"), Some("5 : E")];
    let file = SchuelerFile(vec![
        answers("7", 10, w),
        answers("8", 20, [Some("1 : A"), None, None, None, None]),
        answers("9", 10, [Some("5 : E"), Some("4 : D"), Some("3 : C"), Some("2 : B"), Some("1 : A")]),
    ]);
    let roster = file.to_roster().unwrap();
    assert_eq!(roster.len(), 2);
    let s = &roster[&10];
    assert_eq!(s.uid, 9);
    assert_eq!(s.name, "Anna Meier");
    assert_eq!(s.klasse.klasse(), "9a");
    assert_eq!(s.partner_raw, Some("Ben".to_string()));
    assert_eq!(s.partner, None);
    assert_eq!(s.fest, Some(false));
    assert!(!s.ignore);
    assert_eq!(
        s.wishes,
        Some([ProjektId::new(4), ProjektId::new(3), ProjektId::new(2), ProjektId::new(1), ProjektId::new(0)])
    );
    assert_eq!(roster[&20].wishes, None);
    assert_eq!(roster[&20].uid, 8);
}

#[test]
fn wishes_file_with_faults() {
    let w = [Some("1 : A"), Some("2 : B"), Some("3 : C"), Some("4 : D"), Some("5 : E")];
    let bad_wish = [Some("1 : A"), Some("2 : B"), Some("x : C"), Some("4 : D"), Some("5 : E")];
    assert_eq!(SchuelerFile(vec![answers("7", 10, w), answers("x", 20, w)]).to_roster(), Err(ImportError::Uid));
    assert_eq!(SchuelerFile(vec![answers("7", 10, bad_wish)]).to_roster(), Err(ImportError::Wunsch));
    assert_eq!(
        SchuelerFile(vec![answers("7", 10, bad_wish), answers("x", 20, w)]).to_roster(),
        Err(ImportError::Wunsch)
    );
    assert_eq!(SchuelerFile(vec![answers("", 10, bad_wish)]).to_roster(), Err(ImportError::Uid));
    assert_eq!(answers("7", 10, bad_wish).get_wuensche(), Err(ImportError::Wunsch));
    assert_eq!(SchuelerFile(Vec::new()).to_roster(), Ok(BTreeMap::new()));
}

#[test]
fn list_file_becomes_roster() {
    let file = SchuelerListeFile(vec![
        listed("1", "a1a2a3a4-b1b2-c1c2-d1d2-d3d4d5d6d7d8"),
        listed("nichts", ""),
        listed("3", "00000000-0000-0000-0000-000000000002"),
    ]);
    let roster = file.to_roster().unwrap();
    assert_eq!(roster.len(), 2);
    let s = &roster[&0xa1a2a3a4b1b2c1c2d1d2d3d4d5d6d7d8];
    assert_eq!(s.uid, 1);
    assert_eq!(s.name, "Anna Meier");
    assert_eq!(s.klasse.klasse(), "9a");
    assert!(s.ignore);
    assert_eq!(s.fest, None);
    assert_eq!(s.wishes, None);
    assert_eq!(s.partner_raw, None);
    assert_eq!(roster[&2].uid, 3);
}

#[test]
fn list_file_with_faults() {
    assert_eq!(SchuelerListeFile(vec![listed("1", "kein uuid")]).to_roster(), Err(ImportError::Anmeldename));
    assert_eq!(
        SchuelerListeFile(vec![listed("x", "00000000-0000-0000-0000-000000000002")]).to_roster(),
        Err(ImportError::Uid)
    );
    assert_eq!(
        SchuelerListeFile(vec![listed("x", "kein uuid"), listed("1", "")]).to_roster(),
        Err(ImportError::Anmeldename)
    );
}

#[test]
fn imported_wishes_replace_students() {
    let mut d = data();
    let mut imported = BTreeMap::new();
    imported.insert(20, schueler("Ben Neu", "KS2"));
    imported.insert(40, schueler("Dora Neu", "6a"));
    d.merge_schueler(imported);
    assert_eq!(d.schueler.len(), 4);
    assert_eq!(d.schueler[&10].name, "Anna Meier");
    assert_eq!(d.schueler[&20].name, "Ben Neu");
    assert_eq!(d.schueler[&40].name, "Dora Neu");
    assert_eq!(d.projekte, data().projekte);
    assert_eq!(d.zuordnung, data().zuordnung);
}

#[test]
fn new_assignment_is_counted() {
    let mut d = data();
    let result = vec![record(0, 10, Some(4)), record(1, 20, Some(0)), record(2, 30, Some(4)), record(3, 40, Some(9))];
    d.set_zuordnung(result.clone());
    assert_eq!(d.zuordnung, result);
    assert_eq!(d.projekte[&0].num_einteilung, Some(1));
    assert_eq!(d.projekte[&4].num_einteilung, Some(4));
    assert_eq!(d.projekte[&4].name, "Chor");
    let mut full = data();
    full.projekte.get_mut(&4).unwrap().num_einteilung = Some(u32::MAX);
    full.set_zuordnung(result);
    assert_eq!(full.projekte[&4].num_einteilung, Some(u32::MAX));
    let mut none = data();
    none.set_zuordnung(Vec::new());
    assert_eq!(none.projekte, data().projekte);
    assert_eq!(data().get(), data());
}

#[test]
fn assignment_edited_by_hand() {
    let mut z = data().zuordnung;
    edit_zuordnung(
        &mut z,
        SchuelerId::new(20),
        projekttage::einteilung::Edit::Projekt { projekt_id: ProjektId::new(0) },
    );
    assert_eq!(z, vec![record(0, 10, Some(4)), record(1, 20, Some(0)), record(2, 30, Some(9))]);
    edit_zuordnung(
        &mut z,
        SchuelerId::new(99),
        projekttage::einteilung::Edit::Projekt { projekt_id: ProjektId::new(0) },
    );
    assert_eq!(z, vec![record(0, 10, Some(4)), record(1, 20, Some(0)), record(2, 30, Some(9))]);
}

#[test]
fn student_edited_by_hand() {
    let mut roster = data().schueler;
    let id = SchuelerId::new(10);
    edit_schueler(&mut roster, id, Edit::Wunsch { idx: 1, projekt_id: ProjektId::new(4) });
    let none = ProjektId::none();
    assert_eq!(roster[&10].wishes, Some([none, ProjektId::new(4), none, none, none]));
    edit_schueler(&mut roster, id, Edit::Wunsch { idx: 0, projekt_id: ProjektId::new(0) });
    assert_eq!(roster[&10].wishes, Some([ProjektId::new(0), ProjektId::new(4), none, none, none]));
    edit_schueler(&mut roster, id, Edit::Wunsch { idx: 5, projekt_id: ProjektId::new(0) });
    assert_eq!(roster[&10].wishes, Some([ProjektId::new(0), ProjektId::new(4), none, none, none]));
    edit_schueler(&mut roster, id, Edit::Fest { value: true });
    assert_eq!(roster[&10].fest, Some(true));
    edit_schueler(&mut roster, id, Edit::Ignorieren { value: true });
    assert!(roster[&10].ignore);
    edit_schueler(&mut roster, id, Edit::Partner { value: "Ben Schulz (KS1)".to_string() });
    assert_eq!(roster[&10].partner, Some(SchuelerId::new(20)));
    edit_schueler(&mut roster, id, Edit::Partner { value: "Niemand".to_string() });
    assert_eq!(roster[&10].partner, None);
    assert_eq!(roster[&10].name, "Anna Meier");
    assert_eq!(roster[&20], data().schueler[&20]);
    let before = roster.clone();
    edit_schueler(&mut roster, SchuelerId::new(99), Edit::Fest { value: true });
    assert_eq!(roster, before);
}

#[test]
fn lines_of_the_tables() {
    let d = data();
    let p: Projekt = d.projekte[&4].clone().into();
    let line = ProjektTableLine::from_projekt(1, ProjektId::new(4), &p);
    assert_eq!(line.name, "Chor");
    assert_eq!(line.min_teilnehmer, 2);
    assert_eq!(line.auslastung(), Auslastung::Mindestanzahl);
    let mut other = line.clone();
    other.name = "anders".to_string();
    other.num_einteilung = Some(3);
    assert_eq!(other.auslastung(), Auslastung::Voll);
    assert!(line == other);
    other.num_einteilung = Some(1);
    assert_eq!(other.auslastung(), Auslastung::Teilnehmer);
    other.num_einteilung = None;
    assert_eq!(other.auslastung(), Auslastung::KeineEinteilung);
    other.max_teilnehmer = -1;
    other.num_einteilung = Some(u32::MAX);
    assert_eq!(other.auslastung(), Auslastung::Voll);
    assert!(line.matches_search(None));
    assert!(line.matches_search(Some("HO".to_string())));
    assert!(!line.matches_search(Some("x".to_string())));

    let line = EinteilungTableLine::from_data(&d, 0, SchuelerId::new(10), Some(ProjektId::new(4))).unwrap();
    assert_eq!(line.schueler_name, "Anna Meier");
    assert_eq!(line.projekt_name, "Chor");
    assert_eq!(line.wunsch_rang(), None);
    assert!(line.matches_search(Some("chor".to_string())));
    assert!(line.matches_search(Some("MEIER".to_string())));
    assert!(!line.matches_search(Some("otto".to_string())));
    assert!(EinteilungTableLine::from_data(&d, 0, SchuelerId::new(10), Some(ProjektId::new(9))).is_none());
    assert!(EinteilungTableLine::from_data(&d, 0, SchuelerId::new(11), None).is_none());
    let mut ranked = EinteilungTableLine::from_data(&d, 0, SchuelerId::new(10), None).unwrap();
    assert_eq!(ranked.projekt_name, "");
    let none = ProjektId::none();
    ranked.wuensche = Some([ProjektId::new(0), ProjektId::new(4), ProjektId::new(4), none, none]);
    assert_eq!(ranked.wunsch_rang(), Some(5));
    ranked.projekt_id = Some(ProjektId::new(4));
    assert_eq!(ranked.wunsch_rang(), Some(1));
    ranked.projekt_id = Some(ProjektId::new(7));
    assert_eq!(ranked.wunsch_rang(), Some(5));

    let mut d = data();
    let none = ProjektId::none();
    d.schueler.get_mut(&10).unwrap().wishes = Some([ProjektId::new(4), none, ProjektId::new(0), none, none]);
    d.schueler.get_mut(&10).unwrap().partner = Some(SchuelerId::new(20));
    d.schueler.get_mut(&20).unwrap().partner = Some(SchuelerId::new(99));
    let line = SchuelerTableLine::from_data(&d, 0, SchuelerId::new(10)).unwrap();
    assert_eq!(line.wuensche[0], Some((ProjektId::new(4), "Chor".to_string())));
    assert_eq!(line.wuensche[1], None);
    assert_eq!(line.wuensche[2], Some((ProjektId::new(0), "Theater".to_string())));
    assert_eq!(line.partner, Some((SchuelerId::new(20), "Ben Schulz".to_string(), Klasse::new("KS1".to_string()))));
    assert!(!line.fest);
    assert!(line.matches_search(Some("anna".to_string())));
    let line = SchuelerTableLine::from_data(&d, 1, SchuelerId::new(20)).unwrap();
    assert_eq!(line.partner, None);
    assert!(SchuelerTableLine::from_data(&d, 1, SchuelerId::new(21)).is_none());
}

#[test]
fn text_is_found_in_text() {
    assert!(contains_text("Anna Meier", "Meier"));
    assert!(contains_text("Anna Meier", ""));
    assert!(contains_text("", ""));
    assert!(contains_text("aab", "ab"));
    assert!(!contains_text("Anna", "Meier"));
    assert!(!contains_text("ab", "abc"));
}

#[test]
fn solved_table_is_read() {
    let d = data();
    let projekte = to_solver_projects(&d.projekte);
    assert_eq!(projekte.len(), 2);
    assert_eq!(projekte[&4].name, "Chor");
    assert_eq!(projekte[&4].max_stufe, 13);
    let mut students = d.schueler.clone();
    let none = ProjektId::none();
    students.get_mut(&10).unwrap().wishes = Some([ProjektId::new(0), ProjektId::new(4), none, none, none]);
    students.get_mut(&20).unwrap().wishes = Some([ProjektId::new(0), none, none, none, none]);
    students.get_mut(&30).unwrap().wishes = Some([ProjektId::new(4), ProjektId::new(4), none, none, none]);
    students.get_mut(&30).unwrap().ignore = true;
    students.get_mut(&10).unwrap().partner = Some(SchuelerId::new(20));
    students.get_mut(&20).unwrap().partner = Some(SchuelerId::new(10));
    let x = vec![vec![false, true], vec![true, true], vec![false, true]];
    let res = auswerten(&projekte, &students, &x).unwrap();
    assert_eq!(res.zuordnung, vec![record(0, 10, Some(4)), record(1, 20, Some(0)), record(2, 30, Some(4))]);
    assert_eq!(res.diagnostics.project_loads, vec![1, 2]);
    assert_eq!(res.diagnostics.wish_hist, vec![1, 1, 0, 0, 0]);
    assert_eq!(res.diagnostics.not_wished, 0);
    assert_eq!(res.diagnostics.with_partner, 0);
    let x = vec![vec![false, true], vec![false, true], vec![false, false]];
    let res = auswerten(&projekte, &students, &x).unwrap();
    assert_eq!(res.zuordnung[2], record(2, 30, None));
    assert_eq!(res.diagnostics.project_loads, vec![0, 2]);
    assert_eq!(res.diagnostics.wish_hist, vec![0, 1, 0, 0, 0]);
    assert_eq!(res.diagnostics.not_wished, 1);
    assert_eq!(res.diagnostics.with_partner, 2);
    assert_eq!(auswerten(&projekte, &students, &vec![vec![false, true]]), None);
    assert_eq!(auswerten(&projekte, &students, &vec![vec![true], vec![true], vec![true]]), None);
}

#[test]
fn kinds_of_file() {
    assert_ne!(FileType::Full, FileType::Projekte);
    assert_ne!(FileType::Schueler, FileType::SchuelerListe);
}

#[test]
fn outcome_of_the_solver_is_read() {
    let d = data();
    let projekte = to_solver_projects(&d.projekte);
    let x = vec![vec![false, true], vec![true, false], vec![false, false]];
    let res = read_outcome(&projekte, &d.schueler, Ok(x.clone())).unwrap();
    assert_eq!(Some(res), auswerten(&projekte, &d.schueler, &x));
    assert_eq!(
        read_outcome(&projekte, &d.schueler, Ok(vec![vec![true, false]])),
        Err(SolveError::Other("the table has not the size of the problem".to_string()))
    );
    assert_eq!(
        read_outcome(&projekte, &d.schueler, Err(SolveError::Infeasible)),
        Err(SolveError::Infeasible)
    );
    assert_eq!(
        read_outcome(&projekte, &d.schueler, Err(SolveError::Str("kaputt".to_string()))),
        Err(SolveError::Str("kaputt".to_string()))
    );
}
