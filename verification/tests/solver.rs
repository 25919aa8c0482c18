use projekttage::data::Projekt;
use projekttage::einteilung::solve_task;
use projekttage::solver::backend::is_above_half;
use projekttage::solver::backend::table_of_values;
use projekttage::solver::backend::SolveError;
use projekttage::solver::formulate::formulate;
use projekttage::solver::model::Relation;
use projekttage::solver::pruefung::assignment_score;
use projekttage::solver::pruefung::check_assignment;
use projekttage::solver::pruefung::is_local_optimum;
use projekttage::solver::keep_valid;
use projekttage::solver::solve_checked;
use projekttage::solver::solve_good_lp;
use projekttage::types::Klasse;
use projekttage::types::ProjektId;
use projekttage::types::SaveFileProjekt;
use projekttage::types::SaveFileSchueler;
use projekttage::types::SchuelerId;
use projekttage::Data;
use std::collections::BTreeMap;

fn projekt(name: &str, stufen: (u32, u32), teilnehmer: (i32, i32)) -> Projekt {
    Projekt {
        name: name.to_string(),
        min_stufe: stufen.0,
        max_stufe: stufen.1,
        min_teilnehmer: teilnehmer.0,
        max_teilnehmer: teilnehmer.1,
        num_einteilung: None,
    }
}

fn wishes(first: u32, second: u32) -> Option<[ProjektId; 5]> {
    Some([
        ProjektId::new(first),
        ProjektId::new(second),
        ProjektId::none(),
        ProjektId::none(),
        ProjektId::none(),
    ])
}

fn schueler(name: &str, klasse: &str, wishes: Option<[ProjektId; 5]>) -> SaveFileSchueler {
    SaveFileSchueler {
        uid: 0,
        name: name.to_string(),
        wishes,
        partner_raw: None,
        ignore: false,
        fest: Some(false),
        klasse: Klasse::new(klasse.to_string()),
        partner: None,
    }
}

fn two_projects(first: Projekt, second: Projekt) -> BTreeMap<u32, Projekt> {
    let mut projects = BTreeMap::new();
    projects.insert(0, first);
    projects.insert(1, second);
    projects
}

fn project_of(row: &[bool]) -> Option<usize> {
    row.iter().position(|b| *b)
}

fn count(row: &[bool]) -> usize {
    row.iter().filter(|b| **b).count()
}

#[test]
fn single_student_gets_first_wish() {
    let projects = two_projects(projekt("Theater", (5, 10), (0, 10)), projekt("Chor", (5, 10), (0, 10)));
    let mut students = BTreeMap::new();
    students.insert(1, schueler("Ada", "7a", wishes(0, 1)));
    let x = solve_good_lp(&projects, &students, &BTreeMap::new()).unwrap();
    assert_eq!(x, vec![vec![true, false]]);
}

#[test]
fn grade_excludes_first_wish() {
    let projects = two_projects(projekt("Theater", (5, 7), (0, 10)), projekt("Chor", (8, 10), (0, 10)));
    let mut students = BTreeMap::new();
    students.insert(1, schueler("Ada", "10b", wishes(0, 1)));
    let x = solve_good_lp(&projects, &students, &BTreeMap::new()).unwrap();
    assert_eq!(x, vec![vec![false, true]]);
}

#[test]
fn capacity_forces_second_choice() {
    let projects = two_projects(projekt("Theater", (5, 10), (0, 1)), projekt("Chor", (5, 10), (0, 10)));
    let mut students = BTreeMap::new();
    students.insert(1, schueler("A", "7a", wishes(0, 1)));
    students.insert(2, schueler("B", "7a", wishes(0, 1)));
    let x = solve_good_lp(&projects, &students, &BTreeMap::new()).unwrap();
    assert_eq!(x.len(), 2);
    assert_eq!(count(&x[0]), 1);
    assert_eq!(count(&x[1]), 1);
    let a = project_of(&x[0]).unwrap();
    let b = project_of(&x[1]).unwrap();
    assert_ne!(a, b);
    assert!(check_assignment(&projects, &students, &BTreeMap::new(), &x));
    assert_eq!(assignment_score(&projects, &students, &x), Some(9));
}

#[test]
fn mutual_partners_share_a_project() {
    let projects = two_projects(projekt("Theater", (5, 10), (0, 5)), projekt("Chor", (5, 10), (0, 5)));
    let mut a = schueler("A", "7a", wishes(0, 1));
    let mut b = schueler("B", "7a", wishes(1, 0));
    a.partner = Some(SchuelerId::new(2));
    b.partner = Some(SchuelerId::new(1));
    let mut students = BTreeMap::new();
    students.insert(1, a);
    students.insert(2, b);
    let x = solve_good_lp(&projects, &students, &BTreeMap::new()).unwrap();
    assert_eq!(count(&x[0]), 1);
    assert_eq!(count(&x[1]), 1);
    assert_eq!(project_of(&x[0]), project_of(&x[1]));
    assert!(check_assignment(&projects, &students, &BTreeMap::new(), &x));
    assert_eq!(assignment_score(&projects, &students, &x), Some(5 + 4 + 2));
}

#[test]
fn one_sided_partner_wish_earns_nothing() {
    let projects = two_projects(projekt("Theater", (5, 10), (0, 5)), projekt("Chor", (5, 10), (0, 5)));
    let mut a = schueler("A", "7a", wishes(0, 1));
    let b = schueler("B", "7a", wishes(1, 0));
    a.partner = Some(SchuelerId::new(2));
    let mut students = BTreeMap::new();
    students.insert(1, a);
    students.insert(2, b);
    let model = formulate(&projects, &students, &BTreeMap::new());
    assert_eq!(model.paare, 0);
    let x = solve_good_lp(&projects, &students, &BTreeMap::new()).unwrap();
    assert_eq!(x, vec![vec![true, false], vec![false, true]]);
}

#[test]
fn fest_overrides_grade() {
    let mut projects = BTreeMap::new();
    projects.insert(0, projekt("Theater", (5, 10), (0, 10)));
    projects.insert(1, projekt("Chor", (5, 10), (0, 10)));
    projects.insert(2, projekt("Robotik", (5, 6), (0, 10)));
    let mut c = schueler("C", "10a", wishes(2, 0));
    c.fest = Some(true);
    let mut students = BTreeMap::new();
    students.insert(7, c);
    let x = solve_good_lp(&projects, &students, &BTreeMap::new()).unwrap();
    assert_eq!(x, vec![vec![false, false, true]]);
}

#[test]
fn fixed_assignment_is_honored() {
    let projects = two_projects(projekt("Theater", (5, 10), (0, 10)), projekt("Chor", (5, 6), (0, 10)));
    let mut students = BTreeMap::new();
    students.insert(1, schueler("Ada", "9a", wishes(0, 1)));
    let mut fixed = BTreeMap::new();
    fixed.insert(1, ProjektId::new(1));
    let x = solve_good_lp(&projects, &students, &fixed).unwrap();
    assert_eq!(x, vec![vec![false, true]]);
}

#[test]
fn ignored_student_gets_no_project() {
    let projects = two_projects(projekt("Theater", (5, 10), (0, 10)), projekt("Chor", (5, 10), (0, 10)));
    let mut a = schueler("A", "7a", wishes(0, 1));
    a.ignore = true;
    let mut students = BTreeMap::new();
    students.insert(1, a);
    students.insert(2, schueler("B", "7a", wishes(1, 0)));
    let x = solve_good_lp(&projects, &students, &BTreeMap::new()).unwrap();
    assert_eq!(x, vec![vec![false, false], vec![false, true]]);
}

#[test]
fn fest_student_adds_to_capacity() {
    let projects = two_projects(projekt("Theater", (5, 10), (0, 1)), projekt("Chor", (5, 10), (0, 10)));
    let mut a = schueler("A", "7a", wishes(0, 1));
    a.fest = Some(true);
    let mut students = BTreeMap::new();
    students.insert(1, a);
    students.insert(2, schueler("B", "7a", wishes(0, 1)));
    let x = solve_good_lp(&projects, &students, &BTreeMap::new()).unwrap();
    assert_eq!(x, vec![vec![true, false], vec![true, false]]);
}

#[test]
fn unmet_minimum_is_infeasible() {
    let projects = two_projects(projekt("Theater", (5, 10), (2, 10)), projekt("Chor", (5, 10), (2, 10)));
    let mut students = BTreeMap::new();
    students.insert(1, schueler("A", "7a", wishes(0, 1)));
    let r = solve_good_lp(&projects, &students, &BTreeMap::new());
    assert_eq!(r, Err(SolveError::Infeasible));
}

#[test]
fn conflicting_pins_are_infeasible() {
    let projects = two_projects(projekt("Theater", (5, 10), (0, 10)), projekt("Chor", (5, 10), (0, 10)));
    let mut a = schueler("A", "7a", wishes(0, 1));
    a.fest = Some(true);
    let mut students = BTreeMap::new();
    students.insert(1, a);
    let mut fixed = BTreeMap::new();
    fixed.insert(1, ProjektId::new(1));
    let r = solve_good_lp(&projects, &students, &fixed);
    assert_eq!(r, Err(SolveError::Infeasible));
}

#[test]
fn program_of_one_student_and_two_projects() {
    let projects = two_projects(projekt("Theater", (5, 7), (3, 10)), projekt("Chor", (8, 10), (-1, -1)));
    let mut students = BTreeMap::new();
    students.insert(1, schueler("Ada", "10b", wishes(0, 1)));
    let model = formulate(&projects, &students, &BTreeMap::new());
    assert_eq!(model.schueler, 1);
    assert_eq!(model.projekte, 2);
    assert_eq!(model.paare, 0);
    assert_eq!(model.objective.len(), 2);
    assert_eq!(model.objective[0].coeff, 5);
    assert_eq!(model.objective[1].coeff, 4);
    // one project each, one upper bound, one lower bound, one closed project
    assert_eq!(model.constraints.len(), 4);
    assert_eq!(model.constraints[0].relation, Relation::Eq);
    assert_eq!(model.constraints[0].rhs, 1);
    assert_eq!(model.constraints[1].relation, Relation::Le);
    assert_eq!(model.constraints[1].rhs, 10);
    assert_eq!(model.constraints[2].relation, Relation::Ge);
    assert_eq!(model.constraints[2].rhs, 3);
    assert_eq!(model.constraints[3].relation, Relation::Eq);
    assert_eq!(model.constraints[3].rhs, 0);
}

#[test]
fn task_resolves_partners_and_counts() {
    let mut projekte = BTreeMap::new();
    for (id, name) in [(0u32, "Theater"), (1u32, "Chor")] {
        projekte.insert(
            id,
            SaveFileProjekt {
                name: name.to_string(),
                min_teilnehmer: 0,
                max_teilnehmer: 5,
                min_stufe: 5,
                max_stufe: 10,
                ignore: false,
                num_einteilung: None,
            },
        );
    }
    let mut a = schueler("Anna Meier", "9a", wishes(0, 1));
    let mut b = schueler("Ben Schulz", "9a", wishes(1, 0));
    a.partner_raw = Some("Ben Schulz 9a".to_string());
    b.partner_raw = Some("Anna Meier".to_string());
    let mut students = BTreeMap::new();
    students.insert(10, a);
    students.insert(20, b);
    let data = Data { projekte, schueler: students, zuordnung: Vec::new(), klassen: BTreeMap::new() };
    let res = solve_task(data).unwrap();
    assert_eq!(res.zuordnung.len(), 2);
    assert_eq!(res.zuordnung[0].id, 0);
    assert_eq!(res.zuordnung[0].schueler, SchuelerId::new(10));
    assert_eq!(res.zuordnung[1].id, 1);
    assert_eq!(res.zuordnung[1].schueler, SchuelerId::new(20));
    assert!(res.zuordnung[0].projekt.is_some());
    assert_eq!(res.zuordnung[0].projekt, res.zuordnung[1].projekt);
    assert_eq!(res.diagnostics.with_partner, 2);
    assert_eq!(res.diagnostics.not_wished, 0);
    assert_eq!(res.diagnostics.wish_hist.iter().sum::<usize>(), 2);
    assert_eq!(res.diagnostics.wish_hist[0], 1);
    assert_eq!(res.diagnostics.wish_hist[1], 1);
    assert_eq!(res.diagnostics.project_loads.iter().sum::<usize>(), 2);
}

fn school() -> (BTreeMap<u32, Projekt>, BTreeMap<u128, SaveFileSchueler>) {
    let mut projects = BTreeMap::new();
    projects.insert(3, projekt("Theater", (5, 10), (1, 2)));
    projects.insert(5, projekt("Chor", (5, 7), (-1, 2)));
    projects.insert(8, projekt("Robotik", (8, 13), (0, -1)));
    let mut students = BTreeMap::new();
    let ids = [ProjektId::new(3), ProjektId::new(5), ProjektId::new(8)];
    let order = [[0, 1, 2], [1, 0, 2], [2, 0, 1], [0, 2, 1], [1, 2, 0], [2, 1, 0]];
    let classes = ["5a", "6b", "KS1", "9c", "7a", "KS2"];
    for (i, klasse) in classes.iter().enumerate() {
        let o = order[i];
        let w = Some([ids[o[0]], ids[o[1]], ids[o[2]], ProjektId::none(), ProjektId::new(77)]);
        students.insert(100 + i as u128, schueler("S", klasse, w));
    }
    students.get_mut(&100).unwrap().partner = Some(SchuelerId::new(104));
    students.get_mut(&104).unwrap().partner = Some(SchuelerId::new(100));
    students.get_mut(&101).unwrap().partner = Some(SchuelerId::new(102));
    students.get_mut(&105).unwrap().ignore = true;
    students.get_mut(&103).unwrap().fest = Some(true);
    (projects, students)
}

#[test]
fn solution_is_a_valid_assignment() {
    let (projects, students) = school();
    let fixed = BTreeMap::new();
    let x = solve_good_lp(&projects, &students, &fixed).unwrap();
    assert!(check_assignment(&projects, &students, &fixed, &x));
    // every student who takes part has one project, the other has none
    for (i, s) in students.values().enumerate() {
        assert_eq!(count(&x[i]), if s.ignore { 0 } else { 1 });
    }
    // bounds: Theater 1..2 and one pinned student, Chor ..2
    let load = |j: usize| x.iter().filter(|row| row[j]).count();
    assert!(load(0) >= 1 && load(0) <= 2 + 1);
    assert!(load(1) <= 2);
    // grades: nobody above grade 7 sings, nobody below grade 8 builds robots
    assert!(!x[2][1] && !x[3][1]);
    assert!(!x[0][2] && !x[1][2] && !x[4][2]);
    // the pinned student is in the first wish
    assert!(x[3][0]);
}

#[test]
fn no_single_move_is_better() {
    let (projects, students) = school();
    let fixed = BTreeMap::new();
    let x = solve_good_lp(&projects, &students, &fixed).unwrap();
    let best = assignment_score(&projects, &students, &x).unwrap();
    for i in 0..x.len() {
        for j in 0..x[i].len() {
            let mut y = x.clone();
            for entry in y[i].iter_mut() {
                *entry = false;
            }
            y[i][j] = true;
            if check_assignment(&projects, &students, &fixed, &y) {
                assert!(assignment_score(&projects, &students, &y).unwrap() <= best);
            }
        }
    }
}

#[test]
fn solution_is_a_local_optimum() {
    let (projects, students) = school();
    let fixed = BTreeMap::new();
    let x = solve_good_lp(&projects, &students, &fixed).unwrap();
    assert!(is_local_optimum(&projects, &students, &fixed, &x));
    // everyone in the last project that is open to them is valid, but worse
    let two = two_projects(projekt("Theater", (5, 10), (0, 10)), projekt("Chor", (5, 10), (0, 10)));
    let mut one = BTreeMap::new();
    one.insert(1, schueler("A", "7a", wishes(0, 1)));
    assert!(check_assignment(&two, &one, &fixed, &vec![vec![false, true]]));
    assert!(!is_local_optimum(&two, &one, &fixed, &vec![vec![false, true]]));
    assert!(is_local_optimum(&two, &one, &fixed, &vec![vec![true, false]]));
    assert!(!is_local_optimum(&two, &one, &fixed, &vec![vec![true]]));
    // a move that is not valid does not count
    let mut pinned = BTreeMap::new();
    pinned.insert(1, ProjektId::new(1));
    assert!(is_local_optimum(&two, &one, &pinned, &vec![vec![false, true]]));
}

#[test]
fn checked_solution_is_the_solution() {
    let (projects, students) = school();
    let mut fixed = BTreeMap::new();
    fixed.insert(104, ProjektId::new(8));
    let x = solve_checked(&projects, &students, &fixed).unwrap();
    assert!(x[4][2]);
    assert_eq!(solve_good_lp(&projects, &students, &fixed).map(|y| check_assignment(&projects, &students, &fixed, &y)), Ok(true));
    let none = two_projects(projekt("Theater", (5, 10), (2, 10)), projekt("Chor", (5, 10), (2, 10)));
    let mut one = BTreeMap::new();
    one.insert(1, schueler("A", "7a", wishes(0, 1)));
    assert_eq!(solve_checked(&none, &one, &BTreeMap::new()), Err(SolveError::Infeasible));
}

#[test]
fn checker_rejects_what_is_not_valid() {
    let projects = two_projects(projekt("Theater", (5, 7), (0, 1)), projekt("Chor", (8, 10), (1, 10)));
    let mut students = BTreeMap::new();
    students.insert(1, schueler("A", "6a", wishes(0, 1)));
    students.insert(2, schueler("B", "9a", wishes(0, 1)));
    let none = BTreeMap::new();
    let ok = vec![vec![true, false], vec![false, true]];
    assert!(check_assignment(&projects, &students, &none, &ok));
    // wrong size
    assert!(!check_assignment(&projects, &students, &none, &vec![vec![true, false]]));
    assert!(!check_assignment(&projects, &students, &none, &vec![vec![true], vec![true]]));
    // two projects for one student, or none
    assert!(!check_assignment(&projects, &students, &none, &vec![vec![true, true], vec![false, true]]));
    assert!(!check_assignment(&projects, &students, &none, &vec![vec![false, false], vec![false, true]]));
    // grade
    assert!(!check_assignment(&projects, &students, &none, &vec![vec![false, true], vec![false, true]]));
    // upper bound of the first project and lower bound of the second
    let mut same_grade = students.clone();
    same_grade.get_mut(&2).unwrap().klasse = Klasse::new("7b".to_string());
    assert!(!check_assignment(&projects, &same_grade, &none, &vec![vec![true, false], vec![true, false]]));
    // a pinned student counts on top of the upper bound
    same_grade.get_mut(&2).unwrap().klasse = Klasse::new("x".to_string());
    same_grade.get_mut(&1).unwrap().fest = Some(true);
    let open = two_projects(projekt("Theater", (5, 7), (0, 1)), projekt("Chor", (8, 10), (0, 10)));
    assert!(check_assignment(&open, &same_grade, &none, &vec![vec![true, false], vec![true, false]]));
    // pinned and fixed
    assert!(!check_assignment(&open, &same_grade, &none, &vec![vec![false, true], vec![true, false]]));
    let mut fixed = BTreeMap::new();
    fixed.insert(2, ProjektId::new(1));
    assert!(!check_assignment(&open, &same_grade, &fixed, &vec![vec![true, false], vec![true, false]]));
    assert!(check_assignment(&open, &same_grade, &fixed, &vec![vec![true, false], vec![false, true]]));
}

#[test]
fn score_counts_wishes_and_pairs() {
    let (projects, students) = school();
    // 100: Theater (5), 101: Theater (4), 102: Robotik (5), 103: Robotik (4),
    // 104: Theater (3), 105: none; 100 and 104 are a pair
    let x = vec![
        vec![true, false, false],
        vec![true, false, false],
        vec![false, false, true],
        vec![false, false, true],
        vec![true, false, false],
        vec![false, false, false],
    ];
    assert_eq!(assignment_score(&projects, &students, &x), Some(5 + 4 + 5 + 4 + 3 + 2));
    assert_eq!(assignment_score(&projects, &students, &vec![vec![true]]), None);
    let model = formulate(&projects, &students, &BTreeMap::new());
    assert_eq!(model.paare, 1);
    assert_eq!(model.schueler, 6);
    assert_eq!(model.projekte, 3);
    // a wish for "no project" or for an unknown project earns nothing
    assert_eq!(model.objective.len(), 6 * 3 + 1);
}

#[test]
fn more_than_one_half() {
    assert!(is_above_half(1.0f64.to_bits()));
    assert!(is_above_half(0.75f64.to_bits()));
    assert!(is_above_half(0.5000000000000001f64.to_bits()));
    assert!(is_above_half(f64::INFINITY.to_bits()));
    assert!(is_above_half(1e300f64.to_bits()));
    assert!(!is_above_half(0.5f64.to_bits()));
    assert!(!is_above_half(0.0f64.to_bits()));
    assert!(!is_above_half((-0.0f64).to_bits()));
    assert!(!is_above_half((-1.0f64).to_bits()));
    assert!(!is_above_half(f64::NEG_INFINITY.to_bits()));
    assert!(!is_above_half(f64::NAN.to_bits()));
    assert!(!is_above_half(0.49999999999999994f64.to_bits()));
    for v in [0.0f64, 0.25, 0.5, 0.50001, 0.9, 1.0, 2.0, -3.5, 1e-310, f64::MAX, f64::MIN_POSITIVE] {
        assert_eq!(is_above_half(v.to_bits()), v > 0.5);
    }
}

#[test]
fn unknown_grade_is_not_bound() {
    let projects = two_projects(projekt("Theater", (5, 7), (0, 10)), projekt("Chor", (8, 10), (0, 10)));
    let mut students = BTreeMap::new();
    students.insert(1, schueler("Ada", "Lehrer", wishes(1, 0)));
    students.insert(2, schueler("Bea", "6a", wishes(1, 0)));
    let x = solve_good_lp(&projects, &students, &BTreeMap::new()).unwrap();
    assert_eq!(x, vec![vec![false, true], vec![true, false]]);
}

#[test]
fn values_become_a_table() {
    let values = vec![
        vec![1.0f64.to_bits(), 0.0f64.to_bits(), 0.5f64.to_bits()],
        vec![],
        vec![0.51f64.to_bits(), f64::NAN.to_bits(), (-1.0f64).to_bits()],
    ];
    assert_eq!(
        table_of_values(&values),
        vec![vec![true, false, false], vec![], vec![true, false, false]]
    );
    assert_eq!(table_of_values(&Vec::new()), Vec::<Vec<bool>>::new());
}

#[test]
fn only_a_valid_table_is_handed_on() {
    let projects = two_projects(projekt("Theater", (5, 7), (0, 1)), projekt("Chor", (8, 10), (0, 10)));
    let mut students = BTreeMap::new();
    students.insert(1, schueler("A", "6a", wishes(0, 1)));
    students.insert(2, schueler("B", "9a", wishes(0, 1)));
    let fixed = BTreeMap::new();
    let good = vec![vec![true, false], vec![false, true]];
    assert_eq!(keep_valid(&projects, &students, &fixed, Ok(good.clone())), Ok(good));
    let open = two_projects(projekt("Theater", (5, 10), (0, 5)), projekt("Chor", (5, 10), (0, 5)));
    let second_best = vec![vec![false, true], vec![true, false]];
    assert_eq!(
        keep_valid(&open, &students, &fixed, Ok(second_best)),
        Err(SolveError::Other("the solver gave no best assignment".to_string()))
    );
    let best = vec![vec![true, false], vec![true, false]];
    assert_eq!(keep_valid(&open, &students, &fixed, Ok(best.clone())), Ok(best));
    let rejected = Err(SolveError::Other("the solver gave no valid assignment".to_string()));
    let wrong_grade = vec![vec![false, true], vec![false, true]];
    assert_eq!(keep_valid(&projects, &students, &fixed, Ok(wrong_grade)), rejected);
    assert_eq!(keep_valid(&projects, &students, &fixed, Ok(vec![vec![true, false]])), rejected);
    assert_eq!(keep_valid(&projects, &students, &fixed, Ok(Vec::new())), rejected);
    for e in [
        SolveError::Infeasible,
        SolveError::Unbounded,
        SolveError::Other("x".to_string()),
        SolveError::Str("y".to_string()),
    ] {
        assert_eq!(keep_valid(&projects, &students, &fixed, Err(e.clone())), Err(e));
    }
}
