//! The lines of the tables in which projects and assignments are shown.

use crate::data::Data;
use crate::data::Projekt;
use crate::partner::text_of;
use crate::text::contains_lowercase;
use crate::text::occurs_in_lowercase;
use crate::types::Klasse;
use crate::types::ProjektId;
use crate::types::SchuelerId;
use vstd::prelude::*;

verus! {

/// How full a project is after an assignment.
#[derive(Clone, Copy, PartialEq, Eq, Debug, Structural)]
pub enum Auslastung {
    /// As many students as the upper bound allows.
    Voll,
    /// As many students as the lower bound asks for.
    Mindestanzahl,
    /// No assignment was made yet.
    KeineEinteilung,
    /// Any other number of students.
    Teilnehmer,
}

/// The number that a bound on the participants is compared with: the bound
/// itself, or, for a negative bound, the bound and two to the power of 32.
pub open spec fn bound_as_count(bound: i32) -> u32 {
    if bound >= 0 {
        bound as u32
    } else {
        (bound + 0x1_0000_0000) as u32
    }
}

/// A project as a line of the table of projects.
#[derive(Clone, Debug)]
pub struct ProjektTableLine {
    /// The position of the line before the table is sorted.
    pub original_index: usize,
    pub id: ProjektId,
    pub name: String,
    pub min_stufe: u32,
    pub max_stufe: u32,
    pub min_teilnehmer: i32,
    pub max_teilnehmer: i32,
    pub num_einteilung: Option<u32>,
}

impl ProjektTableLine {
    /// The line of the project `projekt` with the key `id`, shown at
    /// position `index`.
    pub fn from_projekt(index: usize, id: ProjektId, projekt: &Projekt) -> (r: Self)
        ensures
            r.original_index == index,
            r.id == id,
            r.name@ == projekt.name@,
            r.min_stufe == projekt.min_stufe,
            r.max_stufe == projekt.max_stufe,
            r.min_teilnehmer == projekt.min_teilnehmer,
            r.max_teilnehmer == projekt.max_teilnehmer,
            r.num_einteilung == projekt.num_einteilung,
    {
        ProjektTableLine {
            original_index: index,
            id,
            name: projekt.name.clone(),
            min_stufe: projekt.min_stufe,
            max_stufe: projekt.max_stufe,
            min_teilnehmer: projekt.min_teilnehmer,
            max_teilnehmer: projekt.max_teilnehmer,
            num_einteilung: projekt.num_einteilung,
        }
    }

    /// How full the project is: full comes before the least number, which
    /// comes before no assignment.
    pub open spec fn spec_auslastung(self) -> Auslastung {
        if self.num_einteilung == Some(bound_as_count(self.max_teilnehmer)) {
            Auslastung::Voll
        } else if self.num_einteilung == Some(bound_as_count(self.min_teilnehmer)) {
            Auslastung::Mindestanzahl
        } else if self.num_einteilung is None {
            Auslastung::KeineEinteilung
        } else {
            Auslastung::Teilnehmer
        }
    }

    /// How full the project is.
    pub fn auslastung(&self) -> (r: Auslastung)
        ensures
            r == self.spec_auslastung(),
    {
        let max: u32 = wrap(self.max_teilnehmer);
        let min: u32 = wrap(self.min_teilnehmer);
        match self.num_einteilung {
            Some(n) => {
                if n == max {
                    Auslastung::Voll
                } else if n == min {
                    Auslastung::Mindestanzahl
                } else {
                    Auslastung::Teilnehmer
                }
            },
            None => Auslastung::KeineEinteilung,
        }
    }

    /// Whether the line is shown for the search text `needle`: always where
    /// there is none, else where it stands in the name, capitals and small
    /// letters counting as the same.
    pub fn matches_search(&self, needle: Option<String>) -> (r: bool)
        ensures
            r == match needle {
                Some(n) => occurs_in_lowercase(self.name@, n@),
                None => true,
            },
    {
        match needle {
            Some(n) => contains_lowercase(self.name.as_str(), n.as_str()),
            None => true,
        }
    }
}

fn wrap(bound: i32) -> (r: u32)
    ensures
        r == bound_as_count(bound),
{
    if bound >= 0 {
        bound as u32
    } else {
        (bound as i64 + 0x1_0000_0000) as u32
    }
}

/// A record of an assignment as a line of the table of assignments.
#[derive(Clone, Debug)]
pub struct EinteilungTableLine {
    /// The position of the line before the table is sorted.
    pub original_index: usize,
    pub schueler_id: SchuelerId,
    pub schueler_klasse: Klasse,
    pub schueler_name: String,
    pub projekt_id: Option<ProjektId>,
    pub projekt_name: String,
    pub wuensche: Option<[ProjektId; 5]>,
}

/// The smallest rank from `from` on at which the wishes `w` name the project
/// `p`, or five where none does.
pub open spec fn rank_among(w: [ProjektId; 5], p: ProjektId, from: int) -> int
    decreases 5 - from,
{
    if from < 0 || from >= 5 {
        5
    } else if w[from] == p {
        from
    } else {
        rank_among(w, p, from + 1)
    }
}

impl EinteilungTableLine {
    /// Whether the student and the project of the line are known to `data`.
    pub open spec fn known(data: Data, schueler_id: SchuelerId, projekt_id: Option<ProjektId>) -> bool {
        &&& data.schueler@.contains_key(schueler_id.0)
        &&& projekt_id matches Some(p) ==> data.projekte@.contains_key(p.0)
    }

    /// The line of the student `schueler_id` with the project `projekt_id`,
    /// shown at position `idx`. `None` where `data` has no such student or no
    /// such project.
    pub fn from_data(
        data: &Data,
        idx: usize,
        schueler_id: SchuelerId,
        projekt_id: Option<ProjektId>,
    ) -> (r: Option<Self>)
        ensures
            match r {
                Some(line) => {
                    &&& Self::known(*data, schueler_id, projekt_id)
                    &&& line.original_index == idx
                    &&& line.schueler_id == schueler_id
                    &&& line.projekt_id == projekt_id
                    &&& line.schueler_klasse == data.schueler@[schueler_id.0].klasse
                    &&& line.schueler_name@ == data.schueler@[schueler_id.0].name@
                    &&& line.wuensche == data.schueler@[schueler_id.0].wishes
                    &&& line.projekt_name@ == match projekt_id {
                        Some(p) => data.projekte@[p.0].name@,
                        None => Seq::<char>::empty(),
                    }
                },
                None => !Self::known(*data, schueler_id, projekt_id),
            },
    {
        let schueler = match data.get_schueler(&schueler_id) {
            Some(s) => s,
            None => {
                return None;
            },
        };
        let projekt_name = match projekt_id {
            Some(p) => match data.get_projekt(&p) {
                Some(projekt) => projekt.name.clone(),
                None => {
                    return None;
                },
            },
            None => String::new(),
        };
        Some(
            EinteilungTableLine {
                original_index: idx,
                schueler_id,
                schueler_klasse: schueler.klasse.clone(),
                schueler_name: schueler.name.clone(),
                projekt_id,
                projekt_name,
                wuensche: schueler.wishes,
            },
        )
    }

    /// The rank of the student's wish that the project of the line meets,
    /// counted from zero, or five where it meets none. `None` where the
    /// student has no wishes.
    pub fn wunsch_rang(&self) -> (r: Option<usize>)
        ensures
            match self.wuensche {
                Some(w) => r is Some && r->0 == match self.projekt_id {
                    Some(p) => rank_among(w, p, 0),
                    None => 5,
                },
                None => r is None,
            },
    {
        let w = match self.wuensche {
            Some(w) => w,
            None => {
                return None;
            },
        };
        let p = match self.projekt_id {
            Some(p) => p,
            None => {
                return Some(5);
            },
        };
        let mut k: usize = 0;
        while k < 5
            invariant
                k <= 5,
                self.wuensche == Some(w),
                self.projekt_id == Some(p),
                rank_among(w, p, 0) == rank_among(w, p, k as int),
            decreases 5 - k,
        {
            if w[k].0 == p.0 {
                assert(w[k as int] == p);
                return Some(k);
            }
            assert(w[k as int] != p);
            k += 1;
        }
        Some(5)
    }

    /// Whether the line is shown for the search text `needle`: always where
    /// there is none, else where it stands in the name of the project or of
    /// the student, capitals and small letters counting as the same.
    pub fn matches_search(&self, needle: Option<String>) -> (r: bool)
        ensures
            r == match needle {
                Some(n) => occurs_in_lowercase(self.projekt_name@, n@) || occurs_in_lowercase(
                    self.schueler_name@,
                    n@,
                ),
                None => true,
            },
    {
        match needle {
            Some(n) => contains_lowercase(self.projekt_name.as_str(), n.as_str())
                || contains_lowercase(self.schueler_name.as_str(), n.as_str()),
            None => true,
        }
    }
}

impl PartialEq for ProjektTableLine {
    /// Two lines are the same line if they show the same project.
    fn eq(&self, other: &Self) -> (r: bool) {
        self.id.0 == other.id.0
    }
}

impl vstd::std_specs::cmp::PartialEqSpecImpl for ProjektTableLine {
    open spec fn obeys_eq_spec() -> bool {
        true
    }

    open spec fn eq_spec(&self, other: &Self) -> bool {
        self.id.0 == other.id.0
    }
}

impl PartialEq for EinteilungTableLine {
    /// Two lines are the same line if they show the same student.
    fn eq(&self, other: &Self) -> (r: bool) {
        self.schueler_id.0 == other.schueler_id.0
    }
}

impl vstd::std_specs::cmp::PartialEqSpecImpl for EinteilungTableLine {
    open spec fn obeys_eq_spec() -> bool {
        true
    }

    open spec fn eq_spec(&self, other: &Self) -> bool {
        self.schueler_id.0 == other.schueler_id.0
    }
}

/// A student as a line of the table of students.
#[derive(Clone, Debug)]
pub struct SchuelerTableLine {
    /// The position of the line before the table is sorted.
    pub original_index: usize,
    pub id: SchuelerId,
    pub klasse: Klasse,
    pub name: String,
    /// For each wish, the project and its name, where the project is known.
    pub wuensche: [Option<(ProjektId, String)>; 5],
    /// The resolved partner with name and class, where the partner is known.
    pub partner: Option<(SchuelerId, String, Klasse)>,
    pub partner_raw: Option<String>,
    pub fest: bool,
    pub ignorieren: bool,
}

impl PartialEq for SchuelerTableLine {
    /// Two lines are the same line if they show the same student.
    fn eq(&self, other: &Self) -> (r: bool) {
        self.id.0 == other.id.0
    }
}

impl vstd::std_specs::cmp::PartialEqSpecImpl for SchuelerTableLine {
    open spec fn obeys_eq_spec() -> bool {
        true
    }

    open spec fn eq_spec(&self, other: &Self) -> bool {
        self.id.0 == other.id.0
    }
}

/// The wish `p` with the name of its project, where `data` knows the project.
fn named_wish(data: &Data, p: ProjektId) -> (r: Option<(ProjektId, String)>)
    ensures
        match r {
            Some(named) => data.projekte@.contains_key(p.0) && named.0 == p && named.1@
                == data.projekte@[p.0].name@,
            None => !data.projekte@.contains_key(p.0),
        },
{
    match data.get_projekt(&p) {
        Some(projekt) => Some((p, projekt.name.clone())),
        None => None,
    }
}

impl SchuelerTableLine {
    /// Whether `named` is the wish `p` with the name of its project, or
    /// nothing where `data` does not know the project.
    pub open spec fn names(data: Data, p: ProjektId, named: Option<(ProjektId, String)>) -> bool {
        match named {
            Some(pair) => data.projekte@.contains_key(p.0) && pair.0 == p && pair.1@
                == data.projekte@[p.0].name@,
            None => !data.projekte@.contains_key(p.0),
        }
    }

    /// The line of the student `id`, shown at position `index`. `None` where
    /// `data` has no such student.
    pub fn from_data(data: &Data, index: usize, id: SchuelerId) -> (r: Option<Self>)
        ensures
            match r {
                Some(line) => {
                    &&& data.schueler@.contains_key(id.0)
                    &&& line.original_index == index
                    &&& line.id == id
                    &&& line.klasse == data.schueler@[id.0].klasse
                    &&& line.name@ == data.schueler@[id.0].name@
                    &&& text_of(line.partner_raw) == text_of(data.schueler@[id.0].partner_raw)
                    &&& line.fest == (data.schueler@[id.0].fest == Some(true))
                    &&& line.ignorieren == data.schueler@[id.0].ignore
                    &&& match data.schueler@[id.0].wishes {
                        Some(w) => forall|k: int|
                            0 <= k < 5 ==> Self::names(*data, w[k], #[trigger] line.wuensche[k]),
                        None => forall|k: int| 0 <= k < 5 ==> (#[trigger] line.wuensche[k]) is None,
                    }
                    &&& match line.partner {
                        Some(shown) => data.schueler@[id.0].partner == Some(shown.0)
                            && data.schueler@.contains_key(shown.0.0) && shown.1@
                            == data.schueler@[shown.0.0].name@ && shown.2
                            == data.schueler@[shown.0.0].klasse,
                        None => match data.schueler@[id.0].partner {
                            Some(q) => !data.schueler@.contains_key(q.0),
                            None => true,
                        },
                    }
                },
                None => !data.schueler@.contains_key(id.0),
            },
    {
        let s = match data.get_schueler(&id) {
            Some(s) => s,
            None => {
                return None;
            },
        };
        let wuensche: [Option<(ProjektId, String)>; 5] = match s.wishes {
            Some(w) => [
                named_wish(data, w[0]),
                named_wish(data, w[1]),
                named_wish(data, w[2]),
                named_wish(data, w[3]),
                named_wish(data, w[4]),
            ],
            None => [None, None, None, None, None],
        };
        let mut partner: Option<(SchuelerId, String, Klasse)> = None;
        match s.partner {
            Some(q) => {
                match data.get_schueler(&q) {
                    Some(t) => {
                        partner = Some((q, t.name.clone(), t.klasse.clone()));
                    },
                    None => {},
                }
            },
            None => {},
        }
        let partner_raw = match &s.partner_raw {
            Some(t) => Some(t.clone()),
            None => None,
        };
        let fest = match s.fest {
            Some(f) => f,
            None => false,
        };
        Some(
            SchuelerTableLine {
                original_index: index,
                id,
                klasse: s.klasse.clone(),
                name: s.name.clone(),
                wuensche,
                partner,
                partner_raw,
                fest,
                ignorieren: s.ignore,
            },
        )
    }

    /// Whether the line is shown for the search text `needle`: always where
    /// there is none, else where it stands in the name, capitals and small
    /// letters counting as the same.
    pub fn matches_search(&self, needle: Option<String>) -> (r: bool)
        ensures
            r == match needle {
                Some(n) => occurs_in_lowercase(self.name@, n@),
                None => true,
            },
    {
        match needle {
            Some(n) => contains_lowercase(self.name.as_str(), n.as_str()),
            None => true,
        }
    }
}

} // verus!
