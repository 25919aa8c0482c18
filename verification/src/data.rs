//! A project as the solver reads it, and the whole state of a project week.

use crate::types::ProjektId;
use crate::types::SaveFileKlasse;
use crate::types::SaveFileProjekt;
use crate::types::SaveFileSchueler;
use crate::types::SaveFileZuordnung;
use crate::types::SchuelerId;
use std::collections::BTreeMap;
use vstd::prelude::*;

verus! {

/// The bound on the number of participants that means "no bound".
pub const UNBEGRENZT: i32 = -1;

/// A project: its name, the grades it is open to, and how many students it
/// takes. Both ranges include their ends. A bound of `-1` on the number of
/// participants means that there is no bound on that side.
#[derive(PartialEq, Eq, Debug)]
pub struct Projekt {
    pub name: String,
    pub min_stufe: u32,
    pub max_stufe: u32,
    pub min_teilnehmer: i32,
    pub max_teilnehmer: i32,
    pub num_einteilung: Option<u32>,
}

impl Projekt {
    /// The least number of participants.
    pub fn get_min_teilnehmer(&self) -> (r: i32)
        ensures
            r == self.min_teilnehmer,
    {
        self.min_teilnehmer
    }

    /// The greatest number of participants.
    pub fn get_max_teilnehmer(&self) -> (r: i32)
        ensures
            r == self.max_teilnehmer,
    {
        self.max_teilnehmer
    }

    /// Whether the project is open to the grade `stufe`.
    pub open spec fn admits(self, stufe: u32) -> bool {
        self.min_stufe <= stufe <= self.max_stufe
    }

    /// Whether the project is open to the grade `stufe`.
    pub fn takes_stufe(&self, stufe: u32) -> (r: bool)
        ensures
            r == self.admits(stufe),
    {
        self.min_stufe <= stufe && stufe <= self.max_stufe
    }
}

impl Clone for Projekt {
    fn clone(&self) -> (r: Self)
        ensures
            r == *self,
    {
        Projekt {
            name: self.name.clone(),
            min_stufe: self.min_stufe,
            max_stufe: self.max_stufe,
            min_teilnehmer: self.min_teilnehmer,
            max_teilnehmer: self.max_teilnehmer,
            num_einteilung: self.num_einteilung,
        }
    }
}

impl From<SaveFileProjekt> for Projekt {
    fn from(val: SaveFileProjekt) -> (r: Self) {
        Projekt {
            name: val.name,
            min_stufe: val.min_stufe,
            max_stufe: val.max_stufe,
            min_teilnehmer: val.min_teilnehmer,
            max_teilnehmer: val.max_teilnehmer,
            num_einteilung: val.num_einteilung,
        }
    }
}

impl vstd::std_specs::convert::FromSpecImpl<SaveFileProjekt> for Projekt {
    open spec fn obeys_from_spec() -> bool {
        true
    }

    open spec fn from_spec(val: SaveFileProjekt) -> Self {
        Projekt {
            name: val.name,
            min_stufe: val.min_stufe,
            max_stufe: val.max_stufe,
            min_teilnehmer: val.min_teilnehmer,
            max_teilnehmer: val.max_teilnehmer,
            num_einteilung: val.num_einteilung,
        }
    }
}

/// The state of a project week: the projects and the students by their keys,
/// the assignment as far as there is one, and the classes by their grade.
#[derive(Clone, Debug, PartialEq)]
pub struct Data {
    pub projekte: BTreeMap<u32, SaveFileProjekt>,
    pub schueler: BTreeMap<u128, SaveFileSchueler>,
    pub zuordnung: Vec<SaveFileZuordnung>,
    pub klassen: BTreeMap<u32, SaveFileKlasse>,
}

/// The kinds of file that can be taken in.
#[derive(Clone, Copy, PartialEq, Eq, Debug, Structural)]
pub enum FileType {
    /// A whole stored state.
    Full,
    /// The projects.
    Projekte,
    /// The wishes of the students.
    Schueler,
    /// The list of all students.
    SchuelerListe,
}

/// How often the project `id` occurs among the first `upto` records.
pub open spec fn occurrences(zuordnung: Seq<SaveFileZuordnung>, id: u32, upto: int) -> nat
    decreases upto,
{
    if upto <= 0 {
        0
    } else if zuordnung[upto - 1].projekt == Some(ProjektId(id)) {
        occurrences(zuordnung, id, upto - 1) + 1
    } else {
        occurrences(zuordnung, id, upto - 1)
    }
}

/// The count of a project after `more` students were added to it: as before
/// where none was added, else the count before, or zero where there was none,
/// and the students added; no more than 32 bits hold.
pub open spec fn counted(before: Option<u32>, more: nat) -> Option<u32> {
    if more == 0 {
        before
    } else {
        let start: nat = match before {
            Some(n) => n as nat,
            None => 0,
        };
        if start + more > u32::MAX {
            Some(u32::MAX)
        } else {
            Some((start + more) as u32)
        }
    }
}

/// The project `p` with the count `num_einteilung`.
pub open spec fn with_count(p: SaveFileProjekt, num_einteilung: Option<u32>) -> SaveFileProjekt {
    SaveFileProjekt { num_einteilung, ..p }
}

/// The projects after the students of the first `upto` records were counted.
pub open spec fn tallied(
    projekte: Map<u32, SaveFileProjekt>,
    zuordnung: Seq<SaveFileZuordnung>,
    upto: int,
) -> Map<u32, SaveFileProjekt> {
    Map::new(
        |id: u32| projekte.contains_key(id),
        |id: u32|
            with_count(
                projekte[id],
                counted(projekte[id].num_einteilung, occurrences(zuordnung, id, upto)),
            ),
    )
}

/// Counting one more student goes on from the count so far.
pub proof fn lemma_counted_step(before: Option<u32>, more: nat)
    ensures
        counted(counted(before, more), 1) == counted(before, more + 1),
{
}

impl Data {
    /// A copy of the state.
    pub fn get(&self) -> (r: Data)
        ensures
            r.projekte@ == self.projekte@,
            r.schueler@ == self.schueler@,
            r.zuordnung@ == self.zuordnung@,
            r.klassen@ == self.klassen@,
    {
        let mut zuordnung: Vec<SaveFileZuordnung> = Vec::new();
        let mut i: usize = 0;
        while i < self.zuordnung.len()
            invariant
                i <= self.zuordnung.len(),
                zuordnung@ == self.zuordnung@.take(i as int),
            decreases self.zuordnung.len() - i,
        {
            zuordnung.push(self.zuordnung[i]);
            assert(zuordnung@ =~= self.zuordnung@.take(i + 1));
            i += 1;
        }
        assert(self.zuordnung@.take(i as int) =~= self.zuordnung@);
        Data {
            projekte: self.projekte.clone(),
            schueler: self.schueler.clone(),
            zuordnung,
            klassen: self.klassen.clone(),
        }
    }

    /// Takes in the students of a file of wishes: each replaces the student
    /// of the same key, if there is one.
    pub fn merge_schueler(&mut self, imported: BTreeMap<u128, SaveFileSchueler>)
        ensures
            final(self).schueler@ == old(self).schueler@.union_prefer_right(imported@),
            final(self).projekte@ == old(self).projekte@,
            final(self).zuordnung@ == old(self).zuordnung@,
            final(self).klassen@ == old(self).klassen@,
    {
        let ids = crate::keys::student_keys(&imported);
        let ghost before = self.schueler@;
        let mut i: usize = 0;
        while i < ids.len()
            invariant
                i <= ids.len(),
                ids@.to_set() == imported@.dom(),
                self.projekte@ == old(self).projekte@,
                self.zuordnung@ == old(self).zuordnung@,
                self.klassen@ == old(self).klassen@,
                self.schueler@ == before.union_prefer_right(
                    imported@.restrict(ids@.take(i as int).to_set()),
                ),
            decreases ids.len() - i,
        {
            let id: u128 = ids[i];
            proof {
                assert(ids@.to_set().contains(ids@[i as int]));
                assert(ids@.take(i + 1) =~= ids@.take(i as int).push(id));
                ids@.take(i as int).lemma_push_to_set_commute(id);
            }
            match imported.get(&id) {
                Some(s) => {
                    self.schueler.insert(id, s.clone());
                },
                None => {
                    assert(false);
                },
            }
            assert(self.schueler@ =~= before.union_prefer_right(
                imported@.restrict(ids@.take(i + 1).to_set()),
            ));
            i += 1;
        }
        proof {
            assert(ids@.take(i as int) =~= ids@);
            assert(imported@.restrict(ids@.to_set()) =~= imported@);
        }
    }

    /// Stores a new assignment and adds its students to the counts of their
    /// projects.
    pub fn set_zuordnung(&mut self, result: Vec<SaveFileZuordnung>)
        ensures
            final(self).zuordnung@ == result@,
            final(self).projekte@ == tallied(old(self).projekte@, result@, result@.len() as int),
            final(self).schueler@ == old(self).schueler@,
            final(self).klassen@ == old(self).klassen@,
    {
        let ghost before = self.projekte@;
        let mut i: usize = 0;
        assert(self.projekte@ =~= tallied(before, result@, 0));
        while i < result.len()
            invariant
                i <= result.len(),
                self.projekte@ == tallied(before, result@, i as int),
                self.schueler@ == old(self).schueler@,
                self.klassen@ == old(self).klassen@,
            decreases result.len() - i,
        {
            let z = result[i];
            match z.projekt {
                Some(id) => {
                    let mut changed: Option<SaveFileProjekt> = None;
                    match self.projekte.get(&id.0) {
                        Some(p) => {
                            let mut q = p.clone();
                            q.num_einteilung = match p.num_einteilung {
                                Some(n) => if n < u32::MAX {
                                    Some(n + 1)
                                } else {
                                    Some(n)
                                },
                                None => Some(1),
                            };
                            changed = Some(q);
                        },
                        None => {},
                    }
                    match changed {
                        Some(q) => {
                            proof {
                                lemma_counted_step(
                                    before[id.0].num_einteilung,
                                    occurrences(result@, id.0, i as int),
                                );
                            }
                            self.projekte.insert(id.0, q);
                        },
                        None => {},
                    }
                },
                None => {},
            }
            assert(self.projekte@ =~= tallied(before, result@, i + 1));
            i += 1;
        }
        self.zuordnung = result;
    }

    /// The student with the key `schueler_id`.
    pub fn get_schueler(&self, schueler_id: &SchuelerId) -> (r: Option<&SaveFileSchueler>)
        ensures
            match r {
                Some(s) => self.schueler@.contains_key(schueler_id.0) && *s
                    == self.schueler@[schueler_id.0],
                None => !self.schueler@.contains_key(schueler_id.0),
            },
    {
        self.schueler.get(&schueler_id.0)
    }

    /// The project with the key `projekt_id`.
    pub fn get_projekt(&self, projekt_id: &ProjektId) -> (r: Option<&SaveFileProjekt>)
        ensures
            match r {
                Some(p) => self.projekte@.contains_key(projekt_id.0) && *p
                    == self.projekte@[projekt_id.0],
                None => !self.projekte@.contains_key(projekt_id.0),
            },
    {
        self.projekte.get(&projekt_id.0)
    }
}

} // verus!
