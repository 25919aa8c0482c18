//! The file in which the students' wishes arrive.

use crate::text::before_colon;
use crate::text::before_colon_of;
use crate::text::parse_u32;
use crate::text::unsigned_value;
use crate::types::klasse::Klasse;
use crate::types::projekt_id::id_of_number;
use crate::types::projekt_id::signed_value;
use crate::types::projekt_id::ProjektId;
use crate::types::save_file::SaveFileSchueler;
use crate::types::schueler_id::SchuelerId;
use std::collections::BTreeMap;
use vstd::prelude::*;

verus! {

/// Why a file of students could not be taken in.
#[derive(Clone, Copy, PartialEq, Eq, Debug, Structural)]
pub enum ImportError {
    /// The number of a student is no whole number.
    Uid,
    /// A wish does not begin with a whole number.
    Wunsch,
    /// The login name of a student is no UUID.
    Anmeldename,
}

/// One student's answers. A wish reads `<number> : <label>`, where the number
/// is the project's number as it is shown.
#[derive(Clone, PartialEq, Eq, Debug)]
pub struct Schueler {
    pub antworten: String,
    pub anmeldename: SchuelerId,
    pub vollstndigername: String,
    pub gruppe: String,
    pub q01_erstwunsch: Option<String>,
    pub q02_zweitwunsch: Option<String>,
    pub q03_drittwunsch: Option<String>,
    pub q04_viertwunsch: Option<String>,
    pub q05_fnftwunsch: Option<String>,
    pub q06_wunschpartner: Option<String>,
}

/// The answers of all students.
#[derive(Clone, PartialEq, Eq, Debug)]
pub struct SchuelerFile(pub Vec<Schueler>);

/// The project that a wish names: the number before the first ` : `, less
/// one, wrapping round below zero; a negative number counts as "no project"
/// before one is taken off. `None` where there is no whole number.
pub open spec fn wish_project(wish: Seq<char>) -> Option<ProjektId> {
    match signed_value(before_colon(wish)) {
        Some(v) => Some(
            ProjektId(
                if id_of_number(v).0 >= 1 {
                    (id_of_number(v).0 - 1) as u32
                } else {
                    0xffff_ffffu32
                },
            ),
        ),
        None => None,
    }
}

/// Reads the project that a wish names.
pub fn parse_wish(wish: &str) -> (r: Option<ProjektId>)
    ensures
        r == wish_project(wish@),
{
    match ProjektId::parse(before_colon_of(wish)) {
        Some(id) => Some(id.sub(1)),
        None => None,
    }
}

/// The characters of an optional text.
pub open spec fn chars(t: Option<String>) -> Option<Seq<char>> {
    match t {
        Some(s) => Some(s@),
        None => None,
    }
}

impl Schueler {
    /// The five wishes as they were written, where all five were given.
    pub open spec fn written_wishes(self) -> Option<Seq<Seq<char>>> {
        match (
            self.q01_erstwunsch,
            self.q02_zweitwunsch,
            self.q03_drittwunsch,
            self.q04_viertwunsch,
            self.q05_fnftwunsch,
        ) {
            (Some(a), Some(b), Some(c), Some(d), Some(e)) => Some(seq![a@, b@, c@, d@, e@]),
            _ => None,
        }
    }

    /// Whether `wishes` are the wishes of this student: none where not all
    /// five were given, else the project of each.
    pub open spec fn has_wishes(self, wishes: Option<[ProjektId; 5]>) -> bool {
        match self.written_wishes() {
            Some(written) => {
                &&& wishes is Some
                &&& forall|k: int|
                    0 <= k < 5 ==> wish_project(#[trigger] written[k]) == Some(wishes->0[k])
            },
            None => wishes is None,
        }
    }

    /// Whether one of the five wishes is given and names no project.
    pub open spec fn has_bad_wish(self) -> bool {
        match self.written_wishes() {
            Some(written) => exists|k: int| 0 <= k < 5 && wish_project(#[trigger] written[k]) is None,
            None => false,
        }
    }

    /// The wishes of this student.
    pub fn get_wuensche(&self) -> (r: Result<Option<[ProjektId; 5]>, ImportError>)
        ensures
            match r {
                Ok(wishes) => !self.has_bad_wish() && self.has_wishes(wishes),
                Err(e) => self.has_bad_wish() && e == ImportError::Wunsch,
            },
    {
        match (
            &self.q01_erstwunsch,
            &self.q02_zweitwunsch,
            &self.q03_drittwunsch,
            &self.q04_viertwunsch,
            &self.q05_fnftwunsch,
        ) {
            (Some(a), Some(b), Some(c), Some(d), Some(e)) => {
                let ghost written = seq![a@, b@, c@, d@, e@];
                assert(self.written_wishes() == Some(written));
                match (
                    parse_wish(a.as_str()),
                    parse_wish(b.as_str()),
                    parse_wish(c.as_str()),
                    parse_wish(d.as_str()),
                    parse_wish(e.as_str()),
                ) {
                    (Some(first), Some(second), Some(third), Some(fourth), Some(fifth)) => {
                        let wishes = [first, second, third, fourth, fifth];
                        assert(wish_project(written[0]) == Some(wishes[0]));
                        assert(wish_project(written[1]) == Some(wishes[1]));
                        assert(wish_project(written[2]) == Some(wishes[2]));
                        assert(wish_project(written[3]) == Some(wishes[3]));
                        assert(wish_project(written[4]) == Some(wishes[4]));
                        Ok(Some(wishes))
                    },
                    (w1, w2, w3, w4, w5) => {
                        proof {
                            if w1 is None {
                                assert(wish_project(written[0]) is None);
                            } else if w2 is None {
                                assert(wish_project(written[1]) is None);
                            } else if w3 is None {
                                assert(wish_project(written[2]) is None);
                            } else if w4 is None {
                                assert(wish_project(written[3]) is None);
                            } else {
                                assert(wish_project(written[4]) is None);
                            }
                        }
                        Err(ImportError::Wunsch)
                    },
                }
            },
            _ => Ok(None),
        }
    }

    /// Whether `s` is the roster entry that these answers come to: the
    /// student takes part, is not pinned, and has no resolved partner yet.
    pub open spec fn comes_to(self, s: SaveFileSchueler) -> bool {
        &&& unsigned_value(self.antworten@) == Some(s.uid)
        &&& s.name@ == self.vollstndigername@
        &&& self.has_wishes(s.wishes)
        &&& chars(s.partner_raw) == chars(self.q06_wunschpartner)
        &&& !s.ignore
        &&& s.fest == Some(false)
        &&& s.klasse.0@ == self.gruppe@
        &&& s.partner is None
    }

    /// What is wrong with these answers, if anything: the number first, then
    /// the wishes.
    pub open spec fn fault(self) -> Option<ImportError> {
        if unsigned_value(self.antworten@) is None {
            Some(ImportError::Uid)
        } else if self.has_bad_wish() {
            Some(ImportError::Wunsch)
        } else {
            None
        }
    }

    /// Turns these answers into a roster entry.
    pub fn to_schueler(&self) -> (r: Result<SaveFileSchueler, ImportError>)
        ensures
            match r {
                Ok(s) => self.fault() is None && self.comes_to(s),
                Err(e) => self.fault() == Some(e),
            },
    {
        let uid = match parse_u32(self.antworten.as_str()) {
            Some(uid) => uid,
            None => {
                return Err(ImportError::Uid);
            },
        };
        let wishes = match self.get_wuensche() {
            Ok(w) => w,
            Err(e) => {
                return Err(e);
            },
        };
        let partner_raw = match &self.q06_wunschpartner {
            Some(t) => Some(t.clone()),
            None => None,
        };
        Ok(
            SaveFileSchueler {
                uid,
                name: self.vollstndigername.clone(),
                wishes,
                partner_raw,
                ignore: false,
                fest: Some(false),
                klasse: Klasse::new(self.gruppe.clone()),
                partner: None,
            },
        )
    }
}

impl SchuelerFile {
    /// Whether `roster` is what the answers come to: an entry for each login
    /// name, made from the last answers under that name.
    pub open spec fn comes_to(self, roster: Map<u128, SaveFileSchueler>) -> bool {
        &&& forall|id: u128|
            roster.contains_key(id) <==> exists|i: int|
                0 <= i < self.0@.len() && (#[trigger] self.0@[i]).anmeldename.0 == id
        &&& forall|i: int|
            0 <= i < self.0@.len() && (forall|j: int|
                i < j < self.0@.len() ==> self.0@[j].anmeldename != self.0@[i].anmeldename) ==> (
            #[trigger] self.0@[i]).comes_to(roster[self.0@[i].anmeldename.0])
    }

    /// Whether `i` is the first position with answers that something is
    /// wrong with.
    pub open spec fn first_fault(self, i: int) -> bool {
        &&& 0 <= i < self.0@.len()
        &&& self.0@[i].fault() is Some
        &&& forall|j: int| 0 <= j < i ==> (#[trigger] self.0@[j]).fault() is None
    }

    /// Turns the answers into roster entries by login name. Where something
    /// is wrong with the answers of a student, the first such fault is
    /// returned.
    pub fn to_roster(&self) -> (r: Result<BTreeMap<u128, SaveFileSchueler>, ImportError>)
        ensures
            match r {
                Ok(roster) => self.comes_to(roster@) && forall|i: int|
                    0 <= i < self.0@.len() ==> (#[trigger] self.0@[i]).fault() is None,
                Err(e) => exists|i: int| #[trigger] self.first_fault(i) && self.0@[i].fault() == Some(e),
            },
    {
        let mut roster: BTreeMap<u128, SaveFileSchueler> = BTreeMap::new();
        let mut k: usize = 0;
        while k < self.0.len()
            invariant
                k <= self.0.len(),
                forall|j: int| 0 <= j < k ==> (#[trigger] self.0@[j]).fault() is None,
                forall|id: u128|
                    roster@.contains_key(id) <==> exists|i: int|
                        0 <= i < k && (#[trigger] self.0@[i]).anmeldename.0 == id,
                forall|i: int|
                    0 <= i < k && (forall|j: int|
                        i < j < k ==> self.0@[j].anmeldename != self.0@[i].anmeldename) ==> (
                    #[trigger] self.0@[i]).comes_to(roster@[self.0@[i].anmeldename.0]),
            decreases self.0.len() - k,
        {
            let row = &self.0[k];
            let ghost before = roster@;
            match row.to_schueler() {
                Ok(s) => {
                    roster.insert(row.anmeldename.0, s);
                    proof {
                        assert forall|id: u128|
                            roster@.contains_key(id) <==> exists|i: int|
                                0 <= i < k + 1 && (#[trigger] self.0@[i]).anmeldename.0 == id by {
                            if roster@.contains_key(id) {
                                if id == row.anmeldename.0 {
                                    assert(self.0@[k as int].anmeldename.0 == id);
                                } else {
                                    assert(before.contains_key(id));
                                }
                            }
                        }
                        assert forall|i: int|
                            0 <= i < k + 1 && (forall|j: int|
                                i < j < k + 1 ==> self.0@[j].anmeldename
                                    != self.0@[i].anmeldename) implies (#[trigger] self.0@[i]).comes_to(
                            roster@[self.0@[i].anmeldename.0],
                        ) by {
                            if i < k {
                                assert(self.0@[k as int].anmeldename != self.0@[i].anmeldename);
                                assert(roster@[self.0@[i].anmeldename.0] == before[self.0@[
                                    i
                                ].anmeldename.0]);
                            }
                        }
                    }
                },
                Err(e) => {
                    assert(self.first_fault(k as int));
                    return Err(e);
                },
            }
            k += 1;
        }
        Ok(roster)
    }
}

} // verus!
