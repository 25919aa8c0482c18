//! The records of a stored roster.

use crate::types::klasse::Klasse;
use crate::types::projekt_id::ProjektId;
use crate::types::schueler_id::SchuelerId;
use vstd::prelude::*;

verus! {

/// A grade, as the key under which its classes are kept.
#[derive(Clone, Copy, PartialEq, Eq, Hash, PartialOrd, Ord, Debug, Structural)]
pub struct SaveFileStufe(pub u32);

impl SaveFileStufe {
    /// The grade as a number.
    pub fn stufe(&self) -> (r: u32)
        ensures
            r == self.0,
    {
        self.0
    }
}

/// The classes of one grade.
#[derive(Clone, PartialEq, Eq, Debug)]
pub struct SaveFileKlasse {
    pub anzahl: u32,
    pub klassen: Vec<Klasse>,
}

/// A project as it is stored. A bound of `-1` on the number of participants
/// means that there is no bound on that side.
#[derive(PartialEq, Eq, Debug)]
pub struct SaveFileProjekt {
    pub name: String,
    pub min_teilnehmer: i32,
    pub max_teilnehmer: i32,
    pub min_stufe: u32,
    pub max_stufe: u32,
    pub ignore: bool,
    pub num_einteilung: Option<u32>,
}

impl Clone for SaveFileProjekt {
    fn clone(&self) -> (r: Self)
        ensures
            r == *self,
    {
        SaveFileProjekt {
            name: self.name.clone(),
            min_teilnehmer: self.min_teilnehmer,
            max_teilnehmer: self.max_teilnehmer,
            min_stufe: self.min_stufe,
            max_stufe: self.max_stufe,
            ignore: self.ignore,
            num_einteilung: self.num_einteilung,
        }
    }
}

/// A student as it is stored.
#[derive(PartialEq, Eq, Debug)]
pub struct SaveFileSchueler {
    pub uid: u32,
    pub name: String,
    /// The five wishes, the dearest first.
    pub wishes: Option<[ProjektId; 5]>,
    /// The partner wish as the student wrote it.
    pub partner_raw: Option<String>,
    /// Whether the student takes no part in the assignment.
    pub ignore: bool,
    /// Whether the student is pinned to the first wish.
    pub fest: Option<bool>,
    pub klasse: Klasse,
    /// The student that the partner wish was resolved to.
    pub partner: Option<SchuelerId>,
}

impl SaveFileSchueler {
    /// This student with another resolved partner.
    pub open spec fn with_partner(self, partner: Option<SchuelerId>) -> Self {
        SaveFileSchueler { partner, ..self }
    }

    /// Whether the student is pinned to the first wish.
    pub open spec fn is_fest(self) -> bool {
        self.fest == Some(true)
    }

    /// The project that the student is pinned to, if any.
    pub open spec fn pinned(self) -> Option<ProjektId> {
        match self.wishes {
            Some(w) => if self.is_fest() {
                Some(w[0])
            } else {
                None
            },
            None => None,
        }
    }
}

impl Clone for SaveFileSchueler {
    fn clone(&self) -> (r: Self)
        ensures
            r == *self,
    {
        let partner_raw = match &self.partner_raw {
            Some(t) => Some(t.clone()),
            None => None,
        };
        SaveFileSchueler {
            uid: self.uid,
            name: self.name.clone(),
            wishes: self.wishes,
            partner_raw,
            ignore: self.ignore,
            fest: self.fest,
            klasse: self.klasse.clone(),
            partner: self.partner,
        }
    }
}

/// One line of an assignment: a student and the project the student got.
#[derive(Clone, Copy, PartialEq, Eq, Debug, Structural)]
pub struct SaveFileZuordnung {
    pub id: u32,
    pub schueler: SchuelerId,
    pub projekt: Option<ProjektId>,
}

} // verus!
