//! The file in which the list of all students arrives.

use crate::text::parse_u32;
use crate::text::unsigned_value;
use crate::types::klasse::Klasse;
use crate::types::save_file::SaveFileSchueler;
use crate::types::schueler_file::ImportError;
use std::collections::BTreeMap;
use uuid::Uuid;
use vstd::prelude::*;

verus! {

/// One student of the list.
#[derive(Clone, PartialEq, Eq, Debug)]
pub struct Schueler {
    pub id: String,
    pub anmeldename: String,
    pub vorname: String,
    pub nachname: String,
    pub gruppen: String,
}

/// The list of all students.
#[derive(Clone, PartialEq, Eq, Debug)]
pub struct SchuelerListeFile(pub Vec<Schueler>);

/// The 128 bits of the UUID that `text` spells, most significant byte first.
/// `None` where `text` spells no UUID.
pub uninterp spec fn uuid_of(text: Seq<char>) -> Option<u128>;

/// `uuid::Uuid::parse_str`, then `uuid::Uuid::as_u128`. What comes back
/// depends on the text alone, so it is given a name; nothing else is claimed
/// of it.
#[verifier::external_body]
fn parse_uuid(text: &str) -> (r: Option<u128>)
    ensures
        r == uuid_of(text@),
{
    match Uuid::parse_str(text) {
        Ok(id) => Some(id.as_u128()),
        Err(_) => None,
    }
}

impl Schueler {
    /// Whether these are the lines of a student without a login name, who is
    /// left out.
    pub open spec fn skipped(self) -> bool {
        self.anmeldename@.len() == 0
    }

    /// Whether `s` is the roster entry that this line comes to: the student
    /// has the first and the last name with a blank between them, no wishes
    /// yet, and takes no part until the wishes arrive.
    pub open spec fn comes_to(self, s: SaveFileSchueler) -> bool {
        &&& unsigned_value(self.id@) == Some(s.uid)
        &&& s.name@ == self.vorname@ + seq![' '] + self.nachname@
        &&& s.wishes is None
        &&& s.partner_raw is None
        &&& s.ignore
        &&& s.fest is None
        &&& s.klasse.0@ == self.gruppen@
        &&& s.partner is None
    }

    /// What is wrong with this line, if anything: the login name first, then
    /// the number.
    pub open spec fn fault(self) -> Option<ImportError> {
        if self.skipped() {
            None
        } else if uuid_of(self.anmeldename@) is None {
            Some(ImportError::Anmeldename)
        } else if unsigned_value(self.id@) is None {
            Some(ImportError::Uid)
        } else {
            None
        }
    }

    /// Turns this line into a roster entry.
    pub fn to_schueler(&self) -> (r: Result<SaveFileSchueler, ImportError>)
        ensures
            match r {
                Ok(s) => unsigned_value(self.id@) is Some && self.comes_to(s),
                Err(e) => unsigned_value(self.id@) is None && e == ImportError::Uid,
            },
    {
        let uid = match parse_u32(self.id.as_str()) {
            Some(uid) => uid,
            None => {
                return Err(ImportError::Uid);
            },
        };
        let mut name = self.vorname.clone();
        proof {
            reveal_strlit(" ");
            assert(" "@ =~= seq![' ']);
        }
        name.append(" ");
        name.append(self.nachname.as_str());
        Ok(
            SaveFileSchueler {
                uid,
                name,
                wishes: None,
                partner_raw: None,
                ignore: true,
                fest: None,
                klasse: Klasse::new(self.gruppen.clone()),
                partner: None,
            },
        )
    }
}

impl SchuelerListeFile {
    /// Whether the line at position `i` is the last with its login name among
    /// the first `upto` lines that are not left out.
    pub open spec fn last_of_its_name(self, i: int, upto: int) -> bool {
        &&& 0 <= i < upto
        &&& !self.0@[i].skipped()
        &&& forall|j: int|
            i < j < upto && !self.0@[j].skipped() ==> uuid_of(self.0@[j].anmeldename@) != uuid_of(
                self.0@[i].anmeldename@,
            )
    }

    /// Whether `roster` is what the first `upto` lines come to: an entry for
    /// each login name, made from the last line with that name.
    pub open spec fn comes_to_upto(self, roster: Map<u128, SaveFileSchueler>, upto: int) -> bool {
        &&& forall|id: u128|
            roster.contains_key(id) <==> exists|i: int|
                0 <= i < upto && !(#[trigger] self.0@[i]).skipped() && uuid_of(
                    self.0@[i].anmeldename@,
                ) == Some(id)
        &&& forall|i: int| #[trigger]
            self.last_of_its_name(i, upto) ==> self.0@[i].comes_to(
                roster[uuid_of(self.0@[i].anmeldename@)->0],
            )
    }

    /// Whether `roster` is what the list comes to.
    pub open spec fn comes_to(self, roster: Map<u128, SaveFileSchueler>) -> bool {
        self.comes_to_upto(roster, self.0@.len() as int)
    }

    /// Whether `i` is the first position with a line that something is wrong
    /// with.
    pub open spec fn first_fault(self, i: int) -> bool {
        &&& 0 <= i < self.0@.len()
        &&& self.0@[i].fault() is Some
        &&& forall|j: int| 0 <= j < i ==> (#[trigger] self.0@[j]).fault() is None
    }

    /// Turns the list into roster entries by login name. Lines without a login
    /// name are left out. Where something is wrong with a line, the first
    /// such fault is returned.
    pub fn to_roster(&self) -> (r: Result<BTreeMap<u128, SaveFileSchueler>, ImportError>)
        ensures
            match r {
                Ok(roster) => self.comes_to(roster@) && forall|i: int|
                    0 <= i < self.0@.len() ==> (#[trigger] self.0@[i]).fault() is None,
                Err(e) => exists|i: int| #[trigger] self.first_fault(i) && self.0@[i].fault() == Some(e),
            },
    {
        let mut roster: BTreeMap<u128, SaveFileSchueler> = BTreeMap::new();
        let mut k: usize = 0;
        while k < self.0.len()
            invariant
                k <= self.0.len(),
                forall|j: int| 0 <= j < k ==> (#[trigger] self.0@[j]).fault() is None,
                self.comes_to_upto(roster@, k as int),
            decreases self.0.len() - k,
        {
            let row = &self.0[k];
            let ghost before = roster@;
            if row.anmeldename.as_str().unicode_len() == 0 {
                proof {
                    assert forall|i: int| #[trigger]
                        self.last_of_its_name(i, k + 1) implies self.0@[i].comes_to(
                        roster@[uuid_of(self.0@[i].anmeldename@)->0],
                    ) by {
                        assert(self.last_of_its_name(i, k as int));
                    }
                }
            } else {
                let id = match parse_uuid(row.anmeldename.as_str()) {
                    Some(id) => id,
                    None => {
                        assert(self.first_fault(k as int));
                        return Err(ImportError::Anmeldename);
                    },
                };
                match row.to_schueler() {
                    Ok(s) => {
                        roster.insert(id, s);
                        proof {
                            assert forall|key: u128|
                                roster@.contains_key(key) <==> exists|i: int|
                                    0 <= i < k + 1 && !(#[trigger] self.0@[i]).skipped() && uuid_of(
                                        self.0@[i].anmeldename@,
                                    ) == Some(key) by {
                                if roster@.contains_key(key) {
                                    if key == id {
                                        assert(!self.0@[k as int].skipped());
                                    } else {
                                        assert(before.contains_key(key));
                                    }
                                }
                            }
                            assert forall|i: int| #[trigger]
                                self.last_of_its_name(i, k + 1) implies self.0@[i].comes_to(
                                roster@[uuid_of(self.0@[i].anmeldename@)->0],
                            ) by {
                                if i < k {
                                    assert(self.last_of_its_name(i, k as int));
                                    assert(uuid_of(self.0@[i].anmeldename@) != Some(id));
                                    assert(before.contains_key(
                                        uuid_of(self.0@[i].anmeldename@)->0,
                                    ));
                                }
                            }
                        }
                    },
                    Err(e) => {
                        assert(self.first_fault(k as int));
                        return Err(e);
                    },
                }
            }
            k += 1;
        }
        Ok(roster)
    }
}

} // verus!
