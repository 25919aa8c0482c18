//! Changes made to a student by hand.

use crate::partner::find_partner;
use crate::partner::partner_of;
use crate::types::projekt_id::KEIN_PROJEKT;
use crate::types::ProjektId;
use crate::types::SaveFileSchueler;
use crate::types::SchuelerId;
use std::collections::BTreeMap;
use vstd::prelude::*;

verus! {

/// A change to a student.
#[derive(Clone, PartialEq, Eq, Debug)]
#[allow(inconsistent_fields)]
pub enum Edit {
    /// The wish at rank `idx`, counted from zero, becomes `projekt_id`.
    Wunsch { idx: u8, projekt_id: ProjektId },
    /// The student is pinned to the first wish, or set free.
    Fest { value: bool },
    /// The student is left out of the assignment, or taken in.
    Ignorieren { value: bool },
    /// The partner becomes the student that the text `value` names.
    Partner { value: String },
}

/// Whether `after` are the wishes `before` with the wish at rank `idx` set to
/// `projekt_id`. A student without wishes starts from five times "no
/// project". A rank of five or more changes nothing.
pub open spec fn wishes_set(
    before: Option<[ProjektId; 5]>,
    idx: u8,
    projekt_id: ProjektId,
    after: Option<[ProjektId; 5]>,
) -> bool {
    if idx >= 5 {
        after == before
    } else {
        &&& after is Some
        &&& forall|k: int|
            0 <= k < 5 ==> #[trigger] after->0[k] == if k == idx {
                projekt_id
            } else {
                match before {
                    Some(w) => w[k],
                    None => ProjektId(KEIN_PROJEKT),
                }
            }
    }
}

/// Whether `t` is the student `s` of the roster `roster` after the change
/// `edit`.
pub open spec fn is_edited(
    roster: Map<u128, SaveFileSchueler>,
    s: SaveFileSchueler,
    edit: Edit,
    t: SaveFileSchueler,
) -> bool {
    match edit {
        Edit::Wunsch { idx, projekt_id } => {
            &&& wishes_set(s.wishes, idx, projekt_id, t.wishes)
            &&& t == SaveFileSchueler { wishes: t.wishes, ..s }
        },
        Edit::Fest { value } => t == SaveFileSchueler { fest: Some(value), ..s },
        Edit::Ignorieren { value } => t == SaveFileSchueler { ignore: value, ..s },
        Edit::Partner { value } => t == s.with_partner(partner_of(roster, value@)),
    }
}

/// Changes the student `schueler_id` as `edit` says. Nothing happens where
/// the roster has no such student.
pub fn edit_schueler(
    schueler: &mut BTreeMap<u128, SaveFileSchueler>,
    schueler_id: SchuelerId,
    edit: Edit,
)
    ensures
        !old(schueler)@.contains_key(schueler_id.0) ==> final(schueler)@ == old(schueler)@,
        old(schueler)@.contains_key(schueler_id.0) ==> {
            &&& final(schueler)@.dom() == old(schueler)@.dom()
            &&& forall|id: u128|
                old(schueler)@.contains_key(id) && id != schueler_id.0 ==> final(schueler)@[id]
                    == old(schueler)@[id]
            &&& is_edited(
                old(schueler)@,
                old(schueler)@[schueler_id.0],
                edit,
                final(schueler)@[schueler_id.0],
            )
        },
{
    let mut changed: Option<SaveFileSchueler> = None;
    match schueler.get(&schueler_id.0) {
        Some(s) => {
            let mut t = s.clone();
            match edit {
                Edit::Wunsch { idx, projekt_id } => {
                    if idx < 5 {
                        let none = ProjektId(KEIN_PROJEKT);
                        let mut w: [ProjektId; 5] = match s.wishes {
                            Some(w) => w,
                            None => [none, none, none, none, none],
                        };
                        w[idx as usize] = projekt_id;
                        t.wishes = Some(w);
                    }
                },
                Edit::Fest { value } => {
                    t.fest = Some(value);
                },
                Edit::Ignorieren { value } => {
                    t.ignore = value;
                },
                Edit::Partner { value } => {
                    t.partner = find_partner(schueler, value);
                },
            }
            changed = Some(t);
        },
        None => {},
    }
    match changed {
        Some(t) => {
            schueler.insert(schueler_id.0, t);
            assert(schueler@.dom() =~= old(schueler)@.dom());
        },
        None => {},
    }
}

} // verus!
