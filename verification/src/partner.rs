//! From a partner wish in free text to a student of the roster.
//!
//! A wish such as `Anna Meier 9a` is taken apart by a regular expression into
//! a first name, middle names, a last name and a class. The parts are compared
//! with the roster in steps, each narrower than the one before, until one
//! student is left or none.

use crate::keys::lemma_student_order;
use crate::keys::student_keys;
use crate::keys::student_order;
use crate::text::first_word;
use crate::text::first_word_of;
use crate::text::last_word;
use crate::text::last_word_of;
use crate::text::normalize;
use crate::text::normalized;
use crate::types::SaveFileSchueler;
use crate::types::SchuelerId;
use regex::Regex;
use std::collections::BTreeMap;
use vstd::prelude::*;

verus! {

/// The shape of a partner wish: a first name, then optionally middle names
/// and a last name, then optionally a class of one or two digits and a
/// letter, set off by blanks, commas, bars, slashes, brackets or the word
/// `Klasse`.
pub const PARTNER_PATTERN: &'static str =
    r"(?<vorname>(?:\p{L}|-)+)(?:\s?(?<mittename>(?:\s??(?:\p{L}|-)+)*?) (?<nachname>(?:\p{L}|-)+))?(?:[|,\s(/\\]|(?:Klasse))*(?<klasse>\d{1,2}[a-zA-Z])?[)]?";

/// What the regular expression `pattern` captures in `haystack` at its first
/// match: the text of each capture group in the order of the groups' numbers,
/// the whole match first, with `None` for a group that took no part. `None`
/// where nothing matches or `pattern` is no regular expression.
pub uninterp spec fn regex_captures(pattern: Seq<char>, haystack: Seq<char>) -> Option<
    Seq<Option<Seq<char>>>,
>;

/// The texts of captured groups as sequences of characters.
pub open spec fn group_texts(groups: Seq<Option<String>>) -> Seq<Option<Seq<char>>> {
    groups.map_values(
        |g: Option<String>|
            match g {
                Some(t) => Some(t@),
                None => None,
            },
    )
}

/// `regex::Regex::new` on `pattern`, then `regex::Regex::captures` on
/// `haystack`, with each group of `regex::Captures::iter` turned into an
/// owned string. What comes back depends on the two texts alone, so it is
/// given a name; nothing else is claimed of it.
#[verifier::external_body]
fn captures(pattern: &str, haystack: &str) -> (r: Option<Vec<Option<String>>>)
    ensures
        match r {
            Some(groups) => regex_captures(pattern@, haystack@) == Some(group_texts(groups@)),
            None => regex_captures(pattern@, haystack@) is None,
        },
{
    let re = Regex::new(pattern).ok()?;
    let found = re.captures(haystack)?;
    Some(found.iter().map(|g| g.map(|m| m.as_str().to_string())).collect())
}

/// A partner wish taken apart, each part in the form in which names are
/// compared.
pub struct Wunschpartner {
    pub vorname: String,
    pub mittename: Option<String>,
    pub nachname: Option<String>,
    pub klasse: Option<String>,
}

/// What the resolver reads of a `Wunschpartner`.
pub struct WunschpartnerView {
    pub vorname: Seq<char>,
    pub mittename: Option<Seq<char>>,
    pub nachname: Option<Seq<char>>,
    pub klasse: Option<Seq<char>>,
}

/// The characters of an optional text.
pub open spec fn text_of(t: Option<String>) -> Option<Seq<char>> {
    match t {
        Some(s) => Some(s@),
        None => None,
    }
}

impl View for Wunschpartner {
    type V = WunschpartnerView;

    open spec fn view(&self) -> WunschpartnerView {
        WunschpartnerView {
            vorname: self.vorname@,
            mittename: text_of(self.mittename),
            nachname: text_of(self.nachname),
            klasse: text_of(self.klasse),
        }
    }
}

/// What the resolver knows of one student, each part in the form in which
/// names are compared.
pub struct Kandidat {
    pub id: SchuelerId,
    pub klasse: String,
    /// The first word of the name.
    pub vorname: String,
    /// The last word of the name.
    pub nachname: String,
    /// The whole name.
    pub name: String,
}

/// What the resolver reads of a `Kandidat`.
pub struct KandidatView {
    pub id: SchuelerId,
    pub klasse: Seq<char>,
    pub vorname: Seq<char>,
    pub nachname: Seq<char>,
    pub name: Seq<char>,
}

impl View for Kandidat {
    type V = KandidatView;

    open spec fn view(&self) -> KandidatView {
        KandidatView {
            id: self.id,
            klasse: self.klasse@,
            vorname: self.vorname@,
            nachname: self.nachname@,
            name: self.name@,
        }
    }
}

/// The trait of a candidate that a step of the resolver compares.
#[derive(Clone, Copy, PartialEq, Eq, Debug, Structural)]
pub enum Merkmal {
    Klasse,
    Vorname,
    Nachname,
    Name,
}

/// The value of one trait of a candidate.
pub open spec fn merkmal_of(k: KandidatView, m: Merkmal) -> Seq<char> {
    match m {
        Merkmal::Klasse => k.klasse,
        Merkmal::Vorname => k.vorname,
        Merkmal::Nachname => k.nachname,
        Merkmal::Name => k.name,
    }
}

/// Those of `kandidaten` whose trait `m` equals `value`, in their order.
pub open spec fn with_merkmal(kandidaten: Seq<KandidatView>, m: Merkmal, value: Seq<char>) -> Seq<
    KandidatView,
> {
    kandidaten.filter(|k: KandidatView| merkmal_of(k, m) == value)
}

/// The candidates as the resolver reads them.
pub open spec fn views_of(kandidaten: Seq<&Kandidat>) -> Seq<KandidatView> {
    kandidaten.map_values(|k: &Kandidat| k@)
}

/// The full name that a wish spells: the first name, then a blank and the
/// middle names where there are any, then a blank and the last name where
/// there is one.
pub open spec fn voller_name(w: WunschpartnerView) -> Seq<char> {
    let mit_mitte = match w.mittename {
        Some(m) => if m.len() > 0 {
            w.vorname + seq![' '] + m
        } else {
            w.vorname
        },
        None => w.vorname,
    };
    match w.nachname {
        Some(n) => mit_mitte + seq![' '] + n,
        None => mit_mitte,
    }
}

/// The only candidate of `kandidaten`, where there is exactly one.
pub open spec fn einziger(kandidaten: Seq<KandidatView>) -> Option<SchuelerId> {
    if kandidaten.len() == 1 {
        Some(kandidaten[0].id)
    } else {
        None
    }
}

/// The candidates of the wish's class, or all of them where the wish names no
/// class.
pub open spec fn in_klasse(kandidaten: Seq<KandidatView>, w: WunschpartnerView) -> Seq<
    KandidatView,
> {
    match w.klasse {
        Some(k) => with_merkmal(kandidaten, Merkmal::Klasse, k),
        None => kandidaten,
    }
}

/// The student that a wish names among `kandidaten`.
///
/// The candidates are narrowed to the wish's class, unless none is in it.
/// Of these, those with the wish's first name are kept: one is the answer,
/// none ends the search. Where the wish has a last name, those with it are
/// kept, and again one is the answer and none ends the search. Last, the
/// candidates of the wish's class are compared by their whole name.
pub open spec fn auswahl(kandidaten: Seq<KandidatView>, w: WunschpartnerView) -> Option<
    SchuelerId,
> {
    let klasse = in_klasse(kandidaten, w);
    let basis = if klasse.len() == 0 {
        kandidaten
    } else {
        klasse
    };
    let nach_vorname = with_merkmal(basis, Merkmal::Vorname, w.vorname);
    let nach_nachname = match w.nachname {
        Some(n) => with_merkmal(nach_vorname, Merkmal::Nachname, n),
        None => nach_vorname,
    };
    if nach_vorname.len() <= 1 {
        einziger(nach_vorname)
    } else if nach_nachname.len() <= 1 {
        einziger(nach_nachname)
    } else {
        einziger(with_merkmal(klasse, Merkmal::Name, voller_name(w)))
    }
}

fn merkmal<'a>(k: &'a Kandidat, m: Merkmal) -> (r: &'a String)
    ensures
        r@ == merkmal_of(k@, m),
{
    match m {
        Merkmal::Klasse => &k.klasse,
        Merkmal::Vorname => &k.vorname,
        Merkmal::Nachname => &k.nachname,
        Merkmal::Name => &k.name,
    }
}

/// Keeps the candidates whose trait `m` equals `value`.
pub fn filter_merkmal<'a>(kandidaten: &Vec<&'a Kandidat>, m: Merkmal, value: &String) -> (r: Vec<
    &'a Kandidat,
>)
    ensures
        views_of(r@) == with_merkmal(views_of(kandidaten@), m, value@),
{
    let mut out: Vec<&'a Kandidat> = Vec::new();
    let ghost all = views_of(kandidaten@);
    let ghost pred = |k: KandidatView| merkmal_of(k, m) == value@;
    proof {
        reveal(Seq::filter);
        assert(all.take(0).filter(pred) =~= Seq::<KandidatView>::empty());
        assert(views_of(out@) =~= Seq::<KandidatView>::empty());
    }
    let mut i: usize = 0;
    while i < kandidaten.len()
        invariant
            i <= kandidaten.len(),
            all == views_of(kandidaten@),
            pred == |k: KandidatView| merkmal_of(k, m) == value@,
            views_of(out@) == all.take(i as int).filter(pred),
        decreases kandidaten.len() - i,
    {
        let k: &'a Kandidat = kandidaten[i];
        let ghost before = views_of(out@);
        proof {
            reveal(Seq::filter);
            assert(all.take(i + 1).drop_last() =~= all.take(i as int));
            assert(all.take(i + 1).last() == k@);
        }
        if *merkmal(k, m) == *value {
            out.push(k);
            assert(views_of(out@) =~= before.push(k@));
        }
        i += 1;
    }
    proof {
        assert(all.take(i as int) =~= all);
    }
    out
}

/// The candidates of a list as the resolver reads them.
pub open spec fn views_of_all(kandidaten: Seq<Kandidat>) -> Seq<KandidatView> {
    kandidaten.map_values(|k: Kandidat| k@)
}

fn einziger_of(kandidaten: &Vec<&Kandidat>) -> (r: Option<SchuelerId>)
    ensures
        r == einziger(views_of(kandidaten@)),
{
    if kandidaten.len() == 1 {
        Some(kandidaten[0].id)
    } else {
        None
    }
}

fn voller_name_of(w: &Wunschpartner) -> (r: String)
    ensures
        r@ == voller_name(w@),
{
    let mut name = w.vorname.clone();
    proof {
        reveal_strlit(" ");
        assert(" "@ =~= seq![' ']);
    }
    match &w.mittename {
        Some(m) => {
            if m.as_str().unicode_len() > 0 {
                name.append(" ");
                name.append(m.as_str());
            }
        },
        None => {},
    }
    match &w.nachname {
        Some(n) => {
            name.append(" ");
            name.append(n.as_str());
        },
        None => {},
    }
    name
}

/// Picks the student that the wish `w` names among `kandidaten`.
pub fn choose_partner(kandidaten: &Vec<Kandidat>, w: &Wunschpartner) -> (r: Option<SchuelerId>)
    ensures
        r == auswahl(views_of_all(kandidaten@), w@),
{
    let mut alle: Vec<&Kandidat> = Vec::new();
    let mut i: usize = 0;
    while i < kandidaten.len()
        invariant
            i <= kandidaten.len(),
            alle@.len() == i,
            views_of(alle@) == views_of_all(kandidaten@).take(i as int),
        decreases kandidaten.len() - i,
    {
        let ghost before = alle@;
        alle.push(&kandidaten[i]);
        assert forall|j: int| 0 <= j < i + 1 implies views_of(alle@)[j] == views_of_all(
            kandidaten@,
        ).take(i + 1)[j] by {
            if j < i {
                assert(views_of(before)[j] == views_of_all(kandidaten@).take(i as int)[j]);
            }
        }
        assert(views_of(alle@) =~= views_of_all(kandidaten@).take(i + 1));
        i += 1;
    }
    assert(views_of_all(kandidaten@).take(i as int) =~= views_of_all(kandidaten@));
    let klasse = match &w.klasse {
        Some(k) => filter_merkmal(&alle, Merkmal::Klasse, k),
        None => filter_all(&alle),
    };
    let nach_vorname = if klasse.len() == 0 {
        filter_merkmal(&alle, Merkmal::Vorname, &w.vorname)
    } else {
        filter_merkmal(&klasse, Merkmal::Vorname, &w.vorname)
    };
    if nach_vorname.len() <= 1 {
        return einziger_of(&nach_vorname);
    }
    let nach_nachname = match &w.nachname {
        Some(n) => filter_merkmal(&nach_vorname, Merkmal::Nachname, n),
        None => nach_vorname,
    };
    if nach_nachname.len() <= 1 {
        return einziger_of(&nach_nachname);
    }
    let name = voller_name_of(w);
    let nach_name = filter_merkmal(&klasse, Merkmal::Name, &name);
    einziger_of(&nach_name)
}

fn filter_all<'a>(kandidaten: &Vec<&'a Kandidat>) -> (r: Vec<&'a Kandidat>)
    ensures
        r@ == kandidaten@,
{
    let mut out: Vec<&'a Kandidat> = Vec::new();
    let mut i: usize = 0;
    while i < kandidaten.len()
        invariant
            i <= kandidaten.len(),
            out@ == kandidaten@.take(i as int),
        decreases kandidaten.len() - i,
    {
        out.push(kandidaten[i]);
        assert(out@ =~= kandidaten@.take(i + 1));
        i += 1;
    }
    assert(kandidaten@.take(i as int) =~= kandidaten@);
    out
}

/// A captured text in the form in which names are compared.
pub open spec fn normalized_text(t: Option<Seq<char>>) -> Option<Seq<char>> {
    match t {
        Some(s) => Some(normalized(s)),
        None => None,
    }
}

/// The wish that captured groups spell: the first name is group 1, the middle
/// names group 2, the last name group 3 and the class group 4. `None` where
/// the groups are not these five or the first name is missing.
pub open spec fn wish_of(groups: Seq<Option<Seq<char>>>) -> Option<WunschpartnerView> {
    if groups.len() == 5 && groups[1] is Some {
        Some(
            WunschpartnerView {
                vorname: normalized(groups[1]->0),
                mittename: normalized_text(groups[2]),
                nachname: normalized_text(groups[3]),
                klasse: normalized_text(groups[4]),
            },
        )
    } else {
        None
    }
}

fn normalize_text(t: &Option<String>) -> (r: Option<String>)
    ensures
        text_of(r) == normalized_text(text_of(*t)),
{
    match t {
        Some(s) => Some(normalize(s.as_str())),
        None => None,
    }
}

/// Reads a wish off the groups that the pattern captured.
pub fn wish_from_groups(groups: &Vec<Option<String>>) -> (r: Option<Wunschpartner>)
    ensures
        match r {
            Some(w) => wish_of(group_texts(groups@)) == Some(w@),
            None => wish_of(group_texts(groups@)) is None,
        },
{
    if groups.len() != 5 {
        return None;
    }
    match &groups[1] {
        None => None,
        Some(v) => {
            Some(
                Wunschpartner {
                    vorname: normalize(v.as_str()),
                    mittename: normalize_text(&groups[2]),
                    nachname: normalize_text(&groups[3]),
                    klasse: normalize_text(&groups[4]),
                },
            )
        },
    }
}

/// What the resolver knows of the student `s` with the key `id`.
pub open spec fn kandidat_of(id: u128, s: SaveFileSchueler) -> KandidatView {
    KandidatView {
        id: SchuelerId(id),
        klasse: normalized(s.klasse.0@),
        vorname: normalized(first_word(s.name@)),
        nachname: normalized(last_word(s.name@)),
        name: normalized(s.name@),
    }
}

/// The students of a roster as candidates, in the order of their keys.
pub open spec fn kandidaten_of(data: Map<u128, SaveFileSchueler>) -> Seq<KandidatView> {
    student_order(data.dom()).map_values(|id: u128| kandidat_of(id, data[id]))
}

/// Lists the students of a roster as candidates.
pub fn kandidaten(data: &BTreeMap<u128, SaveFileSchueler>) -> (r: Vec<Kandidat>)
    ensures
        views_of_all(r@) == kandidaten_of(data@),
{
    let ids = student_keys(data);
    let mut out: Vec<Kandidat> = Vec::new();
    let mut i: usize = 0;
    while i < ids.len()
        invariant
            i <= ids.len(),
            ids@ == student_order(data@.dom()),
            ids@.to_set() == data@.dom(),
            out@.len() == i,
            kandidaten_of(data@).len() == ids@.len(),
            views_of_all(out@) == kandidaten_of(data@).take(i as int),
        decreases ids.len() - i,
    {
        let id: u128 = ids[i];
        assert(ids@.to_set().contains(ids@[i as int]));
        assert(data@.contains_key(id));
        match data.get(&id) {
            Some(s) => {
                let k = Kandidat {
                    id: SchuelerId(id),
                    klasse: normalize(s.klasse.0.as_str()),
                    vorname: normalize(first_word_of(s.name.as_str())),
                    nachname: normalize(last_word_of(s.name.as_str())),
                    name: normalize(s.name.as_str()),
                };
                assert(k@ == kandidat_of(id, data@[id]));
                let ghost before = out@;
                out.push(k);
                assert forall|j: int| 0 <= j < i + 1 implies views_of_all(out@)[j]
                    == kandidaten_of(data@).take(i + 1)[j] by {
                    if j < i {
                        assert(views_of_all(before)[j] == kandidaten_of(data@).take(i as int)[j]);
                    }
                }
                assert(views_of_all(out@) =~= kandidaten_of(data@).take(i + 1));
            },
            None => {
                assert(false);
            },
        }
        i += 1;
    }
    assert(kandidaten_of(data@).take(i as int) =~= kandidaten_of(data@));
    out
}

/// The student that the partner wish `text` names in the roster `data`, if it
/// names exactly one.
pub open spec fn partner_of(data: Map<u128, SaveFileSchueler>, text: Seq<char>) -> Option<
    SchuelerId,
> {
    match regex_captures(PARTNER_PATTERN@, text) {
        None => None,
        Some(groups) => match wish_of(groups) {
            None => None,
            Some(w) => auswahl(kandidaten_of(data), w),
        },
    }
}

/// Resolves a partner wish in free text to a student of the roster.
pub fn find_partner(data: &BTreeMap<u128, SaveFileSchueler>, partner_raw: String) -> (r: Option<
    SchuelerId,
>)
    ensures
        r == partner_of(data@, partner_raw@),
{
    match captures(PARTNER_PATTERN, partner_raw.as_str()) {
        None => None,
        Some(groups) => match wish_from_groups(&groups) {
            None => None,
            Some(w) => {
                let alle = kandidaten(data);
                choose_partner(&alle, &w)
            },
        },
    }
}

/// The roster in which every student with a partner wish that is not empty
/// has the partner that the wish resolves to, and every other student is as
/// before.
pub open spec fn with_partners(data: Map<u128, SaveFileSchueler>) -> Map<u128, SaveFileSchueler> {
    Map::new(
        |id: u128| data.contains_key(id),
        |id: u128|
            match data[id].partner_raw {
                Some(text) => if text@.len() > 0 {
                    data[id].with_partner(partner_of(data, text@))
                } else {
                    data[id]
                },
                None => data[id],
            },
    )
}

/// Resolves the partner wish of every student of the roster who has one; a
/// student without a wish, or with an empty one, is left as it is. A wish
/// need not be returned by the partner to be resolved.
pub fn match_all_partner(data: &BTreeMap<u128, SaveFileSchueler>) -> (r: BTreeMap<
    u128,
    SaveFileSchueler,
>)
    ensures
        r@ == with_partners(data@),
{
    let ids = student_keys(data);
    let mut out: BTreeMap<u128, SaveFileSchueler> = BTreeMap::new();
    let mut i: usize = 0;
    while i < ids.len()
        invariant
            i <= ids.len(),
            ids@.to_set() == data@.dom(),
            out@.dom() == ids@.take(i as int).to_set(),
            forall|id: u128| out@.contains_key(id) ==> out@[id] == with_partners(data@)[id],
        decreases ids.len() - i,
    {
        let id: u128 = ids[i];
        assert(ids@.to_set().contains(ids@[i as int]));
        assert(data@.contains_key(id));
        match data.get(&id) {
            Some(s) => {
                let mut t = s.clone();
                match &s.partner_raw {
                    Some(text) => {
                        if text.as_str().unicode_len() > 0 {
                            t.partner = find_partner(data, text.clone());
                        }
                    },
                    None => {},
                }
                out.insert(id, t);
            },
            None => {
                assert(false);
            },
        }
        assert(ids@.take(i + 1) =~= ids@.take(i as int).push(id));
        proof {
            ids@.take(i as int).lemma_push_to_set_commute(id);
        }
        assert(out@.dom() =~= ids@.take(i + 1).to_set());
        i += 1;
    }
    assert(ids@.take(i as int) =~= ids@);
    assert(out@ =~= with_partners(data@));
    out
}

/// Resolving the partner wishes of a roster that they were resolved in
/// already changes nothing: a wish is resolved by the names and classes of
/// the roster, which resolving leaves as they are.
pub proof fn lemma_match_all_partner_idempotent(data: Map<u128, SaveFileSchueler>)
    requires
        data.dom().finite(),
    ensures
        with_partners(with_partners(data)) == with_partners(data),
{
    let once = with_partners(data);
    assert(once.dom() =~= data.dom());
    lemma_student_order(data.dom());
    let order = student_order(data.dom());
    assert forall|j: int| 0 <= j < order.len() implies kandidaten_of(once)[j] == kandidaten_of(
        data,
    )[j] by {
        assert(order.to_set().contains(order[j]));
    }
    assert(kandidaten_of(once) =~= kandidaten_of(data));
    assert forall|text: Seq<char>| partner_of(once, text) == partner_of(data, text) by {}
    assert(with_partners(once) =~= once);
}

} // verus!
