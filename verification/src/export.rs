//! The assignment as a table in text form.

use crate::data::Data;
use crate::text::decimal_digits;
use crate::text::push_decimal;
use crate::types::SaveFileProjekt;
use crate::types::SaveFileSchueler;
use crate::types::SaveFileZuordnung;
use vstd::prelude::*;

verus! {

/// The project column of a line: the project's number, name and grades, or
/// two dashes where the record has no project or one that is not known.
pub open spec fn csv_projekt(z: SaveFileZuordnung, projekte: Map<u32, SaveFileProjekt>) -> Seq<
    char,
> {
    match z.projekt {
        Some(id) => if projekte.contains_key(id.0) {
            decimal_digits(id.0 as nat) + ": "@ + projekte[id.0].name@ + " ("@ + decimal_digits(
                projekte[id.0].min_stufe as nat,
            ) + "-"@ + decimal_digits(projekte[id.0].max_stufe as nat) + ")"@
        } else {
            "--"@
        },
        None => "--"@,
    }
}

/// One line of the table: the number of the record, the student's name and
/// class, and the project, with semicolons between them. The line begins
/// with a line break.
pub open spec fn csv_line(
    z: SaveFileZuordnung,
    s: SaveFileSchueler,
    projekte: Map<u32, SaveFileProjekt>,
) -> Seq<char> {
    "\n"@ + decimal_digits(z.id as nat) + ";"@ + s.name@ + " ("@ + s.klasse.0@ + ");"@
        + csv_projekt(z, projekte)
}

/// The table of the first `upto` records: the heading and a line for each
/// record.
pub open spec fn csv_upto(data: Data, upto: int) -> Seq<char>
    decreases upto,
{
    if upto <= 0 {
        "ID;Schueler;Projekt"@
    } else {
        csv_upto(data, upto - 1) + csv_line(
            data.zuordnung@[upto - 1],
            data.schueler@[data.zuordnung@[upto - 1].schueler.0],
            data.projekte@,
        )
    }
}

/// Whether the student of every record is in the roster.
pub open spec fn students_known(data: Data) -> bool {
    forall|i: int|
        0 <= i < data.zuordnung@.len() ==> data.schueler@.contains_key(
            (#[trigger] data.zuordnung@[i]).schueler.0,
        )
}

fn push_projekt(out: &mut String, z: &SaveFileZuordnung, data: &Data)
    ensures
        final(out)@ == old(out)@ + csv_projekt(*z, data.projekte@),
{
    let mut known: Option<&SaveFileProjekt> = None;
    match z.projekt {
        Some(id) => {
            known = data.get_projekt(&id);
        },
        None => {},
    }
    match (z.projekt, known) {
        (Some(id), Some(p)) => {
            let ghost start = out@;
            push_decimal(out, id.0 as u64);
            out.append(": ");
            out.append(p.name.as_str());
            out.append(" (");
            push_decimal(out, p.min_stufe as u64);
            out.append("-");
            push_decimal(out, p.max_stufe as u64);
            out.append(")");
            assert(out@ =~= start + csv_projekt(*z, data.projekte@));
        },
        _ => {
            out.append("--");
        },
    }
}

/// Writes the assignment as a table with the columns `ID`, `Schueler` and
/// `Projekt`, separated by semicolons. `None` where a record names a student
/// who is not in the roster.
pub fn export_csv(data: &Data) -> (r: Option<String>)
    ensures
        match r {
            Some(text) => students_known(*data) && text@ == csv_upto(
                *data,
                data.zuordnung@.len() as int,
            ),
            None => !students_known(*data),
        },
{
    let mut out = String::new();
    out.append("ID;Schueler;Projekt");
    assert(out@ =~= csv_upto(*data, 0));
    let mut i: usize = 0;
    while i < data.zuordnung.len()
        invariant
            i <= data.zuordnung.len(),
            out@ == csv_upto(*data, i as int),
            forall|t: int|
                0 <= t < i ==> data.schueler@.contains_key(
                    (#[trigger] data.zuordnung@[t]).schueler.0,
                ),
        decreases data.zuordnung.len() - i,
    {
        let z = &data.zuordnung[i];
        match data.get_schueler(&z.schueler) {
            None => {
                return None;
            },
            Some(s) => {
                let ghost start = out@;
                out.append("\n");
                push_decimal(&mut out, z.id as u64);
                out.append(";");
                out.append(s.name.as_str());
                out.append(" (");
                out.append(s.klasse.0.as_str());
                out.append(");");
                push_projekt(&mut out, z, data);
                assert(out@ =~= start + csv_line(*z, *s, data.projekte@));
            },
        }
        i += 1;
    }
    Some(out)
}

} // verus!
