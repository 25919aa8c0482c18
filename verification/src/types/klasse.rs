//! The label of a school class and the grade it belongs to.

use crate::text::chars_of;
use crate::text::decimal_value;
use crate::text::digits_end;
use crate::text::digits_start;
use crate::text::find_digits_end;
use crate::text::find_digits_start;
use crate::text::parse_decimal;
use vstd::prelude::*;

verus! {

/// The label of a class, such as `10c` or `KS1`.
#[derive(PartialEq, Eq, Debug)]
pub struct Klasse(pub String);

/// The grade that a class label names. `KS1` is grade 12 and `KS2` grade 13;
/// any other label names the number that its first run of digits spells.
/// `None` where the label holds no digit or the number is beyond 32 bits.
pub open spec fn grade_of(label: Seq<char>) -> Option<u32> {
    if label == seq!['K', 'S', '1'] {
        Some(12u32)
    } else if label == seq!['K', 'S', '2'] {
        Some(13u32)
    } else {
        let from = digits_start(label, 0);
        let to = digits_end(label, from);
        if from >= label.len() {
            None
        } else if decimal_value(label.subrange(from, to)) > u32::MAX {
            None
        } else {
            Some(decimal_value(label.subrange(from, to)) as u32)
        }
    }
}

impl Klasse {
    /// The class with the label `klasse`.
    pub fn new(klasse: String) -> (r: Self)
        ensures
            r.0 == klasse,
    {
        Self(klasse)
    }

    /// The label of the class.
    pub fn klasse(&self) -> (r: String)
        ensures
            r == self.0,
    {
        self.0.clone()
    }

    /// The label as a sequence of characters.
    pub open spec fn label(&self) -> Seq<char> {
        self.0@
    }

    /// The grade of the class.
    pub fn stufe(&self) -> (r: Option<u32>)
        ensures
            r == grade_of(self.label()),
    {
        let cs = chars_of(self.0.as_str());
        if cs.len() == 3 && cs[0] == 'K' && cs[1] == 'S' && (cs[2] == '1' || cs[2] == '2') {
            if cs[2] == '1' {
                assert(cs@ =~= seq!['K', 'S', '1']);
                return Some(12);
            } else {
                assert(cs@ =~= seq!['K', 'S', '2']);
                return Some(13);
            }
        }
        proof {
            if cs@ == seq!['K', 'S', '1'] || cs@ == seq!['K', 'S', '2'] {
                assert(cs@.len() == 3);
                assert(cs@[0] == 'K' && cs@[1] == 'S');
                assert(cs@[2] == '1' || cs@[2] == '2');
            }
        }
        let from = find_digits_start(&cs, 0);
        if from >= cs.len() {
            return None;
        }
        let to = find_digits_end(&cs, from);
        parse_decimal(&cs, from, to)
    }
}

impl Clone for Klasse {
    fn clone(&self) -> (r: Self)
        ensures
            r == *self,
    {
        Klasse(self.0.clone())
    }
}

impl Default for Klasse {
    fn default() -> (r: Self)
        ensures
            r.0@ == Seq::<char>::empty(),
    {
        Klasse(String::new())
    }
}

} // verus!
