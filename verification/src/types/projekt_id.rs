//! The identifier of a project.

use crate::text::chars_of;
use crate::text::decimal_digits;
use crate::text::decimal_string;
use crate::text::decimal_value;
use crate::text::find_digits_end;
use crate::text::all_digits;
use crate::text::is_digit;
use crate::text::parse_decimal;
use vstd::prelude::*;

verus! {

/// The number that stands for "no project".
pub const KEIN_PROJEKT: u32 = 0xffff_ffff;

/// A project's identifier. Projects are numbered from zero; what a reader is
/// shown is the number plus one.
#[derive(Clone, Copy, PartialEq, Eq, Hash, Debug, PartialOrd, Ord, Structural)]
pub struct ProjektId(pub u32);

/// What is left of `s` once a leading sign is taken off.
pub open spec fn unsigned_part(s: Seq<char>) -> Seq<char> {
    if s.len() > 0 && (s[0] == '-' || s[0] == '+') {
        s.subrange(1, s.len() as int)
    } else {
        s
    }
}

/// The whole number that `s` denotes: an optional sign and then one digit or
/// more, nothing else. `None` where `s` has another shape or the number is
/// outside 32 signed bits.
pub open spec fn signed_value(s: Seq<char>) -> Option<int> {
    let digits = unsigned_part(s);
    if digits.len() == 0 || !all_digits(digits) {
        None
    } else {
        let v = if s[0] == '-' {
            -(decimal_value(digits) as int)
        } else {
            decimal_value(digits) as int
        };
        if -0x8000_0000 <= v <= 0x7fff_ffff {
            Some(v)
        } else {
            None
        }
    }
}

/// The identifier that a signed number denotes: a negative number stands for
/// "no project".
pub open spec fn id_of_number(v: int) -> ProjektId {
    if v < 0 {
        ProjektId(KEIN_PROJEKT)
    } else {
        ProjektId(v as u32)
    }
}

/// The identifier that a stored number denotes: the number itself where it is
/// a project's number, and "no project" where it is negative or beyond 32
/// bits.
pub open spec fn id_of_stored(v: int) -> ProjektId {
    if 0 <= v <= 0xffff_ffff {
        ProjektId(v as u32)
    } else {
        ProjektId(KEIN_PROJEKT)
    }
}

impl ProjektId {
    /// The identifier that a stored number denotes.
    pub fn from_number(number: i64) -> (r: Self)
        ensures
            r == id_of_stored(number as int),
    {
        if 0 <= number && number <= 0xffff_ffff {
            ProjektId(number as u32)
        } else {
            ProjektId(KEIN_PROJEKT)
        }
    }

    /// The number under which the identifier is stored: -1 for "no project".
    pub fn to_number(&self) -> (r: i64)
        ensures
            r == if self.0 == KEIN_PROJEKT {
                -1
            } else {
                self.0 as int
            },
            id_of_stored(r as int) == *self,
    {
        if self.0 == KEIN_PROJEKT {
            -1
        } else {
            self.0 as i64
        }
    }

    /// The identifier with the number `id`.
    pub fn new(id: u32) -> (r: Self)
        ensures
            r == ProjektId(id),
    {
        ProjektId(id)
    }

    /// The identifier that stands for "no project".
    pub fn none() -> (r: Self)
        ensures
            r == ProjektId(KEIN_PROJEKT),
    {
        ProjektId(KEIN_PROJEKT)
    }

    /// The number of the identifier.
    pub fn id(&self) -> (r: u32)
        ensures
            r == self.0,
    {
        self.0
    }

    /// Whether this identifier stands for "no project".
    pub fn is_none(&self) -> (r: bool)
        ensures
            r == (self.0 == KEIN_PROJEKT),
    {
        self.0 == KEIN_PROJEKT
    }

    /// The number under which the project is shown.
    pub open spec fn shown(self) -> nat {
        (self.0 + 1) as nat
    }

    /// The number under which the project is shown, in base ten.
    pub fn to_text(&self) -> (r: String)
        ensures
            r@ == decimal_digits(self.shown()),
    {
        decimal_string(self.0 as u64 + 1)
    }

    /// Reads an identifier from a signed decimal number.
    pub fn parse(value: &str) -> (r: Option<Self>)
        ensures
            r == match signed_value(value@) {
                Some(v) => Some(id_of_number(v)),
                None => None,
            },
    {
        let cs = chars_of(value);
        let n = cs.len();
        let signed = n > 0 && (cs[0] == '-' || cs[0] == '+');
        let from: usize = if signed {
            1
        } else {
            0
        };
        let ghost digits = cs@.subrange(from as int, n as int);
        proof {
            if !signed {
                assert(digits == cs@);
            }
        }
        let end = find_digits_end(&cs, from);
        if end == from || end < n {
            proof {
                if end < n {
                    assert(!is_digit(digits[end - from]));
                }
            }
            return None;
        }
        assert forall|k: int| 0 <= k < digits.len() implies is_digit(digits[k]) by {
            assert(digits[k] == cs@[from + k]);
        }
        match parse_decimal(&cs, from, n) {
            None => None,
            Some(v) => {
                if cs[0] == '-' {
                    if v > 0x8000_0000 {
                        None
                    } else if v == 0 {
                        Some(ProjektId(0))
                    } else {
                        Some(ProjektId(KEIN_PROJEKT))
                    }
                } else if v > 0x7fff_ffff {
                    None
                } else {
                    Some(ProjektId(v))
                }
            },
        }
    }

    /// The identifier `rhs` places before this one, wrapping round below zero.
    pub fn sub(self, rhs: u32) -> (r: Self)
        ensures
            r.0 as int == if self.0 >= rhs {
                self.0 - rhs
            } else {
                self.0 - rhs + 0x1_0000_0000
            },
    {
        ProjektId(self.0.wrapping_sub(rhs))
    }
}

impl Default for ProjektId {
    fn default() -> (r: Self)
        ensures
            r == ProjektId(0),
    {
        ProjektId(0)
    }
}

} // verus!
