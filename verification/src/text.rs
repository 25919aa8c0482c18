//! Character-level helpers on strings.

use unicode_normalization::UnicodeNormalization;
use vstd::prelude::*;

verus! {

/// The characters of `s`, in order.
pub fn chars_of(s: &str) -> (r: Vec<char>)
    ensures
        r@ == s@,
{
    let mut out: Vec<char> = Vec::new();
    for c in it: s.chars()
        invariant
            it.seq() == s@,
            out@ == it.seq().take(it.index()),
    {
        out.push(c);
    }
    assert(out@ == s@.take(s@.len() as int));
    out
}

/// Whether `c` is one of the ASCII digits `0` to `9`.
pub open spec fn is_digit(c: char) -> bool {
    48 <= c as u32 <= 57
}

/// Whether every character of `s` is an ASCII digit.
pub open spec fn all_digits(s: Seq<char>) -> bool {
    forall|k: int| 0 <= k < s.len() ==> is_digit(#[trigger] s[k])
}

/// The value of the ASCII digit `c`.
pub open spec fn digit_value(c: char) -> nat {
    (c as u32 - 48) as nat
}

/// The number that a sequence of ASCII digits denotes in base ten.
pub open spec fn decimal_value(s: Seq<char>) -> nat
    decreases s.len(),
{
    if s.len() == 0 {
        0
    } else {
        decimal_value(s.drop_last()) * 10 + digit_value(s.last())
    }
}

/// The first position at or after `from` whose character fails `is_digit`,
/// or the length of `s` where every character from `from` on is a digit.
pub open spec fn digits_end(s: Seq<char>, from: int) -> int
    decreases s.len() - from,
{
    if from < 0 || from >= s.len() || !is_digit(s[from]) {
        from
    } else {
        digits_end(s, from + 1)
    }
}

/// The first position at or after `from` that holds a digit, or the length
/// of `s` where there is none.
pub open spec fn digits_start(s: Seq<char>, from: int) -> int
    decreases s.len() - from,
{
    if from < 0 || from >= s.len() || is_digit(s[from]) {
        from
    } else {
        digits_start(s, from + 1)
    }
}

/// Whether `c` is an ASCII digit.
pub(crate) fn is_digit_char(c: char) -> (r: bool)
    ensures
        r == is_digit(c),
{
    let v: u32 = c as u32;
    48 <= v && v <= 57
}

/// Finds the first digit at or after `from`.
pub(crate) fn find_digits_start(s: &Vec<char>, from: usize) -> (r: usize)
    requires
        from <= s.len(),
    ensures
        r == digits_start(s@, from as int),
        from <= r <= s.len(),
        r < s.len() ==> is_digit(s@[r as int]),
{
    let mut i: usize = from;
    while i < s.len() && !is_digit_char(s[i])
        invariant
            from <= i <= s.len(),
            digits_start(s@, from as int) == digits_start(s@, i as int),
        decreases s.len() - i,
    {
        i += 1;
    }
    i
}

/// Finds the end of the run of digits that starts at `from`.
pub(crate) fn find_digits_end(s: &Vec<char>, from: usize) -> (r: usize)
    requires
        from <= s.len(),
    ensures
        r == digits_end(s@, from as int),
        from <= r <= s.len(),
        forall|k: int| from <= k < r ==> is_digit(s@[k]),
        r < s.len() ==> !is_digit(s@[r as int]),
{
    let mut i: usize = from;
    while i < s.len() && is_digit_char(s[i])
        invariant
            from <= i <= s.len(),
            digits_end(s@, from as int) == digits_end(s@, i as int),
            forall|k: int| from <= k < i ==> is_digit(s@[k]),
        decreases s.len() - i,
    {
        i += 1;
    }
    i
}

/// Reads the digits `s[from..to]` as a decimal number, or `None` where the
/// number does not fit in 32 bits.
pub(crate) fn parse_decimal(s: &Vec<char>, from: usize, to: usize) -> (r: Option<u32>)
    requires
        from <= to <= s.len(),
        forall|k: int| from <= k < to ==> is_digit(s@[k]),
    ensures
        match r {
            Some(v) => v == decimal_value(s@.subrange(from as int, to as int)),
            None => decimal_value(s@.subrange(from as int, to as int)) > u32::MAX,
        },
{
    let mut acc: u64 = 0;
    let mut i: usize = from;
    while i < to
        invariant
            from <= i <= to <= s.len(),
            forall|k: int| from <= k < to ==> is_digit(s@[k]),
            acc == decimal_value(s@.subrange(from as int, i as int)),
            acc <= u32::MAX,
        decreases to - i,
    {
        let d: u64 = (s[i] as u32 - 48) as u64;
        proof {
            let next = s@.subrange(from as int, i + 1);
            assert(next.drop_last() == s@.subrange(from as int, i as int));
            assert(next.last() == s@[i as int]);
            assert(decimal_value(next) == acc * 10 + d);
        }
        acc = acc * 10 + d;
        i += 1;
        if acc > 0xffff_ffff {
            proof {
                lemma_decimal_value_grows(s@.subrange(from as int, to as int), i - from);
                assert(s@.subrange(from as int, to as int).take(i - from) == s@.subrange(
                    from as int,
                    i as int,
                ));
            }
            return None;
        }
    }
    Some(acc as u32)
}

/// A prefix of a digit sequence denotes no more than the whole sequence.
pub proof fn lemma_decimal_value_grows(s: Seq<char>, n: int)
    requires
        0 <= n <= s.len(),
    ensures
        decimal_value(s.take(n)) <= decimal_value(s),
    decreases s.len(),
{
    if n == s.len() {
        assert(s.take(n) == s);
    } else {
        lemma_decimal_value_grows(s.drop_last(), n);
        assert(s.drop_last().take(n) == s.take(n));
    }
}


/// Whether `c` is white space: one of the characters with the Unicode
/// property `White_Space`.
pub open spec fn is_space(c: char) -> bool {
    let v = c as u32;
    ||| 0x9 <= v <= 0xd
    ||| v == 0x20
    ||| v == 0x85
    ||| v == 0xa0
    ||| v == 0x1680
    ||| 0x2000 <= v <= 0x200a
    ||| v == 0x2028
    ||| v == 0x2029
    ||| v == 0x202f
    ||| v == 0x205f
    ||| v == 0x3000
}

/// Whether `c` is white space.
pub fn is_space_char(c: char) -> (r: bool)
    ensures
        r == is_space(c),
{
    let v: u32 = c as u32;
    (0x9 <= v && v <= 0xd) || v == 0x20 || v == 0x85 || v == 0xa0 || v == 0x1680 || (0x2000 <= v
        && v <= 0x200a) || v == 0x2028 || v == 0x2029 || v == 0x202f || v == 0x205f || v == 0x3000
}

/// The first position at or after `from` that holds no white space, or the
/// length of `s` where there is none.
pub open spec fn word_from(s: Seq<char>, from: int) -> int
    decreases s.len() - from,
{
    if from < 0 || from >= s.len() || !is_space(s[from]) {
        from
    } else {
        word_from(s, from + 1)
    }
}

/// The first position at or after `from` that holds white space, or the
/// length of `s` where there is none.
pub open spec fn space_from(s: Seq<char>, from: int) -> int
    decreases s.len() - from,
{
    if from < 0 || from >= s.len() || is_space(s[from]) {
        from
    } else {
        space_from(s, from + 1)
    }
}

/// The position after the last character before `upto` that is no white
/// space, or zero where there is none.
pub open spec fn word_end(s: Seq<char>, upto: int) -> int
    decreases upto,
{
    if upto <= 0 || upto > s.len() || !is_space(s[upto - 1]) {
        upto
    } else {
        word_end(s, upto - 1)
    }
}

/// The position after the last white space before `upto`, or zero where
/// there is none.
pub open spec fn word_start(s: Seq<char>, upto: int) -> int
    decreases upto,
{
    if upto <= 0 || upto > s.len() || is_space(s[upto - 1]) {
        upto
    } else {
        word_start(s, upto - 1)
    }
}

/// The first word of `s`: what stands from the first character that is no
/// white space up to the next white space. Empty where `s` holds no word.
pub open spec fn first_word(s: Seq<char>) -> Seq<char> {
    s.subrange(word_from(s, 0), space_from(s, word_from(s, 0)))
}

/// The last word of `s`: what stands after the last white space that a word
/// follows, up to the end of that word. Empty where `s` holds no word.
pub open spec fn last_word(s: Seq<char>) -> Seq<char> {
    s.subrange(
        word_start(s, word_end(s, s.len() as int)),
        word_end(s, s.len() as int),
    )
}

/// The first word of `s`.
pub fn first_word_of(s: &str) -> (r: &str)
    ensures
        r@ == first_word(s@),
{
    let cs = chars_of(s);
    let mut from: usize = 0;
    while from < cs.len() && is_space_char(cs[from])
        invariant
            from <= cs.len(),
            cs@ == s@,
            word_from(s@, 0) == word_from(s@, from as int),
        decreases cs.len() - from,
    {
        from += 1;
    }
    let mut to: usize = from;
    while to < cs.len() && !is_space_char(cs[to])
        invariant
            from <= to <= cs.len(),
            cs@ == s@,
            space_from(s@, from as int) == space_from(s@, to as int),
        decreases cs.len() - to,
    {
        to += 1;
    }
    s.substring_char(from, to)
}

/// The last word of `s`.
pub fn last_word_of(s: &str) -> (r: &str)
    ensures
        r@ == last_word(s@),
{
    let cs = chars_of(s);
    let n = cs.len();
    let mut to: usize = n;
    while to > 0 && is_space_char(cs[to - 1])
        invariant
            to <= n,
            n == cs.len(),
            cs@ == s@,
            word_end(s@, n as int) == word_end(s@, to as int),
        decreases to,
    {
        to -= 1;
    }
    let mut from: usize = to;
    while from > 0 && !is_space_char(cs[from - 1])
        invariant
            from <= to <= n,
            n == cs.len(),
            cs@ == s@,
            word_start(s@, to as int) == word_start(s@, from as int),
        decreases from,
    {
        from -= 1;
    }
    s.substring_char(from, to)
}

/// The compatibility decomposition (Unicode normalization form KD) of a text.
pub uninterp spec fn nfkd_of(s: Seq<char>) -> Seq<char>;

/// The lower-case form of a text.
pub uninterp spec fn lowercase_of(s: Seq<char>) -> Seq<char>;

/// The form in which two names are compared: decomposed, then in lower case.
pub open spec fn normalized(s: Seq<char>) -> Seq<char> {
    lowercase_of(nfkd_of(s))
}

/// `unicode_normalization::UnicodeNormalization::nfkd` on a string slice,
/// collected into a string. The decomposition depends on the characters
/// alone, so it is given a name; nothing else is claimed of it.
#[verifier::external_body]
fn nfkd(s: &str) -> (r: String)
    ensures
        r@ == nfkd_of(s@),
{
    s.nfkd().collect::<String>()
}

/// `str::to_lowercase`. The lower-case form depends on the characters alone,
/// so it is given a name; nothing else is claimed of it.
#[verifier::external_body]
fn to_lowercase(s: &str) -> (r: String)
    ensures
        r@ == lowercase_of(s@),
{
    s.to_lowercase()
}

/// The form of `s` in which names are compared.
pub fn normalize(s: &str) -> (r: String)
    ensures
        r@ == normalized(s@),
{
    let decomposed = nfkd(s);
    to_lowercase(decomposed.as_str())
}

/// The whole number that `s` denotes without a sign: an optional `+` and then
/// one digit or more, nothing else. `None` where `s` has another shape or the
/// number is beyond 32 bits.
pub open spec fn unsigned_value(s: Seq<char>) -> Option<u32> {
    let digits = if s.len() > 0 && s[0] == '+' {
        s.subrange(1, s.len() as int)
    } else {
        s
    };
    if digits.len() == 0 || !all_digits(digits) || decimal_value(digits) > u32::MAX {
        None
    } else {
        Some(decimal_value(digits) as u32)
    }
}

/// Reads a whole number without a sign.
pub fn parse_u32(value: &str) -> (r: Option<u32>)
    ensures
        r == unsigned_value(value@),
{
    let cs = chars_of(value);
    let n = cs.len();
    let from: usize = if n > 0 && cs[0] == '+' {
        1
    } else {
        0
    };
    let ghost digits = cs@.subrange(from as int, n as int);
    proof {
        if from == 0 {
            assert(digits == cs@);
        }
    }
    let end = find_digits_end(&cs, from);
    if end == from || end < n {
        proof {
            if end < n {
                assert(!is_digit(digits[end - from]));
            }
        }
        return None;
    }
    assert forall|k: int| 0 <= k < digits.len() implies is_digit(digits[k]) by {
        assert(digits[k] == cs@[from + k]);
    }
    parse_decimal(&cs, from, n)
}

/// The digit character of a number below ten.
pub open spec fn digit_char(d: int) -> char {
    if d == 0 {
        '0'
    } else if d == 1 {
        '1'
    } else if d == 2 {
        '2'
    } else if d == 3 {
        '3'
    } else if d == 4 {
        '4'
    } else if d == 5 {
        '5'
    } else if d == 6 {
        '6'
    } else if d == 7 {
        '7'
    } else if d == 8 {
        '8'
    } else {
        '9'
    }
}

/// The digits of `n` in base ten, the most significant first, without
/// leading zeros.
pub open spec fn decimal_digits(n: nat) -> Seq<char>
    decreases n,
{
    if n < 10 {
        seq![digit_char(n as int)]
    } else {
        decimal_digits(n / 10).push(digit_char((n % 10) as int))
    }
}

fn digit_str(d: u64) -> (r: &'static str)
    requires
        d < 10,
    ensures
        r@ == seq![digit_char(d as int)],
{
    proof {
        reveal_strlit("0");
        reveal_strlit("1");
        reveal_strlit("2");
        reveal_strlit("3");
        reveal_strlit("4");
        reveal_strlit("5");
        reveal_strlit("6");
        reveal_strlit("7");
        reveal_strlit("8");
        reveal_strlit("9");
    }
    let r = if d == 0 {
        "0"
    } else if d == 1 {
        "1"
    } else if d == 2 {
        "2"
    } else if d == 3 {
        "3"
    } else if d == 4 {
        "4"
    } else if d == 5 {
        "5"
    } else if d == 6 {
        "6"
    } else if d == 7 {
        "7"
    } else if d == 8 {
        "8"
    } else {
        "9"
    };
    assert(r@ =~= seq![digit_char(d as int)]);
    r
}

/// Appends the digits of `n` to `out`.
pub fn push_decimal(out: &mut String, n: u64)
    ensures
        final(out)@ == old(out)@ + decimal_digits(n as nat),
    decreases n,
{
    if n >= 10 {
        push_decimal(out, n / 10);
    }
    let ghost before = out@;
    out.append(digit_str(n % 10));
    assert(out@ =~= old(out)@ + decimal_digits(n as nat));
}

/// The number `n` in base ten.
pub fn decimal_string(n: u64) -> (r: String)
    ensures
        r@ == decimal_digits(n as nat),
{
    let mut out = String::new();
    push_decimal(&mut out, n);
    assert(out@ =~= decimal_digits(n as nat));
    out
}

/// Whether `sep` stands in `s` at position `at`.
pub open spec fn stands_at(s: Seq<char>, sep: Seq<char>, at: int) -> bool {
    &&& 0 <= at
    &&& at + sep.len() <= s.len()
    &&& s.subrange(at, at + sep.len()) == sep
}

/// The first position at or after `from` at which `sep` stands in `s`, or the
/// length of `s` where it stands nowhere.
pub open spec fn find_from(s: Seq<char>, sep: Seq<char>, from: int) -> int
    decreases s.len() - from,
{
    if from < 0 || from >= s.len() {
        s.len() as int
    } else if stands_at(s, sep, from) {
        from
    } else {
        find_from(s, sep, from + 1)
    }
}

/// What stands in `s` before the first ` : `, or all of `s` where there is
/// none.
pub open spec fn before_colon(s: Seq<char>) -> Seq<char> {
    s.subrange(0, find_from(s, seq![' ', ':', ' '], 0))
}

/// The part of `s` before its first ` : `.
pub fn before_colon_of(s: &str) -> (r: &str)
    ensures
        r@ == before_colon(s@),
{
    let cs = chars_of(s);
    let n = cs.len();
    let ghost sep = seq![' ', ':', ' '];
    let mut i: usize = 0;
    while i < n
        invariant
            i <= n,
            n == cs.len(),
            cs@ == s@,
            sep == seq![' ', ':', ' '],
            find_from(s@, sep, 0) == find_from(s@, sep, i as int),
        decreases n - i,
    {
        let hit = n - i >= 3 && cs[i] == ' ' && cs[i + 1] == ':' && cs[i + 2] == ' ';
        proof {
            if hit {
                assert(s@.subrange(i as int, i + 3) =~= sep);
            } else if i + 3 <= n {
                let part = s@.subrange(i as int, i + 3);
                assert(part[0] == s@[i as int]);
                assert(part[1] == s@[i + 1]);
                assert(part[2] == s@[i + 2]);
            }
        }
        if hit {
            return s.substring_char(0, i);
        }
        i += 1;
    }
    s.substring_char(0, n)
}

/// Whether `needle` stands somewhere in `hay`.
pub open spec fn occurs_in(hay: Seq<char>, needle: Seq<char>) -> bool {
    exists|at: int| stands_at(hay, needle, at)
}

/// Whether `needle` stands somewhere in `hay`.
pub fn contains_text(hay: &str, needle: &str) -> (r: bool)
    ensures
        r == occurs_in(hay@, needle@),
{
    let h = chars_of(hay);
    let n = chars_of(needle);
    if n.len() > h.len() {
        assert forall|at: int| !stands_at(hay@, needle@, at) by {}
        return false;
    }
    let last: usize = h.len() - n.len();
    let mut at: usize = 0;
    while at <= last
        invariant
            at <= last + 1,
            last == h.len() - n.len(),
            h@ == hay@,
            n@ == needle@,
            forall|t: int| 0 <= t < at ==> !stands_at(hay@, needle@, t),
        decreases last + 1 - at,
    {
        let mut k: usize = 0;
        while k < n.len() && h[at + k] == n[k]
            invariant
                k <= n.len(),
                at <= last,
                last == h.len() - n.len(),
                forall|t: int| 0 <= t < k ==> h@[at + t] == n@[t],
            decreases n.len() - k,
        {
            k += 1;
        }
        if k == n.len() {
            assert(hay@.subrange(at as int, at + n.len()) =~= needle@);
            assert(stands_at(hay@, needle@, at as int));
            return true;
        }
        proof {
            let part = hay@.subrange(at as int, at + n.len());
            assert(part[k as int] == h@[at + k]);
            assert(!stands_at(hay@, needle@, at as int));
        }
        at += 1;
    }
    assert forall|t: int| !stands_at(hay@, needle@, t) by {}
    false
}

/// Whether `needle` stands somewhere in `hay` when both are put in lower
/// case.
pub open spec fn occurs_in_lowercase(hay: Seq<char>, needle: Seq<char>) -> bool {
    occurs_in(lowercase_of(hay), lowercase_of(needle))
}

/// Whether `needle` stands somewhere in `hay`, capitals and small letters
/// counting as the same.
pub fn contains_lowercase(hay: &str, needle: &str) -> (r: bool)
    ensures
        r == occurs_in_lowercase(hay@, needle@),
{
    let h = to_lowercase(hay);
    let n = to_lowercase(needle);
    contains_text(h.as_str(), n.as_str())
}

/// A number that is written in base ten and read again is the same number.
pub proof fn lemma_decimal_round_trip(n: u32)
    ensures
        unsigned_value(decimal_digits(n as nat)) == Some(n),
{
    lemma_digits_value(n as nat);
    let s = decimal_digits(n as nat);
    assert(s[0] != '+') by {
        assert(is_digit(s[0]));
    }
}

/// The digits of a number are digits, at least one, and denote the number.
pub proof fn lemma_digits_value(n: nat)
    ensures
        decimal_digits(n).len() > 0,
        all_digits(decimal_digits(n)),
        decimal_value(decimal_digits(n)) == n,
    decreases n,
{
    if n >= 10 {
        lemma_digits_value(n / 10);
        let head = decimal_digits(n / 10);
        let last = digit_char((n % 10) as int);
        assert(decimal_digits(n).drop_last() =~= head);
        assert(is_digit(last) && digit_value(last) == n % 10);
        assert forall|k: int| 0 <= k < decimal_digits(n).len() implies is_digit(
            #[trigger] decimal_digits(n)[k],
        ) by {
            if k < head.len() {
                assert(decimal_digits(n)[k] == head[k]);
            }
        }
    } else {
        let only = digit_char(n as int);
        assert(is_digit(only) && digit_value(only) == n);
        assert(decimal_digits(n).drop_last() =~= Seq::<char>::empty());
        assert(decimal_value(decimal_digits(n).drop_last()) == 0);
    }
}

} // verus!
