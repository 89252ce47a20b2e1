//! The numeral that a progress line carries in front of its percent sign.
//!
//! A numeral is text in the grammar of decimal floating-point literals:
//!
//! ```text
//! Float  ::= Sign? ( 'inf' | 'infinity' | 'nan' | Number )
//! Number ::= ( Digit+ | Digit+ '.' Digit* | Digit* '.' Digit+ ) Exp?
//! Exp    ::= 'e' Sign? Digit+
//! Sign   ::= [+-]
//! Digit  ::= [0-9]
//! ```
//!
//! with letters in either case. The library keeps a numeral as text and
//! leaves its conversion to a machine number to the caller.

use vstd::prelude::*;
use crate::text::to_chars;

verus! {

pub open spec fn is_digit(c: char) -> bool {
    '0' <= c && c <= '9'
}

pub open spec fn is_sign(c: char) -> bool {
    c == '+' || c == '-'
}

pub open spec fn is_exp_mark(c: char) -> bool {
    c == 'e' || c == 'E'
}

/// `c` is the letter written `lower` in lower case and `upper` in upper case.
pub open spec fn is_letter(c: char, lower: char, upper: char) -> bool {
    c == lower || c == upper
}

/// `s[from..to]` holds digits only; it may be empty.
pub open spec fn digits(s: Seq<char>, from: int, to: int) -> bool {
    &&& from <= to
    &&& forall|k: int| from <= k < to ==> is_digit(#[trigger] s[k])
}

/// `s[from..to]` is `Digit+`, `Digit+ '.' Digit*` or `Digit* '.' Digit+`.
pub open spec fn mantissa(s: Seq<char>, from: int, to: int) -> bool {
    ||| from < to && digits(s, from, to)
    ||| exists|dot: int|
        {
            &&& from <= dot < to
            &&& to - from > 1
            &&& #[trigger] s[dot] == '.'
            &&& digits(s, from, dot)
            &&& digits(s, dot + 1, to)
        }
}

/// `s[from..to]` is `'e' Sign? Digit+`.
pub open spec fn exponent(s: Seq<char>, from: int, to: int) -> bool {
    &&& from < to
    &&& is_exp_mark(s[from])
    &&& {
        ||| from + 1 < to && digits(s, from + 1, to)
        ||| from + 2 < to && is_sign(s[from + 1]) && digits(s, from + 2, to)
    }
}

/// `s[from..to]` is a mantissa, with or without an exponent behind it.
pub open spec fn number(s: Seq<char>, from: int, to: int) -> bool {
    ||| mantissa(s, from, to)
    ||| exists|mark: int|
        {
            &&& from < mark < to
            &&& is_exp_mark(#[trigger] s[mark])
            &&& mantissa(s, from, mark)
            &&& exponent(s, mark, to)
        }
}

/// `s[from..]` is one of the words `inf`, `infinity` and `nan`.
pub open spec fn special(s: Seq<char>, from: int) -> bool {
    ||| {
        &&& s.len() - from == 3
        &&& is_letter(s[from], 'i', 'I')
        &&& is_letter(s[from + 1], 'n', 'N')
        &&& is_letter(s[from + 2], 'f', 'F')
    }
    ||| {
        &&& s.len() - from == 3
        &&& is_letter(s[from], 'n', 'N')
        &&& is_letter(s[from + 1], 'a', 'A')
        &&& is_letter(s[from + 2], 'n', 'N')
    }
    ||| {
        &&& s.len() - from == 8
        &&& is_letter(s[from], 'i', 'I')
        &&& is_letter(s[from + 1], 'n', 'N')
        &&& is_letter(s[from + 2], 'f', 'F')
        &&& is_letter(s[from + 3], 'i', 'I')
        &&& is_letter(s[from + 4], 'n', 'N')
        &&& is_letter(s[from + 5], 'i', 'I')
        &&& is_letter(s[from + 6], 't', 'T')
        &&& is_letter(s[from + 7], 'y', 'Y')
    }
}

/// Where the part behind the optional sign of `s` begins.
pub open spec fn after_sign(s: Seq<char>) -> int {
    if s.len() > 0 && is_sign(s[0]) {
        1
    } else {
        0
    }
}

/// `s` is a numeral: an optional sign, then a special word or a number.
pub open spec fn is_numeral(s: Seq<char>) -> bool {
    special(s, after_sign(s)) || number(s, after_sign(s), s.len() as int)
}

fn digit(c: char) -> (r: bool)
    ensures
        r == is_digit(c),
{
    c >= '0' && c <= '9'
}

fn letter(c: char, lower: char, upper: char) -> (r: bool)
    ensures
        r == is_letter(c, lower, upper),
{
    c == lower || c == upper
}

/// The end of the run of digits that begins at `from`.
fn skip_digits(v: &Vec<char>, from: usize) -> (to: usize)
    requires
        from <= v@.len(),
    ensures
        from <= to <= v@.len(),
        digits(v@, from as int, to as int),
        to < v@.len() ==> !is_digit(v@[to as int]),
{
    let mut to: usize = from;
    while to < v.len() && digit(v[to])
        invariant
            from <= to <= v@.len(),
            digits(v@, from as int, to as int),
        decreases v@.len() - to,
    {
        to += 1;
    }
    to
}

fn is_special(v: &Vec<char>, from: usize) -> (r: bool)
    requires
        from <= v@.len(),
    ensures
        r == special(v@, from as int),
{
    let n: usize = v.len() - from;
    if n == 3 {
        let inf = letter(v[from], 'i', 'I') && letter(v[from + 1], 'n', 'N') && letter(
            v[from + 2],
            'f',
            'F',
        );
        let nan = letter(v[from], 'n', 'N') && letter(v[from + 1], 'a', 'A') && letter(
            v[from + 2],
            'n',
            'N',
        );
        inf || nan
    } else if n == 8 {
        letter(v[from], 'i', 'I') && letter(v[from + 1], 'n', 'N') && letter(v[from + 2], 'f', 'F')
            && letter(v[from + 3], 'i', 'I') && letter(v[from + 4], 'n', 'N') && letter(
            v[from + 5],
            'i',
            'I',
        ) && letter(v[from + 6], 't', 'T') && letter(v[from + 7], 'y', 'Y')
    } else {
        false
    }
}

/// Whether `v[from..]` is `'e' Sign? Digit+`.
fn is_exponent(v: &Vec<char>, from: usize) -> (r: bool)
    requires
        from < v@.len(),
    ensures
        r == exponent(v@, from as int, v@.len() as int),
{
    let len: usize = v.len();
    if !(v[from] == 'e' || v[from] == 'E') {
        return false;
    }
    let mut first: usize = from + 1;
    if first < len && (v[first] == '+' || v[first] == '-') {
        first += 1;
    }
    let end: usize = skip_digits(v, first);
    first < end && end == len
}

/// Whether `v[from..]` is a number.
fn is_number(v: &Vec<char>, from: usize) -> (r: bool)
    requires
        from <= v@.len(),
    ensures
        r == number(v@, from as int, v@.len() as int),
{
    let s = Ghost(v@);
    let len: usize = v.len();
    let whole_end: usize = skip_digits(v, from);
    let mut end: usize = whole_end;
    let mut any_digit: bool = from < whole_end;
    if whole_end < len && v[whole_end] == '.' {
        end = skip_digits(v, whole_end + 1);
        any_digit = any_digit || whole_end + 1 < end;
    }
    // `end` is where the longest mantissa that begins at `from` ends.
    proof {
        assert(any_digit ==> mantissa(s@, from as int, end as int)) by {
            if any_digit && end != whole_end {
                assert(s@[whole_end as int] == '.');
            }
        }
        assert forall|to: int| from <= to <= len && mantissa(s@, from as int, to) implies to
            <= end && any_digit by {
            lemma_mantissa_within(s@, from as int, to, whole_end as int, end as int);
        }
        assert forall|to: int|
            from <= to < len && mantissa(s@, from as int, to) && is_exp_mark(s@[to]) implies to
                == end by {
            lemma_mantissa_within(s@, from as int, to, whole_end as int, end as int);
            lemma_mantissa_reaches(s@, from as int, to, whole_end as int, end as int);
        }
        assert(mantissa(s@, from as int, len as int) ==> end == len) by {
            if mantissa(s@, from as int, len as int) {
                lemma_mantissa_reaches(
                    s@,
                    from as int,
                    len as int,
                    whole_end as int,
                    end as int,
                );
            }
        }
    }
    if !any_digit {
        return false;
    }
    if end == len {
        return true;
    }
    is_exponent(v, end)
}

/// A mantissa that begins at `from` ends no later than the longest one, and
/// the longest one then holds a digit.
proof fn lemma_mantissa_within(s: Seq<char>, from: int, to: int, whole_end: int, end: int)
    requires
        0 <= from <= whole_end <= end <= s.len(),
        from <= to <= s.len(),
        mantissa(s, from, to),
        digits(s, from, whole_end),
        whole_end < s.len() ==> !is_digit(s[whole_end]),
        if whole_end < s.len() && s[whole_end] == '.' {
            digits(s, whole_end + 1, end) && (end < s.len() ==> !is_digit(s[end]))
        } else {
            end == whole_end
        },
    ensures
        to <= end,
        from < whole_end || whole_end + 1 < end,
{
    if from < to && digits(s, from, to) {
        if to > whole_end {
            assert(is_digit(s[whole_end]));
        }
    } else {
        let dot = choose|dot: int|
            {
                &&& from <= dot < to
                &&& to - from > 1
                &&& #[trigger] s[dot] == '.'
                &&& digits(s, from, dot)
                &&& digits(s, dot + 1, to)
            };
        if dot > whole_end {
            assert(is_digit(s[whole_end]));
        }
        if dot < whole_end {
            assert(is_digit(s[dot]));
        }
        assert(dot == whole_end);
        if to > end {
            assert(is_digit(s[end]));
        }
        if !(from < whole_end) {
            assert(to > dot + 1);
        }
    }
}

/// A mantissa that is followed by neither a digit nor a dot is the longest.
proof fn lemma_mantissa_reaches(s: Seq<char>, from: int, to: int, whole_end: int, end: int)
    requires
        0 <= from <= whole_end <= end <= s.len(),
        from <= to <= end,
        mantissa(s, from, to),
        to < s.len() ==> !is_digit(s[to]) && s[to] != '.',
        digits(s, from, whole_end),
        whole_end < s.len() ==> !is_digit(s[whole_end]),
        if whole_end < s.len() && s[whole_end] == '.' {
            digits(s, whole_end + 1, end) && (end < s.len() ==> !is_digit(s[end]))
        } else {
            end == whole_end
        },
    ensures
        to == end,
{
    if to < end {
        if to < whole_end {
            assert(is_digit(s[to]));
        } else if to == whole_end {
            assert(s[to] == '.');
        } else {
            assert(is_digit(s[to]));
        }
    }
}

/// Whether `v` is a numeral.
pub fn is_numeral_chars(v: &Vec<char>) -> (r: bool)
    ensures
        r == is_numeral(v@),
{
    let from: usize = if v.len() > 0 && (v[0] == '+' || v[0] == '-') {
        1
    } else {
        0
    };
    is_special(v, from) || is_number(v, from)
}

/// A percentage as the tool wrote it: the text of a numeral.
#[derive(Debug, PartialEq, Eq)]
pub struct Percent {
    text: String,
}

impl Clone for Percent {
    fn clone(&self) -> (r: Self)
        ensures
            r@ == self@,
    {
        proof {
            use_type_invariant(self);
        }
        Percent { text: self.text.clone() }
    }
}

impl View for Percent {
    type V = Seq<char>;

    closed spec fn view(&self) -> Seq<char> {
        self.text@
    }
}

impl Percent {
    #[verifier::type_invariant]
    spec fn holds_numeral(&self) -> bool {
        is_numeral(self.text@)
    }

    /// Reads `token` as a percentage: `Some` exactly where it is a numeral.
    pub fn parse(token: &str) -> (r: Option<Percent>)
        ensures
            r is Some <==> is_numeral(token@),
            r matches Some(p) ==> p@ == token@,
    {
        let chars = to_chars(token);
        if is_numeral_chars(&chars) {
            Some(Percent { text: token.to_owned() })
        } else {
            None
        }
    }

    /// The numeral.
    pub fn as_str(&self) -> (r: &str)
        ensures
            r@ == self@,
            is_numeral(r@),
    {
        proof {
            use_type_invariant(self);
        }
        self.text.as_str()
    }
}

} // verus!
