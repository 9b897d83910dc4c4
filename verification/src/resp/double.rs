//! Doubles travel as text. The library keeps the literal and checks its
//! grammar; what number the literal stands for is left to the caller.

use super::decimal::is_digit;
use vstd::prelude::*;

verus! {

/// The lower-case form of an ASCII letter; any other byte is itself.
pub open spec fn ascii_lower(b: u8) -> u8 {
    if 65 <= b <= 90 {
        (b + 32) as u8
    } else {
        b
    }
}

/// `s` spells `word`, whatever the case of its letters.
pub open spec fn spells(s: Seq<u8>, word: Seq<u8>) -> bool {
    s.len() == word.len() && forall|i: int| 0 <= i < s.len() ==> ascii_lower(#[trigger] s[i])
        == word[i]
}

/// `inf`, `infinity` or `nan`, in any case.
pub open spec fn is_special(s: Seq<u8>) -> bool {
    spells(s, seq![105u8, 110, 102]) || spells(
        s,
        seq![105u8, 110, 102, 105, 110, 105, 116, 121],
    ) || spells(s, seq![110u8, 97, 110])
}

/// The end of the run of digits that begins at `from`.
pub open spec fn digit_run(s: Seq<u8>, from: int) -> int
    decreases s.len() - from,
{
    if 0 <= from < s.len() && is_digit(s[from]) {
        digit_run(s, from + 1)
    } else {
        from
    }
}

/// A number without sign: digits with at most one `.` among them and at
/// least one digit in all, then optionally `e` or `E`, an optional sign and
/// one or more digits.
pub open spec fn is_number(s: Seq<u8>) -> bool {
    let int_end = digit_run(s, 0);
    let has_point = int_end < s.len() && s[int_end] == 46;
    let mantissa_end = if has_point {
        digit_run(s, int_end + 1)
    } else {
        int_end
    };
    let digits = if has_point {
        mantissa_end - 1
    } else {
        mantissa_end
    };
    digits >= 1 && (mantissa_end == s.len() || ((s[mantissa_end] == 101 || s[mantissa_end] == 69)
        && {
        let signed = mantissa_end + 1 < s.len() && (s[mantissa_end + 1] == 43 || s[mantissa_end
            + 1] == 45);
        let exp_start = if signed {
            mantissa_end + 2
        } else {
            mantissa_end + 1
        };
        exp_start < digit_run(s, exp_start) == s.len()
    }))
}

/// `s` begins with `+` or `-`.
pub open spec fn has_sign(s: Seq<u8>) -> bool {
    s.len() > 0 && (s[0] == 43 || s[0] == 45)
}

/// The literals that a double may be written as: an optional sign in front
/// of a number, or of one of the words `inf`, `infinity` and `nan`.
pub open spec fn is_float_literal(s: Seq<u8>) -> bool {
    let body = if has_sign(s) {
        s.skip(1)
    } else {
        s
    };
    is_special(body) || is_number(body)
}

/// The literal with its sign written out: `+` is put in front of a literal
/// that has none.
pub open spec fn with_sign(s: Seq<u8>) -> Seq<u8> {
    if has_sign(s) {
        s
    } else {
        seq![43u8] + s
    }
}

/// Writing the sign out leaves a literal a literal.
pub(crate) proof fn lemma_with_sign_is_literal(s: Seq<u8>)
    requires
        is_float_literal(s),
    ensures
        is_float_literal(with_sign(s)),
        has_sign(with_sign(s)),
        with_sign(with_sign(s)) == with_sign(s),
{
    if !has_sign(s) {
        assert(with_sign(s).skip(1) =~= s);
    }
}

/// A double, held as the literal that stands for it on the wire, sign
/// included.
#[derive(Debug, PartialEq, Eq)]
pub struct RespDouble(pub(crate) Vec<u8>);

impl View for RespDouble {
    type V = Seq<u8>;

    open(crate) spec fn view(&self) -> Seq<u8> {
        self.0@
    }
}

impl Clone for RespDouble {
    fn clone(&self) -> (r: Self)
        ensures
            r@ == self@,
    {
        proof {
            use_type_invariant(self);
        }
        RespDouble(self.0.clone())
    }
}

impl RespDouble {
    #[verifier::type_invariant]
    spec fn inv(self) -> bool {
        is_float_literal(self.0@) && has_sign(self.0@)
    }

    /// Takes `literal` as a double if it is written as one.
    pub fn new(literal: &[u8]) -> (r: Option<Self>)
        ensures
            match r {
                Some(d) => is_float_literal(literal@) && d@ == with_sign(literal@),
                None => !is_float_literal(literal@),
            },
    {
        if !check_float_literal(literal) {
            return None;
        }
        let mut text: Vec<u8> = Vec::new();
        if !(literal.len() > 0 && (literal[0] == 43 || literal[0] == 45)) {
            text.push(43);
        }
        text.extend_from_slice(literal);
        proof {
            lemma_with_sign_is_literal(literal@);
            assert(text@ =~= with_sign(literal@));
        }
        Some(RespDouble(text))
    }

    /// The literal, sign included.
    pub fn literal(&self) -> (r: &[u8])
        ensures
            r@ == self@,
            is_float_literal(self@),
            has_sign(self@),
    {
        proof {
            use_type_invariant(self);
        }
        self.0.as_slice()
    }
}

/// Steps over the digits that begin at `from`.
fn skip_digits(s: &[u8], from: usize) -> (r: usize)
    requires
        from <= s@.len(),
    ensures
        r == digit_run(s@, from as int),
        from <= r <= s@.len(),
{
    let mut i = from;
    while i < s.len() && s[i] >= 48 && s[i] <= 57
        invariant
            from <= i <= s@.len(),
            digit_run(s@, from as int) == digit_run(s@, i as int),
        decreases s@.len() - i,
    {
        i = i + 1;
    }
    i
}

/// `s` spells `word`, whatever the case of its letters.
fn spells_word(s: &[u8], word: &[u8]) -> (r: bool)
    ensures
        r == spells(s@, word@),
{
    if s.len() != word.len() {
        return false;
    }
    let mut i: usize = 0;
    while i < s.len()
        invariant
            i <= s@.len() == word@.len(),
            forall|j: int| 0 <= j < i ==> ascii_lower(#[trigger] s@[j]) == word@[j],
        decreases s@.len() - i,
    {
        let b = s[i];
        let low = if b >= 65 && b <= 90 {
            b + 32
        } else {
            b
        };
        if low != word[i] {
            return false;
        }
        i = i + 1;
    }
    true
}

/// Checks the grammar of an unsigned number.
fn check_number(s: &[u8]) -> (r: bool)
    ensures
        r == is_number(s@),
{
    let n = s.len();
    let int_end = skip_digits(s, 0);
    let has_point = int_end < n && s[int_end] == 46;
    let mantissa_end = if has_point {
        skip_digits(s, int_end + 1)
    } else {
        int_end
    };
    let digits = if has_point {
        mantissa_end - 1
    } else {
        mantissa_end
    };
    if digits < 1 {
        return false;
    }
    if mantissa_end == n {
        return true;
    }
    if !(s[mantissa_end] == 101 || s[mantissa_end] == 69) {
        return false;
    }
    let signed = mantissa_end + 1 < n && (s[mantissa_end + 1] == 43 || s[mantissa_end + 1] == 45);
    let exp_start = if signed {
        mantissa_end + 2
    } else {
        mantissa_end + 1
    };
    if exp_start > n {
        return false;
    }
    let exp_end = skip_digits(s, exp_start);
    exp_start < exp_end && exp_end == n
}

/// Checks the grammar of a floating point literal.
pub fn check_float_literal(s: &[u8]) -> (r: bool)
    ensures
        r == is_float_literal(s@),
{
    let signed = s.len() > 0 && (s[0] == 43 || s[0] == 45);
    let body = if signed {
        vstd::slice::slice_subrange(s, 1, s.len())
    } else {
        s
    };
    let inf: [u8; 3] = [105, 110, 102];
    let infinity: [u8; 8] = [105, 110, 102, 105, 110, 105, 116, 121];
    let nan: [u8; 3] = [110, 97, 110];
    if spells_word(body, inf.as_slice()) || spells_word(body, infinity.as_slice()) || spells_word(
        body,
        nan.as_slice(),
    ) {
        proof {
            assert(inf@ =~= seq![105u8, 110, 102]);
            assert(infinity@ =~= seq![105u8, 110, 102, 105, 110, 105, 116, 121]);
            assert(nan@ =~= seq![110u8, 97, 110]);
        }
        return true;
    }
    proof {
        assert(inf@ =~= seq![105u8, 110, 102]);
        assert(infinity@ =~= seq![105u8, 110, 102, 105, 110, 105, 116, 121]);
        assert(nan@ =~= seq![110u8, 97, 110]);
    }
    check_number(body)
}

} // verus!
