use vstd::prelude::*;

verus! {

/// An ASCII decimal digit.
pub open spec fn is_digit(c: char) -> bool {
    '0' <= c <= '9'
}

pub open spec fn is_sign(c: char) -> bool {
    c == '+' || c == '-'
}

/// The text without one leading sign, if it has one.
pub open spec fn unsigned(s: Seq<char>) -> Seq<char> {
    if s.len() > 0 && is_sign(s[0]) {
        s.drop_first()
    } else {
        s
    }
}

pub open spec fn all_digits(s: Seq<char>) -> bool {
    forall|i: int| 0 <= i < s.len() ==> is_digit(#[trigger] s[i])
}

/// Digits around at most one decimal point, with at least one digit.
pub open spec fn is_mantissa(m: Seq<char>) -> bool {
    &&& forall|i: int| 0 <= i < m.len() ==> is_digit(#[trigger] m[i]) || m[i] == '.'
    &&& forall|i: int, j: int| 0 <= i < j < m.len() ==> !(#[trigger] m[i] == '.' && #[trigger] m[j] == '.')
    &&& exists|i: int| 0 <= i < m.len() && is_digit(#[trigger] m[i])
}

/// Either nothing, or `e`/`E`, an optional sign and at least one digit.
pub open spec fn is_exponent(x: Seq<char>) -> bool {
    x.len() == 0 || (x.len() > 0 && (x[0] == 'e' || x[0] == 'E') && unsigned(x.drop_first()).len() > 0
        && all_digits(unsigned(x.drop_first())))
}

pub open spec fn is_decimal(b: Seq<char>) -> bool {
    exists|k: int| 0 <= k <= b.len() && is_mantissa(b.subrange(0, k)) && #[trigger] is_exponent(b.subrange(k, b.len() as int))
}

pub open spec fn eq_ignoring_ascii_case(a: char, lower: char) -> bool {
    a == lower || (('a' <= lower <= 'z') && a as u32 + 32 == lower as u32)
}

/// `inf`, `infinity` or `nan`, in any mix of letter cases.
pub open spec fn is_special(b: Seq<char>) -> bool {
    let m = |i: int, c: char| eq_ignoring_ascii_case(b[i], c);
    ||| b.len() == 3 && m(0, 'i') && m(1, 'n') && m(2, 'f')
    ||| b.len() == 8 && m(0, 'i') && m(1, 'n') && m(2, 'f') && m(3, 'i') && m(4, 'n') && m(5, 'i')
        && m(6, 't') && m(7, 'y')
    ||| b.len() == 3 && m(0, 'n') && m(1, 'a') && m(2, 'n')
}

/// Whether the text is a base-10 floating-point literal as the standard
/// library reads one: an optional sign, then `inf`, `infinity`, `nan`, or
/// digits with at most one decimal point and an optional exponent.
pub open spec fn is_float_literal(s: Seq<char>) -> bool {
    is_special(unsigned(s)) || is_decimal(unsigned(s))
}

fn digit(c: char) -> (r: bool)
    ensures
        r == is_digit(c),
{
    '0' <= c && c <= '9'
}

fn matches_ignoring_case(a: char, lower: char) -> (r: bool)
    requires
        'a' <= lower <= 'z',
    ensures
        r == eq_ignoring_ascii_case(a, lower),
{
    a == lower || (a as u32) + 32 == lower as u32
}

fn special(b: &[char]) -> (r: bool)
    ensures
        r == is_special(b@),
{
    let n = b.len();
    if n != 3 && n != 8 {
        return false;
    }
    let inf = matches_ignoring_case(b[0], 'i') && matches_ignoring_case(b[1], 'n')
        && matches_ignoring_case(b[2], 'f');
    if n == 8 {
        inf && matches_ignoring_case(b[3], 'i') && matches_ignoring_case(b[4], 'n')
            && matches_ignoring_case(b[5], 'i') && matches_ignoring_case(b[6], 't')
            && matches_ignoring_case(b[7], 'y')
    } else {
        inf || (matches_ignoring_case(b[0], 'n') && matches_ignoring_case(b[1], 'a')
            && matches_ignoring_case(b[2], 'n'))
    }
}

/// Whether `x[from..]` is a valid exponent part.
fn exponent(x: &[char], from: usize) -> (r: bool)
    requires
        from <= x@.len(),
    ensures
        r == is_exponent(x@.subrange(from as int, x@.len() as int)),
{
    let ghost e = x@.subrange(from as int, x@.len() as int);
    if from == x.len() {
        return true;
    }
    if x[from] != 'e' && x[from] != 'E' {
        return false;
    }
    let mut i: usize = from + 1;
    let ghost rest = e.drop_first();
    if i < x.len() && (x[i] == '+' || x[i] == '-') {
        i = i + 1;
    }
    let ghost u = unsigned(rest);
    assert(u == x@.subrange(i as int, x@.len() as int));
    if i == x.len() {
        return false;
    }
    assert(e[0] == x@[from as int]);
    assert(rest == x@.subrange(from as int + 1, x@.len() as int));
    let start = i;
    while i < x.len()
        invariant
            start <= i <= x@.len(),
            u == x@.subrange(start as int, x@.len() as int),
            u.len() > 0,
            is_exponent(x@.subrange(from as int, x@.len() as int)) == all_digits(u),
            forall|j: int| start <= j < i ==> is_digit(#[trigger] x@[j]),
        decreases x.len() - i,
    {
        if !digit(x[i]) {
            assert(u[i - start] == x@[i as int]);
            assert(!all_digits(u));
            return false;
        }
        i = i + 1;
    }
    assert(all_digits(u)) by {
        assert forall|j: int| 0 <= j < u.len() implies is_digit(#[trigger] u[j]) by {
            assert(u[j] == x@[start + j]);
        }
    }
    true
}

fn decimal(b: &[char]) -> (r: bool)
    ensures
        r == is_decimal(b@),
{
    let mut i: usize = 0;
    let mut dot: bool = false;
    let mut digits: bool = false;
    while i < b.len() && (digit(b[i]) || b[i] == '.')
        invariant
            0 <= i <= b@.len(),
            forall|j: int| 0 <= j < i ==> is_digit(#[trigger] b@[j]) || b@[j] == '.',
            dot ==> exists|j: int| 0 <= j < i && #[trigger] b@[j] == '.',
            !dot ==> forall|j: int| 0 <= j < i ==> #[trigger] b@[j] != '.',
            forall|j: int, k: int| 0 <= j < k < i ==> !(#[trigger] b@[j] == '.' && #[trigger] b@[k] == '.'),
            digits == exists|j: int| 0 <= j < i && is_digit(#[trigger] b@[j]),
        decreases b.len() - i,
    {
        if b[i] == '.' {
            if dot {
                let ghost j = choose|j: int| 0 <= j < i && #[trigger] b@[j] == '.';
                assert(!is_mantissa(b@.subrange(0, i as int + 1))) by {
                    let m = b@.subrange(0, i as int + 1);
                    assert(m[j] == '.' && m[i as int] == '.');
                }
                proof {
                    lemma_decimal_cut(b@, i as int + 1);
                }
                return false;
            }
            dot = true;
        } else {
            digits = true;
        }
        i = i + 1;
    }
    let ghost m = b@.subrange(0, i as int);
    if !digits {
        assert(!is_mantissa(m)) by {
            if exists|j: int| 0 <= j < m.len() && is_digit(#[trigger] m[j]) {
                let j = choose|j: int| 0 <= j < m.len() && is_digit(#[trigger] m[j]);
                assert(m[j] == b@[j]);
            }
        }
        proof {
            lemma_decimal_mantissa(b@, i as int);
        }
        return false;
    }
    let r = exponent(b, i);
    proof {
        assert(is_mantissa(m)) by {
            let j = choose|j: int| 0 <= j < i && is_digit(#[trigger] b@[j]);
            assert(m[j] == b@[j]);
        }
        lemma_decimal_mantissa(b@, i as int);
    }
    r
}

/// Once the mantissa part `b[..i]` runs out of digits and points, the split
/// point of a decimal literal is `i`.
proof fn lemma_decimal_mantissa(b: Seq<char>, i: int)
    requires
        0 <= i <= b.len(),
        forall|j: int| 0 <= j < i ==> is_digit(#[trigger] b[j]) || b[j] == '.',
        i < b.len() ==> !(is_digit(b[i]) || b[i] == '.'),
    ensures
        is_decimal(b) == (is_mantissa(b.subrange(0, i)) && is_exponent(b.subrange(i, b.len() as int))),
{
    if is_decimal(b) {
        let k = choose|k: int| 0 <= k <= b.len() && is_mantissa(b.subrange(0, k)) && #[trigger] is_exponent(b.subrange(k, b.len() as int));
        if k < i {
            let x = b.subrange(k, b.len() as int);
            assert(x[0] == b[k]);
        } else if k > i {
            assert(b.subrange(0, k)[i] == b[i]);
        }
    }
}

/// A second decimal point in `b[..i]` rules out a decimal literal.
proof fn lemma_decimal_cut(b: Seq<char>, i: int)
    requires
        0 < i <= b.len(),
        !is_mantissa(b.subrange(0, i)),
        forall|j: int| 0 <= j < i ==> is_digit(#[trigger] b[j]) || b[j] == '.',
        exists|j: int| 0 <= j < i - 1 && #[trigger] b[j] == '.',
        b[i - 1] == '.',
    ensures
        !is_decimal(b),
{
    if is_decimal(b) {
        let k = choose|k: int| 0 <= k <= b.len() && is_mantissa(b.subrange(0, k)) && #[trigger] is_exponent(b.subrange(k, b.len() as int));
        let j = choose|j: int| 0 <= j < i - 1 && #[trigger] b[j] == '.';
        if k < i {
            let x = b.subrange(k, b.len() as int);
            assert(x[0] == b[k]);
        } else {
            let m = b.subrange(0, k);
            assert(m[j] == '.' && m[i - 1] == '.');
        }
    }
}

/// Whether the text reads as a base-10 floating-point literal.
pub fn parses_as_float(s: &[char]) -> (r: bool)
    ensures
        r == is_float_literal(s@),
{
    let mut from: usize = 0;
    if s.len() > 0 && (s[0] == '+' || s[0] == '-') {
        from = 1;
    }
    let body = slice_from(s, from);
    assert(body@ == unsigned(s@));
    special(body) || decimal(body)
}

fn slice_from(s: &[char], from: usize) -> (r: &[char])
    requires
        from <= s@.len(),
    ensures
        r@ == s@.subrange(from as int, s@.len() as int),
{
    let (_, tail) = s.split_at(from);
    tail
}

} // verus!
