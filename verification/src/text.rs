//! Byte-level text utilities shared by the record parser and the renderer.

use vstd::prelude::*;

verus! {

/// ASCII code of `"`.
pub const QUOTE: u8 = 34;

/// ASCII code of `,`.
pub const COMMA: u8 = 44;

/// ASCII code of the line feed.
pub const NEWLINE: u8 = 10;

/// ASCII code of the carriage return.
pub const CARRIAGE_RETURN: u8 = 13;

/// ASCII code of `0`.
pub const DIGIT_ZERO: u8 = 48;

/// ASCII code of `9`.
pub const DIGIT_NINE: u8 = 57;

/// ASCII code of `A`.
pub const UPPER_A: u8 = 65;

/// ASCII code of `Z`.
pub const UPPER_Z: u8 = 90;

/// ASCII code of `T`.
pub const UPPER_T: u8 = 84;

/// ASCII code of the space.
pub const SPACE: u8 = 32;

/// ASCII code of `(`.
pub const LEFT_PAREN: u8 = 40;

/// ASCII code of `)`.
pub const RIGHT_PAREN: u8 = 41;

/// ASCII code of `:`.
pub const COLON: u8 = 58;

/// ASCII code of `*`.
pub const STAR: u8 = 42;

/// ASCII code of `x`.
pub const LOWER_X: u8 = 120;

/// ASCII code of `f`.
pub const LOWER_F: u8 = 102;

/// Index of the first occurrence of byte `b` in `s`, if any.
pub open spec fn find_byte(s: Seq<u8>, b: u8) -> Option<int>
    decreases s.len(),
{
    if s.len() == 0 {
        None
    } else if s[0] == b {
        Some(0int)
    } else {
        match find_byte(s.skip(1), b) {
            None => None,
            Some(i) => Some(i + 1),
        }
    }
}

/// `find_byte` returns the first matching index.
pub proof fn lemma_find_byte_some(s: Seq<u8>, b: u8, i: int)
    requires
        0 <= i < s.len(),
        s[i] == b,
        forall|j: int| 0 <= j < i ==> s[j] != b,
    ensures
        find_byte(s, b) == Some(i),
    decreases i,
{
    if i > 0 {
        lemma_find_byte_some(s.skip(1), b, i - 1);
    }
}

/// `find_byte` finds nothing when no byte matches.
pub proof fn lemma_find_byte_none(s: Seq<u8>, b: u8)
    requires
        forall|j: int| 0 <= j < s.len() ==> s[j] != b,
    ensures
        find_byte(s, b) == None::<int>,
    decreases s.len(),
{
    if s.len() > 0 {
        lemma_find_byte_none(s.skip(1), b);
    }
}

/// What a `find_byte` result says about the sequence.
pub proof fn lemma_find_byte_props(s: Seq<u8>, b: u8)
    ensures
        match find_byte(s, b) {
            Some(i) => 0 <= i < s.len() && s[i] == b && (forall|j: int| 0 <= j < i ==> s[j] != b),
            None => forall|j: int| 0 <= j < s.len() ==> s[j] != b,
        },
    decreases s.len(),
{
    if s.len() > 0 && s[0] != b {
        lemma_find_byte_props(s.skip(1), b);
        let t = s.skip(1);
        assert(forall|j: int| 1 <= j < s.len() ==> s[j] == #[trigger] t[j - 1]);
        match find_byte(t, b) {
            Some(i) => {
                assert(s[i + 1] == t[i]);
                assert(forall|j: int| 0 <= j < i + 1 ==> s[j] != b) by {
                    assert(forall|j: int| 1 <= j < i + 1 ==> #[trigger] s[j] == t[j - 1]);
                }
            }
            None => {
                assert(forall|j: int| 0 <= j < s.len() ==> s[j] != b) by {
                    assert(forall|j: int| 1 <= j < s.len() ==> #[trigger] s[j] == t[j - 1]);
                }
            }
        }
    }
}

/// First occurrence of `b` in `s` at or after position `from`.
pub fn find_byte_from(s: &[u8], from: usize, b: u8) -> (r: Option<usize>)
    requires
        from <= s@.len(),
    ensures
        r matches Some(i) ==> from <= i < s@.len()
            && find_byte(s@.skip(from as int), b) == Some(i - from),
        r is None ==> find_byte(s@.skip(from as int), b) == None::<int>,
{
    let mut i: usize = from;
    while i < s.len()
        invariant
            from <= i <= s@.len(),
            forall|j: int| from <= j < i ==> s@[j] != b,
        decreases s@.len() - i,
    {
        if s[i] == b {
            proof {
                assert(s@.skip(from as int)[i - from] == b);
                assert(forall|j: int| 0 <= j < i - from ==> s@.skip(from as int)[j] != b);
                lemma_find_byte_some(s@.skip(from as int), b, i - from);
            }
            return Some(i);
        }
        i = i + 1;
    }
    proof {
        assert(forall|j: int| 0 <= j < s@.skip(from as int).len() ==> s@.skip(from as int)[j] != b);
        lemma_find_byte_none(s@.skip(from as int), b);
    }
    None
}

/// Byte-wise equality of two slices.
pub fn bytes_eq(a: &[u8], b: &[u8]) -> (r: bool)
    ensures
        r == (a@ == b@),
{
    if a.len() != b.len() {
        return false;
    }
    let mut i: usize = 0;
    while i < a.len()
        invariant
            a@.len() == b@.len(),
            i <= a@.len(),
            forall|j: int| 0 <= j < i ==> a@[j] == b@[j],
        decreases a@.len() - i,
    {
        if a[i] != b[i] {
            return false;
        }
        i = i + 1;
    }
    proof {
        assert(a@ =~= b@);
    }
    true
}

/// ASCII lower-casing of one byte.
pub open spec fn lower_byte(b: u8) -> u8 {
    if UPPER_A <= b && b <= UPPER_Z {
        (b + 32) as u8
    } else {
        b
    }
}

/// ASCII lower-casing of a byte sequence.
pub open spec fn lower_bytes(s: Seq<u8>) -> Seq<u8> {
    Seq::new(s.len(), |i: int| lower_byte(s[i]))
}

/// Lower-cases the ASCII letters of `s`; other bytes are unchanged.
pub fn to_lower(s: &[u8]) -> (r: Vec<u8>)
    ensures
        r@ == lower_bytes(s@),
{
    let mut r: Vec<u8> = Vec::new();
    let mut i: usize = 0;
    while i < s.len()
        invariant
            i <= s@.len(),
            r@ =~= lower_bytes(s@).take(i as int),
        decreases s@.len() - i,
    {
        let c = s[i];
        if UPPER_A <= c && c <= UPPER_Z {
            r.push(c + 32);
        } else {
            r.push(c);
        }
        i = i + 1;
    }
    proof {
        assert(r@ =~= lower_bytes(s@));
    }
    r
}

/// Copies the bytes of `s` between `from` and `to` into a fresh vector.
pub fn copy_range(s: &[u8], from: usize, to: usize) -> (r: Vec<u8>)
    requires
        from <= to <= s@.len(),
    ensures
        r@ == s@.subrange(from as int, to as int),
{
    let mut r: Vec<u8> = Vec::new();
    let mut i: usize = from;
    while i < to
        invariant
            from <= i <= to <= s@.len(),
            r@ =~= s@.subrange(from as int, i as int),
        decreases to - i,
    {
        r.push(s[i]);
        i = i + 1;
    }
    proof {
        assert(r@ =~= s@.subrange(from as int, to as int));
    }
    r
}

/// Appends all of `s` to `out`.
pub fn push_bytes(out: &mut Vec<u8>, s: &[u8])
    ensures
        final(out)@ == old(out)@ + s@,
{
    let mut i: usize = 0;
    while i < s.len()
        invariant
            i <= s@.len(),
            out@ =~= old(out)@ + s@.take(i as int),
        decreases s@.len() - i,
    {
        out.push(s[i]);
        i = i + 1;
    }
    proof {
        assert(out@ =~= old(out)@ + s@);
    }
}

/// Is `b` the code of a decimal digit?
pub open spec fn is_digit(b: u8) -> bool {
    DIGIT_ZERO <= b && b <= DIGIT_NINE
}

/// A non-empty byte sequence made of decimal digits only.
pub open spec fn is_digits(s: Seq<u8>) -> bool {
    s.len() > 0 && forall|i: int| 0 <= i < s.len() ==> is_digit(#[trigger] s[i])
}

/// Numeric value of a digit sequence, most significant digit first.
pub open spec fn dec_val(s: Seq<u8>) -> nat
    decreases s.len(),
{
    if s.len() == 0 {
        0
    } else {
        (dec_val(s.drop_last()) * 10 + (s.last() - DIGIT_ZERO)) as nat
    }
}

/// A digit prefix never exceeds the value of the whole digit sequence.
pub proof fn lemma_dec_val_prefix(s: Seq<u8>, k: int)
    requires
        0 <= k <= s.len(),
        forall|i: int| 0 <= i < s.len() ==> is_digit(#[trigger] s[i]),
    ensures
        dec_val(s.take(k)) <= dec_val(s),
    decreases s.len() - k,
{
    if k == s.len() {
        assert(s.take(k) =~= s);
    } else {
        assert(s.take(k + 1).drop_last() =~= s.take(k));
        assert(s.take(k + 1).last() == s[k]);
        lemma_dec_val_prefix(s, k + 1);
    }
}

/// Parses a decimal number. Returns its value exactly when `s` is a
/// non-empty, all-digit sequence whose value fits in a `usize`.
pub fn parse_decimal(s: &[u8]) -> (r: Option<usize>)
    ensures
        r matches Some(v) ==> is_digits(s@) && v as nat == dec_val(s@) && dec_val(s@) <= usize::MAX,
        r is None ==> !(is_digits(s@) && dec_val(s@) <= usize::MAX),
{
    if s.len() == 0 {
        return None;
    }
    let ghost n: int = s@.len() as int;
    let mut acc: usize = 0;
    let mut i: usize = 0;
    while i < s.len()
        invariant
            0 < s@.len(),
            i <= s@.len(),
            forall|j: int| 0 <= j < i ==> is_digit(#[trigger] s@[j]),
            acc as nat == dec_val(s@.take(i as int)),
        decreases s@.len() - i,
    {
        let c = s[i];
        if c < DIGIT_ZERO || c > DIGIT_NINE {
            return None;
        }
        proof {
            assert(s@.take(i + 1).drop_last() =~= s@.take(i as int));
            assert(s@.take(i + 1).last() == s@[i as int]);
        }
        let d = (c - DIGIT_ZERO) as usize;
        if acc > usize::MAX / 10 {
            proof {
                if is_digits(s@) {
                    assert(dec_val(s@.take(i + 1)) > usize::MAX);
                    lemma_dec_val_prefix(s@, i + 1);
                }
            }
            return None;
        }
        let acc10 = acc * 10;
        if d > usize::MAX - acc10 {
            proof {
                if is_digits(s@) {
                    assert(dec_val(s@.take(i + 1)) > usize::MAX);
                    lemma_dec_val_prefix(s@, i + 1);
                }
            }
            return None;
        }
        acc = acc10 + d;
        i = i + 1;
    }
    proof {
        assert(s@.take(s@.len() as int) =~= s@);
    }
    Some(acc)
}

/// Decimal rendering of `n`, most significant digit first, no sign,
/// no leading zeros except for the single digit of zero itself.
pub open spec fn dec_digits(n: nat) -> Seq<u8>
    decreases n,
{
    if n < 10 {
        seq![(n + DIGIT_ZERO) as u8]
    } else {
        dec_digits(n / 10).push(((n % 10) + DIGIT_ZERO) as u8)
    }
}

/// Renders `n` in decimal.
pub fn render_decimal(n: usize) -> (r: Vec<u8>)
    ensures
        r@ == dec_digits(n as nat),
    decreases n,
{
    if n < 10 {
        let mut r: Vec<u8> = Vec::new();
        r.push(n as u8 + DIGIT_ZERO);
        proof {
            assert(r@ =~= dec_digits(n as nat));
        }
        r
    } else {
        let mut r = render_decimal(n / 10);
        r.push((n % 10) as u8 + DIGIT_ZERO);
        r
    }
}

/// Does `s` contain `pat` as a contiguous run of bytes?
pub open spec fn contains_seq(s: Seq<u8>, pat: Seq<u8>) -> bool {
    exists|i: int| 0 <= i && i + pat.len() <= s.len() && #[trigger] s.subrange(i, i + pat.len()) == pat
}

/// Does `pat` occur in `s` starting at position `i`?
fn matches_at(s: &[u8], pat: &[u8], i: usize) -> (r: bool)
    requires
        i + pat@.len() <= s@.len(),
    ensures
        r == (s@.subrange(i as int, i + pat@.len()) == pat@),
{
    let n = s.len();
    let mut j: usize = 0;
    while j < pat.len()
        invariant
            n == s@.len(),
            i + pat@.len() <= s@.len(),
            j <= pat@.len(),
            forall|m: int| 0 <= m < j ==> s@[i + m] == #[trigger] pat@[m],
        decreases pat@.len() - j,
    {
        if s[i + j] != pat[j] {
            proof {
                assert(s@.subrange(i as int, i + pat@.len())[j as int] == s@[i + j]);
            }
            return false;
        }
        j = j + 1;
    }
    proof {
        assert(s@.subrange(i as int, i + pat@.len()) =~= pat@);
    }
    true
}

/// Substring search over bytes.
pub fn contains_bytes(s: &[u8], pat: &[u8]) -> (r: bool)
    ensures
        r == contains_seq(s@, pat@),
{
    if pat.len() > s.len() {
        return false;
    }
    if pat.len() == 0 {
        proof {
            assert(s@.subrange(0, 0 + pat@.len() as int) =~= pat@);
        }
        return true;
    }
    let n = s.len();
    let last = s.len() - pat.len();
    let mut i: usize = 0;
    while i <= last
        invariant
            n == s@.len(),
            0 < pat@.len() <= s@.len(),
            last == s@.len() - pat@.len(),
            i <= last + 1,
            forall|k: int| 0 <= k < i ==> #[trigger] s@.subrange(k, k + pat@.len()) != pat@,
        decreases last + 1 - i,
    {
        if matches_at(s, pat, i) {
            proof {
                assert(s@.subrange(i as int, i + pat@.len()) == pat@);
            }
            return true;
        }
        i = i + 1;
    }
    assert(forall|k: int| 0 <= k && k + pat@.len() <= s@.len() ==> #[trigger] s@.subrange(k, k + pat@.len()) != pat@);
    false
}

} // verus!
