//! Crockford Base32 codec for 128-bit identifiers.
//!
//! The alphabet has 32 symbols (`0-9`, `A-Z` without the ambiguous
//! `I`, `L`, `O`, `U`). A 128-bit value is rendered as exactly 26
//! symbols, 5 bits per symbol, most significant symbol first.

use vstd::prelude::*;
use vstd::string::StringSliceAdditionalSpecFns;

verus! {

/// Length of a string-encoded Ulid.
pub const ULID_LEN: usize = 26;

/// Marker returned by the symbol lookup for a byte outside the alphabet.
pub const NO_VALUE: u8 = 255;

/// The Crockford Base32 symbol for a 5-bit value, as an ASCII byte.
pub open spec fn symbol(d: u8) -> u8 {
    if d < 10 {
        (d + 48) as u8  // '0' through '9'
    } else if d < 18 {
        (d + 55) as u8  // 'A' through 'H'
    } else if d < 20 {
        (d + 56) as u8  // 'J', 'K' (skip 'I')
    } else if d < 22 {
        (d + 57) as u8  // 'M', 'N' (skip 'L')
    } else if d < 27 {
        (d + 58) as u8  // 'P' through 'T' (skip 'O')
    } else {
        (d + 59) as u8  // 'V' through 'Z' (skip 'U')
    }
}

/// The 5-bit value of an ASCII byte under the Crockford Base32 alphabet,
/// or `NO_VALUE` for a byte outside it. Lowercase letters decode like
/// their uppercase forms; `I`, `L`, `O` and `U` are excluded.
pub open spec fn symbol_value(b: u8) -> u8 {
    let up = if 97 <= b <= 122 {
        (b - 32) as u8
    } else {
        b
    };
    if 48 <= up <= 57 {
        (up - 48) as u8  // digits
    } else if 65 <= up <= 72 {
        (up - 55) as u8  // 'A'..'H' -> 10..17
    } else if up == 74 || up == 75 {
        (up - 56) as u8  // 'J', 'K' -> 18, 19
    } else if up == 77 || up == 78 {
        (up - 57) as u8  // 'M', 'N' -> 20, 21
    } else if 80 <= up <= 84 {
        (up - 58) as u8  // 'P'..'T' -> 22..26
    } else if 86 <= up <= 90 {
        (up - 59) as u8  // 'V'..'Z' -> 27..31
    } else {
        NO_VALUE
    }
}

/// Whether a byte is a symbol of the alphabet (either case).
pub open spec fn is_symbol(b: u8) -> bool {
    symbol_value(b) != NO_VALUE
}

/// The Crockford Base32 symbol for a 5-bit value.
pub fn alphabet_symbol(d: u8) -> (r: u8)
    requires
        d < 32,
    ensures
        r == symbol(d),
{
    if d < 10 {
        d + 48
    } else if d < 18 {
        d + 55
    } else if d < 20 {
        d + 56
    } else if d < 22 {
        d + 57
    } else if d < 27 {
        d + 58
    } else {
        d + 59
    }
}

/// The 32 symbols of the alphabet as ASCII bytes, in value order.
pub fn alphabet() -> (r: Vec<u8>)
    ensures
        r@.len() == 32,
        forall|i: int| 0 <= i < 32 ==> r@[i] == symbol(i as u8),
{
    let mut v: Vec<u8> = Vec::new();
    for d in 0..32u8
        invariant
            v@.len() == d,
            forall|i: int| 0 <= i < d ==> v@[i] == symbol(i as u8),
    {
        v.push(alphabet_symbol(d));
    }
    v
}

/// The 5-bit value of a byte under the alphabet, or `NO_VALUE` when the
/// byte is not a symbol. This is the per-byte lookup that decoding uses.
pub fn lookup(b: u8) -> (r: u8)
    ensures
        r == symbol_value(b),
{
    let up = if 97 <= b && b <= 122 {
        b - 32
    } else {
        b
    };
    if 48 <= up && up <= 57 {
        up - 48
    } else if 65 <= up && up <= 72 {
        up - 55
    } else if up == 74 || up == 75 {
        up - 56
    } else if up == 77 || up == 78 {
        up - 57
    } else if 80 <= up && up <= 84 {
        up - 58
    } else if 86 <= up && up <= 90 {
        up - 59
    } else {
        NO_VALUE
    }
}

/// The i-th 5-bit digit of a 128-bit value, most significant digit
/// first: digit 0 holds bits 125 and up (always below 8), digit 25 the
/// lowest 5 bits.
pub open spec fn digit(v: u128, i: int) -> u8 {
    ((v >> ((5 * (25 - i)) as u128)) & 0x1f) as u8
}

/// The canonical 26-symbol encoding of a 128-bit value, as ASCII bytes.
pub open spec fn encoding(v: u128) -> Seq<u8> {
    Seq::new(26, |i: int| symbol(digit(v, i)))
}

/// The canonical 26-symbol encoding of a 128-bit value, as characters.
pub open spec fn encoding_chars(v: u128) -> Seq<char> {
    Seq::new(26, |i: int| symbol(digit(v, i)) as char)
}

/// The value that a sequence of symbol bytes decodes to: 5 bits per
/// symbol, folded in from the left. Bits shifted out past 128 are lost,
/// exactly as in the executable accumulator.
pub open spec fn folded_value(s: Seq<u8>) -> u128
    decreases s.len(),
{
    if s.len() == 0 {
        0u128
    } else {
        (folded_value(s.drop_last()) << 5) | (symbol_value(s.last()) as u128)
    }
}

/// Whether a byte sequence is a well-formed encoded identifier: exactly
/// 26 bytes, each a symbol of the alphabet (either case).
pub open spec fn is_valid_encoding(s: Seq<u8>) -> bool {
    s.len() == 26 && forall|i: int| 0 <= i < 26 ==> is_symbol(#[trigger] s[i])
}

/// An error that can occur when encoding a base32 string.
#[derive(Debug, PartialEq, Eq, Hash, Copy, Clone, Structural)]
pub enum EncodeError {
    /// The length of the provided buffer is not large enough.
    BufferTooSmall,
}

impl EncodeError {
    /// A short description of the error.
    pub fn message(&self) -> (r: &'static str)
        ensures
            r@ == "buffer too small"@,
    {
        "buffer too small"
    }
}

/// An error that can occur when decoding a base32 string.
#[derive(Debug, PartialEq, Eq, Hash, Copy, Clone, Structural)]
pub enum DecodeError {
    /// The length of the string does not match the expected length.
    InvalidLength,
    /// A non-base32 character was found.
    InvalidChar,
}

impl DecodeError {
    /// A short description of the error.
    pub fn message(&self) -> (r: &'static str)
        ensures
            self is InvalidLength ==> r@ == "invalid length"@,
            self is InvalidChar ==> r@ == "invalid character"@,
    {
        match *self {
            DecodeError::InvalidLength => "invalid length",
            DecodeError::InvalidChar => "invalid character",
        }
    }
}

/// Relies on `String::from_utf8`: bytes that are all ASCII are valid
/// UTF-8 and become a string of exactly those characters.
#[verifier::external_body]
fn string_from_ascii(bytes: Vec<u8>) -> (r: String)
    requires
        forall|i: int| 0 <= i < bytes@.len() ==> bytes@[i] < 128,
    ensures
        r@.len() == bytes@.len(),
        forall|i: int| 0 <= i < bytes@.len() ==> r@[i] == (#[trigger] bytes@[i]) as char,
{
    String::from_utf8(bytes).expect("ASCII bytes are valid UTF-8")
}

/// Encode a 128-bit value into a caller-supplied buffer, which must be
/// at least `ULID_LEN` bytes long. On success the first `ULID_LEN`
/// bytes hold the canonical encoding and the rest are unchanged; a
/// buffer that is too small is left untouched.
pub fn encode_to(value: u128, buffer: &mut Vec<u8>) -> (r: Result<usize, EncodeError>)
    ensures
        old(buffer).len() < ULID_LEN ==> r == Err::<usize, EncodeError>(EncodeError::BufferTooSmall)
            && final(buffer)@ == old(buffer)@,
        old(buffer).len() >= ULID_LEN ==> {
            &&& r == Ok::<usize, EncodeError>(ULID_LEN)
            &&& final(buffer)@.len() == old(buffer)@.len()
            &&& forall|j: int| 0 <= j < 26 ==> final(buffer)@[j] == encoding(value)[j]
            &&& forall|j: int| 26 <= j < old(buffer)@.len() ==> final(buffer)@[j] == old(buffer)@[j]
        },
{
    if buffer.len() < ULID_LEN {
        return Err(EncodeError::BufferTooSmall);
    }

    let mut v = value;
    proof {
        assert(value >> ((5 * 0) as u128) == value) by (bit_vector);
    }
    for i in 0..ULID_LEN
        invariant
            buffer@.len() == old(buffer)@.len() >= 26,
            i < 26 ==> v == value >> ((5 * i) as u128),
            forall|j: int| 26 - i <= j < 26 ==> buffer@[j] == encoding(value)[j],
            forall|j: int| 0 <= j < 26 - i ==> buffer@[j] == old(buffer)@[j],
            forall|j: int| 26 <= j < buffer@.len() ==> buffer@[j] == old(buffer)@[j],
    {
        let d = (v & 0x1f) as u8;
        assert(d == digit(value, 25 - i) && d < 32) by {
            lemma_shift_digit(value, i as u128);
        }
        buffer[ULID_LEN - 1 - i] = alphabet_symbol(d);
        v = v >> 5;
        proof {
            if i + 1 < 26 {
                lemma_shift_chain(value, (5 * i) as u128);
            }
        }
    }
    Ok(ULID_LEN)
}

/// Five more bits of right shift compose: shifting by `s` then by 5 is
/// shifting by `s + 5`.
proof fn lemma_shift_chain(v: u128, s: u128)
    requires
        s <= 120,
    ensures
        (v >> s) >> 5 == v >> ((s + 5) as u128),
{
    assert((v >> s) >> 5 == v >> ((s + 5) as u128)) by (bit_vector)
        requires
            s <= 120,
    ;
}

/// A digit is a 5-bit value.
proof fn lemma_digit_bound(v: u128, i: int)
    requires
        0 <= i < 26,
    ensures
        digit(v, i) < 32,
{
    let s = (5 * (25 - i)) as u128;
    assert(((v >> s) & 0x1f) < 32) by (bit_vector);
}

/// The low 5 bits of `v >> (5 * i)` are digit `25 - i` of `v`.
proof fn lemma_shift_digit(v: u128, i: u128)
    requires
        i < 26,
    ensures
        ((v >> ((5 * i) as u128)) & 0x1f) as u8 == digit(v, 25 - i as int),
        ((v >> ((5 * i) as u128)) & 0x1f) < 32,
{
    assert(5 * (25 - (25 - i as int)) == 5 * i);
    assert(((v >> ((5 * i) as u128)) & 0x1f) < 32) by (bit_vector)
        requires
            i < 26,
    ;
}

/// Encode a 128-bit value as its canonical 26-character string:
/// uppercase symbols of the alphabet, most significant digit first.
pub fn encode(value: u128) -> (r: String)
    ensures
        r@ == encoding_chars(value),
        r@.len() == ULID_LEN,
{
    let mut buffer: Vec<u8> = vec![0u8; ULID_LEN];

    let res = encode_to(value, &mut buffer);
    assert(res is Ok);
    proof {
        assert(buffer@.len() == 26);
        assert forall|i: int| 0 <= i < buffer@.len() implies buffer@[i] < 128 by {
            assert(buffer@[i] == encoding(value)[i]);
            assert(encoding(value)[i] == symbol(digit(value, i)));
            lemma_digit_bound(value, i);
            lemma_symbol_is_ascii(digit(value, i));
        }
    }
    let s = string_from_ascii(buffer);
    proof {
        assert forall|i: int| 0 <= i < 26 implies s@[i] == encoding_chars(value)[i] by {
            assert(buffer@[i] == encoding(value)[i]);
            assert(s@[i] == buffer@[i] as char);
        }
        assert(s@ =~= encoding_chars(value));
    }
    s
}

/// Decode a 26-character Crockford Base32 string to its 128-bit value.
///
/// Fails with `InvalidLength` unless the input is exactly 26 bytes, and
/// with `InvalidChar` if any byte is outside the alphabet (ambiguous
/// letters `I`, `L`, `O`, `U` included); lowercase symbols decode like
/// their uppercase forms.
pub fn decode(encoded: &str) -> (r: Result<u128, DecodeError>)
    ensures
        r is Ok <==> is_valid_encoding(encoded.spec_bytes()),
        r is Ok ==> r->Ok_0 == folded_value(encoded.spec_bytes()),
        r == Err::<u128, DecodeError>(DecodeError::InvalidLength) <==> encoded.spec_bytes().len() != 26,
        r == Err::<u128, DecodeError>(DecodeError::InvalidChar) <==> (encoded.spec_bytes().len() == 26
            && exists|i: int| 0 <= i < 26 && !is_symbol(#[trigger] encoded.spec_bytes()[i])),
{
    let bytes = encoded.as_bytes();

    if bytes.len() != ULID_LEN {
        return Err(DecodeError::InvalidLength);
    }

    let mut value: u128 = 0;

    for i in 0..ULID_LEN
        invariant
            bytes@ == encoded.spec_bytes(),
            bytes@.len() == 26,
            forall|j: int| 0 <= j < i ==> is_symbol(#[trigger] bytes@[j]),
            value == folded_value(bytes@.take(i as int)),
    {
        let val = lookup(bytes[i]);
        if val != NO_VALUE {
            value = (value << 5) | (val as u128);
            proof {
                assert(bytes@.take(i + 1).drop_last() =~= bytes@.take(i as int));
                assert(bytes@.take(i + 1).last() == bytes@[i as int]);
            }
        } else {
            return Err(DecodeError::InvalidChar);
        }
    }
    assert(bytes@.take(26) =~= bytes@);
    Ok(value)
}

/// Every symbol decodes back to its own 5-bit value.
pub proof fn lemma_symbol_value_of_symbol(d: u8)
    requires
        d < 32,
    ensures
        symbol_value(symbol(d)) == d,
{
}

/// The uppercase form of a byte sequence under the alphabet: each
/// symbol replaced by the canonical (uppercase) symbol of its value.
pub open spec fn canonical(s: Seq<u8>) -> Seq<u8> {
    Seq::new(s.len(), |i: int| symbol(symbol_value(s[i])))
}

/// Re-encoding a symbol's value gives the symbol's uppercase form.
pub proof fn lemma_canonical_is_uppercase(b: u8)
    requires
        is_symbol(b),
    ensures
        symbol(symbol_value(b)) == (if 97 <= b <= 122 {
            (b - 32) as u8
        } else {
            b
        }),
{
}

/// Folding the digits of `v` back up, position by position: the first
/// `k` symbols of the encoding fold to the top `5 * k` bits of `v`.
proof fn lemma_partial_roundtrip(v: u128, k: int)
    requires
        1 <= k <= 26,
    ensures
        folded_value(encoding(v).take(k)) == v >> ((130 - 5 * k) as u128),
    decreases k,
{
    let s = encoding(v).take(k);
    assert(s.last() == symbol(digit(v, k - 1)));
    lemma_digit_bound(v, k - 1);
    lemma_symbol_value_of_symbol(digit(v, k - 1));
    let sh = (130 - 5 * k) as u128;
    assert(5 * (25 - (k - 1)) == 130 - 5 * k);
    if k == 1 {
        assert(s.drop_last() =~= Seq::<u8>::empty());
        assert(folded_value(Seq::<u8>::empty()) == 0);
        assert(folded_value(s) == (0u128 << 5) | (symbol_value(s.last()) as u128));
        assert((0u128 << 5) | ((((v >> 125) & 0x1f) as u8) as u128) == v >> 125) by (bit_vector);
    } else {
        lemma_partial_roundtrip(v, k - 1);
        assert(s.drop_last() =~= encoding(v).take(k - 1));
        assert((v >> ((sh + 5) as u128)) << 5 | ((((v >> sh) & 0x1f) as u8) as u128) == v >> sh)
            by (bit_vector)
            requires
                sh <= 120,
        ;
        assert((130 - 5 * (k - 1)) as u128 == (sh + 5) as u128);
    }
}

/// Decoding inverts encoding: the 26 symbols of `encoding(v)` fold back
/// to exactly `v`, for every 128-bit value.
pub proof fn lemma_decode_of_encode(v: u128)
    ensures
        folded_value(encoding(v)) == v,
{
    lemma_partial_roundtrip(v, 26);
    assert(encoding(v).take(26) =~= encoding(v));
    assert(v >> 0u128 == v) by (bit_vector);
}

/// While folding a well-formed encoding whose first symbol is below 8,
/// the accumulator stays small enough that no bit is ever shifted out.
proof fn lemma_fold_bound(s: Seq<u8>, k: int)
    requires
        is_valid_encoding(s),
        symbol_value(s[0]) < 8,
        1 <= k <= 25,
    ensures
        folded_value(s.take(k)) < (1u128 << ((5 * k - 2) as u128)),
    decreases k,
{
    let f = folded_value(s.take(k));
    let d = symbol_value(s[k - 1]);
    assert(s.take(k).last() == s[k - 1]);
    if k == 1 {
        assert(s.take(1).drop_last() =~= Seq::<u8>::empty());
        assert(folded_value(Seq::<u8>::empty()) == 0);
        assert(f == (0u128 << 5) | (d as u128));
        assert((0u128 << 5) | (d as u128) < (1u128 << 3)) by (bit_vector)
            requires
                d < 8,
        ;
    } else {
        lemma_fold_bound(s, k - 1);
        assert(s.take(k).drop_last() =~= s.take(k - 1));
        let x = folded_value(s.take(k - 1));
        let t = (5 * (k - 1) - 2) as u128;
        assert(is_symbol(s[k - 1]));
        assert((x << 5) | (d as u128) < (1u128 << ((t + 5) as u128))) by (bit_vector)
            requires
                x < (1u128 << t),
                t <= 118,
                d < 32,
        ;
        assert((5 * k - 2) as u128 == (t + 5) as u128);
    }
}

/// Each symbol's value can be read back out of the folded accumulator
/// at its own position.
proof fn lemma_fold_digits(s: Seq<u8>, k: int)
    requires
        is_valid_encoding(s),
        symbol_value(s[0]) < 8,
        1 <= k <= 26,
    ensures
        forall|i: int|
            0 <= i < k ==> (folded_value(s.take(k)) >> ((5 * (k - 1 - i)) as u128)) & 0x1f
                == symbol_value(s[i]) as u128,
    decreases k,
{
    let f = folded_value(s.take(k));
    let d = symbol_value(s[k - 1]);
    assert(s.take(k).last() == s[k - 1]);
    assert(is_symbol(s[k - 1]));
    if k == 1 {
        assert(s.take(1).drop_last() =~= Seq::<u8>::empty());
        assert(folded_value(Seq::<u8>::empty()) == 0);
        assert(f == (0u128 << 5) | (d as u128));
        assert(((0u128 << 5) | (d as u128)) >> 0u128 & 0x1f == d as u128) by (bit_vector)
            requires
                d < 32,
        ;
    } else {
        lemma_fold_digits(s, k - 1);
        lemma_fold_bound(s, k - 1);
        assert(s.take(k).drop_last() =~= s.take(k - 1));
        let x = folded_value(s.take(k - 1));
        let tb = (5 * (k - 1) - 2) as u128;
        assert(x < (1u128 << 123)) by (bit_vector)
            requires
                x < (1u128 << tb),
                tb <= 123,
        ;
        assert(((x << 5) | (d as u128)) >> 0u128 & 0x1f == d as u128) by (bit_vector)
            requires
                d < 32,
        ;
        assert forall|i: int| 0 <= i < k - 1 implies (f >> ((5 * (k - 1 - i)) as u128)) & 0x1f
            == symbol_value(s[i]) as u128 by {
            let t = (5 * (k - 2 - i)) as u128;
            assert(((x << 5) | (d as u128)) >> ((t + 5) as u128) & 0x1f == (x >> t) & 0x1f)
                by (bit_vector)
                requires
                    x < (1u128 << 123),
                    d < 32,
                    t <= 120,
            ;
            assert((5 * (k - 1 - i)) as u128 == (t + 5) as u128);
        }
    }
}

/// Strict lexicographic order on byte sequences of equal length: the
/// two differ somewhere, and at the first differing position the left
/// byte is the smaller one.
pub open spec fn lex_less(a: Seq<u8>, b: Seq<u8>) -> bool {
    exists|i: int|
        0 <= i < a.len() && i < b.len() && #[trigger] a[i] < b[i] && (forall|j: int|
            0 <= j < i ==> a[j] == b[j])
}

/// Lexicographic order on the digit strings of two values, restricted
/// to their first `k` digits.
spec fn digits_lex_less(v1: u128, v2: u128, k: int) -> bool {
    exists|i: int|
        0 <= i < k && #[trigger] digit(v1, i) < digit(v2, i) && (forall|j: int|
            0 <= j < i ==> digit(v1, j) == digit(v2, j))
}

/// The first `k` digits of a value, read as one number: its top
/// `5 * k` bits.
spec fn prefix_value(v: u128, k: int) -> u128 {
    v >> ((130 - 5 * k) as u128)
}

/// The alphabet preserves order: a larger 5-bit value always maps to a
/// later symbol.
pub proof fn lemma_symbol_monotone(d1: u8, d2: u8)
    requires
        d1 < d2 < 32,
    ensures
        symbol(d1) < symbol(d2),
{
}

/// Values with the same top `5 * k` bits share their first `k` digits.
proof fn lemma_prefix_eq_digits(v1: u128, v2: u128, k: int)
    requires
        1 <= k <= 26,
        prefix_value(v1, k) == prefix_value(v2, k),
    ensures
        forall|j: int| 0 <= j < k ==> digit(v1, j) == digit(v2, j),
    decreases k,
{
    let s = (130 - 5 * k) as u128;
    if k > 1 {
        assert((v1 >> s) >> 5 == v1 >> ((s + 5) as u128)) by (bit_vector)
            requires
                s <= 120,
        ;
        assert((v2 >> s) >> 5 == v2 >> ((s + 5) as u128)) by (bit_vector)
            requires
                s <= 120,
        ;
        assert((130 - 5 * (k - 1)) as u128 == (s + 5) as u128);
        assert(prefix_value(v1, k - 1) == prefix_value(v2, k - 1));
        lemma_prefix_eq_digits(v1, v2, k - 1);
    }
    assert((5 * (25 - (k - 1))) as u128 == s);
    assert(digit(v1, k - 1) == digit(v2, k - 1));
}

/// Two values that differ in their top `5 * k` bits differ in digits:
/// at the first digit where they disagree, the smaller value holds the
/// smaller digit.
proof fn lemma_digits_lex(v1: u128, v2: u128, k: int)
    requires
        1 <= k <= 26,
        prefix_value(v1, k) < prefix_value(v2, k),
    ensures
        digits_lex_less(v1, v2, k),
    decreases k,
{
    let s = (130 - 5 * k) as u128;
    if k == 1 {
        assert((((v1 >> 125) & 0x1f) as u8) < (((v2 >> 125) & 0x1f) as u8)) by (bit_vector)
            requires
                v1 >> 125 < v2 >> 125,
        ;
        assert(s == 125);
        assert((5 * (25 - 0)) as u128 == 125);
        assert(digit(v1, 0) < digit(v2, 0));
    } else {
        assert((v1 >> s) >> 5 == v1 >> ((s + 5) as u128)) by (bit_vector)
            requires
                s <= 120,
        ;
        assert((v2 >> s) >> 5 == v2 >> ((s + 5) as u128)) by (bit_vector)
            requires
                s <= 120,
        ;
        assert(v1 >> s < v2 >> s ==> (v1 >> s) >> 5 <= (v2 >> s) >> 5) by (bit_vector);
        assert((130 - 5 * (k - 1)) as u128 == (s + 5) as u128);
        if prefix_value(v1, k - 1) < prefix_value(v2, k - 1) {
            lemma_digits_lex(v1, v2, k - 1);
            let w = choose|i: int|
                0 <= i < k - 1 && #[trigger] digit(v1, i) < digit(v2, i) && (forall|j: int|
                    0 <= j < i ==> digit(v1, j) == digit(v2, j));
            assert(0 <= w < k && digit(v1, w) < digit(v2, w));
        } else {
            // the shorter prefixes agree, so the digits before position
            // k - 1 agree and position k - 1 itself holds the difference
            assert(prefix_value(v1, k - 1) == prefix_value(v2, k - 1));
            lemma_prefix_eq_digits(v1, v2, k - 1);
            assert((((v1 >> s) & 0x1f) as u8) < (((v2 >> s) & 0x1f) as u8)) by (bit_vector)
                requires
                    s <= 120,
                    (v1 >> s) >> 5 == (v2 >> s) >> 5,
                    v1 >> s < v2 >> s,
            ;
            assert((5 * (25 - (k - 1))) as u128 == s);
            assert(digit(v1, k - 1) < digit(v2, k - 1));
        }
    }
}

/// No byte sequence is lexicographically below itself.
proof fn lemma_lex_less_irreflexive(a: Seq<u8>)
    ensures
        !lex_less(a, a),
{
}

/// Lexicographic order is asymmetric: two sequences of equal length
/// cannot each be below the other.
proof fn lemma_lex_less_asymmetric(a: Seq<u8>, b: Seq<u8>)
    requires
        a.len() == b.len(),
        lex_less(a, b),
    ensures
        !lex_less(b, a),
{
    let i1 = choose|i: int|
        0 <= i < a.len() && i < b.len() && #[trigger] a[i] < b[i] && (forall|j: int|
            0 <= j < i ==> a[j] == b[j]);
    if lex_less(b, a) {
        let i2 = choose|i: int|
            0 <= i < b.len() && i < a.len() && #[trigger] b[i] < a[i] && (forall|j: int|
                0 <= j < i ==> b[j] == a[j]);
        if i1 < i2 {
            assert(b[i1] == a[i1]);
        } else if i2 < i1 {
            assert(a[i2] == b[i2]);
        }
    }
}

/// The load-bearing guarantee of the format: the integer order of two
/// 128-bit values is exactly the lexicographic order of their
/// canonical encodings.
pub proof fn lemma_order_matches_encoding(v1: u128, v2: u128)
    ensures
        v1 < v2 <==> lex_less(encoding(v1), encoding(v2)),
{
    if v1 < v2 {
        assert(v1 >> 0u128 == v1 && v2 >> 0u128 == v2) by (bit_vector);
        assert((130 - 5 * 26) as u128 == 0u128);
        lemma_digits_lex(v1, v2, 26);
        let w = choose|i: int|
            0 <= i < 26 && #[trigger] digit(v1, i) < digit(v2, i) && (forall|j: int|
                0 <= j < i ==> digit(v1, j) == digit(v2, j));
        lemma_digit_bound(v1, w);
        lemma_digit_bound(v2, w);
        lemma_symbol_monotone(digit(v1, w), digit(v2, w));
        assert(encoding(v1)[w] < encoding(v2)[w]);
        assert forall|j: int| 0 <= j < w implies encoding(v1)[j] == encoding(v2)[j] by {
            assert(digit(v1, j) == digit(v2, j));
        }
    } else if v1 == v2 {
        lemma_lex_less_irreflexive(encoding(v1));
    } else {
        assert(v1 >> 0u128 == v1 && v2 >> 0u128 == v2) by (bit_vector);
        assert((130 - 5 * 26) as u128 == 0u128);
        lemma_digits_lex(v2, v1, 26);
        let w = choose|i: int|
            0 <= i < 26 && #[trigger] digit(v2, i) < digit(v1, i) && (forall|j: int|
                0 <= j < i ==> digit(v2, j) == digit(v1, j));
        lemma_digit_bound(v1, w);
        lemma_digit_bound(v2, w);
        lemma_symbol_monotone(digit(v2, w), digit(v1, w));
        assert(encoding(v2)[w] < encoding(v1)[w]);
        assert forall|j: int| 0 <= j < w implies encoding(v2)[j] == encoding(v1)[j] by {
            assert(digit(v2, j) == digit(v1, j));
        }
        assert(lex_less(encoding(v2), encoding(v1)));
        lemma_lex_less_asymmetric(encoding(v2), encoding(v1));
    }
}

/// Encoding inverts decoding on well-formed input: a 26-symbol string
/// whose first symbol is below 8 re-encodes to its own uppercase form.
/// (A first symbol of value 8 or more would carry bits past the 128th
/// and cannot come from any encoded value.)
pub proof fn lemma_encode_of_decode(s: Seq<u8>)
    requires
        is_valid_encoding(s),
        symbol_value(s[0]) < 8,
    ensures
        encoding(folded_value(s)) == canonical(s),
{
    lemma_fold_digits(s, 26);
    assert(s.take(26) =~= s);
    let v = folded_value(s);
    assert forall|i: int| 0 <= i < 26 implies encoding(v)[i] == canonical(s)[i] by {
        assert((v >> ((5 * (25 - i)) as u128)) & 0x1f == symbol_value(s[i]) as u128);
        assert(is_symbol(s[i]));
        assert(symbol_value(s[i]) < 32);
        assert(digit(v, i) == symbol_value(s[i]));
    }
    assert(encoding(v) =~= canonical(s));
}

/// A symbol is always a printable ASCII byte, so encoded text is ASCII.
pub proof fn lemma_symbol_is_ascii(d: u8)
    requires
        d < 32,
    ensures
        48 <= symbol(d) < 91,
{
}

} // verus!
