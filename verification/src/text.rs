use vstd::prelude::*;
use vstd::string::*;
use vstd::utf8::{
    encode_utf8, is_ascii_chars, is_ascii_chars_encode_utf8, length_of_first_scalar,
    pop_first_scalar, valid_first_scalar, valid_utf8,
};

verus! {

/// The decimal digits of `n`, as ASCII bytes, without leading zeros.
pub open spec fn decimal(n: nat) -> Seq<u8>
    decreases n,
{
    if n < 10 {
        seq![(48 + n) as u8]
    } else {
        decimal(n / 10).push((48 + n % 10) as u8)
    }
}

/// The number that a sequence of ASCII digits denotes in base ten.
pub open spec fn digit_value(s: Seq<u8>) -> nat
    decreases s.len(),
{
    if s.len() == 0 {
        0
    } else {
        digit_value(s.drop_last()) * 10 + (s.last() - 48) as nat
    }
}

/// `s` is how `n` is written in base ten: ASCII digits only, at least one,
/// no leading zero, denoting `n`.
pub open spec fn is_decimal_of(s: Seq<u8>, n: nat) -> bool {
    &&& 0 < s.len()
    &&& forall|i: int| 0 <= i < s.len() ==> 48 <= #[trigger] s[i] <= 57
    &&& s.len() > 1 ==> s[0] != 48
    &&& digit_value(s) == n
}

/// `decimal(n)` writes `n` in base ten, whole.
pub proof fn decimal_renders_value(n: nat)
    ensures
        is_decimal_of(decimal(n), n),
    decreases n,
{
    reveal_with_fuel(digit_value, 2);
    if n < 10 {
        assert(decimal(n).drop_last() =~= Seq::<u8>::empty());
    } else {
        let q = n / 10;
        let r = n % 10;
        decimal_renders_value(q);
        let d = decimal(n);
        assert(d.drop_last() =~= decimal(q));
        assert(d.last() == (48 + r) as u8);
        assert(n == 10 * q + r) by {
            vstd::arithmetic::div_mod::lemma_fundamental_div_mod(n as int, 10);
        }
        assert(digit_value(d) == digit_value(decimal(q)) * 10 + r);
        assert(digit_value(d) == n) by (nonlinear_arith)
            requires
                digit_value(d) == digit_value(decimal(q)) * 10 + r,
                digit_value(decimal(q)) == q,
                n == 10 * q + r,
        ;
        assert(d[0] == decimal(q)[0]);
        if decimal(q).len() == 1 {
            assert(decimal(q).drop_last() =~= Seq::<u8>::empty());
            assert(q >= 1);
        }
        assert forall|i: int| 0 <= i < d.len() implies 48 <= #[trigger] d[i] <= 57 by {
            if i < d.len() - 1 {
                assert(d[i] == decimal(q)[i]);
            }
        }
    }
}

/// The ASCII decimal rendering of `n`, as `format!("{}", n)` writes it.
pub fn decimal_bytes(n: u8) -> (v: Vec<u8>)
    ensures
        v@ == decimal(n as nat),
        is_decimal_of(v@, n as nat),
{
    proof {
        decimal_renders_value(n as nat);
    }
    let mut v: Vec<u8> = Vec::new();
    if n >= 100 {
        v.push(48 + n / 100);
        v.push(48 + (n / 10) % 10);
        v.push(48 + n % 10);
        assert(decimal((n / 100) as nat) == seq![(48 + n / 100) as u8]);
        assert(decimal((n / 10) as nat) == decimal((n / 100) as nat).push(
            (48 + (n / 10) % 10) as u8,
        ));
    } else if n >= 10 {
        v.push(48 + n / 10);
        v.push(48 + n % 10);
        assert(decimal((n / 10) as nat) == seq![(48 + n / 10) as u8]);
    } else {
        v.push(48 + n);
    }
    assert(v@ =~= decimal(n as nat));
    v
}

/// The decimal rendering of a byte has at most three digits.
pub proof fn lemma_decimal_u8_len(n: u8)
    ensures
        1 <= decimal(n as nat).len() <= 3,
{
    if n >= 10 {
        if n >= 100 {
            assert(decimal((n / 100) as nat).len() == 1);
        }
        assert(decimal((n / 10) as nat).len() <= 2);
    }
}

/// The UTF-8 bytes of a string slice, in a vector of their own.
pub fn str_bytes(s: &str) -> (v: Vec<u8>)
    ensures
        v@ == s.spec_bytes(),
{
    let b = s.as_bytes();
    let mut v: Vec<u8> = Vec::new();
    for i in 0..b.len()
        invariant
            v@ == b@.take(i as int),
    {
        v.push(b[i]);
        assert(v@ =~= b@.take(i + 1));
    }
    assert(b@.take(b@.len() as int) =~= b@);
    v
}

/// The bytes of `prefix` followed by the decimal rendering of `n`, as
/// `format!("{prefix}{n}").into_bytes()` gives them.
pub fn labelled(prefix: &str, n: u8) -> (v: Vec<u8>)
    ensures
        v@ == prefix.spec_bytes() + decimal(n as nat),
        is_decimal_of(v@.skip(prefix.spec_bytes().len() as int), n as nat),
{
    let mut v = str_bytes(prefix);
    let d = decimal_bytes(n);
    let ghost before = v@;
    for i in 0..d.len()
        invariant
            v@ == before + d@.take(i as int),
    {
        v.push(d[i]);
        assert(v@ =~= before + d@.take(i + 1));
    }
    assert(d@.take(d@.len() as int) =~= d@);
    assert(v@.skip(prefix.spec_bytes().len() as int) =~= d@);
    v
}

/// An ASCII text is encoded in UTF-8 as one byte per character, the
/// character's code.
pub proof fn lemma_ascii_bytes(chars: Seq<char>)
    requires
        is_ascii_chars(chars),
    ensures
        encode_utf8(chars) == Seq::new(chars.len(), |i: int| chars[i] as u8),
{
    is_ascii_chars_encode_utf8(chars);
    assert(encode_utf8(chars) =~= Seq::new(chars.len(), |i: int| chars[i] as u8));
}

/// What `String::from_utf8_lossy` makes of a byte sequence, as bytes.
pub uninterp spec fn utf8_lossy(bytes: Seq<u8>) -> Seq<u8>;

/// Calls `String::from_utf8_lossy` and returns the bytes of the string it
/// gives. Trusted: the result is a function of the input bytes alone, and
/// bytes that are valid UTF-8 come back unchanged (the function borrows
/// them as they are). What it puts in place of invalid sequences (U+FFFD)
/// is not stated. `text_of` hands it only bytes that are not valid UTF-8,
/// so what the library returns for valid UTF-8 rests on no trust.
#[verifier::external_body]
pub(crate) fn utf8_lossy_bytes(bytes: &[u8]) -> (v: Vec<u8>)
    ensures
        v@ == utf8_lossy(bytes@),
        valid_utf8(bytes@) ==> v@ == bytes@,
{
    String::from_utf8_lossy(bytes).into_owned().into_bytes()
}

/// The length of the well-formed UTF-8 encoding of one scalar that starts
/// at position `i` of `bytes`, or 0 when none starts there.
fn first_scalar_len(bytes: &[u8], i: usize) -> (w: usize)
    requires
        i < bytes@.len(),
    ensures
        w == 0 <==> !valid_first_scalar(bytes@.skip(i as int)),
        w != 0 ==> w == length_of_first_scalar(bytes@.skip(i as int)) && i + w <= bytes@.len(),
{
    let ghost s = bytes@.skip(i as int);
    let n = bytes.len() - i;
    let b0 = bytes[i];
    assert(s[0] == b0);
    if b0 <= 0x7f {
        let cp = (b0 & 0x7F) as u32;
        if 0xD800 <= cp && cp <= 0xDFFF {
            return 0;
        }
        1
    } else if 0xc0 <= b0 && b0 <= 0xdf {
        if n < 2 {
            return 0;
        }
        let b1 = bytes[i + 1];
        assert(s[1] == b1);
        if !(0x80 <= b1 && b1 <= 0xbf) {
            return 0;
        }
        let cp = (((b0 & 0x1F) as u32) << 6) | ((b1 & 0x3f) as u32);
        if cp < 0x80 || (0xD800 <= cp && cp <= 0xDFFF) {
            return 0;
        }
        2
    } else if 0xe0 <= b0 && b0 <= 0xef {
        if n < 3 {
            return 0;
        }
        let b1 = bytes[i + 1];
        let b2 = bytes[i + 2];
        assert(s[1] == b1 && s[2] == b2);
        if !(0x80 <= b1 && b1 <= 0xbf) || !(0x80 <= b2 && b2 <= 0xbf) {
            return 0;
        }
        let cp = (((b0 & 0x0F) as u32) << 12) | (((b1 & 0x3f) as u32) << 6) | ((b2 & 0x3f) as u32);
        if cp < 0x800 || (0xD800 <= cp && cp <= 0xDFFF) {
            return 0;
        }
        3
    } else if 0xf0 <= b0 && b0 <= 0xf7 {
        if n < 4 {
            return 0;
        }
        let b1 = bytes[i + 1];
        let b2 = bytes[i + 2];
        let b3 = bytes[i + 3];
        assert(s[1] == b1 && s[2] == b2 && s[3] == b3);
        if !(0x80 <= b1 && b1 <= 0xbf) || !(0x80 <= b2 && b2 <= 0xbf) || !(0x80 <= b3 && b3
            <= 0xbf) {
            return 0;
        }
        let cp = (((b0 & 0x07) as u32) << 18) | (((b1 & 0x3f) as u32) << 12) | (((b2 & 0x3f) as u32)
            << 6) | ((b3 & 0x3f) as u32);
        if cp < 0x10000 || cp > 0x10ffff || (0xD800 <= cp && cp <= 0xDFFF) {
            return 0;
        }
        4
    } else {
        0
    }
}

/// Whether `bytes` is well-formed UTF-8.
pub fn is_valid_utf8(bytes: &[u8]) -> (b: bool)
    ensures
        b == valid_utf8(bytes@),
{
    let len = bytes.len();
    let mut i: usize = 0;
    assert(bytes@.skip(0) =~= bytes@);
    while i < len
        invariant
            len == bytes@.len(),
            i <= len,
            valid_utf8(bytes@) == valid_utf8(bytes@.skip(i as int)),
        decreases len - i,
    {
        let w = first_scalar_len(bytes, i);
        if w == 0 {
            return false;
        }
        proof {
            let s = bytes@.skip(i as int);
            assert(pop_first_scalar(s) =~= bytes@.skip(i + w));
        }
        i = i + w;
    }
    assert(bytes@.skip(len as int) =~= Seq::<u8>::empty());
    true
}

/// Bytes read as text the way `String::from_utf8_lossy` reads them: valid
/// UTF-8 as it is, anything else as that function renders it.
pub open spec fn lossy_text(bytes: Seq<u8>) -> Seq<u8> {
    if valid_utf8(bytes) {
        bytes
    } else {
        utf8_lossy(bytes)
    }
}

/// `bytes` read as text: kept as they are when they are valid UTF-8,
/// otherwise handed to `String::from_utf8_lossy`.
pub fn text_of(bytes: &[u8]) -> (v: Vec<u8>)
    ensures
        v@ == lossy_text(bytes@),
        valid_utf8(bytes@) ==> v@ == bytes@,
{
    if is_valid_utf8(bytes) {
        let mut v: Vec<u8> = Vec::new();
        for i in 0..bytes.len()
            invariant
                v@ == bytes@.take(i as int),
        {
            v.push(bytes[i]);
            assert(v@ =~= bytes@.take(i + 1));
        }
        assert(bytes@.take(bytes@.len() as int) =~= bytes@);
        v
    } else {
        utf8_lossy_bytes(bytes)
    }
}

} // verus!
