//! The hash entity: an immutable byte buffer produced by some external
//! digest or signature algorithm, exposed through read-only projections
//! (hex digest, base64 digest, integer-per-byte view, buffer copy).

use base64::Engine;
use vstd::prelude::*;

verus! {

/// The encodings `digest` accepts: absent (hex by default), `"hex"`, or
/// `"base64"`. Anything else is a misuse of the interface.
pub open spec fn supported_encoding(encoding: Option<&str>) -> bool {
    match encoding {
        None => true,
        Some(s) => s@ == "hex"@ || s@ == "base64"@,
    }
}

/// The encoding argument asks for the hex rendering (the default).
pub open spec fn names_hex(encoding: Option<&str>) -> bool {
    match encoding {
        None => true,
        Some(s) => s@ == "hex"@,
    }
}

/// The encoding argument asks for the base64 rendering.
pub open spec fn names_base64(encoding: Option<&str>) -> bool {
    match encoding {
        None => false,
        Some(s) => s@ == "base64"@,
    }
}

/// The character standing for the hex digit `n` (`0..=9` then `a..=f`),
/// lowercase.
pub open spec fn hex_digit(n: u8) -> char
    recommends
        n < 16,
{
    if n < 10 {
        ((n + 48) as u8) as char
    } else {
        ((n + 87) as u8) as char
    }
}

/// The lowercase hex rendering of a byte sequence: two digits per byte,
/// in buffer order, no separators.
pub open spec fn hex_of(b: Seq<u8>) -> Seq<char>
    decreases b.len(),
{
    if b.len() == 0 {
        Seq::<char>::empty()
    } else {
        seq![hex_digit(b[0] / 16), hex_digit(b[0] % 16)] + hex_of(b.drop_first())
    }
}

/// A character of the lowercase hex alphabet.
pub open spec fn is_hex_char(c: char) -> bool {
    (48 <= c as u32 && c as u32 <= 57) || (97 <= c as u32 && c as u32 <= 102)
}

/// Hex rendering distributes over appending one byte.
proof fn lemma_hex_of_push(b: Seq<u8>, x: u8)
    ensures
        hex_of(b.push(x)) == hex_of(b) + seq![hex_digit(x / 16), hex_digit(x % 16)],
    decreases b.len(),
{
    if b.len() == 0 {
        let p = b.push(x);
        assert(p.len() == 1);
        assert(p[0] == x);
        assert(p.drop_first() =~= Seq::<u8>::empty());
        assert(hex_of(p.drop_first()) == Seq::<char>::empty());
        assert(hex_of(p) == seq![hex_digit(x / 16), hex_digit(x % 16)] + Seq::<char>::empty());
        assert(hex_of(b) == Seq::<char>::empty());
        assert(hex_of(p) =~= hex_of(b) + seq![hex_digit(x / 16), hex_digit(x % 16)]);
    } else {
        assert(b.push(x).drop_first() =~= b.drop_first().push(x));
        lemma_hex_of_push(b.drop_first(), x);
        assert(hex_of(b.push(x)) =~= hex_of(b) + seq![hex_digit(x / 16), hex_digit(x % 16)]);
    }
}

/// The hex rendering has exactly two characters per byte.
pub proof fn lemma_hex_of_len(b: Seq<u8>)
    ensures
        hex_of(b).len() == 2 * b.len(),
    decreases b.len(),
{
    if b.len() > 0 {
        lemma_hex_of_len(b.drop_first());
    }
}

/// A hex digit's character is in the lowercase hex alphabet.
proof fn lemma_hex_digit_is_hex(n: u8)
    requires
        n < 16,
    ensures
        is_hex_char(hex_digit(n)),
{
    if n < 10 {
        assert(hex_digit(n) as u32 == n + 48);
    } else {
        assert(hex_digit(n) as u32 == n + 87);
    }
}

/// Every character of the hex rendering is a lowercase hex digit.
pub proof fn lemma_hex_of_is_hex(b: Seq<u8>)
    ensures
        forall|i: int| 0 <= i < hex_of(b).len() ==> is_hex_char(#[trigger] hex_of(b)[i]),
    decreases b.len(),
{
    if b.len() > 0 {
        lemma_hex_of_is_hex(b.drop_first());
        lemma_hex_digit_is_hex(b[0] / 16);
        lemma_hex_digit_is_hex(b[0] % 16);
        assert forall|i: int| 0 <= i < hex_of(b).len() implies is_hex_char(hex_of(b)[i]) by {
            if i >= 2 {
                assert(hex_of(b)[i] == hex_of(b.drop_first())[i - 2]);
            }
        }
    }
}

/// The standard base64 rendering (standard alphabet, with padding) of a
/// byte sequence; the full character-level definition is left to the
/// base64 crate.
pub uninterp spec fn base64_of(b: Seq<u8>) -> Seq<char>;

/// What standard base64 decoding returns for a character sequence:
/// `Some` bytes on well-formed input, `None` otherwise; the definition is
/// left to the base64 crate.
pub uninterp spec fn base64_decode_of(s: Seq<char>) -> Option<Seq<u8>>;

/// Relies on `base64::engine::general_purpose::STANDARD.encode`
/// (standard alphabet, with padding): the result is a function of the
/// bytes alone, four characters for every started group of three bytes,
/// and `STANDARD.decode` inverts it. A `Vec<u8>` holds at most
/// `isize::MAX` bytes, so the encoded length always fits in `usize`
/// and the encoder's overflow panic is unreachable.
#[verifier::external_body]
fn base64_string(data: &Vec<u8>) -> (r: String)
    ensures
        r@ == base64_of(data@),
        r@.len() == 4 * ((data@.len() + 2) / 3),
        base64_decode_of(r@) == Some(data@),
{
    base64::engine::general_purpose::STANDARD.encode(data)
}

/// Relies on `String::push`: appends the given character to the end of
/// the string.
#[verifier::external_body]
fn push_char(s: &mut String, c: char)
    ensures
        final(s)@ == old(s)@.push(c),
{
    s.push(c);
}

/// The character for a single hex digit.
fn hex_digit_char(n: u8) -> (c: char)
    requires
        n < 16,
    ensures
        c == hex_digit(n),
{
    if n < 10 {
        (48 + n) as char
    } else {
        (87 + n) as char
    }
}

/// The lowercase hex rendering of a byte buffer.
fn hex_string(data: &Vec<u8>) -> (r: String)
    ensures
        r@ == hex_of(data@),
{
    let mut r = String::new();
    let mut i: usize = 0;
    while i < data.len()
        invariant
            i <= data.len(),
            r@ == hex_of(data@.take(i as int)),
        decreases data.len() - i,
    {
        let b = data[i];
        push_char(&mut r, hex_digit_char(b / 16));
        push_char(&mut r, hex_digit_char(b % 16));
        proof {
            assert(data@.take(i + 1 as int) =~= data@.take(i as int).push(data@[i as int]));
            lemma_hex_of_push(data@.take(i as int), data@[i as int]);
            assert(r@ =~= hex_of(data@.take(i + 1 as int)));
        }
        i = i + 1;
    }
    proof {
        assert(data@.take(data@.len() as int) =~= data@);
    }
    r
}

/// The decimal rendering of a natural number, most significant digit
/// first, no leading zeros (a single `'0'` for zero). Digits below ten
/// share their characters with the hex alphabet.
pub open spec fn dec_of(n: nat) -> Seq<char>
    decreases n,
{
    if n < 10 {
        seq![hex_digit(n as u8)]
    } else {
        dec_of(n / 10) + seq![hex_digit((n % 10) as u8)]
    }
}

/// Reversal after appending one element puts it in front.
proof fn lemma_reverse_push(s: Seq<char>, x: char)
    ensures
        s.push(x).reverse() == seq![x] + s.reverse(),
{
    assert(s.push(x).reverse() =~= seq![x] + s.reverse());
}

/// The decimal rendering of a 64-bit number.
fn dec_string(n: u64) -> (r: String)
    ensures
        r@ == dec_of(n as nat),
{
    let mut digits: Vec<char> = Vec::new();
    let mut m: u64 = n;
    proof {
        assert(dec_of(n as nat) =~= dec_of(n as nat) + digits@.reverse());
    }
    while m >= 10
        invariant
            dec_of(n as nat) == dec_of(m as nat) + digits@.reverse(),
        decreases m,
    {
        let d = (m % 10) as u8;
        digits.push(hex_digit_char(d));
        proof {
            lemma_reverse_push(digits@.drop_last(), hex_digit(d));
            assert(digits@.drop_last().push(hex_digit(d)) =~= digits@);
            assert(dec_of(m as nat) == dec_of((m / 10) as nat) + seq![hex_digit(d)]);
            assert(dec_of((m / 10) as nat) + digits@.reverse() =~= dec_of(n as nat));
        }
        m = m / 10;
    }
    let d = (m % 10) as u8;
    digits.push(hex_digit_char(d));
    proof {
        lemma_reverse_push(digits@.drop_last(), hex_digit(d));
        assert(digits@.drop_last().push(hex_digit(d)) =~= digits@);
        assert(dec_of(m as nat) == seq![hex_digit(d)]);
        assert(digits@.reverse() =~= dec_of(n as nat));
    }
    let mut r = String::new();
    let mut k: usize = 0;
    while k < digits.len()
        invariant
            k <= digits.len(),
            r@.len() == k,
            forall|i: int| 0 <= i < k ==> r@[i] == digits@[digits@.len() - 1 - i],
        decreases digits.len() - k,
    {
        push_char(&mut r, digits[digits.len() - 1 - k]);
        k = k + 1;
    }
    proof {
        assert(r@ =~= digits@.reverse());
    }
    r
}

/// Whether two string slices hold the same characters.
fn str_eq(a: &str, b: &str) -> (r: bool)
    ensures
        r == (a@ == b@),
{
    let sa = String::from_str(a);
    let sb = String::from_str(b);
    sa == sb
}

/// Requesting a digest in an encoding outside the supported set is a
/// contract violation by the caller.
#[derive(Clone, Copy, Debug, PartialEq, Eq, Structural)]
pub enum DigestError {
    UnsupportedEncoding,
}

/// An immutable byte buffer with a cached length, representing a digest
/// or signature computed elsewhere. `debug_string` gives the compact
/// diagnostic rendering.
#[derive(Debug, Clone)]
pub struct IHashEntity {
    pub byte_length: u64,
    data: Vec<u8>,
}

impl View for IHashEntity {
    type V = Seq<u8>;

    closed spec fn view(&self) -> Seq<u8> {
        self.data@
    }
}

impl IHashEntity {
    /// The `byte_length` field, for use in contracts.
    pub closed spec fn spec_byte_length(&self) -> u64 {
        self.byte_length
    }

    /// The cached length always equals the buffer's length.
    pub open spec fn wf(&self) -> bool {
        self.spec_byte_length() == self@.len()
    }

    /// Takes ownership of the bytes; any byte sequence, including the
    /// empty one, is valid.
    pub fn new(data: Vec<u8>) -> (r: Self)
        ensures
            r@ == data@,
            r.spec_byte_length() == data@.len(),
            r.wf(),
    {
        let byte_length = data.len() as u64;
        IHashEntity { byte_length, data }
    }

    /// The digest string of the buffer in the requested encoding: two
    /// lowercase hex characters per byte for `"hex"` (the default), the
    /// standard padded base64 rendering for `"base64"`. Decoding a
    /// base64 digest yields the buffer back.
    pub fn digest(&self, encoding: Option<&str>) -> (r: String)
        requires
            supported_encoding(encoding),
        ensures
            names_hex(encoding) ==> (r@ == hex_of(self@) && r@.len() == 2 * self@.len()),
            names_base64(encoding) ==> (r@ == base64_of(self@)
                && base64_decode_of(r@) == Some(self@)
                && r@.len() == 4 * ((self@.len() + 2) / 3)),
    {
        proof {
            reveal_strlit("hex");
            reveal_strlit("base64");
        }
        match encoding {
            None => {
                proof {
                    lemma_hex_of_len(self@);
                }
                hex_string(&self.data)
            },
            Some(s) => {
                if str_eq(s, "hex") {
                    proof {
                        assert("hex"@.len() == 3);
                        assert("base64"@.len() == 6);
                        assert(s@ != "base64"@);
                        lemma_hex_of_len(self@);
                    }
                    hex_string(&self.data)
                } else {
                    base64_string(&self.data)
                }
            },
        }
    }

    /// The digest string as `digest` returns it, or the unsupported
    /// encoding error instead of the fatal misuse failure: `Ok` exactly
    /// on the supported encodings.
    pub fn try_digest(&self, encoding: Option<&str>) -> (r: Result<String, DigestError>)
        ensures
            match r {
                Ok(s) => supported_encoding(encoding)
                    && (names_hex(encoding) ==> (s@ == hex_of(self@) && s@.len() == 2 * self@.len()))
                    && (names_base64(encoding) ==> (s@ == base64_of(self@)
                        && base64_decode_of(s@) == Some(self@))),
                Err(e) => !supported_encoding(encoding) && e == DigestError::UnsupportedEncoding,
            },
    {
        let supported = match encoding {
            None => true,
            Some(s) => str_eq(s, "hex") || str_eq(s, "base64"),
        };
        if supported {
            Ok(self.digest(encoding))
        } else {
            Err(DigestError::UnsupportedEncoding)
        }
    }

    /// The debug rendering: the byte length and the hex digest, never
    /// the raw bytes, so diagnostic output stays compact and stable.
    pub open spec fn debug_repr(&self) -> Seq<char> {
        "IHashEntity { byte_length: "@ + dec_of(self.spec_byte_length() as nat)
            + ", digest: \""@ + hex_of(self@) + "\" }"@
    }

    /// Renders `debug_repr`: the cached length in decimal and the hex
    /// digest between quotes.
    pub fn debug_string(&self) -> (r: String)
        ensures
            r@ == self.debug_repr(),
    {
        let mut r = String::from_str("IHashEntity { byte_length: ");
        let num = dec_string(self.byte_length);
        r.append(num.as_str());
        r.append(", digest: \"");
        let hex = hex_string(&self.data);
        r.append(hex.as_str());
        r.append("\" }");
        r
    }

    /// The buffer as an ordered sequence of machine-width integers, one
    /// per byte, in buffer order.
    pub fn bytes(&self) -> (r: Vec<usize>)
        ensures
            r@.len() == self@.len(),
            forall|i: int| 0 <= i < r@.len() ==> r@[i] == self@[i] as usize,
    {
        let mut r: Vec<usize> = Vec::new();
        let mut i: usize = 0;
        while i < self.data.len()
            invariant
                i <= self.data.len(),
                r@.len() == i,
                forall|j: int| 0 <= j < i ==> r@[j] == self@[j] as usize,
            decreases self.data.len() - i,
        {
            r.push(self.data[i] as usize);
            i = i + 1;
        }
        r
    }

    /// A fresh, independent copy of the owned byte sequence; mutating it
    /// never affects the entity.
    pub fn buffer(&self) -> (r: Vec<u8>)
        ensures
            r@ == self@,
    {
        let mut r: Vec<u8> = Vec::new();
        let mut i: usize = 0;
        while i < self.data.len()
            invariant
                i <= self.data.len(),
                r@.len() == i,
                forall|j: int| 0 <= j < i ==> r@[j] == self@[j],
            decreases self.data.len() - i,
        {
            r.push(self.data[i]);
            i = i + 1;
        }
        proof {
            assert(r@ =~= self@);
        }
        r
    }
}

} // verus!
