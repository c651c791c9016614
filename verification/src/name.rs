//! Object names and their canonical wire encoding.
//!
//! The remote service only accepts identifiers drawn from a restricted
//! character set, while fuzz input supplies arbitrary non-empty byte strings.
//! A [`Name`] keeps the raw bytes; [`Name::to_ident`] renders the wire form by
//! base-64 encoding the bytes and substituting the three characters of the
//! base-64 alphabet that the identifier grammar refuses. The encoding is total
//! over non-empty names and deterministic (it is a pure function of the
//! bytes), and every character of the result lies in the identifier set; it
//! need not be injective.

use vstd::prelude::*;

verus! {

/// Largest number of bytes a raw object name may hold, so that its encoded
/// form always fits comfortably in memory.
pub const MAX_NAME_LEN: usize = 1048576;

/// A non-empty byte string used as the raw material for an object name.
pub struct Name {
    pub bytes: Vec<u8>,
}

impl View for Name {
    type V = Seq<u8>;

    open spec fn view(&self) -> Seq<u8> {
        self.bytes@
    }
}

/// Bytes the remote service accepts in object identifiers: ASCII letters,
/// digits, underscore and hyphen.
pub open spec fn is_ident_byte(b: u8) -> bool {
    ||| 65 <= b <= 90
    ||| 97 <= b <= 122
    ||| 48 <= b <= 57
    ||| b == 95
    ||| b == 45
}

/// Characters the remote service accepts in object identifiers.
pub open spec fn is_ident_char(c: char) -> bool {
    ||| 'A' <= c <= 'Z'
    ||| 'a' <= c <= 'z'
    ||| '0' <= c <= '9'
    ||| c == '_'
    ||| c == '-'
}

/// Bytes that standard padded base-64 output consists of: the 64-symbol
/// alphabet (letters, digits, `+`, `/`) plus the padding byte `=`.
pub open spec fn is_base64_byte(b: u8) -> bool {
    ||| 65 <= b <= 90
    ||| 97 <= b <= 122
    ||| 48 <= b <= 57
    ||| b == 43
    ||| b == 47
    ||| b == 61
}

/// The byte string that standard padded base-64 encoding produces for the
/// given input. The encoding itself is left unspecified; the facts callers
/// need (its length and its alphabet) are stated where it is applied.
pub uninterp spec fn base64_of(bytes: Seq<u8>) -> Seq<u8>;

/// Replaces the three base-64 bytes that the identifier grammar refuses:
/// `+` and `/` become `_`, and the padding byte `=` becomes `-`.
pub open spec fn subst_byte(b: u8) -> u8 {
    if b == 43 || b == 47 {
        95
    } else if b == 61 {
        45
    } else {
        b
    }
}

/// The identifier bytes for a raw name: its base-64 encoding with the
/// reserved characters substituted.
pub open spec fn ident_bytes_of(bytes: Seq<u8>) -> Seq<u8> {
    base64_of(bytes).map_values(|b: u8| subst_byte(b))
}

/// The identifier for a raw name, as the character string put on the wire.
pub open spec fn ident_of(bytes: Seq<u8>) -> Seq<char> {
    ident_bytes_of(bytes).map_values(|b: u8| b as char)
}

/// Relies on base64::encode (the standard, padded configuration): the result
/// is a function of the input bytes alone, four bytes long for every three
/// input bytes rounded up, and drawn from the base-64 alphabet plus padding.
/// The length bound keeps the size computation inside the call from
/// overflowing.
#[verifier::external_body]
fn base64_encode(bytes: &Vec<u8>) -> (r: Vec<u8>)
    requires
        bytes@.len() <= MAX_NAME_LEN,
    ensures
        r@ == base64_of(bytes@),
        r@.len() == 4 * ((bytes@.len() + 2) / 3),
        forall|i: int| 0 <= i < r@.len() ==> is_base64_byte(#[trigger] r@[i]),
{
    base64::encode(bytes).into_bytes()
}

/// Relies on String::from_utf8: bytes below 128 are valid UTF-8 and decode to
/// the characters with the same code points.
#[verifier::external_body]
fn ascii_bytes_to_string(bytes: Vec<u8>) -> (r: String)
    requires
        forall|i: int| 0 <= i < bytes@.len() ==> bytes@[i] < 128,
    ensures
        r@.len() == bytes@.len(),
        forall|i: int| 0 <= i < bytes@.len() ==> r@[i] == #[trigger] (bytes@[i] as char),
{
    String::from_utf8(bytes).unwrap_or_default()
}

/// Returns a byte vector holding the same bytes.
pub fn dup_bytes(v: &Vec<u8>) -> (r: Vec<u8>)
    ensures
        r@ == v@,
{
    let mut out: Vec<u8> = Vec::new();
    let mut i: usize = 0;
    while i < v.len()
        invariant
            i <= v@.len(),
            out@ == v@.subrange(0, i as int),
        decreases v@.len() - i,
    {
        out.push(v[i]);
        i = i + 1;
        proof {
            assert(out@ =~= v@.subrange(0, i as int));
        }
    }
    proof {
        assert(out@ =~= v@);
    }
    out
}

/// Whether two names hold the same bytes.
pub fn name_eq(a: &Name, b: &Name) -> (r: bool)
    ensures
        r == (a@ == b@),
{
    if a.bytes.len() != b.bytes.len() {
        proof {
            assert(a@ != b@);
        }
        return false;
    }
    let mut i: usize = 0;
    while i < a.bytes.len()
        invariant
            i <= a.bytes@.len(),
            a.bytes@.len() == b.bytes@.len(),
            forall|k: int| 0 <= k < i ==> a.bytes@[k] == b.bytes@[k],
        decreases a.bytes@.len() - i,
    {
        if a.bytes[i] != b.bytes[i] {
            return false;
        }
        i = i + 1;
    }
    proof {
        assert(a@ =~= b@);
    }
    true
}

/// A name's bytes are well formed when they are non-empty and small enough
/// to encode.
pub open spec fn name_wf(n: Seq<u8>) -> bool {
    1 <= n.len() <= MAX_NAME_LEN
}

impl Name {
    /// A name is well formed when it is non-empty and small enough to encode.
    pub open spec fn wf(&self) -> bool {
        name_wf(self@)
    }

    /// Wraps raw bytes as a name, rejecting the empty string and oversized
    /// input.
    pub fn new(bytes: Vec<u8>) -> (r: Option<Name>)
        ensures
            r is Some <==> 1 <= bytes@.len() <= MAX_NAME_LEN,
            r matches Some(n) ==> n@ == bytes@ && n.wf(),
    {
        if bytes.len() == 0 || bytes.len() > MAX_NAME_LEN {
            None
        } else {
            Some(Name { bytes })
        }
    }

    /// Returns a name holding the same bytes.
    pub fn dup(&self) -> (r: Name)
        ensures
            r@ == self@,
    {
        let mut bytes: Vec<u8> = Vec::new();
        let mut i: usize = 0;
        while i < self.bytes.len()
            invariant
                i <= self.bytes@.len(),
                bytes@ == self.bytes@.subrange(0, i as int),
            decreases self.bytes@.len() - i,
        {
            bytes.push(self.bytes[i]);
            i = i + 1;
            proof {
                assert(bytes@ =~= self.bytes@.subrange(0, i as int));
            }
        }
        proof {
            assert(bytes@ =~= self.bytes@);
        }
        Name { bytes }
    }

    /// Renders the name as a wire identifier. The result is a pure function
    /// of the name's bytes, is never empty, and consists only of identifier
    /// characters.
    pub fn to_ident(&self) -> (r: String)
        requires
            self.wf(),
        ensures
            r@ == ident_of(self@),
            r@.len() == 4 * ((self@.len() + 2) / 3),
            r@.len() > 0,
            forall|i: int| 0 <= i < r@.len() ==> is_ident_char(#[trigger] r@[i]),
    {
        let enc = base64_encode(&self.bytes);
        let mut out: Vec<u8> = Vec::new();
        let mut i: usize = 0;
        while i < enc.len()
            invariant
                i <= enc@.len(),
                out@.len() == i,
                forall|k: int| 0 <= k < i ==> out@[k] == subst_byte(#[trigger] enc@[k]),
                forall|k: int| 0 <= k < enc@.len() ==> is_base64_byte(#[trigger] enc@[k]),
            decreases enc@.len() - i,
        {
            let b = enc[i];
            if b == 43 || b == 47 {
                out.push(95);
            } else if b == 61 {
                out.push(45);
            } else {
                out.push(b);
            }
            i = i + 1;
        }
        proof {
            assert(out@ =~= ident_bytes_of(self@));
            assert(forall|k: int|
                0 <= k < out@.len() ==> is_ident_byte(#[trigger] out@[k]) && out@[k] < 128);
        }
        let r = ascii_bytes_to_string(out);
        proof {
            assert(r@ =~= ident_of(self@));
        }
        r
    }
}

} // verus!
