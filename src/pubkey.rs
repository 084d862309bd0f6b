//! 32-byte identifiers and their base-58 text form.
use vstd::prelude::*;

verus! {

/// Number of bytes in an identifier.
pub const PUBKEY_BYTES: usize = 32;

/// A 32-byte identifier.
#[derive(Clone, Copy, PartialEq, Eq, Debug, Default)]
pub struct Pubkey(pub [u8; 32]);

/// Why a text form was not accepted as an identifier.
#[derive(Clone, Copy, PartialEq, Eq, Debug)]
pub enum PubkeyError {
    /// Not base-58, or not exactly 32 bytes once decoded.
    InvalidEncoding,
}

impl View for Pubkey {
    type V = Seq<u8>;

    open spec fn view(&self) -> Seq<u8> {
        self.0@
    }
}

/// The bytes that a base-58 text decodes to, if it is valid base-58.
pub uninterp spec fn base58_decoded(s: Seq<char>) -> Option<Seq<u8>>;

/// Relies on `bs58::decode(..).into_vec()` with the default alphabet: the
/// decoded bytes, or an error where the text is not base-58.
#[verifier::external_body]
fn decode_base58(s: &str) -> (r: Option<Vec<u8>>)
    ensures
        r.is_some() == base58_decoded(s@).is_some(),
        r.is_some() ==> r.unwrap()@ == base58_decoded(s@).unwrap(),
{
    bs58::decode(s).into_vec().ok()
}

/// The identifier that decoded bytes make, if any.
pub open spec fn pubkey_of_decoded(d: Option<Seq<u8>>) -> Result<Seq<u8>, PubkeyError> {
    match d {
        Some(b) => if b.len() == 32 {
            Ok(b)
        } else {
            Err(PubkeyError::InvalidEncoding)
        },
        None => Err(PubkeyError::InvalidEncoding),
    }
}

/// Views a result of identifiers as a result of byte sequences.
pub open spec fn pubkey_result_view(r: Result<Pubkey, PubkeyError>) -> Result<Seq<u8>, PubkeyError> {
    match r {
        Ok(p) => Ok(p@),
        Err(e) => Err(e),
    }
}

impl Pubkey {
    /// The identifier with the given bytes.
    pub fn new_from_array(bytes: [u8; 32]) -> (r: Pubkey)
        ensures
            r@ == bytes@,
    {
        Pubkey(bytes)
    }

    /// The identifier's bytes.
    pub fn to_bytes(&self) -> (r: [u8; 32])
        ensures
            r@ == self@,
    {
        self.0
    }

    /// The identifier's bytes as a slice.
    pub fn as_ref(&self) -> (r: &[u8])
        ensures
            r@ == self@,
            r@.len() == 32,
    {
        self.0.as_slice()
    }

    /// The identifier made of decoded bytes: exactly 32 of them are needed.
    pub fn from_decoded(decoded: Option<Vec<u8>>) -> (r: Result<Pubkey, PubkeyError>)
        ensures
            pubkey_result_view(r) == pubkey_of_decoded(
                match decoded {
                    Some(v) => Some(v@),
                    None => None,
                },
            ),
    {
        match decoded {
            Some(bytes) => {
                if bytes.len() == PUBKEY_BYTES {
                    let mut array = [0u8; 32];
                    let mut i: usize = 0;
                    while i < PUBKEY_BYTES
                        invariant
                            bytes@.len() == 32,
                            i <= 32,
                            forall|j: int| 0 <= j < i ==> array@[j] == bytes@[j],
                        decreases 32 - i,
                    {
                        array[i] = bytes[i];
                        i = i + 1;
                    }
                    assert(array@ =~= bytes@);
                    Ok(Pubkey(array))
                } else {
                    Err(PubkeyError::InvalidEncoding)
                }
            },
            None => Err(PubkeyError::InvalidEncoding),
        }
    }

    /// Parses the base-58 text form of an identifier.
    pub fn try_from(value: String) -> (r: Result<Pubkey, PubkeyError>)
        ensures
            pubkey_result_view(r) == pubkey_of_decoded(base58_decoded(value@)),
    {
        let decoded = decode_base58(value.as_str());
        Pubkey::from_decoded(decoded)
    }
}

} // verus!
