//! Contract addresses.
//!
//! An address is the 160-bit BLAKE2b digest of what the contract was
//! originated from. Its text is a Base58Check encoding: a version tag, the
//! digest and a checksum of four bytes, in the Bitcoin alphabet.
//!
//! The digests and the Base58 coding are the work of outside crates. What
//! they return is named here ([`blake2b_160`], [`sha256`], [`base58_text`],
//! [`base58_bytes`]); the framing around them is proved.

use vstd::prelude::*;

verus! {

#[verifier::external_type_specification]
#[verifier::external_body]
pub struct ExBase58Error(bs58::decode::Error);

/// The BLAKE2b digest of 20 bytes of a byte string.
pub uninterp spec fn blake2b_160(data: Seq<u8>) -> Seq<u8>;

/// The SHA-256 digest of a byte string.
pub uninterp spec fn sha256(data: Seq<u8>) -> Seq<u8>;

/// The Base58 text of a byte string, in the Bitcoin alphabet.
pub uninterp spec fn base58_text(data: Seq<u8>) -> Seq<char>;

/// The bytes that a Base58 text in the Bitcoin alphabet stands for, if it is
/// such a text.
pub uninterp spec fn base58_bytes(text: Seq<char>) -> Option<Seq<u8>>;

/// `Blake2b::<U20>::digest`: the digest is 20 bytes long.
#[verifier::external_body]
fn digest_blake2b_160(data: &[u8]) -> (digest: Vec<u8>)
    ensures
        digest@ == blake2b_160(data@),
        digest@.len() == 20,
{
    <blake2::Blake2b<blake2::digest::consts::U20> as blake2::Digest>::digest(data).to_vec()
}

/// `Sha256::digest`: the digest is 32 bytes long.
#[verifier::external_body]
fn digest_sha256(data: &[u8]) -> (digest: Vec<u8>)
    ensures
        digest@ == sha256(data@),
        digest@.len() == 32,
{
    <sha2::Sha256 as sha2::Digest>::digest(data).to_vec()
}

/// `bs58::encode` with the Bitcoin alphabet, into a string.
#[verifier::external_body]
fn encode_base58(data: &[u8]) -> (text: String)
    ensures
        text@ == base58_text(data@),
{
    bs58::encode(data).with_alphabet(bs58::Alphabet::BITCOIN).into_string()
}

/// `bs58::decode` with the Bitcoin alphabet, into a vector: the bytes where
/// the text stands for some, the outside error where it does not.
#[verifier::external_body]
fn decode_base58(text: &str) -> (bytes: Result<Vec<u8>, bs58::decode::Error>)
    ensures
        match bytes {
            Ok(b) => base58_bytes(text@) == Some(b@),
            Err(_) => base58_bytes(text@).is_none(),
        },
{
    bs58::decode(text).with_alphabet(bs58::Alphabet::BITCOIN).into_vec()
}

/// The version tag that starts the payload of every address text.
pub open spec fn address_prefix() -> Seq<u8> {
    seq![1u8, 146u8, 6u8]
}

/// A payload followed by its checksum: the first four bytes of the SHA-256
/// digest of the SHA-256 digest of the payload.
pub open spec fn with_checksum(payload: Seq<u8>) -> Seq<u8> {
    payload + sha256(sha256(payload)).take(4)
}

/// The text of an address with the given digest.
pub open spec fn address_text(digest: Seq<u8>) -> Seq<char> {
    base58_text(with_checksum(address_prefix() + digest))
}

/// Why a text is not the text of an address.
#[derive(Debug, Clone, Copy, PartialEq, Eq, Structural)]
pub enum AddressError {
    /// The text is not Base58 in the Bitcoin alphabet.
    NotBase58,
    /// The text stands for fewer bytes than a version tag and a checksum
    /// take.
    TooShort,
}

/// What decoding a text gives: the bytes between the version tag and the
/// checksum of what the text stands for.
pub open spec fn decoded_address(text: Seq<char>) -> Result<Seq<u8>, AddressError> {
    match base58_bytes(text) {
        None => Err(AddressError::NotBase58),
        Some(bytes) => if bytes.len() < 7 {
            Err(AddressError::TooShort)
        } else {
            Ok(bytes.subrange(3, bytes.len() - 4))
        },
    }
}

/// Appends the checksum of a payload to it.
pub fn checksum(s: Vec<u8>) -> (r: Vec<u8>)
    ensures
        r@ == with_checksum(s@),
{
    let mut s = s;
    let ghost payload = s@;
    let one = digest_sha256(s.as_slice());
    let two = digest_sha256(one.as_slice());
    let mut i: usize = 0;
    while i < 4
        invariant
            i <= 4,
            two@.len() == 32,
            s@ == payload + two@.take(i as int),
        decreases 4 - i,
    {
        s.push(two[i]);
        i = i + 1;
        assert(s@ =~= payload + two@.take(i as int));
    }
    s
}

/// The text of an address with the given digest.
pub fn encode(s: &[u8]) -> (text: String)
    ensures
        text@ == address_text(s@),
{
    let mut payload: Vec<u8> = Vec::new();
    payload.push(1);
    payload.push(146);
    payload.push(6);
    let mut i: usize = 0;
    while i < s.len()
        invariant
            i <= s.len(),
            payload@ == address_prefix() + s@.take(i as int),
        decreases s.len() - i,
    {
        payload.push(s[i]);
        i = i + 1;
        assert(payload@ =~= address_prefix() + s@.take(i as int));
    }
    assert(s@.take(s.len() as int) =~= s@);
    let framed = checksum(payload);
    encode_base58(framed.as_slice())
}

/// Reads the text of an address back into the bytes between version tag and
/// checksum. Neither the tag nor the checksum is compared with anything.
pub fn decode(s: &str) -> (r: Result<Vec<u8>, AddressError>)
    ensures
        match decoded_address(s@) {
            Ok(bytes) => r.is_ok() && r.unwrap()@ == bytes,
            Err(e) => r == Err::<Vec<u8>, AddressError>(e),
        },
{
    match decode_base58(s) {
        Err(_) => Err(AddressError::NotBase58),
        Ok(bytes) => {
            if bytes.len() < 7 {
                return Err(AddressError::TooShort);
            }
            let mut inner: Vec<u8> = Vec::new();
            let mut i: usize = 3;
            while i < bytes.len() - 4
                invariant
                    3 <= i <= bytes.len() - 4,
                    inner@ == bytes@.subrange(3, i as int),
                decreases bytes.len() - i,
            {
                inner.push(bytes[i]);
                i = i + 1;
                assert(inner@ =~= bytes@.subrange(3, i as int));
            }
            Ok(inner)
        },
    }
}

/// The address of a contract.
#[derive(Debug, Clone, PartialEq, Eq, Hash, PartialOrd, Ord)]
pub struct ContractAddress(Vec<u8>);

impl View for ContractAddress {
    type V = Seq<u8>;

    /// The digest that the address is.
    closed spec fn view(&self) -> Seq<u8> {
        self.0@
    }
}

impl ContractAddress {
    /// The address of what is written in `s`: the digest of its bytes.
    pub fn new(s: String) -> (r: Self)
        ensures
            r@ == blake2b_160(vstd::utf8::encode_utf8(s@)),
            r@.len() == 20,
    {
        ContractAddress(digest_blake2b_160(s.as_str().as_bytes()))
    }

    /// The address of the contract that an operation originates: the digest
    /// of the bytes of the operation's text.
    pub fn from_operation(s: String) -> (r: Self)
        ensures
            r@ == blake2b_160(vstd::utf8::encode_utf8(s@)),
            r@.len() == 20,
    {
        ContractAddress(digest_blake2b_160(s.as_str().as_bytes()))
    }

    /// The address with the given digest.
    pub fn from_bytes(bytes: Vec<u8>) -> (r: Self)
        ensures
            r@ == bytes@,
    {
        ContractAddress(bytes)
    }

    /// The digest that the address is.
    pub fn as_bytes(&self) -> (bytes: &[u8])
        ensures
            bytes@ == self@,
    {
        self.0.as_slice()
    }

    /// The digest that the address is.
    pub fn as_vec(&self) -> (bytes: &Vec<u8>)
        ensures
            bytes@ == self@,
    {
        &self.0
    }

    /// Whether two addresses are the same.
    pub fn same(&self, other: &ContractAddress) -> (r: bool)
        ensures
            r == (self@ == other@),
    {
        proof {
            crate::order::lemma_lex_order_equal(
                crate::order::bytes_key(self@),
                crate::order::bytes_key(other@),
            );
            if crate::order::bytes_key(self@) == crate::order::bytes_key(other@) {
                crate::order::lemma_bytes_key_injective(self@, other@);
            }
        }
        crate::order::order_bytes(self.0.as_slice(), other.0.as_slice()) == 0
    }

    /// The text of the address.
    pub fn to_text(&self) -> (text: String)
        ensures
            text@ == address_text(self@),
    {
        encode(self.0.as_slice())
    }

    /// The address that a text stands for, if it stands for one.
    pub fn from_text(text: &str) -> (r: Result<ContractAddress, AddressError>)
        ensures
            match decoded_address(text@) {
                Ok(bytes) => r.is_ok() && r.unwrap()@ == bytes,
                Err(e) => r.is_err() && r.unwrap_err() == e,
            },
    {
        match decode(text) {
            Ok(bytes) => Ok(ContractAddress(bytes)),
            Err(e) => Err(e),
        }
    }
}

} // verus!
