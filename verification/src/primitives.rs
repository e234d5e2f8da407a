//! Fixed-size byte values shared by the rest of the library: 32-byte hash
//! values and 16-byte account addresses, with their hexadecimal rendering.

use vstd::prelude::*;

verus! {

/// Number of bytes in a [`HashValue`].
pub const HASH_LENGTH: usize = 32;

/// Number of bytes in an [`AccountAddress`].
pub const ADDRESS_LENGTH: usize = 16;

/// The lowercase hexadecimal digit for a value below 16.
pub open spec fn hex_digit(n: u8) -> char {
    if n < 10 {
        (('0' as u8) + n) as char
    } else {
        (('a' as u8) + (n - 10)) as char
    }
}

/// Lowercase hexadecimal rendering of bytes: two digits per byte, high nibble first.
pub open spec fn hex_lower(bytes: Seq<u8>) -> Seq<char>
    decreases bytes.len(),
{
    if bytes.len() == 0 {
        Seq::empty()
    } else {
        seq![hex_digit(bytes[0] / 16), hex_digit(bytes[0] % 16)] + hex_lower(bytes.drop_first())
    }
}

/// Every character of a hexadecimal rendering is an ASCII digit or lowercase letter.
pub proof fn lemma_hex_lower_alphanumeric(bytes: Seq<u8>)
    ensures
        forall|i: int| 0 <= i < hex_lower(bytes).len() ==> {
            let c = #[trigger] hex_lower(bytes)[i];
            ('0' <= c && c <= '9') || ('a' <= c && c <= 'f')
        },
        hex_lower(bytes).len() == 2 * bytes.len(),
    decreases bytes.len(),
{
    if bytes.len() > 0 {
        lemma_hex_lower_alphanumeric(bytes.drop_first());
        let hi = bytes[0] / 16;
        let lo = bytes[0] % 16;
        let head = seq![hex_digit(hi), hex_digit(lo)];
        let rest = hex_lower(bytes.drop_first());
        assert(hex_lower(bytes) == head + rest);
        assert forall|i: int| 0 <= i < hex_lower(bytes).len() implies {
            let c = #[trigger] hex_lower(bytes)[i];
            ('0' <= c && c <= '9') || ('a' <= c && c <= 'f')
        } by {
            if i >= 2 {
                assert(hex_lower(bytes)[i] == rest[i - 2]);
            }
        }
    }
}

/// `hex::encode`: the lowercase hexadecimal string of `bytes`.
/// Claimed of the outside function: two lowercase digits per byte, in order
/// (its source maps each byte to `table[byte >> 4]`, `table[byte & 0x0f]`).
#[verifier::external_body]
pub fn hex_encode(bytes: &[u8]) -> (res: String)
    ensures
        res@ == hex_lower(bytes@),
{
    hex::encode(bytes)
}

/// Error of [`HashValue::from_slice`]: the slice does not hold exactly 32 bytes.
#[derive(Clone, Copy, Debug, PartialEq, Eq, Structural)]
pub struct HashValueLengthError {
    pub found: usize,
}

/// A 32-byte hash value, such as a block id, a state root or a transaction hash.
#[derive(Clone, Copy, Debug, PartialEq, Eq, Hash, PartialOrd, Ord)]
pub struct HashValue {
    pub hash: [u8; 32],
}

impl View for HashValue {
    type V = Seq<u8>;

    open spec fn view(&self) -> Seq<u8> {
        self.hash@
    }
}

/// `rand::random`: 32 bytes drawn from the thread-local generator.
/// Nothing is claimed of the bytes; they depend on chance.
#[verifier::external_body]
fn random_hash_bytes() -> (res: [u8; 32]) {
    rand::random::<[u8; 32]>()
}

impl HashValue {
    pub fn new(hash: [u8; 32]) -> (res: HashValue)
        ensures
            res.hash == hash,
    {
        HashValue { hash }
    }

    /// The bytes of the all-zero hash.
    pub open spec fn zero_spec() -> Seq<u8> {
        Seq::new(32, |i: int| 0u8)
    }

    /// The all-zero hash.
    pub fn zero() -> (res: HashValue)
        ensures
            res@ == HashValue::zero_spec(),
    {
        let res = HashValue { hash: [0u8; 32] };
        assert(res@ =~= HashValue::zero_spec());
        res
    }

    /// A hash value of random bytes.
    pub fn random() -> (res: HashValue)
        ensures
            res@.len() == HASH_LENGTH,
    {
        HashValue { hash: random_hash_bytes() }
    }

    /// Builds a hash value from exactly 32 bytes; any other length is refused.
    pub fn from_slice(bytes: &[u8]) -> (res: Result<HashValue, HashValueLengthError>)
        ensures
            bytes@.len() == HASH_LENGTH <==> res is Ok,
            res matches Ok(h) ==> h@ == bytes@,
            res matches Err(e) ==> e.found == bytes@.len(),
    {
        if bytes.len() != HASH_LENGTH {
            return Err(HashValueLengthError { found: bytes.len() });
        }
        let mut hash = [0u8; 32];
        let mut i: usize = 0;
        while i < HASH_LENGTH
            invariant
                bytes@.len() == HASH_LENGTH,
                i <= HASH_LENGTH,
                hash@.len() == HASH_LENGTH,
                forall|j: int| 0 <= j < i ==> hash@[j] == bytes@[j],
            decreases HASH_LENGTH - i,
        {
            hash[i] = bytes[i];
            i = i + 1;
        }
        let res = HashValue { hash };
        assert(res@ =~= bytes@);
        Ok(res)
    }

    /// The bytes of the hash as a vector.
    pub fn to_vec(&self) -> (res: Vec<u8>)
        ensures
            res@ == self@,
    {
        let mut res: Vec<u8> = Vec::new();
        let mut i: usize = 0;
        while i < HASH_LENGTH
            invariant
                self@.len() == HASH_LENGTH,
                i <= HASH_LENGTH,
                res@ == self@.take(i as int),
            decreases HASH_LENGTH - i,
        {
            res.push(self.hash[i]);
            i = i + 1;
            assert(res@ =~= self@.take(i as int));
        }
        assert(self@.take(HASH_LENGTH as int) =~= self@);
        res
    }

    /// Byte-wise equality of two hash values.
    pub fn same_as(&self, other: &HashValue) -> (res: bool)
        ensures
            res == (self@ == other@),
    {
        let mut i: usize = 0;
        while i < HASH_LENGTH
            invariant
                self@.len() == HASH_LENGTH,
                other@.len() == HASH_LENGTH,
                i <= HASH_LENGTH,
                forall|j: int| 0 <= j < i ==> self@[j] == other@[j],
            decreases HASH_LENGTH - i,
        {
            if self.hash[i] != other.hash[i] {
                return false;
            }
            i = i + 1;
        }
        assert(self@ =~= other@);
        true
    }
}

/// A 16-byte account address.
#[derive(Clone, Copy, Debug, PartialEq, Eq, Hash, PartialOrd, Ord)]
pub struct AccountAddress {
    pub address: [u8; 16],
}

impl View for AccountAddress {
    type V = Seq<u8>;

    open spec fn view(&self) -> Seq<u8> {
        self.address@
    }
}

/// `move_core_types::account_address::AccountAddress::random`: an address of
/// random bytes, taken out as its byte array. Nothing is claimed of the bytes.
#[verifier::external_body]
fn random_address_bytes() -> (res: [u8; 16]) {
    move_core_types::account_address::AccountAddress::random().into_bytes()
}

impl AccountAddress {
    pub fn new(address: [u8; 16]) -> (res: AccountAddress)
        ensures
            res.address == address,
    {
        AccountAddress { address }
    }

    /// An address of random bytes.
    pub fn random() -> (res: AccountAddress)
        ensures
            res@.len() == ADDRESS_LENGTH,
    {
        AccountAddress { address: random_address_bytes() }
    }

    /// The lowercase hexadecimal rendering of the address, as `{:x}` writes it.
    pub fn to_hex(&self) -> (res: String)
        ensures
            res@ == hex_lower(self@),
    {
        hex_encode(self.address.as_slice())
    }
}

} // verus!
