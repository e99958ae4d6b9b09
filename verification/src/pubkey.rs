//! Public keys of 32 bytes and their text form.

use std::str::FromStr;
use vstd::prelude::*;

verus! {

/// The number of bytes of a public key.
pub const PUBKEY_BYTES: usize = 32;

/// The error of `solana_sdk::pubkey::Pubkey::from_str`.
#[verifier::external_type_specification]
#[verifier::external_body]
pub struct ExParsePubkeyError(solana_sdk::pubkey::ParsePubkeyError);

/// The key that a text denotes, as `solana_sdk::pubkey::Pubkey::from_str` reads it; `None`
/// where that function fails.
pub uninterp spec fn pubkey_from_text(text: Seq<char>) -> Option<Seq<u8>>;

/// The text of a key, as the `Debug` and `Display` impls of `solana_sdk::pubkey::Pubkey`
/// write it.
pub uninterp spec fn pubkey_text(bytes: Seq<u8>) -> Seq<char>;

/// The key of 32 zero bytes, which stands for an unknown key.
pub open spec fn zero_key() -> Seq<u8> {
    Seq::new(PUBKEY_BYTES as nat, |i: int| 0u8)
}

/// A public key.
#[derive(Clone, Copy, Debug, PartialEq, Eq, Hash)]
pub struct Pubkey {
    bytes: [u8; 32],
}

impl View for Pubkey {
    type V = Seq<u8>;

    closed spec fn view(&self) -> Seq<u8> {
        self.bytes@
    }
}

impl Default for Pubkey {
    /// The key of 32 zero bytes.
    fn default() -> (key: Self)
        ensures
            key@ == zero_key(),
    {
        let key = Pubkey { bytes: [0u8; 32] };
        assert(key.bytes@ =~= zero_key());
        key
    }
}

impl Pubkey {
    /// The key of the given bytes.
    pub fn new_from_array(bytes: [u8; 32]) -> (key: Self)
        ensures
            key@ == bytes@,
    {
        Pubkey { bytes }
    }

    /// The bytes of the key.
    pub fn to_bytes(self) -> (bytes: [u8; 32])
        ensures
            bytes@ == self@,
    {
        self.bytes
    }

    /// Whether two keys hold the same bytes.
    pub fn same(&self, other: &Pubkey) -> (same: bool)
        ensures
            same == (self@ == other@),
    {
        let mut i: usize = 0;
        while i < 32
            invariant
                i <= 32,
                self.bytes@.take(i as int) == other.bytes@.take(i as int),
            decreases 32 - i,
        {
            if self.bytes[i] != other.bytes[i] {
                return false;
            }
            assert(self.bytes@.take(i + 1) =~= self.bytes@.take(i as int).push(
                self.bytes@[i as int],
            ));
            assert(other.bytes@.take(i + 1) =~= other.bytes@.take(i as int).push(
                other.bytes@[i as int],
            ));
            i = i + 1;
        }
        assert(self.bytes@.take(32) =~= self.bytes@);
        assert(other.bytes@.take(32) =~= other.bytes@);
        true
    }

    /// Whether the key is the key of zero bytes.
    pub fn is_default(&self) -> (zero: bool)
        ensures
            zero == (self@ == zero_key()),
    {
        let zero = Pubkey::default();
        self.same(&zero)
    }

    /// `solana_sdk::pubkey::Pubkey::from_str`: the key that the text denotes, or the error.
    /// The outcome depends on the text alone.
    #[verifier::external_body]
    pub(crate) fn decode(text: &str) -> (r: Result<Pubkey, solana_sdk::pubkey::ParsePubkeyError>)
        ensures
            match r {
                Ok(key) => pubkey_from_text(text@) == Some(key@),
                Err(_) => pubkey_from_text(text@) is None,
            },
    {
        let key = solana_sdk::pubkey::Pubkey::from_str(text)?;
        Ok(Pubkey { bytes: key.to_bytes() })
    }

    /// `to_string` of `solana_sdk::pubkey::Pubkey`: the text of the key, which depends on its
    /// bytes alone.
    #[verifier::external_body]
    pub(crate) fn encode(&self) -> (text: String)
        ensures
            text@ == pubkey_text(self@),
    {
        solana_sdk::pubkey::Pubkey::new_from_array(self.bytes).to_string()
    }
}

} // verus!
