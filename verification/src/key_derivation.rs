//! Keys derived from a seed along a derivation path, and the rules that a path has to meet
//! before a key is derived from it for signing.

use crate::derivation_path::{all_hardened, parse_path, parse_path_chars, ChildIndex, PURPOSE};
use crate::text::chars_of;
use vstd::prelude::*;

verus! {

/// The number of bytes of a private key, and the least number of bytes of a seed.
pub const SECRET_KEY_LENGTH: usize = 32;

/// The number of bytes of a private key and its public key together.
pub const KEYPAIR_LENGTH: usize = 64;

/// The coin type of the keys that are derived for signing.
pub const SMESH_COIN: u32 = 540;

/// The least number of indexes of a path for signing.
pub const MIN_PATH_LENGTH: usize = 2;

/// The greatest number of indexes of a path for signing.
pub const MAX_PATH_LENGTH: usize = 5;

/// The error of `ed25519_dalek_bip32::ExtendedSecretKey`.
#[verifier::external_type_specification]
#[verifier::external_body]
pub struct ExBip32Error(ed25519_dalek_bip32::Error);

/// A private key and its chain code, as bytes.
pub struct KeyMaterial {
    pub private_key: Seq<u8>,
    pub chain_code: Seq<u8>,
}

/// The master key of a seed, as `ed25519_dalek_bip32::ExtendedSecretKey::from_seed` makes it.
pub uninterp spec fn master_key(seed: Seq<u8>) -> KeyMaterial;

/// The child of a key at a hardened index of the given value, as
/// `ed25519_dalek_bip32::ExtendedSecretKey::derive_child` makes it.
pub uninterp spec fn child_key(
    private_key: Seq<u8>,
    chain_code: Seq<u8>,
    index: u32,
) -> KeyMaterial;

/// The public key of a private key, as `ed25519_dalek_bip32::ExtendedSecretKey::public_key`
/// gives it.
pub uninterp spec fn public_key_of(private_key: Seq<u8>) -> Seq<u8>;

/// Why a path was turned down.
#[derive(Clone, Copy, Debug, PartialEq, Eq, Structural)]
pub enum PathFault {
    /// The text is no derivation path.
    Malformed,
    /// Fewer than two indexes.
    TooShort,
    /// More than five indexes.
    TooLong,
    /// The first index is not the purpose 44.
    BadPurpose,
    /// The second index is not the coin type.
    BadCoinType,
    /// An index is not hardened.
    NotHardened,
}

/// A failure to derive a key.
#[derive(Debug)]
pub enum KeyError {
    /// The seed is shorter than a private key.
    InvalidSeed,
    /// The path was turned down; its text is carried along.
    InvalidDerivationPath { text: String, fault: PathFault },
    /// A step of the derivation failed.
    DerivationFailed,
}

impl PathFault {
    /// What the fault is, in words.
    pub open spec fn text(self) -> Seq<char> {
        match self {
            PathFault::Malformed => "failed to parse derivation path"@,
            PathFault::TooShort => "path too short"@,
            PathFault::TooLong => "path too long"@,
            PathFault::BadPurpose => "bad path purpose"@,
            PathFault::BadCoinType => "bad path coin type"@,
            PathFault::NotHardened => "path isn't fully hardened"@,
        }
    }

    /// What the fault is, in words.
    pub fn describe(self) -> (text: &'static str)
        ensures
            text@ == self.text(),
    {
        match self {
            PathFault::Malformed => "failed to parse derivation path",
            PathFault::TooShort => "path too short",
            PathFault::TooLong => "path too long",
            PathFault::BadPurpose => "bad path purpose",
            PathFault::BadCoinType => "bad path coin type",
            PathFault::NotHardened => "path isn't fully hardened",
        }
    }
}

impl KeyError {
    /// The message of the failure. It names the path that was turned down, and never a byte
    /// of a seed or of a key.
    pub open spec fn message_text(self) -> Seq<char> {
        match self {
            KeyError::InvalidSeed => "seed must be at least 32 bytes"@,
            KeyError::InvalidDerivationPath { text, fault } => fault.text() + ": "@ + text@,
            KeyError::DerivationFailed => "failed to derive derivation path"@,
        }
    }

    /// The message of the failure.
    pub fn message(&self) -> (message: String)
        ensures
            message@ == self.message_text(),
    {
        match self {
            KeyError::InvalidSeed => String::from_str("seed must be at least 32 bytes"),
            KeyError::InvalidDerivationPath { text, fault } => {
                let mut message = String::from_str(fault.describe());
                message.append(": ");
                message.append(text.as_str());
                message
            },
            KeyError::DerivationFailed => String::from_str("failed to derive derivation path"),
        }
    }
}

/// A private key with the chain code that its children are derived with.
pub struct ExtendedKey {
    pub private_key: [u8; 32],
    pub chain_code: [u8; 32],
}

impl View for ExtendedKey {
    type V = KeyMaterial;

    open spec fn view(&self) -> KeyMaterial {
        KeyMaterial { private_key: self.private_key@, chain_code: self.chain_code@ }
    }
}

/// The key at the end of a path that starts at `key`: one child per index. `None` where an
/// index is not hardened, for which no child is defined.
pub open spec fn derive_from(key: KeyMaterial, path: Seq<ChildIndex>) -> Option<KeyMaterial>
    decreases path.len(),
{
    if path.len() == 0 {
        Some(key)
    } else {
        match derive_from(key, path.drop_last()) {
            Some(parent) => if path.last().hardened() {
                Some(child_key(parent.private_key, parent.chain_code, path.last().value()))
            } else {
                None
            },
            None => None,
        }
    }
}

/// The private key and, behind it, its public key.
pub open spec fn keypair_bytes(key: KeyMaterial) -> Seq<u8> {
    key.private_key + public_key_of(key.private_key)
}

/// Whether `bytes` are the 64 bytes that are handed out for a key: its private key, which
/// has 32 bytes, in the first half and its public key in the second.
pub open spec fn is_keypair_of(bytes: Seq<u8>, key: KeyMaterial) -> bool {
    &&& bytes == keypair_bytes(key)
    &&& bytes.len() == KEYPAIR_LENGTH
    &&& key.private_key.len() == SECRET_KEY_LENGTH
    &&& bytes.subrange(0, SECRET_KEY_LENGTH as int) == key.private_key
    &&& bytes.subrange(SECRET_KEY_LENGTH as int, KEYPAIR_LENGTH as int) == public_key_of(
        key.private_key,
    )
}

/// The first rule that a path for signing breaks, in the order in which the rules are
/// checked; `None` where it meets all of them.
pub open spec fn first_fault(path: Seq<ChildIndex>, coin: u32) -> Option<PathFault> {
    if path.len() < MIN_PATH_LENGTH {
        Some(PathFault::TooShort)
    } else if path.len() > MAX_PATH_LENGTH {
        Some(PathFault::TooLong)
    } else if path[0].value() != PURPOSE {
        Some(PathFault::BadPurpose)
    } else if path[1].value() != coin {
        Some(PathFault::BadCoinType)
    } else if !all_hardened(path) {
        Some(PathFault::NotHardened)
    } else {
        None
    }
}

/// Whether a path may be used for signing: two to five indexes, all of them hardened, the
/// first the purpose 44 and the second the coin type.
pub open spec fn strict_valid(path: Seq<ChildIndex>, coin: u32) -> bool {
    &&& MIN_PATH_LENGTH <= path.len() <= MAX_PATH_LENGTH
    &&& path[0] == ChildIndex::Hardened(PURPOSE)
    &&& path[1] == ChildIndex::Hardened(coin)
    &&& all_hardened(path)
}

/// What a derivation comes to.
pub enum KeyOutcome {
    /// The key that was derived; its private key and its public key are handed out.
    Keypair(KeyMaterial),
    InvalidSeed,
    /// The path was turned down.
    InvalidPath(PathFault),
    Failed,
}

/// What the derivation along a path comes to, once the path is read.
pub open spec fn derive_outcome(seed: Seq<u8>, path: Seq<ChildIndex>) -> KeyOutcome {
    if seed.len() < SECRET_KEY_LENGTH {
        KeyOutcome::InvalidSeed
    } else {
        match derive_from(master_key(seed), path) {
            Some(key) => KeyOutcome::Keypair(key),
            None => KeyOutcome::Failed,
        }
    }
}

/// What the derivation along the path of a text comes to.
pub open spec fn derive_key_outcome(seed: Seq<u8>, text: Seq<char>) -> KeyOutcome {
    match parse_path(text) {
        None => KeyOutcome::InvalidPath(PathFault::Malformed),
        Some(path) => derive_outcome(seed, path),
    }
}

/// What the derivation for signing comes to: the seed is looked at first, then the text of
/// the path, then the rules for the path; a key is derived only if all of them hold.
pub open spec fn derive_strict_outcome(seed: Seq<u8>, text: Seq<char>, coin: u32) -> KeyOutcome {
    if seed.len() < SECRET_KEY_LENGTH {
        KeyOutcome::InvalidSeed
    } else {
        match parse_path(text) {
            None => KeyOutcome::InvalidPath(PathFault::Malformed),
            Some(path) => match first_fault(path, coin) {
                Some(fault) => KeyOutcome::InvalidPath(fault),
                None => derive_outcome(seed, path),
            },
        }
    }
}

/// Whether `r` is the result that stands for `outcome`, for a path of the given text.
pub open spec fn key_agrees(
    outcome: KeyOutcome,
    r: Result<[u8; 64], KeyError>,
    path: Seq<char>,
) -> bool {
    match outcome {
        KeyOutcome::Keypair(key) => r matches Ok(keypair) && is_keypair_of(keypair@, key),
        KeyOutcome::InvalidSeed => r matches Err(KeyError::InvalidSeed),
        KeyOutcome::InvalidPath(reason) => {
            &&& r matches Err(KeyError::InvalidDerivationPath { text, fault })
            &&& text@ == path
            &&& fault == reason
        },
        KeyOutcome::Failed => r matches Err(KeyError::DerivationFailed),
    }
}

impl ExtendedKey {
    /// `ed25519_dalek_bip32::ExtendedSecretKey::from_seed`: the master key of the seed. The
    /// outside function fails only where the first half of a hash of 64 bytes is not 32 bytes
    /// long, so it is taken to succeed.
    #[verifier::external_body]
    fn from_seed(seed: &[u8]) -> (r: Result<ExtendedKey, ed25519_dalek_bip32::Error>)
        ensures
            r is Ok,
            r->Ok_0@ == master_key(seed@),
    {
        let key = ed25519_dalek_bip32::ExtendedSecretKey::from_seed(seed)?;
        Ok(ExtendedKey { private_key: key.secret_key.to_bytes(), chain_code: key.chain_code })
    }

    /// `ed25519_dalek_bip32::ExtendedSecretKey::derive_child`: the child of a key. The outside
    /// function turns down an index that is not hardened, and for a hardened one makes the
    /// child from the private key, the chain code and the value of the index alone.
    #[verifier::external_body]
    fn child(&self, index: ChildIndex) -> (r: Result<ExtendedKey, ed25519_dalek_bip32::Error>)
        ensures
            r is Ok <==> index.hardened(),
            r is Ok ==> r->Ok_0@ == child_key(self.private_key@, self.chain_code@, index.value()),
    {
        let parent = ed25519_dalek_bip32::ExtendedSecretKey {
            depth: 0,
            child_index: ed25519_dalek_bip32::ChildIndex::Normal(0),
            secret_key: ed25519_dalek_bip32::SecretKey::from_bytes(&self.private_key)?,
            chain_code: self.chain_code,
        };
        let key = parent.derive_child(
            match index {
                ChildIndex::Normal(n) => ed25519_dalek_bip32::ChildIndex::Normal(n),
                ChildIndex::Hardened(n) => ed25519_dalek_bip32::ChildIndex::Hardened(n),
            },
        )?;
        Ok(ExtendedKey { private_key: key.secret_key.to_bytes(), chain_code: key.chain_code })
    }

    /// `ed25519_dalek_bip32::ExtendedSecretKey::public_key`: the public key, which the outside
    /// function makes from the private key alone.
    #[verifier::external_body]
    fn public(&self) -> (key: [u8; 32])
        ensures
            key@ == public_key_of(self.private_key@),
    {
        let extended = ed25519_dalek_bip32::ExtendedSecretKey {
            depth: 0,
            child_index: ed25519_dalek_bip32::ChildIndex::Normal(0),
            secret_key: ed25519_dalek_bip32::SecretKey::from_bytes(&self.private_key).unwrap(),
            chain_code: self.chain_code,
        };
        extended.public_key().to_bytes()
    }

    /// The master key of a seed of at least 32 bytes.
    pub fn master_from_seed(seed: &[u8]) -> (r: Result<ExtendedKey, KeyError>)
        ensures
            match r {
                Ok(key) => seed@.len() >= SECRET_KEY_LENGTH && key@ == master_key(seed@),
                Err(e) => seed@.len() < SECRET_KEY_LENGTH && e is InvalidSeed,
            },
    {
        if seed.len() < SECRET_KEY_LENGTH {
            return Err(KeyError::InvalidSeed);
        }
        match ExtendedKey::from_seed(seed) {
            Ok(key) => Ok(key),
            Err(_) => Err(KeyError::DerivationFailed),
        }
    }

    /// The child of the key at a hardened index. An index that is not hardened has no child.
    pub fn derive_child(&self, index: ChildIndex) -> (r: Result<ExtendedKey, KeyError>)
        ensures
            match r {
                Ok(key) => index.hardened() && key@ == child_key(
                    self.private_key@,
                    self.chain_code@,
                    index.value(),
                ),
                Err(e) => !index.hardened() && e is DerivationFailed,
            },
    {
        match self.child(index) {
            Ok(key) => Ok(key),
            Err(_) => Err(KeyError::DerivationFailed),
        }
    }

    /// The key at the end of a path that starts at the master key of a seed. Nothing of a
    /// key is handed out where a step fails.
    pub fn derive(seed: &[u8], path: &[ChildIndex]) -> (r: Result<ExtendedKey, KeyError>)
        ensures
            match r {
                Ok(key) => seed@.len() >= SECRET_KEY_LENGTH && derive_from(
                    master_key(seed@),
                    path@,
                ) == Some(key@),
                Err(KeyError::InvalidSeed) => seed@.len() < SECRET_KEY_LENGTH,
                Err(KeyError::DerivationFailed) => seed@.len() >= SECRET_KEY_LENGTH && derive_from(
                    master_key(seed@),
                    path@,
                ) is None,
                Err(KeyError::InvalidDerivationPath { .. }) => false,
            },
    {
        let mut key = match ExtendedKey::master_from_seed(seed) {
            Ok(key) => key,
            Err(e) => {
                return Err(e);
            },
        };
        let ghost master = master_key(seed@);
        let mut i: usize = 0;
        assert(path@.take(0) =~= Seq::<ChildIndex>::empty());
        while i < path.len()
            invariant
                i <= path@.len(),
                seed@.len() >= SECRET_KEY_LENGTH,
                master == master_key(seed@),
                derive_from(master, path@.take(i as int)) == Some(key@),
            decreases path@.len() - i,
        {
            proof {
                let longer = path@.take(i + 1);
                assert(longer.drop_last() =~= path@.take(i as int));
                assert(longer.last() == path@[i as int]);
                if !path@[i as int].hardened() {
                    lemma_derive_from_prefix(master, path@, i + 1);
                }
            }
            key = match key.derive_child(path[i]) {
                Ok(child) => child,
                Err(e) => {
                    return Err(e);
                },
            };
            i = i + 1;
        }
        assert(path@.take(i as int) =~= path@);
        Ok(key)
    }

    /// The public key of the key.
    pub fn public_key(&self) -> (key: [u8; 32])
        ensures
            key@ == public_key_of(self.private_key@),
    {
        self.public()
    }

    /// The private key and, behind it, the public key.
    pub fn to_keypair_bytes(&self) -> (bytes: [u8; 64])
        ensures
            is_keypair_of(bytes@, self@),
    {
        let public = self.public();
        let mut bytes = [0u8; 64];
        let mut i: usize = 0;
        while i < SECRET_KEY_LENGTH
            invariant
                i <= SECRET_KEY_LENGTH,
                forall|j: int| 0 <= j < i ==> bytes@[j] == self.private_key@[j],
                forall|j: int| 0 <= j < i ==> bytes@[32 + j] == public@[j],
            decreases SECRET_KEY_LENGTH - i,
        {
            bytes[i] = self.private_key[i];
            bytes[SECRET_KEY_LENGTH + i] = public[i];
            i = i + 1;
        }
        assert(bytes@ =~= keypair_bytes(self@));
        assert(bytes@.subrange(0, SECRET_KEY_LENGTH as int) =~= self.private_key@);
        assert(bytes@.subrange(SECRET_KEY_LENGTH as int, KEYPAIR_LENGTH as int) =~= public@);
        bytes
    }
}

/// Where the derivation along the first indexes of a path fails, it fails along the path.
pub proof fn lemma_derive_from_prefix(key: KeyMaterial, path: Seq<ChildIndex>, k: int)
    requires
        0 <= k <= path.len(),
        derive_from(key, path.take(k)) is None,
    ensures
        derive_from(key, path) is None,
    decreases path.len(),
{
    if k == path.len() {
        assert(path.take(k) =~= path);
    } else {
        assert(path.drop_last().take(k) =~= path.take(k));
        lemma_derive_from_prefix(key, path.drop_last(), k);
    }
}

/// A key can be derived along a path if and only if every index of the path is hardened.
pub proof fn lemma_derive_from_hardened(key: KeyMaterial, path: Seq<ChildIndex>)
    ensures
        derive_from(key, path) is Some <==> all_hardened(path),
    decreases path.len(),
{
    if path.len() > 0 {
        let shorter = path.drop_last();
        lemma_derive_from_hardened(key, shorter);
        if all_hardened(path) {
            assert forall|i: int| 0 <= i < shorter.len() implies (#[trigger] shorter[
                i
            ]).hardened() by {
                assert(shorter[i] == path[i]);
            }
            assert(path[path.len() - 1].hardened());
        }
        if derive_from(key, path) is Some {
            assert forall|i: int| 0 <= i < path.len() implies (#[trigger] path[i]).hardened() by {
                if i < shorter.len() {
                    assert(path[i] == shorter[i]);
                }
            }
        }
    }
}

/// Whether every index of a path is hardened.
pub fn is_fully_hardened(path: &[ChildIndex]) -> (r: bool)
    ensures
        r == all_hardened(path@),
{
    let mut i: usize = 0;
    while i < path.len()
        invariant
            i <= path@.len(),
            forall|j: int| 0 <= j < i ==> (#[trigger] path@[j]).hardened(),
        decreases path@.len() - i,
    {
        if !path[i].is_hardened() {
            return false;
        }
        i = i + 1;
    }
    true
}

/// The first rule that a path for signing breaks, if it breaks one.
pub fn check_strict(path: &[ChildIndex], coin: u32) -> (fault: Option<PathFault>)
    ensures
        fault == first_fault(path@, coin),
        fault is None <==> strict_valid(path@, coin),
{
    proof {
        lemma_strict_rules(path@, coin);
    }
    if path.len() < MIN_PATH_LENGTH {
        return Some(PathFault::TooShort);
    }
    if path.len() > MAX_PATH_LENGTH {
        return Some(PathFault::TooLong);
    }
    if path[0].to_u32() != PURPOSE {
        return Some(PathFault::BadPurpose);
    }
    if path[1].to_u32() != coin {
        return Some(PathFault::BadCoinType);
    }
    if !is_fully_hardened(path) {
        return Some(PathFault::NotHardened);
    }
    None
}

/// A path breaks no rule if and only if it may be used for signing, and each of these alone
/// has it turned down: fewer than two indexes, more than five, another purpose than 44,
/// another coin type, an index that is not hardened.
pub proof fn lemma_strict_rules(path: Seq<ChildIndex>, coin: u32)
    ensures
        first_fault(path, coin) is None <==> strict_valid(path, coin),
        path.len() < MIN_PATH_LENGTH ==> first_fault(path, coin) is Some,
        path.len() > MAX_PATH_LENGTH ==> first_fault(path, coin) is Some,
        path.len() >= 1 && path[0].value() != PURPOSE ==> first_fault(path, coin) is Some,
        path.len() >= 2 && path[1].value() != coin ==> first_fault(path, coin) is Some,
        (exists|i: int| 0 <= i < path.len() && !(#[trigger] path[i]).hardened()) ==> first_fault(
            path,
            coin,
        ) is Some,
{
    if path.len() >= 2 && all_hardened(path) {
        assert(path[0].hardened());
        assert(path[1].hardened());
    }
}

/// Derives the key at the end of a path and hands out its private and public key.
pub fn derive_keypair(seed: &[u8], path: &[ChildIndex]) -> (r: Result<[u8; 64], KeyError>)
    ensures
        key_agrees(derive_outcome(seed@, path@), r, Seq::<char>::empty()),
{
    match ExtendedKey::derive(seed, path) {
        Ok(key) => Ok(key.to_keypair_bytes()),
        Err(e) => Err(e),
    }
}

/// The private key and the public key, 32 bytes each, of the key at the end of the path that
/// `path` is the text of.
pub fn derive_key(seed: &[u8], path: &str) -> (r: Result<[u8; 64], KeyError>)
    ensures
        key_agrees(derive_key_outcome(seed@, path@), r, path@),
{
    let chars = chars_of(path);
    match parse_path_chars(chars.as_slice()) {
        Some(indexes) => derive_keypair(seed, indexes.as_slice()),
        None => Err(
            KeyError::InvalidDerivationPath { text: path.to_owned(), fault: PathFault::Malformed },
        ),
    }
}

/// The private key and the public key of a key for signing under the coin type of this
/// library. The path has to be `m/44'/540'` with at most three more indexes, all hardened.
pub fn derive_strict(seed: &[u8], path: &str) -> (r: Result<[u8; 64], KeyError>)
    ensures
        key_agrees(derive_strict_outcome(seed@, path@, SMESH_COIN), r, path@),
{
    derive_strict_with_coin(seed, path, SMESH_COIN)
}

/// The private key and the public key of a key for signing under the given coin type. No
/// key is derived unless the seed is long enough and the path meets every rule.
pub fn derive_strict_with_coin(seed: &[u8], path: &str, coin: u32) -> (r: Result<
    [u8; 64],
    KeyError,
>)
    ensures
        key_agrees(derive_strict_outcome(seed@, path@, coin), r, path@),
{
    if seed.len() < SECRET_KEY_LENGTH {
        return Err(KeyError::InvalidSeed);
    }
    let chars = chars_of(path);
    match parse_path_chars(chars.as_slice()) {
        Some(indexes) => match check_strict(indexes.as_slice(), coin) {
            Some(fault) => Err(KeyError::InvalidDerivationPath { text: path.to_owned(), fault }),
            None => derive_keypair(seed, indexes.as_slice()),
        },
        None => Err(
            KeyError::InvalidDerivationPath { text: path.to_owned(), fault: PathFault::Malformed },
        ),
    }
}

/// A derivation for signing hands out a key if and only if the seed has at least 32 bytes
/// and the text is that of a path that meets every rule.
pub proof fn lemma_strict_success(seed: Seq<u8>, text: Seq<char>, coin: u32)
    ensures
        derive_strict_outcome(seed, text, coin) is Keypair <==> seed.len() >= SECRET_KEY_LENGTH
            && parse_path(text) is Some && strict_valid(parse_path(text)->0, coin),
        !(derive_strict_outcome(seed, text, coin) is Failed),
{
    if seed.len() >= SECRET_KEY_LENGTH && parse_path(text) is Some {
        let path = parse_path(text)->0;
        lemma_strict_rules(path, coin);
        lemma_derive_from_hardened(master_key(seed), path);
    }
}

/// Equal seeds and equal paths give the same outcome, byte for byte.
pub proof fn lemma_derivation_deterministic(
    seed: Seq<u8>,
    path: Seq<ChildIndex>,
    other_seed: Seq<u8>,
    other_path: Seq<ChildIndex>,
)
    requires
        seed =~= other_seed,
        path =~= other_path,
    ensures
        derive_outcome(seed, path) == derive_outcome(other_seed, other_path),
{
}

} // verus!
