//! What callers in other languages see: one status number for each kind of failure, results
//! written into buffers that the caller owns, and the messages of the failures.

use crate::derivation_path::{harden_all, parse_path, DerivationPath, DerivationPathError};
use crate::key_derivation::{
    derive_strict, derive_strict_outcome, is_keypair_of, KeyError, KeyOutcome, PathFault,
    SECRET_KEY_LENGTH, SMESH_COIN,
};
use crate::locator::Locator;
use crate::pubkey::Pubkey;
use crate::remote_wallet::{agrees, parse_locator, PathOutcome, RemoteWalletError};
use vstd::prelude::*;

verus! {

/// The status of a call that succeeded.
pub const STATUS_OK: u16 = 0;

/// The kinds of failure that a caller can tell apart.
#[derive(Clone, Copy, Debug, PartialEq, Eq, Structural)]
pub enum ErrorKind {
    InvalidDerivationPath,
    InvalidPath,
    InvalidSeed,
    DerivationFailed,
    Hid,
    DeviceTypeMismatch,
    InvalidDevice,
    PubkeyNotFound,
    NoDeviceFound,
    UserCancel,
    Protocol,
}

impl ErrorKind {
    /// The status number of the kind.
    pub open spec fn code(self) -> u16 {
        match self {
            ErrorKind::InvalidDerivationPath => 1,
            ErrorKind::InvalidPath => 2,
            ErrorKind::InvalidSeed => 3,
            ErrorKind::DerivationFailed => 4,
            ErrorKind::Hid => 5,
            ErrorKind::DeviceTypeMismatch => 6,
            ErrorKind::InvalidDevice => 7,
            ErrorKind::PubkeyNotFound => 8,
            ErrorKind::NoDeviceFound => 9,
            ErrorKind::UserCancel => 10,
            ErrorKind::Protocol => 11,
        }
    }

    /// The status number of the kind; never that of success.
    pub fn status_code(self) -> (code: u16)
        ensures
            code == self.code(),
            code != STATUS_OK,
    {
        match self {
            ErrorKind::InvalidDerivationPath => 1,
            ErrorKind::InvalidPath => 2,
            ErrorKind::InvalidSeed => 3,
            ErrorKind::DerivationFailed => 4,
            ErrorKind::Hid => 5,
            ErrorKind::DeviceTypeMismatch => 6,
            ErrorKind::InvalidDevice => 7,
            ErrorKind::PubkeyNotFound => 8,
            ErrorKind::NoDeviceFound => 9,
            ErrorKind::UserCancel => 10,
            ErrorKind::Protocol => 11,
        }
    }
}

/// No kind of failure has the status of success, and no two kinds share a status.
pub proof fn lemma_status_codes(a: ErrorKind, b: ErrorKind)
    ensures
        a.code() != STATUS_OK,
        a.code() == b.code() ==> a == b,
{
}

/// The kind of a failure to derive a key.
pub open spec fn key_error_kind(e: KeyError) -> ErrorKind {
    match e {
        KeyError::InvalidSeed => ErrorKind::InvalidSeed,
        KeyError::InvalidDerivationPath { .. } => ErrorKind::InvalidDerivationPath,
        KeyError::DerivationFailed => ErrorKind::DerivationFailed,
    }
}

/// The kind of a failure of a remote wallet.
pub open spec fn wallet_error_kind(e: RemoteWalletError) -> ErrorKind {
    match e {
        RemoteWalletError::Hid(_) => ErrorKind::Hid,
        RemoteWalletError::DeviceTypeMismatch => ErrorKind::DeviceTypeMismatch,
        RemoteWalletError::InvalidDevice => ErrorKind::InvalidDevice,
        RemoteWalletError::InvalidDerivationPath(_) => ErrorKind::InvalidDerivationPath,
        RemoteWalletError::InvalidPath(_) => ErrorKind::InvalidPath,
        RemoteWalletError::NoDeviceFound => ErrorKind::NoDeviceFound,
        RemoteWalletError::Protocol(_) => ErrorKind::Protocol,
        RemoteWalletError::PubkeyNotFound => ErrorKind::PubkeyNotFound,
        RemoteWalletError::UserCancel => ErrorKind::UserCancel,
    }
}

/// The kind of a failure to derive a key.
pub fn kind_of_key_error(e: &KeyError) -> (kind: ErrorKind)
    ensures
        kind == key_error_kind(*e),
{
    match e {
        KeyError::InvalidSeed => ErrorKind::InvalidSeed,
        KeyError::InvalidDerivationPath { .. } => ErrorKind::InvalidDerivationPath,
        KeyError::DerivationFailed => ErrorKind::DerivationFailed,
    }
}

/// The kind of a failure of a remote wallet.
pub fn kind_of_wallet_error(e: &RemoteWalletError) -> (kind: ErrorKind)
    ensures
        kind == wallet_error_kind(*e),
{
    match e {
        RemoteWalletError::Hid(_) => ErrorKind::Hid,
        RemoteWalletError::DeviceTypeMismatch => ErrorKind::DeviceTypeMismatch,
        RemoteWalletError::InvalidDevice => ErrorKind::InvalidDevice,
        RemoteWalletError::InvalidDerivationPath(_) => ErrorKind::InvalidDerivationPath,
        RemoteWalletError::InvalidPath(_) => ErrorKind::InvalidPath,
        RemoteWalletError::NoDeviceFound => ErrorKind::NoDeviceFound,
        RemoteWalletError::Protocol(_) => ErrorKind::Protocol,
        RemoteWalletError::PubkeyNotFound => ErrorKind::PubkeyNotFound,
        RemoteWalletError::UserCancel => ErrorKind::UserCancel,
    }
}

/// The status that a derivation for signing reports.
pub open spec fn outcome_status(outcome: KeyOutcome) -> u16 {
    match outcome {
        KeyOutcome::Keypair(_) => STATUS_OK,
        KeyOutcome::InvalidSeed => ErrorKind::InvalidSeed.code(),
        KeyOutcome::InvalidPath(_) => ErrorKind::InvalidDerivationPath.code(),
        KeyOutcome::Failed => ErrorKind::DerivationFailed.code(),
    }
}

/// What a derivation for signing comes to where the path arrives as bytes: bytes that are
/// no text are turned down as a path that cannot be read, after the seed was looked at.
pub open spec fn derive_c_outcome(seed: Seq<u8>, derivation_path: Option<&str>) -> KeyOutcome {
    match derivation_path {
        Some(text) => derive_strict_outcome(seed, text@, SMESH_COIN),
        None => if seed.len() < SECRET_KEY_LENGTH {
            KeyOutcome::InvalidSeed
        } else {
            KeyOutcome::InvalidPath(PathFault::Malformed)
        },
    }
}

/// Derives a key for signing and writes its private key and its public key, 32 bytes each,
/// into `result`. Reports the status of success, or that of the failure, in which case
/// `result` is left as it was. `derivation_path` is `None` where the bytes of the caller are
/// no UTF-8.
pub fn derive_c(seed: &[u8], derivation_path: Option<&str>, result: &mut [u8; 64]) -> (status:
    u16)
    ensures
        status == outcome_status(derive_c_outcome(seed@, derivation_path)),
        match derive_c_outcome(seed@, derivation_path) {
            KeyOutcome::Keypair(key) => is_keypair_of(final(result)@, key),
            _ => final(result)@ == old(result)@,
        },
{
    match derivation_path {
        Some(text) => match derive_strict(seed, text) {
            Ok(keypair) => {
                *result = keypair;
                STATUS_OK
            },
            Err(e) => kind_of_key_error(&e).status_code(),
        },
        None => if seed.len() < SECRET_KEY_LENGTH {
            ErrorKind::InvalidSeed.status_code()
        } else {
            ErrorKind::InvalidDerivationPath.status_code()
        },
    }
}

/// Writes the key that a wallet gave into `result` and reports success, or reports the status
/// of the failure and leaves `result` as it was.
pub fn deliver_pubkey(
    outcome: &Result<Pubkey, RemoteWalletError>,
    result: &mut [u8; 32],
) -> (status: u16)
    ensures
        match *outcome {
            Ok(key) => status == STATUS_OK && final(result)@ == key@,
            Err(e) => status == wallet_error_kind(e).code() && final(result)@ == old(result)@,
        },
{
    match outcome {
        Ok(key) => {
            *result = key.to_bytes();
            STATUS_OK
        },
        Err(e) => kind_of_wallet_error(e).status_code(),
    }
}

/// What is asked of a remote wallet: which wallet, which key, and whether the user is to
/// confirm the key on the device.
#[derive(Debug)]
pub struct PubkeyRequest {
    pub locator: Locator,
    pub derivation_path: DerivationPath,
    pub confirm_key: bool,
}

/// The text of the locator that stands for an empty one: the first wallet that is found.
pub open spec fn default_locator() -> Seq<char> {
    "usb://ledger"@
}

/// The text of the locator that is read: the default one in place of an empty text.
pub open spec fn locator_or_default(path: Seq<char>) -> Seq<char> {
    if path.len() == 0 {
        default_locator()
    } else {
        path
    }
}

/// What a failure carries in place of the text where the bytes of the caller are no UTF-8.
pub open spec fn not_text() -> Seq<char> {
    "not valid UTF-8"@
}

/// Reads what is asked of a remote wallet, before any device is looked for. The locator is
/// read first, then the derivation path, of which every index is hardened. A text is `None`
/// where the bytes of the caller are no UTF-8.
pub fn read_pubkey_request(
    path: Option<&str>,
    derivation_path: Option<&str>,
    confirm_key: bool,
) -> (r: Result<PubkeyRequest, RemoteWalletError>)
    ensures
        match path {
            None => {
                &&& r matches Err(RemoteWalletError::InvalidPath(text))
                &&& text@ == not_text()
            },
            Some(path) => match parse_locator(locator_or_default(path@)) {
                PathOutcome::Parsed {
                    manufacturer,
                    model,
                    pubkey,
                    path: located,
                } => match derivation_path {
                    None => {
                        &&& r matches Err(RemoteWalletError::InvalidDerivationPath(text))
                        &&& text@ == not_text()
                    },
                    Some(derivation_path) => match parse_path(derivation_path@) {
                        Some(indexes) => {
                            &&& r matches Ok(request)
                            &&& request.locator.info.manufacturer@ == manufacturer
                            &&& request.locator.info.model@ == model
                            &&& request.locator.info.serial@ == Seq::<char>::empty()
                            &&& request.locator.info.pubkey@ == pubkey
                            &&& request.locator.derivation_path == located
                            &&& request.derivation_path@ == harden_all(indexes)
                            &&& request.confirm_key == confirm_key
                        },
                        None => {
                            &&& r matches Err(RemoteWalletError::InvalidDerivationPath(text))
                            &&& text@ == derivation_path@
                        },
                    },
                },
                failed => agrees(
                    failed,
                    match r {
                        Ok(request) => Ok((request.locator.info, request.locator.derivation_path)),
                        Err(e) => Err(e),
                    },
                ),
            },
        },
{
    let path = match path {
        Some(path) => if path.is_empty() {
            "usb://ledger"
        } else {
            path
        },
        None => {
            return Err(RemoteWalletError::InvalidPath(String::from_str("not valid UTF-8")));
        },
    };
    let locator = match Locator::new_from_path(path) {
        Ok(locator) => locator,
        Err(e) => {
            return Err(e);
        },
    };
    let derivation_path = match derivation_path {
        Some(derivation_path) => derivation_path,
        None => {
            return Err(
                RemoteWalletError::InvalidDerivationPath(String::from_str("not valid UTF-8")),
            );
        },
    };
    match DerivationPath::from_absolute_path_str(derivation_path) {
        Ok(derivation_path) => Ok(PubkeyRequest { locator, derivation_path, confirm_key }),
        Err(DerivationPathError::InvalidDerivationPath(text)) => Err(
            RemoteWalletError::InvalidDerivationPath(text),
        ),
    }
}

} // verus!
