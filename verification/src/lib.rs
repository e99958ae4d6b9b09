//! Keys from a seed and a derivation path, and the hardware wallets that keep such keys.
//!
//! - [`derivation_path`]: child indexes, paths, their text form, and the paths of the
//!   purpose 44 scheme.
//! - [`key_derivation`]: the key at the end of a path, and the rules for paths for signing.
//! - [`pubkey`]: public keys of 32 bytes.
//! - [`remote_wallet`]: the description of a wallet, the text that locates one, and the list
//!   of the wallets that were found.
//! - [`locator`]: a wallet and a key as one value, read from text and written again.
//! - [`boundary`]: status numbers and buffers for callers in other languages.
//! - [`text`]: decimal numbers and separated fields.

pub mod boundary;
pub mod derivation_path;
pub mod key_derivation;
pub mod locator;
pub mod pubkey;
pub mod remote_wallet;
pub mod text;
