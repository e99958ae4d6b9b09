//! Remote wallets: the description of a wallet, the text that locates one, and the list of
//! the wallets that were found.

use crate::derivation_path::{bip44_path, SOLANA_COIN};
use crate::pubkey::{pubkey_from_text, pubkey_text, zero_key, Pubkey};
use crate::text::{
    chars_of, field_views, parse_decimal, parse_uint, push_chars, push_decimal, remove_char,
    same_chars, split, split_chars, string_of, without, decimal_digits,
};
use vstd::prelude::*;
use vstd::slice::slice_subrange;

verus! {

/// The usage page of a generic device.
pub const HID_GLOBAL_USAGE_PAGE: u16 = 0xFF00;

/// The interface class of a generic device.
pub const HID_USB_DEVICE_CLASS: u8 = 0;

/// The number of characters of the scheme that opens the text of a locator.
pub const SCHEME_LEN: usize = 6;

/// A failure of a remote wallet or of the search for one.
#[derive(Debug)]
pub enum RemoteWalletError {
    /// The devices could not be listed at all; the text says why.
    Hid(String),
    DeviceTypeMismatch,
    InvalidDevice,
    InvalidDerivationPath(String),
    InvalidPath(String),
    NoDeviceFound,
    Protocol(&'static str),
    PubkeyNotFound,
    UserCancel,
}

impl RemoteWalletError {
    /// The message of the failure, with the text that it carries.
    pub open spec fn message_text(self) -> Seq<char> {
        match self {
            RemoteWalletError::Hid(_) => "hidapi error"@,
            RemoteWalletError::DeviceTypeMismatch => "device type mismatch"@,
            RemoteWalletError::InvalidDevice =>
                "device with non-supported product ID or vendor ID was detected"@,
            RemoteWalletError::InvalidDerivationPath(text) => "invalid derivation path: "@
                + text@,
            RemoteWalletError::InvalidPath(text) => "invalid path: "@ + text@,
            RemoteWalletError::NoDeviceFound => "no device found"@,
            RemoteWalletError::Protocol(text) => "protocol error: "@ + text@,
            RemoteWalletError::PubkeyNotFound => "pubkey not found for given address"@,
            RemoteWalletError::UserCancel => "operation has been cancelled"@,
        }
    }

    /// The message of the failure, with the text that it carries.
    pub fn message(&self) -> (message: String)
        ensures
            message@ == self.message_text(),
    {
        match self {
            RemoteWalletError::Hid(_) => String::from_str("hidapi error"),
            RemoteWalletError::DeviceTypeMismatch => String::from_str("device type mismatch"),
            RemoteWalletError::InvalidDevice => String::from_str(
                "device with non-supported product ID or vendor ID was detected",
            ),
            RemoteWalletError::InvalidDerivationPath(text) => {
                let mut message = String::from_str("invalid derivation path: ");
                message.append(text.as_str());
                message
            },
            RemoteWalletError::InvalidPath(text) => {
                let mut message = String::from_str("invalid path: ");
                message.append(text.as_str());
                message
            },
            RemoteWalletError::NoDeviceFound => String::from_str("no device found"),
            RemoteWalletError::Protocol(text) => {
                let mut message = String::from_str("protocol error: ");
                message.append(text);
                message
            },
            RemoteWalletError::PubkeyNotFound => String::from_str(
                "pubkey not found for given address",
            ),
            RemoteWalletError::UserCancel => String::from_str("operation has been cancelled"),
        }
    }
}

/// The account and the change of a key on a remote wallet, under purpose 44 and the default
/// coin.
#[derive(Clone, Copy, Debug, PartialEq, Eq, Structural)]
pub struct DerivationPath {
    pub account: u16,
    pub change: Option<u16>,
}

impl Default for DerivationPath {
    /// Account zero, without change.
    fn default() -> (path: Self)
        ensures
            path == (DerivationPath { account: 0, change: None }),
    {
        DerivationPath { account: 0, change: None }
    }
}

/// What is known of a remote wallet.
#[derive(Debug)]
pub struct RemoteWalletInfo {
    /// The model of the device; empty if any model will do.
    pub model: String,
    /// The manufacturer of the device.
    pub manufacturer: String,
    /// The serial number of the device.
    pub serial: String,
    /// The base key of the device; the zero key if any key will do.
    pub pubkey: Pubkey,
}

impl Clone for RemoteWalletInfo {
    fn clone(&self) -> (copy: Self)
        ensures
            copy == *self,
    {
        RemoteWalletInfo {
            model: self.model.clone(),
            manufacturer: self.manufacturer.clone(),
            serial: self.serial.clone(),
            pubkey: self.pubkey,
        }
    }
}

impl Default for RemoteWalletInfo {
    /// No model, no manufacturer, no serial number, and the zero key.
    fn default() -> (info: Self)
        ensures
            info.model@ == Seq::<char>::empty(),
            info.manufacturer@ == Seq::<char>::empty(),
            info.serial@ == Seq::<char>::empty(),
            info.pubkey@ == zero_key(),
    {
        RemoteWalletInfo {
            model: String::new(),
            manufacturer: String::new(),
            serial: String::new(),
            pubkey: Pubkey::default(),
        }
    }
}

/// The scheme that opens the text of a locator.
pub open spec fn scheme() -> Seq<char> {
    seq!['u', 's', 'b', ':', '/', '/']
}

/// Whether `text` opens with the scheme.
pub open spec fn has_scheme(text: Seq<char>) -> bool {
    text.len() >= SCHEME_LEN && text.take(SCHEME_LEN as int) == scheme()
}

/// The fields of a locator: what follows the scheme, without one slash at its end, parted at
/// each slash.
pub open spec fn locator_fields(text: Seq<char>) -> Seq<Seq<char>> {
    let rest = text.skip(SCHEME_LEN as int);
    if rest.len() > 0 && rest.last() == '/' {
        split(rest.drop_last(), '/')
    } else {
        split(rest, '/')
    }
}

/// What the text of a locator comes to.
pub enum PathOutcome {
    /// The wallet and the key that the locator names.
    Parsed { manufacturer: Seq<char>, model: Seq<char>, pubkey: Seq<u8>, path: DerivationPath },
    /// The text does not open with the scheme; the text is carried along.
    MissingScheme(Seq<char>),
    /// The purpose is not 44; the field is carried along.
    BadPurpose(Seq<char>),
    /// A purpose without a coin.
    MissingCoin,
    /// The coin is not the default coin; the field is carried along.
    BadCoin(Seq<char>),
    /// The account is no number of 16 bits; the field is carried along.
    BadAccount(Seq<char>),
}

/// The number of 16 bits that a field denotes once its apostrophes are left out.
pub open spec fn field_number(field: Seq<char>) -> Option<u16> {
    match parse_uint(without(field, '\''), u16::MAX as nat) {
        Some(n) => Some(n as u16),
        None => None,
    }
}

/// What the fields of a locator come to, given the key that the third field was read as.
///
/// The fields are, in order: manufacturer, model, key, purpose, coin, account, change. A
/// missing model is empty; a missing or unreadable key is the zero key. The purpose must be 44
/// and the coin 501, apostrophes aside, and a purpose needs a coin. A missing account is zero;
/// a missing or unreadable change is no change. Further fields are not looked at.
pub open spec fn assemble(fields: Seq<Seq<char>>, key: Option<Seq<u8>>) -> PathOutcome {
    let manufacturer = if fields.len() > 0 {
        fields[0]
    } else {
        Seq::<char>::empty()
    };
    let model = if fields.len() > 1 {
        fields[1]
    } else {
        Seq::<char>::empty()
    };
    let pubkey = match key {
        Some(k) => k,
        None => zero_key(),
    };
    if fields.len() <= 3 {
        PathOutcome::Parsed {
            manufacturer,
            model,
            pubkey,
            path: DerivationPath { account: 0, change: None },
        }
    } else if without(fields[3], '\'') != seq!['4', '4'] {
        PathOutcome::BadPurpose(fields[3])
    } else if fields.len() <= 4 {
        PathOutcome::MissingCoin
    } else if without(fields[4], '\'') != seq!['5', '0', '1'] {
        PathOutcome::BadCoin(fields[4])
    } else if fields.len() <= 5 {
        PathOutcome::Parsed {
            manufacturer,
            model,
            pubkey,
            path: DerivationPath { account: 0, change: None },
        }
    } else {
        match field_number(fields[5]) {
            None => PathOutcome::BadAccount(fields[5]),
            Some(account) => PathOutcome::Parsed {
                manufacturer,
                model,
                pubkey,
                path: DerivationPath {
                    account,
                    change: if fields.len() > 6 {
                        field_number(fields[6])
                    } else {
                        None
                    },
                },
            },
        }
    }
}

/// What the text of a locator comes to.
pub open spec fn parse_locator(text: Seq<char>) -> PathOutcome {
    if !has_scheme(text) {
        PathOutcome::MissingScheme(text)
    } else {
        let fields = locator_fields(text);
        assemble(
            fields,
            if fields.len() > 2 {
                pubkey_from_text(fields[2])
            } else {
                None
            },
        )
    }
}

/// Whether `r` is the result that stands for `outcome`: the wallet and the key, or the error
/// with its message.
pub open spec fn agrees(
    outcome: PathOutcome,
    r: Result<(RemoteWalletInfo, DerivationPath), RemoteWalletError>,
) -> bool {
    match outcome {
        PathOutcome::Parsed { manufacturer, model, pubkey, path } => {
            &&& r matches Ok((info, derivation))
            &&& info.manufacturer@ == manufacturer
            &&& info.model@ == model
            &&& info.serial@ == Seq::<char>::empty()
            &&& info.pubkey@ == pubkey
            &&& derivation == path
        },
        PathOutcome::MissingScheme(text) => {
            &&& r matches Err(RemoteWalletError::InvalidPath(message))
            &&& message@ == text
        },
        PathOutcome::BadPurpose(field) => {
            &&& r matches Err(RemoteWalletError::InvalidDerivationPath(message))
            &&& message@ == "Incorrect purpose number, found: "@ + field + ", must be 44"@
        },
        PathOutcome::MissingCoin => {
            &&& r matches Err(RemoteWalletError::InvalidDerivationPath(message))
            &&& message@ == "Derivation path too short, missing coin number"@
        },
        PathOutcome::BadCoin(field) => {
            &&& r matches Err(RemoteWalletError::InvalidDerivationPath(message))
            &&& message@ == "Incorrect coin number, found: "@ + field + ", must be 501"@
        },
        PathOutcome::BadAccount(field) => {
            &&& r matches Err(RemoteWalletError::InvalidDerivationPath(message))
            &&& message@ == "Incorrect account number, found: "@ + field
        },
    }
}

/// Reads a field as a number of 16 bits, apostrophes left out.
pub fn parse_field_number(field: &[char]) -> (r: Option<u16>)
    ensures
        r == field_number(field@),
{
    let digits = remove_char(field, '\'');
    match parse_decimal(digits.as_slice(), 0xffff) {
        Some(n) => Some(n as u16),
        None => None,
    }
}

/// The message `head`, `field`, `tail` in one string.
fn message_about(head: &str, field: &[char], tail: &str) -> (message: String)
    ensures
        message@ == head@ + field@ + tail@,
{
    let mut message = String::from_str(head);
    push_chars(&mut message, field);
    message.append(tail);
    message
}

impl RemoteWalletInfo {
    /// Reads the text of a locator,
    /// `usb://<manufacturer>/<model>/<key>/<purpose>/<coin>/<account>/<change>`, of which the
    /// fields behind the manufacturer may be left out from any of them on.
    pub fn parse_path(path: String) -> (r: Result<(Self, DerivationPath), RemoteWalletError>)
        ensures
            agrees(parse_locator(path@), r),
    {
        let chars = chars_of(path.as_str());
        let n = chars.len();
        if !(n >= SCHEME_LEN && chars[0] == 'u' && chars[1] == 's' && chars[2] == 'b' && chars[3]
            == ':' && chars[4] == '/' && chars[5] == '/') {
            assert(!has_scheme(path@)) by {
                if has_scheme(path@) {
                    let head = path@.take(SCHEME_LEN as int);
                    assert(head[0] == 'u' && head[1] == 's' && head[2] == 'b' && head[3] == ':'
                        && head[4] == '/' && head[5] == '/');
                }
            }
            return Err(RemoteWalletError::InvalidPath(path));
        }
        assert(path@.take(SCHEME_LEN as int) =~= scheme());
        let end = if n > SCHEME_LEN && chars[n - 1] == '/' {
            n - 1
        } else {
            n
        };
        let rest = slice_subrange(chars.as_slice(), SCHEME_LEN, end);
        proof {
            let tail = path@.skip(SCHEME_LEN as int);
            if tail.len() > 0 && tail.last() == '/' {
                assert(rest@ =~= tail.drop_last());
            } else {
                assert(rest@ =~= tail);
            }
        }
        let fields = split_chars(rest, '/');
        assert(field_views(fields@) == locator_fields(path@));
        let key = if fields.len() > 2 {
            let text = string_of(fields[2].as_slice());
            assert(field_views(fields@)[2] == fields@[2]@);
            match Pubkey::decode(text.as_str()) {
                Ok(key) => Some(key),
                Err(_) => None,
            }
        } else {
            None
        };
        RemoteWalletInfo::from_fields(&fields, key)
    }

    /// The wallet and the key that the fields of a locator name, given the key that the third
    /// field was read as.
    pub fn from_fields(fields: &Vec<Vec<char>>, key: Option<Pubkey>) -> (r: Result<
        (Self, DerivationPath),
        RemoteWalletError,
    >)
        ensures
            agrees(
                assemble(
                    field_views(fields@),
                    match key {
                        Some(k) => Some(k@),
                        None => None,
                    },
                ),
                r,
            ),
    {
        let ghost views = field_views(fields@);
        let count = fields.len();
        let mut wallet_info = RemoteWalletInfo::default();
        if count > 0 {
            assert(views[0] == fields@[0]@);
            wallet_info.manufacturer = string_of(fields[0].as_slice());
        }
        if count > 1 {
            assert(views[1] == fields@[1]@);
            wallet_info.model = string_of(fields[1].as_slice());
        }
        wallet_info.pubkey = match key {
            Some(key) => key,
            None => Pubkey::default(),
        };
        let mut derivation_path = DerivationPath::default();
        if count > 3 {
            assert(views[3] == fields@[3]@);
            let purpose = remove_char(fields[3].as_slice(), '\'');
            let forty_four: [char; 2] = ['4', '4'];
            assert(forty_four@ =~= seq!['4', '4']);
            if !same_chars(purpose.as_slice(), forty_four.as_slice()) {
                return Err(
                    RemoteWalletError::InvalidDerivationPath(
                        message_about(
                            "Incorrect purpose number, found: ",
                            fields[3].as_slice(),
                            ", must be 44",
                        ),
                    ),
                );
            }
            if count > 4 {
                assert(views[4] == fields@[4]@);
                let coin = remove_char(fields[4].as_slice(), '\'');
                let default_coin: [char; 3] = ['5', '0', '1'];
                assert(default_coin@ =~= seq!['5', '0', '1']);
                if !same_chars(coin.as_slice(), default_coin.as_slice()) {
                    return Err(
                        RemoteWalletError::InvalidDerivationPath(
                            message_about(
                                "Incorrect coin number, found: ",
                                fields[4].as_slice(),
                                ", must be 501",
                            ),
                        ),
                    );
                }
                if count > 5 {
                    assert(views[5] == fields@[5]@);
                    match parse_field_number(fields[5].as_slice()) {
                        Some(account) => {
                            derivation_path.account = account;
                        },
                        None => {
                            proof {
                                reveal_strlit("");
                                assert(""@ =~= Seq::<char>::empty());
                                assert("Incorrect account number, found: "@ + views[5] + ""@
                                    =~= "Incorrect account number, found: "@ + views[5]);
                            }
                            return Err(
                                RemoteWalletError::InvalidDerivationPath(
                                    message_about(
                                        "Incorrect account number, found: ",
                                        fields[5].as_slice(),
                                        "",
                                    ),
                                ),
                            );
                        },
                    }
                    if count > 6 {
                        assert(views[6] == fields@[6]@);
                        derivation_path.change = parse_field_number(fields[6].as_slice());
                    }
                }
            } else {
                return Err(
                    RemoteWalletError::InvalidDerivationPath(
                        String::from_str("Derivation path too short, missing coin number"),
                    ),
                );
            }
        }
        Ok((wallet_info, derivation_path))
    }
}

impl RemoteWalletInfo {
    /// Whether two descriptions can be of one wallet: the manufacturers are equal, and the
    /// models and the keys are equal or one of them is left open.
    pub open spec fn matches_spec(&self, other: &Self) -> bool {
        &&& self.manufacturer@ == other.manufacturer@
        &&& (self.model@ == other.model@ || self.model@.len() == 0 || other.model@.len() == 0)
        &&& (self.pubkey@ == other.pubkey@ || self.pubkey@ == zero_key() || other.pubkey@
            == zero_key())
    }

    /// The text that locates the wallet: the scheme, the manufacturer, the model and the key,
    /// with slashes between them.
    pub open spec fn pretty_path_text(&self) -> Seq<char> {
        scheme() + self.manufacturer@ + seq!['/'] + self.model@ + seq!['/'] + pubkey_text(
            self.pubkey@,
        )
    }

    /// Whether two descriptions can be of one wallet.
    pub fn matches(&self, other: &Self) -> (r: bool)
        ensures
            r == self.matches_spec(other),
    {
        self.manufacturer == other.manufacturer && (self.model == other.model
            || self.model.as_str().is_empty() || other.model.as_str().is_empty()) && (
        self.pubkey.same(&other.pubkey) || self.pubkey.is_default() || other.pubkey.is_default())
    }

    /// The text that locates the wallet, `usb://<manufacturer>/<model>/<key>`.
    pub fn get_pretty_path(&self) -> (path: String)
        ensures
            path@ == self.pretty_path_text(),
    {
        let mut path = String::from_str("usb://");
        proof {
            reveal_strlit("usb://");
            assert("usb://"@ =~= scheme());
            reveal_strlit("/");
            assert("/"@ =~= seq!['/']);
        }
        path.append(self.manufacturer.as_str());
        path.append("/");
        path.append(self.model.as_str());
        path.append("/");
        let key = self.pubkey.encode();
        path.append(key.as_str());
        assert(path@ =~= self.pretty_path_text());
        path
    }
}

/// Matching is reflexive: every description matches itself.
pub proof fn lemma_matches_reflexive(info: RemoteWalletInfo)
    ensures
        info.matches_spec(&info),
{
}

/// Matching is symmetric: it does not matter which of two descriptions is asked.
pub proof fn lemma_matches_symmetric(a: RemoteWalletInfo, b: RemoteWalletInfo)
    ensures
        a.matches_spec(&b) == b.matches_spec(&a),
{
}

/// A description without model matches every description of the same manufacturer whose key
/// is equal to its own, or where one of the two keys is left open.
pub proof fn lemma_open_model_matches(wanted: RemoteWalletInfo, found: RemoteWalletInfo)
    requires
        wanted.model@.len() == 0,
        wanted.manufacturer@ == found.manufacturer@,
        wanted.pubkey@ == zero_key() || found.pubkey@ == zero_key() || wanted.pubkey@
            == found.pubkey@,
    ensures
        wanted.matches_spec(&found),
        found.matches_spec(&wanted),
{
}

impl DerivationPath {
    /// The text of the path, `m/44'/501'/<account>'` with `/<change>'` behind it if there is
    /// a change.
    pub open spec fn text(self) -> Seq<char> {
        let head = "m/44'/501'/"@ + decimal_digits(self.account as nat).push('\'');
        match self.change {
            Some(change) => head.push('/') + decimal_digits(change as nat).push('\''),
            None => head,
        }
    }

    /// The indexes of the path: purpose, coin, account, and change if there is one, each
    /// hardened.
    pub open spec fn indexes(self) -> Seq<crate::derivation_path::ChildIndex> {
        bip44_path(
            SOLANA_COIN,
            Some(self.account as u32),
            match self.change {
                Some(change) => Some(change as u32),
                None => None,
            },
        )
    }

    /// The text of the path.
    pub fn format(&self) -> (text: String)
        ensures
            text@ == self.text(),
    {
        let mut text = String::from_str("m/44'/501'/");
        push_decimal(&mut text, self.account as u32);
        crate::text::push_char(&mut text, '\'');
        if let Some(change) = self.change {
            crate::text::push_char(&mut text, '/');
            push_decimal(&mut text, change as u32);
            crate::text::push_char(&mut text, '\'');
        }
        assert(text@ =~= self.text());
        text
    }

    /// The same path as a list of indexes.
    pub fn to_indexes(&self) -> (path: crate::derivation_path::DerivationPath)
        ensures
            path@ == self.indexes(),
    {
        let change: Option<u32> = match self.change {
            Some(change) => Some(change as u32),
            None => None,
        };
        crate::derivation_path::DerivationPath::new_bip44(Some(self.account as u32), change)
    }
}

/// Whether an interface is that of a generic device: by its usage page or by its number.
pub fn is_valid_hid_device(usage_page: u16, interface_number: i32) -> (valid: bool)
    ensures
        valid == (usage_page == HID_GLOBAL_USAGE_PAGE || interface_number
            == HID_USB_DEVICE_CLASS as i32),
{
    usage_page == HID_GLOBAL_USAGE_PAGE || interface_number == HID_USB_DEVICE_CLASS as i32
}

/// The session that is open with a device. Whoever opens the device hands the number out and
/// keeps the connection under it.
#[derive(Clone, Copy, Debug, PartialEq, Eq, Structural)]
pub struct SessionHandle {
    pub id: u64,
}

/// The kinds of remote wallet, each with its session.
#[derive(Clone, Copy, Debug, PartialEq, Eq, Structural)]
pub enum RemoteWalletType {
    Ledger(SessionHandle),
}

/// A remote wallet that was found.
#[derive(Debug)]
pub struct Device {
    /// The path of the device on this machine.
    pub path: String,
    /// What the device said of itself.
    pub info: RemoteWalletInfo,
    /// The kind of wallet and the session that is open with it.
    pub wallet_type: RemoteWalletType,
}

/// What the listing of the devices of this machine says of one interface.
#[derive(Debug)]
pub struct HidDeviceInfo {
    pub path: String,
    pub vendor_id: u16,
    pub product_id: u16,
    pub usage_page: u16,
    pub interface_number: i32,
}

/// A vendor and a product of which the devices are hardware wallets that can be talked to.
#[derive(Clone, Copy, Debug, PartialEq, Eq, Structural)]
pub struct ProductId {
    pub vendor_id: u16,
    pub product_id: u16,
}

/// Whether an interface is worth opening: it is that of a generic device, and its vendor and
/// product are among the supported ones.
pub open spec fn is_candidate(supported: Seq<ProductId>, interface: HidDeviceInfo) -> bool {
    &&& interface.usage_page == HID_GLOBAL_USAGE_PAGE || interface.interface_number
        == HID_USB_DEVICE_CLASS as i32
    &&& supported.contains(
        ProductId { vendor_id: interface.vendor_id, product_id: interface.product_id },
    )
}

/// The devices among the outcomes of opening the candidates, in order. An outcome without
/// device is an interface that could not be opened or did not say what it is.
pub open spec fn found(probes: Seq<Option<Device>>) -> Seq<Device>
    decreases probes.len(),
{
    if probes.len() == 0 {
        Seq::<Device>::empty()
    } else {
        match probes.last() {
            Some(device) => found(probes.drop_last()).push(device),
            None => found(probes.drop_last()),
        }
    }
}

/// The list of devices after a refresh: the devices that were found, whatever was known.
pub open spec fn refreshed(known: Seq<Device>, probes: Seq<Option<Device>>) -> Seq<Device> {
    found(probes)
}

/// The number that a refresh reports: how many more devices are known after it than before.
pub open spec fn count_delta(known: Seq<Device>, probes: Seq<Option<Device>>) -> int {
    found(probes).len() - known.len()
}

/// What each device of a list said of itself.
pub open spec fn infos(devices: Seq<Device>) -> Seq<RemoteWalletInfo> {
    devices.map_values(|device: Device| device.info)
}

/// A second refresh that finds what the first one found reports a difference of zero and
/// leaves the list of devices, and what they said of themselves, as it was.
pub proof fn lemma_refresh_again(known: Seq<Device>, probes: Seq<Option<Device>>)
    ensures
        count_delta(refreshed(known, probes), probes) == 0,
        refreshed(refreshed(known, probes), probes) == refreshed(known, probes),
        infos(refreshed(refreshed(known, probes), probes)) == infos(refreshed(known, probes)),
{
}

/// The wallets that were found, and the products that count as wallets.
#[derive(Debug)]
pub struct RemoteWalletManager {
    devices: Vec<Device>,
    supported: Vec<ProductId>,
}

impl RemoteWalletManager {
    /// The devices that are known, in the order in which they were found.
    pub closed spec fn devices(&self) -> Seq<Device> {
        self.devices@
    }

    /// The products that count as wallets.
    pub closed spec fn supported(&self) -> Seq<ProductId> {
        self.supported@
    }

    /// A manager that knows no device yet.
    pub fn new(supported: Vec<ProductId>) -> (manager: Self)
        ensures
            manager.devices() == Seq::<Device>::empty(),
            manager.supported() == supported@,
    {
        RemoteWalletManager { devices: Vec::new(), supported }
    }

    /// Whether a vendor and a product are among the supported ones.
    pub fn is_supported(&self, vendor_id: u16, product_id: u16) -> (r: bool)
        ensures
            r == self.supported().contains(ProductId { vendor_id, product_id }),
    {
        let mut i: usize = 0;
        while i < self.supported.len()
            invariant
                i <= self.supported@.len(),
                forall|j: int|
                    0 <= j < i ==> self.supported@[j] != (ProductId { vendor_id, product_id }),
            decreases self.supported@.len() - i,
        {
            if self.supported[i].vendor_id == vendor_id && self.supported[i].product_id
                == product_id {
                assert(self.supported@[i as int] == (ProductId { vendor_id, product_id }));
                return true;
            }
            i = i + 1;
        }
        false
    }

    /// The positions, in rising order, of the interfaces that are worth opening.
    pub fn candidates(&self, interfaces: &Vec<HidDeviceInfo>) -> (positions: Vec<usize>)
        ensures
            forall|k: int|
                0 <= k < positions@.len() ==> (#[trigger] positions@[k]) < interfaces@.len()
                    && is_candidate(self.supported(), interfaces@[positions@[k] as int]),
            forall|j: int, k: int|
                0 <= j < k < positions@.len() ==> positions@[j] < positions@[k],
            forall|i: int|
                0 <= i < interfaces@.len() && is_candidate(
                    self.supported(),
                    #[trigger] interfaces@[i],
                ) ==> positions@.contains(i as usize),
    {
        let mut positions: Vec<usize> = Vec::new();
        let mut i: usize = 0;
        while i < interfaces.len()
            invariant
                i <= interfaces@.len(),
                forall|k: int|
                    0 <= k < positions@.len() ==> (#[trigger] positions@[k]) < i && is_candidate(
                        self.supported(),
                        interfaces@[positions@[k] as int],
                    ),
                forall|j: int, k: int|
                    0 <= j < k < positions@.len() ==> positions@[j] < positions@[k],
                forall|j: int|
                    0 <= j < i && is_candidate(self.supported(), #[trigger] interfaces@[j])
                        ==> positions@.contains(j as usize),
            decreases interfaces@.len() - i,
        {
            let interface = &interfaces[i];
            if is_valid_hid_device(interface.usage_page, interface.interface_number)
                && self.is_supported(interface.vendor_id, interface.product_id) {
                let ghost before = positions@;
                positions.push(i);
                assert forall|j: int|
                    0 <= j < i + 1 && is_candidate(
                        self.supported(),
                        #[trigger] interfaces@[j],
                    ) implies positions@.contains(j as usize) by {
                    if j < i {
                        let k = choose|k: int| 0 <= k < before.len() && before[k] == j as usize;
                        assert(positions@[k] == j as usize);
                    } else {
                        assert(positions@[positions@.len() - 1] == i);
                    }
                }
            }
            i = i + 1;
        }
        positions
    }

    /// Takes in the outcome of a scan: either the list of devices is replaced by those that
    /// were found, and the number says how many more devices are known than before (fewer, if
    /// it is negative); or the scan failed as a whole, and the list stays as it was.
    pub fn update_devices(&mut self, scan: Result<Vec<Option<Device>>, RemoteWalletError>) -> (r:
        Result<i128, RemoteWalletError>)
        ensures
            final(self).supported() == old(self).supported(),
            match (scan, r) {
                (Ok(probes), Ok(delta)) => final(self).devices() == refreshed(
                    old(self).devices(),
                    probes@,
                ) && delta == count_delta(old(self).devices(), probes@),
                (Err(e), Err(same)) => final(self).devices() == old(self).devices() && same == e,
                _ => false,
            },
    {
        match scan {
            Ok(probes) => {
                let num_prev_devices = self.devices.len();
                let detected_devices = found_devices(probes);
                let num_curr_devices = detected_devices.len();
                self.devices = detected_devices;
                Ok(num_curr_devices as i128 - num_prev_devices as i128)
            },
            Err(e) => Err(e),
        }
    }

    /// What each known device said of itself, in the order in which they were found.
    pub fn list_devices(&self) -> (list: Vec<RemoteWalletInfo>)
        ensures
            list@ == infos(self.devices()),
    {
        let mut list: Vec<RemoteWalletInfo> = Vec::new();
        let mut i: usize = 0;
        while i < self.devices.len()
            invariant
                i <= self.devices@.len(),
                list@ == infos(self.devices@.take(i as int)),
            decreases self.devices@.len() - i,
        {
            list.push(self.devices[i].info.clone());
            i = i + 1;
            assert(list@ =~= infos(self.devices@.take(i as int)));
        }
        assert(self.devices@.take(i as int) =~= self.devices@);
        list
    }

    /// The number of devices that are known.
    pub fn device_count(&self) -> (count: usize)
        ensures
            count == self.devices().len(),
    {
        self.devices.len()
    }

    /// The position of the first known device with the given base key.
    pub fn position_of(&self, pubkey: &Pubkey) -> (position: Option<usize>)
        ensures
            match position {
                Some(i) => i < self.devices().len() && self.devices()[i as int].info.pubkey@
                    == pubkey@ && forall|j: int|
                    0 <= j < i ==> (#[trigger] self.devices()[j]).info.pubkey@ != pubkey@,
                None => forall|j: int|
                    0 <= j < self.devices().len() ==> (#[trigger] self.devices()[j]).info.pubkey@
                        != pubkey@,
            },
    {
        let mut i: usize = 0;
        while i < self.devices.len()
            invariant
                i <= self.devices@.len(),
                forall|j: int| 0 <= j < i ==> (#[trigger] self.devices@[j]).info.pubkey@ != pubkey@,
            decreases self.devices@.len() - i,
        {
            if self.devices[i].info.pubkey.same(pubkey) {
                return Some(i);
            }
            i = i + 1;
        }
        None
    }

    /// The first known device with the given base key.
    pub fn find_by_pubkey(&self, pubkey: &Pubkey) -> (r: Result<&Device, RemoteWalletError>)
        ensures
            match r {
                Ok(device) => exists|i: int|
                    0 <= i < self.devices().len() && (#[trigger] self.devices()[i]) == *device
                        && device.info.pubkey@ == pubkey@ && forall|j: int|
                        0 <= j < i ==> (#[trigger] self.devices()[j]).info.pubkey@ != pubkey@,
                Err(e) => e is PubkeyNotFound && forall|j: int|
                    0 <= j < self.devices().len() ==> (#[trigger] self.devices()[j]).info.pubkey@
                        != pubkey@,
            },
    {
        match self.position_of(pubkey) {
            Some(i) => {
                assert(self.devices()[i as int] == self.devices@[i as int]);
                Ok(&self.devices[i])
            },
            None => Err(RemoteWalletError::PubkeyNotFound),
        }
    }

    /// The session of the first known device with the given base key.
    pub fn get_ledger(&self, pubkey: &Pubkey) -> (r: Result<SessionHandle, RemoteWalletError>)
        ensures
            match r {
                Ok(session) => exists|i: int|
                    0 <= i < self.devices().len() && (#[trigger] self.devices()[i]).info.pubkey@
                        == pubkey@ && self.devices()[i].wallet_type == RemoteWalletType::Ledger(
                        session,
                    ) && forall|j: int|
                        0 <= j < i ==> (#[trigger] self.devices()[j]).info.pubkey@ != pubkey@,
                Err(e) => e is PubkeyNotFound && forall|j: int|
                    0 <= j < self.devices().len() ==> (#[trigger] self.devices()[j]).info.pubkey@
                        != pubkey@,
            },
    {
        match self.position_of(pubkey) {
            Some(i) => match self.devices[i].wallet_type {
                RemoteWalletType::Ledger(session) => Ok(session),
            },
            None => Err(RemoteWalletError::PubkeyNotFound),
        }
    }

    /// What the first known device with the given base key said of itself.
    pub fn get_wallet_info(&self, pubkey: &Pubkey) -> (r: Option<RemoteWalletInfo>)
        ensures
            match r {
                Some(info) => exists|i: int|
                    0 <= i < self.devices().len() && (#[trigger] self.devices()[i]).info == info
                        && info.pubkey@ == pubkey@ && forall|j: int|
                        0 <= j < i ==> (#[trigger] self.devices()[j]).info.pubkey@ != pubkey@,
                None => forall|j: int|
                    0 <= j < self.devices().len() ==> (#[trigger] self.devices()[j]).info.pubkey@
                        != pubkey@,
            },
    {
        match self.position_of(pubkey) {
            Some(i) => Some(self.devices[i].info.clone()),
            None => None,
        }
    }

    /// The first known device that the description matches.
    pub fn find_match(&self, wanted: &RemoteWalletInfo) -> (r: Result<&Device, RemoteWalletError>)
        ensures
            match r {
                Ok(device) => exists|i: int|
                    0 <= i < self.devices().len() && (#[trigger] self.devices()[i]) == *device
                        && wanted.matches_spec(&device.info) && forall|j: int|
                        0 <= j < i ==> !wanted.matches_spec(&(#[trigger] self.devices()[j]).info),
                Err(e) => e is NoDeviceFound && forall|j: int|
                    0 <= j < self.devices().len() ==> !wanted.matches_spec(
                        &(#[trigger] self.devices()[j]).info,
                    ),
            },
    {
        let mut i: usize = 0;
        while i < self.devices.len()
            invariant
                i <= self.devices@.len(),
                forall|j: int|
                    0 <= j < i ==> !wanted.matches_spec(&(#[trigger] self.devices@[j]).info),
            decreases self.devices@.len() - i,
        {
            if wanted.matches(&self.devices[i].info) {
                assert(self.devices()[i as int] == self.devices@[i as int]);
                return Ok(&self.devices[i]);
            }
            i = i + 1;
        }
        Err(RemoteWalletError::NoDeviceFound)
    }
}

/// The devices among the outcomes of a scan, in order.
pub fn found_devices(probes: Vec<Option<Device>>) -> (devices: Vec<Device>)
    ensures
        devices@ == found(probes@),
{
    let mut devices: Vec<Device> = Vec::new();
    let ghost all = probes@;
    for probe in it: probes.into_iter()
        invariant
            it.seq() == all,
            devices@ == found(all.take(it.index() as int)),
    {
        proof {
            let next = all.take(it.index() + 1);
            assert(next.drop_last() =~= all.take(it.index() as int));
            assert(next.last() == probe);
        }
        if let Some(device) = probe {
            devices.push(device);
        }
    }
    assert(all.take(all.len() as int) =~= all);
    devices
}

/// What to do next while waiting for a wallet to be connected.
#[derive(Clone, Copy, Debug, PartialEq, Eq, Structural)]
pub enum PollAction {
    /// List the devices again.
    Refresh,
    /// Stop, and say whether the devices could be listed.
    Finish(bool),
}

/// The next step of the wait for a wallet: done once the devices were listed; else another
/// listing while less time has passed than is allowed, and failure from then on. Where no
/// time is allowed, no listing is asked for.
pub open spec fn next_action(
    elapsed: u128,
    max_polling_duration: u128,
    last_refresh: Option<bool>,
) -> PollAction {
    if last_refresh == Some(true) {
        PollAction::Finish(true)
    } else if elapsed < max_polling_duration {
        PollAction::Refresh
    } else {
        PollAction::Finish(false)
    }
}

/// The next step of the wait for a wallet.
///
/// `elapsed` and `max_polling_duration` are in nanoseconds; `last_refresh` says how the
/// listing before this step went, if there was one.
pub fn poll_next(elapsed: u128, max_polling_duration: u128, last_refresh: Option<bool>) -> (action:
    PollAction)
    ensures
        action == next_action(elapsed, max_polling_duration, last_refresh),
{
    match last_refresh {
        Some(true) => PollAction::Finish(true),
        _ => if elapsed < max_polling_duration {
            PollAction::Refresh
        } else {
            PollAction::Finish(false)
        },
    }
}

/// How a wait ends: its answer, and the number of listings that it made.
pub struct WaitEnd {
    pub connected: bool,
    pub listings: nat,
}

/// How a wait ends that reads the clock as `clock` says, once before each step, and whose
/// listings go as `outcomes` says, given how the listing before its first step went. `None`
/// where the readings or the outcomes run out before the wait has ended.
pub open spec fn wait_end(
    max_polling_duration: u128,
    clock: Seq<u128>,
    outcomes: Seq<bool>,
    last_refresh: Option<bool>,
) -> Option<WaitEnd>
    decreases clock.len(),
{
    if clock.len() == 0 {
        None
    } else {
        match next_action(clock[0], max_polling_duration, last_refresh) {
            PollAction::Finish(connected) => Some(WaitEnd { connected, listings: 0 }),
            PollAction::Refresh => if outcomes.len() == 0 {
                None
            } else {
                match wait_end(
                    max_polling_duration,
                    clock.drop_first(),
                    outcomes.drop_first(),
                    Some(outcomes[0]),
                ) {
                    Some(end) => Some(
                        WaitEnd { connected: end.connected, listings: end.listings + 1 },
                    ),
                    None => None,
                }
            },
        }
    }
}

/// Where no time is allowed, no step asks for a listing, and the first step of a wait ends it
/// in failure, whatever the clock reads. So such a wait answers false and lists nothing.
pub proof fn lemma_poll_no_time(elapsed: u128, last_refresh: Option<bool>)
    ensures
        next_action(elapsed, 0, None) == PollAction::Finish(false),
        next_action(elapsed, 0, last_refresh) != PollAction::Refresh,
{
}

/// A wait for which no time is allowed ends at its first reading of the clock: it answers
/// false and has made no listing, whatever the clock reads and however listings would go.
pub proof fn lemma_wait_no_time(clock: Seq<u128>, outcomes: Seq<bool>)
    requires
        clock.len() > 0,
    ensures
        wait_end(0, clock, outcomes, None) == Some(WaitEnd { connected: false, listings: 0 }),
{
}

/// Once as much time has passed as is allowed, the wait ends without another listing, and it
/// ends in failure unless the last listing went well.
pub proof fn lemma_poll_deadline(
    elapsed: u128,
    max_polling_duration: u128,
    last_refresh: Option<bool>,
)
    requires
        elapsed >= max_polling_duration,
    ensures
        next_action(elapsed, max_polling_duration, last_refresh) == PollAction::Finish(
            last_refresh == Some(true),
        ),
{
}

/// A wait answers true only after a listing that went well, and false only once as much time
/// has passed as is allowed; it makes no listing after one that went well, and none once
/// the time is up.
pub proof fn lemma_wait_end(
    max_polling_duration: u128,
    clock: Seq<u128>,
    outcomes: Seq<bool>,
    last_refresh: Option<bool>,
)
    ensures
        match wait_end(max_polling_duration, clock, outcomes, last_refresh) {
            Some(end) => {
                &&& end.listings < clock.len()
                &&& end.listings <= outcomes.len()
                &&& end.connected ==> if end.listings == 0 {
                    last_refresh == Some(true)
                } else {
                    outcomes[end.listings - 1]
                }
                &&& !end.connected ==> clock[end.listings as int] >= max_polling_duration
                &&& forall|i: int| 0 <= i < end.listings ==> clock[i] < max_polling_duration
                &&& forall|i: int| 0 <= i < end.listings - 1 ==> !outcomes[i]
            },
            None => true,
        },
    decreases clock.len(),
{
    if clock.len() > 0 && outcomes.len() > 0 && next_action(
        clock[0],
        max_polling_duration,
        last_refresh,
    ) == PollAction::Refresh {
        let rest_clock = clock.drop_first();
        let rest_outcomes = outcomes.drop_first();
        lemma_wait_end(max_polling_duration, rest_clock, rest_outcomes, Some(outcomes[0]));
        match wait_end(max_polling_duration, rest_clock, rest_outcomes, Some(outcomes[0])) {
            Some(inner) => {
                let end = wait_end(max_polling_duration, clock, outcomes, last_refresh)->0;
                assert(end.listings == inner.listings + 1);
                assert(clock[end.listings as int] == rest_clock[inner.listings as int]);
                assert forall|i: int| 0 <= i < end.listings implies clock[i]
                    < max_polling_duration by {
                    if i > 0 {
                        assert(clock[i] == rest_clock[i - 1]);
                    }
                }
                assert forall|i: int| 0 <= i < end.listings - 1 implies !outcomes[i] by {
                    if i > 0 {
                        assert(outcomes[i] == rest_outcomes[i - 1]);
                    } else {
                        // the wait went on after the first listing, so that one failed
                        assert(inner.listings > 0);
                        assert(next_action(
                            rest_clock[0],
                            max_polling_duration,
                            Some(outcomes[0]),
                        ) == PollAction::Refresh);
                    }
                }
                if end.connected {
                    if inner.listings > 0 {
                        assert(outcomes[end.listings - 1] == rest_outcomes[inner.listings - 1]);
                    }
                }
            },
            None => {},
        }
    }
}

} // verus!
