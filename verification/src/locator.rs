//! The locator of a remote wallet: which wallet is meant, and which of its keys.

use crate::derivation_path::{lemma_index_text, ChildIndex};
use crate::pubkey::{pubkey_from_text, pubkey_text, zero_key};
use crate::remote_wallet::{
    agrees, assemble, field_number, has_scheme, locator_fields, parse_locator, scheme,
    DerivationPath, PathOutcome, RemoteWalletError, RemoteWalletInfo,
};
use crate::text::{
    decimal_digits, is_digit, join, lemma_decimal_digits, lemma_parse_decimal_digits,
    lemma_split_fields, lemma_split_join, lemma_split_len, lemma_without_absent, push_char,
    push_decimal, without,
};
use vstd::prelude::*;

verus! {

/// A wallet and one of its keys, as the text of a locator names them. A locator that leaves
/// the model and the key open stands for the first wallet of its manufacturer that is found.
#[derive(Debug)]
pub struct Locator {
    /// What is asked of the wallet; the serial number is left empty.
    pub info: RemoteWalletInfo,
    /// The account and the change of the key.
    pub derivation_path: DerivationPath,
}

/// The field that is written for the purpose.
pub open spec fn purpose_field() -> Seq<char> {
    seq!['4', '4', '\'']
}

/// The field that is written for the coin.
pub open spec fn coin_field() -> Seq<char> {
    seq!['5', '0', '1', '\'']
}

/// The field that is written for an account or a change.
pub open spec fn number_field(n: u16) -> Seq<char> {
    decimal_digits(n as nat).push('\'')
}

/// The fields that are written for a wallet and a key: manufacturer, model, key, purpose,
/// coin and account, and the change if there is one.
pub open spec fn written_fields(
    manufacturer: Seq<char>,
    model: Seq<char>,
    pubkey: Seq<u8>,
    path: DerivationPath,
) -> Seq<Seq<char>> {
    let fields = seq![
        manufacturer,
        model,
        pubkey_text(pubkey),
        purpose_field(),
        coin_field(),
        number_field(path.account),
    ];
    match path.change {
        Some(change) => fields.push(number_field(change)),
        None => fields,
    }
}

/// The text that locates a wallet and a key: the scheme, then every field in full.
pub open spec fn locator_text(
    manufacturer: Seq<char>,
    model: Seq<char>,
    pubkey: Seq<u8>,
    path: DerivationPath,
) -> Seq<char> {
    scheme() + join(written_fields(manufacturer, model, pubkey, path), '/')
}

/// The field of a number holds no slash and is read as that number.
pub proof fn lemma_number_field(n: u16)
    ensures
        !number_field(n).contains('/'),
        field_number(number_field(n)) == Some(n),
        number_field(n).len() > 0,
        number_field(n).last() == '\'',
{
    let digits = decimal_digits(n as nat);
    lemma_index_text(ChildIndex::Hardened(n as u32));
    lemma_decimal_digits(n as nat);
    lemma_parse_decimal_digits(n as nat, u16::MAX as nat);
    assert(!digits.contains('\'')) by {
        if digits.contains('\'') {
            let i = choose|i: int| 0 <= i < digits.len() && digits[i] == '\'';
            assert(is_digit(digits[i]));
        }
    }
    lemma_without_absent(digits, '\'');
    assert(number_field(n).drop_last() =~= digits);
}

/// A locator that is written in full is read as the wallet and the key that were written,
/// if the manufacturer and the model hold no slash, and if the text of the key holds no slash
/// and is read as the key.
pub proof fn lemma_locator_text_read(
    manufacturer: Seq<char>,
    model: Seq<char>,
    pubkey: Seq<u8>,
    path: DerivationPath,
)
    requires
        !manufacturer.contains('/'),
        !model.contains('/'),
    ensures
        !pubkey_text(pubkey).contains('/') && pubkey_from_text(pubkey_text(pubkey)) == Some(
            pubkey,
        ) ==> parse_locator(locator_text(manufacturer, model, pubkey, path)) == (
        PathOutcome::Parsed { manufacturer, model, pubkey, path }),
{
    if !pubkey_text(pubkey).contains('/') && pubkey_from_text(pubkey_text(pubkey)) == Some(
        pubkey,
    ) {
        let fields = written_fields(manufacturer, model, pubkey, path);
        let rest = join(fields, '/');
        let text = locator_text(manufacturer, model, pubkey, path);
        lemma_number_field(path.account);
        if let Some(change) = path.change {
            lemma_number_field(change);
        }
        assert(!purpose_field().contains('/'));
        assert(!coin_field().contains('/'));
        assert forall|i: int| 0 <= i < fields.len() implies !(#[trigger] fields[i]).contains(
            '/',
        ) by {}
        lemma_split_join(fields, '/');
        // the text ends with the apostrophe of its last field
        let last = fields.last();
        assert(last.len() > 0 && last.last() == '\'');
        assert(rest == join(fields.drop_last(), '/').push('/') + last);
        assert(rest.last() == '\'');
        assert(text.take(6) =~= scheme());
        assert(text.skip(6) =~= rest);
        assert(has_scheme(text));
        assert(locator_fields(text) == fields);
        // the purpose and the coin, apostrophes aside
        assert(without(purpose_field(), '\'') == seq!['4', '4']) by {
            reveal_with_fuel(without, 4);
            assert(purpose_field().drop_last() =~= seq!['4', '4']);
            assert(seq!['4', '4'].drop_last() =~= seq!['4']);
            assert(seq!['4'].drop_last() =~= Seq::<char>::empty());
            assert(Seq::<char>::empty().push('4').push('4') =~= seq!['4', '4']);
        }
        assert(without(coin_field(), '\'') == seq!['5', '0', '1']) by {
            reveal_with_fuel(without, 5);
            assert(coin_field().drop_last() =~= seq!['5', '0', '1']);
            assert(seq!['5', '0', '1'].drop_last() =~= seq!['5', '0']);
            assert(seq!['5', '0'].drop_last() =~= seq!['5']);
            assert(seq!['5'].drop_last() =~= Seq::<char>::empty());
            assert(Seq::<char>::empty().push('5').push('0').push('1') =~= seq!['5', '0', '1']);
        }
        assert(fields[3] == purpose_field());
        assert(fields[4] == coin_field());
        assert(fields[5] == number_field(path.account));
        assert(assemble(fields, Some(pubkey)) == (PathOutcome::Parsed {
            manufacturer,
            model,
            pubkey,
            path,
        }));
    }
}

/// Reading is idempotent: the wallet and the key that a locator was read as, written in full
/// and read again, are the same wallet and the same key, if the text of the key holds no
/// slash and is read as the key.
pub proof fn lemma_locator_read_again(text: Seq<char>)
    ensures
        parse_locator(text) matches PathOutcome::Parsed { manufacturer, model, pubkey, path }
            ==> (!pubkey_text(pubkey).contains('/') && pubkey_from_text(pubkey_text(pubkey))
            == Some(pubkey) ==> parse_locator(locator_text(manufacturer, model, pubkey, path))
            == parse_locator(text)),
{
    if let PathOutcome::Parsed { manufacturer, model, pubkey, path } = parse_locator(text) {
        let rest = text.skip(6);
        if rest.len() > 0 && rest.last() == '/' {
            lemma_split_fields(rest.drop_last(), '/');
            lemma_split_len(rest.drop_last(), '/');
        } else {
            lemma_split_fields(rest, '/');
            lemma_split_len(rest, '/');
        }
        let fields = locator_fields(text);
        assert(manufacturer == fields[0]);
        assert(!manufacturer.contains('/'));
        if fields.len() > 1 {
            assert(model == fields[1]);
        } else {
            assert(model.len() == 0);
        }
        assert(!model.contains('/'));
        lemma_locator_text_read(manufacturer, model, pubkey, path);
    }
}

impl Locator {
    /// Whether the locator leaves the model and the key open.
    pub open spec fn first_found(&self) -> bool {
        self.info.model@.len() == 0 && self.info.pubkey@ == zero_key()
    }

    /// Reads a locator from its text,
    /// `usb://<manufacturer>/<model>/<key>/<purpose>/<coin>/<account>/<change>`.
    pub fn new_from_path(path: &str) -> (r: Result<Locator, RemoteWalletError>)
        ensures
            agrees(
                parse_locator(path@),
                match r {
                    Ok(locator) => Ok((locator.info, locator.derivation_path)),
                    Err(e) => Err(e),
                },
            ),
    {
        match RemoteWalletInfo::parse_path(path.to_owned()) {
            Ok((info, derivation_path)) => Ok(Locator { info, derivation_path }),
            Err(e) => Err(e),
        }
    }

    /// The text of the locator, with every field written in full:
    /// `usb://<manufacturer>/<model>/<key>/44'/501'/<account>'`, and `/<change>'` behind it
    /// if there is a change.
    pub fn to_text(&self) -> (text: String)
        ensures
            text@ == locator_text(
                self.info.manufacturer@,
                self.info.model@,
                self.info.pubkey@,
                self.derivation_path,
            ),
    {
        let mut text = self.info.get_pretty_path();
        let ghost fields = written_fields(
            self.info.manufacturer@,
            self.info.model@,
            self.info.pubkey@,
            self.derivation_path,
        );
        let ghost first: Seq<Seq<char>> = seq![
            self.info.manufacturer@,
            self.info.model@,
            pubkey_text(self.info.pubkey@),
        ];
        proof {
            reveal_with_fuel(join, 8);
            assert(first.drop_last() =~= seq![self.info.manufacturer@, self.info.model@]);
            assert(first.drop_last().drop_last() =~= seq![self.info.manufacturer@]);
            assert(text@ =~= scheme() + join(first, '/'));
        }
        text.append("/44'/501'/");
        proof {
            reveal_strlit("/44'/501'/");
            assert("/44'/501'/"@ =~= seq!['/'] + purpose_field() + seq!['/'] + coin_field() + seq![
                '/',
            ]);
        }
        push_decimal(&mut text, self.derivation_path.account as u32);
        push_char(&mut text, '\'');
        let ghost six = first.push(purpose_field()).push(coin_field()).push(
            number_field(self.derivation_path.account),
        );
        proof {
            assert(six.drop_last() =~= first.push(purpose_field()).push(coin_field()));
            assert(six.drop_last().drop_last() =~= first.push(purpose_field()));
            assert(six.drop_last().drop_last().drop_last() =~= first);
            assert(text@ =~= scheme() + join(six, '/'));
        }
        if let Some(change) = self.derivation_path.change {
            push_char(&mut text, '/');
            push_decimal(&mut text, change as u32);
            push_char(&mut text, '\'');
            proof {
                let seven = six.push(number_field(change));
                assert(seven.drop_last() =~= six);
                assert(fields =~= seven);
                assert(text@ =~= scheme() + join(seven, '/'));
            }
        } else {
            assert(fields =~= six);
        }
        text
    }

    /// Whether the locator leaves the model and the key open, so that the first wallet of
    /// its manufacturer will do.
    pub fn is_first_found(&self) -> (r: bool)
        ensures
            r == self.first_found(),
    {
        self.info.model.as_str().is_empty() && self.info.pubkey.is_default()
    }

    /// Whether a wallet that was found is one that the locator asks for.
    pub fn matches(&self, found: &RemoteWalletInfo) -> (r: bool)
        ensures
            r == self.info.matches_spec(found),
    {
        self.info.matches(found)
    }
}

} // verus!
