//! Hierarchical derivation paths: the child indexes, their text form, and the paths of the
//! purpose 44 scheme.

use crate::text::{
    chars_of, decimal_digits, field_views, is_digit, lemma_decimal_digits,
    lemma_parse_decimal_digits, lemma_split_append, lemma_split_single, parse_decimal,
    parse_uint, push_char, push_decimal, split, split_chars,
};
use vstd::prelude::*;
use vstd::slice::slice_subrange;

verus! {

/// The purpose index of every path that this scheme builds.
pub const PURPOSE: u32 = 44;

/// The coin type under which account keys are kept by default.
pub const SOLANA_COIN: u32 = 501;

/// The greatest value that a child index can hold: 31 bits.
pub const MAX_INDEX: u32 = 0x7fff_ffff;

/// The position of the account index in a path.
pub const ACCOUNT_INDEX: usize = 2;

/// The position of the change index in a path.
pub const CHANGE_INDEX: usize = 3;

/// A failure to read a derivation path.
#[derive(Debug, Clone)]
pub enum DerivationPathError {
    /// The text is no derivation path; it is carried along.
    InvalidDerivationPath(String),
}

impl DerivationPathError {
    /// The message of the failure, with the text that was turned down.
    pub open spec fn message_text(self) -> Seq<char> {
        match self {
            DerivationPathError::InvalidDerivationPath(text) => "invalid derivation path: "@
                + text@,
        }
    }

    /// The message of the failure, with the text that was turned down.
    pub fn message(&self) -> (message: String)
        ensures
            message@ == self.message_text(),
    {
        match self {
            DerivationPathError::InvalidDerivationPath(text) => {
                let mut message = String::from_str("invalid derivation path: ");
                message.append(text.as_str());
                message
            },
        }
    }
}

/// One step of a derivation path: a value of 31 bits, hardened or not.
#[derive(Clone, Copy, Debug, PartialEq, Eq, Structural, Hash)]
pub enum ChildIndex {
    Normal(u32),
    Hardened(u32),
}

impl ChildIndex {
    /// The index without its kind.
    pub open spec fn value(self) -> u32 {
        match self {
            ChildIndex::Normal(n) => n,
            ChildIndex::Hardened(n) => n,
        }
    }

    /// Whether the index is hardened.
    pub open spec fn hardened(self) -> bool {
        self is Hardened
    }

    /// Whether the value fits in 31 bits.
    pub open spec fn wf(self) -> bool {
        self.value() <= MAX_INDEX
    }

    /// The hardened index of the same value.
    pub open spec fn harden(self) -> ChildIndex {
        ChildIndex::Hardened(self.value())
    }

    /// The index without its kind.
    pub fn to_u32(self) -> (n: u32)
        ensures
            n == self.value(),
    {
        match self {
            ChildIndex::Normal(n) => n,
            ChildIndex::Hardened(n) => n,
        }
    }

    /// Whether the index is hardened.
    pub fn is_hardened(self) -> (b: bool)
        ensures
            b == self.hardened(),
    {
        match self {
            ChildIndex::Normal(_) => false,
            ChildIndex::Hardened(_) => true,
        }
    }

    /// Whether the index is not hardened.
    pub fn is_normal(self) -> (b: bool)
        ensures
            b == !self.hardened(),
    {
        !self.is_hardened()
    }
}

/// Whether every index of a path fits in 31 bits.
pub open spec fn valid_path(path: Seq<ChildIndex>) -> bool {
    forall|i: int| 0 <= i < path.len() ==> (#[trigger] path[i]).wf()
}

/// Whether every index of a path is hardened.
pub open spec fn all_hardened(path: Seq<ChildIndex>) -> bool {
    forall|i: int| 0 <= i < path.len() ==> (#[trigger] path[i]).hardened()
}

/// The path with each index hardened.
pub open spec fn harden_all(path: Seq<ChildIndex>) -> Seq<ChildIndex> {
    path.map_values(|index: ChildIndex| index.harden())
}

/// The text of one index: its decimal digits, and an apostrophe behind them if it is hardened.
pub open spec fn index_text(index: ChildIndex) -> Seq<char> {
    match index {
        ChildIndex::Normal(n) => decimal_digits(n as nat),
        ChildIndex::Hardened(n) => decimal_digits(n as nat).push('\''),
    }
}

/// The text of a path: the root marker `m`, then a slash and the text of each index.
pub open spec fn path_text(path: Seq<ChildIndex>) -> Seq<char>
    decreases path.len(),
{
    if path.len() == 0 {
        seq!['m']
    } else {
        path_text(path.drop_last()).push('/') + index_text(path.last())
    }
}

/// The index that a field of a path denotes: a decimal number of at most 31 bits, hardened if
/// an apostrophe follows it.
pub open spec fn parse_index(field: Seq<char>) -> Option<ChildIndex> {
    if field.len() > 0 && field.last() == '\'' {
        match parse_uint(field.drop_last(), MAX_INDEX as nat) {
            Some(n) => Some(ChildIndex::Hardened(n as u32)),
            None => None,
        }
    } else {
        match parse_uint(field, MAX_INDEX as nat) {
            Some(n) => Some(ChildIndex::Normal(n as u32)),
            None => None,
        }
    }
}

/// The path that an absolute path text denotes: the fields between slashes are the root
/// marker `m` and then the indexes. `None` where the text is not of that form.
pub open spec fn parse_path(text: Seq<char>) -> Option<Seq<ChildIndex>> {
    let fields = split(text, '/');
    if fields[0] == seq!['m'] && forall|i: int|
        1 <= i < fields.len() ==> (#[trigger] parse_index(fields[i])) is Some {
        Some(Seq::new((fields.len() - 1) as nat, |i: int| parse_index(fields[i + 1])->0))
    } else {
        None
    }
}

/// The path that a text denotes with or without the root marker: where the first field is
/// not the marker, the text is read as if `m/` stood before it.
pub open spec fn parse_rooted_or_bare(text: Seq<char>) -> Option<Seq<ChildIndex>> {
    if split(text, '/')[0] == seq!['m'] {
        parse_path(text)
    } else {
        parse_path(seq!['m', '/'] + text)
    }
}

/// The path of the purpose 44 scheme for a coin: purpose and coin, then the account if there
/// is one, then the change if there is an account and a change. Every index is hardened.
pub open spec fn bip44_path(coin: u32, account: Option<u32>, change: Option<u32>) -> Seq<
    ChildIndex,
> {
    let base = seq![ChildIndex::Hardened(PURPOSE), ChildIndex::Hardened(coin)];
    match account {
        Some(a) => match change {
            Some(c) => base.push(ChildIndex::Hardened(a)).push(ChildIndex::Hardened(c)),
            None => base.push(ChildIndex::Hardened(a)),
        },
        None => base,
    }
}

/// The path that a key path text denotes under a coin: one or two indexes between slashes,
/// the account and the change, taken as hardened whatever their kind in the text.
pub open spec fn parse_key_path(text: Seq<char>, coin: u32) -> Option<Seq<ChildIndex>> {
    match parse_path(seq!['m', '/'] + text) {
        Some(path) => if path.len() == 1 {
            Some(bip44_path(coin, Some(path[0].value()), None))
        } else if path.len() == 2 {
            Some(bip44_path(coin, Some(path[0].value()), Some(path[1].value())))
        } else {
            None
        },
        None => None,
    }
}

/// The characters that open a query.
pub open spec fn query_prefix() -> Seq<char> {
    seq!['?', 'k', 'e', 'y', '=']
}

/// The query of a path: nothing without an account, else `?key=` and the account, and a slash
/// and the change if there is one.
pub open spec fn query_text(path: Seq<ChildIndex>) -> Seq<char> {
    if path.len() > CHANGE_INDEX {
        query_prefix() + index_text(path[ACCOUNT_INDEX as int]).push('/') + index_text(
            path[CHANGE_INDEX as int],
        )
    } else if path.len() > ACCOUNT_INDEX {
        query_prefix() + index_text(path[ACCOUNT_INDEX as int])
    } else {
        Seq::<char>::empty()
    }
}

/// Reads one field of a path.
pub fn parse_child_index(field: &[char]) -> (r: Option<ChildIndex>)
    ensures
        r == parse_index(field@),
        r matches Some(index) ==> index.wf(),
{
    let n = field.len();
    if n > 0 && field[n - 1] == '\'' {
        let digits = slice_subrange(field, 0, n - 1);
        assert(digits@ =~= field@.drop_last());
        match parse_decimal(digits, MAX_INDEX) {
            Some(value) => Some(ChildIndex::Hardened(value)),
            None => None,
        }
    } else {
        match parse_decimal(field, MAX_INDEX) {
            Some(value) => Some(ChildIndex::Normal(value)),
            None => None,
        }
    }
}

/// Reads an absolute path from its characters.
pub fn parse_path_chars(text: &[char]) -> (r: Option<Vec<ChildIndex>>)
    ensures
        match r {
            Some(path) => parse_path(text@) == Some(path@) && valid_path(path@),
            None => parse_path(text@) is None,
        },
{
    let fields = split_chars(text, '/');
    let ghost views = field_views(fields@);
    assert(views[0] == fields@[0]@);
    if !(fields[0].len() == 1 && fields[0][0] == 'm') {
        assert(views[0] != seq!['m']) by {
            if views[0] == seq!['m'] {
                assert(seq!['m'].len() == 1);
                assert(seq!['m'][0] == 'm');
            }
        }
        return None;
    }
    assert(views[0] =~= seq!['m']);
    let mut path: Vec<ChildIndex> = Vec::new();
    let mut i: usize = 1;
    while i < fields.len()
        invariant
            1 <= i <= fields@.len(),
            views == field_views(fields@),
            views == split(text@, '/'),
            views[0] == seq!['m'],
            path@.len() == i - 1,
            valid_path(path@),
            forall|j: int| 1 <= j < i ==> (#[trigger] parse_index(views[j])) == Some(path@[j - 1]),
        decreases fields@.len() - i,
    {
        assert(views[i as int] == fields@[i as int]@);
        match parse_child_index(fields[i].as_slice()) {
            Some(index) => {
                path.push(index);
            },
            None => {
                return None;
            },
        }
        i = i + 1;
    }
    assert(path@ =~= parse_path(text@)->0);
    Some(path)
}

/// A derivation path: child indexes from the master key down. The empty path is the master
/// key itself.
#[derive(Debug, PartialEq, Eq, Hash)]
pub struct DerivationPath {
    indexes: Vec<ChildIndex>,
}

impl View for DerivationPath {
    type V = Seq<ChildIndex>;

    closed spec fn view(&self) -> Seq<ChildIndex> {
        self.indexes@
    }
}

impl Clone for DerivationPath {
    fn clone(&self) -> (copy: Self)
        ensures
            copy@ == self@,
    {
        proof {
            use_type_invariant(self);
        }
        let mut indexes: Vec<ChildIndex> = Vec::new();
        let mut i: usize = 0;
        while i < self.indexes.len()
            invariant
                i <= self.indexes@.len(),
                indexes@ == self.indexes@.take(i as int),
                valid_path(self.indexes@),
            decreases self.indexes@.len() - i,
        {
            indexes.push(self.indexes[i]);
            i = i + 1;
            assert(indexes@ =~= self.indexes@.take(i as int));
        }
        assert(self.indexes@.take(i as int) =~= self.indexes@);
        DerivationPath { indexes }
    }
}

impl Default for DerivationPath {
    /// The path of the default coin, without account.
    fn default() -> (path: Self)
        ensures
            path@ == bip44_path(SOLANA_COIN, None, None),
    {
        DerivationPath::new_bip44(None, None)
    }
}

impl DerivationPath {
    #[verifier::type_invariant]
    spec fn well_formed(&self) -> bool {
        valid_path(self.indexes@)
    }

    /// The path of the given indexes.
    pub fn new(indexes: Vec<ChildIndex>) -> (path: Self)
        requires
            valid_path(indexes@),
        ensures
            path@ == indexes@,
    {
        DerivationPath { indexes }
    }

    /// Reads a path with or without the root marker, `m/44'/501'/0'` or `44'/501'/0'`, keeping
    /// each index hardened or not as the text has it.
    pub fn parse(path: &str) -> (r: Result<Self, DerivationPathError>)
        ensures
            match r {
                Ok(read) => parse_rooted_or_bare(path@) == Some(read@) && valid_path(read@),
                Err(DerivationPathError::InvalidDerivationPath(text)) => parse_rooted_or_bare(
                    path@,
                ) is None && text@ == path@,
            },
    {
        let mut chars = chars_of(path);
        let fields = split_chars(chars.as_slice(), '/');
        assert(field_views(fields@)[0] == fields@[0]@);
        if !(fields[0].len() == 1 && fields[0][0] == 'm') {
            assert(fields@[0]@ != seq!['m']) by {
                if fields@[0]@ == seq!['m'] {
                    assert(seq!['m'].len() == 1);
                    assert(seq!['m'][0] == 'm');
                }
            }
            let mut rooted: Vec<char> = Vec::new();
            rooted.push('m');
            rooted.push('/');
            rooted.append(&mut chars);
            assert(rooted@ =~= seq!['m', '/'] + path@);
            chars = rooted;
        } else {
            assert(fields@[0]@ =~= seq!['m']);
        }
        match parse_path_chars(chars.as_slice()) {
            Some(indexes) => Ok(DerivationPath { indexes }),
            None => Err(DerivationPathError::InvalidDerivationPath(path.to_owned())),
        }
    }

    /// Reads an absolute path, `m/44'/501'/0'`, keeping each index hardened or not as the
    /// text has it. The root marker has to be there.
    pub fn from_absolute_path_insecure_str(path: &str) -> (r: Result<Self, DerivationPathError>)
        ensures
            match r {
                Ok(read) => parse_path(path@) == Some(read@) && valid_path(read@),
                Err(DerivationPathError::InvalidDerivationPath(text)) => parse_path(path@) is None
                    && text@ == path@,
            },
    {
        let chars = chars_of(path);
        match parse_path_chars(chars.as_slice()) {
            Some(indexes) => Ok(DerivationPath { indexes }),
            None => Err(DerivationPathError::InvalidDerivationPath(path.to_owned())),
        }
    }

    /// Reads an absolute path and hardens each of its indexes.
    pub fn from_absolute_path_str(path: &str) -> (r: Result<Self, DerivationPathError>)
        ensures
            match r {
                Ok(read) => parse_path(path@) is Some && read@ == harden_all(parse_path(path@)->0)
                    && valid_path(read@),
                Err(DerivationPathError::InvalidDerivationPath(text)) => parse_path(path@) is None
                    && text@ == path@,
            },
    {
        let chars = chars_of(path);
        match parse_path_chars(chars.as_slice()) {
            Some(read) => {
                let mut indexes: Vec<ChildIndex> = Vec::new();
                let mut i: usize = 0;
                while i < read.len()
                    invariant
                        i <= read@.len(),
                        valid_path(read@),
                        valid_path(indexes@),
                        indexes@ == harden_all(read@.take(i as int)),
                    decreases read@.len() - i,
                {
                    indexes.push(ChildIndex::Hardened(read[i].to_u32()));
                    i = i + 1;
                    assert(indexes@ =~= harden_all(read@.take(i as int)));
                }
                assert(read@.take(i as int) =~= read@);
                Ok(DerivationPath { indexes })
            },
            None => Err(DerivationPathError::InvalidDerivationPath(path.to_owned())),
        }
    }

    /// Reads a key path, `<account>` or `<account>/<change>`, under the default coin.
    pub fn from_key_str(path: &str) -> (r: Result<Self, DerivationPathError>)
        ensures
            match r {
                Ok(read) => parse_key_path(path@, SOLANA_COIN) == Some(read@) && valid_path(
                    read@,
                ),
                Err(DerivationPathError::InvalidDerivationPath(text)) => parse_key_path(
                    path@,
                    SOLANA_COIN,
                ) is None && text@ == path@,
            },
    {
        DerivationPath::from_key_str_with_coin(path, SOLANA_COIN)
    }

    /// Reads a key path, `<account>` or `<account>/<change>`, under the given coin.
    pub fn from_key_str_with_coin(path: &str, coin: u32) -> (r: Result<
        Self,
        DerivationPathError,
    >)
        requires
            coin <= MAX_INDEX,
        ensures
            match r {
                Ok(read) => parse_key_path(path@, coin) == Some(read@) && valid_path(read@),
                Err(DerivationPathError::InvalidDerivationPath(text)) => parse_key_path(
                    path@,
                    coin,
                ) is None && text@ == path@,
            },
    {
        let mut chars: Vec<char> = Vec::new();
        chars.push('m');
        chars.push('/');
        let mut rest = chars_of(path);
        chars.append(&mut rest);
        assert(chars@ =~= seq!['m', '/'] + path@);
        match parse_path_chars(chars.as_slice()) {
            Some(read) => {
                if read.len() == 1 {
                    Ok(DerivationPath::new_bip44_with_coin(coin, Some(read[0].to_u32()), None))
                } else if read.len() == 2 {
                    Ok(
                        DerivationPath::new_bip44_with_coin(
                            coin,
                            Some(read[0].to_u32()),
                            Some(read[1].to_u32()),
                        ),
                    )
                } else {
                    Err(DerivationPathError::InvalidDerivationPath(path.to_owned()))
                }
            },
            None => Err(DerivationPathError::InvalidDerivationPath(path.to_owned())),
        }
    }

    /// The path of the default coin for an account and a change. Without an account the
    /// change is left out too.
    pub fn new_bip44(account: Option<u32>, change: Option<u32>) -> (path: Self)
        requires
            account matches Some(a) ==> a <= MAX_INDEX,
            change matches Some(c) ==> c <= MAX_INDEX,
        ensures
            path@ == bip44_path(SOLANA_COIN, account, change),
            valid_path(path@),
    {
        DerivationPath::new_bip44_with_coin(SOLANA_COIN, account, change)
    }

    /// The path of the given coin for an account and a change. Without an account the change
    /// is left out too.
    pub fn new_bip44_with_coin(coin: u32, account: Option<u32>, change: Option<u32>) -> (path:
        Self)
        requires
            coin <= MAX_INDEX,
            account matches Some(a) ==> a <= MAX_INDEX,
            change matches Some(c) ==> c <= MAX_INDEX,
        ensures
            path@ == bip44_path(coin, account, change),
            valid_path(path@),
    {
        let mut indexes = base_indexes(coin);
        if let Some(account) = account {
            indexes.push(ChildIndex::Hardened(account));
            if let Some(change) = change {
                indexes.push(ChildIndex::Hardened(change));
            }
        }
        assert(indexes@ =~= bip44_path(coin, account, change));
        DerivationPath { indexes }
    }

    /// The account index, if the path has one.
    pub fn account(&self) -> (index: Option<&ChildIndex>)
        ensures
            self@.len() > ACCOUNT_INDEX ==> index == Some(&self@[ACCOUNT_INDEX as int]),
            self@.len() <= ACCOUNT_INDEX ==> index is None,
    {
        if self.indexes.len() > ACCOUNT_INDEX {
            Some(&self.indexes[ACCOUNT_INDEX])
        } else {
            None
        }
    }

    /// The change index, if the path has one.
    pub fn change(&self) -> (index: Option<&ChildIndex>)
        ensures
            self@.len() > CHANGE_INDEX ==> index == Some(&self@[CHANGE_INDEX as int]),
            self@.len() <= CHANGE_INDEX ==> index is None,
    {
        if self.indexes.len() > CHANGE_INDEX {
            Some(&self.indexes[CHANGE_INDEX])
        } else {
            None
        }
    }

    /// The indexes of the path.
    pub fn path(&self) -> (indexes: &[ChildIndex])
        ensures
            indexes@ == self@,
            valid_path(indexes@),
    {
        proof {
            use_type_invariant(self);
        }
        self.indexes.as_slice()
    }

    /// The query that selects the account and the change of the path.
    pub fn get_query(&self) -> (query: String)
        ensures
            query@ == query_text(self@),
    {
        let mut query = String::new();
        if self.indexes.len() > ACCOUNT_INDEX {
            push_char(&mut query, '?');
            push_char(&mut query, 'k');
            push_char(&mut query, 'e');
            push_char(&mut query, 'y');
            push_char(&mut query, '=');
            push_index(&mut query, self.indexes[ACCOUNT_INDEX]);
            if self.indexes.len() > CHANGE_INDEX {
                push_char(&mut query, '/');
                push_index(&mut query, self.indexes[CHANGE_INDEX]);
            }
        }
        assert(query@ =~= query_text(self@));
        query
    }

    /// The text of the path, `m/44'/501'/0'`.
    pub fn format(&self) -> (text: String)
        ensures
            text@ == path_text(self@),
    {
        let mut text = String::new();
        push_char(&mut text, 'm');
        let mut i: usize = 0;
        while i < self.indexes.len()
            invariant
                i <= self.indexes@.len(),
                text@ == path_text(self.indexes@.take(i as int)),
            decreases self.indexes@.len() - i,
        {
            push_char(&mut text, '/');
            push_index(&mut text, self.indexes[i]);
            proof {
                let longer = self.indexes@.take(i + 1);
                assert(longer.drop_last() =~= self.indexes@.take(i as int));
                assert(longer.last() == self.indexes@[i as int]);
            }
            i = i + 1;
        }
        assert(self.indexes@.take(i as int) =~= self.indexes@);
        text
    }
}

/// The two indexes that every path of the purpose 44 scheme starts with.
pub fn base_indexes(coin: u32) -> (indexes: Vec<ChildIndex>)
    ensures
        indexes@ == seq![ChildIndex::Hardened(PURPOSE), ChildIndex::Hardened(coin)],
{
    let mut indexes: Vec<ChildIndex> = Vec::new();
    indexes.push(ChildIndex::Hardened(PURPOSE));
    indexes.push(ChildIndex::Hardened(coin));
    assert(indexes@ =~= seq![ChildIndex::Hardened(PURPOSE), ChildIndex::Hardened(coin)]);
    indexes
}

/// Adds the text of an index to the end of `out`.
pub fn push_index(out: &mut String, index: ChildIndex)
    ensures
        final(out)@ == old(out)@ + index_text(index),
{
    push_decimal(out, index.to_u32());
    if index.is_hardened() {
        push_char(out, '\'');
    }
    assert(out@ =~= old(out)@ + index_text(index));
}

/// The texts of the indexes of a path, in order.
pub open spec fn index_texts(path: Seq<ChildIndex>) -> Seq<Seq<char>> {
    path.map_values(|index: ChildIndex| index_text(index))
}

/// The text of an index holds no slash, and reading it gives the index back.
pub proof fn lemma_index_text(index: ChildIndex)
    requires
        index.wf(),
    ensures
        !index_text(index).contains('/'),
        parse_index(index_text(index)) == Some(index),
{
    let n = index.value() as nat;
    let digits = decimal_digits(n);
    let text = index_text(index);
    lemma_decimal_digits(n);
    lemma_parse_decimal_digits(n, MAX_INDEX as nat);
    assert forall|i: int| 0 <= i < text.len() implies text[i] != '/' by {
        if i < digits.len() {
            assert(is_digit(digits[i]));
            assert(text[i] == digits[i]);
        }
    }
    match index {
        ChildIndex::Hardened(_) => {
            assert(text.drop_last() =~= digits);
        },
        ChildIndex::Normal(_) => {
            assert(is_digit(digits[digits.len() - 1]));
        },
    }
}

/// The fields of the text of a path are the root marker and the texts of its indexes.
pub proof fn lemma_split_path_text(path: Seq<ChildIndex>)
    requires
        valid_path(path),
    ensures
        split(path_text(path), '/') == seq![seq!['m']] + index_texts(path),
    decreases path.len(),
{
    if path.len() == 0 {
        assert(!seq!['m'].contains('/'));
        lemma_split_single(seq!['m'], '/');
        assert(seq![seq!['m']] + index_texts(path) =~= seq![seq!['m']]);
    } else {
        let shorter = path.drop_last();
        lemma_split_path_text(shorter);
        lemma_index_text(path.last());
        lemma_split_append(path_text(shorter), index_text(path.last()), '/');
        assert((seq![seq!['m']] + index_texts(shorter)).push(index_text(path.last())) =~= seq![
            seq!['m'],
        ] + index_texts(path));
    }
}

/// Reading the text of a path gives the path back.
pub proof fn lemma_parse_format(path: Seq<ChildIndex>)
    requires
        valid_path(path),
    ensures
        parse_path(path_text(path)) == Some(path),
{
    lemma_split_path_text(path);
    let fields = split(path_text(path), '/');
    assert(fields[0] == seq!['m']);
    assert forall|i: int| 1 <= i < fields.len() implies (#[trigger] parse_index(fields[i]))
        == Some(path[i - 1]) by {
        assert(fields[i] == index_text(path[i - 1]));
        lemma_index_text(path[i - 1]);
    }
    assert(parse_path(path_text(path))->0 =~= path);
}

/// Reading the text of a path gives the path back also where the root marker may be left
/// out.
pub proof fn lemma_parse_format_rooted_or_bare(path: Seq<ChildIndex>)
    requires
        valid_path(path),
    ensures
        parse_rooted_or_bare(path_text(path)) == Some(path),
{
    lemma_split_path_text(path);
    lemma_parse_format(path);
}

/// A path of the purpose 44 scheme with an account has three indexes, or four with a change;
/// the first two are the purpose and the coin; every index is hardened.
pub proof fn lemma_bip44_shape(coin: u32, account: u32, change: Option<u32>)
    ensures
        bip44_path(coin, Some(account), change).len() == if change is Some {
            4int
        } else {
            3int
        },
        bip44_path(coin, Some(account), change)[0] == ChildIndex::Hardened(PURPOSE),
        bip44_path(coin, Some(account), change)[1] == ChildIndex::Hardened(coin),
        bip44_path(coin, Some(account), change)[2] == ChildIndex::Hardened(account),
        change matches Some(c) ==> bip44_path(coin, Some(account), change)[3]
            == ChildIndex::Hardened(c),
        all_hardened(bip44_path(coin, Some(account), change)),
        bip44_path(coin, None, change) == bip44_path(coin, None, None),
        bip44_path(coin, None, change).len() == 2,
{
}

/// Every path of the purpose 44 scheme, written as text and read again, is the same path,
/// whether the reader keeps the kind of each index or hardens all of them.
pub proof fn lemma_bip44_round_trip(coin: u32, account: Option<u32>, change: Option<u32>)
    requires
        coin <= MAX_INDEX,
        account matches Some(a) ==> a <= MAX_INDEX,
        change matches Some(c) ==> c <= MAX_INDEX,
    ensures
        parse_path(path_text(bip44_path(coin, account, change))) == Some(
            bip44_path(coin, account, change),
        ),
        harden_all(bip44_path(coin, account, change)) == bip44_path(coin, account, change),
{
    let path = bip44_path(coin, account, change);
    assert(valid_path(path));
    lemma_parse_format(path);
    assert(harden_all(path) =~= path);
}

} // verus!
