//! Decimal numbers and separated fields in text, as sequences of characters.

use vstd::prelude::*;

verus! {

/// Whether `c` is one of the ten decimal digits.
pub open spec fn is_digit(c: char) -> bool {
    0x30 <= c as u32 && c as u32 <= 0x39
}

/// The value of a decimal digit.
pub open spec fn digit_value(c: char) -> nat {
    (c as u32 - 0x30) as nat
}

/// The digit that stands for a value below ten.
pub open spec fn digit_char(d: nat) -> char {
    (d + 0x30) as char
}

/// Whether `text` holds decimal digits only.
pub open spec fn all_digits(text: Seq<char>) -> bool {
    forall|i: int| 0 <= i < text.len() ==> is_digit(#[trigger] text[i])
}

/// The number that a run of decimal digits denotes, the most significant digit first.
pub open spec fn decimal_value(digits: Seq<char>) -> nat
    decreases digits.len(),
{
    if digits.len() == 0 {
        0
    } else {
        decimal_value(digits.drop_last()) * 10 + digit_value(digits.last())
    }
}

/// The shortest run of decimal digits that denotes `n`.
pub open spec fn decimal_digits(n: nat) -> Seq<char>
    decreases n,
{
    if n < 10 {
        seq![digit_char(n)]
    } else {
        decimal_digits(n / 10).push(digit_char(n % 10))
    }
}

/// The number that `text` denotes as an unsigned decimal integer no greater than `max`: an
/// optional plus sign, then one or more digits. `None` for any other text.
pub open spec fn parse_uint(text: Seq<char>, max: nat) -> Option<nat> {
    let digits = if text.len() > 0 && text[0] == '+' {
        text.drop_first()
    } else {
        text
    };
    if digits.len() > 0 && all_digits(digits) && decimal_value(digits) <= max {
        Some(decimal_value(digits))
    } else {
        None
    }
}

/// A longer run of digits denotes no smaller a number than any of its prefixes.
pub proof fn lemma_decimal_value_prefix(digits: Seq<char>, k: int)
    requires
        0 <= k <= digits.len(),
    ensures
        decimal_value(digits.take(k)) <= decimal_value(digits),
    decreases digits.len(),
{
    if k == digits.len() {
        assert(digits.take(k) =~= digits);
    } else {
        lemma_decimal_value_prefix(digits.drop_last(), k);
        assert(digits.drop_last().take(k) =~= digits.take(k));
    }
}

/// Reads `text` as an unsigned decimal integer no greater than `max`.
pub fn parse_decimal(text: &[char], max: u32) -> (r: Option<u32>)
    ensures
        match r {
            Some(n) => parse_uint(text@, max as nat) == Some(n as nat),
            None => parse_uint(text@, max as nat) is None,
        },
{
    let n = text.len();
    let start: usize = if n > 0 && text[0] == '+' {
        1
    } else {
        0
    };
    if start == n {
        return None;
    }
    let ghost digits = text@.subrange(start as int, n as int);
    assert(digits =~= if text@.len() > 0 && text@[0] == '+' {
        text@.drop_first()
    } else {
        text@
    });
    let mut value: u64 = 0;
    let mut i: usize = start;
    while i < n
        invariant
            start <= i <= n,
            n == text@.len(),
            digits == text@.subrange(start as int, n as int),
            digits == if text@.len() > 0 && text@[0] == '+' {
                text@.drop_first()
            } else {
                text@
            },
            all_digits(digits.take(i - start)),
            value == decimal_value(digits.take(i - start)),
            value <= max,
        decreases n - i,
    {
        let code: u32 = text[i] as u32;
        if code < 0x30 || code > 0x39 {
            assert(!is_digit(digits[i - start]));
            return None;
        }
        let next: u64 = value * 10 + (code - 0x30) as u64;
        proof {
            let longer = digits.take(i + 1 - start);
            assert(longer.drop_last() =~= digits.take(i - start));
            assert(longer.last() == text@[i as int]);
            assert(next == decimal_value(longer));
            assert(all_digits(longer)) by {
                assert forall|j: int| 0 <= j < longer.len() implies is_digit(
                    #[trigger] longer[j],
                ) by {
                    if j < longer.len() - 1 {
                        assert(longer[j] == digits.take(i - start)[j]);
                    }
                }
            }
            lemma_decimal_value_prefix(digits, i + 1 - start);
        }
        if next > max as u64 {
            return None;
        }
        value = next;
        i = i + 1;
    }
    assert(digits.take(n - start) =~= digits);
    Some(value as u32)
}

/// The decimal digits of a number are digits, at least one, and denote that number.
pub proof fn lemma_decimal_digits(n: nat)
    ensures
        decimal_digits(n).len() > 0,
        all_digits(decimal_digits(n)),
        decimal_value(decimal_digits(n)) == n,
    decreases n,
{
    if n < 10 {
        let one = decimal_digits(n);
        assert(one.drop_last() =~= Seq::<char>::empty());
        assert(decimal_value(one.drop_last()) == 0);
    } else {
        lemma_decimal_digits(n / 10);
        let shorter = decimal_digits(n / 10);
        let all = decimal_digits(n);
        assert(all.drop_last() =~= shorter);
        assert forall|i: int| 0 <= i < all.len() implies is_digit(#[trigger] all[i]) by {
            if i < shorter.len() {
                assert(all[i] == shorter[i]);
            }
        }
    }
}

/// Reading the decimal digits of a number gives the number back, within the limit.
pub proof fn lemma_parse_decimal_digits(n: nat, max: nat)
    ensures
        parse_uint(decimal_digits(n), max) == if n <= max {
            Some(n)
        } else {
            None
        },
{
    lemma_decimal_digits(n);
    assert(is_digit(decimal_digits(n)[0]));
}

/// `String::push`: the character is added at the end of the string.
#[verifier::external_body]
pub(crate) fn push_char(out: &mut String, c: char)
    ensures
        final(out)@ == old(out)@.push(c),
{
    out.push(c)
}

/// Adds the characters of `text` to the end of `out`.
pub fn push_chars(out: &mut String, text: &[char])
    ensures
        final(out)@ == old(out)@ + text@,
{
    let n = text.len();
    let mut i: usize = 0;
    while i < n
        invariant
            i <= n,
            n == text@.len(),
            out@ == old(out)@ + text@.take(i as int),
        decreases n - i,
    {
        push_char(out, text[i]);
        i = i + 1;
        assert(text@.take(i as int) =~= text@.take(i - 1).push(text@[i - 1]));
    }
    assert(text@.take(n as int) =~= text@);
}

/// Adds the decimal digits of `n` to the end of `out`.
pub fn push_decimal(out: &mut String, n: u32)
    ensures
        final(out)@ == old(out)@ + decimal_digits(n as nat),
    decreases n,
{
    if n >= 10 {
        push_decimal(out, n / 10);
    }
    let d: u8 = (n % 10) as u8;
    push_char(out, (0x30 + d) as char);
    assert(out@ =~= old(out)@ + decimal_digits(n as nat));
}

/// The characters of a string slice, in order.
pub fn chars_of(text: &str) -> (chars: Vec<char>)
    ensures
        chars@ == text@,
{
    let mut chars: Vec<char> = Vec::new();
    for c in it: text.chars()
        invariant
            chars@ == it.seq().take(it.index() as int),
    {
        chars.push(c);
    }
    chars
}

/// The string that holds the characters of `text`.
pub fn string_of(text: &[char]) -> (out: String)
    ensures
        out@ == text@,
{
    let mut out = String::new();
    push_chars(&mut out, text);
    out
}

/// The fields of `text` that `sep` parts: one more than the number of times `sep` occurs, each
/// without `sep`, in order. The empty text has one empty field.
pub open spec fn split(text: Seq<char>, sep: char) -> Seq<Seq<char>>
    decreases text.len(),
{
    if text.len() == 0 {
        seq![Seq::<char>::empty()]
    } else {
        let before = split(text.drop_last(), sep);
        if text.last() == sep {
            before.push(Seq::<char>::empty())
        } else {
            before.update(before.len() - 1, before.last().push(text.last()))
        }
    }
}

/// The fields joined again, with `sep` between each two.
pub open spec fn join(fields: Seq<Seq<char>>, sep: char) -> Seq<char>
    decreases fields.len(),
{
    if fields.len() == 0 {
        Seq::<char>::empty()
    } else if fields.len() == 1 {
        fields[0]
    } else {
        join(fields.drop_last(), sep).push(sep) + fields.last()
    }
}

/// The contents of a list of fields.
pub open spec fn field_views(fields: Seq<Vec<char>>) -> Seq<Seq<char>> {
    fields.map_values(|field: Vec<char>| field@)
}

/// A text always has a first field.
pub proof fn lemma_split_len(text: Seq<char>, sep: char)
    ensures
        split(text, sep).len() >= 1,
    decreases text.len(),
{
    if text.len() > 0 {
        lemma_split_len(text.drop_last(), sep);
    }
}

/// No field holds the separator.
pub proof fn lemma_split_fields(text: Seq<char>, sep: char)
    ensures
        forall|i: int|
            0 <= i < split(text, sep).len() ==> !(#[trigger] split(text, sep)[i]).contains(sep),
    decreases text.len(),
{
    let fields = split(text, sep);
    if text.len() == 0 {
        assert forall|i: int| 0 <= i < fields.len() implies !(#[trigger] fields[i]).contains(
            sep,
        ) by {
            assert(fields[i].len() == 0);
        }
    } else {
        lemma_split_fields(text.drop_last(), sep);
        lemma_split_len(text.drop_last(), sep);
        let before = split(text.drop_last(), sep);
        assert forall|i: int| 0 <= i < fields.len() implies !(#[trigger] fields[i]).contains(
            sep,
        ) by {
            if text.last() == sep {
                if i < before.len() {
                    assert(fields[i] == before[i]);
                } else {
                    assert(fields[i].len() == 0);
                }
            } else {
                if i < before.len() - 1 {
                    assert(fields[i] == before[i]);
                } else {
                    let longer = before.last().push(text.last());
                    assert(fields[i] == longer);
                    if longer.contains(sep) {
                        let j = choose|j: int| 0 <= j < longer.len() && longer[j] == sep;
                        if j < before.last().len() {
                            assert(before[before.len() - 1][j] == sep);
                            assert(before[before.len() - 1].contains(sep));
                        }
                    }
                }
            }
        }
    }
}

/// A field that holds no separator, added behind a separator, comes out as the last field.
pub proof fn lemma_split_append(text: Seq<char>, field: Seq<char>, sep: char)
    requires
        !field.contains(sep),
    ensures
        split(text.push(sep) + field, sep) == split(text, sep).push(field),
    decreases field.len(),
{
    lemma_split_len(text, sep);
    let whole = text.push(sep) + field;
    if field.len() == 0 {
        assert(whole =~= text.push(sep));
        assert(whole.drop_last() =~= text);
        assert(field =~= Seq::<char>::empty());
    } else {
        let shorter = field.drop_last();
        assert(!shorter.contains(sep)) by {
            if shorter.contains(sep) {
                let i = choose|i: int| 0 <= i < shorter.len() && shorter[i] == sep;
                assert(field[i] == sep);
            }
        }
        lemma_split_append(text, shorter, sep);
        assert(whole.drop_last() =~= text.push(sep) + shorter);
        assert(whole.last() == field.last());
        assert(field.last() != sep) by {
            assert(field[field.len() - 1] == field.last());
        }
        let before = split(text, sep).push(shorter);
        assert(before.update(before.len() - 1, before.last().push(field.last())) =~= split(
            text,
            sep,
        ).push(field)) by {
            assert(shorter.push(field.last()) =~= field);
        }
    }
}

/// A text without separator is its own single field.
pub proof fn lemma_split_single(field: Seq<char>, sep: char)
    requires
        !field.contains(sep),
    ensures
        split(field, sep) == seq![field],
    decreases field.len(),
{
    if field.len() == 0 {
        assert(field =~= Seq::<char>::empty());
    } else {
        let shorter = field.drop_last();
        assert(!shorter.contains(sep)) by {
            if shorter.contains(sep) {
                let i = choose|i: int| 0 <= i < shorter.len() && shorter[i] == sep;
                assert(field[i] == sep);
            }
        }
        lemma_split_single(shorter, sep);
        assert(field.last() != sep) by {
            assert(field[field.len() - 1] == field.last());
        }
        assert(shorter.push(field.last()) =~= field);
        assert(seq![shorter].update(0, field) =~= seq![field]);
    }
}

/// Fields without separator, joined and parted again, are the same fields.
pub proof fn lemma_split_join(fields: Seq<Seq<char>>, sep: char)
    requires
        fields.len() > 0,
        forall|i: int| 0 <= i < fields.len() ==> !(#[trigger] fields[i]).contains(sep),
    ensures
        split(join(fields, sep), sep) == fields,
    decreases fields.len(),
{
    if fields.len() == 1 {
        lemma_split_single(fields[0], sep);
        assert(seq![fields[0]] =~= fields);
    } else {
        let shorter = fields.drop_last();
        assert forall|i: int| 0 <= i < shorter.len() implies !(#[trigger] shorter[i]).contains(
            sep,
        ) by {
            assert(shorter[i] == fields[i]);
        }
        lemma_split_join(shorter, sep);
        assert(!fields[fields.len() - 1].contains(sep));
        lemma_split_append(join(shorter, sep), fields.last(), sep);
        assert(shorter.push(fields.last()) =~= fields);
    }
}

/// The fields of a text, joined again, are the text.
pub proof fn lemma_join_split(text: Seq<char>, sep: char)
    ensures
        join(split(text, sep), sep) == text,
    decreases text.len(),
{
    lemma_split_len(text, sep);
    if text.len() == 0 {
        assert(split(text, sep)[0] =~= text);
    } else {
        let shorter = text.drop_last();
        let before = split(shorter, sep);
        lemma_split_len(shorter, sep);
        lemma_join_split(shorter, sep);
        if text.last() == sep {
            let fields = before.push(Seq::<char>::empty());
            assert(fields.drop_last() =~= before);
            assert(join(fields, sep) =~= join(before, sep).push(sep));
            assert(shorter.push(sep) =~= text);
        } else {
            let longer = before.last().push(text.last());
            let fields = before.update(before.len() - 1, longer);
            if before.len() == 1 {
                assert(join(before, sep) == before[0]);
                assert(join(fields, sep) == longer);
            } else {
                assert(fields.drop_last() =~= before.drop_last());
                assert(join(fields, sep) =~= join(before.drop_last(), sep).push(sep) + longer);
                assert(join(before, sep) == join(before.drop_last(), sep).push(sep)
                    + before.last());
            }
            assert(join(fields, sep) =~= join(before, sep).push(text.last()));
            assert(shorter.push(text.last()) =~= text);
        }
    }
}

/// Splits `text` at each `sep`.
pub fn split_chars(text: &[char], sep: char) -> (fields: Vec<Vec<char>>)
    ensures
        field_views(fields@) == split(text@, sep),
        fields@.len() >= 1,
{
    let n = text.len();
    let mut fields: Vec<Vec<char>> = Vec::new();
    let mut current: Vec<char> = Vec::new();
    let mut i: usize = 0;
    while i < n
        invariant
            i <= n,
            n == text@.len(),
            field_views(fields@).push(current@) == split(text@.take(i as int), sep),
        decreases n - i,
    {
        let c = text[i];
        proof {
            let longer = text@.take(i + 1);
            assert(longer.drop_last() =~= text@.take(i as int));
            assert(longer.last() == c);
        }
        if c == sep {
            let ghost done = fields@;
            fields.push(current);
            current = Vec::new();
            assert(field_views(fields@) =~= field_views(done).push(fields@.last()@));
        } else {
            let ghost before = field_views(fields@).push(current@);
            current.push(c);
            assert(before.update(before.len() - 1, before.last().push(c)) =~= field_views(
                fields@,
            ).push(current@));
        }
        i = i + 1;
    }
    assert(text@.take(n as int) =~= text@);
    let ghost done = fields@;
    fields.push(current);
    assert(field_views(fields@) =~= field_views(done).push(fields@.last()@));
    fields
}

/// `text` without any occurrence of `c`.
pub open spec fn without(text: Seq<char>, c: char) -> Seq<char>
    decreases text.len(),
{
    if text.len() == 0 {
        text
    } else if text.last() == c {
        without(text.drop_last(), c)
    } else {
        without(text.drop_last(), c).push(text.last())
    }
}

/// Leaving out a character that does not occur changes nothing.
pub proof fn lemma_without_absent(text: Seq<char>, c: char)
    requires
        !text.contains(c),
    ensures
        without(text, c) == text,
    decreases text.len(),
{
    if text.len() > 0 {
        let shorter = text.drop_last();
        assert(!shorter.contains(c)) by {
            if shorter.contains(c) {
                let i = choose|i: int| 0 <= i < shorter.len() && shorter[i] == c;
                assert(text[i] == c);
            }
        }
        lemma_without_absent(shorter, c);
        assert(text[text.len() - 1] != c);
        assert(shorter.push(text.last()) =~= text);
    }
}

/// Copies `text`, leaving out each occurrence of `c`.
pub fn remove_char(text: &[char], c: char) -> (out: Vec<char>)
    ensures
        out@ == without(text@, c),
{
    let n = text.len();
    let mut out: Vec<char> = Vec::new();
    let mut i: usize = 0;
    while i < n
        invariant
            i <= n,
            n == text@.len(),
            out@ == without(text@.take(i as int), c),
        decreases n - i,
    {
        proof {
            let longer = text@.take(i + 1);
            assert(longer.drop_last() =~= text@.take(i as int));
            assert(longer.last() == text@[i as int]);
        }
        if text[i] != c {
            out.push(text[i]);
        }
        i = i + 1;
    }
    assert(text@.take(n as int) =~= text@);
    out
}

/// Whether `text` and `other` hold the same characters.
pub fn same_chars(text: &[char], other: &[char]) -> (same: bool)
    ensures
        same == (text@ == other@),
{
    if text.len() != other.len() {
        return false;
    }
    let n = text.len();
    let mut i: usize = 0;
    while i < n
        invariant
            i <= n,
            n == text@.len(),
            n == other@.len(),
            text@.take(i as int) == other@.take(i as int),
        decreases n - i,
    {
        if text[i] != other[i] {
            return false;
        }
        assert(text@.take(i + 1) =~= text@.take(i as int).push(text@[i as int]));
        assert(other@.take(i + 1) =~= other@.take(i as int).push(other@[i as int]));
        i = i + 1;
    }
    assert(text@.take(n as int) =~= text@);
    assert(other@.take(n as int) =~= other@);
    true
}

} // verus!
