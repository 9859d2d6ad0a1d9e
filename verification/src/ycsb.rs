//! The operations of the key-value benchmark that the store is driven with.
use vstd::prelude::*;

verus! {

/// An operation on a table of records, each a list of fields.
#[derive(Debug, PartialEq, Eq, Hash)]
pub enum Op {
    /// Read the record under the key.
    Read(String),
    /// Read this many records, starting at the key.
    Scan(String, usize),
    /// Set the field with this index of the record under the key.
    Update(String, usize, String),
    /// Add a record with these fields under the key.
    Insert(String, Vec<String>),
    /// Delete the record under the key.
    Delete(String),
}

/// What an operation came to.
#[derive(Debug, PartialEq, Eq, Hash)]
pub enum OpResult {
    /// The fields of the record that was read.
    ReadOk(Vec<String>),
    /// The records that were scanned.
    ScanOk(Vec<Vec<String>>),
    /// There is no record under the key.
    NotFound,
    /// The operation was done.
    Done,
}

/// What an operation came to, as a plain value.
pub ghost enum OpResultView {
    ReadOk(Seq<Seq<char>>),
    ScanOk(Seq<Seq<Seq<char>>>),
    NotFound,
    Done,
}

/// The fields of a record as plain values.
pub open spec fn field_views(fields: Seq<String>) -> Seq<Seq<char>> {
    fields.map_values(|field: String| field@)
}

impl View for OpResult {
    type V = OpResultView;

    open spec fn view(&self) -> OpResultView {
        match *self {
            OpResult::ReadOk(fields) => OpResultView::ReadOk(field_views(fields@)),
            OpResult::ScanOk(records) => OpResultView::ScanOk(
                records@.map_values(|fields: Vec<String>| field_views(fields@)),
            ),
            OpResult::NotFound => OpResultView::NotFound,
            OpResult::Done => OpResultView::Done,
        }
    }
}

/// The value of a decimal digit.
pub open spec fn digit(c: char) -> nat
    recommends
        is_digit(c),
{
    (c as u32 - '0' as u32) as nat
}

/// Whether `c` is one of the ten decimal digits.
pub open spec fn is_digit(c: char) -> bool {
    '0' <= c <= '9'
}

/// The number that a sequence of decimal digits stands for.
pub open spec fn decimal(digits: Seq<char>) -> nat
    decreases digits.len(),
{
    if digits.len() == 0 {
        0
    } else {
        decimal(digits.drop_last()) * 10 + digit(digits.last())
    }
}

/// The number that `text` stands for: one or more decimal digits, after at
/// most one plus sign, that count no more than a `u64` holds.
pub open spec fn number(text: Seq<char>) -> Option<u64> {
    let digits = if text.len() > 0 && text[0] == '+' {
        text.skip(1)
    } else {
        text
    };
    unsigned(digits)
}

/// The number that `digits` stands for: one or more decimal digits that
/// count no more than a `u64` holds.
pub open spec fn unsigned(digits: Seq<char>) -> Option<u64> {
    if digits.len() > 0 && (forall|i: int| 0 <= i < digits.len() ==> is_digit(#[trigger] digits[i]))
        && decimal(digits) <= u64::MAX {
        Some(decimal(digits) as u64)
    } else {
        None
    }
}

/// The prefix that every key starts with.
pub open spec fn key_prefix() -> Seq<char> {
    seq!['u', 's', 'e', 'r']
}

/// Whether `key` starts with the prefix of keys.
pub open spec fn has_key_prefix(key: Seq<char>) -> bool {
    key.len() >= 4 && key.take(4) == key_prefix()
}

/// More digits never stand for a smaller number.
pub proof fn lemma_decimal_grows(digits: Seq<char>, len: int)
    requires
        0 <= len <= digits.len(),
    ensures
        decimal(digits.take(len)) <= decimal(digits),
    decreases digits.len() - len,
{
    if len < digits.len() {
        lemma_decimal_grows(digits, len + 1);
        assert(digits.take(len + 1).drop_last() =~= digits.take(len));
    } else {
        assert(digits.take(len) =~= digits);
    }
}

/// Reads the number in `key` behind its first `skip` characters.
pub fn parse_number(key: &str, skip: usize) -> (r: Option<u64>)
    requires
        skip <= key@.len(),
    ensures
        r == number(key@.skip(skip as int)),
{
    let ghost text = key@.skip(skip as int);
    let len = key.unicode_len();
    let mut at = skip;
    if at < len && key.get_char(at) == '+' {
        at = at + 1;
    }
    let ghost digits = key@.skip(at as int);
    proof {
        if text.len() > 0 && text[0] == '+' {
            assert(text.skip(1) =~= digits);
        }
    }
    if at == len {
        return None;
    }
    let start = at;
    let mut value: u64 = 0;
    assert(digits.take(0) =~= Seq::empty());
    while at < len
        invariant
            start <= at <= len,
            start < len,
            len == key@.len(),
            digits == key@.skip(start as int),
            number(key@.skip(skip as int)) == unsigned(digits),
            forall|i: int| 0 <= i < at - start ==> is_digit(#[trigger] digits[i]),
            value == decimal(digits.take(at - start)),
        decreases len - at,
    {
        let c = key.get_char(at);
        assert(digits[at - start] == c);
        if c < '0' || c > '9' {
            return None;
        }
        let d = (c as u32 - '0' as u32) as u64;
        proof {
            assert(digits.take(at - start + 1).drop_last() =~= digits.take(at - start));
            lemma_decimal_grows(digits, at - start + 1);
        }
        if value > (u64::MAX - d) / 10 {
            return None;
        }
        value = value * 10 + d;
        at = at + 1;
    }
    assert(digits.take(len - start) =~= digits);
    Some(value)
}

} // verus!
