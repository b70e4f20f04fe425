//! Words and numbers as text: what bytes say read as UTF-8, a number in
//! decimal, a name in quotes.

use vstd::prelude::*;
#[allow(unused_imports)]
use vstd::utf8;

verus! {

/// What `String::from_utf8_lossy` makes of bytes that are not UTF-8.
pub uninterp spec fn utf8_lossy(bytes: Seq<u8>) -> Seq<char>;

/// What `str`'s `Debug` makes of a text: the text in double quotes, with
/// quotes, backslashes and what does not print escaped.
pub uninterp spec fn debug_text(text: Seq<char>) -> Seq<char>;

/// What `bytes` say, read as UTF-8: the characters they encode, or, where
/// they are not UTF-8, the nearest text there is.
pub open spec fn text_of(bytes: Seq<u8>) -> Seq<char> {
    if utf8::valid_utf8(bytes) {
        utf8::decode_utf8(bytes)
    } else {
        utf8_lossy(bytes)
    }
}

/// The text of `bytes`, by `String::from_utf8_lossy`: bytes that are UTF-8
/// give the text they encode; of any others the contract names the result
/// and says nothing more of it.
#[verifier::external_body]
pub(crate) fn from_utf8_lossy(bytes: &[u8]) -> (text: String)
    ensures
        text@ == (if utf8::valid_utf8(bytes@) {
            utf8::decode_utf8(bytes@)
        } else {
            utf8_lossy(bytes@)
        }),
{
    String::from_utf8_lossy(bytes).into_owned()
}

/// `text` in quotes, as `str`'s `Debug` writes it: the contract names the
/// result and says nothing more of it.
#[verifier::external_body]
pub(crate) fn quoted(text: &str) -> (quoted: String)
    ensures
        quoted@ == debug_text(text@),
{
    format!("{text:?}")
}

/// The text that UTF-8 bytes were made of is what they say.
pub proof fn text_reads_back(text: Seq<char>)
    ensures
        text_of(utf8::encode_utf8(text)) == text,
{
    utf8::encode_utf8_valid_utf8(text);
    utf8::encode_utf8_decode_utf8(text);
}

/// Texts that UTF-8 says alike are alike.
pub proof fn encodings_differ(one: Seq<char>, other: Seq<char>)
    requires
        utf8::encode_utf8(one) == utf8::encode_utf8(other),
    ensures
        one == other,
{
    utf8::encode_utf8_decode_utf8(one);
    utf8::encode_utf8_decode_utf8(other);
}

/// Whether two runs of bytes are the same.
pub fn same_bytes(one: &[u8], other: &[u8]) -> (same: bool)
    ensures
        same == (one@ == other@),
{
    if one.len() != other.len() {
        return false;
    }
    let mut at: usize = 0;
    while at < one.len()
        invariant
            at <= one@.len(),
            one@.len() == other@.len(),
            one@.take(at as int) =~= other@.take(at as int),
        decreases one@.len() - at,
    {
        if one[at] != other[at] {
            return false;
        }
        at += 1;
    }
    assert(one@ =~= one@.take(at as int));
    assert(other@ =~= other@.take(at as int));
    true
}

/// Whether two texts are the same.
pub fn same_text(one: &str, other: &str) -> (same: bool)
    ensures
        same == (one@ == other@),
{
    let same = same_bytes(one.as_bytes(), other.as_bytes());
    proof {
        if same {
            encodings_differ(one@, other@);
        }
    }
    same
}

/// One decimal digit.
pub open spec fn digit(value: nat) -> char {
    ('0' as nat + value) as char
}

/// `value` in decimal, without leading zeros.
pub open spec fn decimal(value: nat) -> Seq<char>
    decreases value,
{
    if value < 10 {
        seq![digit(value)]
    } else {
        decimal(value / 10).push(digit(value % 10))
    }
}

/// `value` in decimal.
pub fn number(value: u64) -> (text: String)
    ensures
        text@ == decimal(value as nat),
    decreases value,
{
    let mut text = if value < 10 {
        String::new()
    } else {
        number(value / 10)
    };
    let last = match value % 10 {
        0 => "0",
        1 => "1",
        2 => "2",
        3 => "3",
        4 => "4",
        5 => "5",
        6 => "6",
        7 => "7",
        8 => "8",
        _ => "9",
    };
    proof {
        reveal_strlit("0");
        reveal_strlit("1");
        reveal_strlit("2");
        reveal_strlit("3");
        reveal_strlit("4");
        reveal_strlit("5");
        reveal_strlit("6");
        reveal_strlit("7");
        reveal_strlit("8");
        reveal_strlit("9");
    }
    assert(last@ =~= seq![digit((value % 10) as nat)]);
    text.append(last);
    assert(text@ =~= decimal(value as nat));
    text
}

/// The number that decimal digits say.
pub open spec fn value_of(digits: Seq<char>) -> int
    decreases digits.len(),
{
    if digits.len() == 0 {
        0
    } else {
        10 * value_of(digits.drop_last()) + (digits.last() as int - '0' as int)
    }
}

/// A number in decimal is digits that say the number, and opens with a zero
/// only where it is zero, which is one digit.
pub proof fn decimals_say_the_number(value: nat)
    ensures
        value_of(decimal(value)) == value,
        decimal(value).len() > 0,
        forall|i: int| 0 <= i < decimal(value).len() ==> '0' <= #[trigger] decimal(value)[i] <= '9',
        decimal(value)[0] == '0' <==> value == 0,
        value < 10 <==> decimal(value).len() == 1,
    decreases value,
{
    let text = decimal(value);
    if value < 10 {
        assert(text.drop_last() =~= Seq::empty());
        assert(value_of(text.drop_last()) == 0);
    } else {
        decimals_say_the_number(value / 10);
        assert(text.drop_last() =~= decimal(value / 10));
    }
}

} // verus!
