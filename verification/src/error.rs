//! The errors of the tombstone manager, and what they say.

use vstd::prelude::*;
use vstd::string::*;
use crate::kv_backend::BackendError;

verus! {

/// Why a move, a restore or a purge failed.
#[derive(Debug)]
pub enum Error {
    /// The list of keys and the list of destination keys differ in length.
    InvalidArgument { keys_len: usize, dest_keys_len: usize },
    /// The last round left these source keys unresolved.
    ConvergenceExhausted { keys: Vec<Vec<u8>> },
    /// A call to the store failed.
    BackendFailure(BackendError),
}

/// The character of a decimal digit.
pub open spec fn digit_char(d: nat) -> char {
    if d == 0 {
        '0'
    } else if d == 1 {
        '1'
    } else if d == 2 {
        '2'
    } else if d == 3 {
        '3'
    } else if d == 4 {
        '4'
    } else if d == 5 {
        '5'
    } else if d == 6 {
        '6'
    } else if d == 7 {
        '7'
    } else if d == 8 {
        '8'
    } else {
        '9'
    }
}

/// A number in decimal, without leading zeros.
pub open spec fn decimal(n: nat) -> Seq<char>
    decreases n,
{
    if n < 10 {
        seq![digit_char(n)]
    } else {
        decimal(n / 10) + seq![digit_char(n % 10)]
    }
}

/// What is said of lists that differ in length.
pub open spec fn mismatch_message(keys_len: nat, dest_keys_len: nat) -> Seq<char> {
    "The length of keys("@ + decimal(keys_len) + ") does not match the length of dest_keys("@
        + decimal(dest_keys_len) + ")."@
}

/// The names of a list, each after a comma and a blank but the first.
pub open spec fn joined(names: Seq<Seq<char>>) -> Seq<char>
    decreases names.len(),
{
    if names.len() == 0 {
        seq![]
    } else if names.len() == 1 {
        names[0]
    } else {
        joined(names.drop_last()) + ", "@ + names.last()
    }
}

/// What is said of keys that a move left unresolved, given their names.
pub open spec fn exhausted_message(names: Seq<Seq<char>>) -> Seq<char> {
    "Failed to move values: keys: ["@ + joined(names) + "]"@
}

/// The text that `String::from_utf8_lossy` makes of a byte string.
pub uninterp spec fn utf8_lossy(bytes: Seq<u8>) -> Seq<char>;

/// The texts of a list of strings.
pub open spec fn strings_view(names: Seq<String>) -> Seq<Seq<char>> {
    Seq::new(names.len(), |i: int| names[i]@)
}

/// The names of a list of keys, as `String::from_utf8_lossy` gives them.
pub open spec fn key_names(keys: Seq<Vec<u8>>) -> Seq<Seq<char>> {
    Seq::new(keys.len(), |i: int| utf8_lossy(keys[i]@))
}

impl Error {
    /// What this error says.
    pub open spec fn message(&self) -> Seq<char> {
        match self {
            Error::InvalidArgument { keys_len, dest_keys_len } => mismatch_message(
                *keys_len as nat,
                *dest_keys_len as nat,
            ),
            Error::ConvergenceExhausted { keys } => exhausted_message(key_names(keys@)),
            Error::BackendFailure(e) => e.message@,
        }
    }

    /// Says what went wrong.
    pub fn to_string(&self) -> (text: String)
        ensures
            text@ == self.message(),
    {
        match self {
            Error::InvalidArgument { keys_len, dest_keys_len } => write_mismatch(
                *keys_len,
                *dest_keys_len,
            ),
            Error::ConvergenceExhausted { keys } => {
                let mut names: Vec<String> = Vec::with_capacity(keys.len());
                let mut i: usize = 0;
                while i < keys.len()
                    invariant
                        0 <= i <= keys@.len(),
                        names@.len() == i,
                        forall|j: int| 0 <= j < i ==> (#[trigger] names@[j])@ == utf8_lossy(keys@[j]@),
                    decreases keys@.len() - i,
                {
                    names.push(lossy_name(&keys[i]));
                    i += 1;
                }
                assert(strings_view(names@) =~= key_names(keys@));
                write_exhausted(&names)
            },
            Error::BackendFailure(e) => e.message.clone(),
        }
    }
}

/// Calls `String::from_utf8_lossy`, which turns a byte string into text and
/// puts a replacement character where the bytes are not UTF-8. The result is
/// a function of the bytes alone; nothing more is claimed of it.
#[verifier::external_body]
fn lossy_name(key: &Vec<u8>) -> (name: String)
    ensures
        name@ == utf8_lossy(key@),
{
    String::from_utf8_lossy(key).into_owned()
}

/// Returns the text of one decimal digit.
fn digit_text(d: usize) -> (text: &'static str)
    requires
        d < 10,
    ensures
        text@ == seq![digit_char(d as nat)],
{
    proof {
        reveal_strlit("0");
        reveal_strlit("1");
        reveal_strlit("2");
        reveal_strlit("3");
        reveal_strlit("4");
        reveal_strlit("5");
        reveal_strlit("6");
        reveal_strlit("7");
        reveal_strlit("8");
        reveal_strlit("9");
    }
    let text = if d == 0 {
        "0"
    } else if d == 1 {
        "1"
    } else if d == 2 {
        "2"
    } else if d == 3 {
        "3"
    } else if d == 4 {
        "4"
    } else if d == 5 {
        "5"
    } else if d == 6 {
        "6"
    } else if d == 7 {
        "7"
    } else if d == 8 {
        "8"
    } else {
        "9"
    };
    assert(text@ =~= seq![digit_char(d as nat)]);
    text
}

/// Appends a number in decimal.
pub fn write_decimal(text: &mut String, n: usize)
    ensures
        final(text)@ == old(text)@ + decimal(n as nat),
    decreases n,
{
    if n >= 10 {
        write_decimal(text, n / 10);
    }
    text.append(digit_text(n % 10));
    proof {
        if n >= 10 {
            assert(old(text)@ + decimal(n as nat) =~= old(text)@ + decimal((n / 10) as nat)
                + seq![digit_char((n % 10) as nat)]);
        }
    }
}

/// Says that two lists differ in length, naming both lengths.
pub fn write_mismatch(keys_len: usize, dest_keys_len: usize) -> (text: String)
    ensures
        text@ == mismatch_message(keys_len as nat, dest_keys_len as nat),
{
    let mut text = String::from_str("The length of keys(");
    write_decimal(&mut text, keys_len);
    text.append(") does not match the length of dest_keys(");
    write_decimal(&mut text, dest_keys_len);
    text.append(").");
    text
}

/// Says which keys a move left unresolved, given their names.
pub fn write_exhausted(names: &Vec<String>) -> (text: String)
    ensures
        text@ == exhausted_message(strings_view(names@)),
{
    let ghost all = strings_view(names@);
    let mut text = String::from_str("Failed to move values: keys: [");
    let mut i: usize = 0;
    assert(joined(all.take(0)) =~= Seq::<char>::empty());
    assert("Failed to move values: keys: ["@ + Seq::<char>::empty()
        =~= "Failed to move values: keys: ["@);
    while i < names.len()
        invariant
            0 <= i <= names@.len(),
            all == strings_view(names@),
            text@ == "Failed to move values: keys: ["@ + joined(all.take(i as int)),
        decreases names@.len() - i,
    {
        let ghost before = text@;
        if i > 0 {
            text.append(", ");
        }
        text.append(names[i].as_str());
        proof {
            let longer = all.take(i + 1);
            assert(longer.drop_last() =~= all.take(i as int));
            assert(longer.last() == names@[i as int]@);
            if i == 0 {
                assert(joined(longer) == longer[0]);
                assert(before + names@[i as int]@ =~= "Failed to move values: keys: ["@ + joined(
                    longer,
                ));
            } else {
                assert(before + ", "@ + names@[i as int]@ =~= "Failed to move values: keys: ["@
                    + joined(longer));
            }
        }
        i += 1;
    }
    assert(all.take(i as int) =~= all);
    text.append("]");
    text
}

} // verus!
