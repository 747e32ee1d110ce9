//! What the backend answers, and how an answer is read as a typed value.
//!
//! A reply is read by the rules of the client library's typed queries: as a
//! `String`, a `bool`, an `i64` or a `Vec<String>`. The rules are spelled out
//! here as specifications, and the reading functions are proved to follow
//! them. The UTF-8 check and the parsing of an integer are the standard
//! library's, taken on trust for what its documentation says of them.

use vstd::prelude::*;
use vstd::string::StringSliceAdditionalSpecFns;
use vstd::utf8::{decode_utf8, encode_utf8, valid_utf8};

verus! {

/// One answer of the backend, as the client library hands it over.
#[derive(Debug, PartialEq, Eq)]
pub enum Reply {
    /// The absent value.
    Nil,
    /// An integer.
    Int(i64),
    /// A string of arbitrary bytes.
    Data(Vec<u8>),
    /// A list of answers.
    Bulk(Vec<Reply>),
    /// A status line.
    Status(String),
    /// The status line `OK`.
    Okay,
}

/// Whether the character is an ASCII digit.
pub open spec fn is_digit(c: char) -> bool {
    48 <= c as u32 <= 57
}

/// Whether the text is one or more ASCII digits and nothing else.
pub open spec fn is_digits(text: Seq<char>) -> bool {
    text.len() > 0 && forall|i: int| 0 <= i < text.len() ==> #[trigger] is_digit(text[i])
}

/// The number that a run of ASCII digits writes in decimal.
pub open spec fn digits_value(text: Seq<char>) -> nat
    decreases text.len(),
{
    if text.len() == 0 {
        0
    } else {
        (digits_value(text.drop_last()) * 10 + (text.last() as u32 - 48)) as nat
    }
}

/// The integer that the text writes: one `+` or `-` or no sign, then one or
/// more ASCII digits and nothing else, with a value that an `i64` holds. Any
/// other text writes no integer.
pub open spec fn parsed_integer(text: Seq<char>) -> Option<i64> {
    let negative = text.len() > 0 && text[0] == '-';
    let signed = negative || (text.len() > 0 && text[0] == '+');
    let digits = if signed {
        text.drop_first()
    } else {
        text
    };
    let value = if negative {
        -(digits_value(digits) as int)
    } else {
        digits_value(digits) as int
    };
    if is_digits(digits) && i64::MIN <= value <= i64::MAX {
        Some(value as i64)
    } else {
        None
    }
}

/// `core::str::from_utf8`: the bytes as text, exactly when they are well-formed
/// UTF-8. The text's encoding is then the input itself.
#[verifier::external_body]
fn text_of_bytes(bytes: &Vec<u8>) -> (out: Option<&str>)
    ensures
        out is Some <==> valid_utf8(bytes@),
        out matches Some(text) ==> text.spec_bytes() == bytes@,
{
    core::str::from_utf8(bytes).ok()
}

/// `str::parse::<i64>`: the integer that the text writes in decimal, with or
/// without a sign, or nothing where the text is no such integer or the integer
/// does not fit.
#[verifier::external_body]
fn integer_of_text(text: &str) -> (out: Option<i64>)
    ensures
        out == parsed_integer(text@),
{
    text.parse::<i64>().ok()
}

/// What a one-byte string says of a flag: `1` is true, `0` is false, anything
/// else is no flag.
pub open spec fn flag_in(bytes: Seq<u8>) -> Option<bool> {
    if bytes == seq![49u8] {
        Some(true)
    } else if bytes == seq![48u8] {
        Some(false)
    } else {
        None
    }
}

/// Reads a flag from a string of bytes.
fn read_flag_in(bytes: &[u8]) -> (out: Option<bool>)
    ensures
        out == flag_in(bytes@),
{
    if bytes.len() == 1 {
        let byte: u8 = bytes[0];
        if byte == 49 {
            assert(bytes@ =~= seq![49u8]);
            Some(true)
        } else if byte == 48 {
            assert(bytes@ =~= seq![48u8]);
            Some(false)
        } else {
            None
        }
    } else {
        None
    }
}

impl Reply {
    /// The reply read as text: a byte string that is well-formed UTF-8, or a
    /// status line. Nothing else is text.
    pub open spec fn text(self) -> Option<Seq<char>> {
        match self {
            Reply::Data(bytes) => if valid_utf8(bytes@) {
                Some(decode_utf8(bytes@))
            } else {
                None
            },
            Reply::Status(line) => Some(line@),
            Reply::Okay => Some("OK"@),
            _ => None,
        }
    }

    /// The reply read as a flag: absence is false, an integer is true unless
    /// it is zero, `OK` is true, and a string counts where it is `1` or `0`.
    pub open spec fn flag(self) -> Option<bool> {
        match self {
            Reply::Nil => Some(false),
            Reply::Int(n) => Some(n != 0),
            Reply::Status(line) => flag_in(encode_utf8(line@)),
            Reply::Data(bytes) => flag_in(bytes@),
            Reply::Okay => Some(true),
            Reply::Bulk(_) => None,
        }
    }

    /// The reply read as a number: an integer itself, or the integer written in
    /// a status line or in a byte string that is well-formed UTF-8.
    pub open spec fn number(self) -> Option<i64> {
        match self {
            Reply::Int(n) => Some(n),
            Reply::Status(line) => parsed_integer(line@),
            Reply::Data(bytes) => if valid_utf8(bytes@) {
                parsed_integer(decode_utf8(bytes@))
            } else {
                None
            },
            _ => None,
        }
    }

    /// The reply read as a list of texts: each member of a list read as text,
    /// if every one is text; a lone byte string as a list of one; absence as
    /// the empty list.
    pub open spec fn texts(self) -> Option<Seq<Seq<char>>> {
        match self {
            Reply::Bulk(members) => if forall|i: int|
                0 <= i < members@.len() ==> (#[trigger] members@[i]).text() is Some {
                Some(Seq::new(members@.len(), |i: int| members@[i].text()->0))
            } else {
                None
            },
            Reply::Data(bytes) => if valid_utf8(bytes@) {
                Some(seq![decode_utf8(bytes@)])
            } else {
                None
            },
            Reply::Nil => Some(Seq::empty()),
            _ => None,
        }
    }

    /// Reads the reply as text.
    pub fn read_text(&self) -> (out: Option<String>)
        ensures
            out is Some <==> self.text() is Some,
            out matches Some(text) ==> text@ == self.text()->0,
    {
        match self {
            Reply::Data(bytes) => match text_of_bytes(bytes) {
                Some(text) => {
                    proof {
                        vstd::utf8::encode_utf8_decode_utf8(text@);
                    }
                    Some(text.to_owned())
                },
                None => None,
            },
            Reply::Status(line) => Some(line.clone()),
            Reply::Okay => Some("OK".to_owned()),
            _ => None,
        }
    }

    /// Reads the reply as a flag.
    pub fn read_flag(&self) -> (out: Option<bool>)
        ensures
            out == self.flag(),
    {
        match self {
            Reply::Nil => Some(false),
            Reply::Int(n) => Some(*n != 0),
            Reply::Status(line) => read_flag_in(line.as_str().as_bytes()),
            Reply::Data(bytes) => read_flag_in(bytes.as_slice()),
            Reply::Okay => Some(true),
            Reply::Bulk(_) => None,
        }
    }

    /// Reads the reply as a number.
    pub fn read_number(&self) -> (out: Option<i64>)
        ensures
            out == self.number(),
    {
        match self {
            Reply::Int(n) => Some(*n),
            Reply::Status(line) => integer_of_text(line.as_str()),
            Reply::Data(bytes) => match text_of_bytes(bytes) {
                Some(text) => {
                    proof {
                        vstd::utf8::encode_utf8_decode_utf8(text@);
                    }
                    integer_of_text(text)
                },
                None => None,
            },
            _ => None,
        }
    }

    /// Reads the reply as a list of texts.
    pub fn read_texts(&self) -> (out: Option<Vec<String>>)
        ensures
            out is Some <==> self.texts() is Some,
            out matches Some(list) ==> list.deep_view() == self.texts()->0,
    {
        match self {
            Reply::Bulk(members) => {
                let mut list: Vec<String> = Vec::new();
                let mut i: usize = 0;
                while i < members.len()
                    invariant
                        *self == Reply::Bulk(*members),
                        i <= members.len(),
                        list.len() == i,
                        forall|j: int| 0 <= j < i ==> (#[trigger] members@[j]).text() is Some,
                        forall|j: int| 0 <= j < i ==> (#[trigger] list@[j])@ == members@[j].text()->0,
                    decreases members.len() - i,
                {
                    match members[i].read_text() {
                        Some(text) => {
                            list.push(text);
                        },
                        None => {
                            return None;
                        },
                    }
                    i = i + 1;
                }
                Some(list)
            },
            Reply::Data(bytes) => match self.read_text() {
                Some(text) => {
                    let mut list: Vec<String> = Vec::new();
                    list.push(text);
                    Some(list)
                },
                None => None,
            },
            Reply::Nil => Some(Vec::new()),
            _ => None,
        }
    }
}

} // verus!
