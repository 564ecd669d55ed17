//! The text that a stream is opened with.

use vstd::prelude::*;
use vstd::string::StrSliceExecFns;
use vstd::utf8::{
    decode_utf8, encode_utf8, encode_utf8_decode_utf8, encode_utf8_valid_utf8, valid_utf8,
};

verus! {

/// The text that `bytes` which are not UTF-8 are read as: what is well
/// formed decoded, each ill-formed part replaced by the replacement
/// character.
pub uninterp spec fn utf8_lossy(bytes: Seq<u8>) -> Seq<char>;

/// The text that `bytes` are read as.
pub open spec fn text_of(bytes: Seq<u8>) -> Seq<char> {
    if valid_utf8(bytes) {
        decode_utf8(bytes)
    } else {
        utf8_lossy(bytes)
    }
}

/// `String::from_utf8_lossy`: bytes that are UTF-8 give the text that
/// they encode; any other bytes give their lossy reading.
#[verifier::external_body]
fn decode_lossy(bytes: &[u8]) -> (text: String)
    ensures
        text@ == if valid_utf8(bytes@) {
            decode_utf8(bytes@)
        } else {
            utf8_lossy(bytes@)
        },
{
    String::from_utf8_lossy(bytes).into_owned()
}

/// What an opening frame says of its stream: the text, or nothing where
/// the text is empty.
pub open spec fn info_of(text: Seq<char>) -> Option<Seq<char>> {
    if text.len() == 0 {
        None
    } else {
        Some(text)
    }
}

/// The payload that opens a stream with what is said of it.
pub open spec fn payload_of(info: Option<Seq<char>>) -> Seq<u8> {
    match info {
        Some(text) => encode_utf8(text),
        None => Seq::empty(),
    }
}

/// The characters of optional text.
pub open spec fn chars_of(info: Option<String>) -> Option<Seq<char>> {
    match info {
        Some(text) => Some(text@),
        None => None,
    }
}

/// What is said of a stream when it is opened is read back from the
/// payload that says it, but for empty text, which says nothing.
pub proof fn lemma_info_round_trip(info: Option<Seq<char>>)
    ensures
        info_of(text_of(payload_of(info))) == if info == Some(Seq::<char>::empty()) {
            None
        } else {
            info
        },
{
    match info {
        Some(text) => {
            encode_utf8_valid_utf8(text);
            encode_utf8_decode_utf8(text);
        },
        None => {},
    }
}

/// What `text`, read from an opening frame, says of the stream.
pub fn additional_info(text: String) -> (info: Option<String>)
    ensures
        chars_of(info) == info_of(text@),
{
    if text.as_str().is_empty() {
        None
    } else {
        Some(text)
    }
}

/// What the payload of an opening frame says of the stream.
pub fn read_info(payload: &[u8]) -> (info: Option<String>)
    ensures
        chars_of(info) == info_of(text_of(payload@)),
{
    additional_info(decode_lossy(payload))
}

/// The payload of the frame that opens a stream with `info`.
pub fn write_info(info: &Option<String>) -> (payload: Vec<u8>)
    ensures
        payload@ == payload_of(chars_of(*info)),
{
    match info {
        Some(text) => text.as_str().as_bytes_vec(),
        None => Vec::new(),
    }
}

} // verus!
