//! What the content of a file says about it.

use crate::text;
use vstd::prelude::*;

verus! {

/// How many leading bytes are looked at to tell binary content from text.
pub const BINARY_SNIFF_BYTES: usize = 8192;

/// Whether content looks binary: there is a zero among its first bytes.
pub open spec fn looks_binary(bytes: Seq<u8>) -> bool {
    exists|i: int| 0 <= i < bytes.len() && i < BINARY_SNIFF_BYTES && #[trigger] bytes[i] == 0
}

/// Whether content looks binary: there is a zero among its first bytes.
pub fn is_binary(bytes: &Vec<u8>) -> (r: bool)
    ensures
        r == looks_binary(bytes@),
{
    let mut i: usize = 0;
    while i < bytes.len() && i < BINARY_SNIFF_BYTES
        invariant
            i <= bytes.len(),
            forall|k: int| 0 <= k < i ==> #[trigger] bytes@[k] != 0,
        decreases bytes.len() - i,
    {
        if bytes[i] == 0 {
            return true;
        }
        i += 1;
    }
    false
}

/// What came of reading a file.
#[derive(Debug)]
pub enum FileContent {
    Read(Vec<u8>),
    /// There is no such file.
    Missing,
    /// The file could not be read.
    Unreadable,
}

/// Whether a file looks binary. A file that could not be read does not.
pub fn is_binary_file(content: &FileContent) -> (r: bool)
    ensures
        r == match content {
            FileContent::Read(bytes) => looks_binary(bytes@),
            _ => false,
        },
{
    match content {
        FileContent::Read(bytes) => is_binary(bytes),
        _ => false,
    }
}

/// `String::from_utf8`: the text of bytes that are UTF-8.
#[verifier::external_body]
fn utf8_text(bytes: &Vec<u8>) -> (r: Option<String>)
    ensures
        r is Some <==> vstd::utf8::valid_utf8(bytes@),
        r is Some ==> r->0@ == vstd::utf8::decode_utf8(bytes@),
{
    String::from_utf8(bytes.clone()).ok()
}

/// What std makes of bytes as text when invalid sequences are replaced.
pub uninterp spec fn lossy(bytes: Seq<u8>) -> Seq<char>;

/// `String::from_utf8_lossy`: the text of the bytes. UTF-8 is taken as it is; in
/// other bytes each invalid sequence becomes one replacement character, so there
/// are never more characters than bytes.
#[verifier::external_body]
pub(crate) fn lossy_text(bytes: &Vec<u8>) -> (r: String)
    ensures
        r@ == lossy(bytes@),
        vstd::utf8::valid_utf8(bytes@) ==> r@ == vstd::utf8::decode_utf8(bytes@),
        r@.len() <= bytes@.len(),
{
    String::from_utf8_lossy(bytes).into_owned()
}

/// The content of a file as text: empty where the file is missing, a note of the size
/// where it is not UTF-8, and none where it could not be read.
pub open spec fn content_text(content: FileContent) -> Option<Seq<char>> {
    match content {
        FileContent::Missing => Some(Seq::empty()),
        FileContent::Read(bytes) => Some(
            if vstd::utf8::valid_utf8(bytes@) {
                vstd::utf8::decode_utf8(bytes@)
            } else {
                "(binary file, "@ + text::decimal(bytes@.len()) + " bytes)"@
            },
        ),
        FileContent::Unreadable => None,
    }
}

/// The content of a file as text: empty where the file is missing, a note of the size
/// where it is not UTF-8, and none where it could not be read.
pub fn read_content_or_binary_placeholder(content: &FileContent) -> (r: Option<String>)
    ensures
        match r {
            Some(t) => content_text(*content) == Some(t@),
            None => content_text(*content) is None,
        },
{
    match content {
        FileContent::Missing => {
            let t = String::new();
            assert(t@ =~= Seq::empty());
            Some(t)
        },
        FileContent::Read(bytes) => match utf8_text(bytes) {
            Some(t) => Some(t),
            None => Some(
                text::concat3(
                    "(binary file, ",
                    text::decimal_of(bytes.len() as u64).as_str(),
                    " bytes)",
                ),
            ),
        },
        FileContent::Unreadable => None,
    }
}

/// The text of a file is its bytes where they are UTF-8, and otherwise a note of how many there
/// are. A missing file has no text, and one that cannot be read none at all.
pub proof fn law_text_of_a_file(bytes: Vec<u8>)
    ensures
        vstd::utf8::valid_utf8(bytes@) ==> content_text(FileContent::Read(bytes)) == Some(
            vstd::utf8::decode_utf8(bytes@),
        ),
        !vstd::utf8::valid_utf8(bytes@) ==> content_text(FileContent::Read(bytes)) == Some(
            "(binary file, "@ + text::decimal(bytes@.len()) + " bytes)"@,
        ),
        content_text(FileContent::Missing) matches Some(t) && t.len() == 0,
        content_text(FileContent::Unreadable) is None,
{
}

/// Content looks binary exactly if there is a zero among its first bytes; what comes behind them
/// does not count.
pub proof fn law_only_the_first_bytes_are_looked_at(bytes: Seq<u8>, more: Seq<u8>)
    requires
        bytes.len() >= 8192,
    ensures
        looks_binary(bytes + more) == looks_binary(bytes),
        (forall|i: int| 0 <= i < bytes.len() ==> bytes[i] != 0) ==> !looks_binary(bytes),
        (exists|i: int| 0 <= i < 8192 && #[trigger] bytes[i] == 0) ==> looks_binary(bytes),
{
    let all = bytes + more;
    if looks_binary(bytes) {
        let i = choose|i: int|
            0 <= i < bytes.len() && i < BINARY_SNIFF_BYTES && #[trigger] bytes[i] == 0;
        assert(all[i] == 0);
    }
    if looks_binary(all) {
        let i = choose|i: int|
            0 <= i < all.len() && i < BINARY_SNIFF_BYTES && #[trigger] all[i] == 0;
        assert(bytes[i] == 0);
    }
}

} // verus!
