//! The front matter of a markdown file: what stands between a first line of
//! `---` and the next such line. The text of the document follows it.

use crate::builder::cuts::lemma_clean_cut;
use crate::builder::markdown::{slice, slice_chars, sliceable};
use crate::scanner::{find_from, first_match, lemma_first_match, matches_at, occurs_at};
use vstd::prelude::*;
use vstd::string::*;
use vstd::utf8::*;

verus! {

/// The bytes of the line that opens the front matter: `---` and a line feed.
pub open spec fn opening() -> Seq<u8> {
    seq![45u8, 45u8, 45u8, 10u8]
}

/// The bytes that close the front matter: a line feed, `---` and a line feed.
pub open spec fn closing() -> Seq<u8> {
    seq![10u8, 45u8, 45u8, 45u8, 10u8]
}

/// The offset of the line feed before the line that closes the front matter
/// of a text: the text begins with a line of `---`, and this is the first
/// line feed behind that line which a line of `---` follows. `None` where
/// the text has no front matter.
pub open spec fn front_end(bytes: Seq<u8>) -> Option<int> {
    if occurs_at(bytes, opening(), 0) {
        first_match(bytes, closing(), 4)
    } else {
        None
    }
}

/// The front matter of a text can be cut out of it, and so can the text
/// behind it: every cut stands beside a line feed.
pub proof fn lemma_front_matter_cuts(text: Seq<char>)
    requires
        front_end(encode_utf8(text)) is Some,
    ensures
        sliceable(encode_utf8(text), 4, front_end(encode_utf8(text))->0),
        sliceable(
            encode_utf8(text),
            front_end(encode_utf8(text))->0 + 5,
            encode_utf8(text).len() as int,
        ),
{
    let bytes = encode_utf8(text);
    let e = front_end(bytes)->0;
    encode_utf8_valid_utf8(text);
    lemma_first_match(bytes, closing(), 4);
    assert(bytes[3] == opening()[3]);
    assert(bytes[e] == closing()[0]);
    assert(bytes[e + 4] == closing()[4]);
    lemma_clean_cut(bytes, 4);
    lemma_clean_cut(bytes, e);
    lemma_clean_cut(bytes, e + 5);
    lemma_clean_cut(bytes, bytes.len() as int);
}

/// The front matter of `text`, where it has one, and the text behind it;
/// the whole text where it has none.
pub fn split_front_matter(text: &str) -> (r: (Option<String>, String))
    ensures
        match front_end(text.spec_bytes()) {
            Some(e) => {
                &&& r.0 matches Some(front) && front@ == slice_chars(text.spec_bytes(), 4, e)
                &&& r.1@ == slice_chars(
                    text.spec_bytes(),
                    e + 5,
                    text.spec_bytes().len() as int,
                )
            },
            None => r.0 is None && r.1@ == text@,
        },
{
    let s = text.as_bytes();
    let open: [u8; 4] = [45, 45, 45, 10];
    let close: [u8; 5] = [10, 45, 45, 45, 10];
    assert(open@ =~= opening() && close@ =~= closing());
    if s.len() < 4 || !matches_at(s, open.as_slice(), 0) {
        return (None, String::from_str(text));
    }
    proof {
        lemma_first_match(s@, closing(), 4);
    }
    match find_from(s, close.as_slice(), 4) {
        Some(e) => (Some(slice(text, 4, 0, e, 0)), slice(text, e, 5, s.len(), 0)),
        None => (None, String::from_str(text)),
    }
}

} // verus!
