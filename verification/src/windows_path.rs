//! Places below a directory on Windows.
//!
//! There the steps of a path are separated by a backslash or a slash, it can begin with the letter of
//! a drive, and below a directory that is written verbatim, with `\\?\` before it, only the
//! backslash separates.

use vstd::prelude::*;
#[allow(unused_imports)]
use vstd::utf8::encode_utf8;

use crate::bytes::copy_range;
use crate::path::{FilePath, SLASH};

verus! {

/// The byte between the steps of a path on Windows.
pub const BACKSLASH: u8 = 0x5c;

/// The byte behind the letter of a drive.
pub const COLON: u8 = 0x3a;

/// The byte that marks a path as verbatim.
pub const QUESTION: u8 = 0x3f;

/// Whether a byte is a letter.
pub open spec fn is_letter(byte: u8) -> bool {
    0x41 <= byte <= 0x5a || 0x61 <= byte <= 0x7a
}

/// Whether a directory is the letter of a drive with its colon and nothing else. What follows it
/// directly is taken from the current directory of that drive.
pub open spec fn is_drive(base: Seq<u8>) -> bool {
    base.len() == 2 && is_letter(base[0]) && base[1] == COLON
}

/// Whether a directory is written verbatim.
pub open spec fn is_verbatim(base: Seq<u8>) -> bool {
    base.len() >= 4 && base[0] == BACKSLASH && base[1] == BACKSLASH && base[2] == QUESTION && base[3]
        == BACKSLASH
}

/// Whether a directory already ends where a step can follow.
pub open spec fn ends_open(base: Seq<u8>) -> bool {
    ||| base.len() == 0
    ||| base.last() == BACKSLASH
    ||| base.last() == SLASH && !is_verbatim(base)
    ||| is_drive(base)
}

/// What a relative path `rest`, without a drive, names below the directory `base`.
pub open spec fn below(base: Seq<u8>, rest: Seq<u8>) -> Seq<u8> {
    if ends_open(base) {
        base + rest
    } else {
        base.push(BACKSLASH) + rest
    }
}

/// Whether a directory is written verbatim.
pub fn starts_verbatim(base: &FilePath) -> (verbatim: bool)
    ensures
        verbatim == is_verbatim(base@),
{
    let bytes = base.as_bytes();
    bytes.len() >= 4 && bytes[0] == BACKSLASH && bytes[1] == BACKSLASH && bytes[2] == QUESTION && bytes[3]
        == BACKSLASH
}

/// What a relative path `rest`, without a drive, names below the directory `base`.
pub fn place_below(base: &FilePath, rest: &str) -> (place: FilePath)
    ensures
        place@ == below(base@, encode_utf8(rest@)),
{
    let bytes = base.as_bytes();
    let len = bytes.len();
    let open = len == 0 || bytes[len - 1] == BACKSLASH || (bytes[len - 1] == SLASH && !starts_verbatim(
        base,
    )) || (len == 2 && ((0x41 <= bytes[0] && bytes[0] <= 0x5a) || (0x61 <= bytes[0] && bytes[0]
        <= 0x7a)) && bytes[1] == COLON);
    let mut place: Vec<u8> = copy_range(bytes, 0, len);
    assert(place@ == base@);
    if !open {
        place.push(BACKSLASH);
    }
    let tail = rest.as_bytes();
    let mut rest_bytes: Vec<u8> = copy_range(tail, 0, tail.len());
    assert(rest_bytes@ == tail@);
    place.append(&mut rest_bytes);
    FilePath::from_bytes(place)
}

/// A place below a directory begins with the directory and ends in the relative path. Between them
/// stands a backslash or nothing, and nothing exactly if the directory is empty, ends in a separator
/// or is the letter of a drive with its colon. In a verbatim directory a slash is no separator.
pub proof fn law_place_is_the_directory_and_the_rest(base: Seq<u8>, rest: Seq<u8>)
    ensures
        ({
            let place = below(base, rest);
            let gap = place.len() - base.len() - rest.len();
            let verbatim = base.len() >= 4 && base.take(4) == seq![0x5cu8, 0x5c, 0x3f, 0x5c];
            let drive = base.len() == 2 && base[1] == 0x3a && (0x41 <= base[0] <= 0x5a || 0x61
                <= base[0] <= 0x7a);
            &&& place.take(base.len() as int) == base
            &&& place.skip(place.len() - rest.len()) == rest
            &&& gap == 0 || (gap == 1 && place[base.len() as int] == 0x5c)
            &&& gap == 0 <==> base.len() == 0 || base.last() == 0x5c || (base.last() == 0x2f
                && !verbatim) || drive
        }),
{
    let place = below(base, rest);
    if base.len() >= 4 {
        assert(base.take(4) =~= seq![base[0], base[1], base[2], base[3]]);
        let four = seq![0x5cu8, 0x5c, 0x3f, 0x5c];
        if base.take(4) == four {
            assert(base[0] == four[0] && base[1] == four[1] && base[2] == four[2] && base[3]
                == four[3]);
        }
    }
    assert(place.take(base.len() as int) =~= base);
    assert(place.skip(place.len() - rest.len()) =~= rest);
}

} // verus!
