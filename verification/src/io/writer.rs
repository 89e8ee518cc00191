//! How point clouds are written: the encoding named by the `form` option.

use vstd::prelude::*;
use crate::text::{chars_of, same_chars};

verus! {

/// The encodings that a `.ply` file is written in.
#[derive(Debug, Clone, Copy, PartialEq, Eq, Structural)]
pub enum PlyEncoding {
    Ascii,
    BinaryLittleEndian,
}

/// The encoding that `form` names: `ascii` (also when no form is given) or
/// `binary` (little-endian); `None` for any other form.
pub open spec fn encoding_named(form: Option<Seq<char>>) -> Option<PlyEncoding> {
    match form {
        None => Some(PlyEncoding::Ascii),
        Some(f) => if f == seq!['a', 's', 'c', 'i', 'i'] {
            Some(PlyEncoding::Ascii)
        } else if f == seq!['b', 'i', 'n', 'a', 'r', 'y'] {
            Some(PlyEncoding::BinaryLittleEndian)
        } else {
            None
        },
    }
}

/// The encoding that `form` names (see `encoding_named`); `None` where the
/// form is not a valid encoding.
pub fn ply_encoding(form: Option<&str>) -> (e: Option<PlyEncoding>)
    ensures
        e == encoding_named(
            match form {
                Some(f) => Some(f@),
                None => None,
            },
        ),
{
    match form {
        None => Some(PlyEncoding::Ascii),
        Some(f) => {
            let v = chars_of(f);
            let ascii = vec!['a', 's', 'c', 'i', 'i'];
            let binary = vec!['b', 'i', 'n', 'a', 'r', 'y'];
            assert(ascii@ =~= seq!['a', 's', 'c', 'i', 'i']);
            assert(binary@ =~= seq!['b', 'i', 'n', 'a', 'r', 'y']);
            if same_chars(&v, &ascii) {
                Some(PlyEncoding::Ascii)
            } else if same_chars(&v, &binary) {
                Some(PlyEncoding::BinaryLittleEndian)
            } else {
                None
            }
        },
    }
}

} // verus!
