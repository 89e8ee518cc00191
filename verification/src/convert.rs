//! The output formats of the conversion command.

use vstd::prelude::*;
use crate::text::{chars_of, extend_chars, same_chars, string_of};

verus! {

/// A format that point clouds can be converted to.
#[derive(Debug, Clone, Copy, PartialEq, Eq, Structural)]
pub enum ConvertOutputFormat {
    PLY,
    PCD,
    PNG,
    MP4,
}

/// The name of a format: its file extension.
pub open spec fn format_name(f: ConvertOutputFormat) -> Seq<char> {
    match f {
        ConvertOutputFormat::PLY => seq!['p', 'l', 'y'],
        ConvertOutputFormat::PCD => seq!['p', 'c', 'd'],
        ConvertOutputFormat::PNG => seq!['p', 'n', 'g'],
        ConvertOutputFormat::MP4 => seq!['m', 'p', '4'],
    }
}

/// The format named `s`, if any.
pub open spec fn format_named(s: Seq<char>) -> Option<ConvertOutputFormat> {
    if s == format_name(ConvertOutputFormat::PLY) {
        Some(ConvertOutputFormat::PLY)
    } else if s == format_name(ConvertOutputFormat::PCD) {
        Some(ConvertOutputFormat::PCD)
    } else if s == format_name(ConvertOutputFormat::PNG) {
        Some(ConvertOutputFormat::PNG)
    } else if s == format_name(ConvertOutputFormat::MP4) {
        Some(ConvertOutputFormat::MP4)
    } else {
        None
    }
}

/// What follows the text in the message for a name that is no format.
pub open spec fn not_a_format() -> Seq<char> {
    seq![
        ' ', 'i', 's', ' ', 'n', 'o', 't', ' ', 'a', ' ', 'v', 'a', 'l', 'i', 'd', ' ', 'o', 'u',
        't', 'p', 'u', 't', ' ', 'f', 'o', 'r', 'm', 'a', 't',
    ]
}

fn name_chars(f: ConvertOutputFormat) -> (v: Vec<char>)
    ensures
        v@ == format_name(f),
{
    let v = match f {
        ConvertOutputFormat::PLY => vec!['p', 'l', 'y'],
        ConvertOutputFormat::PCD => vec!['p', 'c', 'd'],
        ConvertOutputFormat::PNG => vec!['p', 'n', 'g'],
        ConvertOutputFormat::MP4 => vec!['m', 'p', '4'],
    };
    assert(v@ =~= format_name(f));
    v
}

impl ConvertOutputFormat {
    /// The format's name (its file extension).
    pub fn to_string(&self) -> (s: String)
        ensures
            s@ == format_name(*self),
    {
        string_of(&name_chars(*self))
    }

    /// The format named `s`; for any other text, the message
    /// `<s> is not a valid output format`.
    pub fn from_str(s: &str) -> (r: Result<ConvertOutputFormat, String>)
        ensures
            match r {
                Ok(f) => format_named(s@) == Some(f),
                Err(m) => format_named(s@) is None && m@ == s@ + not_a_format(),
            },
    {
        let v = chars_of(s);
        if same_chars(&v, &name_chars(ConvertOutputFormat::PLY)) {
            return Ok(ConvertOutputFormat::PLY);
        }
        if same_chars(&v, &name_chars(ConvertOutputFormat::PCD)) {
            return Ok(ConvertOutputFormat::PCD);
        }
        if same_chars(&v, &name_chars(ConvertOutputFormat::PNG)) {
            return Ok(ConvertOutputFormat::PNG);
        }
        if same_chars(&v, &name_chars(ConvertOutputFormat::MP4)) {
            return Ok(ConvertOutputFormat::MP4);
        }
        let mut message = v;
        let tail = vec![
            ' ', 'i', 's', ' ', 'n', 'o', 't', ' ', 'a', ' ', 'v', 'a', 'l', 'i', 'd', ' ', 'o',
            'u', 't', 'p', 'u', 't', ' ', 'f', 'o', 'r', 'm', 'a', 't',
        ];
        assert(tail@ =~= not_a_format());
        extend_chars(&mut message, &tail);
        Err(string_of(&message))
    }
}

/// Reading a format back from its name gives the format.
pub proof fn lemma_format_name_round_trip(f: ConvertOutputFormat)
    ensures
        format_named(format_name(f)) == Some(f),
{
    lemma_names_differ();
}

proof fn lemma_names_differ()
    ensures
        format_name(ConvertOutputFormat::PLY) != format_name(ConvertOutputFormat::PCD),
        format_name(ConvertOutputFormat::PLY) != format_name(ConvertOutputFormat::PNG),
        format_name(ConvertOutputFormat::PLY) != format_name(ConvertOutputFormat::MP4),
        format_name(ConvertOutputFormat::PCD) != format_name(ConvertOutputFormat::PNG),
        format_name(ConvertOutputFormat::PCD) != format_name(ConvertOutputFormat::MP4),
        format_name(ConvertOutputFormat::PNG) != format_name(ConvertOutputFormat::MP4),
{
    assert(format_name(ConvertOutputFormat::PLY)[1] != format_name(ConvertOutputFormat::PCD)[1]);
    assert(format_name(ConvertOutputFormat::PLY)[1] != format_name(ConvertOutputFormat::PNG)[1]);
    assert(format_name(ConvertOutputFormat::PLY)[0] != format_name(ConvertOutputFormat::MP4)[0]);
    assert(format_name(ConvertOutputFormat::PCD)[1] != format_name(ConvertOutputFormat::PNG)[1]);
    assert(format_name(ConvertOutputFormat::PCD)[0] != format_name(ConvertOutputFormat::MP4)[0]);
    assert(format_name(ConvertOutputFormat::PNG)[0] != format_name(ConvertOutputFormat::MP4)[0]);
}

} // verus!
