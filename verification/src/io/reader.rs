//! Which paths name `.ply` files, and which entries of a directory listing are
//! `.ply` files to convert.

use vstd::prelude::*;
use crate::text::{chars_of, string_of};

verus! {

/// Where the `/`-separated piece that ends at `end` starts: one past the last
/// `/` before `end` (0 when there is none).
pub open spec fn piece_start(p: Seq<char>, end: int) -> int
    decreases end,
{
    if end <= 0 {
        0
    } else if p[end - 1] == '/' {
        end
    } else {
        piece_start(p, end - 1)
    }
}

/// A piece starts at or before where it ends.
pub proof fn lemma_piece_start(p: Seq<char>, end: int)
    requires
        0 <= end,
    ensures
        0 <= piece_start(p, end) <= end,
    decreases end,
{
    if end > 0 && p[end - 1] != '/' {
        lemma_piece_start(p, end - 1);
    }
}

/// The last `/`-separated piece of `p[..end]` that is neither empty nor `.`
/// (repeated separators and `.` components do not count as components).
pub open spec fn last_piece(p: Seq<char>, end: int) -> Option<Seq<char>>
    decreases end,
{
    if end <= 0 {
        None
    } else {
        let start = piece_start(p, end);
        let piece = p.subrange(start, end);
        if piece.len() == 0 || piece == seq!['.'] {
            if start <= 0 {
                None
            } else {
                proof {
                    lemma_piece_start(p, end);
                }
                last_piece(p, start - 1)
            }
        } else {
            Some(piece)
        }
    }
}

/// The final component of a path with `/` separators: its last piece that is
/// neither empty nor `.`; `None` when there is none (as for `/`, `.`, or the
/// empty path) or when it is `..`.
pub open spec fn path_file_name(p: Seq<char>) -> Option<Seq<char>> {
    match last_piece(p, p.len() as int) {
        Some(piece) => if piece == seq!['.', '.'] {
            None
        } else {
            Some(piece)
        },
        None => None,
    }
}

/// The final component of the path `p` (`std::path::Path::file_name`, on a
/// platform whose separator is `/`): see `path_file_name`.
#[verifier::external_body]
pub(crate) fn file_name_of(p: &str) -> (r: Option<&str>)
    ensures
        match r {
            Some(n) => path_file_name(p@) == Some(n@),
            None => path_file_name(p@) is None,
        },
{
    match std::path::Path::new(p).file_name() {
        Some(n) => n.to_str(),
        None => None,
    }
}

/// The index of the last `.` of `s` before `end` (-1 when there is none).
pub open spec fn last_dot(s: Seq<char>, end: int) -> int
    decreases end,
{
    if end <= 0 {
        -1
    } else if s[end - 1] == '.' {
        end - 1
    } else {
        last_dot(s, end - 1)
    }
}

/// The extension of a file name, as `Path::extension` documents it: what follows
/// the final `.`; none when there is no `.`, or when the only `.` starts the name.
pub open spec fn extension_of_name(name: Seq<char>) -> Option<Seq<char>> {
    let d = last_dot(name, name.len() as int);
    if d <= 0 {
        None
    } else {
        Some(name.subrange(d + 1, name.len() as int))
    }
}

/// The extension of a path.
pub open spec fn path_extension(p: Seq<char>) -> Option<Seq<char>> {
    match path_file_name(p) {
        Some(name) => extension_of_name(name),
        None => None,
    }
}

/// Whether a path names a `.ply` file: its extension is exactly `ply`.
pub open spec fn is_ply_path(p: Seq<char>) -> bool {
    path_extension(p) == Some(seq!['p', 'l', 'y'])
}

proof fn lemma_last_dot(s: Seq<char>, end: int)
    requires
        0 <= end <= s.len(),
    ensures
        -1 <= last_dot(s, end) < end,
        last_dot(s, end) >= 0 ==> s[last_dot(s, end)] == '.',
    decreases end,
{
    if end > 0 && s[end - 1] != '.' {
        lemma_last_dot(s, end - 1);
    }
}

/// Whether the extension of the file name `name` is `ext`.
fn name_has_extension(name: &Vec<char>, ext: &Vec<char>) -> (b: bool)
    ensures
        b == (extension_of_name(name@) == Some(ext@)),
{
    let mut d = name.len();
    proof {
        lemma_last_dot(name@, name@.len() as int);
    }
    while d > 0 && name[d - 1] != '.'
        invariant
            d <= name@.len(),
            last_dot(name@, d as int) == last_dot(name@, name@.len() as int),
        decreases d,
    {
        d = d - 1;
    }
    // here d - 1 is the last dot (or d == 0 when there is none)
    assert(d > 0 ==> last_dot(name@, d as int) == d - 1);
    if d <= 1 {
        return false;
    }
    let start = d;
    assert(last_dot(name@, name@.len() as int) == start - 1);
    if name.len() - start != ext.len() {
        assert(name@.subrange(start as int, name@.len() as int).len() != ext@.len());
        return false;
    }
    let mut i: usize = 0;
    while i < ext.len()
        invariant
            start + ext@.len() == name@.len(),
            start <= name@.len(),
            start >= 2,
            name@.len() <= usize::MAX,
            last_dot(name@, name@.len() as int) == start - 1,
            i <= ext@.len(),
            forall|k: int| 0 <= k < i ==> name@[start + k] == ext@[k],
        decreases ext.len() - i,
    {
        if name[start + i] != ext[i] {
            assert(name@.subrange(start as int, name@.len() as int)[i as int] != ext@[i as int]);
            return false;
        }
        i = i + 1;
    }
    assert(name@.subrange(start as int, name@.len() as int) =~= ext@);
    true
}

/// Whether `path` names a `.ply` file.
pub fn is_ply_file(path: &str) -> (b: bool)
    ensures
        b == is_ply_path(path@),
{
    match file_name_of(path) {
        None => false,
        Some(name) => {
            let n = chars_of(name);
            let ext = vec!['p', 'l', 'y'];
            assert(ext@ =~= seq!['p', 'l', 'y']);
            name_has_extension(&n, &ext)
        },
    }
}

/// Whether `path` has the extension `ext`.
pub fn has_extension(path: &str, ext: &Vec<char>) -> (b: bool)
    ensures
        b == (path_extension(path@) == Some(ext@)),
{
    match file_name_of(path) {
        None => false,
        Some(name) => {
            let n = chars_of(name);
            name_has_extension(&n, ext)
        },
    }
}

/// The stem of a file name, as `Path::file_stem` documents it: what comes
/// before the final `.`; the whole name when there is no `.`, or when the only
/// `.` starts the name.
pub open spec fn stem_of_name(name: Seq<char>) -> Seq<char> {
    let d = last_dot(name, name.len() as int);
    if d <= 0 {
        name
    } else {
        name.subrange(0, d)
    }
}

/// The name under which a converted file is written: the input's file name
/// with its extension replaced by `ply` (added where it has none); `None`
/// where the path has no file name.
pub open spec fn ply_output_name_of(p: Seq<char>) -> Option<Seq<char>> {
    match path_file_name(p) {
        Some(name) => Some(stem_of_name(name) + seq!['.', 'p', 'l', 'y']),
        None => None,
    }
}

/// The name under which the file at `path` is written once converted to
/// `.ply` (see `ply_output_name_of`).
pub fn ply_output_name(path: &str) -> (r: Option<String>)
    ensures
        match r {
            Some(n) => ply_output_name_of(path@) == Some(n@),
            None => ply_output_name_of(path@) is None,
        },
{
    let name = match file_name_of(path) {
        Some(name) => chars_of(name),
        None => {
            return None;
        },
    };
    let mut d = name.len();
    proof {
        lemma_last_dot(name@, name@.len() as int);
    }
    while d > 0 && name[d - 1] != '.'
        invariant
            d <= name@.len(),
            last_dot(name@, d as int) == last_dot(name@, name@.len() as int),
        decreases d,
    {
        d = d - 1;
    }
    assert(d > 0 ==> last_dot(name@, d as int) == d - 1);
    // the stem ends before the last dot, unless that dot starts the name
    let stem_len = if d <= 1 { name.len() } else { d - 1 };
    let mut out: Vec<char> = Vec::new();
    let mut i: usize = 0;
    while i < stem_len
        invariant
            stem_len <= name@.len(),
            i <= stem_len,
            out@ == name@.subrange(0, i as int),
        decreases stem_len - i,
    {
        out.push(name[i]);
        i = i + 1;
    }
    out.push('.');
    out.push('p');
    out.push('l');
    out.push('y');
    assert(name@.subrange(0, name@.len() as int) =~= name@);
    assert(out@ =~= stem_of_name(name@) + seq!['.', 'p', 'l', 'y']);
    Some(string_of(&out))
}

/// An entry of a directory listing: its path, and whether it is a regular file.
pub struct DirEntryInfo {
    pub path: String,
    pub is_file: bool,
}

/// The paths of the entries that are regular files with the extension `ply`, in order.
pub open spec fn ply_files(entries: Seq<DirEntryInfo>) -> Seq<Seq<char>>
    decreases entries.len(),
{
    if entries.len() == 0 {
        Seq::empty()
    } else {
        let rest = ply_files(entries.drop_last());
        let e = entries.last();
        if e.is_file && is_ply_path(e.path@) {
            rest.push(e.path@)
        } else {
            rest
        }
    }
}

/// The `.ply` files of a directory listing (subdirectories are not searched).
pub fn expand_directory(entries: &Vec<DirEntryInfo>) -> (files: Vec<String>)
    ensures
        files@.map_values(|s: String| s@) == ply_files(entries@),
{
    let mut files: Vec<String> = Vec::new();
    let mut i: usize = 0;
    while i < entries.len()
        invariant
            i <= entries@.len(),
            files@.map_values(|s: String| s@) == ply_files(entries@.subrange(0, i as int)),
        decreases entries.len() - i,
    {
        let e = &entries[i];
        assert(entries@.subrange(0, i + 1).drop_last() =~= entries@.subrange(0, i as int));
        if e.is_file && is_ply_file(e.path.as_str()) {
            let p = e.path.clone();
            let ghost before = files@;
            files.push(p);
            assert(files@.map_values(|s: String| s@) =~= before.map_values(|s: String| s@).push(p@));
        }
        i = i + 1;
    }
    assert(entries@.subrange(0, i as int) =~= entries@);
    files
}

/// A path given to the conversion: the path, and the entries of the directory
/// it names (`None` when it names no directory).
pub struct InputPath {
    pub path: String,
    pub listing: Option<Vec<DirEntryInfo>>,
}

/// The files to convert: for a directory, its `.ply` files; for another path,
/// the path itself when it names a `.ply` file; in the order given.
pub open spec fn files_to_convert(inputs: Seq<InputPath>) -> Seq<Seq<char>>
    decreases inputs.len(),
{
    if inputs.len() == 0 {
        Seq::empty()
    } else {
        let rest = files_to_convert(inputs.drop_last());
        let last = inputs.last();
        match last.listing {
            Some(entries) => rest + ply_files(entries@),
            None => if is_ply_path(last.path@) {
                rest.push(last.path@)
            } else {
                rest
            },
        }
    }
}

/// The `.ply` files to convert among the paths given (see `files_to_convert`).
pub fn filter_for_ply_files(inputs: &Vec<InputPath>) -> (files: Vec<String>)
    ensures
        files@.map_values(|s: String| s@) == files_to_convert(inputs@),
{
    let mut files: Vec<String> = Vec::new();
    let mut i: usize = 0;
    while i < inputs.len()
        invariant
            i <= inputs@.len(),
            files@.map_values(|s: String| s@) == files_to_convert(inputs@.subrange(0, i as int)),
        decreases inputs.len() - i,
    {
        let input = &inputs[i];
        assert(inputs@.subrange(0, i + 1).drop_last() =~= inputs@.subrange(0, i as int));
        match &input.listing {
            Some(entries) => {
                let found = expand_directory(entries);
                let ghost before = files@.map_values(|s: String| s@);
                let mut k: usize = 0;
                while k < found.len()
                    invariant
                        k <= found@.len(),
                        files@.map_values(|s: String| s@) == before + found@.map_values(
                            |s: String| s@,
                        ).subrange(0, k as int),
                    decreases found.len() - k,
                {
                    let ghost prev = files@;
                    files.push(found[k].clone());
                    assert(files@.map_values(|s: String| s@) =~= prev.map_values(|s: String| s@).push(
                        found@[k as int]@,
                    ));
                    assert(found@.map_values(|s: String| s@).subrange(0, k + 1) =~= found@.map_values(
                        |s: String| s@,
                    ).subrange(0, k as int).push(found@[k as int]@));
                    k = k + 1;
                }
                assert(found@.map_values(|s: String| s@).subrange(0, k as int) =~= found@.map_values(
                    |s: String| s@,
                ));
            },
            None => {
                if is_ply_file(input.path.as_str()) {
                    let ghost prev = files@;
                    files.push(input.path.clone());
                    assert(files@.map_values(|s: String| s@) =~= prev.map_values(|s: String| s@).push(
                        input.path@,
                    ));
                }
            },
        }
        i = i + 1;
    }
    assert(inputs@.subrange(0, i as int) =~= inputs@);
    files
}

/// The number of paths that name `.ply` files.
pub open spec fn ply_count(paths: Seq<String>) -> nat
    decreases paths.len(),
{
    if paths.len() == 0 {
        0
    } else {
        ply_count(paths.drop_last()) + if is_ply_path(paths.last()@) {
            1nat
        } else {
            0nat
        }
    }
}

/// The number of paths that name `.ply` files (see `ply_count`).
pub fn count_ply_files(paths: &Vec<String>) -> (n: usize)
    ensures
        n == ply_count(paths@),
{
    let mut n: usize = 0;
    let mut i: usize = 0;
    while i < paths.len()
        invariant
            i <= paths@.len(),
            n <= i,
            n == ply_count(paths@.subrange(0, i as int)),
        decreases paths.len() - i,
    {
        assert(paths@.subrange(0, i + 1).drop_last() =~= paths@.subrange(0, i as int));
        if is_ply_file(paths[i].as_str()) {
            n = n + 1;
        }
        i = i + 1;
    }
    assert(paths@.subrange(0, i as int) =~= paths@);
    n
}

} // verus!
