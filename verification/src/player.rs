//! Decisions of the players that do not depend on the screen: whether a source
//! is remote, and which point-cloud format a directory holds.

use vstd::prelude::*;
use crate::text::{chars_of, chars_at, occurs_at, same_chars, starts_with, string_of};
use crate::io::reader::{has_extension, path_extension};

verus! {

pub open spec fn http_prefix() -> Seq<char> {
    seq!['h', 't', 't', 'p', ':', '/', '/']
}

pub open spec fn https_prefix() -> Seq<char> {
    seq!['h', 't', 't', 'p', 's', ':', '/', '/']
}

/// Whether the source is remote: it starts with `http://` or `https://`.
pub fn is_remote_src(src: &str) -> (b: bool)
    ensures
        b == (starts_with(src@, http_prefix()) || starts_with(src@, https_prefix())),
{
    let s = chars_of(src);
    let http = vec!['h', 't', 't', 'p', ':', '/', '/'];
    let https = vec!['h', 't', 't', 'p', 's', ':', '/', '/'];
    assert(http@ =~= http_prefix());
    assert(https@ =~= https_prefix());
    chars_at(&s, &http, 0) || chars_at(&s, &https, 0)
}

pub open spec fn pcd_name() -> Seq<char> {
    seq!['p', 'c', 'd']
}

pub open spec fn ply_name() -> Seq<char> {
    seq!['p', 'l', 'y']
}

pub open spec fn bin_name() -> Seq<char> {
    seq!['b', 'i', 'n']
}

pub open spec fn http_name() -> Seq<char> {
    seq!['h', 't', 't', 'p']
}

/// The number of paths whose extension is `ext`.
pub open spec fn count_extension(paths: Seq<String>, ext: Seq<char>) -> nat
    decreases paths.len(),
{
    if paths.len() == 0 {
        0
    } else {
        count_extension(paths.drop_last(), ext) + if path_extension(paths.last()@) == Some(ext) {
            1nat
        } else {
            0nat
        }
    }
}

/// The format that most paths have among `pcd`, `ply` and `bin`; on a tie, the
/// later of these three.
pub open spec fn majority_format(pcd: nat, ply: nat, bin: nat) -> Seq<char> {
    if bin >= pcd && bin >= ply {
        bin_name()
    } else if ply >= pcd {
        ply_name()
    } else {
        pcd_name()
    }
}

/// The format to play: the source itself when it names one of `pcd`, `ply`,
/// `bin`, `http`; otherwise the format of most of the directory's entries.
pub open spec fn inferred_format(src: Seq<char>, entries: Seq<String>) -> Seq<char> {
    if src == pcd_name() || src == ply_name() || src == bin_name() || src == http_name() {
        src
    } else {
        majority_format(
            count_extension(entries, pcd_name()),
            count_extension(entries, ply_name()),
            count_extension(entries, bin_name()),
        )
    }
}

/// The format inferred from a directory is a most frequent one among `pcd`,
/// `ply` and `bin`: no other of the three is found on more entries, and a tie
/// goes to the later of `pcd`, `ply`, `bin`.
pub proof fn lemma_inferred_format_is_most_frequent(src: Seq<char>, entries: Seq<String>)
    requires
        src != pcd_name(),
        src != ply_name(),
        src != bin_name(),
        src != http_name(),
    ensures
        ({
            let f = inferred_format(src, entries);
            let pcd = count_extension(entries, pcd_name());
            let ply = count_extension(entries, ply_name());
            let bin = count_extension(entries, bin_name());
            &&& f == pcd_name() || f == ply_name() || f == bin_name()
            &&& f == pcd_name() ==> pcd > ply && pcd > bin
            &&& f == ply_name() ==> ply >= pcd && ply > bin
            &&& f == bin_name() ==> bin >= pcd && bin >= ply
        }),
{
    assert(pcd_name()[0] != bin_name()[0]);
    assert(ply_name()[0] != bin_name()[0]);
    assert(pcd_name()[1] != ply_name()[1]);
}

/// The number of paths with extension `ext`.
fn count_with_extension(paths: &Vec<String>, ext: &Vec<char>) -> (n: usize)
    ensures
        n == count_extension(paths@, ext@),
{
    let mut n: usize = 0;
    let mut i: usize = 0;
    while i < paths.len()
        invariant
            i <= paths@.len(),
            n <= i,
            n == count_extension(paths@.subrange(0, i as int), ext@),
        decreases paths.len() - i,
    {
        assert(paths@.subrange(0, i + 1).drop_last() =~= paths@.subrange(0, i as int));
        if has_extension(paths[i].as_str(), ext) {
            n = n + 1;
        }
        i = i + 1;
    }
    assert(paths@.subrange(0, i as int) =~= paths@);
    n
}

/// The format to play from `src`, given the paths of the entries of the
/// directory `src` (when it is one).
pub fn infer_format(src: &str, entries: &Vec<String>) -> (f: String)
    ensures
        f@ == inferred_format(src@, entries@),
{
    let s = chars_of(src);
    let pcd = vec!['p', 'c', 'd'];
    let ply = vec!['p', 'l', 'y'];
    let bin = vec!['b', 'i', 'n'];
    let http = vec!['h', 't', 't', 'p'];
    assert(pcd@ =~= pcd_name());
    assert(ply@ =~= ply_name());
    assert(bin@ =~= bin_name());
    assert(http@ =~= http_name());
    if same_chars(&s, &pcd) || same_chars(&s, &ply) || same_chars(&s, &bin) || same_chars(&s, &http) {
        return string_of(&s);
    }
    let n_pcd = count_with_extension(entries, &pcd);
    let n_ply = count_with_extension(entries, &ply);
    let n_bin = count_with_extension(entries, &bin);
    if n_bin >= n_pcd && n_bin >= n_ply {
        string_of(&bin)
    } else if n_ply >= n_pcd {
        string_of(&ply)
    } else {
        string_of(&pcd)
    }
}

/// The format to play from a directory: `pcd` when more entries are `.pcd`
/// than `.ply` files, `ply` otherwise.
pub fn infer_play_format(entries: &Vec<String>) -> (f: String)
    ensures
        f@ == (if count_extension(entries@, pcd_name()) > count_extension(entries@, ply_name()) {
            pcd_name()
        } else {
            ply_name()
        }),
{
    let pcd = vec!['p', 'c', 'd'];
    let ply = vec!['p', 'l', 'y'];
    assert(pcd@ =~= pcd_name());
    assert(ply@ =~= ply_name());
    let n_pcd = count_with_extension(entries, &pcd);
    let n_ply = count_with_extension(entries, &ply);
    if n_pcd > n_ply {
        string_of(&pcd)
    } else {
        string_of(&ply)
    }
}

} // verus!
