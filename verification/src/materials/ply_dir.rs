//! A directory of `.ply` files.

use vstd::prelude::*;
use crate::io::reader::{count_ply_files, file_name_of, path_file_name, ply_count};
use crate::text::{chars_le, chars_of, lemma_lex_le_total, lex_le};

verus! {

/// Whether the path at `i` comes no later than the next one.
pub open spec fn in_order_at(paths: Seq<String>, i: int) -> bool {
    lex_le(paths[i]@, paths[i + 1]@)
}

/// Whether the paths are sorted (in lexicographic order of their characters).
pub open spec fn sorted_paths(paths: Seq<String>) -> bool {
    forall|i: int| 0 <= i < paths.len() - 1 ==> #[trigger] in_order_at(paths, i)
}

/// The position at which `x` goes into the sorted `out`: the first entry that
/// comes strictly after `x`, or the end.
fn insertion_point(out: &Vec<String>, x: &String) -> (k: usize)
    ensures
        k <= out@.len(),
        k > 0 ==> lex_le(out@[k - 1]@, x@),
        k < out@.len() ==> !lex_le(out@[k as int]@, x@),
{
    let xc = chars_of(x.as_str());
    let mut k: usize = 0;
    while k < out.len()
        invariant_except_break
            k <= out@.len(),
            xc@ == x@,
            k > 0 ==> lex_le(out@[k - 1]@, x@),
        ensures
            k <= out@.len(),
            k > 0 ==> lex_le(out@[k - 1]@, x@),
            k < out@.len() ==> !lex_le(out@[k as int]@, x@),
        decreases out@.len() - k,
    {
        let oc = chars_of(out[k].as_str());
        if !chars_le(&oc, &xc) {
            break;
        }
        k = k + 1;
    }
    k
}

/// The paths in sorted order: the same paths, each as often as it was given.
/// Among the entries of one directory, which share the directory's prefix,
/// the order of characters is the order of paths.
fn sort_paths(paths: Vec<String>) -> (out: Vec<String>)
    ensures
        sorted_paths(out@),
        out@.to_multiset() == paths@.to_multiset(),
{
    broadcast use vstd::seq_lib::group_to_multiset_ensures;

    let ghost given = paths@;
    let mut rest = paths;
    let mut out: Vec<String> = Vec::new();
    while rest.len() > 0
        invariant
            sorted_paths(out@),
            out@.to_multiset().add(rest@.to_multiset()) == given.to_multiset(),
        decreases rest@.len(),
    {
        let ghost before = rest@;
        let x = rest.pop().unwrap();
        proof {
            assert(before =~= rest@.push(x));
        }
        let k = insertion_point(&out, &x);
        let ghost old_out = out@;
        out.insert(k, x);
        proof {
            vstd::seq_lib::to_multiset_insert(old_out, k as int, x);
            vstd::seq_lib::to_multiset_build(rest@, x);
            assert(out@.to_multiset().add(rest@.to_multiset()) =~= old_out.to_multiset().add(
                before.to_multiset(),
            ));
            assert forall|i: int| 0 <= i < out@.len() - 1 implies #[trigger] in_order_at(
                out@,
                i,
            ) by {
                if i + 1 < k {
                    assert(in_order_at(old_out, i));
                } else if i + 1 == k {
                } else if i == k {
                    lemma_lex_le_total(old_out[k as int]@, x@, 0);
                } else {
                    assert(in_order_at(old_out, i - 1));
                }
            }
        }
    }
    proof {
        vstd::multiset::lemma_multiset_empty_len(rest@.to_multiset());
        assert(out@.to_multiset().add(rest@.to_multiset()) =~= out@.to_multiset());
    }
    out
}

/// A directory and the paths of its entries, sorted.
pub struct PlyDir {
    title: String,
    paths: Vec<String>,
}

impl PlyDir {
    /// The directory's path.
    pub closed spec fn title(self) -> Seq<char> {
        self.title@
    }

    /// The paths of the entries.
    pub closed spec fn paths(self) -> Seq<String> {
        self.paths@
    }

    /// The directory `title` with the entries `paths`, which are kept sorted.
    pub fn new(title: String, paths: Vec<String>) -> (d: Self)
        ensures
            d.title() == title@,
            sorted_paths(d.paths()),
            d.paths().to_multiset() == paths@.to_multiset(),
    {
        PlyDir { title, paths: sort_paths(paths) }
    }

    /// The number of `.ply` files among the entries.
    pub fn count(&self) -> (n: usize)
        ensures
            n == ply_count(self.paths()),
    {
        count_ply_files(&self.paths)
    }

    /// The directory's own name: the final component of its path.
    pub fn get_title(&self) -> (t: Option<&str>)
        requires
            path_file_name(self.title()) is Some,
        ensures
            t matches Some(n) && path_file_name(self.title()) == Some(n@),
    {
        file_name_of(self.title.as_str())
    }

    /// The directory's own name, where its path has a final component; `None`
    /// where it has none (a path such as `/` or one ending in `..`).
    pub fn try_get_title(&self) -> (t: Option<&str>)
        ensures
            match t {
                Some(n) => path_file_name(self.title()) == Some(n@),
                None => path_file_name(self.title()) is None,
            },
    {
        match file_name_of(self.title.as_str()) {
            Some(_) => self.get_title(),
            None => None,
        }
    }

    /// The paths of the entries.
    pub fn get_paths(self) -> (p: Vec<String>)
        ensures
            p@ == self.paths(),
    {
        self.paths
    }
}

} // verus!
