//! Flattening an archive: which files inside an extracted tree count as
//! nested archives, and how the extraction roots are assembled.
//!
//! Opening and decompressing the archives is filesystem work and lives with
//! the caller; this module holds the decisions, on plain path strings.

use vstd::prelude::*;
use vstd::string::StrSliceExecFns;
use crate::merge::str_models;

verus! {

/// Why an archive could not be extracted.
#[derive(Debug)]
pub enum ModArchiveError {
    /// The archive container could not be opened or read.
    Zip(String),
    /// The path names a directory, not an archive file.
    NotFile(String),
    /// A filesystem fault during extraction.
    IO(String),
}

/// The index of the last `/`, or -1 when there is none.
pub open spec fn last_slash(p: Seq<char>) -> int
    decreases p.len(),
{
    if p.len() == 0 {
        -1
    } else if p.last() == '/' {
        p.len() - 1
    } else {
        last_slash(p.drop_last())
    }
}

proof fn lemma_last_slash_bounds(p: Seq<char>)
    ensures
        -1 <= last_slash(p) < p.len(),
    decreases p.len(),
{
    if p.len() > 0 && p.last() != '/' {
        lemma_last_slash_bounds(p.drop_last());
    }
}

/// The path's final component.
pub open spec fn file_name_of(p: Seq<char>) -> Seq<char> {
    p.skip(last_slash(p) + 1)
}

/// The characters of the nested archive suffix.
pub open spec fn jar_ext() -> Seq<char> {
    seq!['.', 'j', 'a', 'r']
}

/// The file name marks a nested archive: the suffix after a non-empty stem.
pub open spec fn is_jar_name(s: Seq<char>) -> bool {
    s.len() >= 5 && s.subrange(s.len() - 4, s.len() as int) == jar_ext()
}

/// The path names a nested archive.
pub open spec fn is_nested_archive_path(p: Seq<char>) -> bool {
    is_jar_name(file_name_of(p))
}

/// Whether the path names a nested archive: its final component ends in the
/// archive suffix after a non-empty stem.
pub fn is_nested_archive(p: &String) -> (r: bool)
    ensures
        r == is_nested_archive_path(p@),
{
    let n = p.as_str().unicode_len();
    let mut i: usize = 0;
    let mut start: usize = 0;
    proof {
        assert(p@.take(0) =~= Seq::<char>::empty());
    }
    while i < n
        invariant
            i <= n,
            n == p@.len(),
            start as int == last_slash(p@.take(i as int)) + 1,
        decreases n - i,
    {
        proof {
            assert(p@.take(i + 1).drop_last() =~= p@.take(i as int));
            assert(p@.take(i + 1).last() == p@[i as int]);
            lemma_last_slash_bounds(p@.take(i as int));
        }
        if p.as_str().get_char(i) == '/' {
            start = i + 1;
        }
        i = i + 1;
    }
    proof {
        assert(p@.take(n as int) =~= p@);
        lemma_last_slash_bounds(p@);
    }
    let ghost name = file_name_of(p@);
    proof {
        assert(name.len() == n - start);
        assert(forall|k: int| 0 <= k < name.len() ==> name[k] == p@[start + k]);
    }
    if n - start < 5 {
        return false;
    }
    let r = p.as_str().get_char(n - 4) == '.' && p.as_str().get_char(n - 3) == 'j' && p.as_str()
        .get_char(n - 2) == 'a' && p.as_str().get_char(n - 1) == 'r';
    proof {
        if r {
            assert(name.subrange(name.len() - 4, name.len() as int) =~= jar_ext());
        } else {
            if name.subrange(name.len() - 4, name.len() as int) == jar_ext() {
                assert(name.subrange(name.len() - 4, name.len() as int)[0] == '.');
                assert(name.subrange(name.len() - 4, name.len() as int)[1] == 'j');
                assert(name.subrange(name.len() - 4, name.len() as int)[2] == 'a');
                assert(name.subrange(name.len() - 4, name.len() as int)[3] == 'r');
            }
        }
    }
    r
}

/// Keeps the paths that name nested archives, in order.
pub fn nested_archive_paths(files: &Vec<String>) -> (r: Vec<String>)
    ensures
        str_models(r@) == str_models(files@).filter(|p: Seq<char>| is_nested_archive_path(p)),
{
    broadcast use vstd::seq::Seq::lemma_filter_push;

    let mut out: Vec<String> = Vec::new();
    let mut i: usize = 0;
    proof {
        assert(str_models(files@).take(0) =~= Seq::<Seq<char>>::empty());
        assert(Seq::<Seq<char>>::empty().filter(|p: Seq<char>| is_nested_archive_path(p)).len()
            == 0) by {
            Seq::<Seq<char>>::empty().lemma_all_neg_filter_empty(
                |p: Seq<char>| is_nested_archive_path(p),
            );
        }
        assert(str_models(out@) =~= str_models(files@).take(0).filter(
            |p: Seq<char>| is_nested_archive_path(p),
        ));
    }
    while i < files.len()
        invariant
            i <= files@.len(),
            str_models(out@) == str_models(files@).take(i as int).filter(
                |p: Seq<char>| is_nested_archive_path(p),
            ),
        decreases files@.len() - i,
    {
        proof {
            assert(str_models(files@)[i as int] == files@[i as int]@);
            assert(str_models(files@).take(i + 1) =~= str_models(files@).take(i as int).push(
                str_models(files@)[i as int],
            ));
            str_models(files@).take(i as int).lemma_filter_push(
                str_models(files@)[i as int],
                |p: Seq<char>| is_nested_archive_path(p),
            );
        }
        let ghost prev = out@;
        if is_nested_archive(&files[i]) {
            out.push(files[i].clone());
            proof {
                broadcast use vstd::seq::Seq::lemma_push_map_commute;

                assert(str_models(out@) =~= str_models(prev).push(files@[i as int]@));
            }
        }
        i = i + 1;
    }
    proof {
        assert(str_models(files@).take(files@.len() as int) =~= str_models(files@));
    }
    out
}

/// The successfully extracted roots, in order.
pub open spec fn kept_roots(rs: Seq<Option<Seq<char>>>) -> Seq<Seq<char>>
    decreases rs.len(),
{
    if rs.len() == 0 {
        Seq::empty()
    } else {
        match rs.last() {
            Some(p) => kept_roots(rs.drop_last()).push(p),
            None => kept_roots(rs.drop_last()),
        }
    }
}

/// The models of a list of extraction outcomes.
pub open spec fn opt_models(rs: Seq<Option<String>>) -> Seq<Option<Seq<char>>> {
    rs.map_values(
        |o: Option<String>|
            match o {
                Some(s) => Some(s@),
                None => None,
            },
    )
}

/// Assembles the extraction roots of one flattened archive: the nested
/// archives that extracted successfully, in order, then the archive's own
/// root last. A failed nested extraction contributes nothing.
pub fn flatten_roots(extracted: &Vec<Option<String>>, top: String) -> (r: Vec<String>)
    ensures
        str_models(r@) == kept_roots(opt_models(extracted@)).push(top@),
        r@.len() >= 1,
        r@[r@.len() - 1]@ == top@,
{
    let mut out: Vec<String> = Vec::new();
    let mut i: usize = 0;
    proof {
        assert(opt_models(extracted@).take(0) =~= Seq::<Option<Seq<char>>>::empty());
        assert(str_models(out@) =~= kept_roots(opt_models(extracted@).take(0)));
    }
    while i < extracted.len()
        invariant
            i <= extracted@.len(),
            str_models(out@) == kept_roots(opt_models(extracted@).take(i as int)),
        decreases extracted@.len() - i,
    {
        proof {
            assert(opt_models(extracted@)[i as int] == (match extracted@[i as int] {
                Some(s) => Some(s@),
                None => None,
            }));
            assert(opt_models(extracted@).take(i + 1).drop_last() =~= opt_models(
                extracted@,
            ).take(i as int));
            assert(opt_models(extracted@).take(i + 1).last() == opt_models(extracted@)[i as int]);
        }
        let ghost prev = out@;
        match &extracted[i] {
            Some(root) => {
                out.push(root.clone());
                proof {
                    broadcast use vstd::seq::Seq::lemma_push_map_commute;

                    assert(str_models(out@) =~= str_models(prev).push(extracted@[i as int]->0@));
                }
            },
            None => {},
        }
        i = i + 1;
    }
    proof {
        assert(opt_models(extracted@).take(extracted@.len() as int) =~= opt_models(extracted@));
    }
    let ghost prev = out@;
    out.push(top);
    proof {
        broadcast use vstd::seq::Seq::lemma_push_map_commute;

        assert(str_models(out@) =~= str_models(prev).push(top@));
        assert(out@[out@.len() - 1]@ == str_models(out@).last());
    }
    out
}

/// An archive whose nested archives all extract successfully yields one root
/// per nested archive; with the archive's own root that is one more than the
/// number of nested archives, and none is dropped.
pub proof fn lemma_flatten_complete(rs: Seq<Option<Seq<char>>>)
    requires
        forall|i: int| 0 <= i < rs.len() ==> rs[i] is Some,
    ensures
        kept_roots(rs).len() == rs.len(),
    decreases rs.len(),
{
    if rs.len() > 0 {
        assert(forall|i: int| 0 <= i < rs.len() - 1 ==> rs.drop_last()[i] == rs[i]);
        lemma_flatten_complete(rs.drop_last());
    }
}

} // verus!
