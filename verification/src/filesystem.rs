//! A model of paths and directory listings. A path is a string whose
//! components are separated by `/`. Its final component is what follows the
//! last separator once trailing separators are dropped, and `..` names no
//! file — as the host path API reads them. Reading the filesystem itself is
//! the caller's concern: listings are handed in as plain values.

use vstd::prelude::*;
use crate::strings::{str_eq, strs_view};

verus! {

/// The largest index at which `c` occurs in `s`, or -1 when it does not.
pub open spec fn last_index_of(s: Seq<char>, c: char) -> int
    decreases s.len(),
{
    if s.len() == 0 {
        -1
    } else if s.last() == c {
        s.len() - 1
    } else {
        last_index_of(s.drop_last(), c)
    }
}

/// `last_index_of` is within bounds, holds `c`, and nothing after it does.
pub proof fn lemma_last_index_of(s: Seq<char>, c: char)
    ensures
        -1 <= last_index_of(s, c) < s.len(),
        last_index_of(s, c) == -1 ==> forall|j: int| 0 <= j < s.len() ==> s[j] != c,
        last_index_of(s, c) >= 0 ==> s[last_index_of(s, c)] == c,
        forall|j: int| last_index_of(s, c) < j < s.len() ==> s[j] != c,
    decreases s.len(),
{
    if s.len() == 0 {
    } else if s.last() == c {
    } else {
        lemma_last_index_of(s.drop_last(), c);
        assert forall|j: int| 0 <= j < s.len() - 1 implies s.drop_last()[j] == s[j] by {}
    }
}

/// The largest character position at which `c` occurs in `s`, if any.
fn last_index_in(s: &str, c: char) -> (r: Option<usize>)
    ensures
        match r {
            Some(k) => k as int == last_index_of(s@, c),
            None => last_index_of(s@, c) == -1,
        },
{
    let n = s.unicode_len();
    let mut best: Option<usize> = None;
    let mut i: usize = 0;
    while i < n
        invariant
            n == s@.len(),
            i <= n,
            match best {
                Some(k) => k < i && s@[k as int] == c && forall|j: int| k < j < i ==> s@[j] != c,
                None => forall|j: int| 0 <= j < i ==> s@[j] != c,
            },
        decreases n - i,
    {
        if s.get_char(i) == c {
            best = Some(i);
        }
        i = i + 1;
    }
    proof {
        lemma_last_index_of(s@, c);
        let li = last_index_of(s@, c);
        match best {
            Some(k) => {
                assert(s@[k as int] == c);
                if li < k as int {
                    assert(s@[k as int] != c);
                }
                if li > k as int {
                    assert(s@[li] != c);
                }
            },
            None => {
                if li >= 0 {
                    assert(s@[li] != c);
                }
            },
        }
    }
    best
}

/// The path with its trailing separators removed.
pub open spec fn trim_slashes(p: Seq<char>) -> Seq<char>
    decreases p.len(),
{
    if p.len() > 0 && p.last() == '/' {
        trim_slashes(p.drop_last())
    } else {
        p
    }
}

/// `trim_slashes` keeps the longest prefix that does not end in a
/// separator; everything after it is separators.
pub proof fn lemma_trim_slashes(p: Seq<char>)
    ensures
        0 <= trim_slashes(p).len() <= p.len(),
        trim_slashes(p) == p.take(trim_slashes(p).len() as int),
        forall|j: int| trim_slashes(p).len() <= j < p.len() ==> p[j] == '/',
        trim_slashes(p).len() > 0 ==> p[trim_slashes(p).len() - 1] != '/',
    decreases p.len(),
{
    if p.len() > 0 && p.last() == '/' {
        lemma_trim_slashes(p.drop_last());
        let t = trim_slashes(p);
        assert(p.drop_last().take(t.len() as int) =~= p.take(t.len() as int));
        assert forall|j: int| t.len() <= j < p.len() implies p[j] == '/' by {
            if j < p.len() - 1 {
                assert(p.drop_last()[j] == '/');
            }
        }
        if t.len() > 0 {
            assert(p.drop_last()[t.len() - 1] != '/');
        }
    } else {
        assert(p.take(p.len() as int) =~= p);
    }
}

/// The trimmed path as a slice of the input.
fn trimmed(s: &str) -> (t: &str)
    ensures
        t@ == trim_slashes(s@),
{
    let n = s.unicode_len();
    let mut tn: usize = n;
    while tn > 0 && s.get_char(tn - 1) == '/'
        invariant
            n == s@.len(),
            tn <= n,
            forall|j: int| tn <= j < n ==> s@[j] == '/',
        decreases tn,
    {
        tn = tn - 1;
    }
    proof {
        lemma_trim_slashes(s@);
        let t = trim_slashes(s@);
        if t.len() < tn as int {
            assert(s@[tn - 1] == '/');
        }
        if t.len() > tn as int {
            assert(s@[t.len() - 1] == '/');
        }
        assert(t.len() == tn as int);
    }
    let t = s.substring_char(0, tn);
    proof {
        assert(t@ =~= trim_slashes(s@));
    }
    t
}

/// The final component of a path: what follows the last separator, once
/// trailing separators are dropped.
pub open spec fn file_name_part(p: Seq<char>) -> Seq<char> {
    let t = trim_slashes(p);
    t.subrange(last_index_of(t, '/') + 1, t.len() as int)
}

/// The final component, or `None` when there is none: when the path is
/// empty or all separators, or when the component is `..`.
pub open spec fn spec_file_name(p: Seq<char>) -> Option<Seq<char>> {
    if file_name_part(p).len() == 0 || file_name_part(p) == ".."@ {
        None
    } else {
        Some(file_name_part(p))
    }
}

/// The extension: the part of the final component after its last `.`,
/// absent when there is no final component, no `.`, or only a leading `.`.
pub open spec fn spec_extension(p: Seq<char>) -> Option<Seq<char>> {
    match spec_file_name(p) {
        None => None,
        Some(f) => {
            let j = last_index_of(f, '.');
            if j <= 0 {
                None
            } else {
                Some(f.subrange(j + 1, f.len() as int))
            }
        },
    }
}

/// The path and its parent directory both have a final component, and the
/// two are equal.
pub open spec fn spec_same_name_as_parent(p: Seq<char>) -> bool {
    let t = trim_slashes(p);
    let i = last_index_of(t, '/');
    &&& i >= 0
    &&& spec_file_name(p) is Some
    &&& spec_file_name(p) == spec_file_name(t.subrange(0, i))
}

/// The final path component as an owned string, `None` when there is none.
pub fn file_name(path: &str) -> (r: Option<String>)
    ensures
        crate::strings::opt_str_view(r) == spec_file_name(path@),
{
    let t = trimmed(path);
    let n = t.unicode_len();
    proof {
        lemma_last_index_of(t@, '/');
    }
    let start: usize = match last_index_in(t, '/') {
        None => 0,
        Some(k) => k + 1,
    };
    if start == n {
        proof {
            assert(file_name_part(path@) =~= Seq::<char>::empty());
        }
        None
    } else {
        let f = t.substring_char(start, n);
        proof {
            assert(f@ =~= file_name_part(path@));
        }
        if str_eq(f, "..") {
            None
        } else {
            Some(String::from_str(f))
        }
    }
}

/// The extension of the path's final component, as `spec_extension` gives
/// it.
pub fn extension(path: &str) -> (r: Option<String>)
    ensures
        crate::strings::opt_str_view(r) == spec_extension(path@),
{
    match file_name(path) {
        None => None,
        Some(f) => {
            let flen = f.as_str().unicode_len();
            proof {
                lemma_last_index_of(f@, '.');
            }
            match last_index_in(f.as_str(), '.') {
                None => None,
                Some(j) => {
                    if j == 0 {
                        None
                    } else {
                        let e = f.as_str().substring_char(j + 1, flen);
                        proof {
                            assert(e@ =~= f@.subrange(
                                last_index_of(f@, '.') + 1,
                                f@.len() as int,
                            ));
                        }
                        Some(String::from_str(e))
                    }
                },
            }
        },
    }
}

/// Checks whether the last two components of `filepath` are equal.
///
/// This is `false` when there is no parent directory, when the parent has
/// no final component (the parent of `/foo` is the root), or when the path
/// itself has none.
pub fn has_same_name_as_parent_dir(filepath: &str) -> (r: bool)
    ensures
        r == spec_same_name_as_parent(filepath@),
{
    let t = trimmed(filepath);
    proof {
        lemma_last_index_of(t@, '/');
    }
    match last_index_in(t, '/') {
        None => false,
        Some(k) => {
            let parent = t.substring_char(0, k);
            proof {
                assert(parent@ =~= trim_slashes(filepath@).subrange(
                    0,
                    last_index_of(trim_slashes(filepath@), '/'),
                ));
            }
            let f = file_name(filepath);
            let pf = file_name(parent);
            match (f, pf) {
                (Some(a), Some(b)) => str_eq(a.as_str(), b.as_str()),
                _ => false,
            }
        },
    }
}

/// One subdirectory of the catalog root together with its immediate
/// children, all as absolute paths, in the order the filesystem reported
/// them.
pub struct DirListing {
    pub path: String,
    pub children: Vec<String>,
}

/// The mathematical content of a `DirListing`.
pub struct DirListingView {
    pub path: Seq<char>,
    pub children: Seq<Seq<char>>,
}

impl View for DirListing {
    type V = DirListingView;

    open spec fn view(&self) -> DirListingView {
        DirListingView { path: self.path@, children: strs_view(self.children@) }
    }
}

/// The views of a sequence of directory listings.
pub open spec fn dirs_view(s: Seq<DirListing>) -> Seq<DirListingView> {
    s.map_values(|d: DirListing| d@)
}

} // verus!
