//! What extraction decides for each entry of an archive: where it is written,
//! or that it is skipped. Every archive holds one wrapper directory at its
//! top; the entries are written without it. Paths are bytes, as an archive
//! holds them, with `/` between their components. The archive is read and
//! the files are written by the caller, entry by entry.

use crate::fetch::FetchError;
use vstd::prelude::*;
use vstd::slice::{slice_subrange, slice_to_vec};

verus! {

/// The separator of path components, `/`.
pub const SLASH: u8 = 47;

/// The first index at or after `from` that holds a `/` (if `slash` is not
/// set) or another byte (if it is); the length of `p` if there is none.
pub open spec fn skip_while(p: Seq<u8>, from: int, slash: bool) -> int
    decreases p.len() - from,
{
    if from < 0 || from >= p.len() {
        p.len() as int
    } else if (p[from] == SLASH) != slash {
        from
    } else {
        skip_while(p, from + 1, slash)
    }
}

/// Where the path of an entry goes on without its first component: behind
/// the component and the separators that follow it.
pub open spec fn rest_start(p: Seq<u8>) -> int {
    skip_while(p, skip_while(p, 0, false), true)
}

/// The path of an entry without its first component; nothing where no path
/// is left, as for the wrapper directory itself and for the empty path.
pub open spec fn stripped(p: Seq<u8>) -> Option<Seq<u8>> {
    if rest_start(p) < p.len() {
        Some(p.subrange(rest_start(p), p.len() as int))
    } else {
        None
    }
}

/// `dest` and `rest` as one path: with a `/` between them unless `dest` is
/// empty or ends with one.
pub open spec fn joined(dest: Seq<u8>, rest: Seq<u8>) -> Seq<u8> {
    if dest.len() == 0 || dest.last() == SLASH {
        dest + rest
    } else {
        dest + seq![SLASH] + rest
    }
}

/// Where an entry is written under `dest`; nothing where it is skipped.
pub open spec fn target_spec(dest: Seq<u8>, p: Seq<u8>) -> Option<Seq<u8>> {
    match stripped(p) {
        Some(rest) => Some(joined(dest, rest)),
        None => None,
    }
}

/// The bytes of a path that may be missing.
pub open spec fn bytes_of(path: Option<Vec<u8>>) -> Option<Seq<u8>> {
    match path {
        Some(p) => Some(p@),
        None => None,
    }
}

/// The bytes of a list of paths.
pub open spec fn paths_of(v: Seq<Vec<u8>>) -> Seq<Seq<u8>> {
    Seq::new(v.len(), |i: int| v[i]@)
}

/// `n + 1`, as far as the counter reaches.
pub open spec fn bumped(n: u64) -> u64 {
    if n < u64::MAX {
        (n + 1) as u64
    } else {
        n
    }
}

/// Where the bytes from `from` up to `r` are all separators (or all none) and
/// the one at `r` is not, the skipping from `from` ends at `r`.
pub proof fn lemma_skip_while_ends_at(p: Seq<u8>, from: int, slash: bool, r: int)
    requires
        0 <= from <= r <= p.len(),
        forall|i: int| from <= i < r ==> (#[trigger] p[i] == SLASH) == slash,
        r < p.len() ==> (p[r] == SLASH) != slash,
    ensures
        skip_while(p, from, slash) == r,
    decreases r - from,
{
    if from < r {
        lemma_skip_while_ends_at(p, from + 1, slash, r);
    }
}

fn skip_from(v: &[u8], from: usize, slash: bool) -> (r: usize)
    requires
        from <= v.len(),
    ensures
        r == skip_while(v@, from as int, slash),
        from <= r <= v.len(),
{
    let mut i = from;
    while i < v.len() && (v[i] == SLASH) == slash
        invariant
            from <= i <= v.len(),
            skip_while(v@, i as int, slash) == skip_while(v@, from as int, slash),
        decreases v.len() - i,
    {
        i += 1;
    }
    i
}

/// The path of an entry without the wrapper directory.
pub fn strip_wrapper(path: &[u8]) -> (r: Option<Vec<u8>>)
    ensures
        bytes_of(r) == stripped(path@),
{
    let first_end = skip_from(path, 0, false);
    let start = skip_from(path, first_end, true);
    if start < path.len() {
        Some(slice_to_vec(slice_subrange(path, start, path.len())))
    } else {
        None
    }
}

/// `dest` and `rest` as one path.
pub fn join_path(dest: &[u8], rest: &[u8]) -> (r: Vec<u8>)
    ensures
        r@ == joined(dest@, rest@),
{
    let mut r = slice_to_vec(dest);
    if dest.len() > 0 && dest[dest.len() - 1] != SLASH {
        r.push(SLASH);
    }
    let ghost head = r@;
    let mut i: usize = 0;
    while i < rest.len()
        invariant
            i <= rest.len(),
            r@ == head + rest@.take(i as int),
        decreases rest.len() - i,
    {
        r.push(rest[i]);
        assert(rest@.take(i + 1) =~= rest@.take(i as int).push(rest@[i as int]));
        i += 1;
    }
    assert(rest@.take(rest@.len() as int) =~= rest@);
    r
}

/// An entry that is to be written.
#[derive(Debug, Clone, PartialEq, Eq)]
pub struct Target {
    /// The path of the entry without the wrapper directory.
    pub relative: Vec<u8>,
    /// The path that the entry is written to.
    pub full: Vec<u8>,
}

/// What an extraction wrote and what it passed over.
#[derive(Debug, Clone, PartialEq, Eq)]
pub struct Unpacked {
    /// The relative paths of the entries written, in the order of the archive.
    pub paths: Vec<Vec<u8>>,
    /// How many entries were skipped.
    pub skipped: u64,
}

/// The state of an extraction: what was written so far, and how many entries
/// were skipped. One bad entry does not end the extraction.
pub struct Extraction {
    dest: Vec<u8>,
    written: Vec<Vec<u8>>,
    skipped: u64,
}

impl Extraction {
    /// The directory that the entries are written under.
    pub closed spec fn dest(&self) -> Seq<u8> {
        self.dest@
    }

    /// The relative paths written so far, in order.
    pub closed spec fn written(&self) -> Seq<Seq<u8>> {
        paths_of(self.written@)
    }

    /// How many entries were skipped so far.
    pub closed spec fn skipped(&self) -> u64 {
        self.skipped
    }

    /// An extraction into `dest` that has seen no entry yet.
    pub fn new(dest: &[u8]) -> (e: Extraction)
        ensures
            e.dest() == dest@,
            e.written() == Seq::<Seq<u8>>::empty(),
            e.skipped() == 0,
    {
        let e = Extraction { dest: slice_to_vec(dest), written: Vec::new(), skipped: 0 };
        assert(paths_of(e.written@) =~= Seq::<Seq<u8>>::empty());
        e
    }

    /// Decides on the next entry, by its path (`None` where the archive gave
    /// none): where it is written, or, counted as skipped, that it is not.
    pub fn next_target(&mut self, path: Option<&[u8]>) -> (t: Option<Target>)
        ensures
            final(self).dest() == old(self).dest(),
            final(self).written() == old(self).written(),
            match path {
                Some(p) => match t {
                    Some(target) => stripped(p@) == Some(target.relative@) && Some(target.full@)
                        == target_spec(old(self).dest(), p@),
                    None => stripped(p@) is None,
                },
                None => t is None,
            },
            final(self).skipped() == if t is None {
                bumped(old(self).skipped())
            } else {
                old(self).skipped()
            },
    {
        let relative = match path {
            Some(p) => strip_wrapper(p),
            None => None,
        };
        match relative {
            Some(relative) => {
                let full = join_path(self.dest.as_slice(), relative.as_slice());
                Some(Target { relative, full })
            },
            None => {
                if self.skipped < u64::MAX {
                    self.skipped = self.skipped + 1;
                }
                None
            },
        }
    }

    /// Records how the writing of an entry ended: it is listed as written, or
    /// counted as skipped where the writing failed.
    pub fn unpacked(&mut self, target: Target, ok: bool)
        ensures
            final(self).dest() == old(self).dest(),
            final(self).written() == if ok {
                old(self).written().push(target.relative@)
            } else {
                old(self).written()
            },
            final(self).skipped() == if ok {
                old(self).skipped()
            } else {
                bumped(old(self).skipped())
            },
    {
        if ok {
            let ghost before = self.written@;
            self.written.push(target.relative);
            assert(paths_of(self.written@) =~= paths_of(before).push(target.relative@));
        } else if self.skipped < u64::MAX {
            self.skipped = self.skipped + 1;
        }
    }

    /// The relative path of the entry written last, for display.
    pub fn last_written(&self) -> (r: Option<Vec<u8>>)
        ensures
            bytes_of(r) == if self.written().len() > 0 {
                Some(self.written().last())
            } else {
                None
            },
    {
        let n = self.written.len();
        if n > 0 {
            Some(slice_to_vec(self.written[n - 1].as_slice()))
        } else {
            None
        }
    }

    /// Ends the extraction. It failed where the archive could not be read to
    /// its end; what was written before stays.
    pub fn finish(self, stream_ok: bool) -> (r: Result<Unpacked, FetchError>)
        ensures
            match r {
                Ok(u) => stream_ok && paths_of(u.paths@) == self.written() && u.skipped
                    == self.skipped(),
                Err(e) => !stream_ok && e == FetchError::Network,
            },
    {
        if stream_ok {
            Ok(Unpacked { paths: self.written, skipped: self.skipped })
        } else {
            Err(FetchError::Network)
        }
    }
}

/// An entry `wrapper/rest` is written without its wrapper: exactly one
/// leading component is taken off, and `rest` is what is left.
pub proof fn law_one_component_is_stripped(wrapper: Seq<u8>, rest: Seq<u8>, dest: Seq<u8>)
    requires
        wrapper.len() > 0,
        forall|i: int| 0 <= i < wrapper.len() ==> #[trigger] wrapper[i] != SLASH,
        rest.len() > 0,
        rest[0] != SLASH,
    ensures
        stripped(wrapper + seq![SLASH] + rest) == Some(rest),
        target_spec(dest, wrapper + seq![SLASH] + rest) == Some(joined(dest, rest)),
{
    let p = wrapper + seq![SLASH] + rest;
    let w = wrapper.len() as int;
    assert forall|i: int| 0 <= i < w implies (#[trigger] p[i] == SLASH) == false by {
        assert(p[i] == wrapper[i]);
    }
    assert(p[w] == SLASH);
    lemma_skip_while_ends_at(p, 0, false, w);
    assert(p[w + 1] == rest[0]);
    assert forall|i: int| w <= i < w + 1 implies (#[trigger] p[i] == SLASH) == true by {}
    lemma_skip_while_ends_at(p, w, true, w + 1);
    assert(p.subrange(w + 1, p.len() as int) =~= rest);
}

/// The entry of the wrapper directory itself, with or without separators
/// behind it, is not written.
pub proof fn law_wrapper_is_skipped(wrapper: Seq<u8>, slashes: Seq<u8>, dest: Seq<u8>)
    requires
        forall|i: int| 0 <= i < wrapper.len() ==> #[trigger] wrapper[i] != SLASH,
        forall|i: int| 0 <= i < slashes.len() ==> #[trigger] slashes[i] == SLASH,
    ensures
        stripped(wrapper + slashes) is None,
        target_spec(dest, wrapper + slashes) is None,
{
    let p = wrapper + slashes;
    let w = wrapper.len() as int;
    assert forall|i: int| 0 <= i < w implies (#[trigger] p[i] == SLASH) == false by {
        assert(p[i] == wrapper[i]);
    }
    assert forall|i: int| w <= i < p.len() implies (#[trigger] p[i] == SLASH) == true by {
        assert(p[i] == slashes[i - w]);
    }
    lemma_skip_while_ends_at(p, 0, false, w);
    lemma_skip_while_ends_at(p, w, true, p.len() as int);
}

} // verus!
