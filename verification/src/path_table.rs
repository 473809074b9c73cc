//! The server's table of the absolute paths of the files it serves, kept
//! as one NUL-separated byte buffer and the offset of each path in it.
//!
//! Paths are given and handed back as their encoded bytes
//! (`OsStr::as_encoded_bytes`), which on Unix are the bytes of the path.

use vstd::prelude::*;

verus! {

/// A path is absolute when it starts at the root: on Unix, when its first
/// byte is `/`.
pub open spec fn is_absolute(p: Seq<u8>) -> bool {
    p.len() > 0 && p[0] == 0x2F
}

pub open spec fn has_nul(p: Seq<u8>) -> bool {
    exists|i: int| 0 <= i < p.len() && p[i] == 0
}

/// The paths joined with a NUL byte between each two.
pub open spec fn join_nul(ps: Seq<Seq<u8>>) -> Seq<u8>
    decreases ps.len(),
{
    if ps.len() == 0 {
        Seq::empty()
    } else if ps.len() == 1 {
        ps[0]
    } else {
        join_nul(ps.drop_last()) + seq![0u8] + ps.last()
    }
}

/// The length of every path plus one, summed: the offset at which the path
/// that comes after `ps` starts in the joined buffer.
pub open spec fn total_len(ps: Seq<Seq<u8>>) -> nat
    decreases ps.len(),
{
    if ps.len() == 0 {
        0
    } else {
        total_len(ps.drop_last()) + ps.last().len() + 1
    }
}

/// The offset of path `i` in the joined buffer.
pub open spec fn path_offset(ps: Seq<Seq<u8>>, i: int) -> int {
    total_len(ps.take(i)) as int
}

/// Why a list of paths cannot be a table.
#[derive(Debug, Clone, Copy, PartialEq, Eq, Structural)]
pub enum PathTableError {
    /// A path is not absolute (an `InvalidInput` I/O error).
    NotAbsolute,
    /// A path holds a NUL byte (an `InvalidData` I/O error).
    ContainsNul,
    /// A path would start beyond the 4 GiB that `u32` offsets reach (an
    /// `InvalidData` I/O error).
    TooLarge,
}

/// The error that building a table from `ps` stops at: the first path that
/// is not absolute, holds a NUL, or (where offsets are limited to `u32`)
/// starts beyond `u32::MAX`.
pub open spec fn first_error(ps: Seq<Seq<u8>>, u32_offsets: bool) -> Option<PathTableError>
    decreases ps.len(),
{
    if ps.len() == 0 {
        None
    } else if first_error(ps.drop_last(), u32_offsets) is Some {
        first_error(ps.drop_last(), u32_offsets)
    } else if !is_absolute(ps.last()) {
        Some(PathTableError::NotAbsolute)
    } else if has_nul(ps.last()) {
        Some(PathTableError::ContainsNul)
    } else if u32_offsets && total_len(ps.drop_last()) > u32::MAX {
        Some(PathTableError::TooLarge)
    } else {
        None
    }
}

/// The byte contents of the given paths.
pub open spec fn path_views(paths: Seq<&[u8]>) -> Seq<Seq<u8>> {
    paths.map_values(|p: &[u8]| p@)
}

/// The joined buffer has the length of all paths and separators.
pub proof fn lemma_join_len(ps: Seq<Seq<u8>>)
    requires
        ps.len() > 0,
    ensures
        join_nul(ps).len() + 1 == total_len(ps),
    decreases ps.len(),
{
    if ps.len() > 1 {
        lemma_join_len(ps.drop_last());
    } else {
        assert(ps.drop_last() =~= Seq::<Seq<u8>>::empty());
        assert(total_len(ps.drop_last()) == 0);
    }
}

/// Path `i` stands in the joined buffer at its offset, and is followed by a
/// NUL unless it is the last.
pub proof fn lemma_join_index(ps: Seq<Seq<u8>>, i: int)
    requires
        0 <= i < ps.len(),
    ensures
        path_offset(ps, i) + ps[i].len() <= join_nul(ps).len(),
        join_nul(ps).subrange(path_offset(ps, i), path_offset(ps, i) + ps[i].len()) == ps[i],
        i + 1 < ps.len() ==> join_nul(ps)[path_offset(ps, i) + ps[i].len()] == 0,
        i + 1 < ps.len() ==> path_offset(ps, i + 1) == path_offset(ps, i) + ps[i].len() + 1,
        i + 1 == ps.len() ==> join_nul(ps).len() == path_offset(ps, i) + ps[i].len(),
    decreases ps.len(),
{
    let init = ps.drop_last();
    assert(ps.take(i + 1).drop_last() =~= ps.take(i));
    assert(ps.take(i + 1).last() == ps[i]);
    if i + 1 < ps.len() {
        lemma_join_index(init, i);
        assert(init.take(i) =~= ps.take(i));
        if i + 2 < ps.len() {
            assert(init.take(i + 1) =~= ps.take(i + 1));
        } else {
            assert(init.take(i + 1) =~= init);
            assert(ps.take(i + 1) =~= init);
            lemma_join_len(init);
        }
        let j = join_nul(ps);
        assert(j =~= join_nul(init) + seq![0u8] + ps.last());
        assert(j.subrange(path_offset(ps, i), path_offset(ps, i) + ps[i].len())
            =~= join_nul(init).subrange(path_offset(ps, i), path_offset(ps, i) + ps[i].len()));
    } else {
        assert(ps.take(i) =~= init);
        if ps.len() == 1 {
            assert(init =~= Seq::<Seq<u8>>::empty());
            assert(join_nul(ps).subrange(0, ps[0].len() as int) =~= ps[0]);
        } else {
            lemma_join_len(init);
            let j = join_nul(ps);
            assert(j.subrange(path_offset(ps, i), path_offset(ps, i) + ps[i].len()) =~= ps[i]);
        }
    }
}

pub(crate) fn has_nul_byte(p: &[u8]) -> (r: bool)
    ensures
        r == has_nul(p@),
{
    let mut i: usize = 0;
    while i < p.len()
        invariant
            0 <= i <= p@.len(),
            forall|j: int| 0 <= j < i ==> p@[j] != 0,
        decreases p@.len() - i,
    {
        if p[i] == 0 {
            return true;
        }
        i += 1;
    }
    false
}

/// The table that the server serves files from, by position.
pub struct PathTable {
    inner: Vec<u8>,
    offsets: Vec<u32>,
    paths: Ghost<Seq<Seq<u8>>>,
}

impl PathTable {
    #[verifier::type_invariant]
    spec fn well_formed(self) -> bool {
        &&& self.inner@ == join_nul(self.paths@)
        &&& self.offsets@.len() == self.paths@.len()
        &&& forall|i: int|
            0 <= i < self.offsets@.len() ==> #[trigger] self.offsets@[i] == path_offset(
                self.paths@,
                i,
            )
    }
}

impl View for PathTable {
    type V = Seq<Seq<u8>>;

    closed spec fn view(&self) -> Seq<Seq<u8>> {
        self.paths@
    }
}

impl PathTable {
    /// Builds the table of `paths`, in order. Fails at the first path that
    /// is not absolute or holds a NUL byte, or that would start beyond
    /// `u32::MAX` in the buffer.
    pub fn new(paths: &[&[u8]]) -> (r: Result<Self, PathTableError>)
        ensures
            match r {
                Ok(t) => first_error(path_views(paths@), true) is None && t@ == path_views(paths@),
                Err(e) => first_error(path_views(paths@), true) == Some(e),
            },
    {
        let ghost ps = path_views(paths@);
        let mut buf: Vec<u8> = Vec::new();
        let mut offsets: Vec<u32> = Vec::new();
        let mut i: usize = 0;
        while i < paths.len()
            invariant
                0 <= i <= paths@.len(),
                ps == path_views(paths@),
                buf@ == join_nul(ps.take(i as int)),
                i > 0 ==> buf@.len() + 1 == total_len(ps.take(i as int)),
                offsets@.len() == i,
                forall|k: int| 0 <= k < i ==> #[trigger] offsets@[k] == path_offset(ps, k),
                first_error(ps.take(i as int), true) is None,
            decreases paths@.len() - i,
        {
            let path = paths[i];
            let ghost prev = ps.take(i as int);
            let ghost next = ps.take(i + 1);
            assert(next.drop_last() =~= prev);
            assert(next.last() == path@);
            if !(path.len() > 0 && path[0] == 0x2F) {
                proof { lemma_first_error_prefix(ps, i + 1, true); }
                return Err(PathTableError::NotAbsolute);
            }
            if has_nul_byte(path) {
                proof { lemma_first_error_prefix(ps, i + 1, true); }
                return Err(PathTableError::ContainsNul);
            }
            if i != 0 {
                buf.push(0);
            }
            assert(buf@.len() == total_len(prev));
            if buf.len() > 0xFFFF_FFFF {
                proof { lemma_first_error_prefix(ps, i + 1, true); }
                return Err(PathTableError::TooLarge);
            }
            assert(total_len(prev) == path_offset(ps, i as int));
            offsets.push(buf.len() as u32);
            let ghost before = buf@;
            buf.extend_from_slice(path);
            assert(buf@ =~= before + path@);
            if i == 0 {
                assert(prev =~= Seq::<Seq<u8>>::empty());
                assert(next =~= seq![path@]);
            }
            assert(buf@ =~= join_nul(next));
            i += 1;
        }
        assert(ps.take(i as int) =~= ps);
        Ok(PathTable { inner: buf, offsets, paths: Ghost(ps) })
    }

    /// The bytes of path `i`, or `None` past the last path.
    pub fn get(&self, i: usize) -> (r: Option<&[u8]>)
        ensures
            match r {
                Some(p) => i < self@.len() && p@ == self@[i as int],
                None => i >= self@.len(),
            },
    {
        proof { use_type_invariant(self); }
        if i >= self.offsets.len() {
            return None;
        }
        proof { lemma_join_index(self.paths@, i as int); }
        let start = self.offsets[i] as usize;
        let end = if i + 1 < self.offsets.len() {
            (self.offsets[i + 1] - 1) as usize
        } else {
            self.inner.len()
        };
        Some(vstd::slice::slice_subrange(self.inner.as_slice(), start, end))
    }

    /// The joined buffer of all paths.
    pub fn inner(&self) -> (b: &[u8])
        ensures
            b@ == join_nul(self@),
    {
        proof { use_type_invariant(self); }
        self.inner.as_slice()
    }

    /// The offset of each path in the joined buffer.
    pub fn offsets(&self) -> (o: &[u32])
        ensures
            o@.len() == self@.len(),
            forall|i: int| 0 <= i < o@.len() ==> #[trigger] o@[i] == path_offset(self@, i),
    {
        proof { use_type_invariant(self); }
        self.offsets.as_slice()
    }
}

/// The first error of a prefix is the first error of the whole.
pub proof fn lemma_first_error_prefix(ps: Seq<Seq<u8>>, k: int, u32_offsets: bool)
    requires
        0 <= k <= ps.len(),
        first_error(ps.take(k), u32_offsets) is Some,
    ensures
        first_error(ps, u32_offsets) == first_error(ps.take(k), u32_offsets),
    decreases ps.len(),
{
    if k < ps.len() {
        assert(ps.drop_last().take(k) =~= ps.take(k));
        lemma_first_error_prefix(ps.drop_last(), k, u32_offsets);
    } else {
        assert(ps.take(k) =~= ps);
    }
}

/// A path that a table can hold: it starts with `/` and holds no NUL byte.
pub open spec fn valid_table_path(p: Seq<u8>) -> bool {
    &&& p.len() > 0
    &&& p[0] == 0x2F
    &&& forall|j: int| 0 <= j < p.len() ==> p[j] != 0
}

/// A table is only built from paths that start with `/` and hold no NUL
/// byte: whenever building succeeds, every path is such a path.
pub proof fn lemma_built_paths_are_valid(ps: Seq<Seq<u8>>, u32_offsets: bool)
    ensures
        first_error(ps, u32_offsets) is None ==> forall|i: int|
            0 <= i < ps.len() ==> valid_table_path(#[trigger] ps[i]),
    decreases ps.len(),
{
    if ps.len() > 0 && first_error(ps, u32_offsets) is None {
        let init = ps.drop_last();
        lemma_built_paths_are_valid(init, u32_offsets);
        assert forall|i: int| 0 <= i < ps.len() implies valid_table_path(#[trigger] ps[i]) by {
            if i < init.len() {
                assert(ps[i] == init[i]);
            } else {
                let p = ps.last();
                assert(p == ps[i]);
                assert forall|j: int| 0 <= j < p.len() implies p[j] != 0 by {
                    if p[j] == 0 {
                        assert(has_nul(p));
                    }
                }
            }
        }
    }
}

/// Building fails with `NotAbsolute` at a path that does not start with
/// `/`, when every path before it can be held.
pub proof fn lemma_relative_path_rejected(ps: Seq<Seq<u8>>, k: int, u32_offsets: bool)
    requires
        0 <= k < ps.len(),
        !(ps[k].len() > 0 && ps[k][0] == 0x2F),
        forall|i: int| 0 <= i < k ==> valid_table_path(#[trigger] ps[i]),
        u32_offsets ==> total_len(ps.take(k)) <= u32::MAX,
    ensures
        first_error(ps, u32_offsets) == Some(PathTableError::NotAbsolute),
{
    lemma_valid_prefix_builds(ps.take(k + 1).drop_last(), u32_offsets);
    assert(ps.take(k + 1).drop_last() =~= ps.take(k));
    assert(ps.take(k + 1).last() == ps[k]);
    lemma_first_error_prefix(ps, k + 1, u32_offsets);
}

/// Paths that start with `/` and hold no NUL byte always make a table with
/// `usize` offsets, and make one with `u32` offsets while no path starts
/// beyond `u32::MAX`.
pub proof fn lemma_valid_prefix_builds(ps: Seq<Seq<u8>>, u32_offsets: bool)
    requires
        forall|i: int| 0 <= i < ps.len() ==> valid_table_path(#[trigger] ps[i]),
        u32_offsets ==> ps.len() == 0 || total_len(ps.drop_last()) <= u32::MAX,
    ensures
        first_error(ps, u32_offsets) is None,
    decreases ps.len(),
{
    if ps.len() > 0 {
        let init = ps.drop_last();
        assert forall|i: int| 0 <= i < init.len() implies valid_table_path(#[trigger] init[i]) by {
            assert(init[i] == ps[i]);
        }
        if u32_offsets && init.len() > 0 {
            assert(total_len(init) == total_len(init.drop_last()) + init.last().len() + 1);
        }
        lemma_valid_prefix_builds(init, u32_offsets);
        assert(valid_table_path(ps[ps.len() - 1]));
        let p = ps.last();
        assert(!has_nul(p)) by {
            if has_nul(p) {
                let j = choose|j: int| 0 <= j < p.len() && p[j] == 0;
                assert(p[j] != 0);
            }
        }
    }
}

/// A table with `usize` offsets is built from any paths that start with `/`
/// and hold no NUL byte; its build never fails for size.
pub proof fn lemma_usize_table_never_too_large(ps: Seq<Seq<u8>>)
    ensures
        (forall|i: int| 0 <= i < ps.len() ==> valid_table_path(#[trigger] ps[i])) ==> first_error(
            ps,
            false,
        ) is None,
        first_error(ps, false) != Some(PathTableError::TooLarge),
    decreases ps.len(),
{
    if forall|i: int| 0 <= i < ps.len() ==> valid_table_path(#[trigger] ps[i]) {
        lemma_valid_prefix_builds(ps, false);
    }
    if ps.len() > 0 {
        lemma_usize_table_never_too_large(ps.drop_last());
    }
}

} // verus!
