//! A table of absolute paths like `PathTable`, with `usize` offsets and so
//! no limit on the size of its buffer.

use vstd::prelude::*;

use crate::path_table::{
    first_error, has_nul_byte, join_nul, lemma_first_error_prefix, lemma_join_index, path_offset,
    path_views, total_len, PathTableError,
};

verus! {

/// A table of paths, by position.
pub struct FileTable {
    inner: Vec<u8>,
    offsets: Vec<usize>,
    paths: Ghost<Seq<Seq<u8>>>,
}

impl FileTable {
    #[verifier::type_invariant]
    spec fn well_formed(self) -> bool {
        &&& self.inner@ == join_nul(self.paths@)
        &&& self.offsets@.len() == self.paths@.len()
        &&& forall|i: int|
            0 <= i < self.offsets@.len() ==> #[trigger] self.offsets@[i] == path_offset(
                self.paths@,
                i,
            )
    }
}

impl View for FileTable {
    type V = Seq<Seq<u8>>;

    closed spec fn view(&self) -> Seq<Seq<u8>> {
        self.paths@
    }
}

impl FileTable {
    /// Builds the table of `paths`, in order. Fails at the first path that
    /// is not absolute or holds a NUL byte.
    pub fn new(paths: &[&[u8]]) -> (r: Result<Self, PathTableError>)
        ensures
            match r {
                Ok(t) => first_error(path_views(paths@), false) is None && t@ == path_views(paths@),
                Err(e) => first_error(path_views(paths@), false) == Some(e),
            },
    {
        let ghost ps = path_views(paths@);
        let mut buf: Vec<u8> = Vec::new();
        let mut offsets: Vec<usize> = Vec::new();
        let mut i: usize = 0;
        while i < paths.len()
            invariant
                0 <= i <= paths@.len(),
                ps == path_views(paths@),
                buf@ == join_nul(ps.take(i as int)),
                i > 0 ==> buf@.len() + 1 == total_len(ps.take(i as int)),
                offsets@.len() == i,
                forall|k: int| 0 <= k < i ==> #[trigger] offsets@[k] == path_offset(ps, k),
                first_error(ps.take(i as int), false) is None,
            decreases paths@.len() - i,
        {
            let path = paths[i];
            let ghost prev = ps.take(i as int);
            let ghost next = ps.take(i + 1);
            assert(next.drop_last() =~= prev);
            assert(next.last() == path@);
            if !(path.len() > 0 && path[0] == 0x2F) {
                proof { lemma_first_error_prefix(ps, i + 1, false); }
                return Err(PathTableError::NotAbsolute);
            }
            if has_nul_byte(path) {
                proof { lemma_first_error_prefix(ps, i + 1, false); }
                return Err(PathTableError::ContainsNul);
            }
            if i != 0 {
                buf.push(0);
            }
            assert(buf@.len() == total_len(prev));
            assert(total_len(prev) == path_offset(ps, i as int));
            offsets.push(buf.len());
            let ghost before = buf@;
            buf.extend_from_slice(path);
            assert(buf@ =~= before + path@);
            if i == 0 {
                assert(prev =~= Seq::<Seq<u8>>::empty());
                assert(next =~= seq![path@]);
            }
            assert(buf@ =~= join_nul(next));
            i += 1;
        }
        assert(ps.take(i as int) =~= ps);
        Ok(FileTable { inner: buf, offsets, paths: Ghost(ps) })
    }

    /// The bytes of path `i`, or `None` past the last path.
    pub fn get(&self, i: usize) -> (r: Option<&[u8]>)
        ensures
            match r {
                Some(p) => i < self@.len() && p@ == self@[i as int],
                None => i >= self@.len(),
            },
    {
        proof { use_type_invariant(self); }
        if i >= self.offsets.len() {
            return None;
        }
        proof { lemma_join_index(self.paths@, i as int); }
        let start = self.offsets[i];
        let end = if i + 1 < self.offsets.len() {
            self.offsets[i + 1] - 1
        } else {
            self.inner.len()
        };
        Some(vstd::slice::slice_subrange(self.inner.as_slice(), start, end))
    }

    /// The joined buffer of all paths.
    pub fn inner(&self) -> (b: &[u8])
        ensures
            b@ == join_nul(self@),
    {
        proof { use_type_invariant(self); }
        self.inner.as_slice()
    }

    /// The offset of each path in the joined buffer.
    pub fn offsets(&self) -> (o: &[usize])
        ensures
            o@.len() == self@.len(),
            forall|i: int| 0 <= i < o@.len() ==> #[trigger] o@[i] == path_offset(self@, i),
    {
        proof { use_type_invariant(self); }
        self.offsets.as_slice()
    }
}

} // verus!
