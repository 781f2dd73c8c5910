//! The durable index of logical files and one-time links.
//!
//! This is the authoritative metadata table: point lookups by id and by path,
//! directory children, aggregates, and the mutations the upload engine, the
//! download pipeline and the management routes perform. The process boundary
//! persists every mutation; the contracts here say exactly what each
//! operation does to the two tables.

use vstd::prelude::*;

verus! {

use crate::records::{File, FileV, FileLink, FileLinkV, FileAccess, is_valid_id};
use crate::text::str_eq;

/// Why an index mutation was refused.
#[derive(Clone, Copy, Debug, PartialEq, Eq, Structural)]
pub enum IndexError {
    /// No row with the given key.
    NotFound,
    /// A row with the given unique key already exists.
    Conflict,
}

/// The two tables.
pub struct Index {
    pub files: Vec<File>,
    pub links: Vec<FileLink>,
}

/// Mathematical model of the index: the rows of both tables, in insertion
/// order.
pub struct IndexV {
    pub files: Seq<FileV>,
    pub links: Seq<FileLinkV>,
}

impl View for Index {
    type V = IndexV;

    open spec fn view(&self) -> IndexV {
        IndexV {
            files: self.files@.map_values(|f: File| f@),
            links: self.links@.map_values(|l: FileLink| l@),
        }
    }
}

/// Total bytes the files of the index account for.
pub open spec fn sum_sizes(files: Seq<FileV>) -> int
    decreases files.len(),
{
    if files.len() == 0 {
        0
    } else {
        sum_sizes(files.drop_last()) + files.last().size
    }
}

proof fn lemma_sum_sizes_take_step(files: Seq<FileV>, i: int)
    requires
        0 <= i < files.len(),
    ensures
        sum_sizes(files.take(i + 1)) == sum_sizes(files.take(i)) + files[i].size,
{
    assert(files.take(i + 1).drop_last() =~= files.take(i));
}

proof fn lemma_sum_sizes_take_le(files: Seq<FileV>, i: int)
    requires
        0 <= i <= files.len(),
        forall|k: int| 0 <= k < files.len() ==> (#[trigger] files[k].size) >= 0,
    ensures
        0 <= sum_sizes(files.take(i)) <= sum_sizes(files),
    decreases files.len() - i,
{
    if i == files.len() {
        assert(files.take(i) =~= files);
        lemma_sum_sizes_nonneg(files);
    } else {
        lemma_sum_sizes_take_step(files, i);
        lemma_sum_sizes_take_le(files, i + 1);
        assert forall|k: int| 0 <= k < files.take(i).len() implies (#[trigger] files.take(
            i,
        )[k].size) >= 0 by {
            assert(files.take(i)[k] == files[k]);
        }
        lemma_sum_sizes_nonneg(files.take(i));
    }
}

proof fn lemma_sum_sizes_nonneg(files: Seq<FileV>)
    requires
        forall|k: int| 0 <= k < files.len() ==> (#[trigger] files[k].size) >= 0,
    ensures
        sum_sizes(files) >= 0,
    decreases files.len(),
{
    if files.len() > 0 {
        lemma_sum_sizes_nonneg(files.drop_last());
    }
}

impl IndexV {
    /// Index invariant: every row well formed, ids and paths unique in the
    /// file table, ids unique in the link table, and the total stored size
    /// within the machine's range.
    pub open spec fn wf(self) -> bool {
        &&& forall|i: int| 0 <= i < self.files.len() ==> (#[trigger] self.files[i]).wf()
        &&& forall|i: int, j: int|
            0 <= i < j < self.files.len() ==> (#[trigger] self.files[i]).id != (
            #[trigger] self.files[j]).id
        &&& forall|i: int, j: int|
            0 <= i < j < self.files.len() ==> (#[trigger] self.files[i]).path != (
            #[trigger] self.files[j]).path
        &&& forall|i: int| 0 <= i < self.links.len() ==> (#[trigger] self.links[i]).wf()
        &&& forall|i: int, j: int|
            0 <= i < j < self.links.len() ==> (#[trigger] self.links[i]).id != (
            #[trigger] self.links[j]).id
        &&& sum_sizes(self.files) <= u64::MAX
    }

    /// Whether some file row has this id.
    pub open spec fn has_file_id(self, id: Seq<char>) -> bool {
        exists|i: int| 0 <= i < self.files.len() && (#[trigger] self.files[i]).id == id
    }

    /// Whether some file row has this path.
    pub open spec fn has_file_path(self, path: Seq<char>) -> bool {
        exists|i: int| 0 <= i < self.files.len() && (#[trigger] self.files[i]).path == path
    }

    /// Whether some link row has this id.
    pub open spec fn has_link_id(self, id: Seq<char>) -> bool {
        exists|i: int| 0 <= i < self.links.len() && (#[trigger] self.links[i]).id == id
    }

    /// The file row holding this path; meaningful when one exists, and then
    /// unique by the invariant.
    pub open spec fn spec_file_at_path(self, path: Seq<char>) -> FileV
        recommends
            self.has_file_path(path),
    {
        self.files[choose|i: int|
            0 <= i < self.files.len() && (#[trigger] self.files[i]).path == path]
    }

    /// The file row holding this id; meaningful when one exists, and then
    /// unique by the invariant.
    pub open spec fn spec_file_with_id(self, id: Seq<char>) -> FileV
        recommends
            self.has_file_id(id),
    {
        self.files[choose|i: int|
            0 <= i < self.files.len() && (#[trigger] self.files[i]).id == id]
    }

    /// The link row holding this id; meaningful when one exists, and then
    /// unique by the invariant.
    pub open spec fn spec_link_with_id(self, id: Seq<char>) -> FileLinkV
        recommends
            self.has_link_id(id),
    {
        self.links[choose|i: int|
            0 <= i < self.links.len() && (#[trigger] self.links[i]).id == id]
    }
}

/// In a well-formed index, any row holding a path is the row
/// `spec_file_at_path` names.
pub proof fn lemma_file_at_path_unique(v: IndexV, path: Seq<char>, f: FileV)
    requires
        v.wf(),
        f.path == path,
        exists|j: int| 0 <= j < v.files.len() && (#[trigger] v.files[j]) == f,
    ensures
        v.has_file_path(path),
        v.spec_file_at_path(path) == f,
{
    let j = choose|j: int| 0 <= j < v.files.len() && (#[trigger] v.files[j]) == f;
    assert(v.files[j].path == path);
    assert(v.has_file_path(path));
    let i = choose|i: int| 0 <= i < v.files.len() && (#[trigger] v.files[i]).path == path;
    if i != j {
        if i < j {
            assert(v.files[i].path != v.files[j].path);
        } else {
            assert(v.files[j].path != v.files[i].path);
        }
    }
}

/// In a well-formed index, any row holding an id is the row
/// `spec_file_with_id` names.
pub proof fn lemma_file_with_id_unique(v: IndexV, id: Seq<char>, f: FileV)
    requires
        v.wf(),
        f.id == id,
        exists|j: int| 0 <= j < v.files.len() && (#[trigger] v.files[j]) == f,
    ensures
        v.has_file_id(id),
        v.spec_file_with_id(id) == f,
{
    let j = choose|j: int| 0 <= j < v.files.len() && (#[trigger] v.files[j]) == f;
    assert(v.files[j].id == id);
    assert(v.has_file_id(id));
    let i = choose|i: int| 0 <= i < v.files.len() && (#[trigger] v.files[i]).id == id;
    if i != j {
        if i < j {
            assert(v.files[i].id != v.files[j].id);
        } else {
            assert(v.files[j].id != v.files[i].id);
        }
    }
}

/// In a well-formed index, any link row holding an id is the row
/// `spec_link_with_id` names.
pub proof fn lemma_link_with_id_unique(v: IndexV, id: Seq<char>, l: FileLinkV)
    requires
        v.wf(),
        l.id == id,
        exists|j: int| 0 <= j < v.links.len() && (#[trigger] v.links[j]) == l,
    ensures
        v.has_link_id(id),
        v.spec_link_with_id(id) == l,
{
    let j = choose|j: int| 0 <= j < v.links.len() && (#[trigger] v.links[j]) == l;
    assert(v.links[j].id == id);
    assert(v.has_link_id(id));
    let i = choose|i: int| 0 <= i < v.links.len() && (#[trigger] v.links[i]).id == id;
    if i != j {
        if i < j {
            assert(v.links[i].id != v.links[j].id);
        } else {
            assert(v.links[j].id != v.links[i].id);
        }
    }
}

impl File {
    /// A field-by-field copy whose model equals this record's.
    pub fn duplicate(&self) -> (r: File)
        ensures
            r@ == self@,
    {
        File {
            id: self.id.clone(),
            path: self.path.clone(),
            size: self.size,
            download_count: self.download_count,
            last_downloaded_at: self.last_downloaded_at,
            created_at: self.created_at,
            updated_at: self.updated_at,
            access: self.access,
            chunk_index: self.chunk_index,
            total_chunks: self.total_chunks,
        }
    }
}

impl FileLink {
    /// A field-by-field copy whose model equals this record's.
    pub fn duplicate(&self) -> (r: FileLink)
        ensures
            r@ == self@,
    {
        FileLink {
            id: self.id.clone(),
            uploaded_file: match &self.uploaded_file {
                Some(f) => Some(f.clone()),
                None => None,
            },
            uploaded_at: self.uploaded_at,
            created_at: self.created_at,
        }
    }
}

impl Index {
    /// An index with no rows.
    pub fn new() -> (r: Index)
        ensures
            r@.files.len() == 0,
            r@.links.len() == 0,
            r@.wf(),
    {
        let r = Index { files: Vec::new(), links: Vec::new() };
        proof {
            assert(r@.files =~= Seq::<FileV>::empty());
            assert(r@.links =~= Seq::<FileLinkV>::empty());
        }
        r
    }

    /// Point lookup of a file row by id.
    pub fn get_via_id(&self, id: &str) -> (r: Option<&File>)
        ensures
            match r {
                Some(f) => f@.id == id@ && exists|i: int|
                    0 <= i < self@.files.len() && (#[trigger] self@.files[i]) == f@,
                None => !self@.has_file_id(id@),
            },
    {
        let n = self.files.len();
        let mut k: usize = 0;
        while k < n
            invariant
                n == self.files.len(),
                k <= n,
                forall|i: int| 0 <= i < k ==> (#[trigger] self@.files[i]).id != id@,
            decreases n - k,
        {
            if str_eq(self.files[k].id.as_str(), id) {
                proof {
                    assert(self@.files[k as int] == self.files@[k as int]@);
                }
                return Some(&self.files[k]);
            }
            k = k + 1;
        }
        None
    }

    /// Point lookup of a file row by path.
    pub fn get_via_path(&self, path: &str) -> (r: Option<&File>)
        ensures
            match r {
                Some(f) => f@.path == path@ && exists|i: int|
                    0 <= i < self@.files.len() && (#[trigger] self@.files[i]) == f@,
                None => !self@.has_file_path(path@),
            },
    {
        let n = self.files.len();
        let mut k: usize = 0;
        while k < n
            invariant
                n == self.files.len(),
                k <= n,
                forall|i: int| 0 <= i < k ==> (#[trigger] self@.files[i]).path != path@,
            decreases n - k,
        {
            if str_eq(self.files[k].path.as_str(), path) {
                proof {
                    assert(self@.files[k as int] == self.files@[k as int]@);
                }
                return Some(&self.files[k]);
            }
            k = k + 1;
        }
        None
    }

    /// Point lookup of a link row by id.
    pub fn get_link_via_id(&self, id: &str) -> (r: Option<&FileLink>)
        ensures
            match r {
                Some(l) => l@.id == id@ && exists|i: int|
                    0 <= i < self@.links.len() && (#[trigger] self@.links[i]) == l@,
                None => !self@.has_link_id(id@),
            },
    {
        let n = self.links.len();
        let mut k: usize = 0;
        while k < n
            invariant
                n == self.links.len(),
                k <= n,
                forall|i: int| 0 <= i < k ==> (#[trigger] self@.links[i]).id != id@,
            decreases n - k,
        {
            if str_eq(self.links[k].id.as_str(), id) {
                proof {
                    assert(self@.links[k as int] == self.links@[k as int]@);
                }
                return Some(&self.links[k]);
            }
            k = k + 1;
        }
        None
    }
}

pub(crate) proof fn lemma_sum_sizes_update(files: Seq<FileV>, k: int, f: FileV)
    requires
        0 <= k < files.len(),
    ensures
        sum_sizes(files.update(k, f)) == sum_sizes(files) - files[k].size + f.size,
    decreases files.len(),
{
    if k == files.len() - 1 {
        assert(files.update(k, f).drop_last() =~= files.drop_last());
        assert(files.update(k, f).last() == f);
    } else {
        lemma_sum_sizes_update(files.drop_last(), k, f);
        assert(files.update(k, f).drop_last() =~= files.drop_last().update(k, f));
        assert(files.update(k, f).last() == files.last());
    }
}

proof fn lemma_sum_sizes_push(files: Seq<FileV>, f: FileV)
    ensures
        sum_sizes(files.push(f)) == sum_sizes(files) + f.size,
{
    assert(files.push(f).drop_last() =~= files);
    assert(files.push(f).last() == f);
}

proof fn lemma_sum_sizes_remove(files: Seq<FileV>, k: int)
    requires
        0 <= k < files.len(),
    ensures
        sum_sizes(files.remove(k)) == sum_sizes(files) - files[k].size,
    decreases files.len(),
{
    if k == files.len() - 1 {
        assert(files.remove(k) =~= files.drop_last());
    } else {
        lemma_sum_sizes_remove(files.drop_last(), k);
        assert(files.remove(k).drop_last() =~= files.drop_last().remove(k));
        assert(files.remove(k).last() == files.last());
    }
}

/// One step of a filter loop: filtering one more element either appends it
/// or leaves the filtered prefix as it was.
pub proof fn lemma_filter_take_step<A>(s: Seq<A>, pred: spec_fn(A) -> bool, i: int)
    requires
        0 <= i < s.len(),
    ensures
        s.take(i + 1).filter(pred) == if pred(s[i]) {
            s.take(i).filter(pred).push(s[i])
        } else {
            s.take(i).filter(pred)
        },
{
    reveal(Seq::filter);
    assert(s.take(i + 1).drop_last() =~= s.take(i));
    assert(s.take(i + 1).last() == s[i]);
}

/// Mapping a view function over a sequence commutes with push.
pub proof fn lemma_map_values_push<A, B>(s: Seq<A>, f: spec_fn(A) -> B, x: A)
    ensures
        s.push(x).map_values(f) == s.map_values(f).push(f(x)),
{
    assert(s.push(x).map_values(f) =~= s.map_values(f).push(f(x)));
}

/// Replacing one file row preserves the index invariant, provided the row
/// keeps its keys, stays well formed, and the total size stays in range.
proof fn lemma_wf_file_update(pre: IndexV, post: IndexV, k: int)
    requires
        pre.wf(),
        0 <= k < pre.files.len(),
        post.links == pre.links,
        post.files == pre.files.update(k, post.files[k]),
        post.files[k].id == pre.files[k].id,
        post.files[k].path == pre.files[k].path,
        post.files[k].wf(),
        sum_sizes(pre.files) - pre.files[k].size + post.files[k].size <= u64::MAX,
    ensures
        post.wf(),
{
    lemma_sum_sizes_update(pre.files, k, post.files[k]);
    assert forall|i: int| 0 <= i < post.files.len() implies (#[trigger] post.files[i]).wf() by {
        if i != k {
            assert(post.files[i] == pre.files[i]);
        }
    }
    assert forall|i: int, j: int| 0 <= i < j < post.files.len() implies (
    #[trigger] post.files[i]).id != (#[trigger] post.files[j]).id by {
        assert(post.files[i].id == pre.files[i].id);
        assert(post.files[j].id == pre.files[j].id);
    }
    assert forall|i: int, j: int| 0 <= i < j < post.files.len() implies (
    #[trigger] post.files[i]).path != (#[trigger] post.files[j]).path by {
        assert(post.files[i].path == pre.files[i].path);
        assert(post.files[j].path == pre.files[j].path);
    }
}

/// Saturating addition on the download counter.
pub open spec fn sat_add_i64(a: i64, b: i64) -> i64
    recommends
        a >= 0,
        b >= 0,
{
    if a + b > i64::MAX {
        i64::MAX
    } else {
        (a + b) as i64
    }
}

impl Index {
    /// Position of the file row with this id, if any.
    fn find_file_pos(&self, id: &str) -> (r: Option<usize>)
        ensures
            match r {
                Some(k) => k < self@.files.len() && self@.files[k as int].id == id@,
                None => !self@.has_file_id(id@),
            },
    {
        let n = self.files.len();
        let mut k: usize = 0;
        while k < n
            invariant
                n == self.files.len(),
                k <= n,
                forall|i: int| 0 <= i < k ==> (#[trigger] self@.files[i]).id != id@,
            decreases n - k,
        {
            if str_eq(self.files[k].id.as_str(), id) {
                return Some(k);
            }
            k = k + 1;
        }
        None
    }

    /// Position of the link row with this id, if any.
    fn find_link_pos(&self, id: &str) -> (r: Option<usize>)
        ensures
            match r {
                Some(k) => k < self@.links.len() && self@.links[k as int].id == id@,
                None => !self@.has_link_id(id@),
            },
    {
        let n = self.links.len();
        let mut k: usize = 0;
        while k < n
            invariant
                n == self.links.len(),
                k <= n,
                forall|i: int| 0 <= i < k ==> (#[trigger] self@.links[i]).id != id@,
            decreases n - k,
        {
            if str_eq(self.links[k].id.as_str(), id) {
                return Some(k);
            }
            k = k + 1;
        }
        None
    }

    /// Insert a fresh file row: size 0, Private, resume pointer 0, both
    /// timestamps `now`. Refused with `Conflict` when the id or the path is
    /// already taken.
    pub fn new_file(&mut self, id: &str, path: &str, total_chunks: i64, now: i64) -> (r: Result<
        File,
        IndexError,
    >)
        requires
            old(self)@.wf(),
            is_valid_id(id@),
            total_chunks >= -1,
            old(self)@.files.len() < 0x7fff_ffff_ffff_ffff,
        ensures
            final(self)@.wf(),
            match r {
                Ok(f) => {
                    &&& !old(self)@.has_file_id(id@)
                    &&& !old(self)@.has_file_path(path@)
                    &&& f@ == (FileV {
                        id: id@,
                        path: path@,
                        size: 0,
                        download_count: 0,
                        last_downloaded_at: None,
                        created_at: now,
                        updated_at: now,
                        access: 0,
                        chunk_index: 0,
                        total_chunks,
                    })
                    &&& final(self)@.files == old(self)@.files.push(f@)
                    &&& final(self)@.links == old(self)@.links
                },
                Err(e) => {
                    &&& e == IndexError::Conflict
                    &&& (old(self)@.has_file_id(id@) || old(self)@.has_file_path(path@))
                    &&& final(self)@ == old(self)@
                },
            },
    {
        if self.find_file_pos(id).is_some() {
            return Err(IndexError::Conflict);
        }
        match self.get_via_path(path) {
            Some(_) => {
                proof {
                    assert(self@.has_file_path(path@));
                }
                return Err(IndexError::Conflict);
            },
            None => {},
        }
        let file = File {
            id: id.to_owned(),
            path: path.to_owned(),
            size: 0,
            download_count: 0,
            last_downloaded_at: None,
            created_at: now,
            updated_at: now,
            access: 0,
            chunk_index: 0,
            total_chunks,
        };
        let out = file.duplicate();
        let ghost pre = self@;
        self.files.push(file);
        proof {
            assert(self@.files =~= pre.files.push(out@));
            assert(self@.links =~= pre.links);
            lemma_sum_sizes_push(pre.files, out@);
            assert forall|i: int| 0 <= i < self@.files.len() implies (
            #[trigger] self@.files[i]).wf() by {
                if i < pre.files.len() {
                    assert(self@.files[i] == pre.files[i]);
                }
            }
            assert forall|i: int, j: int| 0 <= i < j < self@.files.len() implies (
            #[trigger] self@.files[i]).id != (#[trigger] self@.files[j]).id by {
                if j < pre.files.len() {
                    assert(pre.files[i].id != pre.files[j].id);
                } else {
                    assert(self@.files[i] == pre.files[i]);
                }
            }
            assert forall|i: int, j: int| 0 <= i < j < self@.files.len() implies (
            #[trigger] self@.files[i]).path != (#[trigger] self@.files[j]).path by {
                if j < pre.files.len() {
                    assert(pre.files[i].path != pre.files[j].path);
                } else {
                    assert(self@.files[i] == pre.files[i]);
                }
            }
        }
        Ok(out)
    }

    /// Remove the file row with this id; removing an absent id changes
    /// nothing.
    pub fn delete(&mut self, id: &str)
        requires
            old(self)@.wf(),
        ensures
            final(self)@.wf(),
            final(self)@.links == old(self)@.links,
            !old(self)@.has_file_id(id@) ==> final(self)@ == old(self)@,
            old(self)@.has_file_id(id@) ==> exists|k: int|
                0 <= k < old(self)@.files.len() && (#[trigger] old(self)@.files[k]).id == id@
                    && final(self)@.files == old(self)@.files.remove(k),
            !final(self)@.has_file_id(id@),
    {
        let pos = self.find_file_pos(id);
        match pos {
            None => {},
            Some(k) => {
                let ghost pre = self@;
                self.files.remove(k);
                proof {
                    assert(self@.files =~= pre.files.remove(k as int));
                    assert(self@.links =~= pre.links);
                    lemma_sum_sizes_remove(pre.files, k as int);
                    lemma_sum_sizes_nonneg(pre.files.take(k as int));
                    assert forall|i: int| 0 <= i < pre.files.len() implies (
                    #[trigger] pre.files[i].size) >= 0 by {
                        assert(pre.files[i].wf());
                    }
                    assert forall|i: int| 0 <= i < pre.files.take(k as int).len() implies (
                    #[trigger] pre.files.take(k as int)[i].size) >= 0 by {
                        assert(pre.files.take(k as int)[i] == pre.files[i]);
                    }
                    assert forall|i: int| 0 <= i < self@.files.len() implies (
                    #[trigger] self@.files[i]).wf() by {
                        if i < k {
                            assert(self@.files[i] == pre.files[i]);
                        } else {
                            assert(self@.files[i] == pre.files[i + 1]);
                        }
                    }
                    assert forall|i: int, j: int| 0 <= i < j < self@.files.len() implies (
                    #[trigger] self@.files[i]).id != (#[trigger] self@.files[j]).id by {
                        let i0 = if i < k { i } else { i + 1 };
                        let j0 = if j < k { j } else { j + 1 };
                        assert(self@.files[i] == pre.files[i0]);
                        assert(self@.files[j] == pre.files[j0]);
                    }
                    assert forall|i: int, j: int| 0 <= i < j < self@.files.len() implies (
                    #[trigger] self@.files[i]).path != (#[trigger] self@.files[j]).path by {
                        let i0 = if i < k { i } else { i + 1 };
                        let j0 = if j < k { j } else { j + 1 };
                        assert(self@.files[i] == pre.files[i0]);
                        assert(self@.files[j] == pre.files[j0]);
                    }
                    assert forall|i: int| 0 <= i < self@.files.len() implies (
                    #[trigger] self@.files[i]).id != id@ by {
                        let i0 = if i < k { i } else { i + 1 };
                        assert(self@.files[i] == pre.files[i0]);
                        if i0 < k {
                            assert(pre.files[i0].id != pre.files[k as int].id);
                        } else if i0 > k {
                            assert(pre.files[k as int].id != pre.files[i0].id);
                        }
                    }
                }
            },
        }
    }
}

/// Whether `p` names a direct child of directory `dir`: under the root when
/// `dir` is empty, else `dir`, a slash, and a remainder free of slashes.
pub open spec fn spec_is_child_path(p: Seq<char>, dir: Seq<char>) -> bool {
    if dir.len() == 0 {
        !p.contains('/')
    } else {
        &&& p.len() >= dir.len() + 1
        &&& p.take(dir.len() as int) == dir
        &&& p[dir.len() as int] == '/'
        &&& !p.skip(dir.len() as int + 1).contains('/')
    }
}

/// Executable test for [`spec_is_child_path`].
pub fn is_child_path(p: &str, dir: &str) -> (r: bool)
    ensures
        r == spec_is_child_path(p@, dir@),
{
    let pl = p.unicode_len();
    let dl = dir.unicode_len();
    if dl == 0 {
        return !crate::text::str_contains_char(p, '/');
    }
    if pl < dl || pl == dl {
        return false;
    }
    if !crate::text::str_starts_with(p, dir) {
        return false;
    }
    if p.get_char(dl) != '/' {
        return false;
    }
    let mut i: usize = dl + 1;
    while i < pl
        invariant
            pl == p@.len(),
            dl == dir@.len(),
            dl + 1 <= i <= pl,
            forall|j: int| dl + 1 <= j < i ==> p@[j] != '/',
        decreases pl - i,
    {
        if p.get_char(i) == '/' {
            proof {
                assert(p@.skip(dl + 1)[i - dl - 1] == '/');
            }
            return false;
        }
        i = i + 1;
    }
    proof {
        assert(!p@.skip(dl + 1).contains('/')) by {
            if p@.skip(dl + 1).contains('/') {
                let j = choose|j: int|
                    0 <= j < p@.skip(dl + 1).len() && (#[trigger] p@.skip(dl + 1)[j]) == '/';
                assert(p@[j + dl + 1] != '/');
            }
        }
    }
    true
}

impl Index {
    /// Record a completed upload: the row's size becomes the stored byte
    /// count and `updated_at` becomes `now`. An absent id changes nothing.
    pub fn successful_upload(&mut self, id: &str, size: i64, now: i64)
        requires
            old(self)@.wf(),
            size >= 0,
            forall|i: int|
                (0 <= i < old(self)@.files.len() && (#[trigger] old(self)@.files[i]).id == id@)
                    ==> sum_sizes(old(self)@.files) - old(self)@.files[i].size + size <= u64::MAX,
        ensures
            final(self)@.wf(),
            !old(self)@.has_file_id(id@) ==> final(self)@ == old(self)@,
            old(self)@.has_file_id(id@) ==> exists|k: int|
                0 <= k < old(self)@.files.len() && (#[trigger] old(self)@.files[k]).id == id@
                    && final(self)@.files == old(self)@.files.update(
                    k,
                    (FileV { size, updated_at: now, ..old(self)@.files[k] }),
                ) && final(self)@.links == old(self)@.links,
    {
        let pos = self.find_file_pos(id);
        match pos {
            None => {},
            Some(k) => {
                let ghost pre = self@;
                self.files[k].size = size;
                self.files[k].updated_at = now;
                proof {
                    assert(pre.files[k as int].wf());
                    assert(self@.files =~= pre.files.update(
                        k as int,
                        (FileV { size, updated_at: now, ..pre.files[k as int] }),
                    ));
                    assert(self@.links =~= pre.links);
                    lemma_wf_file_update(pre, self@, k as int);
                }
            },
        }
    }

    /// Store a new access level on the row with this id, updating
    /// `updated_at`. An absent id changes nothing.
    pub fn change_access(&mut self, id: &str, access: FileAccess, now: i64)
        requires
            old(self)@.wf(),
        ensures
            final(self)@.wf(),
            !old(self)@.has_file_id(id@) ==> final(self)@ == old(self)@,
            old(self)@.has_file_id(id@) ==> exists|k: int|
                0 <= k < old(self)@.files.len() && (#[trigger] old(self)@.files[k]).id == id@
                    && final(self)@.files == old(self)@.files.update(
                    k,
                    (FileV { access: access.spec_to_i64(), updated_at: now, ..old(self)@.files[k] }),
                ) && final(self)@.links == old(self)@.links,
    {
        let pos = self.find_file_pos(id);
        match pos {
            None => {},
            Some(k) => {
                let ghost pre = self@;
                self.files[k].access = if matches!(access, FileAccess::Public) {
                    1
                } else {
                    0
                };
                self.files[k].updated_at = now;
                proof {
                    assert(pre.files[k as int].wf());
                    assert(self@.files =~= pre.files.update(
                        k as int,
                        (FileV {
                            access: access.spec_to_i64(),
                            updated_at: now,
                            ..pre.files[k as int]
                        }),
                    ));
                    assert(self@.links =~= pre.links);
                    lemma_wf_file_update(pre, self@, k as int);
                }
            },
        }
    }

    /// Move the row with this id to a new path, updating `updated_at`.
    /// Refused with `Conflict` when a different row already holds the path.
    /// An absent id changes nothing.
    pub fn rename(&mut self, id: &str, new_path: &str, now: i64) -> (r: Result<(), IndexError>)
        requires
            old(self)@.wf(),
        ensures
            final(self)@.wf(),
            match r {
                Ok(_) => {
                    &&& (forall|i: int|
                        (0 <= i < old(self)@.files.len() && (#[trigger] old(self)@.files[i]).path
                            == new_path@) ==> old(self)@.files[i].id == id@)
                    &&& (!old(self)@.has_file_id(id@) ==> final(self)@ == old(self)@)
                    &&& (old(self)@.has_file_id(id@) ==> exists|k: int|
                        0 <= k < old(self)@.files.len() && (#[trigger] old(self)@.files[k]).id
                            == id@ && final(self)@.files == old(self)@.files.update(
                            k,
                            (FileV { path: new_path@, updated_at: now, ..old(self)@.files[k] }),
                        ) && final(self)@.links == old(self)@.links)
                },
                Err(e) => {
                    &&& e == IndexError::Conflict
                    &&& exists|i: int|
                        0 <= i < old(self)@.files.len() && (#[trigger] old(self)@.files[i]).path
                            == new_path@ && old(self)@.files[i].id != id@
                    &&& final(self)@ == old(self)@
                },
            },
    {
        match self.get_via_path(new_path) {
            Some(f) => {
                if !str_eq(f.id.as_str(), id) {
                    return Err(IndexError::Conflict);
                }
            },
            None => {},
        }
        let pos = self.find_file_pos(id);
        match pos {
            None => {},
            Some(k) => {
                let ghost pre = self@;
                self.files[k].path = new_path.to_owned();
                self.files[k].updated_at = now;
                proof {
                    assert(pre.files[k as int].wf());
                    assert(self@.files =~= pre.files.update(
                        k as int,
                        (FileV { path: new_path@, updated_at: now, ..pre.files[k as int] }),
                    ));
                    assert(self@.links =~= pre.links);
                    lemma_sum_sizes_update(
                        pre.files,
                        k as int,
                        (FileV { path: new_path@, updated_at: now, ..pre.files[k as int] }),
                    );
                    assert forall|i: int| 0 <= i < self@.files.len() implies (
                    #[trigger] self@.files[i]).wf() by {
                        if i != k {
                            assert(self@.files[i] == pre.files[i]);
                        }
                    }
                    assert forall|i: int, j: int| 0 <= i < j < self@.files.len() implies (
                    #[trigger] self@.files[i]).id != (#[trigger] self@.files[j]).id by {
                        assert(self@.files[i].id == pre.files[i].id);
                        assert(self@.files[j].id == pre.files[j].id);
                    }
                    assert forall|i: int, j: int| 0 <= i < j < self@.files.len() implies (
                    #[trigger] self@.files[i]).path != (#[trigger] self@.files[j]).path by {
                        if i != k && j != k {
                            assert(self@.files[i].path == pre.files[i].path);
                            assert(self@.files[j].path == pre.files[j].path);
                        } else {
                            let other = if i == k {
                                j
                            } else {
                                i
                            };
                            assert(self@.files[other].path == pre.files[other].path);
                            if pre.files[other].path == new_path@ {
                                assert(pre.files[other].id == id@);
                                assert(pre.files[other].id != pre.files[k as int].id);
                            }
                        }
                    }
                }
            },
        }
        Ok(())
    }

    /// Add to the row's download counter (saturating at the machine's
    /// range), record the download instant, and update `updated_at`.
    /// An absent id changes nothing.
    pub fn increment_download_count(&mut self, id: &str, amount: i64, now: i64)
        requires
            old(self)@.wf(),
            amount >= 0,
        ensures
            final(self)@.wf(),
            !old(self)@.has_file_id(id@) ==> final(self)@ == old(self)@,
            old(self)@.has_file_id(id@) ==> exists|k: int|
                0 <= k < old(self)@.files.len() && (#[trigger] old(self)@.files[k]).id == id@
                    && final(self)@.files == old(self)@.files.update(
                    k,
                    (FileV {
                        download_count: sat_add_i64(old(self)@.files[k].download_count, amount),
                        last_downloaded_at: Some(now),
                        updated_at: now,
                        ..old(self)@.files[k]
                    }),
                ) && final(self)@.links == old(self)@.links,
    {
        let pos = self.find_file_pos(id);
        match pos {
            None => {},
            Some(k) => {
                let ghost pre = self@;
                proof {
                    assert(pre.files[k as int].wf());
                }
                let c = self.files[k].download_count;
                let nc = if amount > i64::MAX - c {
                    i64::MAX
                } else {
                    c + amount
                };
                self.files[k].download_count = nc;
                self.files[k].last_downloaded_at = Some(now);
                self.files[k].updated_at = now;
                proof {
                    assert(self@.files =~= pre.files.update(
                        k as int,
                        (FileV {
                            download_count: sat_add_i64(pre.files[k as int].download_count, amount),
                            last_downloaded_at: Some(now),
                            updated_at: now,
                            ..pre.files[k as int]
                        }),
                    ));
                    assert(self@.links =~= pre.links);
                    lemma_wf_file_update(pre, self@, k as int);
                }
            },
        }
    }

    /// Move the resume pointer of the row with this id and update
    /// `updated_at`. An absent id changes nothing.
    pub fn update_chunk_index(&mut self, id: &str, index: i64, now: i64)
        requires
            old(self)@.wf(),
            index >= 0,
            forall|i: int|
                (0 <= i < old(self)@.files.len() && (#[trigger] old(self)@.files[i]).id == id@)
                    ==> old(self)@.files[i].total_chunks >= index,
        ensures
            final(self)@.wf(),
            !old(self)@.has_file_id(id@) ==> final(self)@ == old(self)@,
            old(self)@.has_file_id(id@) ==> exists|k: int|
                0 <= k < old(self)@.files.len() && (#[trigger] old(self)@.files[k]).id == id@
                    && final(self)@.files == old(self)@.files.update(
                    k,
                    (FileV { chunk_index: index, updated_at: now, ..old(self)@.files[k] }),
                ) && final(self)@.links == old(self)@.links,
    {
        let pos = self.find_file_pos(id);
        match pos {
            None => {},
            Some(k) => {
                let ghost pre = self@;
                self.files[k].chunk_index = index;
                self.files[k].updated_at = now;
                proof {
                    assert(pre.files[k as int].wf());
                    assert(self@.files =~= pre.files.update(
                        k as int,
                        (FileV { chunk_index: index, updated_at: now, ..pre.files[k as int] }),
                    ));
                    assert(self@.links =~= pre.links);
                    lemma_wf_file_update(pre, self@, k as int);
                }
            },
        }
    }

    /// Total bytes the index accounts for: the sum of all row sizes.
    pub fn get_bytes_stored(&self) -> (r: u64)
        requires
            self@.wf(),
        ensures
            r == sum_sizes(self@.files),
    {
        let ghost fs = self@.files;
        proof {
            assert forall|i: int| 0 <= i < fs.len() implies (#[trigger] fs[i].size) >= 0 by {
                assert(fs[i].wf());
            }
        }
        let n = self.files.len();
        let mut acc: u64 = 0;
        let mut k: usize = 0;
        while k < n
            invariant
                fs == self@.files,
                self@.wf(),
                n == self.files.len(),
                k <= n,
                acc == sum_sizes(fs.take(k as int)),
                forall|i: int| 0 <= i < fs.len() ==> (#[trigger] fs[i].size) >= 0,
            decreases n - k,
        {
            proof {
                assert(fs[k as int].wf());
                lemma_sum_sizes_take_step(fs, k as int);
                lemma_sum_sizes_take_le(fs, k as int + 1);
            }
            acc = acc + (self.files[k].size as u64);
            k = k + 1;
        }
        proof {
            assert(fs.take(n as int) =~= fs);
        }
        acc
    }

    /// The number of file rows, saturating at the machine's range.
    pub fn get_total_amount_of_files(&self) -> (r: i64)
        ensures
            r == if self@.files.len() > 0x7fff_ffff_ffff_ffff {
                0x7fff_ffff_ffff_ffffi64
            } else {
                self@.files.len() as i64
            },
    {
        let n = self.files.len();
        if n as u64 > 0x7fff_ffff_ffff_ffffu64 {
            0x7fff_ffff_ffff_ffffi64
        } else {
            n as i64
        }
    }

    /// Copies of all file rows, in insertion order.
    pub fn get_all_files(&self) -> (r: Vec<File>)
        ensures
            r@.map_values(|f: File| f@) == self@.files,
    {
        let n = self.files.len();
        let mut out: Vec<File> = Vec::new();
        let mut k: usize = 0;
        proof {
            assert(out@.map_values(|f: File| f@) =~= self@.files.take(0));
        }
        while k < n
            invariant
                n == self.files.len(),
                k <= n,
                out@.map_values(|f: File| f@) == self@.files.take(k as int),
            decreases n - k,
        {
            let d = self.files[k].duplicate();
            let ghost prev = out@;
            out.push(d);
            proof {
                lemma_map_values_push(prev, |f: File| f@, d);
                assert(self@.files.take(k as int).push(self@.files[k as int]) =~= self@.files.take(
                    k as int + 1,
                ));
            }
            k = k + 1;
        }
        proof {
            assert(self@.files.take(n as int) =~= self@.files);
        }
        out
    }

    /// Copies of the file rows that are direct children of `path`, in
    /// insertion order.
    pub fn get_files_in_directory(&self, path: &str) -> (r: Vec<File>)
        ensures
            r@.map_values(|f: File| f@) == self@.files.filter(
                |f: FileV| spec_is_child_path(f.path, path@),
            ),
    {
        let ghost pred = |f: FileV| spec_is_child_path(f.path, path@);
        let n = self.files.len();
        let mut out: Vec<File> = Vec::new();
        let mut k: usize = 0;
        proof {
            reveal(Seq::filter);
            assert(self@.files.take(0).filter(pred) =~= Seq::<FileV>::empty());
            assert(out@.map_values(|f: File| f@) =~= Seq::<FileV>::empty());
        }
        while k < n
            invariant
                n == self.files.len(),
                k <= n,
                out@.map_values(|f: File| f@) == self@.files.take(k as int).filter(pred),
                pred == (|f: FileV| spec_is_child_path(f.path, path@)),
            decreases n - k,
        {
            proof {
                lemma_filter_take_step(self@.files, pred, k as int);
            }
            if is_child_path(self.files[k].path.as_str(), path) {
                let d = self.files[k].duplicate();
                let ghost prev = out@;
                out.push(d);
                proof {
                    lemma_map_values_push(prev, |f: File| f@, d);
                }
            }
            k = k + 1;
        }
        proof {
            assert(self@.files.take(n as int) =~= self@.files);
        }
        out
    }

    /// Insert a fresh, unused link row with both timestamps absent.
    /// Refused with `Conflict` when the id is already taken.
    pub fn new_link(&mut self, id: &str, now: i64) -> (r: Result<FileLink, IndexError>)
        requires
            old(self)@.wf(),
            is_valid_id(id@),
        ensures
            final(self)@.wf(),
            match r {
                Ok(l) => {
                    &&& !old(self)@.has_link_id(id@)
                    &&& l@ == (FileLinkV {
                        id: id@,
                        uploaded_file: None,
                        uploaded_at: None,
                        created_at: now,
                    })
                    &&& final(self)@.links == old(self)@.links.push(l@)
                    &&& final(self)@.files == old(self)@.files
                },
                Err(e) => {
                    &&& e == IndexError::Conflict
                    &&& old(self)@.has_link_id(id@)
                    &&& final(self)@ == old(self)@
                },
            },
    {
        if self.find_link_pos(id).is_some() {
            return Err(IndexError::Conflict);
        }
        let link = FileLink { id: id.to_owned(), uploaded_file: None, uploaded_at: None, created_at: now };
        let out = link.duplicate();
        let ghost pre = self@;
        self.links.push(link);
        proof {
            assert(self@.links =~= pre.links.push(out@));
            assert(self@.files =~= pre.files);
            assert forall|i: int| 0 <= i < self@.links.len() implies (
            #[trigger] self@.links[i]).wf() by {
                if i < pre.links.len() {
                    assert(self@.links[i] == pre.links[i]);
                }
            }
            assert forall|i: int, j: int| 0 <= i < j < self@.links.len() implies (
            #[trigger] self@.links[i]).id != (#[trigger] self@.links[j]).id by {
                if j < pre.links.len() {
                    assert(pre.links[i].id != pre.links[j].id);
                } else {
                    assert(self@.links[i] == pre.links[i]);
                }
            }
        }
        Ok(out)
    }

    /// Bind the link to the file uploaded with it: both the file id and the
    /// upload instant are set, and never again absent. An absent link id
    /// changes nothing.
    pub fn uploaded_with(&mut self, link_id: &str, file_id: &str, now: i64)
        requires
            old(self)@.wf(),
        ensures
            final(self)@.wf(),
            !old(self)@.has_link_id(link_id@) ==> final(self)@ == old(self)@,
            old(self)@.has_link_id(link_id@) ==> exists|k: int|
                0 <= k < old(self)@.links.len() && (#[trigger] old(self)@.links[k]).id == link_id@
                    && final(self)@.links == old(self)@.links.update(
                    k,
                    (FileLinkV {
                        uploaded_file: Some(file_id@),
                        uploaded_at: Some(now),
                        ..old(self)@.links[k]
                    }),
                ) && final(self)@.files == old(self)@.files,
    {
        let pos = self.find_link_pos(link_id);
        match pos {
            None => {},
            Some(k) => {
                let ghost pre = self@;
                self.links[k].uploaded_file = Some(file_id.to_owned());
                self.links[k].uploaded_at = Some(now);
                proof {
                    assert(pre.links[k as int].wf());
                    assert(self@.links =~= pre.links.update(
                        k as int,
                        (FileLinkV {
                            uploaded_file: Some(file_id@),
                            uploaded_at: Some(now),
                            ..pre.links[k as int]
                        }),
                    ));
                    assert(self@.files =~= pre.files);
                    assert forall|i: int| 0 <= i < self@.links.len() implies (
                    #[trigger] self@.links[i]).wf() by {
                        if i != k {
                            assert(self@.links[i] == pre.links[i]);
                        }
                    }
                    assert forall|i: int, j: int| 0 <= i < j < self@.links.len() implies (
                    #[trigger] self@.links[i]).id != (#[trigger] self@.links[j]).id by {
                        assert(self@.links[i].id == pre.links[i].id);
                        assert(self@.links[j].id == pre.links[j].id);
                    }
                }
            },
        }
    }

    /// Copies of the link rows not yet bound to an upload, in insertion
    /// order.
    pub fn get_unused_links(&self) -> (r: Vec<FileLink>)
        ensures
            r@.map_values(|l: FileLink| l@) == self@.links.filter(
                |l: FileLinkV| l.uploaded_file is None,
            ),
    {
        let ghost pred = |l: FileLinkV| l.uploaded_file is None;
        let n = self.links.len();
        let mut out: Vec<FileLink> = Vec::new();
        let mut k: usize = 0;
        proof {
            reveal(Seq::filter);
            assert(self@.links.take(0).filter(pred) =~= Seq::<FileLinkV>::empty());
            assert(out@.map_values(|l: FileLink| l@) =~= Seq::<FileLinkV>::empty());
        }
        while k < n
            invariant
                n == self.links.len(),
                k <= n,
                out@.map_values(|l: FileLink| l@) == self@.links.take(k as int).filter(pred),
                pred == (|l: FileLinkV| l.uploaded_file is None),
            decreases n - k,
        {
            proof {
                lemma_filter_take_step(self@.links, pred, k as int);
            }
            if self.links[k].uploaded_file.is_none() {
                let d = self.links[k].duplicate();
                let ghost prev = out@;
                out.push(d);
                proof {
                    lemma_map_values_push(prev, |l: FileLink| l@, d);
                }
            }
            k = k + 1;
        }
        proof {
            assert(self@.links.take(n as int) =~= self@.links);
        }
        out
    }

    /// Remove the link row with this id; removing an absent id changes
    /// nothing.
    pub fn delete_link(&mut self, id: &str)
        requires
            old(self)@.wf(),
        ensures
            final(self)@.wf(),
            final(self)@.files == old(self)@.files,
            !old(self)@.has_link_id(id@) ==> final(self)@ == old(self)@,
            old(self)@.has_link_id(id@) ==> exists|k: int|
                0 <= k < old(self)@.links.len() && (#[trigger] old(self)@.links[k]).id == id@
                    && final(self)@.links == old(self)@.links.remove(k),
            !final(self)@.has_link_id(id@),
    {
        let pos = self.find_link_pos(id);
        match pos {
            None => {},
            Some(k) => {
                let ghost pre = self@;
                self.links.remove(k);
                proof {
                    assert(self@.links =~= pre.links.remove(k as int));
                    assert(self@.files =~= pre.files);
                    assert forall|i: int| 0 <= i < self@.links.len() implies (
                    #[trigger] self@.links[i]).wf() by {
                        if i < k {
                            assert(self@.links[i] == pre.links[i]);
                        } else {
                            assert(self@.links[i] == pre.links[i + 1]);
                        }
                    }
                    assert forall|i: int, j: int| 0 <= i < j < self@.links.len() implies (
                    #[trigger] self@.links[i]).id != (#[trigger] self@.links[j]).id by {
                        let i0 = if i < k { i } else { i + 1 };
                        let j0 = if j < k { j } else { j + 1 };
                        assert(self@.links[i] == pre.links[i0]);
                        assert(self@.links[j] == pre.links[j0]);
                    }
                    assert forall|i: int| 0 <= i < self@.links.len() implies (
                    #[trigger] self@.links[i]).id != id@ by {
                        let i0 = if i < k { i } else { i + 1 };
                        assert(self@.links[i] == pre.links[i0]);
                        if i0 < k {
                            assert(pre.links[i0].id != pre.links[k as int].id);
                        } else if i0 > k {
                            assert(pre.links[k as int].id != pre.links[i0].id);
                        }
                    }
                }
            },
        }
    }
}

} // verus!
