//! Startup reconciliation between the index and the backing store.
//!
//! Two passes: rows whose bytes are gone leave the index; files found on
//! storage without a row get a fresh one, marked with the reconciliation
//! chunk count of -1 and the observed size. The surrounding process walks
//! the storage tree and asks `exists` for each row; the decisions and the
//! row arithmetic live here.

use vstd::prelude::*;

verus! {

use crate::error::ServiceError;
use crate::index::{Index, sum_sizes, lemma_map_values_push};
use crate::records::{File, FileV, is_valid_id};
use crate::text::spec_normalize_separators;

/// The rows left after dropping those whose flag is false.
pub open spec fn keep_flagged(files: Seq<FileV>, flags: Seq<bool>) -> Seq<FileV>
    recommends
        files.len() == flags.len(),
    decreases files.len(),
{
    if files.len() == 0 {
        files
    } else {
        let prefix = keep_flagged(files.drop_last(), flags.drop_last());
        if flags.len() == files.len() && flags.last() {
            prefix.push(files.last())
        } else {
            prefix
        }
    }
}

proof fn lemma_keep_flagged_take_step(files: Seq<FileV>, flags: Seq<bool>, i: int)
    requires
        files.len() == flags.len(),
        0 <= i < files.len(),
    ensures
        keep_flagged(files.take(i + 1), flags.take(i + 1)) == if flags[i] {
            keep_flagged(files.take(i), flags.take(i)).push(files[i])
        } else {
            keep_flagged(files.take(i), flags.take(i))
        },
{
    assert(files.take(i + 1).drop_last() =~= files.take(i));
    assert(flags.take(i + 1).drop_last() =~= flags.take(i));
}

/// Every row kept is a row of the table it was filtered from.
proof fn lemma_keep_flagged_contains(files: Seq<FileV>, flags: Seq<bool>)
    requires
        files.len() == flags.len(),
    ensures
        forall|k: int|
            0 <= k < keep_flagged(files, flags).len() ==> files.contains(
                #[trigger] keep_flagged(files, flags)[k],
            ),
    decreases files.len(),
{
    if files.len() > 0 {
        lemma_keep_flagged_contains(files.drop_last(), flags.drop_last());
        let keep = keep_flagged(files, flags);
        let prefix = keep_flagged(files.drop_last(), flags.drop_last());
        assert forall|k: int| 0 <= k < keep.len() implies files.contains(#[trigger] keep[k]) by {
            if k < prefix.len() {
                assert(files.drop_last().contains(prefix[k]));
                let j = choose|j: int|
                    0 <= j < files.drop_last().len() && files.drop_last()[j] == prefix[k];
                assert(files[j] == keep[k]);
            } else {
                assert(keep[k] == files.last());
                assert(files[files.len() - 1] == files.last());
            }
        }
    }
}

/// Keeping a subset of well-formed, key-distinct rows keeps them well
/// formed and key-distinct, and cannot grow the total size.
proof fn lemma_keep_flagged_wf(files: Seq<FileV>, flags: Seq<bool>)
    requires
        files.len() == flags.len(),
        forall|i: int| 0 <= i < files.len() ==> (#[trigger] files[i]).wf(),
        forall|i: int, j: int|
            0 <= i < j < files.len() ==> (#[trigger] files[i]).id != (#[trigger] files[j]).id,
        forall|i: int, j: int|
            0 <= i < j < files.len() ==> (#[trigger] files[i]).path != (#[trigger] files[j]).path,
    ensures
        ({
            let keep = keep_flagged(files, flags);
            &&& forall|i: int| 0 <= i < keep.len() ==> (#[trigger] keep[i]).wf()
            &&& forall|i: int, j: int|
                0 <= i < j < keep.len() ==> (#[trigger] keep[i]).id != (#[trigger] keep[j]).id
            &&& forall|i: int, j: int|
                0 <= i < j < keep.len() ==> (#[trigger] keep[i]).path != (#[trigger] keep[j]).path
            &&& sum_sizes(keep) <= sum_sizes(files)
        }),
    decreases files.len(),
{
    let keep = keep_flagged(files, flags);
    if files.len() == 0 {
    } else {
        let fp = files.drop_last();
        let gp = flags.drop_last();
        lemma_keep_flagged_wf(fp, gp);
        lemma_keep_flagged_contains(fp, gp);
        let prefix = keep_flagged(fp, gp);
        assert forall|i: int| 0 <= i < keep.len() implies (#[trigger] keep[i]).wf() by {
            if i < prefix.len() {
                assert(prefix[i].wf());
            } else {
                assert(keep[i] == files.last());
                assert(files[files.len() - 1].wf());
            }
        }
        assert forall|i: int, j: int| 0 <= i < j < keep.len() implies (#[trigger] keep[i]).id != (
        #[trigger] keep[j]).id by {
            if j < prefix.len() {
                assert(prefix[i].id != prefix[j].id);
            } else {
                assert(keep[j] == files.last());
                assert(fp.contains(prefix[i]));
                let m = choose|m: int| 0 <= m < fp.len() && fp[m] == prefix[i];
                assert(files[m] == prefix[i]);
                assert(files[m].id != files[files.len() - 1].id);
            }
        }
        assert forall|i: int, j: int| 0 <= i < j < keep.len() implies (#[trigger] keep[i]).path
            != (#[trigger] keep[j]).path by {
            if j < prefix.len() {
                assert(prefix[i].path != prefix[j].path);
            } else {
                assert(keep[j] == files.last());
                assert(fp.contains(prefix[i]));
                let m = choose|m: int| 0 <= m < fp.len() && fp[m] == prefix[i];
                assert(files[m] == prefix[i]);
                assert(files[m].path != files[files.len() - 1].path);
            }
        }
        assert(files[files.len() - 1].wf());
        if flags.last() {
            assert(keep =~= prefix.push(files.last()));
            assert(sum_sizes(keep) == sum_sizes(prefix) + files.last().size) by {
                assert(keep.drop_last() =~= prefix);
                assert(keep.last() == files.last());
            }
        } else {
            assert(sum_sizes(files) == sum_sizes(fp) + files.last().size);
        }
    }
}

/// A dropped row's id names nothing in the kept table.
proof fn lemma_keep_flagged_drops(files: Seq<FileV>, flags: Seq<bool>, i: int)
    requires
        files.len() == flags.len(),
        forall|a: int, b: int|
            0 <= a < b < files.len() ==> (#[trigger] files[a]).id != (#[trigger] files[b]).id,
        0 <= i < files.len(),
        !flags[i],
    ensures
        forall|k: int|
            0 <= k < keep_flagged(files, flags).len() ==> (#[trigger] keep_flagged(files, flags)[k]).id
                != files[i].id,
    decreases files.len(),
{
    let keep = keep_flagged(files, flags);
    let fp = files.drop_last();
    let gp = flags.drop_last();
    lemma_keep_flagged_contains(fp, gp);
    let prefix = keep_flagged(fp, gp);
    if i == files.len() - 1 {
        assert forall|k: int| 0 <= k < keep.len() implies (#[trigger] keep[k]).id != files[i].id by {
            assert(keep[k] == prefix[k]);
            assert(fp.contains(prefix[k]));
            let m = choose|m: int| 0 <= m < fp.len() && fp[m] == prefix[k];
            assert(files[m] == prefix[k]);
            assert(files[m].id != files[files.len() - 1].id);
        }
    } else {
        lemma_keep_flagged_drops(fp, gp, i);
        assert forall|k: int| 0 <= k < keep.len() implies (#[trigger] keep[k]).id != files[i].id by {
            if k < prefix.len() {
                assert(prefix[k].id != fp[i].id);
            } else {
                assert(keep[k] == files.last());
                assert(files[i].id != files[files.len() - 1].id);
            }
        }
    }
}

/// The first reconciliation pass: drop every row whose bytes are gone.
/// `exists` holds, for each row in table order, whether the backing store
/// still has its path; rows flagged false are removed, the rest keep their
/// order.
pub fn sync_from_db(index: &mut Index, exists: &Vec<bool>)
    requires
        old(index)@.wf(),
        exists@.len() == old(index)@.files.len(),
    ensures
        final(index)@.wf(),
        final(index)@.files == keep_flagged(old(index)@.files, exists@),
        final(index)@.links == old(index)@.links,
        forall|i: int|
            (0 <= i < old(index)@.files.len() && !exists@[i]) ==> !final(index)@.has_file_id(
                (#[trigger] old(index)@.files[i]).id,
            ),
{
    let ghost pre = index@;
    let n = index.files.len();
    let mut out: Vec<File> = Vec::new();
    let mut k: usize = 0;
    proof {
        assert(out@.map_values(|f: File| f@) =~= keep_flagged(pre.files.take(0), exists@.take(0)));
    }
    while k < n
        invariant
            pre == index@,
            n == index.files.len(),
            exists@.len() == n,
            k <= n,
            out@.map_values(|f: File| f@) == keep_flagged(
                pre.files.take(k as int),
                exists@.take(k as int),
            ),
        decreases n - k,
    {
        proof {
            lemma_keep_flagged_take_step(pre.files, exists@, k as int);
        }
        if exists[k] {
            let d = index.files[k].duplicate();
            let ghost prev = out@;
            out.push(d);
            proof {
                lemma_map_values_push(prev, |f: File| f@, d);
            }
        }
        k = k + 1;
    }
    index.files = out;
    proof {
        assert(pre.files.take(n as int) =~= pre.files);
        assert(exists@.take(n as int) =~= exists@);
        assert(index@.files == keep_flagged(pre.files, exists@));
        assert(index@.links =~= pre.links);
        lemma_keep_flagged_wf(pre.files, exists@);
        assert forall|i: int| (0 <= i < pre.files.len() && !exists@[i]) implies !index@.has_file_id(
            (#[trigger] pre.files[i]).id,
        ) by {
            lemma_keep_flagged_drops(pre.files, exists@, i);
            if index@.has_file_id(pre.files[i].id) {
                let m = choose|m: int|
                    0 <= m < index@.files.len() && (#[trigger] index@.files[m]).id
                        == pre.files[i].id;
                assert(index@.files[m].id != pre.files[i].id);
            }
        }
    }
}

/// The logical path a discovered storage entry gets: separators
/// normalised, the root prefix and its following slash stripped. None when
/// the entry does not lie under the root.
pub open spec fn spec_sync_db_path(full: Seq<char>, root: Seq<char>) -> Option<Seq<char>> {
    let norm = spec_normalize_separators(full);
    if root.len() <= norm.len() && norm.take(root.len() as int) == root {
        let rest = norm.skip(root.len() as int);
        if rest.len() > 0 && rest[0] == '/' {
            Some(rest.skip(1))
        } else {
            Some(rest)
        }
    } else {
        None
    }
}

/// The second reconciliation pass, for one discovered storage entry.
///
/// The entry's path is normalised and stripped of the storage root; an
/// entry outside the root or already indexed changes nothing. Otherwise a
/// fresh row appears under `fresh_id`, marked `total_chunks` -1 and
/// recorded with the observed size; the insert is owed, and is refused
/// only when the fresh id is already taken (`Conflict`) or the observed
/// size would push the total stored bytes past the machine's range
/// (`InsufficientStorage`), each if and only if.
pub fn handle_entry(
    index: &mut Index,
    full_path: &str,
    root: &str,
    size: i64,
    fresh_id: &str,
    now: i64,
) -> (r: Result<bool, ServiceError>)
    requires
        old(index)@.wf(),
        is_valid_id(fresh_id@),
        size >= 0,
        old(index)@.files.len() < 0x7fff_ffff_ffff_ffff,
    ensures
        final(index)@.wf(),
        final(index)@.links == old(index)@.links,
        r != Ok::<bool, ServiceError>(true) ==> final(index)@ == old(index)@,
        (r == Ok::<bool, ServiceError>(false)) <==> (match spec_sync_db_path(full_path@, root@) {
            None => true,
            Some(p) => old(index)@.has_file_path(p),
        }),
        (r == Err::<bool, ServiceError>(ServiceError::InsufficientStorage)) <==> ({
            &&& spec_sync_db_path(full_path@, root@) matches Some(p) && !old(
                index,
            )@.has_file_path(p)
            &&& sum_sizes(old(index)@.files) + size > u64::MAX
        }),
        (r == Err::<bool, ServiceError>(ServiceError::Conflict)) <==> ({
            &&& spec_sync_db_path(full_path@, root@) matches Some(p) && !old(
                index,
            )@.has_file_path(p)
            &&& sum_sizes(old(index)@.files) + size <= u64::MAX
            &&& old(index)@.has_file_id(fresh_id@)
        }),
        r is Err ==> (r == Err::<bool, ServiceError>(ServiceError::Conflict) || r == Err::<
            bool,
            ServiceError,
        >(ServiceError::InsufficientStorage)),
        (r == Ok::<bool, ServiceError>(true)) ==> (spec_sync_db_path(full_path@, root@) matches Some(
            p,
        ) && !old(index)@.has_file_path(p) && final(index)@.files == old(index)@.files.push(
            (FileV {
                id: fresh_id@,
                path: p,
                size: size,
                download_count: 0,
                last_downloaded_at: None,
                created_at: now,
                updated_at: now,
                access: 0,
                chunk_index: 0,
                total_chunks: -1i64,
            }),
        )),
{
    let normalized = crate::text::replace_backslashes(full_path);
    if !crate::text::str_starts_with(normalized.as_str(), root) {
        return Ok(false);
    }
    let rl = root.unicode_len();
    let nl = normalized.as_str().unicode_len();
    let rest = normalized.as_str().substring_char(rl, nl);
    let db_path = if rest.unicode_len() > 0 && rest.get_char(0) == '/' {
        rest.substring_char(1, rest.unicode_len()).to_owned()
    } else {
        rest.to_owned()
    };
    proof {
        let norm = spec_normalize_separators(full_path@);
        assert(norm.take(root@.len() as int) == root@);
        assert(rest@ =~= norm.skip(root@.len() as int));
        if rest@.len() > 0 && rest@[0] == '/' {
            assert(db_path@ =~= rest@.skip(1));
        }
        assert(spec_sync_db_path(full_path@, root@) == Some(db_path@));
    }
    match index.get_via_path(db_path.as_str()) {
        Some(_) => {
            return Ok(false);
        },
        None => {},
    }
    let stored = index.get_bytes_stored();
    if size as u64 > u64::MAX - stored {
        return Err(ServiceError::InsufficientStorage);
    }
    let ghost pre = index@;
    match index.new_file(fresh_id, db_path.as_str(), -1, now) {
        Ok(_) => {},
        Err(_) => {
            return Err(ServiceError::Conflict);
        },
    }
    let ghost mid = index@;
    proof {
        assert(mid.files[mid.files.len() - 1].id == fresh_id@);
        assert forall|i: int|
            (0 <= i < mid.files.len() && (#[trigger] mid.files[i]).id == fresh_id@) implies
            sum_sizes(mid.files) - mid.files[i].size + size <= u64::MAX by {
            if i < mid.files.len() - 1 {
                assert(mid.files[i] == pre.files[i]);
                assert(pre.files[i].id != fresh_id@) by {
                    if pre.has_file_id(fresh_id@) {
                        assert(false);
                    }
                    assert(!pre.has_file_id(fresh_id@));
                }
            }
            assert(sum_sizes(mid.files) == sum_sizes(pre.files)) by {
                assert(mid.files.drop_last() =~= pre.files);
                assert(mid.files.last().size == 0);
            }
        };
    }
    index.successful_upload(fresh_id, size, now);
    proof {
        let k = choose|k: int|
            0 <= k < mid.files.len() && (#[trigger] mid.files[k]).id == fresh_id@ && index@.files
                == mid.files.update(
                k,
                (FileV { size: size, updated_at: now, ..mid.files[k] }),
            ) && index@.links == mid.links;
        assert(mid.has_file_id(fresh_id@)) by {
            assert(mid.files[mid.files.len() - 1].id == fresh_id@);
        }
        if k < mid.files.len() - 1 {
            assert(mid.files[k] == pre.files[k]);
            assert(!pre.has_file_id(fresh_id@));
            assert(false);
        }
        assert(index@.files =~= pre.files.push(
            (FileV {
                id: fresh_id@,
                path: spec_sync_db_path(full_path@, root@).unwrap(),
                size: size,
                download_count: 0,
                last_downloaded_at: None,
                created_at: now,
                updated_at: now,
                access: 0,
                chunk_index: 0,
                total_chunks: -1i64,
            }),
        ));
    }
    Ok(true)
}

} // verus!
