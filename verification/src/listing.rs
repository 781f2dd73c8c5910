//! Directory listings: the union of what the backing store shows and what
//! the index knows, joined on the normalised path.
//!
//! Entries under the reserved public-uploads prefix are hidden, and files
//! whose row still records size zero (an upload in progress) are
//! suppressed.

use vstd::prelude::*;

verus! {

use vstd::string::{StrSliceExecFns, StringExecFns};
use crate::index::Index;
use crate::records::{ClientFile, ClientFileV, File, FileV, FileMetadata, FileMetadataV};
use crate::text::{spec_normalize_separators, str_eq, replace_backslashes, str_starts_with};

/// The logical path of a listed entry: the listing's base path, a slash,
/// and the entry's own name; just the name under the root.
pub open spec fn spec_join_path(base: Seq<char>, name: Seq<char>) -> Seq<char> {
    if base.len() == 0 {
        name
    } else {
        base + seq!['/'] + name
    }
}

/// Join the base path and an entry name with a slash.
pub fn join_path(base: &str, name: &str) -> (r: String)
    ensures
        r@ == spec_join_path(base@, name@),
{
    if base.unicode_len() == 0 {
        name.to_owned()
    } else {
        let mut out = base.to_owned();
        out.append("/");
        out.append(name);
        proof {
            reveal_strlit("/");
            assert("/"@ =~= seq!['/']);
            assert(out@ =~= base@ + seq!['/'] + name@);
        }
        out
    }
}

/// The first index row whose normalised path equals `target`.
pub open spec fn spec_find_by_norm_path(db: Seq<FileV>, target: Seq<char>) -> Option<FileV>
    decreases db.len(),
{
    if db.len() == 0 {
        None
    } else if spec_normalize_separators(db[0].path) == target {
        Some(db[0])
    } else {
        spec_find_by_norm_path(db.skip(1), target)
    }
}

/// Find the first row whose normalised path equals `target`.
fn find_by_norm_path<'a>(db: &'a Vec<File>, target: &str) -> (r: Option<&'a File>)
    ensures
        match r {
            Some(f) => spec_find_by_norm_path(db@.map_values(|f: File| f@), target@) == Some(f@),
            None => spec_find_by_norm_path(db@.map_values(|f: File| f@), target@) == None::<FileV>,
        },
{
    let ghost dbv = db@.map_values(|f: File| f@);
    let n = db.len();
    let mut k: usize = 0;
    proof {
        assert(dbv.skip(0) =~= dbv);
    }
    while k < n
        invariant
            dbv == db@.map_values(|f: File| f@),
            n == db.len(),
            k <= n,
            spec_find_by_norm_path(dbv, target@) == spec_find_by_norm_path(
                dbv.skip(k as int),
                target@,
            ),
        decreases n - k,
    {
        let norm = replace_backslashes(db[k].path.as_str());
        proof {
            assert(dbv.skip(k as int)[0] == dbv[k as int]);
        }
        if str_eq(norm.as_str(), target) {
            return Some(&db[k]);
        }
        proof {
            assert(dbv.skip(k as int).skip(1) =~= dbv.skip(k as int + 1));
        }
        k = k + 1;
    }
    proof {
        assert(dbv.skip(n as int) =~= Seq::<FileV>::empty());
    }
    None
}

/// The listing row for one storage entry, joined with its index row: no
/// row gives an unindexed entry, a row with size zero suppresses the entry
/// (its upload is still running), any other row contributes id and access.
pub open spec fn spec_client_row(
    base: Seq<char>,
    entry: FileMetadataV,
    db: Seq<FileV>,
) -> Option<ClientFileV> {
    let target = spec_normalize_separators(spec_join_path(base, entry.path));
    match spec_find_by_norm_path(db, target) {
        None => Some(
            ClientFileV {
                path: entry.path,
                is_dir: entry.is_dir,
                size: entry.size,
                modified: entry.modified,
                id: None,
                access: None,
            },
        ),
        Some(d) => if d.size == 0 {
            None
        } else {
            Some(
                ClientFileV {
                    path: entry.path,
                    is_dir: entry.is_dir,
                    size: entry.size,
                    modified: entry.modified,
                    id: Some(d.id),
                    access: Some(d.access),
                },
            )
        },
    }
}

/// The joined rows for a sequence of storage entries, in their order.
pub open spec fn spec_client_rows(
    base: Seq<char>,
    reals: Seq<FileMetadataV>,
    db: Seq<FileV>,
) -> Seq<ClientFileV>
    decreases reals.len(),
{
    if reals.len() == 0 {
        Seq::empty()
    } else {
        spec_client_rows(base, reals.drop_last(), db) + (match spec_client_row(
            base,
            reals.last(),
            db,
        ) {
            Some(row) => seq![row],
            None => Seq::empty(),
        })
    }
}

impl ClientFile {
    /// Join the storage listing with the index rows: one row per storage
    /// entry, carrying the matching record's id and access where one
    /// exists, and suppressing entries whose upload has not finished.
    pub fn from(base_path: &str, real_files: Vec<FileMetadata>, db_files: Vec<File>) -> (r: Vec<
        ClientFile,
    >)
        ensures
            r@.map_values(|c: ClientFile| c@) == spec_client_rows(
                base_path@,
                real_files@.map_values(|m: FileMetadata| m@),
                db_files@.map_values(|f: File| f@),
            ),
    {
        let ghost realsv = real_files@.map_values(|m: FileMetadata| m@);
        let ghost dbv = db_files@.map_values(|f: File| f@);
        let n = real_files.len();
        let mut out: Vec<ClientFile> = Vec::new();
        let mut k: usize = 0;
        proof {
            assert(out@.map_values(|c: ClientFile| c@) =~= spec_client_rows(
                base_path@,
                realsv.take(0),
                dbv,
            ));
        }
        while k < n
            invariant
                realsv == real_files@.map_values(|m: FileMetadata| m@),
                dbv == db_files@.map_values(|f: File| f@),
                n == real_files.len(),
                k <= n,
                out@.map_values(|c: ClientFile| c@) == spec_client_rows(
                    base_path@,
                    realsv.take(k as int),
                    dbv,
                ),
            decreases n - k,
        {
            proof {
                assert(realsv.take(k as int + 1).drop_last() =~= realsv.take(k as int));
                assert(realsv.take(k as int + 1).last() == realsv[k as int]);
            }
            let entry = &real_files[k];
            let joined = join_path(base_path, entry.path.as_str());
            let target = replace_backslashes(joined.as_str());
            let row: Option<ClientFile> = match find_by_norm_path(&db_files, target.as_str()) {
                None => Some(
                    ClientFile {
                        path: entry.path.clone(),
                        is_dir: entry.is_dir,
                        size: entry.size,
                        modified: entry.modified,
                        id: None,
                        access: None,
                    },
                ),
                Some(d) => {
                    if d.size == 0 {
                        None
                    } else {
                        Some(
                            ClientFile {
                                path: entry.path.clone(),
                                is_dir: entry.is_dir,
                                size: entry.size,
                                modified: entry.modified,
                                id: Some(d.id.clone()),
                                access: Some(d.access),
                            },
                        )
                    }
                },
            };
            match row {
                Some(c) => {
                    let ghost prev = out@;
                    out.push(c);
                    proof {
                        assert(out@.map_values(|x: ClientFile| x@) =~= prev.map_values(
                            |x: ClientFile| x@,
                        ).push(out@.last()@));
                        assert(out@.map_values(|x: ClientFile| x@) =~= spec_client_rows(
                            base_path@,
                            realsv.take(k as int + 1),
                            dbv,
                        ));
                    }
                },
                None => {
                    proof {
                        assert(out@.map_values(|x: ClientFile| x@) =~= spec_client_rows(
                            base_path@,
                            realsv.take(k as int + 1),
                            dbv,
                        ));
                    }
                },
            }
            k = k + 1;
        }
        proof {
            assert(realsv.take(n as int) =~= realsv);
        }
        out
    }
}

/// The hidden prefix: rows under the reserved public-uploads directory do
/// not appear in listings.
pub open spec fn spec_row_hidden(row: ClientFileV) -> bool {
    row.path.len() >= ".public_uploads"@.len() && row.path.take(".public_uploads"@.len() as int)
        == ".public_uploads"@
}

/// The full listing decision: join storage and index rows, then hide the
/// reserved public-uploads entries.
pub fn directory_listing(
    index: &Index,
    base_path: &str,
    storage_files: Vec<FileMetadata>,
) -> (r: Vec<ClientFile>)
    ensures
        r@.map_values(|c: ClientFile| c@) == spec_client_rows(
            base_path@,
            storage_files@.map_values(|m: FileMetadata| m@),
            index@.files.filter(
                |f: FileV| crate::index::spec_is_child_path(f.path, base_path@),
            ),
        ).filter(|row: ClientFileV| !spec_row_hidden(row)),
{
    let ghost pred = |row: ClientFileV| !spec_row_hidden(row);
    let db_files = index.get_files_in_directory(base_path);
    let joined = ClientFile::from(base_path, storage_files, db_files);
    let ghost joinedv = joined@.map_values(|c: ClientFile| c@);
    let n = joined.len();
    let mut out: Vec<ClientFile> = Vec::new();
    let mut k: usize = 0;
    proof {
        assert(out@.map_values(|c: ClientFile| c@) =~= joinedv.take(0).filter(pred));
        reveal(Seq::filter);
    }
    while k < n
        invariant
            joinedv == joined@.map_values(|c: ClientFile| c@),
            n == joined.len(),
            k <= n,
            out@.map_values(|c: ClientFile| c@) == joinedv.take(k as int).filter(pred),
            pred == (|row: ClientFileV| !spec_row_hidden(row)),
        decreases n - k,
    {
        proof {
            crate::index::lemma_filter_take_step(joinedv, pred, k as int);
        }
        let hidden = str_starts_with(joined[k].path.as_str(), ".public_uploads");
        if !hidden {
            let row = &joined[k];
            let d = ClientFile {
                path: row.path.clone(),
                is_dir: row.is_dir,
                size: row.size,
                modified: row.modified,
                id: match &row.id {
                    Some(i) => Some(i.clone()),
                    None => None,
                },
                access: row.access,
            };
            let ghost prev = out@;
            out.push(d);
            proof {
                crate::index::lemma_map_values_push(prev, |c: ClientFile| c@, out@.last());
                assert(out@.last()@ == joinedv[k as int]);
            }
        }
        k = k + 1;
    }
    proof {
        assert(joinedv.take(n as int) =~= joinedv);
    }
    out
}

} // verus!
