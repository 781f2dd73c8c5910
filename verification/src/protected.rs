//! The token-protected management surface: link management, file
//! management, storage accounting and the path/id translations.
//!
//! Each function here is the decision a route handler carries out; the
//! process around it does the transport and mirrors index changes to
//! storage where a function says so.

use vstd::prelude::*;

verus! {

use crate::error::ServiceError;
use crate::index::{Index, sum_sizes, lemma_file_at_path_unique, lemma_file_with_id_unique,
    lemma_link_with_id_unique};
use crate::records::{File, FileV, FileAccess};

/// Body of the login route.
#[derive(Clone, Debug)]
pub struct AuthenticateBody {
    pub token: String,
}

/// Query of the rename route: the destination path.
#[derive(Clone, Debug)]
pub struct RenameQuery {
    pub to: String,
}

/// Query of the access route: the new access value, and whether the key is
/// an id rather than a path.
#[derive(Clone, Debug)]
pub struct ChangeAccessQuery {
    pub access: i64,
    pub id: Option<bool>,
}

/// What the storage-limit route reports: bytes used and the configured
/// ceiling.
#[derive(Clone, Copy, Debug)]
pub struct StorageLimit {
    pub used: u64,
    pub max: u64,
}

/// What the file-system info route reports.
#[derive(Clone, Debug)]
pub struct FileSystemInfo {
    pub which: String,
    pub about: String,
}

/// Validate that a link still grants an upload: refused as `NotFound` when
/// no such link exists, as `InvalidArgument` when it was already used.
pub fn verify_link(index: &Index, id: &str) -> (r: Result<(), ServiceError>)
    requires
        index@.wf(),
    ensures
        match r {
            Ok(_) => index@.has_link_id(id@) && index@.spec_link_with_id(
                id@,
            ).spec_is_valid_to_use(),
            Err(e) => match e {
                ServiceError::NotFound => !index@.has_link_id(id@),
                ServiceError::InvalidArgument => index@.has_link_id(id@) && !index@.spec_link_with_id(
                    id@,
                ).spec_is_valid_to_use(),
                _ => false,
            },
        },
{
    match index.get_link_via_id(id) {
        None => Err(ServiceError::NotFound),
        Some(l) => {
            proof {
                lemma_link_with_id_unique(index@, id@, l@);
            }
            if l.is_valid_to_use() {
                Ok(())
            } else {
                Err(ServiceError::InvalidArgument)
            }
        },
    }
}

/// Remove a file: its row leaves the index, and the returned id names the
/// bytes the store must delete next.
pub fn remove_file(index: &mut Index, path: &str) -> (r: Result<String, ServiceError>)
    requires
        old(index)@.wf(),
    ensures
        final(index)@.wf(),
        final(index)@.links == old(index)@.links,
        match r {
            Ok(id) => {
                &&& old(index)@.has_file_path(path@)
                &&& id@ == old(index)@.spec_file_at_path(path@).id
                &&& exists|k: int|
                    0 <= k < old(index)@.files.len() && (#[trigger] old(index)@.files[k]).id == id@
                        && final(index)@.files == old(index)@.files.remove(k)
                &&& !final(index)@.has_file_id(id@)
            },
            Err(e) => {
                &&& e == ServiceError::NotFound
                &&& !old(index)@.has_file_path(path@)
                &&& final(index)@ == old(index)@
            },
        },
{
    let id: String = match index.get_via_path(path) {
        Some(f) => {
            proof {
                lemma_file_at_path_unique(index@, path@, f@);
            }
            f.id.clone()
        },
        None => {
            return Err(ServiceError::NotFound);
        },
    };
    index.delete(id.as_str());
    Ok(id)
}

/// Rename a file's row; the store must rename the bytes next. Refused with
/// `NotFound` when the path names no row, `Conflict` when the destination
/// path is already another row's.
pub fn rename_file(index: &mut Index, path: &str, to: &str, now: i64) -> (r: Result<
    (),
    ServiceError,
>)
    requires
        old(index)@.wf(),
    ensures
        final(index)@.wf(),
        final(index)@.links == old(index)@.links,
        match r {
            Ok(_) => {
                &&& old(index)@.has_file_path(path@)
                &&& exists|k: int|
                    0 <= k < old(index)@.files.len() && (#[trigger] old(index)@.files[k]).id
                        == old(index)@.spec_file_at_path(path@).id && final(index)@.files == old(
                        index,
                    )@.files.update(
                        k,
                        (FileV { path: to@, updated_at: now, ..old(index)@.files[k] }),
                    )
            },
            Err(e) => {
                &&& final(index)@ == old(index)@
                &&& match e {
                    ServiceError::NotFound => !old(index)@.has_file_path(path@),
                    ServiceError::Conflict => old(index)@.has_file_path(path@) && exists|i: int|
                        0 <= i < old(index)@.files.len() && (#[trigger] old(index)@.files[i]).path
                            == to@ && old(index)@.files[i].id != old(index)@.spec_file_at_path(
                            path@,
                        ).id,
                    _ => false,
                }
            },
        },
{
    let id: String = match index.get_via_path(path) {
        Some(f) => {
            proof {
                lemma_file_at_path_unique(index@, path@, f@);
            }
            f.id.clone()
        },
        None => {
            return Err(ServiceError::NotFound);
        },
    };
    match index.rename(id.as_str(), to, now) {
        Ok(_) => {
            proof {
                assert(old(index)@.has_file_id(id@)) by {
                    let f = old(index)@.spec_file_at_path(path@);
                    lemma_file_with_id_unique(old(index)@, id@, f);
                }
            }
            Ok(())
        },
        Err(_) => Err(ServiceError::Conflict),
    }
}

/// Change a file's access level; the key is an id when `by_id`, else a
/// path. Refused with `NotFound` when the key names no row.
pub fn change_access(index: &mut Index, key: &str, by_id: bool, access_value: i64, now: i64) -> (r:
    Result<(), ServiceError>)
    requires
        old(index)@.wf(),
    ensures
        final(index)@.wf(),
        final(index)@.links == old(index)@.links,
        match r {
            Ok(_) => exists|k: int|
                0 <= k < old(index)@.files.len() && (if by_id {
                    (#[trigger] old(index)@.files[k]).id == key@
                } else {
                    (#[trigger] old(index)@.files[k]).path == key@
                }) && final(index)@.files == old(index)@.files.update(
                    k,
                    (FileV {
                        access: FileAccess::spec_from_i64(access_value).spec_to_i64(),
                        updated_at: now,
                        ..old(index)@.files[k]
                    }),
                ),
            Err(e) => {
                &&& e == ServiceError::NotFound
                &&& (if by_id {
                    !old(index)@.has_file_id(key@)
                } else {
                    !old(index)@.has_file_path(key@)
                })
                &&& final(index)@ == old(index)@
            },
        },
{
    let id: String = if by_id {
        match index.get_via_id(key) {
            Some(f) => {
                proof {
                    lemma_file_with_id_unique(index@, key@, f@);
                }
                f.id.clone()
            },
            None => {
                return Err(ServiceError::NotFound);
            },
        }
    } else {
        match index.get_via_path(key) {
            Some(f) => {
                proof {
                    lemma_file_at_path_unique(index@, key@, f@);
                }
                f.id.clone()
            },
            None => {
                return Err(ServiceError::NotFound);
            },
        }
    };
    let access = if access_value == 1 {
        FileAccess::Public
    } else {
        FileAccess::Private
    };
    let ghost pre = index@;
    index.change_access(id.as_str(), access, now);
    proof {
        assert(pre.has_file_id(id@));
        let k = choose|k: int|
            0 <= k < pre.files.len() && (#[trigger] pre.files[k]).id == id@ && index@.files
                == pre.files.update(
                k,
                (FileV { access: access.spec_to_i64(), updated_at: now, ..pre.files[k] }),
            ) && index@.links == pre.links;
        if by_id {
            assert(pre.files[k].id == key@);
        } else {
            let f = pre.spec_file_at_path(key@);
            lemma_file_with_id_unique(pre, id@, f);
            assert(pre.files[k] == f);
        }
    }
    Ok(())
}

/// Translate a path to its record; a Private record needs a valid token.
pub fn path_to_id(index: &Index, path: &str, authed: bool) -> (r: Result<File, ServiceError>)
    requires
        index@.wf(),
    ensures
        match r {
            Ok(f) => {
                &&& index@.has_file_path(path@)
                &&& f@ == index@.spec_file_at_path(path@)
                &&& (FileAccess::spec_from_i64(f@.access) == FileAccess::Private ==> authed)
            },
            Err(e) => match e {
                ServiceError::NotFound => !index@.has_file_path(path@),
                ServiceError::Unauthorized => {
                    &&& index@.has_file_path(path@)
                    &&& FileAccess::spec_from_i64(index@.spec_file_at_path(path@).access)
                        == FileAccess::Private
                    &&& !authed
                },
                _ => false,
            },
        },
{
    let file = match index.get_via_path(path) {
        Some(f) => {
            proof {
                lemma_file_at_path_unique(index@, path@, f@);
            }
            f.duplicate()
        },
        None => {
            return Err(ServiceError::NotFound);
        },
    };
    if matches!(file.get_access(), FileAccess::Private) && !authed {
        return Err(ServiceError::Unauthorized);
    }
    Ok(file)
}

/// Translate an id to its record; a Private record needs a valid token.
pub fn id_to_path(index: &Index, id: &str, authed: bool) -> (r: Result<File, ServiceError>)
    requires
        index@.wf(),
    ensures
        match r {
            Ok(f) => {
                &&& index@.has_file_id(id@)
                &&& f@ == index@.spec_file_with_id(id@)
                &&& (FileAccess::spec_from_i64(f@.access) == FileAccess::Private ==> authed)
            },
            Err(e) => match e {
                ServiceError::NotFound => !index@.has_file_id(id@),
                ServiceError::Unauthorized => {
                    &&& index@.has_file_id(id@)
                    &&& FileAccess::spec_from_i64(index@.spec_file_with_id(id@).access)
                        == FileAccess::Private
                    &&& !authed
                },
                _ => false,
            },
        },
{
    let file = match index.get_via_id(id) {
        Some(f) => {
            proof {
                lemma_file_with_id_unique(index@, id@, f@);
            }
            f.duplicate()
        },
        None => {
            return Err(ServiceError::NotFound);
        },
    };
    if matches!(file.get_access(), FileAccess::Private) && !authed {
        return Err(ServiceError::Unauthorized);
    }
    Ok(file)
}

/// The storage-limit report: what the index accounts for, and the
/// configured ceiling.
pub fn get_used_storage_space(index: &Index, storage_limit: u64) -> (r: StorageLimit)
    requires
        index@.wf(),
    ensures
        r.used == sum_sizes(index@.files),
        r.max == storage_limit,
{
    StorageLimit { used: index.get_bytes_stored(), max: storage_limit }
}

} // verus!
