//! The resumable chunked-upload state machine.
//!
//! One `UploadEngine` drives one upload connection, from the initial
//! handshake to completion. The surrounding process owns the socket, the
//! write handle and the clock; it decodes frames, asks the engine what each
//! one means, performs the seek-and-write the engine instructs, and reports
//! back. The engine is authoritative about the chunk ordinal: a client chunk
//! with the wrong ordinal is answered with a resynchronisation message and
//! does not advance anything.

use vstd::prelude::*;

verus! {

use vstd::arithmetic::div_mod::lemma_fundamental_div_mod;
use vstd::string::StrSliceExecFns;
use crate::index::{Index, sum_sizes};
use crate::records::{File, FileV, FileLinkV, is_valid_id};
use crate::simply_packet::{Packet, PacketV, ChunkV};

/// Why an upload session failed or refused to start.
#[derive(Clone, Copy, Debug, PartialEq, Eq, Structural)]
pub enum UploadError {
    /// A frame that is not a binary chunk arrived inside the chunk loop.
    UnexpectedPacketType,
    /// The storage limit is already reached.
    InsufficientStorage,
    /// The destination path failed validation.
    InvalidPath,
    /// The announced size or chunk size is outside what can be stored.
    InvalidArgument,
    /// A fresh row could not be inserted because its id is already taken.
    Conflict,
    /// The session's record disappeared from the index.
    NotFound,
}

/// A destination path is valid when its first component is an ordinary
/// name: not absent, not the current directory, not a parent reference.
pub open spec fn spec_path_is_valid(p: Seq<char>) -> bool {
    &&& p.len() > 0
    &&& p[0] != '/'
    &&& !(p[0] == '.' && (p.len() == 1 || p[1] == '/'))
    &&& !(p.len() >= 2 && p[0] == '.' && p[1] == '.' && (p.len() == 2 || p[2] == '/'))
}

/// A path cannot be absolute, name a parent, or start with an empty or
/// bare-dot component.
pub fn path_is_valid(path: &str) -> (r: bool)
    ensures
        r == spec_path_is_valid(path@),
{
    let n = path.unicode_len();
    if n == 0 {
        return false;
    }
    let c0 = path.get_char(0);
    if c0 == '/' {
        return false;
    }
    if c0 == '.' {
        if n == 1 {
            return false;
        }
        let c1 = path.get_char(1);
        if c1 == '/' {
            return false;
        }
        if c1 == '.' {
            if n == 2 {
                return false;
            }
            if path.get_char(2) == '/' {
                return false;
            }
        }
    }
    true
}

/// The inputs spec_path_is_valid rejects include every path beginning with
/// a slash, a parent reference, or nothing at all.
pub proof fn lemma_path_validation(p: Seq<char>)
    requires
        ({
            ||| p.len() == 0
            ||| (p.len() > 0 && p[0] == '/')
            ||| (p.len() >= 2 && p[0] == '.' && p[1] == '.' && (p.len() == 2 || p[2] == '/'))
        }),
    ensures
        !spec_path_is_valid(p),
{
}

/// The number of chunks an upload of `size` bytes takes in chunks of
/// `chunk_size`: the quotient, rounded up.
pub open spec fn spec_total_chunks(size: u64, chunk_size: u64) -> int
    recommends
        chunk_size > 0,
{
    if (size as int) % (chunk_size as int) == 0 {
        (size as int) / (chunk_size as int)
    } else {
        (size as int) / (chunk_size as int) + 1
    }
}

/// The chunk count covers the whole size, and all chunks but the last are
/// needed in full.
pub proof fn lemma_total_chunks_bounds(size: u64, chunk_size: u64)
    requires
        chunk_size > 0,
    ensures
        0 <= spec_total_chunks(size, chunk_size) <= size,
        spec_total_chunks(size, chunk_size) * chunk_size >= size,
        size > 0 ==> (spec_total_chunks(size, chunk_size) - 1) * chunk_size < size,
        size == 0 ==> spec_total_chunks(size, chunk_size) == 0,
{
    let s = size as int;
    let c = chunk_size as int;
    lemma_fundamental_div_mod(s, c);
    vstd::arithmetic::div_mod::lemma_mod_bound(s, c);
    vstd::arithmetic::div_mod::lemma_div_pos_is_pos(s, c);
    let q = s / c;
    let r = s % c;
    let t = spec_total_chunks(size, chunk_size);
    assert(s == c * q + r);
    assert(0 <= r < c);
    assert(q >= 0);
    if r == 0 {
        assert(t == q);
        assert(t <= s && t * c >= s && (s > 0 ==> (t - 1) * c < s) && (s == 0 ==> t == 0))
            by (nonlinear_arith)
            requires
                t == q && s == c * q + r && c >= 1 && q >= 0 && r == 0,
        ;
    } else {
        assert(t == q + 1);
        assert(t <= s && t * c >= s && (t - 1) * c < s) by (nonlinear_arith)
            requires
                t == q + 1 && s == c * q + r && c >= 1 && q >= 0 && 0 < r < c,
        ;
    }
}

/// Executable ceiling division for the chunk count.
pub fn total_chunks_for(size: u64, chunk_size: u64) -> (r: u64)
    requires
        chunk_size > 0,
    ensures
        r == spec_total_chunks(size, chunk_size),
{
    proof {
        lemma_total_chunks_bounds(size, chunk_size);
    }
    let q = size / chunk_size;
    if size % chunk_size == 0 {
        q
    } else {
        q + 1
    }
}

/// One upload connection's state. The chunk ordinal `chunk_index` is the
/// next chunk the engine expects; equivalently, the number of chunks already
/// written (counting those resumed from the record).
pub struct UploadEngine {
    /// Id of the index row this session writes to.
    pub file_id: String,
    /// The next expected chunk ordinal.
    pub chunk_index: u64,
    /// How many chunks the whole upload takes.
    pub total_chunks: u64,
    /// Bytes per chunk, as the client announced.
    pub chunk_size: u64,
    /// Bytes of the whole upload, as the client announced.
    pub size: u64,
}

/// Mathematical model of an engine.
pub struct UploadEngineV {
    pub file_id: Seq<char>,
    pub chunk_index: u64,
    pub total_chunks: u64,
    pub chunk_size: u64,
    pub size: u64,
}

impl View for UploadEngine {
    type V = UploadEngineV;

    open spec fn view(&self) -> UploadEngineV {
        UploadEngineV {
            file_id: self.file_id@,
            chunk_index: self.chunk_index,
            total_chunks: self.total_chunks,
            chunk_size: self.chunk_size,
            size: self.size,
        }
    }
}

impl UploadEngineV {
    /// Engine invariant: a valid record id, a positive chunk size, the
    /// chunk count derived from size and chunk size and within the index's
    /// integer range, and the ordinal within the count.
    pub open spec fn wf(self) -> bool {
        &&& is_valid_id(self.file_id)
        &&& self.chunk_size > 0
        &&& self.total_chunks == spec_total_chunks(self.size, self.chunk_size)
        &&& self.chunk_index <= self.total_chunks
        &&& self.size <= i64::MAX
    }

    /// The upload is complete once every chunk is written.
    pub open spec fn spec_done(self) -> bool {
        self.chunk_index >= self.total_chunks
    }

    /// The engine after one acknowledged chunk write.
    pub open spec fn spec_step_written(self) -> UploadEngineV {
        UploadEngineV { chunk_index: (self.chunk_index + 1) as u64, ..self }
    }

    /// The engine after `n` acknowledged chunk writes.
    pub open spec fn spec_after_writes(self, n: nat) -> UploadEngineV
        decreases n,
    {
        if n == 0 {
            self
        } else {
            self.spec_after_writes((n - 1) as nat).spec_step_written()
        }
    }
}

/// What the engine decides about one frame received in the chunk loop.
pub enum ChunkStep {
    /// The client's ordinal is not the expected one: answer with the
    /// expected ordinal, discard the frame, do not advance.
    Resync(u64),
    /// The expected chunk: place its payload at this byte offset, then
    /// report the write back to the engine.
    Write(u64),
    /// Anything but a binary chunk fails the session.
    Reject(UploadError),
}

/// The engine's decision on a frame, as a function of engine and frame.
pub open spec fn spec_on_packet(e: UploadEngineV, p: PacketV) -> ChunkStep {
    match p {
        PacketV::Binary(c) => if c.idx != e.chunk_index {
            ChunkStep::Resync(e.chunk_index)
        } else {
            ChunkStep::Write((e.chunk_index * e.chunk_size) as u64)
        },
        _ => ChunkStep::Reject(UploadError::UnexpectedPacketType),
    }
}

impl UploadEngine {
    /// Decide what one frame of the chunk loop means. The engine itself
    /// does not change: it advances only when a write is reported back.
    pub fn on_packet(&self, packet: &Packet) -> (r: ChunkStep)
        requires
            self@.wf(),
            !self@.spec_done(),
        ensures
            r == spec_on_packet(self@, packet@),
    {
        proof {
            lemma_total_chunks_bounds(self.size, self.chunk_size);
            if self.total_chunks > 0 {
                assert((self.total_chunks - 1) * self.chunk_size <= (self.size as int - 1)
                    || self.size == 0);
                assert(self.chunk_index <= self.total_chunks - 1);
                assert(self.chunk_index * self.chunk_size <= (self.total_chunks - 1)
                    * self.chunk_size) by (nonlinear_arith)
                    requires
                        self.chunk_index <= self.total_chunks - 1 && self.chunk_size >= 1,
                ;
            }
        }
        match packet {
            Packet::Binary(c) => {
                if c.idx != self.chunk_index {
                    ChunkStep::Resync(self.chunk_index)
                } else {
                    ChunkStep::Write(self.chunk_index * self.chunk_size)
                }
            },
            _ => ChunkStep::Reject(UploadError::UnexpectedPacketType),
        }
    }

    /// One chunk's bytes are durable: advance the ordinal.
    pub fn chunk_written(&mut self)
        requires
            old(self)@.wf(),
            !old(self)@.spec_done(),
        ensures
            final(self)@ == old(self)@.spec_step_written(),
            final(self)@.wf(),
            final(self)@.spec_done() <==> old(self)@.chunk_index + 1 >= old(self)@.total_chunks,
    {
        self.chunk_index = self.chunk_index + 1;
    }

    /// The resume pointer to persist when the session ends, however it
    /// ends: the number of chunks whose writes were acknowledged.
    pub fn progress(&self) -> (r: u64)
        ensures
            r == self@.chunk_index,
    {
        self.chunk_index
    }
}

/// The chunk ordinal equals the starting ordinal plus the number of
/// acknowledged chunk writes: the engine advances exactly once for each
/// write that returned, and nothing else moves it.
pub proof fn lemma_chunk_ordinal_invariant(e: UploadEngineV, n: nat)
    requires
        e.chunk_index + n <= u64::MAX,
    ensures
        e.spec_after_writes(n).chunk_index == e.chunk_index + n,
        e.spec_after_writes(n).file_id == e.file_id,
        e.spec_after_writes(n).total_chunks == e.total_chunks,
    decreases n,
{
    if n > 0 {
        lemma_chunk_ordinal_invariant(e, (n - 1) as nat);
    }
}

/// Query of the anonymous upload route: the one-time link id.
#[derive(Clone, Debug)]
pub struct UploadQuery {
    pub id: String,
}

/// What starting a session decided: the engine, and whether bytes already
/// stored at the destination must be wiped first.
pub struct SessionStart {
    pub engine: UploadEngine,
    /// True when the path held a different upload whose bytes must go.
    pub wipe_existing: bool,
}

/// The fresh defaults of a row created for this upload.
pub open spec fn spec_new_record(id: Seq<char>, path: Seq<char>, total: int, now: i64) -> FileV {
    FileV {
        id,
        path,
        size: 0,
        download_count: 0,
        last_downloaded_at: None,
        created_at: now,
        updated_at: now,
        access: 0,
        chunk_index: 0,
        total_chunks: total as i64,
    }
}

/// Open an upload session for `path`, announced as `size` bytes in chunks
/// of `chunk_size`.
///
/// The path is validated, the storage limit checked against what the index
/// already accounts for, and the destination looked up: a row with the same
/// chunk count means the upload resumes at its recorded ordinal; a row with
/// a different count is a different upload for the same path, so row and
/// bytes are discarded and a fresh row starts at ordinal zero; an absent row
/// is created under `fresh_id`.
pub fn start_session(
    index: &mut Index,
    fresh_id: &str,
    path: &str,
    size: u64,
    chunk_size: u64,
    storage_limit: u64,
    now: i64,
) -> (r: Result<SessionStart, UploadError>)
    requires
        old(index)@.wf(),
        is_valid_id(fresh_id@),
        old(index)@.files.len() < 0x7fff_ffff_ffff_ffff,
    ensures
        final(index)@.wf(),
        match r {
            Ok(s) => {
                let pre = old(index)@;
                let total = spec_total_chunks(size, chunk_size);
                &&& spec_path_is_valid(path@)
                &&& sum_sizes(pre.files) <= storage_limit
                &&& chunk_size > 0
                &&& size <= i64::MAX
                &&& s.engine@.wf()
                &&& s.engine@.size == size
                &&& s.engine@.chunk_size == chunk_size
                &&& s.engine@.total_chunks == total
                &&& final(index)@.links == pre.links
                &&& if !pre.has_file_path(path@) {
                    &&& s.engine@.file_id == fresh_id@
                    &&& s.engine@.chunk_index == 0
                    &&& !s.wipe_existing
                    &&& final(index)@.files == pre.files.push(
                        spec_new_record(fresh_id@, path@, total, now),
                    )
                } else {
                    let f = pre.spec_file_at_path(path@);
                    if f.total_chunks == total {
                        &&& s.engine@.file_id == f.id
                        &&& s.engine@.chunk_index == f.chunk_index
                        &&& !s.wipe_existing
                        &&& final(index)@ == pre
                    } else {
                        &&& s.engine@.file_id == f.id
                        &&& s.engine@.chunk_index == 0
                        &&& s.wipe_existing
                        &&& exists|k: int|
                            0 <= k < pre.files.len() && (#[trigger] pre.files[k]) == f && final(index)@.files == pre.files.remove(k).push(
                                spec_new_record(f.id, path@, total, now),
                            )
                    }
                }
            },
            Err(e) => {
                let pre = old(index)@;
                &&& final(index)@ == pre
                &&& match e {
                    UploadError::InvalidPath => !spec_path_is_valid(path@),
                    UploadError::InsufficientStorage => spec_path_is_valid(path@) && sum_sizes(
                        pre.files,
                    ) > storage_limit,
                    UploadError::InvalidArgument => spec_path_is_valid(path@) && sum_sizes(
                        pre.files,
                    ) <= storage_limit && (chunk_size == 0 || size > i64::MAX),
                    UploadError::Conflict => {
                        &&& spec_path_is_valid(path@)
                        &&& sum_sizes(pre.files) <= storage_limit
                        &&& chunk_size > 0
                        &&& size <= i64::MAX
                        &&& !pre.has_file_path(path@)
                        &&& pre.has_file_id(fresh_id@)
                    },
                    _ => false,
                }
            },
        },
{
    if !path_is_valid(path) {
        return Err(UploadError::InvalidPath);
    }
    let stored = index.get_bytes_stored();
    if stored > storage_limit {
        return Err(UploadError::InsufficientStorage);
    }
    if chunk_size == 0 || size > 0x7fff_ffff_ffff_ffffu64 {
        return Err(UploadError::InvalidArgument);
    }
    let total = total_chunks_for(size, chunk_size);
    proof {
        lemma_total_chunks_bounds(size, chunk_size);
    }
    let found = match index.get_via_path(path) {
        Some(f) => Some(f.duplicate()),
        None => None,
    };
    match found {
        Some(f) => {
            proof {
                crate::index::lemma_file_at_path_unique(index@, path@, f@);
                assert(index@.spec_file_at_path(path@).wf());
            }
            if f.total_chunks == total as i64 {
                let engine = UploadEngine {
                    file_id: f.id.clone(),
                    chunk_index: f.chunk_index as u64,
                    total_chunks: total,
                    chunk_size,
                    size,
                };
                Ok(SessionStart { engine, wipe_existing: false })
            } else {
                let ghost pre = index@;
                index.delete(f.id.as_str());
                proof {
                    assert forall|i: int| 0 <= i < index@.files.len() implies (
                    #[trigger] index@.files[i]).path != path@ by {
                        let k = choose|k: int|
                            0 <= k < pre.files.len() && (#[trigger] pre.files[k]).id == f@.id
                                && index@.files == pre.files.remove(k);
                        let j = choose|j: int|
                            0 <= j < pre.files.len() && (#[trigger] pre.files[j]) == f@;
                        if k != j {
                            if k < j {
                                assert(pre.files[k].id != pre.files[j].id);
                            } else {
                                assert(pre.files[j].id != pre.files[k].id);
                            }
                        }
                        let i0 = if i < k {
                            i
                        } else {
                            i + 1
                        };
                        assert(index@.files[i] == pre.files[i0]);
                        if i0 < k {
                            assert(pre.files[i0].path != pre.files[k].path);
                        } else if i0 > k {
                            assert(pre.files[k].path != pre.files[i0].path);
                        }
                    }
                }
                match index.new_file(f.id.as_str(), path, total as i64, now) {
                    Ok(nf) => {
                        let engine = UploadEngine {
                            file_id: nf.id,
                            chunk_index: 0,
                            total_chunks: total,
                            chunk_size,
                            size,
                        };
                        Ok(SessionStart { engine, wipe_existing: true })
                    },
                    Err(_) => {
                        proof {
                            assert(false);
                        }
                        Err(UploadError::Conflict)
                    },
                }
            }
        },
        None => {
            match index.new_file(fresh_id, path, total as i64, now) {
                Ok(nf) => {
                    let engine = UploadEngine {
                        file_id: nf.id,
                        chunk_index: 0,
                        total_chunks: total,
                        chunk_size,
                        size,
                    };
                    Ok(SessionStart { engine, wipe_existing: false })
                },
                Err(_) => Err(UploadError::Conflict),
            }
        },
    }
}

/// Close a completed session: persist the final resume pointer and the
/// stored size on the row, and for a link upload bind the link — after
/// which it grants nothing any more — and flip the file to Public. Returns
/// the row as it now stands, for the completion message.
///
/// Success is owed: the call fails only when the session's row is gone
/// (`NotFound`) or recording the size would push the total stored bytes
/// past the machine's range (`InsufficientStorage`), each if and only if.
/// The link is bound only here, after the engine reports every chunk
/// written, so a failed link upload leaves its link usable.
pub fn complete_upload(
    index: &mut Index,
    engine: &UploadEngine,
    link_id: Option<&str>,
    now: i64,
) -> (r: Result<File, UploadError>)
    requires
        old(index)@.wf(),
        engine@.wf(),
        engine@.spec_done(),
        forall|i: int|
            (0 <= i < old(index)@.files.len() && (#[trigger] old(index)@.files[i]).id
                == engine@.file_id) ==> old(index)@.files[i].total_chunks
                >= engine@.chunk_index as i64,
    ensures
        final(index)@.wf(),
        r is Err ==> final(index)@ == old(index)@,
        (r == Err::<File, UploadError>(UploadError::NotFound)) <==> !old(index)@.has_file_id(
            engine@.file_id,
        ),
        (r == Err::<File, UploadError>(UploadError::InsufficientStorage)) <==> (old(
            index,
        )@.has_file_id(engine@.file_id) && sum_sizes(old(index)@.files) - old(
            index,
        )@.spec_file_with_id(engine@.file_id).size + engine@.size > u64::MAX),
        r is Err ==> (r == Err::<File, UploadError>(UploadError::NotFound) || r == Err::<
            File,
            UploadError,
        >(UploadError::InsufficientStorage)),
        match r {
            Ok(f) => {
                let pre = old(index)@;
                &&& pre.has_file_id(engine@.file_id)
                &&& f@ == final(index)@.spec_file_with_id(engine@.file_id)
                &&& f@.size == engine@.size
                &&& f@.chunk_index == engine@.chunk_index as i64
                &&& f@.id == engine@.file_id
                &&& exists|k: int|
                    0 <= k < pre.files.len() && (#[trigger] pre.files[k]).id == engine@.file_id
                        && final(index)@.files == pre.files.update(
                        k,
                        (FileV {
                            size: engine@.size as i64,
                            chunk_index: engine@.chunk_index as i64,
                            updated_at: now,
                            access: if link_id is Some {
                                1
                            } else {
                                pre.files[k].access
                            },
                            ..pre.files[k]
                        }),
                    )
                &&& match link_id {
                    None => {
                        &&& final(index)@.links == pre.links
                        &&& f@.access == pre.spec_file_with_id(engine@.file_id).access
                    },
                    Some(l) => {
                        &&& f@.access == 1
                        &&& (!pre.has_link_id(l@) ==> final(index)@.links == pre.links)
                        &&& (pre.has_link_id(l@) ==> exists|m: int|
                            0 <= m < pre.links.len() && (#[trigger] pre.links[m]).id == l@ && final(index)@.links == pre.links.update(
                                m,
                                (FileLinkV {
                                    uploaded_file: Some(engine@.file_id),
                                    uploaded_at: Some(now),
                                    ..pre.links[m]
                                }),
                            ))
                        // A bound link grants nothing: the link rows that
                        // carry this id are unusable from here on.
                        &&& forall|m: int|
                            (0 <= m < final(index)@.links.len() && (
                            #[trigger] final(index)@.links[m]).id == l@) ==> !final(index)@.links[m].spec_is_valid_to_use()
                    },
                }
            },
            Err(_) => true,
        },
{
    let stored = index.get_bytes_stored();
    let old_size: i64 = match index.get_via_id(engine.file_id.as_str()) {
        Some(f) => {
            proof {
                crate::index::lemma_file_with_id_unique(index@, engine@.file_id, f@);
            }
            f.size
        },
        None => {
            return Err(UploadError::NotFound);
        },
    };
    proof {
        let k = choose|k: int|
            0 <= k < index@.files.len() && (#[trigger] index@.files[k]).id == engine@.file_id;
        assert(index@.files[k].wf());
        lemma_sum_one_le(index@.files, k);
    }
    if engine.size > (u64::MAX - stored) + (old_size as u64) {
        return Err(UploadError::InsufficientStorage);
    }
    let ghost pre = index@;
    let ghost fid = engine@.file_id;
    proof {
        lemma_total_chunks_bounds(engine.size, engine.chunk_size);
    }
    index.update_chunk_index(engine.file_id.as_str(), engine.chunk_index as i64, now);
    let ghost p1 = index@;
    let ghost k0 = choose|k: int|
        0 <= k < pre.files.len() && (#[trigger] pre.files[k]).id == fid && p1.files
            == pre.files.update(
            k,
            (FileV { chunk_index: engine@.chunk_index as i64, updated_at: now, ..pre.files[k] }),
        ) && p1.links == pre.links;
    proof {
        crate::index::lemma_sum_sizes_update(
            pre.files,
            k0,
            (FileV { chunk_index: engine@.chunk_index as i64, updated_at: now, ..pre.files[k0] }),
        );
        assert(sum_sizes(p1.files) == sum_sizes(pre.files));
        assert forall|i: int|
            (0 <= i < p1.files.len() && (#[trigger] p1.files[i]).id == fid) implies sum_sizes(
            p1.files,
        ) - p1.files[i].size + engine@.size as i64 <= u64::MAX by {
            if i != k0 {
                if i < k0 {
                    assert(p1.files[i].id != p1.files[k0].id);
                } else {
                    assert(p1.files[k0].id != p1.files[i].id);
                }
            }
            assert(p1.files[i].size == old_size);
        }
    }
    index.successful_upload(engine.file_id.as_str(), engine.size as i64, now);
    let ghost mid = index@;
    let ghost k1 = choose|k: int|
        0 <= k < p1.files.len() && (#[trigger] p1.files[k]).id == fid && mid.files
            == p1.files.update(
            k,
            (FileV { size: engine@.size as i64, updated_at: now, ..p1.files[k] }),
        ) && mid.links == p1.links;
    proof {
        assert(p1.has_file_id(fid)) by {
            assert(p1.files[k0].id == fid);
        }
        if k0 != k1 {
            if k0 < k1 {
                assert(p1.files[k0].id != p1.files[k1].id);
            } else {
                assert(p1.files[k1].id != p1.files[k0].id);
            }
        }
        assert(mid.files =~= pre.files.update(
            k0,
            (FileV {
                size: engine@.size as i64,
                chunk_index: engine@.chunk_index as i64,
                updated_at: now,
                ..pre.files[k0]
            }),
        ));
    }
    match link_id {
        None => {},
        Some(l) => {
            index.uploaded_with(l, engine.file_id.as_str(), now);
            let ghost mid2 = index@;
            proof {
                assert(mid2.files == mid.files);
            }
            index.change_access(engine.file_id.as_str(), crate::records::FileAccess::Public, now);
            proof {
                let post = index@;
                assert(mid2.has_file_id(fid)) by {
                    assert(mid2.files[k0].id == fid);
                }
                let k2 = choose|k: int|
                    0 <= k < mid2.files.len() && (#[trigger] mid2.files[k]).id == fid
                        && post.files == mid2.files.update(
                        k,
                        (FileV { access: 1, updated_at: now, ..mid2.files[k] }),
                    ) && post.links == mid2.links;
                if k0 != k2 {
                    if k0 < k2 {
                        assert(mid2.files[k0].id != mid2.files[k2].id);
                    } else {
                        assert(mid2.files[k2].id != mid2.files[k0].id);
                    }
                }
                assert(post.files =~= pre.files.update(
                    k0,
                    (FileV {
                        size: engine@.size as i64,
                        chunk_index: engine@.chunk_index as i64,
                        updated_at: now,
                        access: 1,
                        ..pre.files[k0]
                    }),
                ));
            }
        },
    }
    proof {
        assert(index@.files[k0].id == fid);
    }
    match index.get_via_id(engine.file_id.as_str()) {
        Some(f) => {
            proof {
                crate::index::lemma_file_with_id_unique(index@, engine@.file_id, f@);
            }
            Ok(f.duplicate())
        },
        None => {
            proof {
                assert(index@.has_file_id(fid));
                assert(false);
            }
            Err(UploadError::NotFound)
        },
    }
}

/// Each row's size is at most the table's total.
proof fn lemma_sum_one_le(files: Seq<FileV>, k: int)
    requires
        0 <= k < files.len(),
        forall|i: int| 0 <= i < files.len() ==> (#[trigger] files[i]).wf(),
    ensures
        files[k].size <= sum_sizes(files),
    decreases files.len(),
{
    assert forall|i: int| 0 <= i < files.len() implies (#[trigger] files[i].size) >= 0 by {
        assert(files[i].wf());
    }
    if k == files.len() - 1 {
        lemma_sum_sizes_nonneg_pub(files.drop_last());
    } else {
        lemma_sum_one_le(files.drop_last(), k);
        assert(files.drop_last()[k] == files[k]);
    }
}

proof fn lemma_sum_sizes_nonneg_pub(files: Seq<FileV>)
    requires
        forall|k: int| 0 <= k < files.len() ==> (#[trigger] files[k].size) >= 0,
    ensures
        sum_sizes(files) >= 0,
    decreases files.len(),
{
    if files.len() > 0 {
        lemma_sum_sizes_nonneg_pub(files.drop_last());
        assert forall|k: int| 0 <= k < files.drop_last().len() implies (
        #[trigger] files.drop_last()[k].size) >= 0 by {
            assert(files.drop_last()[k] == files[k]);
        }
    }
}

/// One random-access write of the store: `data` placed at byte `offset`.
pub struct WriteOp {
    pub offset: int,
    pub data: Seq<u8>,
}

/// The store after one write: the written range holds the new bytes, every
/// other offset is as it was.
pub open spec fn apply_write(s: Map<int, u8>, w: WriteOp) -> Map<int, u8> {
    Map::new(
        |i: int| s.dom().contains(i) || (w.offset <= i < w.offset + w.data.len()),
        |i: int|
            if w.offset <= i < w.offset + w.data.len() {
                w.data[i - w.offset]
            } else {
                s[i]
            },
    )
}

/// The store after a sequence of writes, applied in order.
pub open spec fn apply_writes(s: Map<int, u8>, ws: Seq<WriteOp>) -> Map<int, u8>
    decreases ws.len(),
{
    if ws.len() == 0 {
        s
    } else {
        apply_write(apply_writes(s, ws.drop_last()), ws.last())
    }
}

/// Writes compose: performing a sequence in two runs gives the same store
/// as performing it in one.
pub proof fn lemma_apply_writes_split(s: Map<int, u8>, ws1: Seq<WriteOp>, ws2: Seq<WriteOp>)
    ensures
        apply_writes(s, ws1 + ws2) == apply_writes(apply_writes(s, ws1), ws2),
    decreases ws2.len(),
{
    if ws2.len() == 0 {
        assert(ws1 + ws2 =~= ws1);
    } else {
        assert((ws1 + ws2).drop_last() =~= ws1 + ws2.drop_last());
        lemma_apply_writes_split(s, ws1, ws2.drop_last());
        assert((ws1 + ws2).last() == ws2.last());
    }
}

/// The writes a session performs for chunk ordinals `from..to`: chunk `i`
/// goes to byte offset `i * chunk_size`, exactly as the engine instructs
/// for each accepted chunk.
pub open spec fn session_writes(
    chunks: Seq<Seq<u8>>,
    chunk_size: u64,
    from: int,
    to: int,
) -> Seq<WriteOp>
    recommends
        0 <= from <= to <= chunks.len(),
{
    Seq::new(
        (to - from) as nat,
        |i: int| WriteOp { offset: (from + i) * chunk_size, data: chunks[from + i] },
    )
}

/// Resume correctness: a first session that wrote chunks `0..k` and a
/// second that wrote chunks `k..n` leave the store byte-identical to one
/// uninterrupted session writing `0..n` of the same source.
pub proof fn lemma_resume_correctness(
    s0: Map<int, u8>,
    chunks: Seq<Seq<u8>>,
    chunk_size: u64,
    k: int,
)
    requires
        0 <= k <= chunks.len(),
    ensures
        apply_writes(
            apply_writes(s0, session_writes(chunks, chunk_size, 0, k)),
            session_writes(chunks, chunk_size, k, chunks.len() as int),
        ) == apply_writes(s0, session_writes(chunks, chunk_size, 0, chunks.len() as int)),
{
    let n = chunks.len() as int;
    assert(session_writes(chunks, chunk_size, 0, k) + session_writes(chunks, chunk_size, k, n)
        =~= session_writes(chunks, chunk_size, 0, n));
    lemma_apply_writes_split(
        s0,
        session_writes(chunks, chunk_size, 0, k),
        session_writes(chunks, chunk_size, k, n),
    );
}

/// Out-of-order recovery: a chunk with the wrong ordinal is answered with
/// the engine's own ordinal and nothing advances, so the same chunk sent
/// again with the right ordinal is then accepted at the right offset.
pub proof fn lemma_out_of_order_recovery(e: UploadEngineV, wrong: ChunkV, right: ChunkV)
    requires
        wrong.idx != e.chunk_index,
        right.idx == e.chunk_index,
    ensures
        spec_on_packet(e, PacketV::Binary(wrong)) == ChunkStep::Resync(e.chunk_index),
        spec_on_packet(e, PacketV::Binary(right)) == ChunkStep::Write(
            (e.chunk_index * e.chunk_size) as u64,
        ),
{
}

} // verus!
