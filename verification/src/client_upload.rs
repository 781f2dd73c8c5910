//! The client side of the chunked upload: which chunk to send next, and
//! what each server message means for the loop.
//!
//! The process reads the source file, carries the socket and renders
//! progress; the ordinal arithmetic and the reaction to server messages
//! live here. The server is authoritative: a resynchronisation message
//! moves the client's ordinal wherever the server says.

use vstd::prelude::*;

verus! {

use crate::simply_packet::{JsonChunkIndex, JsonInitializeUpload};
use crate::upload::{spec_total_chunks, total_chunks_for};

/// The chunk size the client uploads with: 16 MiB.
pub const CHUNK_SIZE: u64 = 16 * 1024 * 1024;

/// What a server message means for the upload loop.
pub enum ServerEvent {
    /// The next-ack: send the chunk at the current ordinal.
    Next,
    /// The server moved the ordinal: resend from there.
    SetChunkIndex(u64),
    /// The upload is done.
    UploadComplete,
    /// Anything else ends the session.
    Unexpected,
}

/// What the loop does after a server message.
#[derive(Clone, Copy, Debug, PartialEq, Eq, Structural)]
pub enum ClientAction {
    /// Keep sending chunks.
    Continue,
    /// The upload finished.
    Done,
    /// The session failed on an unexpected message.
    Fail,
}

/// The client's upload state: where the next chunk starts and how many
/// there are.
pub struct UploadClient {
    /// The ordinal of the next chunk to send.
    pub chunk_index: u64,
    /// How many chunks the upload takes.
    pub total_chunks: u64,
    /// Bytes per chunk.
    pub chunk_size: u64,
    /// Bytes of the whole source file.
    pub size: u64,
}

impl UploadClient {
    /// The state invariant: a positive chunk size and the chunk count
    /// derived from the source size.
    pub open spec fn wf(self) -> bool {
        &&& self.chunk_size > 0
        &&& self.total_chunks == spec_total_chunks(self.size, self.chunk_size)
    }

    /// The loop state after the server's ReadyForUpload: the upload's own
    /// announcement, and the ordinal the server asks to start from.
    pub fn new(init: &JsonInitializeUpload, ready: &JsonChunkIndex) -> (r: UploadClient)
        requires
            init.chunk_size > 0,
        ensures
            r.wf(),
            r.chunk_index == ready.chunk_index,
            r.size == init.size,
            r.chunk_size == init.chunk_size,
    {
        let total = total_chunks_for(init.size, init.chunk_size);
        UploadClient {
            chunk_index: ready.chunk_index,
            total_chunks: total,
            chunk_size: init.chunk_size,
            size: init.size,
        }
    }

    /// The byte offset of the next chunk in the source file.
    pub fn next_offset(&self) -> (r: u64)
        requires
            self.chunk_index * self.chunk_size <= u64::MAX,
        ensures
            r == self.chunk_index * self.chunk_size,
    {
        self.chunk_index * self.chunk_size
    }

    /// A chunk went out: the client moves to the next ordinal before it
    /// hears back, so a plain next-ack continues from the right place.
    pub fn chunk_sent(&mut self)
        requires
            old(self).chunk_index < u64::MAX,
        ensures
            *final(self) == (UploadClient { chunk_index: (old(self).chunk_index + 1) as u64, ..*old(
                self,
            ) }),
    {
        self.chunk_index = self.chunk_index + 1;
    }

    /// React to the server's answer: a next-ack keeps going, a
    /// resynchronisation moves the ordinal where the server says, a
    /// completion ends the loop, anything else fails it.
    pub fn on_server_event(&mut self, event: &ServerEvent) -> (r: ClientAction)
        ensures
            match event {
                ServerEvent::Next => r == ClientAction::Continue && *final(self) == *old(self),
                ServerEvent::SetChunkIndex(i) => r == ClientAction::Continue && *final(self) == (
                UploadClient { chunk_index: *i, ..*old(self) }),
                ServerEvent::UploadComplete => r == ClientAction::Done && *final(self) == *old(
                    self,
                ),
                ServerEvent::Unexpected => r == ClientAction::Fail && *final(self) == *old(self),
            },
    {
        match event {
            ServerEvent::Next => ClientAction::Continue,
            ServerEvent::SetChunkIndex(i) => {
                self.chunk_index = *i;
                ClientAction::Continue
            },
            ServerEvent::UploadComplete => ClientAction::Done,
            ServerEvent::Unexpected => ClientAction::Fail,
        }
    }
}

} // verus!
