//! The progress of a database backup's compression: how much of the
//! database has gone through the encoder, and what the page is told.

use vstd::prelude::*;
use crate::json::Value;
use crate::progress::stage_detail_json;
use crate::reports::size_capped;
use crate::tools::{COMPRESSING_LABEL, compression_message};

verus! {

/// How many bytes of the database are read at a time.
pub const COMPRESSION_CHUNK_BYTES: usize = 262144;

/// `u64::saturating_add`.
pub open spec fn saturating_count(a: u64, b: int) -> int {
    if a + b > u64::MAX {
        u64::MAX as int
    } else {
        a + b
    }
}

/// The message shown after `done` of `total` bytes.
pub open spec fn compression_json(done: u64, total: u64) -> crate::json::Json {
    stage_detail_json(
        1,
        1,
        COMPRESSING_LABEL@,
        Some(size_capped(done) as i64),
        Some(size_capped(total) as i64),
        None,
        Some(size_capped(done) as i64),
        Some(size_capped(total) as i64),
    )
}

/// A compression in progress: the size of the database and how much of it
/// has been read.
pub struct CompressionProgress {
    total_bytes: u64,
    bytes_read: u64,
}

impl CompressionProgress {
    pub closed spec fn total(&self) -> u64 {
        self.total_bytes
    }

    pub closed spec fn read(&self) -> u64 {
        self.bytes_read
    }

    /// A compression of a database of `total_bytes`, nothing read yet.
    pub fn new(total_bytes: u64) -> (progress: CompressionProgress)
        ensures
            progress.total() == total_bytes,
            progress.read() == 0,
    {
        CompressionProgress { total_bytes, bytes_read: 0 }
    }

    /// The message before anything has been read.
    pub fn first_message(&self) -> (message: Value)
        ensures
            message@ == compression_json(0, self.total()),
    {
        compression_message(0, self.total_bytes)
    }

    /// Counts a chunk that went through the encoder and gives the message to
    /// send; an empty chunk ends the input and gives none.
    pub fn record_chunk(&mut self, chunk_size: usize) -> (message: Option<Value>)
        ensures
            final(self).total() == old(self).total(),
            chunk_size == 0 ==> message is None && final(self).read() == old(self).read(),
            chunk_size > 0 ==> {
                &&& final(self).read() == saturating_count(old(self).read(), chunk_size as int)
                &&& message matches Some(m) && m@ == compression_json(final(self).read(), final(self).total())
            },
    {
        if chunk_size == 0 {
            return None;
        }
        self.bytes_read = self.bytes_read.saturating_add(chunk_size as u64);
        Some(compression_message(self.bytes_read, self.total_bytes))
    }
}

} // verus!
