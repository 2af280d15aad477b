//! Byte-range reads of a page, and the bounded-retry protocol around the
//! transport.
//!
//! The transport is outside code, so a read is a little machine: it says
//! which range to request next, and is fed what the transport answered.
//! Transient failures — dispatch errors and server-side statuses — are
//! retried up to ten times; anything else surfaces at once. Partial
//! bytes are kept between attempts, and the next request covers only the
//! unfilled tail.

use vstd::prelude::*;

use crate::s3::{AwsCredentials, AwsError, AwsRegion};
use crate::util::IoError;

verus! {

/// How many bytes a range read of `len` at `offset` yields from a file
/// of `file_len` bytes: the requested length, clamped to what is there.
pub open spec fn read_len(file_len: u64, offset: u64, len: usize) -> int {
    if offset >= file_len {
        0
    } else if len as int <= file_len - offset {
        len as int
    } else {
        file_len - offset
    }
}

/// The bytes a range read yields from the object's bytes.
pub open spec fn read_result(obj: Seq<u8>, offset: u64, len: usize) -> Seq<u8> {
    if offset as int >= obj.len() {
        Seq::<u8>::empty()
    } else if offset + len <= obj.len() {
        obj.subrange(offset as int, offset + len)
    } else {
        obj.subrange(offset as int, obj.len() as int)
    }
}

/// Read a byte range out of in-memory object bytes: exactly
/// `min(len, object len − offset)` bytes, the object's own.
pub fn read_bytes(object: &Vec<u8>, offset: u64, len: usize) -> (r: Vec<u8>)
    ensures
        r@ == read_result(object@, offset, len),
        r@.len() == read_len(object@.len() as u64, offset, len),
{
    let n = object.len();
    let mut r: Vec<u8> = Vec::new();
    if offset >= n as u64 {
        proof {
            assert(r@ =~= read_result(object@, offset, len));
        }
        return r;
    }
    let start = offset as usize;
    let avail = n - start;
    let take = if len <= avail {
        len
    } else {
        avail
    };
    let mut i: usize = 0;
    loop
        invariant
            i <= take,
            start + take <= n,
            n == object@.len(),
            start == offset as int,
            take == read_len(n as u64, offset, len),
            r@ == object@.subrange(start as int, start + i),
        decreases take - i,
    {
        if i == take {
            proof {
                assert(object@.subrange(start as int, start + take) =~= read_result(
                    object@,
                    offset,
                    len,
                ));
            }
            return r;
        }
        r.push(object[start + i]);
        proof {
            assert(r@ =~= object@.subrange(start as int, start + i + 1));
        }
        i = i + 1;
    }
}

/// Two sequential reads concatenate to one long read: the bytes of
/// `[offset, offset+a)` followed by those of `[offset+a, offset+a+b)`
/// are the bytes of `[offset, offset+a+b)`, whenever the first read is
/// not cut short by the end of the object.
pub proof fn lemma_reads_concatenate(obj: Seq<u8>, offset: u64, a: usize, b: usize)
    requires
        offset + a <= obj.len(),
        offset + a <= u64::MAX,
        a + b <= usize::MAX,
    ensures
        read_result(obj, offset, a) + read_result(obj, (offset + a) as u64, b) == read_result(
            obj,
            offset,
            (a + b) as usize,
        ),
{
    assert(read_result(obj, offset, a) + read_result(obj, (offset + a) as u64, b) =~= read_result(
        obj,
        offset,
        (a + b) as usize,
    ));
}

/// A read of the whole object from its start yields the object itself.
pub proof fn lemma_read_whole(obj: Seq<u8>, len: usize)
    requires
        obj.len() <= len,
    ensures
        read_result(obj, 0, len) == obj,
{
    assert(read_result(obj, 0, len) =~= obj);
}

/// What the transport answered for one range request.
#[derive(Debug)]
pub enum TransportEvent {
    /// The bytes of the requested range; the transport may return fewer
    /// than asked.
    Data(Vec<u8>),
    /// The request never reached the store.
    DispatchFailure(IoError),
    /// The store answered with this HTTP status and no body.
    Status(u16, IoError),
}

/// What a read does after an event: issue the next request, or give up.
#[derive(Debug)]
pub enum ReadStep {
    /// Not finished: ask [`ReadOp::next_range`] and request again.
    Continue,
    /// The read failed with this error.
    Failed(AwsError),
}

/// How many transient failures a read tolerates before surfacing the
/// last error.
pub const RETRY_LIMIT: u64 = 10;

/// Whether an HTTP status is a server-side failure, which is retried.
pub open spec fn is_server_error(code: u16) -> bool {
    500 <= code <= 599
}

/// One in-flight range read: the requested window, the bytes gathered so
/// far, and the count of transient failures seen.
#[derive(Debug)]
pub struct ReadOp {
    pub file_len: u64,
    pub offset: u64,
    pub target: usize,
    pub buf: Vec<u8>,
    pub attempts: u64,
}

impl ReadOp {
    /// The read's window stays inside the file and the buffer never
    /// overfills.
    pub open spec fn wf(&self) -> bool {
        &&& self.target == read_len(self.file_len, self.offset, self.target)
        &&& (self.target > 0 ==> self.offset + self.target <= self.file_len)
        &&& self.buf@.len() <= self.target
    }

    /// Begin a read of `len` bytes at `offset` of a file of `file_len`
    /// bytes. The target is clamped to what the file holds.
    pub fn new(file_len: u64, offset: u64, len: usize) -> (r: ReadOp)
        ensures
            r.wf(),
            r.file_len == file_len,
            r.offset == offset,
            r.target == read_len(file_len, offset, len),
            r.buf@ == Seq::<u8>::empty(),
            r.attempts == 0,
    {
        let target: usize = if offset >= file_len {
            0
        } else {
            let avail = file_len - offset;
            if (len as u64) <= avail {
                len
            } else {
                avail as usize
            }
        };
        let r = ReadOp { file_len, offset, target, buf: Vec::new(), attempts: 0 };
        proof {
            assert(r.buf@ =~= Seq::<u8>::empty());
        }
        r
    }

    /// Whether the buffer is full.
    pub fn done(&self) -> (r: bool)
        ensures
            r == (self.buf@.len() == self.target),
    {
        self.buf.len() == self.target
    }

    /// The inclusive byte range the next request must cover: the
    /// unfilled tail of the window.
    pub fn next_range(&self) -> (r: (u64, u64))
        requires
            self.wf(),
            self.buf@.len() < self.target,
    ensures
            r.0 == self.offset + self.buf@.len(),
            r.1 == self.offset + self.target - 1,
    {
        (self.offset + self.buf.len() as u64, self.offset + self.target as u64 - 1)
    }

    /// Feed what the transport answered. Bytes extend the buffer, up to
    /// the target; a dispatch failure or a server-side status is
    /// tolerated [`RETRY_LIMIT`] times and then surfaced as transient;
    /// any other status surfaces at once as fatal.
    pub fn on_event(&mut self, event: TransportEvent) -> (r: ReadStep)
        requires
            old(self).wf(),
        ensures
            final(self).wf(),
            final(self).file_len == old(self).file_len,
            final(self).offset == old(self).offset,
            final(self).target == old(self).target,
            match event {
                TransportEvent::Data(bytes) => {
                    let room = old(self).target - old(self).buf@.len();
                    let took = if bytes@.len() <= room {
                        bytes@.len() as int
                    } else {
                        room
                    };
                    &&& r is Continue
                    &&& final(self).buf@ == old(self).buf@ + bytes@.take(took)
                    &&& final(self).attempts == old(self).attempts
                },
                TransportEvent::DispatchFailure(e) => {
                    &&& final(self).buf@ == old(self).buf@
                    &&& (old(self).attempts < RETRY_LIMIT ==> r is Continue && final(self).attempts
                        == old(self).attempts + 1)
                    &&& (old(self).attempts >= RETRY_LIMIT ==> r == ReadStep::Failed(
                        AwsError::TransportTransient(e),
                    ) && final(self).attempts == old(self).attempts)
                },
                TransportEvent::Status(code, e) => {
                    &&& final(self).buf@ == old(self).buf@
                    &&& (is_server_error(code) && old(self).attempts < RETRY_LIMIT ==> r is Continue
                        && final(self).attempts == old(self).attempts + 1)
                    &&& (is_server_error(code) && old(self).attempts >= RETRY_LIMIT ==> r
                        == ReadStep::Failed(AwsError::TransportTransient(e)) && final(self).attempts
                        == old(self).attempts)
                    &&& (!is_server_error(code) ==> r == ReadStep::Failed(AwsError::TransportFatal(e))
                        && final(self).attempts == old(self).attempts)
                },
            },
    {
        match event {
            TransportEvent::Data(bytes) => {
                let room = self.target - self.buf.len();
                let took = if bytes.len() <= room {
                    bytes.len()
                } else {
                    room
                };
                let ghost before = self.buf@;
                let mut i: usize = 0;
                while i < took
                    invariant
                        i <= took,
                        took <= bytes@.len(),
                        before.len() + took <= self.target <= usize::MAX,
                        self.buf@ == before + bytes@.take(i as int),
                        self.target == old(self).target,
                        self.file_len == old(self).file_len,
                        self.offset == old(self).offset,
                        self.attempts == old(self).attempts,
                        self.wf(),
                    decreases took - i,
                {
                    self.buf.push(bytes[i]);
                    proof {
                        assert(self.buf@ =~= before + bytes@.take(i + 1));
                    }
                    i = i + 1;
                }
                ReadStep::Continue
            },
            TransportEvent::DispatchFailure(e) => {
                if self.attempts < RETRY_LIMIT {
                    self.attempts = self.attempts + 1;
                    ReadStep::Continue
                } else {
                    ReadStep::Failed(AwsError::TransportTransient(e))
                }
            },
            TransportEvent::Status(code, e) => {
                if 500 <= code && code <= 599 {
                    if self.attempts < RETRY_LIMIT {
                        self.attempts = self.attempts + 1;
                        ReadStep::Continue
                    } else {
                        ReadStep::Failed(AwsError::TransportTransient(e))
                    }
                } else {
                    ReadStep::Failed(AwsError::TransportFatal(e))
                }
            },
        }
    }

    /// Hand out the gathered bytes of a finished read.
    pub fn into_bytes(self) -> (r: Vec<u8>)
        requires
            self.buf@.len() == self.target,
        ensures
            r@ == self.buf@,
    {
        self.buf
    }
}


/// What the transport answered for a length probe.
#[derive(Debug)]
pub enum ProbeEvent {
    /// The object's length in bytes.
    Length(u64),
    /// The request never reached the store.
    DispatchFailure(IoError),
    /// The store answered with this HTTP status and no length.
    Status(u16, IoError),
}

/// What a length probe does after an event: request again, answer, or
/// give up.
#[derive(Debug)]
pub enum ProbeStep {
    /// Not answered yet: request again.
    Continue,
    /// The probed length.
    Done(u64),
    /// The probe failed with this error.
    Failed(AwsError),
}

/// A length probe (a HEAD-equivalent request) with the same bounded
/// retry as a read: a dispatch failure or a server-side status is
/// tolerated [`RETRY_LIMIT`] times and then surfaced as transient; any
/// other status surfaces at once as fatal.
#[derive(Debug)]
pub struct ProbeOp {
    pub attempts: u64,
}

impl ProbeOp {
    /// Begin a probe; no failures seen yet.
    pub fn new() -> (r: ProbeOp)
        ensures
            r.attempts == 0,
    {
        ProbeOp { attempts: 0 }
    }

    /// Feed what the transport answered.
    pub fn on_event(&mut self, event: ProbeEvent) -> (r: ProbeStep)
        ensures
            match event {
                ProbeEvent::Length(n) => {
                    &&& r == ProbeStep::Done(n)
                    &&& final(self).attempts == old(self).attempts
                },
                ProbeEvent::DispatchFailure(e) => {
                    &&& (old(self).attempts < RETRY_LIMIT ==> r is Continue && final(self).attempts
                        == old(self).attempts + 1)
                    &&& (old(self).attempts >= RETRY_LIMIT ==> r == ProbeStep::Failed(
                        AwsError::TransportTransient(e),
                    ) && final(self).attempts == old(self).attempts)
                },
                ProbeEvent::Status(code, e) => {
                    &&& (is_server_error(code) && old(self).attempts < RETRY_LIMIT ==> r is Continue
                        && final(self).attempts == old(self).attempts + 1)
                    &&& (is_server_error(code) && old(self).attempts >= RETRY_LIMIT ==> r
                        == ProbeStep::Failed(AwsError::TransportTransient(e)) && final(self).attempts
                        == old(self).attempts)
                    &&& (!is_server_error(code) ==> r == ProbeStep::Failed(AwsError::TransportFatal(e))
                        && final(self).attempts == old(self).attempts)
                },
            },
    {
        match event {
            ProbeEvent::Length(n) => ProbeStep::Done(n),
            ProbeEvent::DispatchFailure(e) => {
                if self.attempts < RETRY_LIMIT {
                    self.attempts = self.attempts + 1;
                    ProbeStep::Continue
                } else {
                    ProbeStep::Failed(AwsError::TransportTransient(e))
                }
            },
            ProbeEvent::Status(code, e) => {
                if 500 <= code && code <= 599 {
                    if self.attempts < RETRY_LIMIT {
                        self.attempts = self.attempts + 1;
                        ProbeStep::Continue
                    } else {
                        ProbeStep::Failed(AwsError::TransportTransient(e))
                    }
                } else {
                    ProbeStep::Failed(AwsError::TransportFatal(e))
                }
            },
        }
    }
}

/// One addressable byte blob of known, immutable length.
#[derive(Debug)]
pub struct S3Page {
    pub region: AwsRegion,
    pub bucket: String,
    pub key: Vec<u8>,
    pub len: u64,
    pub credentials: AwsCredentials,
}

impl S3Page {
    /// A page whose length was established on open, by a probe of the
    /// store.
    pub fn new(
        region: AwsRegion,
        bucket: String,
        key: Vec<u8>,
        credentials: AwsCredentials,
        len: u64,
    ) -> (r: S3Page)
        ensures
            r.region == region,
            r.bucket == bucket,
            r.key == key,
            r.credentials == credentials,
            r.len == len,
    {
        S3Page { region, bucket, key, len, credentials }
    }

    /// The page's length in bytes; constant once the page is open.
    pub fn len(&self) -> (r: u64)
        ensures
            r == self.len,
    {
        self.len
    }

    /// Begin a range read of this page: the returned machine asks for
    /// exactly `min(len, page len − offset)` bytes.
    pub fn read(&self, offset: u64, len: usize) -> (r: ReadOp)
        ensures
            r.wf(),
            r.file_len == self.len,
            r.offset == offset,
            r.target == read_len(self.len, offset, len),
            r.buf@ == Seq::<u8>::empty(),
            r.attempts == 0,
    {
        ReadOp::new(self.len, offset, len)
    }

    /// Writing is not offered yet.
    pub fn write(&self, _offset: u64, _buf: Vec<u8>) -> (r: Result<(), AwsError>)
        ensures
            r == Err::<(), AwsError>(AwsError::Unsupported),
    {
        Err(AwsError::Unsupported)
    }
}

} // verus!
