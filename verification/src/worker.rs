//! Decisions of a single download worker: file-name sanitisation, the
//! resume protocol (range header and open mode), progress accounting with
//! throttled emission, and cooperative cancellation at chunk boundaries.
//! The surrounding runtime performs the request, the file writes and the
//! event emission; every decision it acts on is computed here.
use vstd::prelude::*;

verus! {

use vstd::string::StrSliceExecFns;
use vstd::string::StringExecFns;
use crate::text::append_chars;
use crate::text::chars_to_string;
use crate::text::chars_of;
use crate::text::dec_digits;
use crate::text::push_dec;
use crate::text::sanitized;
use crate::text::is_forbidden_char;

/// Replaces the characters that Windows file systems refuse with
/// underscores; other platforms receive the same name for portability.
pub fn sanitize_file_name(name: &str) -> (r: String)
    ensures
        r@ == sanitized(name@),
{
    let n = name.unicode_len();
    let mut out: Vec<char> = Vec::new();
    let mut i: usize = 0;
    while i < n
        invariant
            n == name@.len(),
            i <= n,
            out@ == sanitized(name@.subrange(0, i as int)),
        decreases n - i,
    {
        let c = name.get_char(i);
        let mapped = if c == '<' || c == '>' || c == ':' || c == '"' || c == '/' || c == '\\'
            || c == '|' || c == '?' || c == '*' {
            '_'
        } else {
            c
        };
        out.push(mapped);
        proof {
            assert(sanitized(name@.subrange(0, i + 1)) =~= sanitized(
                name@.subrange(0, i as int),
            ).push(if is_forbidden_char(name@[i as int]) {
                '_'
            } else {
                name@[i as int]
            }));
        }
        i = i + 1;
    }
    proof {
        assert(name@.subrange(0, n as int) =~= name@);
    }
    chars_to_string(&out)
}

/// The target path of a download: the directory and the sanitised name,
/// joined with a separator unless the directory already ends in one.
pub open spec fn joined_path(dir: Seq<char>, name: Seq<char>) -> Seq<char> {
    if dir.len() > 0 && (dir.last() == '/' || dir.last() == '\\') {
        dir + name
    } else {
        dir + "/"@ + name
    }
}

pub fn join_path(dir: &str, name: &str) -> (r: String)
    ensures
        r@ == joined_path(dir@, name@),
{
    let d = chars_of(dir);
    let mut out = String::new();
    append_chars(&mut out, &d);
    if d.len() == 0 || !(d[d.len() - 1] == '/' || d[d.len() - 1] == '\\') {
        out.append("/");
    }
    let n = chars_of(name);
    append_chars(&mut out, &n);
    proof {
        assert(out@ =~= joined_path(dir@, name@));
    }
    out
}

/// The `Range` header value of a resumed request: `bytes=<start>-` when
/// some bytes are already on disk, nothing otherwise.
pub open spec fn range_header_spec(start_byte: u64) -> Option<Seq<char>> {
    if start_byte > 0 {
        Some("bytes="@ + dec_digits(start_byte as nat) + "-"@)
    } else {
        None
    }
}

pub fn range_header(start_byte: u64) -> (r: Option<String>)
    ensures
        match r {
            Some(s) => range_header_spec(start_byte) == Some(s@),
            None => range_header_spec(start_byte) is None,
        },
{
    if start_byte == 0 {
        return None;
    }
    let mut s = String::from_str("bytes=");
    let mut digits: Vec<char> = Vec::new();
    push_dec(&mut digits, start_byte);
    append_chars(&mut s, &digits);
    s.append("-");
    proof {
        assert(s@ =~= "bytes="@ + dec_digits(start_byte as nat) + "-"@);
    }
    Some(s)
}

/// How the target file is opened once the response head arrived.
#[derive(PartialEq, Eq, Structural, Clone, Copy, Debug)]
pub enum OpenMode {
    /// The server honoured the range: append to what is on disk.
    Append,
    /// The server sent the whole body: truncate and rewrite.
    Truncate,
}

/// The open decision: `206 Partial Content` appends and keeps the resume
/// offset; any other status truncates and resets the offset to zero.
pub fn open_mode_for_status(status: u16, start_byte: u64) -> (r: (OpenMode, u64))
    ensures
        status == 206 ==> r == (OpenMode::Append, start_byte),
        status != 206 ==> r == (OpenMode::Truncate, 0u64),
{
    if status == 206 {
        (OpenMode::Append, start_byte)
    } else {
        (OpenMode::Truncate, 0)
    }
}

/// The expected total size: the response's content length plus the resume
/// offset, unknown when the server sent no length.
pub fn total_bytes_for(content_length: Option<u64>, start_byte: u64) -> (r: Option<u64>)
    requires
        content_length is Some ==> content_length->0 + start_byte <= u64::MAX,
    ensures
        r == (match content_length {
            Some(l) => Some((l + start_byte) as u64),
            None => None,
        }),
{
    match content_length {
        Some(l) => Some(l + start_byte),
        None => None,
    }
}

/// Overall progress in whole percent: received bytes against the expected
/// total, zero when the total is unknown or zero, saturated at the machine
/// bound.
pub open spec fn percent_spec(received_total: u64, total: Option<u64>) -> u64 {
    match total {
        Some(t) => if t > 0 {
            let p = (received_total * 100) / (t as int);
            if p > u64::MAX {
                u64::MAX
            } else {
                p as u64
            }
        } else {
            0
        },
        None => 0,
    }
}

pub fn progress_percent(received_total: u64, total: Option<u64>) -> (r: u64)
    ensures
        r == percent_spec(received_total, total),
{
    match total {
        Some(t) => {
            if t > 0 {
                let wide: u128 = (received_total as u128) * 100 / (t as u128);
                if wide > (u64::MAX as u128) {
                    u64::MAX
                } else {
                    wide as u64
                }
            } else {
                0
            }
        },
        None => 0,
    }
}

/// Average transfer speed in bytes per second over the session, saturated
/// at the machine bound.
pub open spec fn speed_spec(session_bytes: u64, elapsed_ms: u64) -> u64 {
    if elapsed_ms == 0 {
        0
    } else {
        let v = (session_bytes * 1000) / (elapsed_ms as int);
        if v > u64::MAX {
            u64::MAX
        } else {
            v as u64
        }
    }
}

pub fn speed_bytes_per_sec(session_bytes: u64, elapsed_ms: u64) -> (r: u64)
    ensures
        r == speed_spec(session_bytes, elapsed_ms),
{
    if elapsed_ms == 0 {
        0
    } else {
        let wide: u128 = (session_bytes as u128) * 1000 / (elapsed_ms as u128);
        if wide > (u64::MAX as u128) {
            u64::MAX
        } else {
            wide as u64
        }
    }
}

/// One progress report, emitted at most every hundred milliseconds.
pub struct ProgressReport {
    /// Bytes on disk so far: the resume offset plus this session's bytes.
    pub received_bytes: u64,
    /// The expected total, when the server reported one.
    pub total_bytes: Option<u64>,
    /// Whole-percent progress, zero when the total is unknown.
    pub percent: u64,
    /// Average session speed in bytes per second.
    pub speed_bytes: u64,
}

/// A worker's accounting state between chunks.
pub struct WorkerState {
    /// Bytes already on disk when the transfer started.
    pub start_byte: u64,
    /// Bytes received in this session.
    pub received: u64,
    /// The expected total size, when known.
    pub total: Option<u64>,
    /// When the session started, in milliseconds.
    pub started_ms: u64,
    /// When a progress report last went out, in milliseconds.
    pub last_emit_ms: u64,
}

/// What to do after one chunk arrived.
pub enum ChunkOutcome {
    /// The cancel signal was set: stop, write nothing, emit the `aborted`
    /// terminal event.
    Aborted,
    /// Write the chunk and emit this progress report.
    Progress(ProgressReport),
    /// Write the chunk; too soon since the last report to emit another.
    Quiet,
}

/// What holds after a chunk is consumed: the session grew by the chunk,
/// nothing else moved, and a report with exact progress figures went out
/// exactly when the throttle window had passed.
pub open spec fn chunk_consumed(
    pre: WorkerState,
    post: WorkerState,
    chunk_len: u64,
    now_ms: u64,
    r: ChunkOutcome,
) -> bool {
    &&& post.received == pre.received + chunk_len
    &&& post.start_byte == pre.start_byte
    &&& post.total == pre.total
    &&& post.started_ms == pre.started_ms
    &&& (if now_ms - pre.last_emit_ms > 100 {
        post.last_emit_ms == now_ms && r == (ChunkOutcome::Progress(ProgressReport {
            received_bytes: (pre.start_byte + pre.received + chunk_len) as u64,
            total_bytes: pre.total,
            percent: percent_spec((pre.start_byte + pre.received + chunk_len) as u64, pre.total),
            speed_bytes: speed_spec(
                (pre.received + chunk_len) as u64,
                (now_ms - pre.started_ms) as u64,
            ),
        }))
    } else {
        post.last_emit_ms == pre.last_emit_ms && (r is Quiet)
    })
}

impl WorkerState {
    /// A fresh session.
    pub fn start(start_byte: u64, total: Option<u64>, now_ms: u64) -> (st: WorkerState)
        ensures
            st == (WorkerState {
                start_byte,
                received: 0,
                total,
                started_ms: now_ms,
                last_emit_ms: now_ms,
            }),
    {
        WorkerState { start_byte, received: 0, total, started_ms: now_ms, last_emit_ms: now_ms }
    }

    /// Handles one chunk boundary.  When the cancel signal is set the
    /// worker aborts before consuming the chunk — so at most the chunks
    /// already written precede a cancellation, which is observed at the
    /// very next boundary.  Otherwise the chunk is accounted for, and a
    /// progress report goes out when more than a hundred milliseconds have
    /// passed since the last one.
    pub fn on_chunk(&mut self, chunk_len: u64, cancelled: bool, now_ms: u64) -> (r: ChunkOutcome)
        requires
            old(self).received + chunk_len <= u64::MAX,
            old(self).start_byte + old(self).received + chunk_len <= u64::MAX,
            old(self).started_ms <= old(self).last_emit_ms <= now_ms,
        ensures
            cancelled ==> (r is Aborted) && *final(self) == *old(self),
            !cancelled ==> chunk_consumed(*old(self), *final(self), chunk_len, now_ms, r),
    {
        if cancelled {
            return ChunkOutcome::Aborted;
        }
        self.received = self.received + chunk_len;
        if now_ms - self.last_emit_ms > 100 {
            let received_total = self.start_byte + self.received;
            let percent = progress_percent(received_total, self.total);
            let elapsed = now_ms - self.started_ms;
            let speed = speed_bytes_per_sec(self.received, elapsed);
            self.last_emit_ms = now_ms;
            return ChunkOutcome::Progress(
                ProgressReport {
                    received_bytes: received_total,
                    total_bytes: self.total,
                    percent,
                    speed_bytes: speed,
                },
            );
        }
        ChunkOutcome::Quiet
    }
}

} // verus!
