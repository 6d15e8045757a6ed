//! Watching over one download: it must be exactly as long as the server said, and it is cut
//! off while it runs, not after, when it is not.
use crate::commit::commit_size;
use crate::model::Song;
use vstd::prelude::*;

verus! {

/// How far a running body may pass the expected length before it is abandoned.
pub const DOWNLOAD_SIZE_SLACK: u64 = 65_536;

/// Why a download is abandoned.
#[derive(Clone, Copy, Debug, PartialEq, Eq, Structural)]
pub enum TransferError {
    /// The server declared another length than it had reported.
    Declared { len: u64, expected: u64 },
    /// The body ran past the cap.
    Exceeded { cap: u64 },
    /// The body ended at another length than reported.
    Length { got: u64, expected: u64 },
}

/// A download under way.
#[derive(Clone, Copy, Debug, PartialEq, Eq, Structural)]
pub struct Transfer {
    pub expected: u64,
    pub written: u64,
}

/// A sum, as far as 64 bits go.
pub open spec fn sum64(a: u64, b: u64) -> u64 {
    if a + b > u64::MAX {
        u64::MAX
    } else {
        (a + b) as u64
    }
}

/// The length to hold a song's download against; none where the server reported no size.
pub fn fetch_size(song: &Song) -> (r: Option<u64>)
    ensures
        r == commit_size(*song),
{
    match song.size {
        Some(n) => {
            if n > 0 {
                Some(n)
            } else {
                None
            }
        },
        None => None,
    }
}

impl Transfer {
    /// The most that may ever be written.
    pub open spec fn cap(self) -> u64 {
        sum64(self.expected, DOWNLOAD_SIZE_SLACK)
    }

    /// What a start comes to.
    pub open spec fn started(expected: u64, declared: Option<u64>) -> Result<
        Transfer,
        TransferError,
    > {
        if declared is Some && declared->0 != expected {
            Err(TransferError::Declared { len: declared->0, expected })
        } else {
            Ok(Transfer { expected, written: 0 })
        }
    }

    /// The download with one chunk more.
    pub open spec fn taken(self, len: u64) -> Transfer {
        Transfer { expected: self.expected, written: sum64(self.written, len) }
    }

    /// Why a download of this length goes no further, or that it may.
    pub open spec fn overrun(self) -> Option<TransferError> {
        if self.written > self.cap() {
            Some(TransferError::Exceeded { cap: self.cap() })
        } else {
            None
        }
    }

    /// What an end comes to.
    pub open spec fn ended(self) -> Result<u64, TransferError> {
        if self.written == self.expected {
            Ok(self.written)
        } else {
            Err(TransferError::Length { got: self.written, expected: self.expected })
        }
    }

    /// Starts a download, unless the server already declares another length than expected.
    pub fn start(expected: u64, declared: Option<u64>) -> (r: Result<Transfer, TransferError>)
        ensures
            r == (match declared {
                Some(len) if len != expected => Err::<Transfer, TransferError>(
                    TransferError::Declared { len, expected },
                ),
                _ => Ok::<Transfer, TransferError>(Transfer { expected, written: 0 }),
            }),
            r == Transfer::started(expected, declared),
    {
        match declared {
            Some(len) => {
                if len != expected {
                    return Err(TransferError::Declared { len, expected });
                }
            },
            None => {},
        }
        Ok(Transfer { expected, written: 0 })
    }

    /// Takes note of one chunk, before it is written.
    pub fn chunk(&mut self, len: u64) -> (r: Result<(), TransferError>)
        ensures
            *final(self) == (Transfer {
                expected: old(self).expected,
                written: sum64(old(self).written, len),
            }),
            r == (if sum64(old(self).written, len) > old(self).cap() {
                Err::<(), TransferError>(TransferError::Exceeded { cap: old(self).cap() })
            } else {
                Ok::<(), TransferError>(())
            }),
            *final(self) == old(self).taken(len),
            r is Err <==> old(self).taken(len).overrun() is Some,
            r is Err ==> Some(r->Err_0) == old(self).taken(len).overrun(),
    {
        self.written = self.written.saturating_add(len);
        let cap: u64 = self.expected.saturating_add(DOWNLOAD_SIZE_SLACK);
        if self.written > cap {
            Err(TransferError::Exceeded { cap })
        } else {
            Ok(())
        }
    }

    /// Ends a download: only exactly the expected length will do.
    pub fn finish(&self) -> (r: Result<u64, TransferError>)
        ensures
            r == (if self.written == self.expected {
                Ok::<u64, TransferError>(self.written)
            } else {
                Err::<u64, TransferError>(
                    TransferError::Length { got: self.written, expected: self.expected },
                )
            }),
            r == self.ended(),
    {
        if self.written == self.expected {
            Ok(self.written)
        } else {
            Err(TransferError::Length { got: self.written, expected: self.expected })
        }
    }
}

/// The bytes of the first `n` chunks, as far as 64 bits go.
pub open spec fn received(chunks: Seq<u64>, n: int) -> u64
    decreases n,
{
    if n <= 0 {
        0
    } else {
        sum64(received(chunks, n - 1), chunks[n - 1])
    }
}

/// The true number of bytes of the first `n` chunks.
pub open spec fn sent(chunks: Seq<u64>, n: int) -> int
    decreases n,
{
    if n <= 0 {
        0
    } else {
        sent(chunks, n - 1) + chunks[n - 1]
    }
}

/// The bytes counted are the true ones, up to where 64 bits end.
proof fn counts_are_true(chunks: Seq<u64>, n: int)
    ensures
        received(chunks, n) == (if sent(chunks, n) < u64::MAX {
            sent(chunks, n)
        } else {
            u64::MAX as int
        }),
        0 <= sent(chunks, n),
    decreases n,
{
    if n > 0 {
        counts_are_true(chunks, n - 1);
    }
}

/// A download succeeds exactly on a body of the reported length, whatever chunks it came in;
/// and no body whose chunks were all accepted is longer than the expected length and the slack.
/// (Lengths at the end of 64 bits are out of this account.)
pub proof fn transfers_are_exact(chunks: Seq<u64>, expected: u64)
    requires
        expected < u64::MAX,
    ensures
        received(chunks, chunks.len() as int) == expected <==> sent(chunks, chunks.len() as int)
            == expected,
        received(chunks, chunks.len() as int) <= sum64(expected, DOWNLOAD_SIZE_SLACK) && expected
            + DOWNLOAD_SIZE_SLACK < u64::MAX ==> sent(chunks, chunks.len() as int) <= expected
            + DOWNLOAD_SIZE_SLACK,
{
    counts_are_true(chunks, chunks.len() as int);
}

/// A download is not begun where the server declares another length than it reported, is cut
/// off as soon as it is longer than reported by more than the slack, and ends well only at the
/// reported length, to the byte.
pub proof fn transfers_hold_to_the_reported_length(
    t: Transfer,
    expected: u64,
    declared: Option<u64>,
    len: u64,
)
    requires
        t.expected + DOWNLOAD_SIZE_SLACK <= u64::MAX,
        t.written + len <= u64::MAX,
    ensures
        Transfer::started(expected, declared) is Ok <==> declared is None || declared->0 == expected,
        Transfer::started(expected, declared) matches Ok(s) ==> s.expected == expected && s.written
            == 0,
        t.taken(len).expected == t.expected,
        t.taken(len).written == t.written + len,
        t.overrun() is Some <==> t.written > t.expected + DOWNLOAD_SIZE_SLACK,
        t.ended() is Ok <==> t.written == t.expected,
        t.ended() is Ok ==> t.ended()->Ok_0 == t.expected,
        t.ended() is Err ==> t.ended()->Err_0 == (TransferError::Length {
            got: t.written,
            expected: t.expected,
        }),
{
}

} // verus!
