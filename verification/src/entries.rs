//! Cached entries, as the running daemon knows them.
use crate::model::SongId;
use crate::text::copy_opt;
use vstd::prelude::*;

verus! {

/// One cached entry: the committed record plus two flags that live in memory only.
#[derive(Debug, PartialEq, Eq)]
pub struct IndexEntry {
    pub id: SongId,
    /// Sanitized suffix; with the id it names the audio file.
    pub suffix: String,
    /// Exact expected byte length.
    pub size: u64,
    /// The server's `created` timestamp, where known.
    pub created: Option<String>,
    pub pinned: bool,
    pub stale: bool,
    /// In memory only: not offered for play until a verified replacement exists.
    pub suspect: bool,
    pub last_played_unix: u64,
    /// In memory only: `last_played_unix` moved since it was last written out.
    pub recency_dirty: bool,
}

impl Clone for IndexEntry {
    fn clone(&self) -> (r: Self)
        ensures
            r == *self,
    {
        IndexEntry {
            id: self.id.clone(),
            suffix: self.suffix.clone(),
            size: self.size,
            created: copy_opt(&self.created),
            pinned: self.pinned,
            stale: self.stale,
            suspect: self.suspect,
            last_played_unix: self.last_played_unix,
            recency_dirty: self.recency_dirty,
        }
    }
}

/// Why an entry must go.
#[derive(Clone, Copy, Debug, PartialEq, Eq, Structural)]
pub enum DeleteReason {
    /// The sidecar did not parse, or failed one of its gates.
    CorruptSidecar,
    /// The sidecar names an audio file that is not there.
    MissingAudio,
    /// The audio file is not of the recorded length.
    LengthMismatch,
}

/// The entry of an id; the last one where several claim it.
pub open spec fn entry_with(entries: Seq<IndexEntry>, id: Seq<char>) -> Option<IndexEntry>
    decreases entries.len(),
{
    if entries.len() == 0 {
        None
    } else if entries.last().id@ == id {
        Some(entries.last())
    } else {
        entry_with(entries.drop_last(), id)
    }
}

/// Whether an id has an entry.
pub open spec fn cached(entries: Seq<IndexEntry>, id: Seq<char>) -> bool {
    entry_with(entries, id) is Some
}

/// Bytes of the first `n` entries.
pub open spec fn entry_bytes(entries: Seq<IndexEntry>, n: int) -> int
    decreases n,
{
    if n <= 0 {
        0
    } else {
        entry_bytes(entries, n - 1) + entries[n - 1].size
    }
}

/// No two entries share an id.
pub open spec fn distinct_entries(entries: Seq<IndexEntry>) -> bool {
    forall|i: int, j: int|
        0 <= i < j < entries.len() ==> (#[trigger] entries[i]).id@ != (#[trigger] entries[j]).id@
}

/// The position of an id's entry.
pub fn find_entry(entries: &Vec<IndexEntry>, id: &String) -> (r: Option<usize>)
    ensures
        r is Some <==> cached(entries@, id@),
        r is Some ==> r->0 < entries@.len() && entry_with(entries@, id@) == Some(
            entries@[r->0 as int],
        ) && entries@[r->0 as int].id@ == id@,
{
    let mut i: usize = entries.len();
    assert(entries@.take(i as int) =~= entries@);
    while i > 0
        invariant
            i <= entries@.len(),
            entry_with(entries@, id@) == entry_with(entries@.take(i as int), id@),
        decreases i,
    {
        assert(entries@.take(i as int).drop_last() =~= entries@.take(i - 1));
        if entries[i - 1].id.0 == *id {
            return Some(i - 1);
        }
        i = i - 1;
    }
    None
}

/// An id has an entry exactly where one of the entries carries it.
pub proof fn cached_means_listed(entries: Seq<IndexEntry>, id: Seq<char>)
    ensures
        cached(entries, id) <==> exists|i: int|
            0 <= i < entries.len() && (#[trigger] entries[i]).id@ == id,
        entry_with(entries, id) is Some ==> exists|i: int|
            0 <= i < entries.len() && entry_with(entries, id) == Some(#[trigger] entries[i])
                && entries[i].id@ == id,
    decreases entries.len(),
{
    if entries.len() > 0 {
        let n = entries.len() - 1;
        if entries.last().id@ == id {
            assert(entries[n].id@ == id);
        } else {
            let short = entries.drop_last();
            cached_means_listed(short, id);
            if cached(short, id) {
                let i = choose|i: int|
                    0 <= i < short.len() && entry_with(short, id) == Some(#[trigger] short[i])
                        && short[i].id@ == id;
                assert(entries[i] == short[i]);
            }
            if exists|i: int| 0 <= i < entries.len() && (#[trigger] entries[i]).id@ == id {
                let i = choose|i: int| 0 <= i < entries.len() && (#[trigger] entries[i]).id@ == id;
                assert(i != n);
                assert(short[i].id@ == id);
            }
        }
    }
}

} // verus!
