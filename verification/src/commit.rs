//! Committing a download: the one order of steps in which no partial file is ever taken for a
//! valid one.
use crate::entries::IndexEntry;
use crate::model::Song;
use crate::names::storable;
use crate::paths::{dotted, joined};
use crate::scan::{fault, AudioFile, SidecarRead};
use crate::sidecar::{fresh_sidecar, fresh_sidecars_are_sound, Sidecar};
use vstd::prelude::*;

verus! {

/// Why the store refuses to write.
#[derive(Clone, Copy, Debug, PartialEq, Eq, Structural)]
pub enum StoreError {
    /// The song's id cannot be a store key.
    Unstorable,
    /// The server reported no size, so nothing could be held against the download.
    NoSize,
    /// The downloaded file could not be looked at.
    Unreadable,
    /// The downloaded file is not of the reported size.
    WrongLength { got: u64, expected: u64 },
}

/// The server's size for a song, if it can be held against a download.
pub open spec fn commit_size(song: Song) -> Option<u64> {
    match song.size {
        Some(n) if n > 0 => Some(n),
        _ => None,
    }
}

/// Why a download may not be committed, or that it may.
pub open spec fn refusal(song: Song, tmp_len: Option<u64>) -> Option<StoreError> {
    if !storable(song.id@) {
        Some(StoreError::Unstorable)
    } else if commit_size(song) is None {
        Some(StoreError::NoSize)
    } else {
        match tmp_len {
            None => Some(StoreError::Unreadable),
            Some(got) => if got == commit_size(song)->0 {
                None
            } else {
                Some(StoreError::WrongLength { got, expected: commit_size(song)->0 })
            },
        }
    }
}

/// What a commit writes.
#[derive(Debug)]
pub struct Commit {
    /// Where the bytes go.
    pub audio: String,
    pub sidecar: Sidecar,
    /// The audio file of an earlier commit under another suffix.
    pub superseded: Option<String>,
}

/// One step of a commit.
#[derive(Debug)]
pub enum CommitStep {
    /// Bring the downloaded bytes to the disk.
    Sync,
    /// Rename them to this path, over whatever stands there.
    Publish(String),
    /// Bring the rename to the disk.
    SyncDirectory,
    /// Write the sidecar: this is the commit.
    Record,
    /// Unlink the audio of an earlier commit.
    Supersede(String),
    /// Take the entry into the index.
    Enter,
}

impl CommitStep {
    /// Whether a commit ends where this step fails. A directory that cannot be synced, or old
    /// bytes that cannot be unlinked, are worth a warning only.
    pub fn is_vital(&self) -> (r: bool)
        ensures
            r == !(self is SyncDirectory || self is Supersede),
    {
        match self {
            CommitStep::SyncDirectory => false,
            CommitStep::Supersede(_) => false,
            _ => true,
        }
    }
}

/// What the commit of a song under a directory must be. `was` is the entry that it replaces.
pub open spec fn commits(
    c: Commit,
    root: Seq<char>,
    was: Option<IndexEntry>,
    song: Song,
    pinned: bool,
    now_unix: u64,
) -> bool {
    let suffix = c.sidecar.fingerprint.suffix@;
    &&& fresh_sidecar(c.sidecar, song, commit_size(song)->0, pinned, now_unix)
    &&& c.audio@ == joined(root, dotted(song.id@, suffix))
    &&& c.superseded is Some <==> was is Some && was->0.suffix@ != suffix
    &&& c.superseded is Some ==> c.superseded->0@ == joined(
        root,
        dotted(song.id@, was->0.suffix@),
    )
}

impl Commit {
    /// The steps of a commit, in order.
    pub open spec fn order(self) -> Seq<CommitStep> {
        let start = seq![
            CommitStep::Sync,
            CommitStep::Publish(self.audio),
            CommitStep::SyncDirectory,
            CommitStep::Record,
        ];
        match self.superseded {
            Some(p) => start.push(CommitStep::Supersede(p)).push(CommitStep::Enter),
            None => start.push(CommitStep::Enter),
        }
    }

    /// Lays the steps out. The sidecar comes after the bytes are in place and on disk, and the
    /// bytes of an earlier commit go only after the sidecar.
    pub fn steps(&self) -> (r: Vec<CommitStep>)
        ensures
            r@ == self.order(),
    {
        let mut out: Vec<CommitStep> = Vec::new();
        out.push(CommitStep::Sync);
        out.push(CommitStep::Publish(self.audio.clone()));
        out.push(CommitStep::SyncDirectory);
        out.push(CommitStep::Record);
        match &self.superseded {
            Some(p) => {
                out.push(CommitStep::Supersede(p.clone()));
            },
            None => {},
        }
        out.push(CommitStep::Enter);
        assert(out@ =~= self.order());
        out
    }
}

/// A plain file: its length, and whether it is the download that is being committed.
pub struct Held {
    pub len: u64,
    pub fresh: bool,
}

/// What the directory holds, as far as one id goes: audio files by path, and the id's record.
pub struct Disk {
    pub audio: Map<Seq<char>, Held>,
    pub record: Option<Sidecar>,
}

impl Disk {
    /// The directory after one step of a commit of `len` bytes.
    pub open spec fn after(self, step: CommitStep, c: Commit, len: u64) -> Disk {
        match step {
            CommitStep::Publish(p) => Disk {
                audio: self.audio.insert(p@, Held { len, fresh: true }),
                ..self
            },
            CommitStep::Record => Disk { record: Some(c.sidecar), ..self },
            CommitStep::Supersede(p) => Disk { audio: self.audio.remove(p@), ..self },
            _ => self,
        }
    }

    /// The directory after the first `n` steps.
    pub open spec fn after_steps(self, c: Commit, len: u64, n: int) -> Disk
        decreases n,
    {
        if n <= 0 {
            self
        } else {
            self.after_steps(c, len, n - 1).after(c.order()[n - 1], c, len)
        }
    }

    /// What a scan reads of an id.
    pub open spec fn read(self, root: Seq<char>, id: Seq<char>) -> SidecarRead {
        SidecarRead {
            parsed: self.record,
            audio: match self.record {
                Some(s) => {
                    let p = joined(root, dotted(id, s.fingerprint.suffix@));
                    if self.audio.dom().contains(p) {
                        AudioFile::Plain(self.audio[p].len)
                    } else {
                        AudioFile::Missing
                    }
                },
                None => AudioFile::Missing,
            },
        }
    }
}

proof fn suffixes_tell_paths_apart(root: Seq<char>, id: Seq<char>, a: Seq<char>, b: Seq<char>)
    requires
        storable(id),
        joined(root, dotted(id, a)) == joined(root, dotted(id, b)),
    ensures
        a == b,
{
    let x = dotted(id, a);
    let y = dotted(id, b);
    assert(x[0] == id[0] && y[0] == id[0]);
    let front = if root.len() == 0 || root.last() == '/' {
        root
    } else {
        root.push('/')
    };
    assert((front + x).skip(front.len() as int) =~= x);
    assert((front + y).skip(front.len() as int) =~= y);
    assert(x.skip(id.len() as int + 1) =~= a);
    assert(y.skip(id.len() as int + 1) =~= b);
}

proof fn steps_unroll(d: Disk, c: Commit, len: u64)
    ensures
        d.after_steps(c, len, 1) == d,
        d.after_steps(c, len, 2) == d.after(CommitStep::Publish(c.audio), c, len),
        d.after_steps(c, len, 3) == d.after_steps(c, len, 2),
        d.after_steps(c, len, 4) == d.after_steps(c, len, 2).after(CommitStep::Record, c, len),
        c.superseded is None ==> d.after_steps(c, len, 5) == d.after_steps(c, len, 4),
        c.superseded is Some ==> d.after_steps(c, len, 5) == d.after_steps(c, len, 4).after(
            CommitStep::Supersede(c.superseded->0),
            c,
            len,
        ) && d.after_steps(c, len, 6) == d.after_steps(c, len, 5),
{
    reveal_with_fuel(Disk::after_steps, 7);
}

/// A commit takes effect in one step. Wherever it is cut off, the record is still the old one,
/// or the new pair is whole and valid; and a file that came of the download is never shorter or
/// longer than the server said. Without an earlier record the bytes are an orphan until then.
pub proof fn commits_take_effect_at_once(
    d: Disk,
    c: Commit,
    root: Seq<char>,
    was: Option<IndexEntry>,
    song: Song,
    len: u64,
    pinned: bool,
    now_unix: u64,
    n: int,
)
    requires
        refusal(song, Some(len)) is None,
        commits(c, root, was, song, pinned, now_unix),
        forall|p: Seq<char>| #[trigger] d.audio.dom().contains(p) ==> !d.audio[p].fresh,
        0 <= n <= c.order().len(),
    ensures
        ({
            let cut = d.after_steps(c, len, n);
            &&& n <= 3 ==> cut.record == d.record
            &&& n > 3 ==> cut.record == Some(c.sidecar) && fault(
                cut.read(root, song.id@),
                song.id@,
            ) is None && cut.audio[c.audio@].fresh
            &&& n <= 3 && d.record is None ==> fault(cut.read(root, song.id@), song.id@) is Some
            &&& forall|p: Seq<char>| #[trigger]
                cut.audio.dom().contains(p) && cut.audio[p].fresh ==> Some(cut.audio[p].len)
                    == song.size
        }),
{
    steps_unroll(d, c, len);
    fresh_sidecars_are_sound(c.sidecar, song, commit_size(song)->0, pinned, now_unix);
    if c.superseded is Some && c.superseded->0@ == c.audio@ {
        suffixes_tell_paths_apart(
            root,
            song.id@,
            c.sidecar.fingerprint.suffix@,
            was->0.suffix@,
        );
    }
}

/// What is replaced is kept until its replacement is valid: up to the step that writes the
/// record no file goes but the one that the new bytes take the place of, and where the suffix
/// changes, the old pair reads as it did before. A path whose file is replaced is never without
/// one.
pub proof fn commits_keep_until_replaced(
    d: Disk,
    c: Commit,
    root: Seq<char>,
    was: Option<IndexEntry>,
    song: Song,
    len: u64,
    pinned: bool,
    now_unix: u64,
    n: int,
)
    requires
        refusal(song, Some(len)) is None,
        commits(c, root, was, song, pinned, now_unix),
        0 <= n <= c.order().len(),
    ensures
        ({
            let cut = d.after_steps(c, len, n);
            &&& forall|p: Seq<char>|
                n <= 4 && p != c.audio@ && #[trigger] d.audio.dom().contains(p)
                    ==> cut.audio.dom().contains(p) && cut.audio[p] == d.audio[p]
            &&& d.audio.dom().contains(c.audio@) ==> cut.audio.dom().contains(c.audio@)
            &&& n <= 3 && d.record is Some && d.record->0.fingerprint.suffix@
                != c.sidecar.fingerprint.suffix@ ==> cut.read(root, song.id@) == d.read(
                root,
                song.id@,
            )
        }),
{
    steps_unroll(d, c, len);
    if c.superseded is Some && c.superseded->0@ == c.audio@ {
        suffixes_tell_paths_apart(
            root,
            song.id@,
            c.sidecar.fingerprint.suffix@,
            was->0.suffix@,
        );
    }
    if d.record is Some && joined(root, dotted(song.id@, d.record->0.fingerprint.suffix@))
        == c.audio@ {
        suffixes_tell_paths_apart(
            root,
            song.id@,
            d.record->0.fingerprint.suffix@,
            c.sidecar.fingerprint.suffix@,
        );
    }
}

/// Nothing but a file of exactly the size that the server reported is ever committed, and
/// never under an id that could not be a file name.
pub proof fn commits_are_exact(song: Song, tmp_len: Option<u64>)
    ensures
        refusal(song, tmp_len) is None <==> storable(song.id@) && song.size is Some
            && song.size->0 > 0 && tmp_len == song.size,
{
}

} // verus!
