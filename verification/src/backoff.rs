//! How long a failed download waits, and when it is given up.
use crate::model::SongId;
use vstd::prelude::*;

verus! {

/// The first wait after a failure, in nanoseconds of a monotonic clock: thirty seconds.
pub const DOWNLOAD_BACKOFF_BASE: u64 = 30_000_000_000;

/// The longest wait, one hour.
pub const DOWNLOAD_BACKOFF_MAX: u64 = 3_600_000_000_000;

/// Failures after which an id is no longer tried.
pub const DOWNLOAD_GIVE_UP_AFTER: u32 = 8;

/// What may be done with an id's download now.
#[derive(Clone, Copy, Debug, PartialEq, Eq, Structural)]
pub enum Attempt {
    /// Go ahead.
    Now,
    /// Its wait is not over.
    Waiting,
    /// It failed too often.
    GivenUp,
}

/// What is remembered of one failing id.
#[derive(Debug)]
pub struct Retry {
    pub id: SongId,
    pub failures: u32,
    /// Not to be tried before this moment.
    pub not_before: u64,
}

/// The failing ids, each once.
#[derive(Debug)]
pub struct Backoff {
    pub retries: Vec<Retry>,
}

/// What is remembered of an id; nothing, where it did not fail since it last succeeded.
pub open spec fn retry_of(retries: Seq<Retry>, id: Seq<char>) -> Option<(u32, u64)>
    decreases retries.len(),
{
    if retries.len() == 0 {
        None
    } else if retries.last().id@ == id {
        Some((retries.last().failures, retries.last().not_before))
    } else {
        retry_of(retries.drop_last(), id)
    }
}

/// No id is remembered twice.
pub open spec fn distinct_retries(retries: Seq<Retry>) -> bool {
    forall|i: int, j: int|
        0 <= i < j < retries.len() ==> (#[trigger] retries[i]).id@ != (#[trigger] retries[j]).id@
}

/// Two to the `n`.
pub open spec fn doubled(n: nat) -> nat
    decreases n,
{
    if n == 0 {
        1
    } else {
        2 * doubled((n - 1) as nat)
    }
}

/// The wait after so many failures: the base, doubled by each failure after the first, and
/// never more than the cap.
pub open spec fn wait_of(failures: u32) -> int {
    let n: int = if failures > DOWNLOAD_GIVE_UP_AFTER {
        DOWNLOAD_GIVE_UP_AFTER as int
    } else {
        failures as int
    };
    let grown = DOWNLOAD_BACKOFF_BASE * doubled(
        (if n >= 1 {
            n - 1
        } else {
            0
        }) as nat,
    );
    if grown > DOWNLOAD_BACKOFF_MAX {
        DOWNLOAD_BACKOFF_MAX as int
    } else {
        grown
    }
}

/// What may be done with an id of which this is remembered.
pub open spec fn attempt_of(retry: Option<(u32, u64)>, now: u64) -> Attempt {
    match retry {
        None => Attempt::Now,
        Some((failures, not_before)) => if failures >= DOWNLOAD_GIVE_UP_AFTER {
            Attempt::GivenUp
        } else if now < not_before {
            Attempt::Waiting
        } else {
            Attempt::Now
        },
    }
}

/// What is remembered after one more failure.
pub open spec fn failed(retry: Option<(u32, u64)>, now: u64) -> (u32, u64) {
    let before: int = match retry {
        Some((n, _)) => n as int,
        None => 0,
    };
    let failures = (if before < u32::MAX {
        before + 1
    } else {
        before
    }) as u32;
    let then = now + wait_of(failures);
    (
        failures,
        (if then > u64::MAX {
            u64::MAX as int
        } else {
            then
        }) as u64,
    )
}

proof fn retries_are_listed(retries: Seq<Retry>, id: Seq<char>)
    ensures
        retry_of(retries, id) is None <==> forall|i: int|
            0 <= i < retries.len() ==> (#[trigger] retries[i]).id@ != id,
        distinct_retries(retries) ==> forall|i: int|
            0 <= i < retries.len() && (#[trigger] retries[i]).id@ == id ==> retry_of(retries, id)
                == Some((retries[i].failures, retries[i].not_before)),
    decreases retries.len(),
{
    if retries.len() > 0 {
        let short = retries.drop_last();
        retries_are_listed(short, id);
        assert forall|i: int| 0 <= i < short.len() implies #[trigger] short[i] == retries[i] by {}
        if retries.last().id@ == id {
            assert(retries[retries.len() - 1].id@ == id);
            if distinct_retries(retries) {
                assert forall|i: int|
                    0 <= i < retries.len() && (#[trigger] retries[i]).id@
                        == id implies retry_of(retries, id) == Some(
                    (retries[i].failures, retries[i].not_before),
                ) by {
                    if i < retries.len() - 1 {
                        assert(retries[i].id@ != retries[retries.len() - 1].id@);
                    }
                }
            }
        } else {
            if retry_of(short, id) is None {
                assert forall|i: int| 0 <= i < retries.len() implies (
                #[trigger] retries[i]).id@ != id by {
                    if i < short.len() {
                        assert(short[i].id@ != id);
                    }
                }
            } else {
                let i = choose|i: int| 0 <= i < short.len() && (#[trigger] short[i]).id@ == id;
                assert(retries[i].id@ == id);
            }
            if distinct_retries(retries) {
                assert(distinct_retries(short)) by {
                    assert forall|i: int, j: int| 0 <= i < j < short.len() implies (
                    #[trigger] short[i]).id@ != (#[trigger] short[j]).id@ by {
                        assert(retries[i].id@ != retries[j].id@);
                    }
                }
                assert forall|i: int|
                    0 <= i < retries.len() && (#[trigger] retries[i]).id@
                        == id implies retry_of(retries, id) == Some(
                    (retries[i].failures, retries[i].not_before),
                ) by {
                    assert(short[i].id@ == id);
                }
            }
        }
    }
}

/// The wait after so many failures.
fn wait(failures: u32) -> (r: u64)
    ensures
        r == wait_of(failures),
{
    reveal_with_fuel(doubled, 9);
    if failures <= 1 {
        DOWNLOAD_BACKOFF_BASE
    } else if failures == 2 {
        60_000_000_000
    } else if failures == 3 {
        120_000_000_000
    } else if failures == 4 {
        240_000_000_000
    } else if failures == 5 {
        480_000_000_000
    } else if failures == 6 {
        960_000_000_000
    } else if failures == 7 {
        1_920_000_000_000
    } else {
        DOWNLOAD_BACKOFF_MAX
    }
}

impl Default for Backoff {
    fn default() -> (r: Self)
        ensures
            r.retries@.len() == 0,
    {
        Backoff { retries: Vec::new() }
    }
}

impl Backoff {
    /// Each id is remembered once.
    pub open spec fn wf(self) -> bool {
        distinct_retries(self.retries@)
    }

    /// What is remembered of an id.
    pub open spec fn of(self, id: Seq<char>) -> Option<(u32, u64)> {
        retry_of(self.retries@, id)
    }

    fn find(&self, id: &SongId) -> (r: Option<usize>)
        requires
            self.wf(),
        ensures
            r is Some <==> self.of(id@) is Some,
            r is Some ==> r->0 < self.retries@.len() && self.retries@[r->0 as int].id@ == id@
                && self.of(id@) == Some(
                (self.retries@[r->0 as int].failures, self.retries@[r->0 as int].not_before),
            ),
    {
        proof {
            retries_are_listed(self.retries@, id@);
        }
        for k in 0..self.retries.len()
            invariant
                forall|j: int| 0 <= j < k ==> (#[trigger] self.retries@[j]).id@ != id@,
                forall|i: int|
                    0 <= i < self.retries@.len() && (#[trigger] self.retries@[i]).id@ == id@
                        ==> self.of(id@) == Some(
                        (self.retries@[i].failures, self.retries@[i].not_before),
                    ),
        {
            if self.retries[k].id.0 == id.0 {
                assert(self.retries@[k as int].id@ == id@);
                return Some(k);
            }
        }
        None
    }

    /// What may be done with an id's download now.
    pub fn attempt(&self, id: &SongId, now: u64) -> (r: Attempt)
        requires
            self.wf(),
        ensures
            r == attempt_of(self.of(id@), now),
    {
        match self.find(id) {
            Some(k) => {
                if self.retries[k].failures >= DOWNLOAD_GIVE_UP_AFTER {
                    Attempt::GivenUp
                } else if now < self.retries[k].not_before {
                    Attempt::Waiting
                } else {
                    Attempt::Now
                }
            },
            None => Attempt::Now,
        }
    }

    /// Whether an id may be downloaded now.
    pub fn ready(&self, id: &SongId, now: u64) -> (r: bool)
        requires
            self.wf(),
        ensures
            r == (attempt_of(self.of(id@), now) is Now),
    {
        match self.attempt(id, now) {
            Attempt::Now => true,
            _ => false,
        }
    }

    /// Whether the last failure was the one that gave the id up.
    pub fn just_gave_up(&self, id: &SongId) -> (r: bool)
        requires
            self.wf(),
        ensures
            r == (match self.of(id@) {
                Some((failures, _)) => failures == DOWNLOAD_GIVE_UP_AFTER,
                None => false,
            }),
    {
        match self.find(id) {
            Some(k) => self.retries[k].failures == DOWNLOAD_GIVE_UP_AFTER,
            None => false,
        }
    }

    /// Notes a failure.
    pub fn fail(&mut self, id: &SongId, now: u64)
        requires
            old(self).wf(),
        ensures
            final(self).wf(),
            final(self).of(id@) == Some(failed(old(self).of(id@), now)),
            forall|other: Seq<char>|
                other != id@ ==> #[trigger] final(self).of(other) == old(self).of(other),
    {
        let ghost was = self.retries@;
        let at: Option<usize> = self.find(id);
        let before: u32 = match at {
            Some(k) => self.retries[k].failures,
            None => 0,
        };
        let failures: u32 = before.saturating_add(1);
        let not_before: u64 = now.saturating_add(wait(failures));
        let retry: Retry = Retry { id: id.clone(), failures, not_before };
        match at {
            Some(k) => {
                self.retries.set(k, retry);
            },
            None => {
                self.retries.push(retry);
            },
        }
        proof {
            let now_list = self.retries@;
            let place: int = match at {
                Some(k) => k as int,
                None => was.len() as int,
            };
            retries_are_listed(was, id@);
            assert(now_list[place] == retry);
            assert forall|i: int| 0 <= i < now_list.len() && i != place implies now_list[i]
                == was[i] by {}
            assert(distinct_retries(now_list)) by {
                assert forall|i: int, j: int| 0 <= i < j < now_list.len() implies (
                #[trigger] now_list[i]).id@ != (#[trigger] now_list[j]).id@ by {
                    if at is Some {
                        assert(was[i].id@ != was[j].id@);
                    } else if j == place {
                        assert(was[i].id@ != id@);
                    } else {
                        assert(was[i].id@ != was[j].id@);
                    }
                }
            }
            retries_are_listed(now_list, id@);
            assert(now_list[place].id@ == id@);
            assert forall|other: Seq<char>| other != id@ implies #[trigger] self.of(other)
                == retry_of(was, other) by {
                retries_are_listed(now_list, other);
                retries_are_listed(was, other);
                if retry_of(was, other) is Some {
                    let i = choose|i: int| 0 <= i < was.len() && (#[trigger] was[i]).id@ == other;
                    assert(i != place);
                    assert(now_list[i].id@ == other);
                } else {
                    assert forall|i: int| 0 <= i < now_list.len() implies (
                    #[trigger] now_list[i]).id@ != other by {
                        if i != place {
                            assert(was[i].id@ != other);
                        }
                    }
                }
            }
        }
    }

    /// Forgets an id's failures.
    pub fn succeed(&mut self, id: &SongId)
        requires
            old(self).wf(),
        ensures
            final(self).wf(),
            final(self).of(id@) is None,
            forall|other: Seq<char>|
                other != id@ ==> #[trigger] final(self).of(other) == old(self).of(other),
    {
        let ghost was = self.retries@;
        match self.find(id) {
            Some(k) => {
                self.retries.remove(k);
                proof {
                    forgetting(was, k as int);
                }
            },
            None => {},
        }
    }
}

proof fn forgetting(was: Seq<Retry>, at: int)
    requires
        distinct_retries(was),
        0 <= at < was.len(),
    ensures
        distinct_retries(was.remove(at)),
        retry_of(was.remove(at), was[at].id@) is None,
        forall|other: Seq<char>|
            other != was[at].id@ ==> #[trigger] retry_of(was.remove(at), other) == retry_of(
                was,
                other,
            ),
{
    let now = was.remove(at);
    let id = was[at].id@;
    assert forall|i: int, j: int| 0 <= i < j < now.len() implies (#[trigger] now[i]).id@ != (
    #[trigger] now[j]).id@ by {
        let a = if i < at {
            i
        } else {
            i + 1
        };
        let b = if j < at {
            j
        } else {
            j + 1
        };
        assert(now[i] == was[a] && now[j] == was[b]);
        assert(was[a].id@ != was[b].id@);
    }
    retries_are_listed(now, id);
    assert forall|i: int| 0 <= i < now.len() implies (#[trigger] now[i]).id@ != id by {
        if i < at {
            assert(now[i] == was[i]);
            assert(was[i].id@ != was[at].id@);
        } else {
            assert(now[i] == was[i + 1]);
            assert(was[at].id@ != was[i + 1].id@);
        }
    }
    assert forall|other: Seq<char>| other != id implies #[trigger] retry_of(now, other) == retry_of(
        was,
        other,
    ) by {
        retries_are_listed(now, other);
        retries_are_listed(was, other);
        if retry_of(was, other) is Some {
            let i = choose|i: int| 0 <= i < was.len() && (#[trigger] was[i]).id@ == other;
            let a = if i < at {
                i
            } else {
                i - 1
            };
            assert(now[a] == was[i]);
            assert(now[a].id@ == other);
        } else {
            assert forall|i: int| 0 <= i < now.len() implies (#[trigger] now[i]).id@ != other by {
                let a = if i < at {
                    i
                } else {
                    i + 1
                };
                assert(now[i] == was[a]);
                assert(was[a].id@ != other);
            }
        }
    }
}

/// Each failure waits twice as long as the one before, up to the cap.
pub proof fn waits_double(failures: u32)
    requires
        1 <= failures < DOWNLOAD_GIVE_UP_AFTER,
    ensures
        wait_of((failures + 1) as u32) == if 2 * wait_of(failures) > DOWNLOAD_BACKOFF_MAX {
            DOWNLOAD_BACKOFF_MAX as int
        } else {
            2 * wait_of(failures)
        },
        wait_of(1) == DOWNLOAD_BACKOFF_BASE,
{
    reveal_with_fuel(doubled, 9);
}

/// No wait is shorter than the base or longer than the cap.
pub proof fn waits_are_bounded(failures: u32)
    ensures
        DOWNLOAD_BACKOFF_BASE <= wait_of(failures) <= DOWNLOAD_BACKOFF_MAX,
{
    reveal_with_fuel(doubled, 9);
}

/// An id that keeps failing is given up at a fixed number of failures, stays given up
/// however long one waits, and only a success brings it back.
pub proof fn giving_up_is_for_good(retry: Option<(u32, u64)>, at: u64, later: u64)
    ensures
        attempt_of(Some(failed(retry, at)), later) is GivenUp <==> failed(retry, at).0
            >= DOWNLOAD_GIVE_UP_AFTER,
        attempt_of(retry, at) is GivenUp ==> attempt_of(Some(failed(retry, at)), later) is GivenUp,
        attempt_of(retry, at) is GivenUp ==> attempt_of(retry, later) is GivenUp,
        attempt_of(None, later) is Now,
{
}

/// After a failure an id waits out its time, and not a moment longer.
pub proof fn failures_wait_their_time(retry: Option<(u32, u64)>, at: u64, later: u64)
    requires
        failed(retry, at).0 < DOWNLOAD_GIVE_UP_AFTER,
        at + wait_of(failed(retry, at).0) <= u64::MAX,
    ensures
        attempt_of(Some(failed(retry, at)), later) is Now <==> later >= at + wait_of(
            failed(retry, at).0,
        ),
{
}

/// Every failure counts for one, from none, and is waited out from the moment it came: for the
/// base after the first, and from the number of failures on at which an id is given up no
/// longer than there.
pub proof fn failures_are_counted(retry: Option<(u32, u64)>, now: u64, more: u32)
    ensures
        retry is None ==> failed(retry, now).0 == 1,
        retry matches Some(r) ==> r.0 < u32::MAX ==> failed(retry, now).0 == r.0 + 1,
        failed(retry, now).1 >= now,
        now + wait_of(failed(retry, now).0) <= u64::MAX ==> failed(retry, now).1 == now + wait_of(
            failed(retry, now).0,
        ),
        more >= DOWNLOAD_GIVE_UP_AFTER ==> wait_of(more) == wait_of(DOWNLOAD_GIVE_UP_AFTER),
{
    waits_are_bounded(failed(retry, now).0);
}

/// An id is tried where nothing is held against it, or where it failed less often than is given
/// up at and its wait is over; it waits until then; and it is given up by the count alone.
pub proof fn attempts_go_by_count_and_wait(failures: u32, not_before: u64, now: u64)
    ensures
        attempt_of(None, now) is Now,
        attempt_of(Some((failures, not_before)), now) is GivenUp <==> failures
            >= DOWNLOAD_GIVE_UP_AFTER,
        attempt_of(Some((failures, not_before)), now) is Waiting <==> failures
            < DOWNLOAD_GIVE_UP_AFTER && now < not_before,
        attempt_of(Some((failures, not_before)), now) is Now <==> failures
            < DOWNLOAD_GIVE_UP_AFTER && now >= not_before,
{
}

} // verus!
