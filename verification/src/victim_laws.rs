//! In what order entries are given up, and which never are.
use crate::budget::ceiling_of;
use crate::entries::IndexEntry;
use crate::frontier_laws::order_is_a_permutation;
use crate::line_laws::standings_follow_the_groups;
use crate::plan::{
    evictable, freed, goes_before, victim_key, victim_of, victims, PassInput, Victim,
};
use crate::plan_laws::victims_are_the_evictable_entries;
use crate::text::{before, before_is_total};
use vstd::prelude::*;

verus! {

/// Nothing in the queue window and nothing named as protected may be evicted, however far down
/// the list it stands. Of the rest anything may where there is a pin set to judge by, and
/// without one whatever is not marked as pinned.
pub proof fn what_may_be_evicted(input: PassInput, e: IndexEntry)
    ensures
        forall|k: int|
            0 <= k < input.window@.len() && (#[trigger] input.window@[k])@ == e.id@ ==> !evictable(
                input,
                e,
            ),
        forall|k: int|
            0 <= k < input.protected@.len() && (#[trigger] input.protected@[k])@ == e.id@
                ==> !evictable(input, e),
        !(input.full() && input.pins is Some) && e.pinned ==> !evictable(input, e),
        (forall|k: int| 0 <= k < input.window@.len() ==> (#[trigger] input.window@[k])@ != e.id@)
            && (forall|k: int|
            0 <= k < input.protected@.len() ==> (#[trigger] input.protected@[k])@ != e.id@) && (
        !e.pinned || (input.full() && input.pins is Some)) ==> evictable(input, e),
{
}

proof fn chances_go_by_recency(input: PassInput, p: usize, q: usize)
    requires
        victim_of(input, p).standing is Opportunistic,
        victim_of(input, q).standing is Opportunistic,
        !goes_before(victim_key(input, q), victim_key(input, p)),
    ensures
        ({
            let x = input.entries@[p as int];
            let y = input.entries@[q as int];
            &&& x.last_played_unix <= y.last_played_unix
            &&& x.last_played_unix == y.last_played_unix ==> x.id@ == y.id@ || before(x.id@, y.id@)
        }),
{
    before_is_total(input.entries@[p as int].id@, input.entries@[q as int].id@);
    assert(victim_of(input, p).group == 0);
    assert(victim_of(input, q).group == 0);
}

/// Real recency: of two entries kept on the chance alone, the one played earlier is given up
/// first, to the second, and of two played at the same second the one whose id comes first.
pub proof fn the_longest_unplayed_goes_first(input: PassInput, a: int, b: int)
    requires
        input.full(),
        0 <= a < b < victims(input).len(),
        victims(input)[a].standing is Opportunistic,
        victims(input)[b].standing is Opportunistic,
    ensures
        ({
            let x = input.entries@[victims(input)[a].at as int];
            let y = input.entries@[victims(input)[b].at as int];
            &&& x.last_played_unix <= y.last_played_unix
            &&& x.last_played_unix == y.last_played_unix ==> x.id@ == y.id@ || before(x.id@, y.id@)
        }),
{
    victims_are_the_evictable_entries(input);
    let x = victims(input)[a];
    let y = victims(input)[b];
    assert(!goes_before(victim_key(input, y.at), victim_key(input, x.at)));
    chances_go_by_recency(input, x.at, y.at);
}

/// What is kept on the chance alone goes before anything a pin wants, what is below the line
/// before what is above it, and of two groups on one side the one further down the frontier.
pub proof fn the_tail_of_the_frontier_goes_first(input: PassInput, a: int, b: int)
    requires
        input.full(),
        input.pins is Some,
        0 <= a < b < victims(input).len(),
    ensures
        ({
            let x = input.line().standing(input.entries@[victims(input)[a].at as int].id@);
            let y = input.line().standing(input.entries@[victims(input)[b].at as int].id@);
            &&& victims(input)[a].standing == x.0
            &&& victims(input)[b].standing == y.0
            &&& y.0 is Opportunistic ==> x.0 is Opportunistic
            &&& y.0 is Deferred ==> !(x.0 is Resident)
            &&& x.0 == y.0 && !(x.0 is Opportunistic) ==> x.1 >= y.1
        }),
{
    victims_are_the_evictable_entries(input);
    let x = victims(input)[a];
    let y = victims(input)[b];
    assert(!goes_before(victim_key(input, y.at), victim_key(input, x.at)));
    assert(x == victim_of(input, x.at) && y == victim_of(input, y.at));
    let ceiling = ceiling_of(input.max_bytes as int) as u64;
    let pins = input.pins->0;
    order_is_a_permutation(pins, input.entries@, input.now_unix);
    assert(pins.groups@.len() == pins.groups.len());
    standings_follow_the_groups(
        pins,
        input.entries@,
        ceiling,
        input.now_unix,
        input.entries@[x.at as int].id@,
    );
    standings_follow_the_groups(
        pins,
        input.entries@,
        ceiling,
        input.now_unix,
        input.entries@[y.at as int].id@,
    );
}

/// Without a pin set to judge by every victim is kept on the chance alone.
pub proof fn victims_without_a_pin_set(input: PassInput, k: int)
    requires
        input.full(),
        input.pins is None,
        0 <= k < victims(input).len(),
    ensures
        victims(input)[k].standing is Opportunistic,
        !input.entries@[victims(input)[k].at as int].pinned,
{
    victims_are_the_evictable_entries(input);
    let v = victims(input)[k];
    assert(v == victim_of(input, v.at));
}

/// Bytes given up are the entries' sizes, added up.
pub proof fn freed_bytes_add_up(
    vs: Seq<Victim>,
    entries: Seq<IndexEntry>,
    got: Seq<usize>,
    more: Seq<usize>,
    k: usize,
)
    ensures
        freed(vs, entries, Seq::empty()) == 0,
        freed(vs, entries, seq![k]) == entries[vs[k as int].at as int].size,
        freed(vs, entries, got + more) == freed(vs, entries, got) + freed(vs, entries, more),
    decreases more.len(),
{
    assert(seq![k].drop_last() =~= Seq::<usize>::empty());
    assert(freed(vs, entries, Seq::empty()) == 0);
    if more.len() > 0 {
        freed_bytes_add_up(vs, entries, got, more.drop_last(), k);
        assert((got + more).drop_last() =~= got + more.drop_last());
    } else {
        assert(got + more =~= got);
    }
}

} // verus!
