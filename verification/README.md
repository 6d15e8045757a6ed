# hypodj-core

The core of a music daemon that plays from a Subsonic server: the offline audio store, the tape
of what was just heard on a stream, and the wire format of its level meter. The library under
`src/` is written and proved in Verus; `app/` is the ordinary Rust around it, which reads the
disk, talks to the server and runs the loops.

## The library

| Modules | What they are about |
| --- | --- |
| `text`, `time`, `stamp`, `paths`, `names`, `sorting` | text, timestamps, paths, keys and suffixes |
| `model`, `config` | the catalogue as the server reports it, and the store's knobs |
| `budget` | how much the store may hold, from what the filesystem has left |
| `pins`, `score`, `frontier`, `status` | what starring asks for, and the one ordering that decides what is kept |
| `plan`, `planner`, `books` | a pass's plan: a pure function from what a pass sees to what it does |
| `entries`, `index`, `sidecar`, `scan`, `store`, `commit`, `removal` | the index, the directory and the records that commit songs to it |
| `transfer`, `backoff`, `expand`, `memo`, `reconcile` | downloads, retries, pin expansion and the reconciler's decisions |
| `tape`, `segment`, `sweep` | which window of a stream to keep, what to call it, and what to sweep |
| `viz` | the level stream |

Each executable function says in its contract what it returns or changes. What holds across
functions is stated as public proof functions: beside the functions they speak of, and in the
modules whose names end in `_laws`. Among them:

- the budget never eats into the reserve, and the store's own evictions do not move it;
- a pin group is held whole or not at all, in the order of neglect, within the ceiling, and two
  rivals swap places at most ten times;
- a plan never fetches what it evicts, never evicts what is protected, and evicts no further
  than it must;
- a store that is as it should be is left alone;
- a commit takes effect in one step, and what it replaces is kept until then;
- a segment's name claims a track only where the bytes hold its boundaries and that was proven.

Where the library rests on code that is not proved, the item says so: `String::push`, the system
clock and its spans, and chrono's local time.

## Conventions

Paths are text. Moments are epoch seconds on the calendar and nanoseconds on a monotonic clock;
positions on a stream are microseconds. Operations on the disk come in two halves, one that says
what to do and one that takes the outcome, so that the library never touches the disk itself.
