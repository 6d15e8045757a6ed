//! The level stream: one line of text per frame, and what one connection does about each
//! thing that happens to it.
//!
//! Levels are decimal numbers on the wire. The library frames and takes apart the lines; what
//! a level's digits mean is the business of whoever measures or draws it.
use crate::text::{char_is_space, chars_of, is_space, same, string_of};
use vstd::prelude::*;

verus! {

/// How many frames a slow subscriber may lag behind before it drops to the newest.
pub const VIZ_BROADCAST_CAP: usize = 8;

/// The first line of every connection.
pub const VIZ_GREETING: &'static str = "OK HYPODJ-VIZ 1";

/// The line that says that an idle connection lives. It is no frame.
pub const VIZ_PING: &'static str = "PING";

/// Milliseconds of silence after which a ping goes out.
pub const VIZ_HEARTBEAT: u64 = 2_000;

/// The most connections at a time.
pub const VIZ_MAX_CONNS: usize = 32;

/// Milliseconds to wait after a failed accept.
pub const ACCEPT_ERROR_BACKOFF: u64 = 250;

/// The fields of one frame, as they stand on the wire.
#[derive(Debug, PartialEq, Eq)]
pub struct FrameFields {
    pub rms: String,
    pub peak: String,
    pub gain: String,
    pub playing: bool,
}

/// The first position from `i` on that is no white space.
pub open spec fn skip_space(s: Seq<char>, i: int) -> int
    decreases s.len() - i,
{
    if 0 <= i < s.len() && is_space(s[i]) {
        skip_space(s, i + 1)
    } else {
        i
    }
}

/// The first position from `i` on that is white space.
pub open spec fn word_end(s: Seq<char>, i: int) -> int
    decreases s.len() - i,
{
    if 0 <= i < s.len() && !is_space(s[i]) {
        word_end(s, i + 1)
    } else {
        i
    }
}

/// The words of a text from `i` on, parted by white space.
pub open spec fn words_from(s: Seq<char>, i: int) -> Seq<Seq<char>>
    decreases s.len() - i,
    when 0 <= i <= s.len()
    via words_shrink
{
    let a = skip_space(s, i);
    if a >= s.len() {
        Seq::empty()
    } else {
        seq![s.subrange(a, word_end(s, a))] + words_from(s, word_end(s, a))
    }
}

#[via_fn]
proof fn words_shrink(s: Seq<char>, i: int) {
    skipping_stays_inside(s, i);
    let a = skip_space(s, i);
    if a < s.len() {
        words_stay_inside(s, a);
        assert(!is_space(s[a]));
        words_stay_inside(s, a + 1);
    }
}

proof fn skipping_stays_inside(s: Seq<char>, i: int)
    requires
        0 <= i <= s.len(),
    ensures
        i <= skip_space(s, i) <= s.len(),
        skip_space(s, i) < s.len() ==> !is_space(s[skip_space(s, i)]),
    decreases s.len() - i,
{
    if i < s.len() && is_space(s[i]) {
        skipping_stays_inside(s, i + 1);
    }
}

proof fn words_stay_inside(s: Seq<char>, i: int)
    requires
        0 <= i <= s.len(),
    ensures
        i <= word_end(s, i) <= s.len(),
    decreases s.len() - i,
{
    if i < s.len() && !is_space(s[i]) {
        words_stay_inside(s, i + 1);
    }
}

/// The words of a text.
pub open spec fn words(s: Seq<char>) -> Seq<Seq<char>> {
    words_from(s, 0)
}

/// The mark of a playing deck, or of a resting one.
pub open spec fn flag(playing: bool) -> Seq<char> {
    if playing {
        "1"@
    } else {
        "0"@
    }
}

/// A line that carries a frame: four words, of which the last is a mark.
pub open spec fn is_frame(line: Seq<char>) -> bool {
    words(line).len() == 4 && (words(line)[3] == flag(true) || words(line)[3] == flag(false))
}

/// The line of a frame.
pub open spec fn line_of(
    rms: Seq<char>,
    peak: Seq<char>,
    gain: Seq<char>,
    playing: bool,
) -> Seq<char> {
    rms + " "@ + peak + " "@ + gain + " "@ + flag(playing) + "\n"@
}

/// The words of a text.
fn split_words(s: &str) -> (r: Vec<String>)
    ensures
        r@.len() == words(s@).len(),
        forall|k: int| 0 <= k < r@.len() ==> (#[trigger] r@[k])@ == words(s@)[k],
{
    let cs: Vec<char> = chars_of(s);
    let mut out: Vec<String> = Vec::new();
    let mut i: usize = 0;
    let ghost all = words(s@);
    assert(all.skip(0) =~= all);
    while i < cs.len()
        invariant
            cs@ == s@,
            i <= cs@.len(),
            all == words(s@),
            out@.len() <= all.len(),
            words_from(s@, i as int) == all.skip(out@.len() as int),
            forall|k: int| 0 <= k < out@.len() ==> (#[trigger] out@[k])@ == all[k],
        decreases cs@.len() - i,
    {
        proof {
            skipping_stays_inside(s@, i as int);
        }
        if char_is_space(cs[i]) {
            i = i + 1;
            assert(words_from(s@, i - 1) == words_from(s@, i as int)) by {
                assert(skip_space(s@, i - 1) == skip_space(s@, i as int));
            }
        } else {
            let start: usize = i;
            let mut word: Vec<char> = Vec::new();
            let mut j: usize = i;
            while j < cs.len() && !char_is_space(cs[j])
                invariant
                    cs@ == s@,
                    start <= j <= cs@.len(),
                    word@ =~= s@.subrange(start as int, j as int),
                    word_end(s@, start as int) == word_end(s@, j as int),
                decreases cs@.len() - j,
            {
                word.push(cs[j]);
                j = j + 1;
            }
            assert(word_end(s@, start as int) == j);
            assert(skip_space(s@, start as int) == start);
            assert(j > start);
            let ghost rest = words_from(s@, j as int);
            assert(words_from(s@, start as int) == seq![word@] + rest);
            let ghost due = all.skip(out@.len() as int);
            assert(due.len() == 1 + rest.len());
            assert(due.len() == all.len() - out@.len());
            assert(due[0] == word@);
            assert(due[0] == all[out@.len() as int]);
            assert(all.skip((out@.len() + 1) as int) =~= rest) by {
                assert(all.skip(out@.len() as int).drop_first() =~= rest);
                assert(all.skip(out@.len() as int).drop_first() =~= all.skip((out@.len() + 1) as int));
            }
            out.push(string_of(word.as_slice()));
            i = j;
        }
    }
    assert(words_from(s@, i as int).len() == 0) by {
        assert(skip_space(s@, i as int) == i);
    }
    out
}

/// Takes a line apart. A line that is no frame is skipped: one with too few words or too many,
/// or with another mark than the two.
pub fn frame_fields(line: &str) -> (r: Option<FrameFields>)
    ensures
        r is Some <==> is_frame(line@),
        r is Some ==> r->0.rms@ == words(line@)[0] && r->0.peak@ == words(line@)[1]
            && r->0.gain@ == words(line@)[2] && flag(r->0.playing) == words(line@)[3],
{
    proof {
        reveal_strlit("1");
        reveal_strlit("0");
        assert("1"@[0] != "0"@[0]);
    }
    let ws: Vec<String> = split_words(line);
    if ws.len() != 4 {
        return None;
    }
    let playing: bool = if same(ws[3].as_str(), "1") {
        true
    } else if same(ws[3].as_str(), "0") {
        false
    } else {
        return None;
    };
    Some(
        FrameFields {
            rms: ws[0].clone(),
            peak: ws[1].clone(),
            gain: ws[2].clone(),
            playing,
        },
    )
}

/// Writes a frame's line, newline and all.
pub fn frame_line(rms: &str, peak: &str, gain: &str, playing: bool) -> (r: String)
    ensures
        r@ == line_of(rms@, peak@, gain@, playing),
{
    let mut out: String = rms.to_owned();
    out.append(" ");
    out.append(peak);
    out.append(" ");
    out.append(gain);
    out.append(" ");
    if playing {
        out.append("1");
    } else {
        out.append("0");
    }
    out.append("\n");
    out
}

/// A word: something, and no white space in it.
pub open spec fn is_word(s: Seq<char>) -> bool {
    s.len() > 0 && forall|i: int| 0 <= i < s.len() ==> !is_space(#[trigger] s[i])
}

proof fn word_ends_at(s: Seq<char>, i: int, j: int)
    requires
        0 <= i <= j < s.len(),
        forall|k: int| i <= k < j ==> !is_space(#[trigger] s[k]),
        is_space(s[j]),
    ensures
        word_end(s, i) == j,
    decreases j - i,
{
    if i < j {
        assert(!is_space(s[i]));
        word_ends_at(s, i + 1, j);
    }
}

proof fn next_word(s: Seq<char>, i: int, w: Seq<char>)
    requires
        0 <= i,
        i + w.len() < s.len(),
        is_word(w),
        s.subrange(i, i + w.len()) == w,
        is_space(s[i + w.len()]),
    ensures
        words_from(s, i) == seq![w] + words_from(s, i + w.len()),
{
    assert forall|k: int| i <= k < i + w.len() implies !is_space(#[trigger] s[k]) by {
        assert(s[k] == s.subrange(i, i + w.len())[k - i]);
        assert(!is_space(w[k - i]));
    }
    assert(!is_space(s[i]));
    word_ends_at(s, i, i + w.len());
    assert(skip_space(s, i) == i);
}

proof fn step_over(s: Seq<char>, i: int)
    requires
        0 <= i < s.len(),
        is_space(s[i]),
    ensures
        words_from(s, i) == words_from(s, i + 1),
{
    assert(skip_space(s, i) == skip_space(s, i + 1));
}

/// What is written is read back: the line of a frame whose levels are words is a frame of just
/// these levels and this mark.
pub proof fn frames_read_back(a: Seq<char>, b: Seq<char>, c: Seq<char>, playing: bool)
    requires
        is_word(a),
        is_word(b),
        is_word(c),
    ensures
        words(line_of(a, b, c, playing)) == seq![a, b, c, flag(playing)],
        is_frame(line_of(a, b, c, playing)),
{
    reveal_strlit("1");
    reveal_strlit("0");
    reveal_strlit(" ");
    reveal_strlit("\n");
    let s = line_of(a, b, c, playing);
    let f = flag(playing);
    assert(f.len() == 1 && is_word(f));
    let i = a.len() as int;
    let j = i + 1 + b.len();
    let k = j + 1 + c.len();
    let l = k + 1 + 1;
    assert(s.len() == l + 1);
    assert(s.subrange(0, i) =~= a);
    assert(s.subrange(i + 1, j) =~= b);
    assert(s.subrange(j + 1, k) =~= c);
    assert(s.subrange(k + 1, l) =~= f);
    assert(s[i] == ' ' && s[j] == ' ' && s[k] == ' ' && s[l] == '\n');
    next_word(s, 0, a);
    step_over(s, i);
    next_word(s, i + 1, b);
    step_over(s, j);
    next_word(s, j + 1, c);
    step_over(s, k);
    next_word(s, k + 1, f);
    step_over(s, l);
    assert(words_from(s, l + 1) =~= Seq::empty()) by {
        assert(skip_space(s, l + 1) == l + 1);
    }
    assert(words(s) =~= seq![a, b, c, f]);
}

/// The ping is no frame, so a client that skips what is no frame never draws one.
pub proof fn pings_are_no_frames()
    ensures
        !is_frame(VIZ_PING@),
        !is_frame(VIZ_GREETING@),
{
    reveal_strlit("PING");
    reveal_strlit("OK HYPODJ-VIZ 1");
    let p = VIZ_PING@;
    assert(forall|i: int| 0 <= i < 4 ==> !is_space(#[trigger] p[i]));
    reveal_with_fuel(word_end, 6);
    reveal_with_fuel(skip_space, 3);
    assert(word_end(p, 0) == 4);
    assert(skip_space(p, 0) == 0);
    assert(skip_space(p, 4) == 4);
    assert(words_from(p, 4) =~= Seq::empty());
    assert(words(p).len() == 1);
    let g = VIZ_GREETING@;
    word_ends_at(g, 0, 2);
    assert(skip_space(g, 0) == 0);
    assert(words(g) == seq![g.subrange(0, 2)] + words_from(g, 2));
    step_over(g, 2);
    word_ends_at(g, 3, 13);
    assert(skip_space(g, 3) == 3);
    assert(words_from(g, 3) == seq![g.subrange(3, 13)] + words_from(g, 13));
    step_over(g, 13);
    assert(word_end(g, 14) == 15);
    assert(skip_space(g, 14) == 14);
    assert(skip_space(g, 15) == 15);
    assert(words_from(g, 15) =~= Seq::empty());
    assert(words(g).len() == 3);
}

/// What can happen to a connection.
#[derive(Clone, Copy, Debug, PartialEq, Eq, Structural)]
pub enum VizEvent {
    /// The peer closed, or could not be read.
    PeerGone,
    /// The peer sent something.
    PeerSpoke,
    /// Nothing was written for a whole heartbeat.
    Idle,
    /// A frame was published.
    Frame,
    /// Frames were missed.
    Lagged,
    /// The stream is over.
    Closed,
}

/// What a connection does.
#[derive(Clone, Copy, Debug, PartialEq, Eq, Structural)]
pub enum VizStep {
    /// Ends, and gives its socket back.
    Stop,
    /// Nothing: what a peer says is discarded, and missed frames are not made up for.
    Ignore,
    /// Writes a ping.
    Ping,
    /// Writes the frame, and puts the next ping a whole heartbeat off.
    Send,
}

/// The step that an event calls for.
pub open spec fn step_on(event: VizEvent) -> VizStep {
    match event {
        VizEvent::PeerGone | VizEvent::Closed => VizStep::Stop,
        VizEvent::PeerSpoke | VizEvent::Lagged => VizStep::Ignore,
        VizEvent::Idle => VizStep::Ping,
        VizEvent::Frame => VizStep::Send,
    }
}

/// What a connection does about what happened. It ends with its peer, even if no frame ever
/// flows again.
pub fn viz_step(event: VizEvent) -> (r: VizStep)
    ensures
        r == step_on(event),
        r == VizStep::Stop <==> event == VizEvent::PeerGone || event == VizEvent::Closed,
        r == VizStep::Ping <==> event == VizEvent::Idle,
        r == VizStep::Send <==> event == VizEvent::Frame,
        r == VizStep::Ignore <==> event == VizEvent::PeerSpoke || event == VizEvent::Lagged,
{
    match event {
        VizEvent::PeerGone => VizStep::Stop,
        VizEvent::Closed => VizStep::Stop,
        VizEvent::Idle => VizStep::Ping,
        VizEvent::Frame => VizStep::Send,
        VizEvent::PeerSpoke => VizStep::Ignore,
        VizEvent::Lagged => VizStep::Ignore,
    }
}

/// A connection ends with its peer or with the stream and for nothing else; it writes a frame for
/// every frame and a ping for every idle heartbeat, and nothing for anything else.
pub proof fn connections_end_for_cause(event: VizEvent)
    ensures
        step_on(event) == VizStep::Stop <==> event == VizEvent::PeerGone || event
            == VizEvent::Closed,
        step_on(event) == VizStep::Send <==> event == VizEvent::Frame,
        step_on(event) == VizStep::Ping <==> event == VizEvent::Idle,
{
}

proof fn words_do_not_move(a: Seq<char>, b: Seq<char>, i: int)
    requires
        0 <= i <= b.len(),
    ensures
        skip_space(a + b, a.len() + i) == a.len() + skip_space(b, i),
        word_end(a + b, a.len() + i) == a.len() + word_end(b, i),
    decreases b.len() - i,
{
    if i < b.len() {
        assert((a + b)[a.len() + i] == b[i]);
        words_do_not_move(a, b, i + 1);
    }
}

proof fn later_words_are_the_rest(a: Seq<char>, b: Seq<char>, i: int)
    requires
        0 <= i <= b.len(),
    ensures
        words_from(a + b, a.len() + i) == words_from(b, i),
    decreases b.len() - i,
{
    words_do_not_move(a, b, i);
    skipping_stays_inside(b, i);
    let at = skip_space(b, i);
    if at < b.len() {
        words_do_not_move(a, b, at);
        words_stay_inside(b, at);
        assert(!is_space(b[at]));
        words_stay_inside(b, at + 1);
        let to = word_end(b, at);
        assert((a + b).subrange(a.len() + at, a.len() + to) =~= b.subrange(at, to));
        later_words_are_the_rest(a, b, to);
    }
}

/// Words are what white space parts: a text without any words has none, a word is one, white
/// space in front changes nothing, and a word and white space before a text put that word before
/// its words.
pub proof fn words_are_parted_by_white_space(w: Seq<char>, gap: char, rest: Seq<char>)
    requires
        is_word(w),
        is_space(gap),
    ensures
        words(Seq::empty()) == Seq::<Seq<char>>::empty(),
        words(w) == seq![w],
        words(seq![gap] + rest) == words(rest),
        words(w + seq![gap] + rest) == seq![w] + words(rest),
{
    assert(words(Seq::empty()) =~= Seq::<Seq<char>>::empty());
    assert(!is_space(w[0]));
    assert(skip_space(w, 0) == 0);
    whole_words_end(w, 0);
    assert(w.subrange(0, w.len() as int) =~= w);
    assert(skip_space(w, w.len() as int) == w.len());
    assert(words_from(w, w.len() as int) =~= Seq::<Seq<char>>::empty());
    assert(words(w) =~= seq![w]);
    let s = seq![gap] + rest;
    assert(s[0] == gap);
    step_over(s, 0);
    later_words_are_the_rest(seq![gap], rest, 0);
    let t = w + seq![gap] + rest;
    assert(t.subrange(0, w.len() as int) =~= w);
    assert(t[w.len() as int] == gap);
    next_word(t, 0, w);
    step_over(t, w.len() as int);
    later_words_are_the_rest(w + seq![gap], rest, 0);
}

proof fn whole_words_end(w: Seq<char>, i: int)
    requires
        0 <= i <= w.len(),
        is_word(w),
    ensures
        word_end(w, i) == w.len(),
    decreases w.len() - i,
{
    if i < w.len() {
        assert(!is_space(w[i]));
        whole_words_end(w, i + 1);
    }
}

/// A line is a frame exactly where it has four words and the last is `0` or `1`.
pub proof fn frames_have_four_words(line: Seq<char>)
    ensures
        is_frame(line) <==> words(line).len() == 4 && (words(line)[3] == seq!['0'] || words(
            line,
        )[3] == seq!['1']),
        flag(true) == seq!['1'],
        flag(false) == seq!['0'],
{
    reveal_strlit("1");
    reveal_strlit("0");
    assert("1"@ =~= seq!['1']);
    assert("0"@ =~= seq!['0']);
}

} // verus!
