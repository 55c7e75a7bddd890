//! Everything that decides what plays next, in two tiers.
//!
//! - The **manual queue** holds tracks the user explicitly queued. It has
//!   priority and it is *consumed*: once an entry plays it is gone.
//! - The **context** is the automatic continuation of whatever is playing
//!   (an album, a playlist, a filtered library view). Shuffle and repeat act
//!   on it alone.
//!
//! Pure logic: no audio, no database, no clock. The only outside call is the
//! random permutation used by shuffle, and every contract here holds for
//! whichever permutation it produces.

use std::collections::VecDeque;

use rand::seq::SliceRandom;
use vstd::math::min;
use vstd::prelude::*;

verus! {

/// How many played tracks "previous" can walk back through.
pub const MAX_HISTORY: usize = 200;

#[derive(Debug, Clone, Copy, PartialEq, Eq, Structural)]
pub enum RepeatMode {
    Off,
    All,
    One,
}

impl Default for RepeatMode {
    fn default() -> (mode: Self)
        ensures
            mode == RepeatMode::Off,
    {
        RepeatMode::Off
    }
}

/// Which tier a playing track came from.
#[derive(Debug, Clone, Copy, PartialEq, Eq, Structural)]
pub enum Origin {
    Manual,
    Context,
}

/// One entry in the manual queue, addressed by `entry_id` because the same
/// track may legitimately be queued twice.
#[derive(Debug, Clone, Copy, PartialEq, Eq, Structural)]
pub struct ManualEntry {
    pub entry_id: u64,
    pub track_id: i64,
}

#[derive(Debug, Clone, Copy)]
struct Playing {
    track_id: i64,
    origin: Origin,
}

/// A track that was played, and where the context cursor sat while it played.
#[derive(Debug, Clone, Copy, PartialEq, Eq, Structural)]
pub struct HistoryEntry {
    pub track_id: i64,
    pub origin: Origin,
    pub context_position: usize,
}

// --- the mathematical model ------------------------------------------------

/// `0, 1, ..., n - 1`, the identity arrangement of `n` tracks.
pub open spec fn index_range(n: nat) -> Seq<usize> {
    Seq::new(n, |i: int| i as usize)
}

/// `perm` holds every index below `n` exactly once.
pub open spec fn is_index_permutation(perm: Seq<usize>, n: nat) -> bool {
    perm.to_multiset() == index_range(n).to_multiset()
}

/// The order tracks are heard in: the user's order, or that order read
/// through the shuffle permutation.
pub open spec fn active_of(order: Seq<i64>, perm: Option<Seq<usize>>) -> Seq<i64> {
    match perm {
        Some(p) => Seq::new(p.len(), |j: int| order[p[j] as int]),
        None => order,
    }
}

/// The cursor position after one step forward, wrapping or not.
pub open spec fn step_forward(len: int, position: int, wraps: bool) -> Option<int> {
    if position + 1 < len {
        Some(position + 1)
    } else if wraps {
        Some(0)
    } else {
        None
    }
}

/// Where the cursor goes when a track ends by itself. `None`: the context ran
/// out and the cursor stays put.
pub open spec fn natural_step(len: int, position: int, repeat: RepeatMode) -> Option<int> {
    if len == 0 {
        None
    } else {
        match repeat {
            RepeatMode::One => Some(position),
            RepeatMode::All => step_forward(len, position, true),
            RepeatMode::Off => step_forward(len, position, false),
        }
    }
}

/// Where the cursor goes when the user presses Next: repeat-one does not
/// apply there.
pub open spec fn next_step(len: int, position: int, repeat: RepeatMode) -> Option<int> {
    if len == 0 {
        None
    } else {
        step_forward(len, position, repeat == RepeatMode::All || repeat == RepeatMode::One)
    }
}

/// `p` reduced into `0..len`, for `p` below `2 * len`.
pub open spec fn wrap_index(p: int, len: int) -> int {
    if p < len {
        p
    } else {
        p - len
    }
}

/// The preview: up to `limit` tracks after the cursor, continuing past the
/// end only under repeat-all, and never repeating the current track.
pub open spec fn upcoming_of(active: Seq<i64>, position: int, repeat: RepeatMode, limit: int) -> Seq<i64> {
    let len = active.len() as int;
    if len == 0 {
        Seq::empty()
    } else {
        let count = if repeat == RepeatMode::All {
            min(limit, len - 1)
        } else {
            min(limit, len - 1 - position)
        };
        Seq::new(count as nat, |k: int| active[wrap_index(position + 1 + k, len)])
    }
}

/// History after one more entry, forgetting the oldest past the bound.
pub open spec fn push_bounded(history: Seq<HistoryEntry>, entry: HistoryEntry) -> Seq<HistoryEntry> {
    if history.len() + 1 > MAX_HISTORY {
        history.push(entry).drop_first()
    } else {
        history.push(entry)
    }
}

/// Whether `entry_id` addresses an entry of `manual`.
pub open spec fn holds_entry(manual: Seq<ManualEntry>, entry_id: u64) -> bool {
    exists|i: int| 0 <= i < manual.len() && manual[i].entry_id == entry_id
}

/// The first index holding `entry_id`.
pub open spec fn first_index_of(manual: Seq<ManualEntry>, entry_id: u64) -> int {
    choose|i: int|
        0 <= i < manual.len() && manual[i].entry_id == entry_id && forall|j: int|
            0 <= j < i ==> manual[j].entry_id != entry_id
}

/// Everything the queue knows, as plain mathematics.
#[verifier::ext_equal]
pub struct QueueModel {
    /// What is playing, and which tier it came from.
    pub current: Option<(i64, Origin)>,
    pub manual: Seq<ManualEntry>,
    /// The context in the order the user chose.
    pub order: Seq<i64>,
    /// The shuffle permutation, when shuffle is on.
    pub perm: Option<Seq<usize>>,
    /// Cursor into the active order.
    pub position: int,
    pub repeat: RepeatMode,
    pub name: Option<Seq<char>>,
    pub history: Seq<HistoryEntry>,
    pub next_entry_id: u64,
}

impl QueueModel {
    pub open spec fn active(self) -> Seq<i64> {
        active_of(self.order, self.perm)
    }

    pub open spec fn at(self, position: int) -> Option<i64> {
        if 0 <= position < self.active().len() {
            Some(self.active()[position])
        } else {
            None
        }
    }

    /// The track under the context cursor.
    pub open spec fn context_current(self) -> Option<i64> {
        self.at(self.position)
    }

    pub open spec fn current_track(self) -> Option<i64> {
        match self.current {
            Some(playing) => Some(playing.0),
            None => None,
        }
    }

    /// Where the current context track sits in the user's own order.
    pub open spec fn original_index(self) -> Option<int> {
        match self.perm {
            Some(p) => if 0 <= self.position < p.len() {
                Some(p[self.position] as int)
            } else {
                None
            },
            None => if 0 <= self.position < self.order.len() {
                Some(self.position)
            } else {
                None
            },
        }
    }

    /// History after the current track (if any) is recorded.
    pub open spec fn history_after_leaving(self) -> Seq<HistoryEntry> {
        match self.current {
            Some(playing) => push_bounded(
                self.history,
                HistoryEntry {
                    track_id: playing.0,
                    origin: playing.1,
                    context_position: self.position as usize,
                },
            ),
            None => self.history,
        }
    }

    /// `position` held inside the context: the last track at most.
    pub open spec fn clamped(self, position: int) -> int {
        if self.order.len() == 0 {
            0
        } else {
            min(position, self.order.len() - 1)
        }
    }

    /// The state after the manual queue's front entry starts playing.
    pub open spec fn after_manual_front(self) -> QueueModel {
        QueueModel {
            current: Some((self.manual[0].track_id, Origin::Manual)),
            manual: self.manual.drop_first(),
            history: self.history_after_leaving(),
            ..self
        }
    }

    /// The state after the context cursor moved to `p` and that track
    /// started playing.
    pub open spec fn after_context_move(self, p: int) -> QueueModel {
        QueueModel {
            current: Some((self.active()[p], Origin::Context)),
            position: p,
            history: self.history_after_leaving(),
            ..self
        }
    }

    /// What happens when the playing track ends by itself: the new state and
    /// the track to play.
    pub open spec fn finished(self) -> (QueueModel, Option<i64>) {
        if self.repeat == RepeatMode::One && self.current is Some {
            (self, self.current_track())
        } else if self.manual.len() > 0 {
            (self.after_manual_front(), Some(self.manual[0].track_id))
        } else {
            match natural_step(self.order.len() as int, self.position, self.repeat) {
                Some(p) => (self.after_context_move(p), Some(self.active()[p])),
                None => (QueueModel { history: self.history_after_leaving(), ..self }, None),
            }
        }
    }

    /// What happens when the user presses Next.
    pub open spec fn next(self) -> (QueueModel, Option<i64>) {
        if self.manual.len() > 0 {
            (self.after_manual_front(), Some(self.manual[0].track_id))
        } else {
            match next_step(self.order.len() as int, self.position, self.repeat) {
                Some(p) => (self.after_context_move(p), Some(self.active()[p])),
                None => (QueueModel { history: self.history_after_leaving(), ..self }, None),
            }
        }
    }

    /// What happens when the user presses Previous.
    pub open spec fn previous(self) -> (QueueModel, Option<i64>) {
        if self.history.len() > 0 {
            let e = self.history.last();
            (
                QueueModel {
                    current: Some((e.track_id, e.origin)),
                    position: self.clamped(e.context_position as int),
                    history: self.history.drop_last(),
                    ..self
                },
                Some(e.track_id),
            )
        } else if self.current is Some && self.repeat == RepeatMode::All && self.order.len() > 0 {
            let last = self.order.len() - 1;
            (
                QueueModel {
                    current: Some((self.active()[last], Origin::Context)),
                    position: last,
                    ..self
                },
                Some(self.active()[last]),
            )
        } else {
            (self, self.current_track())
        }
    }

    pub open spec fn wf(self) -> bool {
        &&& (self.order.len() == 0 && self.position == 0) || (0 <= self.position
            < self.order.len())
        &&& self.order.len() <= usize::MAX
        &&& (self.perm matches Some(p) ==> is_index_permutation(p, self.order.len()))
        &&& self.history.len() <= MAX_HISTORY
        &&& forall|i: int|
            0 <= i < self.manual.len() ==> 1 <= #[trigger] self.manual[i].entry_id
                <= self.next_entry_id
        &&& forall|i: int, j: int|
            0 <= i < j < self.manual.len() ==> #[trigger] self.manual[i].entry_id
                != #[trigger] self.manual[j].entry_id
    }
}

// --- permutations ------------------------------------------------------------

/// What a permutation of the indices below `n` guarantees: the right length,
/// every entry in range, no entry twice, and every index present.
pub proof fn lemma_permutation_properties(perm: Seq<usize>, n: nat)
    requires
        is_index_permutation(perm, n),
        n <= usize::MAX,
    ensures
        perm.len() == n,
        forall|j: int| 0 <= j < perm.len() ==> #[trigger] perm[j] < n,
        perm.no_duplicates(),
        forall|i: int| 0 <= i < n ==> #[trigger] perm.contains(i as usize),
{
    broadcast use vstd::seq_lib::group_to_multiset_ensures;

    let range = index_range(n);
    assert(range.len() == n);
    assert(perm.to_multiset().len() == range.to_multiset().len());
    assert(perm.len() == n);
    assert forall|j: int| 0 <= j < perm.len() implies #[trigger] perm[j] < n by {
        assert(perm.contains(perm[j]));
        assert(range.to_multiset().count(perm[j]) > 0);
        assert(range.contains(perm[j]));
    }
    assert forall|i: int, j: int| 0 <= i < range.len() && 0 <= j < range.len() && i != j implies range[i]
        != range[j] by {
        assert(range[i] == i);
        assert(range[j] == j);
    }
    assert(range.no_duplicates());
    range.lemma_multiset_has_no_duplicates();
    assert forall|x: usize| perm.to_multiset().contains(x) implies perm.to_multiset().count(x)
        == 1 by {}
    perm.lemma_multiset_has_no_duplicates_conv();
    assert forall|i: int| 0 <= i < n implies #[trigger] perm.contains(i as usize) by {
        assert(range[i] == i as usize);
        assert(range.contains(i as usize));
        assert(range.to_multiset().count(i as usize) > 0);
        assert(perm.to_multiset().count(i as usize) > 0);
    }
}

/// Exchanging two entries keeps a sequence's contents.
proof fn lemma_swap_keeps_contents(s: Seq<usize>, a: int, b: int)
    requires
        0 <= a < s.len(),
        0 <= b < s.len(),
    ensures
        s.update(a, s[b]).update(b, s[a]).to_multiset() == s.to_multiset(),
{
    broadcast use vstd::seq_lib::to_multiset_update;
    broadcast use vstd::multiset::group_multiset_axioms;
    broadcast use vstd::seq_lib::group_to_multiset_ensures;

    let s1 = s.update(a, s[b]);
    let s2 = s1.update(b, s[a]);
    assert(s1.to_multiset() == s.to_multiset().insert(s[b]).remove(s[a]));
    assert(s2.to_multiset() == s1.to_multiset().insert(s[a]).remove(s1[b]));
    if a == b {
        assert(s2 =~= s);
    } else {
        assert(s1[b] == s[b]);
        assert(s2.to_multiset() =~= s.to_multiset());
    }
}

/// Shuffles `items` in place with the thread's random generator.
///
/// Calls `rand::seq::SliceRandom::shuffle`, whose implementation is a
/// Fisher–Yates pass made only of swaps. Claimed: the result holds the same
/// items, each as often as before. Which arrangement comes out is chance and
/// is not stated.
#[verifier::external_body]
fn shuffle_in_place(items: &mut Vec<usize>)
    ensures
        final(items)@.to_multiset() == old(items)@.to_multiset(),
{
    items.shuffle(&mut rand::rng());
}

/// Where entry `i` of a list that had the entry at `from` moved to `to`
/// came from.
pub open spec fn moved_source(i: int, from: int, to: int) -> int {
    if i == to {
        from
    } else if from < to {
        if from <= i < to {
            i + 1
        } else {
            i
        }
    } else {
        if to < i <= from {
            i - 1
        } else {
            i
        }
    }
}

/// Moving one entry keeps every entry's id in range and all ids distinct.
proof fn lemma_move_keeps_ids(m: Seq<ManualEntry>, from: int, to: int, bound: u64)
    requires
        0 <= from < m.len(),
        0 <= to < m.len(),
        forall|i: int| 0 <= i < m.len() ==> 1 <= #[trigger] m[i].entry_id <= bound,
        forall|i: int, j: int|
            0 <= i < j < m.len() ==> #[trigger] m[i].entry_id != #[trigger] m[j].entry_id,
    ensures
        ({
            let m2 = m.remove(from).insert(to, m[from]);
            &&& m2.len() == m.len()
            &&& forall|i: int| 0 <= i < m2.len() ==> 1 <= #[trigger] m2[i].entry_id <= bound
            &&& forall|i: int, j: int|
                0 <= i < j < m2.len() ==> #[trigger] m2[i].entry_id != #[trigger] m2[j].entry_id
        }),
{
    let m1 = m.remove(from);
    let m2 = m1.insert(to, m[from]);
    m.remove_ensures(from);
    m1.insert_ensures(to, m[from]);
    assert forall|i: int| 0 <= i < m2.len() implies m2[i] == m[moved_source(i, from, to)] && 0
        <= moved_source(i, from, to) < m.len() by {
        if i < to {
            assert(m2[i] == m1[i]);
        } else if i > to {
            assert(m2[i] == m1[i - 1]);
        }
    }
    assert forall|i: int| 0 <= i < m2.len() implies 1 <= #[trigger] m2[i].entry_id <= bound by {
        assert(m2[i] == m[moved_source(i, from, to)]);
    }
    assert forall|i: int, j: int|
        0 <= i < j < m2.len() implies #[trigger] m2[i].entry_id != #[trigger] m2[j].entry_id by {
        let a = moved_source(i, from, to);
        let b = moved_source(j, from, to);
        assert(m2[i] == m[a]);
        assert(m2[j] == m[b]);
        assert(a != b);
        if a < b {
            assert(m[a].entry_id != m[b].entry_id);
        } else {
            assert(m[b].entry_id != m[a].entry_id);
        }
    }
}


// --- laws --------------------------------------------------------------------

/// A queued track plays before the rest of the context, whether the current
/// track ends by itself or the user presses Next -- except that repeat-one
/// keeps repeating what is audible when a track ends by itself. Playing it
/// removes it from the queue.
pub proof fn lemma_queued_track_plays_first(m: QueueModel)
    requires
        m.wf(),
        m.manual.len() > 0,
    ensures
        m.next().1 == Some(m.manual[0].track_id),
        m.next().0.manual == m.manual.drop_first(),
        !(m.repeat == RepeatMode::One && m.current is Some) ==> m.finished().1 == Some(
            m.manual[0].track_id,
        ) && m.finished().0.manual == m.manual.drop_first(),
{
}

/// A queued entry that has played is gone: its id addresses nothing any
/// more, so it can never come round again.
pub proof fn lemma_played_entry_is_consumed(m: QueueModel)
    requires
        m.wf(),
        m.manual.len() > 0,
    ensures
        !holds_entry(m.next().0.manual, m.manual[0].entry_id),
        !(m.repeat == RepeatMode::One && m.current is Some) ==> !holds_entry(
            m.finished().0.manual,
            m.manual[0].entry_id,
        ),
{
    let rest = m.manual.drop_first();
    assert forall|i: int| 0 <= i < rest.len() implies rest[i].entry_id != m.manual[0].entry_id by {
        assert(rest[i] == m.manual[i + 1]);
    }
}

/// Previous goes back to the track that was actually heard, puts the context
/// cursor back where it was, and does not put a consumed entry back in the
/// queue -- after Next, and after a natural end that moved on.
pub proof fn lemma_previous_returns_what_was_heard(m: QueueModel)
    requires
        m.wf(),
        m.current is Some,
    ensures
        ({
            let (after, _) = m.next();
            let (back, track) = after.previous();
            &&& track == m.current_track()
            &&& back.position == m.position
            &&& back.manual == after.manual
            &&& back.current == m.current
        }),
        !(m.repeat == RepeatMode::One) ==> ({
            let (after, _) = m.finished();
            let (back, track) = after.previous();
            &&& track == m.current_track()
            &&& back.position == m.position
            &&& back.manual == after.manual
            &&& back.current == m.current
        }),
{
    let playing = m.current.unwrap();
    let e = HistoryEntry {
        track_id: playing.0,
        origin: playing.1,
        context_position: m.position as usize,
    };
    assert(m.history_after_leaving() == push_bounded(m.history, e));
    assert(push_bounded(m.history, e).last() == e);
    assert(push_bounded(m.history, e).len() > 0);
}

/// The preview's first track is what Next plays when nothing is queued.
pub proof fn lemma_preview_starts_with_next(m: QueueModel, limit: int)
    requires
        m.wf(),
        0 <= limit,
        m.manual.len() == 0,
        upcoming_of(m.active(), m.position, m.repeat, limit).len() > 0,
    ensures
        m.next().1 == Some(upcoming_of(m.active(), m.position, m.repeat, limit)[0]),
{
    if let Some(p) = m.perm {
        lemma_permutation_properties(p, m.order.len());
    }
    assert(m.active().len() == m.order.len());
    let len = m.order.len() as int;
    let up = upcoming_of(m.active(), m.position, m.repeat, limit);
    assert(up[0] == m.active()[wrap_index(m.position + 1, len)]);
    if m.position + 1 < len {
        assert(next_step(len, m.position, m.repeat) == Some(m.position + 1));
    } else {
        assert(m.repeat == RepeatMode::All);
        assert(next_step(len, m.position, m.repeat) == Some(0int));
    }
}

/// The tracks that `k` presses of Next in a row play, starting from `m`.
pub open spec fn next_run(m: QueueModel, k: nat) -> Seq<Option<i64>>
    decreases k,
{
    if k == 0 {
        Seq::empty()
    } else {
        let (after, played) = m.next();
        seq![played] + next_run(after, (k - 1) as nat)
    }
}

proof fn lemma_next_run(m: QueueModel, k: nat)
    requires
        m.manual.len() == 0,
        0 <= m.position < m.order.len(),
        m.active().len() == m.order.len(),
        k <= m.order.len(),
    ensures
        next_run(m, k).len() == k,
        forall|j: int|
            0 <= j < k ==> #[trigger] next_run(m, k)[j] == (if m.repeat != RepeatMode::Off || m.position
                + j + 1 < m.order.len() {
                Some(m.active()[wrap_index(m.position + j + 1, m.order.len() as int)])
            } else {
                None
            }),
    decreases k,
{
    if k > 0 {
        let (after, played) = m.next();
        assert(after.order == m.order && after.perm == m.perm && after.manual == m.manual);
        assert(after.repeat == m.repeat);
        assert(after.active() == m.active());
        lemma_next_run(after, (k - 1) as nat);
        let run = next_run(m, k);
        let rest = next_run(after, (k - 1) as nat);
        assert(run == seq![played] + rest);
        let len = m.order.len() as int;
        assert forall|j: int| 0 <= j < k implies #[trigger] run[j] == (if m.repeat != RepeatMode::Off
            || m.position + j + 1 < len {
            Some(m.active()[wrap_index(m.position + j + 1, len)])
        } else {
            None
        }) by {
            if j > 0 {
                assert(run[j] == rest[j - 1]);
            }
        }
    }
}

/// The preview is what Next plays: with nothing queued, pressing Next as
/// many times as the preview is long plays the preview's tracks in order.
pub proof fn lemma_preview_is_what_next_plays(m: QueueModel, limit: int)
    requires
        m.wf(),
        0 <= limit,
        m.manual.len() == 0,
    ensures
        ({
            let up = upcoming_of(m.active(), m.position, m.repeat, limit);
            forall|j: int| 0 <= j < up.len() ==> #[trigger] next_run(m, up.len())[j] == Some(up[j])
        }),
{
    if let Some(p) = m.perm {
        lemma_permutation_properties(p, m.order.len());
    }
    assert(m.active().len() == m.order.len());
    let up = upcoming_of(m.active(), m.position, m.repeat, limit);
    if m.order.len() > 0 {
        lemma_next_run(m, up.len());
    }
}

/// Under shuffle every track of the context is heard exactly once per pass:
/// the shuffled order reads the user's order through a permutation that holds
/// each index exactly once.
pub proof fn lemma_shuffle_covers_every_track_once(m: QueueModel)
    requires
        m.wf(),
        m.perm is Some,
    ensures
        m.active().len() == m.order.len(),
        forall|j: int|
            0 <= j < m.active().len() ==> #[trigger] m.active()[j] == m.order[m.perm.unwrap()[j] as int],
        forall|i: int| 0 <= i < m.order.len() ==> #[trigger] m.perm.unwrap().contains(i as usize),
        m.perm.unwrap().no_duplicates(),
{
    lemma_permutation_properties(m.perm.unwrap(), m.order.len());
}

/// Entry ids are never reused. Every id handed out so far is at most the
/// last one issued (`next_entry_id`), which an enqueue raises to the id it
/// returns and nothing else lowers; so the id a new entry gets is above every
/// earlier one, and afterwards all of them, the new one included, are again
/// at most the last one issued. A stale id kept by a caller therefore never
/// addresses a later entry.
pub proof fn lemma_entry_ids_are_never_reused(before: QueueModel, after: QueueModel, issued: Set<u64>, entry_id: u64)
    requires
        forall|e: u64| #[trigger] issued.contains(e) ==> e <= before.next_entry_id,
        entry_id == before.next_entry_id + 1,
        after.next_entry_id == entry_id,
    ensures
        forall|e: u64| #[trigger] issued.contains(e) ==> e < entry_id,
        !issued.contains(entry_id),
        forall|e: u64| #[trigger] issued.insert(entry_id).contains(e) ==> e <= after.next_entry_id,
{
}

/// The tracks that `k` natural ends in a row play, starting from `m`: one
/// entry per end, `None` where nothing followed.
pub open spec fn natural_run(m: QueueModel, k: nat) -> Seq<Option<i64>>
    decreases k,
{
    if k == 0 {
        Seq::empty()
    } else {
        let (after, played) = m.finished();
        seq![played] + natural_run(after, (k - 1) as nat)
    }
}

proof fn lemma_natural_run(m: QueueModel, k: nat)
    requires
        m.manual.len() == 0,
        m.repeat == RepeatMode::Off,
        0 <= m.position < m.order.len(),
        m.active().len() == m.order.len(),
    ensures
        natural_run(m, k).len() == k,
        forall|j: int|
            0 <= j < k ==> #[trigger] natural_run(m, k)[j] == (if m.position + j + 1 < m.order.len() {
                Some(m.active()[m.position + j + 1])
            } else {
                None
            }),
    decreases k,
{
    if k > 0 {
        let (after, played) = m.finished();
        assert(after.order == m.order && after.perm == m.perm && after.manual == m.manual);
        assert(after.active() == m.active());
        lemma_natural_run(after, (k - 1) as nat);
        let run = natural_run(m, k);
        let rest = natural_run(after, (k - 1) as nat);
        assert(run == seq![played] + rest);
        assert forall|j: int| 0 <= j < k implies #[trigger] run[j] == (if m.position + j + 1
            < m.order.len() {
            Some(m.active()[m.position + j + 1])
        } else {
            None
        }) by {
            if j > 0 {
                assert(run[j] == rest[j - 1]);
            }
        }
    }
}

/// A shuffled pass from its first track plays every track of the context
/// exactly once: with nothing queued and repeat off, the track under the
/// cursor followed by what each natural end plays is the shuffled order
/// itself, which reads the user's order through a permutation; and after the
/// last track the next end plays nothing.
pub proof fn lemma_a_shuffled_pass_plays_every_track_once(m: QueueModel)
    requires
        m.wf(),
        m.perm is Some,
        m.manual.len() == 0,
        m.repeat == RepeatMode::Off,
        m.position == 0,
        m.order.len() > 0,
    ensures
        ({
            let n = m.order.len() as int;
            let heard = seq![m.context_current()] + natural_run(m, (n - 1) as nat);
            &&& heard.len() == n
            &&& forall|j: int| 0 <= j < n ==> #[trigger] heard[j] == Some(m.active()[j])
            &&& natural_run(m, n as nat)[n - 1] is None
        }),
        forall|j: int|
            0 <= j < m.active().len() ==> #[trigger] m.active()[j] == m.order[m.perm.unwrap()[j] as int],
        forall|i: int| 0 <= i < m.order.len() ==> #[trigger] m.perm.unwrap().contains(i as usize),
        m.perm.unwrap().no_duplicates(),
{
    lemma_shuffle_covers_every_track_once(m);
    let n = m.order.len() as int;
    lemma_natural_run(m, (n - 1) as nat);
    lemma_natural_run(m, n as nat);
    let heard = seq![m.context_current()] + natural_run(m, (n - 1) as nat);
    assert forall|j: int| 0 <= j < n implies #[trigger] heard[j] == Some(m.active()[j]) by {
        if j > 0 {
            assert(heard[j] == natural_run(m, (n - 1) as nat)[j - 1]);
        }
    }
}

// --- the context -------------------------------------------------------------

/// The automatic continuation of whatever the user started playing.
struct Context {
    /// The order the user chose. Shuffle never mutates this.
    order: Vec<i64>,
    /// A permutation of indices into `order`, when shuffle is on.
    shuffled: Option<Vec<usize>>,
    /// Cursor into the active sequence.
    position: usize,
    repeat: RepeatMode,
}

impl Context {
    closed spec fn perm_view(&self) -> Option<Seq<usize>> {
        match &self.shuffled {
            Some(p) => Some(p@),
            None => None,
        }
    }

    closed spec fn active(&self) -> Seq<i64> {
        active_of(self.order@, self.perm_view())
    }

    closed spec fn wf(&self) -> bool {
        &&& (self.order.len() == 0 && self.position == 0) || (self.position < self.order.len())
        &&& (self.perm_view() matches Some(p) ==> is_index_permutation(p, self.order@.len()))
    }

    proof fn lemma_active(&self)
        requires
            self.wf(),
        ensures
            self.active().len() == self.order@.len(),
            self.perm_view() matches Some(p) ==> p.len() == self.order@.len() && forall|j: int|
                0 <= j < p.len() ==> #[trigger] p[j] < self.order@.len(),
    {
        if let Some(p) = self.perm_view() {
            lemma_permutation_properties(p, self.order@.len());
        }
    }

    fn len(&self) -> (n: usize)
        ensures
            n == self.order@.len(),
    {
        self.order.len()
    }

    fn at(&self, position: usize) -> (track: Option<i64>)
        requires
            self.wf(),
        ensures
            track == (if position < self.active().len() {
                Some(self.active()[position as int])
            } else {
                None
            }),
    {
        proof {
            self.lemma_active();
        }
        match &self.shuffled {
            Some(perm) => {
                if position < perm.len() {
                    let i = perm[position];
                    Some(self.order[i])
                } else {
                    None
                }
            },
            None => {
                if position < self.order.len() {
                    Some(self.order[position])
                } else {
                    None
                }
            },
        }
    }

    fn current(&self) -> (track: Option<i64>)
        requires
            self.wf(),
        ensures
            track == (if self.position < self.active().len() {
                Some(self.active()[self.position as int])
            } else {
                None
            }),
    {
        self.at(self.position)
    }

    fn current_original_index(&self) -> (index: Option<usize>)
        requires
            self.wf(),
        ensures
            index == (match self.perm_view() {
                Some(p) => if self.position < p.len() {
                    Some(p[self.position as int])
                } else {
                    None
                },
                None => if self.position < self.order@.len() {
                    Some(self.position)
                } else {
                    None
                },
            }),
            index matches Some(i) ==> i < self.order@.len(),
    {
        proof {
            self.lemma_active();
        }
        match &self.shuffled {
            Some(perm) => {
                if self.position < perm.len() {
                    Some(perm[self.position])
                } else {
                    None
                }
            },
            None => {
                if self.position < self.order.len() {
                    Some(self.position)
                } else {
                    None
                }
            },
        }
    }

    fn set_position(&mut self, position: usize)
        requires
            old(self).wf(),
        ensures
            final(self).wf(),
            final(self).order@ == old(self).order@,
            final(self).perm_view() == old(self).perm_view(),
            final(self).repeat == old(self).repeat,
            final(self).position == (if old(self).order@.len() == 0 {
                0
            } else {
                min(position as int, old(self).order@.len() - 1)
            }),
    {
        let len = self.order.len();
        let last = if len == 0 {
            0
        } else {
            len - 1
        };
        self.position = if position < last {
            position
        } else {
            last
        };
    }

    /// Turns shuffle on or off without interrupting what is playing.
    fn set_shuffle(&mut self, on: bool)
        requires
            old(self).wf(),
        ensures
            final(self).wf(),
            final(self).order@ == old(self).order@,
            final(self).repeat == old(self).repeat,
            on ==> final(self).perm_view() is Some && final(self).position == 0,
            !on ==> final(self).perm_view() is None,
            !on && old(self).perm_view() is None ==> final(self).position == old(self).position,
            !on && old(self).perm_view() is Some ==> final(self).position == (match old(self).perm_view() {
                Some(p) => if old(self).position < p.len() {
                    p[old(self).position as int] as int
                } else {
                    0
                },
                None => 0,
            }),
            // The same track stays under the cursor either way.
            (if old(self).position < old(self).active().len() {
                Some(old(self).active()[old(self).position as int])
            } else {
                None
            }) == (if final(self).position < final(self).active().len() {
                Some(final(self).active()[final(self).position as int])
            } else {
                None
            }),
    {
        proof {
            self.lemma_active();
        }
        if on {
            let current = self.current_original_index();
            let n = self.order.len();
            let mut perm: Vec<usize> = Vec::new();
            let mut i: usize = 0;
            while i < n
                invariant
                    i <= n,
                    perm@ =~= index_range(i as nat),
                decreases n - i,
            {
                perm.push(i);
                i = i + 1;
            }
            let ghost unshuffled = perm@;
            shuffle_in_place(&mut perm);
            proof {
                lemma_permutation_properties(perm@, n as nat);
            }
            if let Some(c) = current {
                let mut at: usize = 0;
                while at < perm.len() && perm[at] != c
                    invariant
                        at <= perm.len(),
                        perm@.len() == n,
                        forall|j: int| 0 <= j < at ==> perm@[j] != c,
                    decreases perm.len() - at,
                {
                    at = at + 1;
                }
                if at < perm.len() {
                    let ghost before = perm@;
                    let first = perm[0];
                    perm.set(0, c);
                    perm.set(at, first);
                    proof {
                        lemma_swap_keeps_contents(before, 0, at as int);
                        assert(perm@ =~= before.update(0, before[at as int]).update(
                            at as int,
                            before[0],
                        ));
                    }
                } else {
                    proof {
                        assert(perm@.contains((c as int) as usize));
                        let j = choose|j: int| 0 <= j < perm@.len() && perm@[j] == c;
                        assert(perm@[j] != c);
                    }
                }
            }
            self.shuffled = Some(perm);
            self.position = 0;
            proof {
                self.lemma_active();
            }
        } else if self.shuffled.is_some() {
            let current = self.current_original_index();
            self.shuffled = None;
            self.position = match current {
                Some(i) => i,
                None => 0,
            };
        }
    }

    /// Replaces the contents, keeping the shuffle setting.
    fn set(&mut self, tracks: Vec<i64>, start_index: usize)
        requires
            old(self).wf(),
        ensures
            final(self).wf(),
            final(self).order@ == tracks@,
            final(self).repeat == old(self).repeat,
            (final(self).perm_view() is Some) == (old(self).perm_view() is Some),
            old(self).perm_view() is None ==> final(self).position == (if tracks@.len() == 0 {
                0
            } else {
                min(start_index as int, tracks@.len() - 1)
            }),
            // With shuffle on, the chosen track leads the new arrangement.
            old(self).perm_view() is Some && tracks@.len() > 0 ==> final(self).position == 0
                && final(self).active()[0] == tracks@[min(
                start_index as int,
                tracks@.len() - 1,
            )],
    {
        let len = tracks.len();
        self.order = tracks;
        let last = if len == 0 {
            0
        } else {
            len - 1
        };
        self.position = if start_index < last {
            start_index
        } else {
            last
        };
        if self.shuffled.is_some() {
            self.shuffled = None;
            proof {
                self.lemma_active();
            }
            self.set_shuffle(true);
        }
    }

    /// What to play when the current track ends by itself.
    fn advance_natural(&mut self) -> (track: Option<i64>)
        requires
            old(self).wf(),
        ensures
            final(self).wf(),
            final(self).order@ == old(self).order@,
            final(self).perm_view() == old(self).perm_view(),
            final(self).repeat == old(self).repeat,
            match natural_step(old(self).order@.len() as int, old(self).position as int, old(self).repeat) {
                Some(p) => final(self).position == p && track == Some(old(self).active()[p]),
                None => final(self).position == old(self).position && track is None,
            },
    {
        proof {
            self.lemma_active();
        }
        let len = self.order.len();
        if len == 0 {
            return None;
        }
        match self.repeat {
            RepeatMode::One => self.current(),
            RepeatMode::All => {
                self.position = if self.position + 1 < len {
                    self.position + 1
                } else {
                    0
                };
                self.current()
            },
            RepeatMode::Off => {
                if self.position + 1 < len {
                    self.position = self.position + 1;
                    self.current()
                } else {
                    None
                }
            },
        }
    }

    /// What to play when the user presses Next.
    fn next(&mut self) -> (track: Option<i64>)
        requires
            old(self).wf(),
        ensures
            final(self).wf(),
            final(self).order@ == old(self).order@,
            final(self).perm_view() == old(self).perm_view(),
            final(self).repeat == old(self).repeat,
            match next_step(old(self).order@.len() as int, old(self).position as int, old(self).repeat) {
                Some(p) => final(self).position == p && track == Some(old(self).active()[p]),
                None => final(self).position == old(self).position && track is None,
            },
    {
        proof {
            self.lemma_active();
        }
        let len = self.order.len();
        if len == 0 {
            return None;
        }
        match self.repeat {
            RepeatMode::One | RepeatMode::All => {
                self.position = if self.position + 1 < len {
                    self.position + 1
                } else {
                    0
                };
                self.current()
            },
            RepeatMode::Off => {
                if self.position + 1 < len {
                    self.position = self.position + 1;
                    self.current()
                } else {
                    None
                }
            },
        }
    }

    /// Moves the cursor to the last track.
    fn wrap_to_end(&mut self) -> (track: Option<i64>)
        requires
            old(self).wf(),
        ensures
            final(self).wf(),
            final(self).order@ == old(self).order@,
            final(self).perm_view() == old(self).perm_view(),
            final(self).repeat == old(self).repeat,
            old(self).order@.len() == 0 ==> track is None && final(self).position
                == old(self).position,
            old(self).order@.len() > 0 ==> final(self).position == old(self).order@.len() - 1
                && track == Some(old(self).active()[old(self).order@.len() - 1]),
    {
        proof {
            self.lemma_active();
        }
        if self.order.len() == 0 {
            return None;
        }
        self.position = self.order.len() - 1;
        self.current()
    }

    /// The next `limit` tracks, without moving the cursor.
    fn upcoming(&self, limit: usize) -> (tracks: Vec<i64>)
        requires
            self.wf(),
        ensures
            tracks@ == upcoming_of(self.active(), self.position as int, self.repeat, limit as int),
    {
        proof {
            self.lemma_active();
        }
        let len = self.order.len();
        if len == 0 {
            return Vec::new();
        }
        let wraps = self.repeat == RepeatMode::All;
        let steps = if limit < len - 1 {
            limit
        } else {
            len - 1
        };
        let ghost count = if wraps {
            steps as int
        } else {
            min(limit as int, len - 1 - self.position)
        };
        let mut upcoming: Vec<i64> = Vec::new();
        let mut position = self.position;
        let mut k: usize = 0;
        while k < steps
            invariant
                self.wf(),
                len == self.order@.len(),
                self.active().len() == len,
                len > 0,
                wraps == (self.repeat == RepeatMode::All),
                steps == min(limit as int, len - 1),
                count == (if wraps {
                    steps as int
                } else {
                    min(limit as int, len - 1 - self.position)
                }),
                k <= steps,
                k <= count,
                position == wrap_index(self.position + k, len as int),
                upcoming@ =~= Seq::new(
                    k as nat,
                    |i: int| self.active()[wrap_index(self.position + 1 + i, len as int)],
                ),
            ensures
                upcoming@ =~= Seq::new(
                    count as nat,
                    |i: int| self.active()[wrap_index(self.position + 1 + i, len as int)],
                ),
            decreases steps - k,
        {
            if position + 1 < len {
                position = position + 1;
            } else if wraps {
                position = 0;
            } else {
                break;
            }
            let id = self.at(position);
            if let Some(id) = id {
                upcoming.push(id);
            }
            k = k + 1;
        }
        proof {
            assert(upcoming@ =~= upcoming_of(
                self.active(),
                self.position as int,
                self.repeat,
                limit as int,
            ));
        }
        upcoming
    }
}

// --- the queue ---------------------------------------------------------------

/// Everything that decides what plays next.
pub struct PlayerQueue {
    /// What is playing, and which tier it came from. Not always the track at
    /// the context cursor: that is the entire point of the split.
    current: Option<Playing>,
    manual: VecDeque<ManualEntry>,
    context: Context,
    /// Where the context came from, for the "Next from …" heading.
    context_name: Option<String>,
    history: VecDeque<HistoryEntry>,
    /// Monotonic, never reused, so a stale id from the UI matches nothing.
    next_entry_id: u64,
}

impl View for PlayerQueue {
    type V = QueueModel;

    closed spec fn view(&self) -> QueueModel {
        QueueModel {
            current: match self.current {
                Some(p) => Some((p.track_id, p.origin)),
                None => None,
            },
            manual: self.manual@,
            order: self.context.order@,
            perm: self.context.perm_view(),
            position: self.context.position as int,
            repeat: self.context.repeat,
            name: match &self.context_name {
                Some(n) => Some(n@),
                None => None,
            },
            history: self.history@,
            next_entry_id: self.next_entry_id,
        }
    }
}

impl Default for PlayerQueue {
    fn default() -> (queue: Self)
        ensures
            queue.wf(),
            queue@ == (QueueModel {
                current: None,
                manual: Seq::empty(),
                order: Seq::empty(),
                perm: None,
                position: 0,
                repeat: RepeatMode::Off,
                name: None,
                history: Seq::empty(),
                next_entry_id: 0,
            }),
    {
        PlayerQueue::new()
    }
}

impl PlayerQueue {
    /// Well-formedness: every constructor establishes it and every method
    /// keeps it.
    pub closed spec fn wf(&self) -> bool {
        &&& self@.wf()
        &&& self.context.wf()
    }

    /// What a well-formed queue guarantees of its model: the cursor is inside
    /// the context (or at zero when there is none), a shuffle order is a
    /// permutation of the context's indices, the history is bounded, and the
    /// queued entries carry distinct ids, none above the last one issued.
    pub proof fn lemma_wf_model(&self)
        requires
            self.wf(),
        ensures
            self@.wf(),
    {
    }

    /// An empty queue: nothing playing, nothing queued, no context.
    pub fn new() -> (queue: Self)
        ensures
            queue.wf(),
            queue@ == (QueueModel {
                current: None,
                manual: Seq::empty(),
                order: Seq::empty(),
                perm: None,
                position: 0,
                repeat: RepeatMode::Off,
                name: None,
                history: Seq::empty(),
                next_entry_id: 0,
            }),
    {
        let queue = PlayerQueue {
            current: None,
            manual: VecDeque::new(),
            context: Context { order: Vec::new(), shuffled: None, position: 0, repeat: RepeatMode::Off },
            context_name: None,
            history: VecDeque::new(),
            next_entry_id: 0,
        };
        proof {
            assert(queue@ =~= QueueModel {
                current: None,
                manual: Seq::empty(),
                order: Seq::empty(),
                perm: None,
                position: 0,
                repeat: RepeatMode::Off,
                name: None,
                history: Seq::empty(),
                next_entry_id: 0,
            });
        }
        queue
    }

    proof fn lemma_context(&self)
        requires
            self.wf(),
        ensures
            self@.active() == self.context.active(),
            self@.active().len() == self@.order.len(),
            self@.wf(),
    {
        self.context.lemma_active();
    }

    // --- reads ---------------------------------------------------------

    pub fn current(&self) -> (track: Option<i64>)
        ensures
            track == self@.current_track(),
    {
        match self.current {
            Some(playing) => Some(playing.track_id),
            None => None,
        }
    }

    /// The manual queue, front first.
    pub fn manual(&self) -> (entries: Vec<ManualEntry>)
        ensures
            entries@ == self@.manual,
    {
        let mut entries: Vec<ManualEntry> = Vec::new();
        let n = self.manual.len();
        let mut i: usize = 0;
        while i < n
            invariant
                n == self.manual@.len(),
                i <= n,
                entries@ =~= self.manual@.take(i as int),
            decreases n - i,
        {
            entries.push(self.manual[i]);
            i = i + 1;
        }
        proof {
            assert(self.manual@.take(n as int) =~= self.manual@);
        }
        entries
    }

    /// How many played tracks Previous can still walk back through.
    pub fn history_len(&self) -> (n: usize)
        ensures
            n == self@.history.len(),
    {
        self.history.len()
    }

    /// The last entry id handed out. Ids are never reused, so queueing needs
    /// this below the maximum.
    pub fn last_entry_id(&self) -> (id: u64)
        ensures
            id == self@.next_entry_id,
    {
        self.next_entry_id
    }

    pub fn manual_len(&self) -> (n: usize)
        ensures
            n == self@.manual.len(),
    {
        self.manual.len()
    }

    /// The next `limit` context tracks, without moving anything.
    pub fn context_upcoming(&self, limit: usize) -> (tracks: Vec<i64>)
        requires
            self.wf(),
        ensures
            tracks@ == upcoming_of(self@.active(), self@.position, self@.repeat, limit as int),
    {
        proof {
            self.lemma_context();
        }
        self.context.upcoming(limit)
    }

    /// How many context tracks follow the current one in total, ignoring any
    /// preview limit.
    pub fn context_upcoming_total(&self) -> (n: usize)
        requires
            self.wf(),
        ensures
            n == (if self@.order.len() == 0 {
                0
            } else if self@.repeat == RepeatMode::All {
                self@.order.len() - 1
            } else {
                self@.order.len() - 1 - min(self@.position, self@.order.len() - 1)
            }),
    {
        let len = self.context.len();
        if len == 0 {
            return 0;
        }
        match self.context.repeat {
            RepeatMode::All => len - 1,
            _ => {
                let p = if self.context.position < len - 1 {
                    self.context.position
                } else {
                    len - 1
                };
                len - 1 - p
            },
        }
    }

    pub fn context_name(&self) -> (name: Option<&str>)
        ensures
            match name {
                Some(n) => self@.name == Some(n@),
                None => self@.name is None,
            },
    {
        match &self.context_name {
            Some(n) => Some(n.as_str()),
            None => None,
        }
    }

    pub fn context_len(&self) -> (n: usize)
        ensures
            n == self@.order.len(),
    {
        self.context.len()
    }

    pub fn context_position(&self) -> (p: usize)
        ensures
            p == self@.position,
    {
        self.context.position
    }

    pub fn repeat(&self) -> (mode: RepeatMode)
        ensures
            mode == self@.repeat,
    {
        self.context.repeat
    }

    pub fn is_shuffled(&self) -> (on: bool)
        ensures
            on == (self@.perm is Some),
    {
        self.context.shuffled.is_some()
    }

    // --- context -------------------------------------------------------

    pub fn set_repeat(&mut self, mode: RepeatMode)
        requires
            old(self).wf(),
        ensures
            final(self).wf(),
            final(self)@ == (QueueModel { repeat: mode, ..old(self)@ }),
    {
        self.context.repeat = mode;
        proof {
            assert(self@ =~= QueueModel { repeat: mode, ..old(self)@ });
        }
    }

    /// Turns shuffle on or off without interrupting what is playing.
    pub fn set_shuffle(&mut self, on: bool)
        requires
            old(self).wf(),
        ensures
            final(self).wf(),
            final(self)@ == (QueueModel {
                perm: final(self)@.perm,
                position: final(self)@.position,
                ..old(self)@
            }),
            on ==> final(self)@.perm is Some && final(self)@.position == 0,
            !on ==> final(self)@.perm is None,
            !on && old(self)@.perm is None ==> final(self)@.position == old(self)@.position,
            !on && old(self)@.perm is Some ==> final(self)@.position == (match old(
                self,
            )@.original_index() {
                Some(i) => i,
                None => 0,
            }),
            final(self)@.context_current() == old(self)@.context_current(),
    {
        proof {
            self.lemma_context();
        }
        self.context.set_shuffle(on);
        proof {
            self.lemma_context();
            assert(self@ =~= QueueModel {
                perm: self@.perm,
                position: self@.position,
                ..old(self)@
            });
        }
    }

    /// Starts a new context and returns the track to play. The manual queue
    /// survives.
    pub fn set_context(&mut self, tracks: Vec<i64>, start_index: usize, name: Option<String>) -> (track: Option<i64>)
        requires
            old(self).wf(),
        ensures
            final(self).wf(),
            track == (if tracks@.len() == 0 {
                None
            } else {
                Some(tracks@[min(start_index as int, tracks@.len() - 1)])
            }),
            final(self)@.context_current() == track,
            final(self)@.current == (match track {
                Some(t) => Some((t, Origin::Context)),
                None => None,
            }),
            final(self)@.order == tracks@,
            final(self)@.manual == old(self)@.manual,
            final(self)@.history == old(self)@.history_after_leaving(),
            final(self)@.repeat == old(self)@.repeat,
            (final(self)@.perm is Some) == (old(self)@.perm is Some),
            old(self)@.perm is None ==> final(self)@.position == final(self)@.clamped(
                start_index as int,
            ),
            final(self)@.name == (match name {
                Some(n) => Some(n@),
                None => None,
            }),
            final(self)@.next_entry_id == old(self)@.next_entry_id,
    {
        proof {
            self.lemma_context();
        }
        self.push_history();
        self.context.set(tracks, start_index);
        self.context_name = name;
        let track_id = self.context.current();
        self.current = match track_id {
            Some(t) => Some(Playing { track_id: t, origin: Origin::Context }),
            None => None,
        };
        proof {
            self.lemma_context();
        }
        track_id
    }

    // --- manual queue --------------------------------------------------

    /// Queues `track_id` to play immediately after the current track.
    pub fn enqueue_next(&mut self, track_id: i64) -> (entry_id: u64)
        requires
            old(self).wf(),
            old(self)@.next_entry_id < u64::MAX,
        ensures
            final(self).wf(),
            entry_id == old(self)@.next_entry_id + 1,
            !holds_entry(old(self)@.manual, entry_id),
            final(self)@ == (QueueModel {
                manual: seq![ManualEntry { entry_id, track_id }] + old(self)@.manual,
                next_entry_id: entry_id,
                ..old(self)@
            }),
    {
        let entry_id = self.take_entry_id();
        self.manual.push_front(ManualEntry { entry_id, track_id });
        proof {
            assert(self@ =~= QueueModel {
                manual: seq![ManualEntry { entry_id, track_id }] + old(self)@.manual,
                next_entry_id: entry_id,
                ..old(self)@
            });
            assert forall|i: int, j: int|
                0 <= i < j < self@.manual.len() implies #[trigger] self@.manual[i].entry_id
                != #[trigger] self@.manual[j].entry_id by {
                if i == 0 {
                    assert(self@.manual[j] == old(self)@.manual[j - 1]);
                }
            }
        }
        entry_id
    }

    /// Queues `track_id` behind everything already queued.
    pub fn enqueue_last(&mut self, track_id: i64) -> (entry_id: u64)
        requires
            old(self).wf(),
            old(self)@.next_entry_id < u64::MAX,
        ensures
            final(self).wf(),
            entry_id == old(self)@.next_entry_id + 1,
            !holds_entry(old(self)@.manual, entry_id),
            final(self)@ == (QueueModel {
                manual: old(self)@.manual.push(ManualEntry { entry_id, track_id }),
                next_entry_id: entry_id,
                ..old(self)@
            }),
    {
        let entry_id = self.take_entry_id();
        self.manual.push_back(ManualEntry { entry_id, track_id });
        proof {
            assert(self@ =~= QueueModel {
                manual: old(self)@.manual.push(ManualEntry { entry_id, track_id }),
                next_entry_id: entry_id,
                ..old(self)@
            });
        }
        entry_id
    }

    /// Removes the entry `entry_id` addresses. `false`, and nothing changes,
    /// when no entry has that id -- for instance because it already played.
    pub fn remove_manual(&mut self, entry_id: u64) -> (removed: bool)
        requires
            old(self).wf(),
        ensures
            final(self).wf(),
            removed == holds_entry(old(self)@.manual, entry_id),
            removed ==> final(self)@ == (QueueModel {
                manual: old(self)@.manual.remove(first_index_of(old(self)@.manual, entry_id)),
                ..old(self)@
            }),
            !removed ==> final(self)@ == old(self)@,
            !holds_entry(final(self)@.manual, entry_id),
    {
        let index = self.index_of(entry_id);
        match index {
            None => {
                proof {
                    assert(self@ =~= old(self)@);
                }
                false
            },
            Some(index) => {
                let ghost before = self@.manual;
                let _ = self.manual.remove(index);
                proof {
                    assert(self@ =~= QueueModel {
                        manual: old(self)@.manual.remove(first_index_of(old(self)@.manual, entry_id)),
                        ..old(self)@
                    });
                    assert forall|i: int| 0 <= i < self@.manual.len() implies self@.manual[i].entry_id != entry_id by {
                        if i < index {
                            assert(self@.manual[i] == before[i]);
                        } else {
                            assert(self@.manual[i] == before[i + 1]);
                        }
                    }
                }
                true
            },
        }
    }

    /// Moves the entry `entry_id` addresses to index `to` (clamped to the
    /// end). `false`, and nothing changes, when there is no such entry or it
    /// is already there.
    pub fn reorder_manual(&mut self, entry_id: u64, to: usize) -> (moved: bool)
        requires
            old(self).wf(),
        ensures
            final(self).wf(),
            ({
                let m = old(self)@.manual;
                let from = first_index_of(m, entry_id);
                let target = min(to as int, m.len() - 1);
                &&& moved == (holds_entry(m, entry_id) && from != target)
                &&& moved ==> final(self)@ == (QueueModel {
                    manual: m.remove(from).insert(target, m[from]),
                    ..old(self)@
                })
                &&& !moved ==> final(self)@ == old(self)@
            }),
    {
        let from = match self.index_of(entry_id) {
            Some(from) => from,
            None => {
                proof {
                    assert(self@ =~= old(self)@);
                }
                return false;
            },
        };
        let len = self.manual.len();
        let to = if to < len - 1 {
            to
        } else {
            len - 1
        };
        if from == to {
            proof {
                assert(self@ =~= old(self)@);
            }
            return false;
        }
        let ghost m = self@.manual;
        let entry = match self.manual.remove(from) {
            Some(entry) => entry,
            None => {
                return false;
            },
        };
        self.manual.insert(to, entry);
        proof {
            assert(self@.manual =~= m.remove(from as int).insert(to as int, m[from as int]));
            assert(self@ =~= QueueModel {
                manual: m.remove(from as int).insert(to as int, m[from as int]),
                ..old(self)@
            });
            lemma_move_keeps_ids(m, from as int, to as int, self@.next_entry_id);
        }
        true
    }

    pub fn clear_manual(&mut self)
        requires
            old(self).wf(),
        ensures
            final(self).wf(),
            final(self)@ == (QueueModel { manual: Seq::empty(), ..old(self)@ }),
    {
        self.manual.clear();
        proof {
            assert(self@ =~= QueueModel { manual: Seq::empty(), ..old(self)@ });
        }
    }

    fn index_of(&self, entry_id: u64) -> (index: Option<usize>)
        requires
            self.wf(),
        ensures
            index is Some == holds_entry(self@.manual, entry_id),
            index matches Some(i) ==> i == first_index_of(self@.manual, entry_id) && i
                < self@.manual.len(),
    {
        let n = self.manual.len();
        let mut i: usize = 0;
        while i < n
            invariant
                n == self@.manual.len(),
                i <= n,
                forall|j: int| 0 <= j < i ==> self@.manual[j].entry_id != entry_id,
            decreases n - i,
        {
            if self.manual[i].entry_id == entry_id {
                proof {
                    let m = self@.manual;
                    let f = first_index_of(m, entry_id);
                    assert(0 <= i < m.len() && m[i as int].entry_id == entry_id && forall|j: int|
                        0 <= j < i ==> m[j].entry_id != entry_id);
                    assert(0 <= f < m.len() && m[f].entry_id == entry_id);
                    if f != i {
                        assert(m[f].entry_id != m[i as int].entry_id || f == i);
                    }
                }
                return Some(i);
            }
            i = i + 1;
        }
        None
    }

    fn take_entry_id(&mut self) -> (entry_id: u64)
        requires
            old(self).wf(),
            old(self)@.next_entry_id < u64::MAX,
        ensures
            entry_id == old(self)@.next_entry_id + 1,
            final(self)@ == (QueueModel { next_entry_id: entry_id, ..old(self)@ }),
            final(self).context.wf(),
            final(self)@.wf(),
            !holds_entry(old(self)@.manual, entry_id),
    {
        self.next_entry_id = self.next_entry_id + 1;
        proof {
            assert(self@ =~= QueueModel { next_entry_id: self.next_entry_id, ..old(self)@ });
        }
        self.next_entry_id
    }

    // --- advancing -----------------------------------------------------

    /// What to play when the current track ends by itself. The manual queue
    /// is checked first; only when it is empty does the context advance.
    /// Repeat-one repeats whatever is audible, and leaves the queue waiting.
    pub fn on_finished(&mut self) -> (track: Option<i64>)
        requires
            old(self).wf(),
        ensures
            final(self).wf(),
            (final(self)@, track) == old(self)@.finished(),
    {
        proof {
            self.lemma_context();
        }
        if self.context.repeat == RepeatMode::One {
            if let Some(playing) = self.current {
                return Some(playing.track_id);
            }
        }
        self.push_history();
        if let Some(track_id) = self.take_from_manual() {
            return Some(track_id);
        }
        let ghost before = self@;
        let track_id = match self.context.advance_natural() {
            Some(t) => t,
            None => {
                proof {
                    assert(self@ =~= before);
                }
                return None;
            },
        };
        self.set_context_current(track_id);
        proof {
            self.lemma_context();
            assert(self@ =~= old(self)@.after_context_move(self@.position));
        }
        Some(track_id)
    }

    /// What to play when the user presses Next: the same priority rule, minus
    /// repeat-one.
    pub fn on_next(&mut self) -> (track: Option<i64>)
        requires
            old(self).wf(),
        ensures
            final(self).wf(),
            (final(self)@, track) == old(self)@.next(),
    {
        proof {
            self.lemma_context();
        }
        self.push_history();
        if let Some(track_id) = self.take_from_manual() {
            return Some(track_id);
        }
        let ghost before = self@;
        let track_id = match self.context.next() {
            Some(t) => t,
            None => {
                proof {
                    assert(self@ =~= before);
                }
                return None;
            },
        };
        self.set_context_current(track_id);
        proof {
            self.lemma_context();
            assert(self@ =~= old(self)@.after_context_move(self@.position));
        }
        Some(track_id)
    }

    /// What Next would play, without moving anything: the front of the manual
    /// queue, else the context track after the cursor. Repeat-one does not
    /// apply, because this is the next track in the list.
    pub fn peek_next(&self) -> (track: Option<i64>)
        requires
            self.wf(),
        ensures
            track == self@.next().1,
    {
        proof {
            self.lemma_context();
        }
        if self.manual.len() > 0 {
            return Some(self.manual[0].track_id);
        }
        let len = self.context.len();
        if len == 0 {
            return None;
        }
        let position = self.context.position;
        let wraps = self.context.repeat == RepeatMode::All || self.context.repeat == RepeatMode::One;
        if position + 1 < len {
            self.context.at(position + 1)
        } else if wraps {
            self.context.at(0)
        } else {
            None
        }
    }

    /// What to play when the user presses Previous: the track last heard,
    /// with the context cursor put back where it was while it played. A
    /// consumed manual entry does not return to the queue. With nothing
    /// behind, repeat-all wraps to the end; otherwise the current track is
    /// returned, meaning "restart it".
    pub fn on_previous(&mut self) -> (track: Option<i64>)
        requires
            old(self).wf(),
        ensures
            final(self).wf(),
            (final(self)@, track) == old(self)@.previous(),
    {
        proof {
            self.lemma_context();
        }
        if let Some(entry) = self.history.pop_back() {
            self.context.set_position(entry.context_position);
            self.current = Some(Playing { track_id: entry.track_id, origin: entry.origin });
            proof {
                assert(self.context.wf());
                assert(self@.manual == old(self)@.manual);
                assert(self@.history.len() <= MAX_HISTORY);
                assert(self@.order.len() <= usize::MAX);
                assert(self@.perm matches Some(p) ==> is_index_permutation(p, self@.order.len()));
                assert(self@.wf());
                self.lemma_context();
                assert(self@ =~= old(self)@.previous().0);
            }
            return Some(entry.track_id);
        }
        if self.current.is_some() && self.context.repeat == RepeatMode::All {
            if let Some(track_id) = self.context.wrap_to_end() {
                self.set_context_current(track_id);
                proof {
                    self.lemma_context();
                    assert(self@ =~= old(self)@.previous().0);
                }
                return Some(track_id);
            }
        }
        proof {
            assert(self@ =~= old(self)@);
        }
        self.current()
    }

    fn take_from_manual(&mut self) -> (track: Option<i64>)
        requires
            old(self).wf(),
        ensures
            final(self).wf(),
            old(self)@.manual.len() == 0 ==> track is None && final(self)@ == old(self)@,
            old(self)@.manual.len() > 0 ==> track == Some(old(self)@.manual[0].track_id)
                && final(self)@ == (QueueModel {
                current: Some((old(self)@.manual[0].track_id, Origin::Manual)),
                manual: old(self)@.manual.drop_first(),
                ..old(self)@
            }),
    {
        match self.manual.pop_front() {
            Some(entry) => {
                self.current = Some(Playing { track_id: entry.track_id, origin: Origin::Manual });
                proof {
                    assert(self@ =~= QueueModel {
                        current: Some((old(self)@.manual[0].track_id, Origin::Manual)),
                        manual: old(self)@.manual.drop_first(),
                        ..old(self)@
                    });
                    assert forall|i: int, j: int|
                        0 <= i < j < self@.manual.len() implies #[trigger] self@.manual[i].entry_id
                        != #[trigger] self@.manual[j].entry_id by {
                        assert(self@.manual[i] == old(self)@.manual[i + 1]);
                        assert(self@.manual[j] == old(self)@.manual[j + 1]);
                    }
                }
                Some(entry.track_id)
            },
            None => {
                proof {
                    assert(self@ =~= old(self)@);
                }
                None
            },
        }
    }

    fn set_context_current(&mut self, track_id: i64)
        requires
            old(self).wf(),
        ensures
            final(self).wf(),
            final(self)@ == (QueueModel {
                current: Some((track_id, Origin::Context)),
                ..old(self)@
            }),
    {
        self.current = Some(Playing { track_id, origin: Origin::Context });
        proof {
            assert(self@ =~= QueueModel {
                current: Some((track_id, Origin::Context)),
                ..old(self)@
            });
        }
    }

    fn push_history(&mut self)
        requires
            old(self).wf(),
        ensures
            final(self).wf(),
            final(self)@ == (QueueModel { history: old(self)@.history_after_leaving(), ..old(self)@ }),
    {
        let playing = match self.current {
            Some(p) => p,
            None => {
                proof {
                    assert(self@ =~= QueueModel { history: old(self)@.history_after_leaving(), ..old(self)@ });
                }
                return;
            },
        };
        self.history.push_back(HistoryEntry {
            track_id: playing.track_id,
            origin: playing.origin,
            context_position: self.context.position,
        });
        if self.history.len() > MAX_HISTORY {
            let _ = self.history.pop_front();
        }
        proof {
            assert(self@.history =~= old(self)@.history_after_leaving());
            assert(self@ =~= QueueModel { history: old(self)@.history_after_leaving(), ..old(self)@ });
        }
    }
}

} // verus!
