use vstd::prelude::*;
use vstd::seq_lib::lemma_multiset_commutative;

use crate::event::{Event, EventView};
use crate::moment::SimultaneousEvents;
use crate::track::{
    grid_len_of, lemma_event_appears, lemma_grid_tempos_has, lemma_ticks_spanned_nonneg,
    lemma_track_tempos_complete, tempos_sorted, ticks_spanned, track_built_from, Track,
};

verus! {

/// The timing declared by a score header: either a metrical resolution in
/// ticks per beat, or SMPTE timecode given as a frame rate (frames per
/// second) and a tick count per frame. Only metrical timing is supported
/// for playback.
#[derive(Clone, Copy, Debug, PartialEq, Eq, Structural)]
pub enum Timing {
    /// Ticks per beat (quarter note).
    Metrical(u16),
    /// Frames per second and ticks per frame.
    Timecode(u8, u8),
}

/// How the tracks of a score relate to one another.
#[derive(Clone, Copy, Debug, PartialEq, Eq, Structural)]
pub enum Format {
    /// A single track.
    SingleTrack,
    /// Several tracks that play at the same time.
    Parallel,
    /// Several tracks that play one after another.
    Sequential,
}

/// The parsed form of a score file: its header timing and format, and one
/// delta-encoded event list per track.
#[derive(Clone, Debug)]
pub struct SmfData {
    pub timing: Timing,
    pub format: Format,
    pub tracks: Vec<Vec<(u32, Event)>>,
}

/// Why a score cannot be built.
#[derive(Clone, Copy, Debug, PartialEq, Eq, Structural)]
pub enum Error {
    /// An incompatible timing value was supplied.
    TimingFormat,
    /// The score does not contain any tempo information.
    NoTempo,
}

/// The metrical resolution of a timing value, if it is one a timer can run
/// on: at least one tick per beat.
pub open spec fn metrical_ticks(t: Timing) -> Option<u16> {
    match t {
        Timing::Metrical(n) => if n >= 1 {
            Some(n)
        } else {
            None
        },
        Timing::Timecode(_, _) => None,
    }
}

/// The greatest track length among the first `n` tracks.
pub open spec fn max_track_len(tracks: Seq<Track>, n: int) -> int
    decreases n,
{
    if n <= 0 {
        0
    } else {
        let m = max_track_len(tracks, n - 1);
        if tracks[n - 1].grid().len() > m {
            tracks[n - 1].grid().len() as int
        } else {
            m
        }
    }
}

/// The combined grid length of the first `i` delta-encoded track lists,
/// when laid out one after another.
pub open spec fn seq_offset(tracks: Seq<Vec<(u32, Event)>>, i: int) -> int
    decreases i,
{
    if i <= 0 {
        0
    } else {
        seq_offset(tracks, i - 1) + grid_len_of(tracks[i - 1]@)
    }
}

/// The tempo entries of the first `n` tracks, track after track.
pub open spec fn all_track_tempos(tracks: Seq<Track>, n: int) -> Seq<(usize, u32)>
    decreases n,
{
    if n <= 0 {
        Seq::empty()
    } else {
        all_track_tempos(tracks, n - 1) + tracks[n - 1].tempos()
    }
}

/// Whether any event of the delta-encoded input is a tempo change.
pub open spec fn input_has_tempo(tracks: Seq<Vec<(u32, Event)>>) -> bool {
    exists|i: int, j: int|
        0 <= i < tracks.len() && 0 <= j < tracks[i]@.len() && (#[trigger] tracks[i]@[j].1)@
            .tempo_change() is Some
}

/// The machine limit on a score's grids: every tick must have an index.
/// Parallel (and single-track) layouts need each track to fit by itself;
/// the sequential layout lays all tracks into one grid.
pub open spec fn tracks_fit(data: &SmfData) -> bool {
    match data.format {
        Format::Sequential => seq_offset(data.tracks@, data.tracks@.len() as int) <= usize::MAX,
        _ => forall|i: int|
            0 <= i < data.tracks@.len() ==> grid_len_of(#[trigger] data.tracks@[i]@) <= usize::MAX,
    }
}

/// What it means for a track list to be the parallel layout of the input:
/// one dense track per input track.
pub open spec fn parallel_built(tracks: Seq<Track>, data: Seq<Vec<(u32, Event)>>) -> bool {
    &&& tracks.len() == data.len()
    &&& forall|i: int| 0 <= i < data.len() ==> track_built_from(#[trigger] tracks[i], data[i]@)
}

/// The grid slots of the first `n` input tracks, laid one after another
/// into `grid`, hold exactly the events of those tracks, each track's ticks
/// offset by the combined length of the tracks before it.
pub open spec fn prefix_laid_out(
    grid: Seq<Option<SimultaneousEvents>>,
    data: Seq<Vec<(u32, Event)>>,
    n: int,
) -> bool {
    forall|i: int, k: int|
        #![trigger crate::track::events_at_tick(data[i]@, k)]
        0 <= i < n && 0 <= k < grid_len_of(data[i]@) ==> match grid[seq_offset(data, i) + k] {
            Some(se) => se@ == crate::track::events_at_tick(data[i]@, k) && se@.len() > 0,
            None => crate::track::events_at_tick(data[i]@, k).len() == 0,
        }
}

/// What it means for one track to be the sequential layout of the input:
/// the input tracks' grids laid out one after another, track `i` starting
/// at the combined length of those before it.
pub open spec fn sequential_built(t: Track, data: Seq<Vec<(u32, Event)>>) -> bool {
    &&& t.wf()
    &&& t.grid().len() == seq_offset(data, data.len() as int)
    &&& prefix_laid_out(t.grid(), data, data.len() as int)
}

/// A tick-indexed, immutable representation of a whole score: its metrical
/// resolution, its dense tracks, and the merged ascending list of every
/// tempo change of every track.
#[derive(Clone, Debug)]
pub struct Score {
    ticks_per_beat: u16,
    tracks: Vec<Track>,
    microseconds_per_beat_changes: Vec<(usize, u32)>,
}

impl Score {
    /// The metrical resolution, in ticks per beat.
    pub closed spec fn ticks_per_beat(&self) -> u16 {
        self.ticks_per_beat
    }

    /// The dense tracks.
    pub closed spec fn tracks(&self) -> Seq<Track> {
        self.tracks@
    }

    /// The merged tempo-change list, ascending by tick.
    pub closed spec fn changes(&self) -> Seq<(usize, u32)> {
        self.microseconds_per_beat_changes@
    }

    /// The length of the score in ticks: the greatest track length.
    pub open spec fn length(&self) -> int {
        max_track_len(self.tracks(), self.tracks().len() as int)
    }

    /// Whether any track holds an event at tick `k`.
    pub open spec fn has_any_event_at(&self, k: int) -> bool {
        exists|ti: int| 0 <= ti < self.tracks().len() && (#[trigger] self.tracks()[ti]).has_event_at(k)
    }

    /// The structural invariant: a usable resolution, at least one track,
    /// every track well formed, and a non-empty merged tempo list that is
    /// ascending by tick with every tick inside the score.
    pub open spec fn wf(&self) -> bool {
        &&& self.ticks_per_beat() >= 1
        &&& self.tracks().len() >= 1
        &&& forall|i: int| 0 <= i < self.tracks().len() ==> (#[trigger] self.tracks()[i]).wf()
        &&& self.changes().len() >= 1
        &&& tempos_sorted(self.changes())
        &&& forall|k: int|
            0 <= k < self.changes().len() ==> (#[trigger] self.changes()[k]).0 < self.length()
    }
}

/// Every track length among the first `n` is at most the maximum, the
/// maximum is not negative, and (for a non-empty list) it is attained.
pub proof fn lemma_max_track_len(tracks: Seq<Track>, n: int)
    requires
        0 <= n <= tracks.len(),
    ensures
        max_track_len(tracks, n) >= 0,
        forall|i: int|
            0 <= i < n ==> (#[trigger] tracks[i]).grid().len() <= max_track_len(tracks, n),
        n > 0 ==> exists|i: int|
            0 <= i < n && (#[trigger] tracks[i]).grid().len() == max_track_len(tracks, n),
    decreases n,
{
    if n > 0 {
        lemma_max_track_len(tracks, n - 1);
    }
}

/// Partial sums of grid lengths do not decrease, and each track's grid
/// fits inside the combined layout.
pub proof fn lemma_seq_offset_mono(tracks: Seq<Vec<(u32, Event)>>, i: int, j: int)
    requires
        0 <= i <= j <= tracks.len(),
    ensures
        seq_offset(tracks, i) <= seq_offset(tracks, j),
        seq_offset(tracks, i) >= 0,
    decreases j - i,
{
    if i == j {
        lemma_seq_offset_nonneg(tracks, i);
    } else {
        lemma_seq_offset_mono(tracks, i, j - 1);
        lemma_ticks_spanned_nonneg(tracks[j - 1]@);
        lemma_seq_offset_nonneg(tracks, i);
    }
}

/// Partial sums of grid lengths are not negative.
pub proof fn lemma_seq_offset_nonneg(tracks: Seq<Vec<(u32, Event)>>, i: int)
    requires
        0 <= i <= tracks.len(),
    ensures
        seq_offset(tracks, i) >= 0,
    decreases i,
{
    if i > 0 {
        lemma_seq_offset_nonneg(tracks, i - 1);
        lemma_ticks_spanned_nonneg(tracks[i - 1]@);
    }
}

/// Laying one more track's grid after a laid-out prefix extends the layout
/// by that track.
proof fn lemma_extend_layout(
    before: Seq<Option<SimultaneousEvents>>,
    appended: Seq<Option<SimultaneousEvents>>,
    tracks: Seq<Vec<(u32, Event)>>,
    i: int,
)
    requires
        0 <= i < tracks.len(),
        before.len() == seq_offset(tracks, i),
        prefix_laid_out(before, tracks, i),
        appended.len() == grid_len_of(tracks[i]@),
        crate::track::grid_matches(appended, tracks[i]@),
    ensures
        prefix_laid_out(before + appended, tracks, i + 1),
{
    let merged = before + appended;
    assert forall|ti: int, k: int|
        #![trigger crate::track::events_at_tick(tracks[ti]@, k)]
        0 <= ti < i + 1 && 0 <= k < grid_len_of(tracks[ti]@) implies match merged[seq_offset(
        tracks,
        ti,
    ) + k] {
        Some(se) => se@ == crate::track::events_at_tick(tracks[ti]@, k) && se@.len() > 0,
        None => crate::track::events_at_tick(tracks[ti]@, k).len() == 0,
    } by {
        lemma_seq_offset_mono(tracks, 0, ti);
        if ti < i {
            lemma_seq_offset_mono(tracks, ti + 1, i);
            assert(seq_offset(tracks, ti) + grid_len_of(tracks[ti]@) == seq_offset(
                tracks,
                ti + 1,
            ));
            assert(seq_offset(tracks, ti) + k < before.len());
            assert(merged[seq_offset(tracks, ti) + k] == before[seq_offset(tracks, ti) + k]);
        } else {
            assert(seq_offset(tracks, ti) == before.len());
            assert(merged[seq_offset(tracks, ti) + k] == appended[k]);
        }
    }
}

impl Score {
    /// Lay every input track out as a dense track of its own.
    #[verifier::loop_isolation(false)]
    fn parallel(tracks: &Vec<Vec<(u32, Event)>>) -> (r: Vec<Track>)
        requires
            forall|i: int|
                0 <= i < tracks@.len() ==> grid_len_of(#[trigger] tracks@[i]@) <= usize::MAX,
        ensures
            parallel_built(r@, tracks@),
    {
        let mut out: Vec<Track> = Vec::new();
        let mut i: usize = 0;
        while i < tracks.len()
            invariant
                0 <= i <= tracks@.len(),
                out@.len() == i,
                forall|k: int| 0 <= k < i ==> track_built_from(#[trigger] out@[k], tracks@[k]@),
            decreases tracks@.len() - i,
        {
            out.push(Track::from_events(&tracks[i]));
            i = i + 1;
        }
        out
    }

    /// Lay every input track out into one dense track, each track's ticks
    /// offset by the combined length of the tracks before it. An empty
    /// input yields no track at all.
    #[verifier::loop_isolation(false)]
    #[verifier::rlimit(30)]
    fn sequential(tracks: &Vec<Vec<(u32, Event)>>) -> (r: Vec<Track>)
        requires
            seq_offset(tracks@, tracks@.len() as int) <= usize::MAX,
        ensures
            tracks@.len() == 0 ==> r@.len() == 0,
            tracks@.len() > 0 ==> r@.len() == 1 && sequential_built(r@[0], tracks@),
    {
        if tracks.len() == 0 {
            return Vec::new();
        }
        proof {
            lemma_seq_offset_mono(tracks@, 1, tracks@.len() as int);
            lemma_ticks_spanned_nonneg(tracks@[0]@);
            assert(seq_offset(tracks@, 0) == 0);
            assert(seq_offset(tracks@, 1) == grid_len_of(tracks@[0]@));
        }
        let mut accumulator = Track::from_events(&tracks[0]);
        let mut i: usize = 1;
        while i < tracks.len()
            invariant
                1 <= i <= tracks@.len(),
                accumulator.wf(),
                accumulator.grid().len() == seq_offset(tracks@, i as int),
                prefix_laid_out(accumulator.grid(), tracks@, i as int),
            decreases tracks@.len() - i,
        {
            proof {
                lemma_seq_offset_mono(tracks@, i + 1, tracks@.len() as int);
                lemma_seq_offset_mono(tracks@, 0, i as int);
                lemma_ticks_spanned_nonneg(tracks@[i as int]@);
            }
            let mut next = Track::from_events(&tracks[i]);
            let ghost before = accumulator.grid();
            let ghost appended = next.grid();
            accumulator.append(&mut next);
            proof {
                lemma_extend_layout(before, appended, tracks@, i as int);
                assert(accumulator.grid() == before + appended);
            }
            i = i + 1;
        }
        let mut out: Vec<Track> = Vec::new();
        out.push(accumulator);
        out
    }
}

/// Insert one tempo entry into an ascending list, after every entry whose
/// tick is not greater, so that equal ticks keep their arrival order.
#[verifier::loop_isolation(false)]
fn insert_sorted(v: &mut Vec<(usize, u32)>, x: (usize, u32))
    requires
        tempos_sorted(old(v)@),
    ensures
        tempos_sorted(final(v)@),
        final(v)@.to_multiset() == old(v)@.to_multiset().insert(x),
        final(v)@.len() == old(v)@.len() + 1,
{
    broadcast use vstd::seq_lib::group_to_multiset_ensures;

    let mut p: usize = 0;
    while p < v.len() && v[p].0 <= x.0
        invariant
            0 <= p <= v@.len(),
            forall|k: int| 0 <= k < p ==> (#[trigger] v@[k]).0 <= x.0,
        decreases v@.len() - p,
    {
        p = p + 1;
    }
    let ghost pre = v@;
    v.insert(p, x);
    proof {
        pre.insert_ensures(p as int, x);
        assert forall|i: int, j: int| 0 <= i < j < v@.len() implies (#[trigger] v@[i]).0 <= (
        #[trigger] v@[j]).0 by {
            if i < p && j < p {
            } else if j == p {
                assert(v@[i] == pre[i]);
            } else if i == p {
                assert(v@[j] == pre[j - 1]);
                assert(pre[p as int].0 > x.0);
            } else if i < p {
                assert(v@[i] == pre[i]);
                assert(v@[j] == pre[j - 1]);
            } else {
                assert(v@[i] == pre[i - 1]);
                assert(v@[j] == pre[j - 1]);
            }
        }
        let front = pre.subrange(0, p as int);
        let back = pre.subrange(p as int, pre.len() as int);
        assert(v@ == front.push(x) + back);
        lemma_multiset_commutative(front.push(x), back);
        lemma_multiset_commutative(front, back);
        assert(front + back =~= pre);
        assert(front.push(x).to_multiset() =~= front.to_multiset().insert(x));
        assert(v@.to_multiset() =~= pre.to_multiset().insert(x));
    }
}

/// The combined tempo list of a track prefix is as long as any one track's
/// list, and every entry of any track's list appears in it.
proof fn lemma_all_track_tempos_parts(tracks: Seq<Track>, n: int, i: int)
    requires
        0 <= i < n <= tracks.len(),
    ensures
        all_track_tempos(tracks, n).len() >= tracks[i].tempos().len(),
    decreases n,
{
    if i < n - 1 {
        lemma_all_track_tempos_parts(tracks, n - 1, i);
    }
}

/// Every entry of the combined tempo list of a track prefix belongs to one
/// of the tracks.
proof fn lemma_all_track_tempos_sound(tracks: Seq<Track>, n: int, k: int)
    requires
        0 <= n <= tracks.len(),
        0 <= k < all_track_tempos(tracks, n).len(),
    ensures
        exists|i: int, m: int|
            #![trigger tracks[i].tempos()[m]]
            0 <= i < n && 0 <= m < tracks[i].tempos().len() && tracks[i].tempos()[m]
                == all_track_tempos(tracks, n)[k],
    decreases n,
{
    if n > 0 {
        let pre = all_track_tempos(tracks, n - 1);
        if k < pre.len() {
            lemma_all_track_tempos_sound(tracks, n - 1, k);
            let (i, m) = choose|i: int, m: int|
                #![trigger tracks[i].tempos()[m]]
                0 <= i < n - 1 && 0 <= m < tracks[i].tempos().len() && tracks[i].tempos()[m]
                    == pre[k];
            assert(tracks[i].tempos()[m] == all_track_tempos(tracks, n)[k]);
        } else {
            assert(tracks[n - 1].tempos()[k - pre.len()] == all_track_tempos(tracks, n)[k]);
        }
    }
}

/// Which input track a tick of the sequential layout falls into.
proof fn lemma_seq_offset_locate(tracks: Seq<Vec<(u32, Event)>>, n: int, t: int)
    requires
        0 <= n <= tracks.len(),
        0 <= t < seq_offset(tracks, n),
    ensures
        exists|i: int|
            #![trigger seq_offset(tracks, i)]
            0 <= i < n && seq_offset(tracks, i) <= t && t - seq_offset(tracks, i) < grid_len_of(
                tracks[i]@,
            ),
    decreases n,
{
    if n > 0 {
        if t < seq_offset(tracks, n - 1) {
            lemma_seq_offset_locate(tracks, n - 1, t);
        } else {
            assert(seq_offset(tracks, n - 1) <= t && t - seq_offset(tracks, n - 1) < grid_len_of(
                tracks[n - 1]@,
            ));
        }
    }
}

/// How the built tracks relate to the input, by the header's format.
pub open spec fn built_by_format(tracks: Seq<Track>, data: &SmfData) -> bool {
    match data.format {
        Format::Sequential => {
            if data.tracks@.len() == 0 {
                tracks.len() == 0
            } else {
                tracks.len() == 1 && sequential_built(tracks[0], data.tracks@)
            }
        },
        _ => parallel_built(tracks, data.tracks@),
    }
}

/// If the merged tempo list of the built tracks is empty, the input held no
/// tempo event at all.
proof fn lemma_no_changes_no_tempo(tracks: Seq<Track>, data: &SmfData, changes: Seq<(usize, u32)>)
    requires
        built_by_format(tracks, data),
        changes.len() == all_track_tempos(tracks, tracks.len() as int).len(),
        changes.len() == 0,
    ensures
        !input_has_tempo(data.tracks@),
{
    if input_has_tempo(data.tracks@) {
        let (i, j) = choose|i: int, j: int|
            0 <= i < data.tracks@.len() && 0 <= j < data.tracks@[i]@.len() && (#[trigger] data.tracks@[i]@[j].1)@.tempo_change() is Some;
        match data.format {
            Format::Sequential => {
                let items = data.tracks@[i]@;
                let merged = tracks[0];
                lemma_event_appears(items, j);
                crate::track::lemma_ticks_spanned_prefix(items, j + 1);
                let tk = ticks_spanned(items.take(j + 1));
                let es = crate::track::events_at_tick(items, tk);
                let m = choose|m: int| 0 <= m < es.len() && es[m] == items[j].1@;
                let g = seq_offset(data.tracks@, i) + tk;
                lemma_seq_offset_mono(data.tracks@, 0, i);
                lemma_seq_offset_mono(data.tracks@, i + 1, data.tracks@.len() as int);
                assert(seq_offset(data.tracks@, i + 1) == seq_offset(data.tracks@, i)
                    + grid_len_of(items));
                assert(merged.grid()[g] is Some);
                lemma_grid_tempos_has(merged.grid(), g, m);
                lemma_all_track_tempos_parts(tracks, tracks.len() as int, 0);
                assert(false);
            },
            _ => {
                assert(track_built_from(tracks[i], data.tracks@[i]@));
                lemma_track_tempos_complete(tracks[i], data.tracks@[i]@, j);
                lemma_all_track_tempos_parts(tracks, tracks.len() as int, i);
                assert(false);
            },
        }
    }
}

/// A non-empty merged tempo list shows the input held a tempo event, every
/// built track is well formed, and every merged entry's tick lies inside
/// the score.
proof fn lemma_changes_give_tempo(tracks: Seq<Track>, data: &SmfData, changes: Seq<(usize, u32)>)
    requires
        built_by_format(tracks, data),
        changes.len() == all_track_tempos(tracks, tracks.len() as int).len(),
        changes.to_multiset() == all_track_tempos(tracks, tracks.len() as int).to_multiset(),
        changes.len() > 0,
    ensures
        input_has_tempo(data.tracks@),
        tracks.len() >= 1,
        forall|i: int| 0 <= i < tracks.len() ==> (#[trigger] tracks[i]).wf(),
        forall|k: int|
            0 <= k < changes.len() ==> (#[trigger] changes[k]).0 < max_track_len(
                tracks,
                tracks.len() as int,
            ),
{
    broadcast use vstd::seq_lib::group_to_multiset_ensures;

    let n = tracks.len() as int;
    assert(tracks.len() >= 1);
    assert forall|i: int| 0 <= i < n implies (#[trigger] tracks[i]).wf() by {
        match data.format {
            Format::Sequential => {},
            _ => {
                assert(track_built_from(tracks[i], data.tracks@[i]@));
            },
        }
    }
    lemma_max_track_len(tracks, n);

    // Every merged entry's tick lies inside the score.
    assert forall|k: int| 0 <= k < changes.len() implies (#[trigger] changes[k]).0
        < max_track_len(tracks, n) by {
        assert(changes.to_multiset().count(changes[k]) > 0);
        assert(all_track_tempos(tracks, n).contains(changes[k]));
        let k2 = choose|k2: int|
            0 <= k2 < all_track_tempos(tracks, n).len() && all_track_tempos(tracks, n)[k2]
                == changes[k];
        lemma_all_track_tempos_sound(tracks, n, k2);
        let (i, m) = choose|i: int, m: int|
            #![trigger tracks[i].tempos()[m]]
            0 <= i < n && 0 <= m < tracks[i].tempos().len() && tracks[i].tempos()[m]
                == all_track_tempos(tracks, n)[k2];
        crate::track::lemma_grid_len_bound(tracks[i]);
        crate::track::lemma_grid_tempos_wf(tracks[i].grid());
    }

    // Some track has a tempo entry, which traces back to an input event.
    lemma_all_track_tempos_sound(tracks, n, 0);
    let (i, m) = choose|i: int, m: int|
        #![trigger tracks[i].tempos()[m]]
        0 <= i < n && 0 <= m < tracks[i].tempos().len() && tracks[i].tempos()[m]
            == all_track_tempos(tracks, n)[0];
    assert(tracks[i].tempos().len() > 0);
    crate::track::lemma_grid_tempos_sound(tracks[i].grid());
    let (t, em) = choose|t: int, em: int|
        #![trigger tracks[i].grid()[t]->Some_0@[em]]
        0 <= t < tracks[i].grid().len() && tracks[i].grid()[t] is Some && 0 <= em
            < tracks[i].grid()[t]->Some_0@.len() && tracks[i].grid()[t]->Some_0@[em].tempo_change() is Some;
    match data.format {
        Format::Sequential => {
            lemma_seq_offset_locate(data.tracks@, data.tracks@.len() as int, t);
            let src = choose|src: int|
                #![trigger seq_offset(data.tracks@, src)]
                0 <= src < data.tracks@.len() && seq_offset(data.tracks@, src) <= t && t
                    - seq_offset(data.tracks@, src) < grid_len_of(data.tracks@[src]@);
            let k = t - seq_offset(data.tracks@, src);
            let es = crate::track::events_at_tick(data.tracks@[src]@, k);
            assert(tracks[i].grid()[seq_offset(data.tracks@, src) + k] is Some);
            crate::track::lemma_events_at_tick_sound(data.tracks@[src]@, k, em);
            let j = choose|j: int|
                0 <= j < data.tracks@[src]@.len() && (#[trigger] data.tracks@[src]@[j].1)@
                    == es[em];
            assert((data.tracks@[src]@[j].1)@.tempo_change() is Some);
        },
        _ => {
            assert(track_built_from(tracks[i], data.tracks@[i]@));
            let es = crate::track::events_at_tick(data.tracks@[i]@, t);
            crate::track::lemma_events_at_tick_sound(data.tracks@[i]@, t, em);
            let j = choose|j: int|
                0 <= j < data.tracks@[i]@.len() && (#[trigger] data.tracks@[i]@[j].1)@ == es[em];
            assert((data.tracks@[i]@[j].1)@.tempo_change() is Some);
        },
    }
}

/// Everything Score construction guarantees of its result: the resolution
/// comes from the header, the whole value is well formed, the tracks are
/// laid out by the header's format, and the merged tempo list holds exactly
/// every track's tempo entries, in ascending tick order.
pub open spec fn score_built(s: Score, data: &SmfData) -> bool {
    &&& metrical_ticks(data.timing) == Some(s.ticks_per_beat())
    &&& s.wf()
    &&& match data.format {
        Format::Sequential => data.tracks@.len() > 0 && s.tracks().len() == 1 && sequential_built(
            s.tracks()[0],
            data.tracks@,
        ),
        _ => parallel_built(s.tracks(), data.tracks@),
    }
    &&& s.changes().to_multiset() == all_track_tempos(
        s.tracks(),
        s.tracks().len() as int,
    ).to_multiset()
    &&& input_has_tempo(data.tracks@)
}

impl Score {
    /// Collect every tempo entry of every track into one list ascending by
    /// tick; entries of equal ticks keep track order, then event order.
    #[verifier::loop_isolation(false)]
    fn merge_tempos(tracks: &Vec<Track>) -> (r: Vec<(usize, u32)>)
        ensures
            tempos_sorted(r@),
            r@.to_multiset() == all_track_tempos(tracks@, tracks@.len() as int).to_multiset(),
            r@.len() == all_track_tempos(tracks@, tracks@.len() as int).len(),
    {
        broadcast use vstd::seq_lib::group_to_multiset_ensures;

        let mut changes: Vec<(usize, u32)> = Vec::new();
        let mut ti: usize = 0;
        proof {
            assert(changes@.to_multiset() =~= all_track_tempos(tracks@, 0).to_multiset());
        }
        while ti < tracks.len()
            invariant
                0 <= ti <= tracks@.len(),
                tempos_sorted(changes@),
                changes@.to_multiset() == all_track_tempos(tracks@, ti as int).to_multiset(),
                changes@.len() == all_track_tempos(tracks@, ti as int).len(),
            decreases tracks@.len() - ti,
        {
            let entries = tracks[ti].get_all_tempos();
            let ghost base = all_track_tempos(tracks@, ti as int);
            let mut k: usize = 0;
            proof {
                assert(base + entries@.take(0) =~= base);
            }
            while k < entries.len()
                invariant
                    0 <= k <= entries@.len(),
                    entries@ == tracks@[ti as int].tempos(),
                    tempos_sorted(changes@),
                    changes@.to_multiset() == (base + entries@.take(k as int)).to_multiset(),
                    changes@.len() == base.len() + k,
                decreases entries@.len() - k,
            {
                insert_sorted(&mut changes, entries[k]);
                proof {
                    assert(base + entries@.take(k + 1) =~= (base + entries@.take(k as int)).push(
                        entries@[k as int],
                    ));
                }
                k = k + 1;
            }
            proof {
                assert(entries@.take(entries@.len() as int) =~= entries@);
                assert(base + entries@ =~= all_track_tempos(tracks@, ti + 1));
            }
            ti = ti + 1;
        }
        changes
    }

    /// Build the tick-indexed score from a parsed file: reject non-metrical
    /// timing, lay the tracks out by the header's format, and merge every
    /// track's tempo changes into one ascending list, which must not come
    /// out empty.
    pub fn new(data: &SmfData) -> (r: Result<Score, Error>)
        requires
            tracks_fit(data),
        ensures
            match r {
                Ok(s) => score_built(s, data),
                Err(Error::TimingFormat) => metrical_ticks(data.timing) is None,
                Err(Error::NoTempo) => metrical_ticks(data.timing) is Some && !input_has_tempo(
                    data.tracks@,
                ),
            },
    {
        broadcast use vstd::seq_lib::group_to_multiset_ensures;

        let ticks_per_beat: u16 = match data.timing {
            Timing::Metrical(n) => {
                if n == 0 {
                    return Err(Error::TimingFormat);
                }
                n
            },
            Timing::Timecode(_, _) => {
                return Err(Error::TimingFormat);
            },
        };

        let tracks: Vec<Track> = match data.format {
            Format::Sequential => Score::sequential(&data.tracks),
            _ => Score::parallel(&data.tracks),
        };

        let changes = Score::merge_tempos(&tracks);

        if changes.len() == 0 {
            proof {
                lemma_no_changes_no_tempo(tracks@, data, changes@);
            }
            return Err(Error::NoTempo);
        }

        proof {
            lemma_changes_give_tempo(tracks@, data, changes@);
        }
        Ok(
            Score {
                ticks_per_beat,
                tracks,
                microseconds_per_beat_changes: changes,
            },
        )
    }
}

impl Score {
    /// How many tracks the score holds.
    pub fn get_track_count(&self) -> (r: usize)
        ensures
            r == self.tracks().len(),
    {
        self.tracks.len()
    }

    /// The length of the score in ticks: the greatest track length, or 0
    /// for a score without tracks.
    pub fn len(&self) -> (r: usize)
        ensures
            r as int == self.length(),
    {
        let mut m: usize = 0;
        let mut i: usize = 0;
        while i < self.tracks.len()
            invariant
                0 <= i <= self.tracks().len(),
                m as int == max_track_len(self.tracks(), i as int),
            decreases self.tracks().len() - i,
        {
            let l = self.tracks[i].len();
            if l > m {
                m = l;
            }
            i = i + 1;
        }
        m
    }

    /// The merged tempo-change list: each entry a tick and the
    /// microseconds-per-beat value set there, ascending by tick.
    pub fn get_microseconds_per_beat_changes(&self) -> (r: &Vec<(usize, u32)>)
        ensures
            r@ == self.changes(),
    {
        &self.microseconds_per_beat_changes
    }
}

/// The tempo of the last change whose tick is at most `t`, if any change
/// precedes `t` at all.
pub open spec fn last_tempo_le(changes: Seq<(usize, u32)>, t: int) -> Option<u32>
    decreases changes.len(),
{
    if changes.len() == 0 {
        None
    } else if changes.last().0 <= t {
        Some(changes.last().1)
    } else {
        last_tempo_le(changes.drop_last(), t)
    }
}

/// The tempo the query answers at tick `index` for a score of length `len`:
/// tick 0 always answers the first entry; ticks at or beyond the length
/// answer nothing; with a single entry that one is in force everywhere
/// inside the score; otherwise the last change at or before the tick.
pub open spec fn tempo_at_spec(changes: Seq<(usize, u32)>, len: int, index: int) -> Option<u32> {
    if index == 0 {
        if changes.len() >= 1 {
            Some(changes[0].1)
        } else {
            None
        }
    } else if index >= len {
        None
    } else if changes.len() == 1 {
        Some(changes[0].1)
    } else {
        last_tempo_le(changes, index)
    }
}

/// The tempo in force at tick `t`, as the engine applies it: the last
/// change at or before `t`, or, before the first change, the first entry.
pub open spec fn tempo_in_force(changes: Seq<(usize, u32)>, t: int) -> u32 {
    match last_tempo_le(changes, t) {
        Some(x) => x,
        None => if changes.len() >= 1 {
            changes[0].1
        } else {
            0
        },
    }
}

/// The tempo query answers the tempo of the last change at or before the
/// queried tick, for every tick inside the score that any change precedes:
/// `j` names that change. (Tick 0 with several changes at tick 0 answers
/// the first of them, and a tick that no change precedes answers by the
/// special cases of `tempo_at_spec` alone.)
pub proof fn lemma_tempo_at_greatest(changes: Seq<(usize, u32)>, len: int, t: int, j: int)
    requires
        tempos_sorted(changes),
        0 < t < len,
        0 <= j < changes.len(),
        changes[j].0 <= t,
        forall|k: int| j < k < changes.len() ==> (#[trigger] changes[k]).0 > t,
    ensures
        tempo_at_spec(changes, len, t) == Some(changes[j].1),
        last_tempo_le(changes, t) == Some(changes[j].1),
    decreases changes.len(),
{
    if j == changes.len() - 1 {
    } else {
        assert(changes.last().0 > t);
        lemma_tempo_at_greatest(changes.drop_last(), len, t, j);
    }
}

impl Score {
    /// The microseconds-per-beat value that applies at the given tick.
    ///
    /// Tick 0 answers the first tempo entry; a tick at or beyond the length
    /// answers nothing; a score with a single tempo entry answers it for
    /// every tick inside the score; any other tick answers the last change
    /// at or before it, or nothing if the first change lies beyond it.
    #[verifier::loop_isolation(false)]
    pub fn get_microseconds_per_beat_at(&self, index: usize) -> (r: Option<u32>)
        ensures
            r == tempo_at_spec(self.changes(), self.length(), index as int),
    {
        let changes = &self.microseconds_per_beat_changes;
        if index == 0 {
            if changes.len() > 0 {
                return Some(changes[0].1);
            }
            return None;
        }
        if index >= self.len() {
            return None;
        }
        if changes.len() == 1 {
            return Some(changes[0].1);
        }
        let mut k: usize = changes.len();
        proof {
            assert(changes@.take(changes@.len() as int) =~= changes@);
        }
        while k > 0
            invariant
                0 <= k <= changes@.len(),
                last_tempo_le(changes@, index as int) == last_tempo_le(
                    changes@.take(k as int),
                    index as int,
                ),
            decreases k,
        {
            proof {
                assert(changes@.take(k as int).drop_last() =~= changes@.take(k - 1));
                assert(changes@.take(k as int).last() == changes@[k - 1]);
            }
            if changes[k - 1].0 <= index {
                return Some(changes[k - 1].1);
            }
            k = k - 1;
        }
        proof {
            assert(changes@.take(0) =~= Seq::<(usize, u32)>::empty());
        }
        None
    }
}

/// The mathematical value of a gathered per-track moment list.
pub open spec fn moments_view(v: Seq<(usize, SimultaneousEvents)>) -> Seq<(usize, Seq<EventView>)> {
    v.map_values(|p: (usize, SimultaneousEvents)| (p.0, p.1@))
}

/// Viewing a gathered moment list commutes with appending one pair.
proof fn lemma_moments_view_push(s: Seq<(usize, SimultaneousEvents)>, p: (usize, SimultaneousEvents))
    ensures
        moments_view(s.push(p)) == moments_view(s).push((p.0, p.1@)),
{
    assert forall|m: int| 0 <= m < s.len() + 1 implies moments_view(s.push(p))[m] == moments_view(
        s,
    ).push((p.0, p.1@))[m] by {
        if m < s.len() {
            assert(s.push(p)[m] == s[m]);
        } else {
            assert(s.push(p)[m] == p);
        }
    }
    assert(moments_view(s.push(p)) =~= moments_view(s).push((p.0, p.1@)));
}

/// The moments of the first `n` tracks at one tick: for every track that
/// covers the tick and holds events there, its index and those events, in
/// track order.
pub open spec fn gathered(tracks: Seq<Track>, n: int, index: int) -> Seq<(usize, Seq<EventView>)>
    decreases n,
{
    if n <= 0 {
        Seq::empty()
    } else {
        gathered(tracks, n - 1, index) + (if 0 <= index < tracks[n - 1].grid().len()
            && tracks[n - 1].grid()[index] is Some {
            seq![(((n - 1) as usize), tracks[n - 1].grid()[index]->Some_0@)]
        } else {
            Seq::empty()
        })
    }
}

impl Score {
    /// For every track that has events at this tick, the track's index and
    /// an exact copy of those events, in track order. Answers nothing at
    /// all only when the tick lies beyond the end of every track, which
    /// tells "nothing happens here" apart from "the score is over".
    #[verifier::loop_isolation(false)]
    pub fn gather_all_events_for_index(&self, index: usize) -> (r: Option<
        Vec<(usize, SimultaneousEvents)>,
    >)
        ensures
            match r {
                None => forall|ti: int|
                    0 <= ti < self.tracks().len() ==> index >= (#[trigger] self.tracks()[ti]).grid().len(),
                Some(v) => {
                    &&& exists|ti: int|
                        0 <= ti < self.tracks().len() && index < (#[trigger] self.tracks()[ti]).grid().len()
                    &&& moments_view(v@) == gathered(
                        self.tracks(),
                        self.tracks().len() as int,
                        index as int,
                    )
                },
            },
    {
        let mut any: bool = false;
        let mut out: Vec<(usize, SimultaneousEvents)> = Vec::new();
        let mut ti: usize = 0;
        proof {
            assert(moments_view(out@) =~= gathered(self.tracks(), 0, index as int));
        }
        while ti < self.tracks.len()
            invariant
                0 <= ti <= self.tracks().len(),
                any == exists|tj: int|
                    0 <= tj < ti && index < (#[trigger] self.tracks()[tj]).grid().len(),
                moments_view(out@) == gathered(self.tracks(), ti as int, index as int),
            decreases self.tracks().len() - ti,
        {
            let ghost pre = out@;
            match self.tracks[ti].get_events(index) {
                Some(slot) => {
                    any = true;
                    match slot {
                        Some(se) => {
                            let copy = se.duplicate();
                            out.push((ti, copy));
                            proof {
                                lemma_moments_view_push(pre, (ti, copy));
                                assert(moments_view(out@) =~= gathered(
                                    self.tracks(),
                                    ti + 1,
                                    index as int,
                                ));
                            }
                        },
                        None => {
                            proof {
                                assert(moments_view(out@) =~= gathered(
                                    self.tracks(),
                                    ti + 1,
                                    index as int,
                                ));
                            }
                        },
                    }
                },
                None => {
                    proof {
                        assert(moments_view(out@) =~= gathered(
                            self.tracks(),
                            ti + 1,
                            index as int,
                        ));
                    }
                },
            }
            ti = ti + 1;
        }
        if any {
            Some(out)
        } else {
            None
        }
    }

    /// Whether the given tick lies beyond the end of every track.
    pub open spec fn beyond_every_track(&self, pos: int) -> bool {
        forall|ti: int|
            0 <= ti < self.tracks().len() ==> pos >= (#[trigger] self.tracks()[ti]).grid().len()
    }

    /// The first tick at or after `m` at which any track holds an event.
    pub open spec fn next_event_tick_from(&self, m: int) -> Option<int>
        decreases self.length() - m,
    {
        if m >= self.length() {
            None
        } else if m < 0 {
            None
        } else if self.has_any_event_at(m) {
            Some(m)
        } else {
            self.next_event_tick_from(m + 1)
        }
    }

    /// The distance from `index` to the next tick strictly after it at
    /// which any track holds an event.
    pub open spec fn next_event_distance(&self, index: int) -> Option<int> {
        match self.next_event_tick_from(index + 1) {
            Some(t) => Some(t - index),
            None => None,
        }
    }

    /// Whether any track holds an event at the given tick.
    #[verifier::loop_isolation(false)]
    fn any_track_has_event_at(&self, k: usize) -> (r: bool)
        ensures
            r == self.has_any_event_at(k as int),
    {
        let mut ti: usize = 0;
        while ti < self.tracks.len()
            invariant
                0 <= ti <= self.tracks().len(),
                forall|tj: int| 0 <= tj < ti ==> !(#[trigger] self.tracks()[tj]).has_event_at(
                    k as int,
                ),
            decreases self.tracks().len() - ti,
        {
            match self.tracks[ti].get_events(k) {
                Some(slot) => {
                    if slot.is_some() {
                        proof {
                            assert(self.tracks()[ti as int].has_event_at(k as int));
                        }
                        return true;
                    }
                },
                None => {},
            }
            ti = ti + 1;
        }
        false
    }

    /// The distance to the next tick, strictly after the given one, at
    /// which any track holds an event; nothing if no further tick of the
    /// score holds one.
    #[verifier::loop_isolation(false)]
    pub fn calculate_ticks_until_next_events_from_index(&self, index: usize) -> (r: Option<usize>)
        requires
            self.wf(),
        ensures
            match r {
                Some(d) => {
                    &&& d >= 1
                    &&& self.has_any_event_at(index + d)
                    &&& forall|m: int| index < m < index + d ==> !self.has_any_event_at(m)
                    &&& self.next_event_distance(index as int) == Some(d as int)
                },
                None => {
                    &&& forall|m: int| m > index ==> !self.has_any_event_at(m)
                    &&& self.next_event_distance(index as int) is None
                },
            },
    {
        let len = self.len();
        proof {
            lemma_max_track_len(self.tracks(), self.tracks().len() as int);
            assert(self.changes()[0].0 < self.length());
            assert(self.length() >= 1);
        }
        let mut k: usize = index;
        while k < len - 1
            invariant
                index <= k,
                forall|m: int| index < m <= k ==> !self.has_any_event_at(m),
            decreases len - k,
        {
            k = k + 1;
            if self.any_track_has_event_at(k) {
                proof {
                    lemma_next_tick_found(self, index + 1, k as int);
                }
                return Some(k - index);
            }
        }
        proof {
            assert forall|m: int| m > index implies !self.has_any_event_at(m) by {
                if m <= k {
                } else {
                    assert(m >= self.length());
                    assert forall|ti: int|
                        0 <= ti < self.tracks().len() implies !(#[trigger] self.tracks()[ti]).has_event_at(
                        m,
                    ) by {
                        assert(self.tracks()[ti].grid().len() <= self.length());
                    }
                }
            }
            lemma_next_tick_none(self, index + 1);
        }
        None
    }
}

/// If `t` is the first tick at or after `m` holding any event, the search
/// finds exactly it.
proof fn lemma_next_tick_found(s: &Score, m: int, t: int)
    requires
        0 <= m <= t < s.length(),
        s.has_any_event_at(t),
        forall|j: int| m <= j < t ==> !s.has_any_event_at(j),
    ensures
        s.next_event_tick_from(m) == Some(t),
    decreases t - m,
{
    if m < t {
        lemma_next_tick_found(s, m + 1, t);
    }
}

/// If no tick at or after `m` holds any event, the search finds nothing.
proof fn lemma_next_tick_none(s: &Score, m: int)
    requires
        m >= 0,
        forall|j: int| j >= m ==> !s.has_any_event_at(j),
    ensures
        s.next_event_tick_from(m) is None,
    decreases s.length() - m,
{
    if m < s.length() {
        lemma_next_tick_none(s, m + 1);
    }
}

/// The length in nanoseconds of the piecewise-constant tempo map up to
/// `limit` ticks: each segment runs from the previous change (`last`, with
/// `tick_us` microseconds per tick in force) to the next change or to the
/// limit, and contributes its own truncated duration.
pub open spec fn duration_fold(
    changes: Seq<(usize, u32)>,
    tpb: int,
    speed: int,
    limit: int,
    last: int,
    tick_us: int,
) -> int
    decreases changes.len(),
{
    if changes.len() == 0 || changes[0].0 >= limit {
        crate::timer::duration_nanos_spec(limit - last, tick_us, speed)
    } else {
        crate::timer::duration_nanos_spec(changes[0].0 - last, tick_us, speed) + duration_fold(
            changes.skip(1),
            tpb,
            speed,
            limit,
            changes[0].0 as int,
            changes[0].1 as int / tpb,
        )
    }
}

/// Each segment's truncated duration is not negative and at most its tick
/// count times the largest possible nanosecond weight of one tick.
proof fn lemma_segment_bound(t: int, us: int, speed: int)
    requires
        0 <= t,
        0 <= us <= u32::MAX,
        1 <= speed,
    ensures
        0 <= crate::timer::duration_nanos_spec(t, us, speed) <= t * (u32::MAX as int)
            * 1_000_000,
        0 <= t * us * 1_000_000 <= t * (u32::MAX as int) * 1_000_000,
{
    assert(0 <= t * us * 1_000_000 <= t * (u32::MAX as int) * 1_000_000) by (nonlinear_arith)
        requires
            0 <= t,
            0 <= us <= u32::MAX as int,
    ;
    let x = t * us * 1_000_000;
    vstd::arithmetic::div_mod::lemma_div_pos_is_pos(x, speed);
    vstd::arithmetic::div_mod::lemma_div_is_ordered_by_denominator(x, 1, speed);
    vstd::arithmetic::div_mod::lemma_div_basics(x);
}

/// The nanosecond weight of any segment that fits the machine's tick range
/// stays far inside the 128-bit range.
proof fn lemma_product_fits(t: int, us: int)
    requires
        0 <= t <= usize::MAX,
        0 <= us <= u32::MAX,
    ensures
        0 <= t * us <= u128::MAX,
        0 <= t * us * 1_000_000 <= u128::MAX,
{
    assert(usize::MAX as int <= u64::MAX as int);
    assert(0 <= t * us <= (u64::MAX as int) * (u32::MAX as int)) by (nonlinear_arith)
        requires
            0 <= t <= u64::MAX as int,
            0 <= us <= u32::MAX as int,
    ;
    assert(0 <= t * us * 1_000_000 <= (u64::MAX as int) * (u32::MAX as int) * 1_000_000)
        by (nonlinear_arith)
        requires
            0 <= t * us <= (u64::MAX as int) * (u32::MAX as int),
    ;
    assert((u64::MAX as int) * (u32::MAX as int) * 1_000_000 <= u128::MAX as int);
}

impl Score {
    /// The wall-clock length of the score up to (but excluding nothing of)
    /// the given tick limit, at the given speed, honoring every tempo
    /// change before the limit; speed 0 freezes the clock and yields the
    /// maximal duration.
    ///
    /// Each tick's length is the whole-microsecond quotient of the tempo in
    /// force by the resolution, scaled by the inverse of the speed.
    #[verifier::loop_isolation(false)]
    #[verifier::rlimit(30)]
    pub fn calculate_duration_until(&self, speed_millis: u64, index_limit: usize) -> (r: u128)
        requires
            self.wf(),
        ensures
            speed_millis == 0 ==> r == u128::MAX,
            speed_millis > 0 ==> r as int == duration_fold(
                self.changes(),
                self.ticks_per_beat() as int,
                speed_millis as int,
                index_limit as int,
                0,
                0,
            ),
    {
        if speed_millis == 0 {
            return u128::MAX;
        }
        let changes = &self.microseconds_per_beat_changes;
        let n = changes.len();
        let ghost big: int = (u32::MAX as int) * 1_000_000;
        let mut counter: u128 = 0;
        let mut last: usize = 0;
        let mut tick_us: u32 = 0;
        let mut c: usize = 0;
        proof {
            assert(changes@.skip(0) =~= changes@);
        }
        while c < n && changes[c].0 < index_limit
            invariant
                0 <= c <= n,
                n == changes@.len(),
                last <= index_limit,
                c > 0 ==> last == changes@[c - 1].0,
                c == 0 ==> last == 0 && tick_us == 0,
                counter as int <= (last as int) * big,
                duration_fold(
                    self.changes(),
                    self.ticks_per_beat() as int,
                    speed_millis as int,
                    index_limit as int,
                    0,
                    0,
                ) == counter as int + duration_fold(
                    changes@.skip(c as int),
                    self.ticks_per_beat() as int,
                    speed_millis as int,
                    index_limit as int,
                    last as int,
                    tick_us as int,
                ),
            decreases n - c,
        {
            let (change_tick, tempo) = changes[c];
            proof {
                if c > 0 {
                    assert(changes@[c - 1].0 <= changes@[c as int].0);
                }
                lemma_segment_bound(
                    change_tick as int - last as int,
                    tick_us as int,
                    speed_millis as int,
                );
                assert((last as int) * big + (change_tick as int - last as int) * big
                    == (change_tick as int) * big) by (nonlinear_arith);
                assert((change_tick as int) * big <= (usize::MAX as int) * big)
                    by (nonlinear_arith)
                    requires
                        change_tick as int <= usize::MAX as int,
                        big > 0,
                ;
                assert((usize::MAX as int) * big < u128::MAX as int) by (nonlinear_arith)
                    requires
                        usize::MAX as int <= u64::MAX as int,
                        big == (u32::MAX as int) * 1_000_000,
                ;
                assert(changes@.skip(c as int)[0] == changes@[c as int]);
                assert(changes@.skip(c as int).skip(1) =~= changes@.skip(c + 1));
                lemma_product_fits(change_tick as int - last as int, tick_us as int);
            }
            let ticks = change_tick - last;
            let segment: u128 = (ticks as u128) * (tick_us as u128) * 1_000_000 / (speed_millis
                as u128);
            counter = counter + segment;
            tick_us = tempo / (self.ticks_per_beat as u32);
            last = change_tick;
            c = c + 1;
        }
        proof {
            if c < n {
                assert(changes@.skip(c as int)[0] == changes@[c as int]);
            }
            lemma_segment_bound(
                index_limit as int - last as int,
                tick_us as int,
                speed_millis as int,
            );
            assert((last as int) * big + (index_limit as int - last as int) * big == (index_limit
                as int) * big) by (nonlinear_arith);
            assert((index_limit as int) * big <= (usize::MAX as int) * big) by (nonlinear_arith)
                requires
                    index_limit as int <= usize::MAX as int,
                    big > 0,
            ;
            assert((usize::MAX as int) * big < u128::MAX as int) by (nonlinear_arith)
                requires
                    usize::MAX as int <= u64::MAX as int,
                    big == (u32::MAX as int) * 1_000_000,
            ;
            lemma_product_fits(index_limit as int - last as int, tick_us as int);
        }
        let ticks = index_limit - last;
        let segment: u128 = (ticks as u128) * (tick_us as u128) * 1_000_000 / (speed_millis
            as u128);
        counter + segment
    }

    /// The wall-clock length of the whole score at the given speed: the
    /// tempo map folded over every tick of the score. Speed 0 freezes the
    /// clock and yields the maximal duration.
    pub fn calculate_duration(&self, speed_millis: u64) -> (r: u128)
        requires
            self.wf(),
        ensures
            speed_millis == 0 ==> r == u128::MAX,
            speed_millis > 0 ==> r as int == duration_fold(
                self.changes(),
                self.ticks_per_beat() as int,
                speed_millis as int,
                self.length(),
                0,
                0,
            ),
    {
        let limit = self.len();
        self.calculate_duration_until(speed_millis, limit)
    }
}

} // verus!
