use vstd::prelude::*;

use crate::event::{Event, EventView, MetaEventView};
use crate::moment::{events_view, SimultaneousEvents};

verus! {

/// The number of ticks an event pair advances the playhead: its delta, except
/// that an end-of-track marker never advances it (its delta only pads the
/// file and must not inflate the grid).
pub open spec fn eff_delta(item: (u32, Event)) -> int {
    if item.1@ == EventView::Meta(MetaEventView::EndOfTrack) {
        0
    } else {
        item.0 as int
    }
}

/// The total number of ticks spanned by a delta-encoded event list: the sum
/// of all non-terminal deltas.
pub open spec fn ticks_spanned(items: Seq<(u32, Event)>) -> int
    decreases items.len(),
{
    if items.len() == 0 {
        0
    } else {
        ticks_spanned(items.drop_last()) + eff_delta(items.last())
    }
}

/// The length of the dense grid built from a delta-encoded event list:
/// one slot per tick from 0 through the last event's tick.
pub open spec fn grid_len_of(items: Seq<(u32, Event)>) -> int {
    1 + ticks_spanned(items)
}

/// The events of a delta-encoded list that fall on absolute tick `t`, in
/// input order. End-of-track markers are dropped.
pub open spec fn events_at_tick(items: Seq<(u32, Event)>, t: int) -> Seq<EventView>
    decreases items.len(),
{
    if items.len() == 0 {
        Seq::empty()
    } else {
        let last = items.last();
        events_at_tick(items.drop_last(), t) + if last.1@ != EventView::Meta(
            MetaEventView::EndOfTrack,
        ) && ticks_spanned(items) == t {
            seq![last.1@]
        } else {
            Seq::empty()
        }
    }
}

/// The tempo entries of one moment's event list: one `(tick, tempo)` pair per
/// tempo meta event, in event order.
pub open spec fn moment_tempos(events: Seq<EventView>, tick: usize) -> Seq<(usize, u32)>
    decreases events.len(),
{
    if events.len() == 0 {
        Seq::empty()
    } else {
        moment_tempos(events.drop_last(), tick) + match events.last().tempo_change() {
            Some(t) => seq![(tick, t)],
            None => Seq::empty(),
        }
    }
}

/// All tempo entries of a grid, in ascending tick order (and in event order
/// within one tick).
pub open spec fn grid_tempos(grid: Seq<Option<SimultaneousEvents>>) -> Seq<(usize, u32)>
    decreases grid.len(),
{
    if grid.len() == 0 {
        Seq::empty()
    } else {
        grid_tempos(grid.drop_last()) + match grid.last() {
            Some(se) => moment_tempos(se@, (grid.len() - 1) as usize),
            None => Seq::empty(),
        }
    }
}

/// Whether a tempo-entry list is ascending by tick.
pub open spec fn tempos_sorted(s: Seq<(usize, u32)>) -> bool {
    forall|i: int, j: int| 0 <= i < j < s.len() ==> (#[trigger] s[i]).0 <= (#[trigger] s[j]).0
}

/// A dense, zero-based representation of one track: slot `i` holds the
/// events at absolute tick `i`, if any, plus the derived ascending list of
/// tempo changes found in the track.
#[derive(Clone, Debug, PartialEq, Eq)]
pub struct Track {
    grid: Vec<Option<SimultaneousEvents>>,
    all_tempos: Vec<(usize, u32)>,
}

impl Track {
    /// The per-tick grid, as a mathematical sequence.
    pub closed spec fn grid(&self) -> Seq<Option<SimultaneousEvents>> {
        self.grid@
    }

    /// The derived tempo-change list, as a mathematical sequence.
    pub closed spec fn tempos(&self) -> Seq<(usize, u32)> {
        self.all_tempos@
    }

    /// The structural invariant: the grid covers at least tick 0, and the
    /// tempo list is exactly the one derived from the grid (hence ascending,
    /// with every tick inside the grid).
    pub open spec fn wf(&self) -> bool {
        &&& self.grid().len() >= 1
        &&& self.tempos() == grid_tempos(self.grid())
    }

    /// Whether some event occurs at tick `k` of this track.
    pub open spec fn has_event_at(&self, k: int) -> bool {
        0 <= k < self.grid().len() && self.grid()[k] is Some
    }
}

/// What it means for a track value to be the dense representation of a
/// delta-encoded event list: a well-formed grid of exactly one slot per tick
/// up to the span of the list, holding at each tick exactly the events that
/// fall there.
pub open spec fn grid_matches(grid: Seq<Option<SimultaneousEvents>>, items: Seq<(u32, Event)>) -> bool {
    forall|k: int|
        0 <= k < grid.len() ==> match #[trigger] grid[k] {
            Some(se) => se@ == events_at_tick(items, k) && se@.len() > 0,
            None => events_at_tick(items, k).len() == 0,
        }
}

/// A track value is the dense representation of a delta-encoded event list
/// when it is well formed, covers exactly the span of the list, and matches
/// it tick by tick.
pub open spec fn track_built_from(t: Track, items: Seq<(u32, Event)>) -> bool {
    &&& t.wf()
    &&& t.grid().len() == grid_len_of(items)
    &&& grid_matches(t.grid(), items)
}

/// Every tempo entry derived from one moment carries that moment's tick.
pub proof fn lemma_moment_tempos_tick(events: Seq<EventView>, tick: usize)
    ensures
        forall|k: int|
            0 <= k < moment_tempos(events, tick).len() ==> (#[trigger] moment_tempos(
                events,
                tick,
            )[k]).0 == tick,
    decreases events.len(),
{
    if events.len() > 0 {
        lemma_moment_tempos_tick(events.drop_last(), tick);
        let pre = moment_tempos(events.drop_last(), tick);
        let whole = moment_tempos(events, tick);
        assert forall|k: int| 0 <= k < whole.len() implies (#[trigger] whole[k]).0 == tick by {
            if k < pre.len() {
                assert(whole[k] == pre[k]);
            }
        }
    }
}

/// The tempo list derived from a grid is ascending by tick, and every entry's
/// tick lies inside the grid.
pub proof fn lemma_grid_tempos_wf(grid: Seq<Option<SimultaneousEvents>>)
    requires
        grid.len() <= usize::MAX,
    ensures
        tempos_sorted(grid_tempos(grid)),
        forall|k: int|
            0 <= k < grid_tempos(grid).len() ==> (#[trigger] grid_tempos(grid)[k]).0 < grid.len(),
    decreases grid.len(),
{
    if grid.len() > 0 {
        lemma_grid_tempos_wf(grid.drop_last());
        let pre = grid_tempos(grid.drop_last());
        let whole = grid_tempos(grid);
        let tick = (grid.len() - 1) as usize;
        let tail = match grid.last() {
            Some(se) => moment_tempos(se@, tick),
            None => Seq::<(usize, u32)>::empty(),
        };
        match grid.last() {
            Some(se) => {
                lemma_moment_tempos_tick(se@, tick);
            },
            None => {},
        }
        assert(whole == pre + tail);
        assert forall|k: int| 0 <= k < whole.len() implies (#[trigger] whole[k]).0
            < grid.len() by {
            if k < pre.len() {
                assert(whole[k] == pre[k]);
            } else {
                assert(whole[k] == tail[k - pre.len()]);
                assert(tail[k - pre.len()].0 == tick);
            }
        }
        assert forall|i: int, j: int| 0 <= i < j < whole.len() implies (#[trigger] whole[i]).0 <= (
        #[trigger] whole[j]).0 by {
            if i < pre.len() {
                assert(whole[i] == pre[i]);
                assert(pre[i].0 < grid.drop_last().len());
            } else {
                assert(whole[i] == tail[i - pre.len()]);
                assert(tail[i - pre.len()].0 == tick);
            }
            if j < pre.len() {
                assert(whole[j] == pre[j]);
            } else {
                assert(whole[j] == tail[j - pre.len()]);
                assert(tail[j - pre.len()].0 == tick);
            }
        }
    }
}

/// No delta-encoded list spans a negative number of ticks.
pub proof fn lemma_ticks_spanned_nonneg(items: Seq<(u32, Event)>)
    ensures
        ticks_spanned(items) >= 0,
    decreases items.len(),
{
    if items.len() > 0 {
        lemma_ticks_spanned_nonneg(items.drop_last());
    }
}

/// A prefix of a delta-encoded list never spans more ticks than the whole
/// list.
pub proof fn lemma_ticks_spanned_prefix(items: Seq<(u32, Event)>, j: int)
    requires
        0 <= j <= items.len(),
    ensures
        0 <= ticks_spanned(items.take(j)) <= ticks_spanned(items),
    decreases items.len() - j,
{
    if j == items.len() {
        assert(items.take(j) =~= items);
        lemma_ticks_spanned_nonneg(items);
    } else {
        lemma_ticks_spanned_prefix(items, j + 1);
        assert(items.take(j + 1).drop_last() =~= items.take(j));
        assert(items.take(j + 1).last() == items[j]);
        lemma_ticks_spanned_nonneg(items.take(j));
    }
}

/// No event of a delta-encoded list falls beyond the tick span of the list.
pub proof fn lemma_events_beyond_span(items: Seq<(u32, Event)>, t: int)
    requires
        t > ticks_spanned(items),
    ensures
        events_at_tick(items, t) == Seq::<EventView>::empty(),
    decreases items.len(),
{
    if items.len() > 0 {
        lemma_ticks_spanned_nonneg(items.drop_last());
        lemma_events_beyond_span(items.drop_last(), t);
        assert(events_at_tick(items, t) =~= Seq::<EventView>::empty());
    } else {
        assert(events_at_tick(items, t) =~= Seq::<EventView>::empty());
    }
}

/// A track's grid view is never longer than the machine's address range.
pub proof fn lemma_grid_len_bound(t: Track)
    ensures
        t.grid().len() <= usize::MAX,
{
    vstd::std_specs::vec::axiom_spec_len(&t.grid);
}

/// A non-terminal event of a delta-encoded list appears in the event list
/// of its own absolute tick.
pub proof fn lemma_event_appears(items: Seq<(u32, Event)>, j: int)
    requires
        0 <= j < items.len(),
        items[j].1@ != EventView::Meta(MetaEventView::EndOfTrack),
    ensures
        events_at_tick(items, ticks_spanned(items.take(j + 1))).contains(items[j].1@),
    decreases items.len(),
{
    if j == items.len() - 1 {
        assert(items.take(j + 1) =~= items);
        let whole = events_at_tick(items, ticks_spanned(items));
        let pre = events_at_tick(items.drop_last(), ticks_spanned(items));
        assert(whole[pre.len() as int] == items[j].1@);
    } else {
        lemma_event_appears(items.drop_last(), j);
        assert(items.drop_last().take(j + 1) =~= items.take(j + 1));
        let t = ticks_spanned(items.take(j + 1));
        let pre = events_at_tick(items.drop_last(), t);
        let whole = events_at_tick(items, t);
        let m = choose|m: int| 0 <= m < pre.len() && pre[m] == items[j].1@;
        assert(whole[m] == items[j].1@);
    }
}

/// A moment that holds a tempo event yields a tempo entry.
pub proof fn lemma_moment_tempos_has(events: Seq<EventView>, tick: usize, i: int)
    requires
        0 <= i < events.len(),
        events[i].tempo_change() is Some,
    ensures
        moment_tempos(events, tick).len() > 0,
    decreases events.len(),
{
    if i < events.len() - 1 {
        lemma_moment_tempos_has(events.drop_last(), tick, i);
    }
}

/// A grid slot that holds a tempo event yields a tempo entry for the whole
/// grid.
pub proof fn lemma_grid_tempos_has(grid: Seq<Option<SimultaneousEvents>>, t: int, i: int)
    requires
        0 <= t < grid.len(),
        grid[t] is Some,
        0 <= i < grid[t]->Some_0@.len(),
        grid[t]->Some_0@[i].tempo_change() is Some,
    ensures
        grid_tempos(grid).len() > 0,
    decreases grid.len(),
{
    if t == grid.len() - 1 {
        lemma_moment_tempos_has(grid[t]->Some_0@, (grid.len() - 1) as usize, i);
    } else {
        lemma_grid_tempos_has(grid.drop_last(), t, i);
    }
}

/// A track that was built from an event list holding a tempo event carries
/// at least one tempo entry.
pub proof fn lemma_track_tempos_complete(t: Track, items: Seq<(u32, Event)>, j: int)
    requires
        track_built_from(t, items),
        0 <= j < items.len(),
        items[j].1@.tempo_change() is Some,
    ensures
        t.tempos().len() > 0,
{
    lemma_event_appears(items, j);
    lemma_ticks_spanned_prefix(items, j + 1);
    let tk = ticks_spanned(items.take(j + 1));
    let es = events_at_tick(items, tk);
    let m = choose|m: int| 0 <= m < es.len() && es[m] == items[j].1@;
    match t.grid()[tk] {
        Some(se) => {
            lemma_grid_tempos_has(t.grid(), tk, m);
        },
        None => {},
    }
}

/// Every tempo entry of a moment comes from a tempo event in it.
pub proof fn lemma_moment_tempos_sound(events: Seq<EventView>, tick: usize)
    requires
        moment_tempos(events, tick).len() > 0,
    ensures
        exists|m: int| 0 <= m < events.len() && (#[trigger] events[m]).tempo_change() is Some,
    decreases events.len(),
{
    if events.len() > 0 {
        match events.last().tempo_change() {
            Some(_) => {
                assert(events[events.len() - 1].tempo_change() is Some);
            },
            None => {
                lemma_moment_tempos_sound(events.drop_last(), tick);
                let m = choose|m: int|
                    0 <= m < events.drop_last().len() && (#[trigger] events.drop_last()[m]).tempo_change() is Some;
                assert(events[m].tempo_change() is Some);
            },
        }
    }
}

/// Every tempo entry of a grid comes from a tempo event in one of its
/// moments.
pub proof fn lemma_grid_tempos_sound(grid: Seq<Option<SimultaneousEvents>>)
    requires
        grid_tempos(grid).len() > 0,
    ensures
        exists|t: int, m: int|
            #![trigger grid[t]->Some_0@[m]]
            0 <= t < grid.len() && grid[t] is Some && 0 <= m < grid[t]->Some_0@.len()
                && grid[t]->Some_0@[m].tempo_change() is Some,
    decreases grid.len(),
{
    if grid.len() > 0 {
        let tail = match grid.last() {
            Some(se) => moment_tempos(se@, (grid.len() - 1) as usize),
            None => Seq::<(usize, u32)>::empty(),
        };
        if tail.len() > 0 {
            match grid.last() {
                Some(se) => {
                    lemma_moment_tempos_sound(se@, (grid.len() - 1) as usize);
                    let m = choose|m: int|
                        0 <= m < se@.len() && (#[trigger] se@[m]).tempo_change() is Some;
                    assert(grid[grid.len() - 1] is Some);
                    assert(grid[grid.len() - 1]->Some_0@[m].tempo_change() is Some);
                },
                None => {},
            }
        } else {
            lemma_grid_tempos_sound(grid.drop_last());
            let (t, m) = choose|t: int, m: int|
                #![trigger grid.drop_last()[t]->Some_0@[m]]
                0 <= t < grid.drop_last().len() && grid.drop_last()[t] is Some && 0 <= m
                    < grid.drop_last()[t]->Some_0@.len()
                    && grid.drop_last()[t]->Some_0@[m].tempo_change() is Some;
            assert(grid[t] is Some && grid[t]->Some_0@[m].tempo_change() is Some);
        }
    }
}

/// Every event at a tick of the built grid is the view of one of the input
/// events.
pub proof fn lemma_events_at_tick_sound(items: Seq<(u32, Event)>, t: int, m: int)
    requires
        0 <= m < events_at_tick(items, t).len(),
    ensures
        exists|j: int|
            0 <= j < items.len() && (#[trigger] items[j].1)@ == events_at_tick(items, t)[m],
    decreases items.len(),
{
    if items.len() > 0 {
        let pre = events_at_tick(items.drop_last(), t);
        if m < pre.len() {
            lemma_events_at_tick_sound(items.drop_last(), t, m);
            let j = choose|j: int|
                0 <= j < items.drop_last().len() && (#[trigger] items.drop_last()[j].1)@ == pre[m];
            assert(items[j].1@ == events_at_tick(items, t)[m]);
        } else {
            assert(items[items.len() - 1].1@ == events_at_tick(items, t)[m]);
        }
    }
}

impl Track {
    /// Build the dense per-tick representation of one track from its
    /// delta-encoded event list, distributing each event to its absolute
    /// tick and deriving the list of tempo changes.
    #[verifier::loop_isolation(false)]
    pub fn from_events(items: &Vec<(u32, Event)>) -> (r: Track)
        requires
            grid_len_of(items@) <= usize::MAX,
        ensures
            track_built_from(r, items@),
    {
        let n = items.len();

        // Total tick span, so each position the distribution reaches is
        // known to fit.
        let mut total: usize = 0;
        let mut j: usize = 0;
        while j < n
            invariant
                0 <= j <= n,
                total == ticks_spanned(items@.take(j as int)),
            decreases n - j,
        {
            proof {
                lemma_ticks_spanned_prefix(items@, j + 1);
                assert(items@.take(j + 1).drop_last() =~= items@.take(j as int));
                assert(items@.take(j + 1).last() == items@[j as int]);
            }
            if !items[j].1.is_end_of_track() {
                total = total + items[j].0 as usize;
            }
            j = j + 1;
        }
        proof {
            assert(items@.take(n as int) =~= items@);
        }

        // Distribute the events. Positions are non-decreasing, so the grid
        // can be grown front to back while one pending moment accumulates
        // the events of the tick currently being reached.
        let mut grid: Vec<Option<SimultaneousEvents>> = Vec::new();
        let mut cur: Vec<Event> = Vec::new();
        let mut pos: usize = 0;
        let mut j: usize = 0;
        while j < n
            invariant
                0 <= j <= n,
                pos == ticks_spanned(items@.take(j as int)),
                grid@.len() == pos,
                events_view(cur@) == events_at_tick(items@.take(j as int), pos as int),
                forall|t: int|
                    0 <= t < pos ==> match #[trigger] grid@[t] {
                        Some(se) => se@ == events_at_tick(items@.take(j as int), t) && se@.len()
                            > 0,
                        None => events_at_tick(items@.take(j as int), t).len() == 0,
                    },
            decreases n - j,
        {
            proof {
                lemma_ticks_spanned_prefix(items@, j as int);
                lemma_ticks_spanned_prefix(items@, j + 1);
                assert(items@.take(j + 1).drop_last() =~= items@.take(j as int));
                assert(items@.take(j + 1).last() == items@[j as int]);
            }
            let is_end = items[j].1.is_end_of_track();
            if !is_end {
                let newpos = pos + items[j].0 as usize;
                assert(newpos == ticks_spanned(items@.take(j + 1)));
                if newpos > pos {
                    // The pending moment is complete: commit it, then pad
                    // the empty ticks up to the new position.
                    if cur.len() > 0 {
                        grid.push(Some(SimultaneousEvents::new(cur)));
                        cur = Vec::new();
                    } else {
                        grid.push(None);
                    }
                    while grid.len() < newpos
                        invariant
                            pos + 1 <= grid@.len() <= newpos,
                            forall|t: int|
                                0 <= t <= pos ==> match #[trigger] grid@[t] {
                                    Some(se) => se@ == events_at_tick(items@.take(j as int), t)
                                        && se@.len() > 0,
                                    None => events_at_tick(items@.take(j as int), t).len() == 0,
                                },
                            forall|t: int| pos < t < grid@.len() ==> #[trigger] grid@[t] is None,
                        decreases newpos - grid@.len(),
                    {
                        grid.push(None);
                    }
                    proof {
                        assert forall|t: int| pos < t < newpos implies events_at_tick(
                            items@.take(j as int),
                            t,
                        ).len() == 0 by {
                            lemma_events_beyond_span(items@.take(j as int), t);
                        }
                        lemma_events_beyond_span(items@.take(j as int), newpos as int);
                        assert(events_view(Seq::<Event>::empty()) =~= Seq::<EventView>::empty());
                    }
                    pos = newpos;
                    proof {
                        assert forall|t: int| 0 <= t < pos implies match #[trigger] grid@[t] {
                            Some(se) => se@ == events_at_tick(items@.take(j as int), t)
                                && se@.len() > 0,
                            None => events_at_tick(items@.take(j as int), t).len() == 0,
                        } by {}
                    }
                }
                cur.push(items[j].1.duplicate());
                proof {
                    assert(events_view(cur@) =~= events_at_tick(
                        items@.take(j + 1),
                        pos as int,
                    ));
                    assert forall|t: int| 0 <= t < pos implies events_at_tick(items@.take(j + 1), t)
                        == events_at_tick(items@.take(j as int), t) by {
                        assert(events_at_tick(items@.take(j + 1), t) =~= events_at_tick(
                            items@.take(j as int),
                            t,
                        ));
                    }
                }
            } else {
                proof {
                    assert forall|t: int| 0 <= t <= pos implies events_at_tick(
                        items@.take(j + 1),
                        t,
                    ) == events_at_tick(items@.take(j as int), t) by {
                        assert(events_at_tick(items@.take(j + 1), t) =~= events_at_tick(
                            items@.take(j as int),
                            t,
                        ));
                    }
                }
            }
            j = j + 1;
        }
        proof {
            assert(items@.take(n as int) =~= items@);
        }

        // Commit the final pending moment: the grid then covers every tick
        // from 0 through the span of the whole list.
        if cur.len() > 0 {
            grid.push(Some(SimultaneousEvents::new(cur)));
        } else {
            grid.push(None);
        }
        assert(grid@.len() == grid_len_of(items@));

        // Derive the tempo list from the finished grid.
        let all_tempos = tempos_of_grid(&grid);

        Track { grid, all_tempos }
    }
}

impl Track {
    /// Concatenate another track's grid after this one's, emptying the
    /// other track. Every tick of the other track lands offset by this
    /// track's former length, and the tempo list is rebuilt from the merged
    /// grid, so the merged track again carries every tempo change it holds.
    pub fn append(&mut self, other: &mut Track)
        requires
            old(self).wf(),
        ensures
            final(self).wf(),
            final(self).grid() == old(self).grid() + old(other).grid(),
            final(other).grid() == Seq::<Option<SimultaneousEvents>>::empty(),
            final(other).tempos() == Seq::<(usize, u32)>::empty(),
    {
        self.grid.append(&mut other.grid);
        self.all_tempos = tempos_of_grid(&self.grid);
        other.all_tempos = Vec::new();
    }

    /// The number of ticks this track covers.
    pub fn len(&self) -> (r: usize)
        ensures
            r == self.grid().len(),
    {
        self.grid.len()
    }

    /// The moment slot at the given tick: nothing at all beyond the end of
    /// the track, otherwise the slot, which itself may be empty.
    pub fn get_events(&self, index: usize) -> (r: Option<&Option<SimultaneousEvents>>)
        ensures
            match r {
                Some(slot) => index < self.grid().len() && *slot == self.grid()[index as int],
                None => index >= self.grid().len(),
            },
    {
        if index < self.grid.len() {
            Some(&self.grid[index])
        } else {
            None
        }
    }

    /// The derived list of the track's tempo changes, ascending by tick.
    pub fn get_all_tempos(&self) -> (r: &[(usize, u32)])
        ensures
            r@ == self.tempos(),
    {
        self.all_tempos.as_slice()
    }
}

/// The tick of the last event of a grid, or -1 if the grid holds no event.
pub open spec fn last_event_tick(grid: Seq<Option<SimultaneousEvents>>) -> int
    decreases grid.len(),
{
    if grid.len() == 0 {
        -1
    } else if grid.last() is Some {
        grid.len() - 1
    } else {
        last_event_tick(grid.drop_last())
    }
}

impl Track {
    /// A lookup table for skip-ahead scheduling: entry `t` is the distance
    /// from tick `t` to the next tick strictly after it that holds an
    /// event. The table covers every tick before the track's last event;
    /// from the last event on there is no next event to measure.
    #[verifier::loop_isolation(false)]
    pub fn calculate_ticks_until_next_event_codex(&self) -> (r: Vec<usize>)
        ensures
            r@.len() == if last_event_tick(self.grid()) >= 0 {
                last_event_tick(self.grid())
            } else {
                0
            },
            forall|t: int|
                0 <= t < r@.len() ==> {
                    &&& 1 <= #[trigger] r@[t]
                    &&& self.has_event_at(t + r@[t])
                    &&& forall|m: int| t < m < t + r@[t] ==> !self.has_event_at(m)
                },
    {
        let mut r: Vec<usize> = Vec::new();
        let mut filled: usize = 0;
        let mut i: usize = 0;
        proof {
            assert(self.grid().take(0) =~= Seq::<Option<SimultaneousEvents>>::empty());
        }
        while i < self.grid.len()
            invariant
                0 <= i <= self.grid().len(),
                filled <= i,
                r@.len() == filled,
                filled == (if last_event_tick(self.grid().take(i as int)) >= 0 {
                    last_event_tick(self.grid().take(i as int))
                } else {
                    0
                }),
                forall|m: int| filled < m < i ==> !((#[trigger] self.grid()[m]) is Some),
                forall|t: int|
                    0 <= t < filled ==> {
                        &&& 1 <= #[trigger] r@[t]
                        &&& self.has_event_at(t + r@[t])
                        &&& forall|m: int| t < m < t + r@[t] ==> !self.has_event_at(m)
                    },
            decreases self.grid().len() - i,
        {
            proof {
                assert(self.grid().take(i + 1).drop_last() =~= self.grid().take(i as int));
                assert(self.grid().take(i + 1).last() == self.grid()[i as int]);
            }
            if self.grid[i].is_some() {
                let mut t = filled;
                while t < i
                    invariant
                        filled <= t <= i,
                        r@.len() == t,
                        self.grid()[i as int] is Some,
                        forall|m: int| filled < m < i ==> !((#[trigger] self.grid()[m]) is Some),
                        forall|u: int|
                            0 <= u < filled ==> {
                                &&& 1 <= #[trigger] r@[u]
                                &&& self.has_event_at(u + r@[u])
                                &&& forall|m: int| u < m < u + r@[u] ==> !self.has_event_at(m)
                            },
                        forall|u: int|
                            filled <= u < t ==> {
                                &&& #[trigger] r@[u] == i - u
                            },
                    decreases i - t,
                {
                    r.push(i - t);
                    t = t + 1;
                }
                proof {
                    assert forall|u: int| 0 <= u < i implies {
                        &&& 1 <= #[trigger] r@[u]
                        &&& self.has_event_at(u + r@[u])
                        &&& forall|m: int| u < m < u + r@[u] ==> !self.has_event_at(m)
                    } by {
                        if filled <= u {
                            assert(r@[u] == i - u);
                        }
                    }
                }
                filled = i;
            }
            i = i + 1;
        }
        proof {
            assert(self.grid().take(self.grid().len() as int) =~= self.grid());
        }
        r
    }
}

/// Concatenating two track grids keeps every moment of the first in place
/// and moves every moment of the second up by the length of the first: the
/// merged grid spans exactly the sum of the two lengths.
pub proof fn lemma_sequential_merge(a: Seq<Option<SimultaneousEvents>>, b: Seq<
    Option<SimultaneousEvents>,
>)
    ensures
        (a + b).len() == a.len() + b.len(),
        forall|t: int| 0 <= t < a.len() ==> (a + b)[t] == a[t],
        forall|t: int| 0 <= t < b.len() ==> (a + b)[a.len() + t] == b[t],
{
}

/// Collect every tempo entry of a finished grid, in tick order.
#[verifier::loop_isolation(false)]
fn tempos_of_grid(grid: &Vec<Option<SimultaneousEvents>>) -> (r: Vec<(usize, u32)>)
    ensures
        r@ == grid_tempos(grid@),
{
    let mut r: Vec<(usize, u32)> = Vec::new();
    let mut i: usize = 0;
    while i < grid.len()
        invariant
            0 <= i <= grid@.len(),
            r@ == grid_tempos(grid@.take(i as int)),
        decreases grid@.len() - i,
    {
        proof {
            assert(grid@.take(i + 1).drop_last() =~= grid@.take(i as int));
            assert(grid@.take(i + 1).last() == grid@[i as int]);
        }
        match &grid[i] {
            Some(se) => {
                let ghost base = r@;
                let mut k: usize = 0;
                while k < se.events.len()
                    invariant
                        0 <= k <= se.events@.len(),
                        r@ == base + moment_tempos(se@.take(k as int), i),
                    decreases se.events@.len() - k,
                {
                    proof {
                        assert(se@.take(k + 1).drop_last() =~= se@.take(k as int));
                        assert(se@.take(k + 1).last() == se@[k as int]);
                    }
                    match se.events[k].tempo_change() {
                        Some(t) => {
                            r.push((i, t));
                        },
                        None => {},
                    }
                    proof {
                        assert(r@ =~= base + moment_tempos(se@.take(k + 1), i));
                    }
                    k = k + 1;
                }
                proof {
                    assert(se@.take(se@.len() as int) =~= se@);
                    assert(r@ =~= grid_tempos(grid@.take(i + 1)));
                }
            },
            None => {
                proof {
                    assert(r@ =~= grid_tempos(grid@.take(i + 1)));
                }
            },
        }
        i = i + 1;
    }
    proof {
        assert(grid@.take(grid@.len() as int) =~= grid@);
    }
    r
}

} // verus!
