use vstd::prelude::*;
use crate::analysis::{analyze_image, bead_analysis, BeadAnalysis, DEFAULT_FILTER_PERCENT};
use crate::color::Rgb;
use crate::palette::{
    after_match, after_sample, entry_dist, lemma_nearest_is_first_minimum,
    lemma_plus_keeps_running_sum, lemma_running_sum_has_room, match_outcome, nearest, Palette,
    PaletteEntry, PaletteMatch, SAMPLE_LIMIT,
};

verus! {

/// The number of physical output tubes.
pub const TUBE_COUNT: usize = 30;

/// The number of color clusters that the sorter can learn.
pub const PALETTE_SIZE: usize = 128;

/// The Lab distance below which a bead belongs to a known cluster.
pub const MATCH_THRESHOLD: u32 = 15;

/// The mark of a cluster that has no tube yet.
pub const UNASSIGNED: u8 = 0xFF;

/// `heapless::Vec`, a vector of fixed capacity that holds its items in place. Nothing is
/// known of a value of it but what the functions below say.
#[verifier::external_type_specification]
#[verifier::external_body]
#[verifier::reject_recursive_types(T)]
pub struct ExRoster<T, const N: usize>(heapless::Vec<T, N>);

/// The entries that a tube roster holds, in the order in which they were appended.
pub uninterp spec fn roster_entries(v: heapless::Vec<PaletteEntry, 30>) -> Seq<PaletteEntry>;

/// `heapless::Vec::new`: the new roster holds nothing.
#[verifier::external_body]
fn roster_new() -> (v: heapless::Vec<PaletteEntry, 30>)
    ensures
        roster_entries(v) == Seq::<PaletteEntry>::empty(),
{
    heapless::Vec::new()
}

/// The length of the slice that `heapless::Vec` dereferences to: the number of entries.
#[verifier::external_body]
fn roster_len(v: &heapless::Vec<PaletteEntry, 30>) -> (n: usize)
    ensures
        n == roster_entries(*v).len(),
{
    v.len()
}

/// `heapless::Vec::push`: appends the entry when fewer than 30 are held and says so;
/// otherwise leaves the roster as it was.
#[verifier::external_body]
fn roster_push(v: &mut heapless::Vec<PaletteEntry, 30>, e: PaletteEntry) -> (appended: bool)
    ensures
        appended == (roster_entries(*old(v)).len() < 30),
        roster_entries(*final(v)) == if roster_entries(*old(v)).len() < 30 {
            roster_entries(*old(v)).push(e)
        } else {
            roster_entries(*old(v))
        },
    no_unwind
{
    v.push(e).is_ok()
}

/// Indexing the slice that `heapless::Vec` dereferences to: a copy of entry `i`.
#[verifier::external_body]
fn roster_get(v: &heapless::Vec<PaletteEntry, 30>, i: usize) -> (e: PaletteEntry)
    requires
        i < roster_entries(*v).len(),
    ensures
        e == roster_entries(*v)[i as int],
{
    v[i]
}

/// Assigning through the mutable slice that `heapless::Vec` dereferences to: entry `i`
/// is replaced, the others stay.
#[verifier::external_body]
fn roster_set(v: &mut heapless::Vec<PaletteEntry, 30>, i: usize, e: PaletteEntry)
    requires
        i < roster_entries(*old(v)).len(),
    ensures
        roster_entries(*final(v)) == roster_entries(*old(v)).update(i as int, e),
    no_unwind
{
    v[i] = e;
}

/// What a sorter has learned: the color clusters, the aggregate color of each tube in
/// use, and for each palette slot the tube of its cluster or `UNASSIGNED`.
pub struct SorterState {
    pub clusters: Seq<PaletteEntry>,
    pub tubes: Seq<PaletteEntry>,
    pub tube_of: Seq<u8>,
}

impl SorterState {
    /// No more tubes than exist, every tube made of samples, and every assignment
    /// names a tube in use.
    pub open spec fn valid(self) -> bool {
        &&& self.clusters.len() <= PALETTE_SIZE
        &&& self.tubes.len() <= TUBE_COUNT
        &&& self.tube_of.len() == PALETTE_SIZE
        &&& forall|t: int| 0 <= t < self.tubes.len() ==> (#[trigger] self.tubes[t]).is_running_sum()
        &&& forall|i: int|
            0 <= i < self.tube_of.len() ==> (#[trigger] self.tube_of[i]) == UNASSIGNED
                || self.tube_of[i] < self.tubes.len()
    }

    /// Every cluster has a tube and no other slot has one.
    pub open spec fn fully_assigned(self) -> bool {
        forall|i: int|
            0 <= i < self.tube_of.len() ==> ((#[trigger] self.tube_of[i]) != UNASSIGNED <==> i
                < self.clusters.len())
    }

    /// Every cluster and every tube can take in one more sample.
    pub open spec fn has_headroom(self) -> bool {
        &&& forall|i: int|
            0 <= i < self.clusters.len() ==> (#[trigger] self.clusters[i]).count < SAMPLE_LIMIT
        &&& forall|t: int| 0 <= t < self.tubes.len() ==> (#[trigger] self.tubes[t]).count < SAMPLE_LIMIT
    }

    /// The state of a sorter that has seen nothing.
    pub open spec fn initial() -> SorterState {
        SorterState {
            clusters: Seq::empty(),
            tubes: Seq::empty(),
            tube_of: Seq::new(PALETTE_SIZE as nat, |i: int| UNASSIGNED),
        }
    }
}

/// The tube for a sample of cluster `slot`, and the roster before the sample is
/// accumulated: the tube that the cluster already has; else a new tube seeded with the
/// sample while fewer than `TUBE_COUNT` are in use; else the tube in use whose running
/// average is nearest in Lab distance, the first of several at the same distance.
pub open spec fn tube_choice(s: SorterState, slot: int, c: Rgb, var: u32) -> (Seq<PaletteEntry>, int) {
    if s.tube_of[slot] != UNASSIGNED {
        (s.tubes, s.tube_of[slot] as int)
    } else if s.tubes.len() < TUBE_COUNT {
        (s.tubes.push(PaletteEntry::seeded(c, var)), s.tubes.len() as int)
    } else {
        (s.tubes, nearest(s.tubes, c, s.tubes.len() as int))
    }
}

/// One sort cycle on an analysed bead: the sample is matched against the palette; when
/// the palette is full and nothing matches, nothing changes and there is no tube;
/// otherwise the sample is accumulated into its cluster, the cluster's tube is chosen
/// and recorded, and the sample is accumulated into that tube.
pub open spec fn sort_step(s: SorterState, a: BeadAnalysis) -> (SorterState, Option<u8>) {
    let c = a.average_color;
    let var = a.variance;
    let outcome = match_outcome(s.clusters, PALETTE_SIZE as int, c, MATCH_THRESHOLD as int);
    if outcome is Full {
        (s, None)
    } else {
        let slot = match outcome {
            PaletteMatch::Match(i) => i as int,
            PaletteMatch::NewEntry(i) => i as int,
            PaletteMatch::Full => 0,
        };
        let clusters = after_sample(
            after_match(s.clusters, PALETTE_SIZE as int, c, var, MATCH_THRESHOLD as int),
            slot,
            c,
            var,
        );
        let (roster, tube) = tube_choice(s, slot, c, var);
        (
            SorterState {
                clusters,
                tubes: after_sample(roster, tube, c, var),
                tube_of: s.tube_of.update(slot, tube as u8),
            },
            Some(tube as u8),
        )
    }
}

/// One sort cycle on a frame: a frame without a bead changes nothing and has no tube.
pub open spec fn classify(s: SorterState, data: Seq<u8>, width: int, height: int) -> (
    SorterState,
    Option<u8>,
) {
    match bead_analysis(data, width, height, DEFAULT_FILTER_PERCENT as int) {
        Some(a) => sort_step(s, a),
        None => (s, None),
    }
}

/// Maps beads to tubes: learns color clusters online and gives each cluster a tube.
pub struct BeadSorter {
    palette: Palette<PALETTE_SIZE>,
    tubes: heapless::Vec<PaletteEntry, 30>,
    palette_to_tube: [u8; PALETTE_SIZE],
}

impl View for BeadSorter {
    type V = SorterState;

    closed spec fn view(&self) -> SorterState {
        SorterState {
            clusters: self.palette@,
            tubes: roster_entries(self.tubes),
            tube_of: self.palette_to_tube@,
        }
    }
}

impl BeadSorter {
    /// The state is valid at all times.
    #[verifier::type_invariant]
    spec fn consistent(self) -> bool {
        self@.valid()
    }

    /// A sorter that has seen nothing.
    pub fn new() -> (s: BeadSorter)
        ensures
            s@ == SorterState::initial(),
    {
        let s = BeadSorter {
            palette: Palette::new(),
            tubes: roster_new(),
            palette_to_tube: [UNASSIGNED; PALETTE_SIZE],
        };
        assert(s@.tube_of =~= SorterState::initial().tube_of);
        s
    }

    /// Whether every cluster and every tube can take in one more sample.
    pub fn has_headroom(&self) -> (ok: bool)
        ensures
            ok == self@.has_headroom(),
    {
        let mut i: usize = 0;
        let clusters: usize = self.palette.len();
        while i < clusters
            invariant
                i <= clusters,
                clusters == self.palette@.len(),
                forall|k: int| 0 <= k < i ==> (#[trigger] self.palette@[k]).count < SAMPLE_LIMIT,
            decreases clusters - i,
        {
            match self.palette.get_entry(i) {
                Some(e) => {
                    if e.count >= SAMPLE_LIMIT {
                        assert(self@.clusters[i as int].count >= SAMPLE_LIMIT);
                        return false;
                    }
                },
                None => {},
            }
            i = i + 1;
        }
        let tubes: usize = roster_len(&self.tubes);
        let mut t: usize = 0;
        while t < tubes
            invariant
                t <= tubes,
                tubes == roster_entries(self.tubes).len(),
                forall|k: int|
                    0 <= k < t ==> (#[trigger] roster_entries(self.tubes)[k]).count < SAMPLE_LIMIT,
            decreases tubes - t,
        {
            if roster_get(&self.tubes, t).count >= SAMPLE_LIMIT {
                assert(self@.tubes[t as int].count >= SAMPLE_LIMIT);
                return false;
            }
            t = t + 1;
        }
        true
    }

    /// The tube in use whose running average is nearest to `c` in Lab distance.
    fn nearest_tube(&self, c: &Rgb) -> (t: usize)
        requires
            roster_entries(self.tubes).len() > 0,
        ensures
            t == nearest(roster_entries(self.tubes), *c, roster_entries(self.tubes).len() as int),
            t < roster_entries(self.tubes).len(),
    {
        let n: usize = roster_len(&self.tubes);
        let ghost entries = roster_entries(self.tubes);
        let mut best: usize = 0;
        let mut min_d: u32 = u32::MAX;
        let mut i: usize = 0;
        while i < n
            invariant
                i <= n,
                n == entries.len(),
                entries == roster_entries(self.tubes),
                i > 0 ==> best == nearest(entries, *c, i as int) && best < i && min_d
                    == entry_dist(entries[best as int], *c),
            decreases n - i,
        {
            let d: u32 = c.dist_lab(&roster_get(&self.tubes, i).avg().0);
            if i == 0 || d < min_d {
                min_d = d;
                best = i;
            }
            i = i + 1;
        }
        best
    }

    /// Runs one sort cycle on a frame of `w` by `h` big-endian 5/6/5 pixels and
    /// returns the tube for the bead, or `None` when the frame shows no bead or the
    /// palette is full and nothing matches.
    pub fn get_tube_for_image(&mut self, buf_bytes: &[u8], w: usize, h: usize) -> (tube: Option<u8>)
        requires
            old(self)@.has_headroom(),
        ensures
            (final(self)@, tube) == classify(old(self)@, buf_bytes@, w as int, h as int),
            final(self)@.valid(),
    {
        proof {
            use_type_invariant(&*self);
        }
        let analysis = match analyze_image(buf_bytes, w, h) {
            Some(a) => a,
            None => {
                return None;
            },
        };
        let color = analysis.average_color;
        let variance: u32 = analysis.variance;
        let ghost before = self@;

        let p_idx: usize = match self.palette.match_color(&color, variance, MATCH_THRESHOLD) {
            PaletteMatch::Match(i) => i,
            PaletteMatch::NewEntry(i) => i,
            PaletteMatch::Full => {
                return None;
            },
        };
        self.palette.add_sample(p_idx, &color, variance);

        let tid: usize = if self.palette_to_tube[p_idx] != UNASSIGNED {
            self.palette_to_tube[p_idx] as usize
        } else if roster_len(&self.tubes) < TUBE_COUNT {
            let opened: usize = roster_len(&self.tubes);
            roster_push(&mut self.tubes, PaletteEntry::new(color, variance));
            opened
        } else {
            self.nearest_tube(&color)
        };
        assert((roster_entries(self.tubes), tid as int) == tube_choice(
            before,
            p_idx as int,
            color,
            variance,
        ));

        self.palette_to_tube[p_idx] = tid as u8;

        let mut entry: PaletteEntry = roster_get(&self.tubes, tid);
        proof {
            lemma_running_sum_has_room(entry, color, variance);
        }
        entry.add(color, variance);
        roster_set(&mut self.tubes, tid, entry);

        Some(tid as u8)
    }
}


/// A sort cycle never opens a tube beyond the last one. It keeps a valid state valid,
/// never closes a tube, and returns a tube that is in use. Once all tubes are in use the
/// roster stays as long as it is, and a bead that starts a new cluster goes to the tube
/// in use that is nearest to it in Lab distance: no tube is nearer, and every tube
/// before it is farther.
pub proof fn lemma_roster_stays_within_capacity(s: SorterState, a: BeadAnalysis)
    requires
        s.valid(),
        s.has_headroom(),
    ensures
        sort_step(s, a).0.valid(),
        s.tubes.len() <= sort_step(s, a).0.tubes.len() <= TUBE_COUNT,
        sort_step(s, a).1 matches Some(t) ==> t < sort_step(s, a).0.tubes.len(),
        s.fully_assigned() ==> sort_step(s, a).0.fully_assigned(),
        s.tubes.len() == TUBE_COUNT && s.fully_assigned() && match_outcome(
            s.clusters,
            PALETTE_SIZE as int,
            a.average_color,
            MATCH_THRESHOLD as int,
        ) is NewEntry ==> {
            let t = nearest(s.tubes, a.average_color, TUBE_COUNT as int);
            &&& sort_step(s, a).1 == Some(t as u8)
            &&& 0 <= t < TUBE_COUNT
            &&& forall|u: int|
                0 <= u < TUBE_COUNT ==> entry_dist(s.tubes[t], a.average_color) <= entry_dist(
                    #[trigger] s.tubes[u],
                    a.average_color,
                )
            &&& forall|u: int|
                0 <= u < t ==> entry_dist(s.tubes[t], a.average_color) < entry_dist(
                    #[trigger] s.tubes[u],
                    a.average_color,
                )
        },
{
    let c = a.average_color;
    let var = a.variance;
    let outcome = match_outcome(s.clusters, PALETTE_SIZE as int, c, MATCH_THRESHOLD as int);
    if s.clusters.len() > 0 {
        lemma_nearest_is_first_minimum(s.clusters, c, s.clusters.len() as int);
    }
    if s.tubes.len() > 0 {
        lemma_nearest_is_first_minimum(s.tubes, c, s.tubes.len() as int);
    }
    if !(outcome is Full) {
        let slot = match outcome {
            PaletteMatch::Match(i) => i as int,
            PaletteMatch::NewEntry(i) => i as int,
            PaletteMatch::Full => 0,
        };
        assert(0 <= slot < PALETTE_SIZE);
        let (roster, tube) = tube_choice(s, slot, c, var);
        assert(0 <= tube < roster.len() <= TUBE_COUNT);
        assert(forall|t: int| 0 <= t < roster.len() ==> (#[trigger] roster[t]).is_running_sum());
        assert(roster[tube].count < SAMPLE_LIMIT);
        lemma_plus_keeps_running_sum(roster[tube], c, var);
        let after = sort_step(s, a).0;
        assert(after.tubes == roster.update(tube, roster[tube].plus(c, var)));
        assert(after.tube_of == s.tube_of.update(slot, tube as u8));
        assert forall|i: int| 0 <= i < after.tube_of.len() implies (#[trigger] after.tube_of[i])
            == UNASSIGNED || after.tube_of[i] < after.tubes.len() by {
            if i != slot {
                assert(after.tube_of[i] == s.tube_of[i]);
            }
        }
        if s.fully_assigned() {
            assert forall|i: int| 0 <= i < after.tube_of.len() implies ((
            #[trigger] after.tube_of[i]) != UNASSIGNED <==> i < after.clusters.len()) by {
                if i != slot {
                    assert(after.tube_of[i] == s.tube_of[i]);
                }
            }
        }
    }
}

} // verus!
