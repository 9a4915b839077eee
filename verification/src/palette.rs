use vstd::prelude::*;
use crate::color::Rgb;
use crate::lab::color_dist;

verus! {

/// What presenting a sample to a palette came to.
#[derive(Debug, Clone, Copy, PartialEq, Eq, Structural)]
pub enum PaletteMatch {
    /// The sample is within the threshold of the entry at this index.
    Match(usize),
    /// No entry was near enough; a new entry was created at this index.
    NewEntry(usize),
    /// No entry was near enough and the palette has no free slot.
    Full,
}

/// The largest number of samples that an entry can take in: 255 times this is the
/// largest value of a channel sum.
pub const SAMPLE_LIMIT: u32 = 16_843_009;

/// Running sums of the colors and variances of the samples of one cluster.
#[derive(Debug, Clone, Copy, PartialEq, Eq, Structural)]
pub struct PaletteEntry {
    pub sum_r: u32,
    pub sum_g: u32,
    pub sum_b: u32,
    pub sum_var: u64,
    pub count: u32,
}

impl PaletteEntry {
    /// The entry that holds the single sample `(rgb, var)`.
    pub open spec fn seeded(rgb: Rgb, var: u32) -> PaletteEntry {
        PaletteEntry {
            sum_r: rgb.r as u32,
            sum_g: rgb.g as u32,
            sum_b: rgb.b as u32,
            sum_var: var as u64,
            count: 1,
        }
    }

    /// Whether the sums can take in one more sample `(rgb, var)` without leaving their
    /// types.
    pub open spec fn has_room(self, rgb: Rgb, var: u32) -> bool {
        &&& self.sum_r + rgb.r <= u32::MAX
        &&& self.sum_g + rgb.g <= u32::MAX
        &&& self.sum_b + rgb.b <= u32::MAX
        &&& self.sum_var + var <= u64::MAX
        &&& self.count < u32::MAX
    }

    /// This entry with the sample `(rgb, var)` taken in.
    pub open spec fn plus(self, rgb: Rgb, var: u32) -> PaletteEntry {
        PaletteEntry {
            sum_r: (self.sum_r + rgb.r) as u32,
            sum_g: (self.sum_g + rgb.g) as u32,
            sum_b: (self.sum_b + rgb.b) as u32,
            sum_var: (self.sum_var + var) as u64,
            count: (self.count + 1) as u32,
        }
    }

    /// Whether the sums are those of `count >= 1` samples: no channel sum exceeds 255
    /// per sample, and the variance sum does not exceed the largest variance per sample.
    pub open spec fn is_running_sum(self) -> bool {
        &&& self.count >= 1
        &&& self.sum_r <= 255 * self.count
        &&& self.sum_g <= 255 * self.count
        &&& self.sum_b <= 255 * self.count
        &&& self.sum_var <= u32::MAX * self.count
    }

    /// The running average: each sum divided by the count, truncated; black and zero
    /// for an entry without samples. Quotients that do not fit their type are reduced
    /// modulo its size.
    pub open spec fn mean(self) -> (Rgb, u32) {
        if self.count == 0 {
            (Rgb { r: 0, g: 0, b: 0 }, 0)
        } else {
            (
                Rgb {
                    r: ((self.sum_r / self.count) % 256) as u8,
                    g: ((self.sum_g / self.count) % 256) as u8,
                    b: ((self.sum_b / self.count) % 256) as u8,
                },
                ((self.sum_var / (self.count as u64)) % 0x1_0000_0000) as u32,
            )
        }
    }

    /// An entry that holds one sample.
    pub fn new(rgb: Rgb, var: u32) -> (e: PaletteEntry)
        ensures
            e == PaletteEntry::seeded(rgb, var),
            e.is_running_sum(),
        no_unwind
    {
        PaletteEntry {
            sum_r: rgb.r as u32,
            sum_g: rgb.g as u32,
            sum_b: rgb.b as u32,
            sum_var: var as u64,
            count: 1,
        }
    }

    /// Takes in one more sample.
    pub fn add(&mut self, rgb: Rgb, var: u32)
        requires
            old(self).has_room(rgb, var),
        ensures
            *final(self) == old(self).plus(rgb, var),
            old(self).is_running_sum() ==> final(self).is_running_sum(),
        no_unwind
    {
        self.sum_r = self.sum_r + rgb.r as u32;
        self.sum_g = self.sum_g + rgb.g as u32;
        self.sum_b = self.sum_b + rgb.b as u32;
        self.sum_var = self.sum_var + var as u64;
        self.count = self.count + 1;
    }

    /// The running average color and variance.
    pub fn avg(&self) -> (out: (Rgb, u32))
        ensures
            out == self.mean(),
        no_unwind
    {
        if self.count == 0 {
            (Rgb { r: 0, g: 0, b: 0 }, 0)
        } else {
            let qr: u32 = self.sum_r / self.count;
            let qg: u32 = self.sum_g / self.count;
            let qb: u32 = self.sum_b / self.count;
            let qv: u64 = self.sum_var / (self.count as u64);
            assert(qr as u8 == qr % 256) by (bit_vector);
            assert(qg as u8 == qg % 256) by (bit_vector);
            assert(qb as u8 == qb % 256) by (bit_vector);
            assert(qv as u32 == qv % 0x1_0000_0000) by (bit_vector);
            (
                Rgb {
                    r: #[verifier::truncate]
                    (qr as u8),
                    g: #[verifier::truncate]
                    (qg as u8),
                    b: #[verifier::truncate]
                    (qb as u8),
                },
                #[verifier::truncate]
                (qv as u32),
            )
        }
    }
}

/// An entry made of samples that has taken in fewer than `SAMPLE_LIMIT` of them has
/// room for any further sample.
pub proof fn lemma_running_sum_has_room(e: PaletteEntry, rgb: Rgb, var: u32)
    requires
        e.is_running_sum(),
        e.count < SAMPLE_LIMIT,
    ensures
        e.has_room(rgb, var),
{
    assert(255 * e.count + 255 <= u32::MAX) by (nonlinear_arith)
        requires
            e.count < 16_843_009,
    ;
    assert(u32::MAX * e.count + u32::MAX <= u64::MAX) by (nonlinear_arith)
        requires
            e.count < 16_843_009,
    ;
}

/// Taking in a sample keeps an entry made of samples one.
pub proof fn lemma_plus_keeps_running_sum(e: PaletteEntry, rgb: Rgb, var: u32)
    requires
        e.is_running_sum(),
        e.count < SAMPLE_LIMIT,
    ensures
        e.plus(rgb, var).is_running_sum(),
        e.plus(rgb, var).count == e.count + 1,
{
    lemma_running_sum_has_room(e, rgb, var);
}

/// The average of an entry made of samples is the plain quotient in each part.
pub proof fn lemma_running_sum_mean(e: PaletteEntry)
    requires
        e.is_running_sum(),
    ensures
        e.mean().0.r == e.sum_r / e.count,
        e.mean().0.g == e.sum_g / e.count,
        e.mean().0.b == e.sum_b / e.count,
        e.mean().1 == e.sum_var / (e.count as u64),
{
    let n = e.count as int;
    assert(e.sum_r as int / n <= 255) by (nonlinear_arith)
        requires
            e.sum_r <= 255 * n,
            n >= 1,
    ;
    assert(e.sum_g as int / n <= 255) by (nonlinear_arith)
        requires
            e.sum_g <= 255 * n,
            n >= 1,
    ;
    assert(e.sum_b as int / n <= 255) by (nonlinear_arith)
        requires
            e.sum_b <= 255 * n,
            n >= 1,
    ;
    assert(e.sum_var as int / n <= u32::MAX) by (nonlinear_arith)
        requires
            e.sum_var <= u32::MAX * n,
            n >= 1,
    ;
}


/// Lab distance of a sample color to the running average of an entry.
pub open spec fn entry_dist(e: PaletteEntry, c: Rgb) -> int {
    color_dist(c, e.mean().0)
}

/// The index, among the first `k >= 1` entries, of the entry nearest to `c`; of several
/// at the same distance, the first.
pub open spec fn nearest(entries: Seq<PaletteEntry>, c: Rgb, k: int) -> int
    decreases k,
{
    if k <= 1 {
        0
    } else {
        let best = nearest(entries, c, k - 1);
        if entry_dist(entries[k - 1], c) < entry_dist(entries[best], c) {
            k - 1
        } else {
            best
        }
    }
}

/// The nearest entry is a first minimum: no entry is nearer, and every entry before it is
/// farther.
pub proof fn lemma_nearest_is_first_minimum(entries: Seq<PaletteEntry>, c: Rgb, k: int)
    requires
        1 <= k <= entries.len(),
    ensures
        0 <= nearest(entries, c, k) < k,
        forall|j: int|
            0 <= j < k ==> entry_dist(entries[nearest(entries, c, k)], c) <= entry_dist(
                #[trigger] entries[j],
                c,
            ),
        forall|j: int|
            0 <= j < nearest(entries, c, k) ==> entry_dist(entries[nearest(entries, c, k)], c)
                < entry_dist(#[trigger] entries[j], c),
    decreases k,
{
    if k > 1 {
        lemma_nearest_is_first_minimum(entries, c, k - 1);
    }
}

/// Whether some entry is within `threshold` of `c`: the nearest is.
pub open spec fn has_match(entries: Seq<PaletteEntry>, c: Rgb, threshold: int) -> bool {
    entries.len() > 0 && entry_dist(entries[nearest(entries, c, entries.len() as int)], c)
        < threshold
}

/// What presenting `c` to a palette of capacity `cap` comes to. Similarity is the Lab
/// distance to each entry's running average and nothing else: the variance of the
/// sample plays no part. The nearest entry is the only candidate; it matches when its
/// distance is below `threshold`.
pub open spec fn match_outcome(
    entries: Seq<PaletteEntry>,
    cap: int,
    c: Rgb,
    threshold: int,
) -> PaletteMatch {
    if has_match(entries, c, threshold) {
        PaletteMatch::Match(nearest(entries, c, entries.len() as int) as usize)
    } else if entries.len() < cap {
        PaletteMatch::NewEntry(entries.len() as usize)
    } else {
        PaletteMatch::Full
    }
}

/// The entries after presenting `(c, var)`: a new entry seeded with the sample is
/// appended when nothing matched and a slot is free; otherwise nothing changes.
pub open spec fn after_match(
    entries: Seq<PaletteEntry>,
    cap: int,
    c: Rgb,
    var: u32,
    threshold: int,
) -> Seq<PaletteEntry> {
    if !has_match(entries, c, threshold) && entries.len() < cap {
        entries.push(PaletteEntry::seeded(c, var))
    } else {
        entries
    }
}

/// The entries after accumulating `(c, var)` into slot `index`: unchanged when no such
/// slot is populated.
pub open spec fn after_sample(entries: Seq<PaletteEntry>, index: int, c: Rgb, var: u32) -> Seq<
    PaletteEntry,
> {
    if 0 <= index < entries.len() {
        entries.update(index, entries[index].plus(c, var))
    } else {
        entries
    }
}

/// A bounded set of color clusters that is learned online: `N` slots, filled from the
/// front, never emptied and never reordered.
pub struct Palette<const N: usize> {
    colors: [Option<PaletteEntry>; N],
    count: usize,
}

impl<const N: usize> View for Palette<N> {
    type V = Seq<PaletteEntry>;

    /// The populated entries, in slot order.
    closed spec fn view(&self) -> Seq<PaletteEntry> {
        Seq::new(self.count as nat, |i: int| self.colors@[i]->0)
    }
}

impl<const N: usize> Palette<N> {
    /// Slots below the fill count are populated with running sums; the others are
    /// empty.
    #[verifier::type_invariant]
    spec fn filled_from_front(self) -> bool {
        &&& self.count <= N
        &&& forall|i: int|
            0 <= i < self.count ==> (#[trigger] self.colors@[i]) is Some
                && self.colors@[i]->0.is_running_sum()
        &&& forall|i: int| self.count <= i < N ==> (#[trigger] self.colors@[i]) is None
    }

    /// An empty palette.
    pub fn new() -> (p: Self)
        ensures
            p@ == Seq::<PaletteEntry>::empty(),
    {
        let p = Palette { colors: [None; N], count: 0 };
        assert(p@ =~= Seq::<PaletteEntry>::empty());
        p
    }

    /// The number of populated slots.
    pub fn len(&self) -> (n: usize)
        ensures
            n == self@.len(),
            n <= N,
    {
        proof {
            use_type_invariant(self);
        }
        self.count
    }

    /// Whether no slot is populated.
    pub fn is_empty(&self) -> (b: bool)
        ensures
            b == (self@.len() == 0),
    {
        self.count == 0
    }

    /// The raw sums of slot `index`, if it is populated.
    pub fn get_entry(&self, index: usize) -> (e: Option<PaletteEntry>)
        ensures
            e == if index < self@.len() {
                Some(self@[index as int])
            } else {
                None
            },
            e is Some ==> e->0.is_running_sum(),
    {
        proof {
            use_type_invariant(self);
        }
        if index < N {
            self.colors[index]
        } else {
            None
        }
    }

    /// The running average color of slot `index`, if it is populated.
    pub fn get(&self, index: usize) -> (c: Option<Rgb>)
        ensures
            c == if index < self@.len() {
                Some(self@[index as int].mean().0)
            } else {
                None
            },
    {
        match self.get_entry(index) {
            Some(e) => Some(e.avg().0),
            None => None,
        }
    }

    /// Presents a sample. Returns the nearest entry when its Lab distance is below
    /// `threshold`; else creates an entry seeded with the sample when a slot is free;
    /// else reports that the palette is full. Only the second case changes the palette.
    ///
    /// All populated slots are compared and the nearest wins, the first of several at
    /// the same distance. The distance is the Lab distance to the slot's running
    /// average; `variance` is stored with a new entry and plays no part in matching.
    /// A match does not record the sample: follow up with `add_sample`.
    pub fn match_color(&mut self, rgb: &Rgb, variance: u32, threshold: u32) -> (out: PaletteMatch)
        ensures
            out == match_outcome(old(self)@, N as int, *rgb, threshold as int),
            final(self)@ == after_match(old(self)@, N as int, *rgb, variance, threshold as int),
            match out {
                PaletteMatch::Match(i) => i < old(self)@.len(),
                PaletteMatch::NewEntry(i) => i == old(self)@.len() && i < N,
                PaletteMatch::Full => old(self)@.len() == N,
            },
        no_unwind
    {
        proof {
            use_type_invariant(&*self);
        }
        let ghost entries = self@;
        let mut best: usize = 0;
        let mut min_dist: u32 = u32::MAX;
        let mut i: usize = 0;
        while i < self.count
            invariant
                i <= self.count <= N,
                entries == self@,
                self.filled_from_front(),
                i > 0 ==> best == nearest(entries, *rgb, i as int) && best < i && min_dist
                    == entry_dist(entries[best as int], *rgb),
            decreases self.count - i,
        {
            let d: u32 = match self.colors[i] {
                Some(e) => rgb.dist_lab(&e.avg().0),
                None => 0,
            };
            if i == 0 || d < min_dist {
                min_dist = d;
                best = i;
            }
            i = i + 1;
        }
        if self.count > 0 && min_dist < threshold {
            return PaletteMatch::Match(best);
        }
        if self.count < N {
            let idx: usize = self.count;
            let mut colors = self.colors;
            colors[idx] = Some(PaletteEntry::new(*rgb, variance));
            *self = Palette { colors, count: idx + 1 };
            assert(self@ =~= entries.push(PaletteEntry::seeded(*rgb, variance)));
            PaletteMatch::NewEntry(idx)
        } else {
            PaletteMatch::Full
        }
    }

    /// Accumulates a sample into slot `index`; does nothing when that slot is not
    /// populated. Never creates a slot.
    pub fn add_sample(&mut self, index: usize, rgb: &Rgb, variance: u32)
        requires
            index < old(self)@.len() ==> old(self)@[index as int].count < SAMPLE_LIMIT,
        ensures
            final(self)@ == after_sample(old(self)@, index as int, *rgb, variance),
            final(self)@.len() == old(self)@.len(),
        no_unwind
    {
        proof {
            use_type_invariant(&*self);
        }
        if index < self.count {
            let ghost entries = self@;
            let mut colors = self.colors;
            match colors[index] {
                Some(mut e) => {
                    proof {
                        lemma_running_sum_has_room(e, *rgb, variance);
                    }
                    e.add(*rgb, variance);
                    colors[index] = Some(e);
                },
                None => {},
            }
            *self = Palette { colors, count: self.count };
            assert(self@ =~= entries.update(index as int, entries[index as int].plus(*rgb, variance)));
        }
    }
}

impl<const N: usize> Default for Palette<N> {
    /// An empty palette.
    fn default() -> (p: Self)
        ensures
            p@ == Seq::<PaletteEntry>::empty(),
    {
        Palette::new()
    }
}


/// An entry after `k` further samples, all equal to `(c, var)`.
pub open spec fn with_repeats(e: PaletteEntry, c: Rgb, var: u32, k: nat) -> PaletteEntry
    decreases k,
{
    if k == 0 {
        e
    } else {
        with_repeats(e, c, var, (k - 1) as nat).plus(c, var)
    }
}

/// The entry that holds no sample.
pub open spec fn blank_entry() -> PaletteEntry {
    PaletteEntry { sum_r: 0, sum_g: 0, sum_b: 0, sum_var: 0, count: 0 }
}

proof fn lemma_repeats_sums(c: Rgb, var: u32, k: nat)
    requires
        k < SAMPLE_LIMIT,
    ensures
        with_repeats(PaletteEntry::seeded(c, var), c, var, k) == (PaletteEntry {
            sum_r: ((k + 1) * c.r) as u32,
            sum_g: ((k + 1) * c.g) as u32,
            sum_b: ((k + 1) * c.b) as u32,
            sum_var: ((k + 1) * var) as u64,
            count: (k + 1) as u32,
        }),
        0 <= (k + 1) * c.r <= u32::MAX,
        0 <= (k + 1) * c.g <= u32::MAX,
        0 <= (k + 1) * c.b <= u32::MAX,
        0 <= (k + 1) * var <= u64::MAX,
    decreases k,
{
    let n = k + 1;
    assert(n * c.r <= u32::MAX && n * c.g <= u32::MAX && n * c.b <= u32::MAX && n * var
        <= u64::MAX && n * c.r >= 0 && n * c.g >= 0 && n * c.b >= 0 && n * var >= 0)
        by (nonlinear_arith)
        requires
            1 <= n <= 16_843_009,
            0 <= c.r <= 255,
            0 <= c.g <= 255,
            0 <= c.b <= 255,
            0 <= var <= 0xFFFF_FFFF,
    ;
    if k > 0 {
        lemma_repeats_sums(c, var, (k - 1) as nat);
        assert(k * c.r + c.r == n * c.r && k * c.g + c.g == n * c.g && k * c.b + c.b == n * c.b
            && k * var + var == n * var) by (nonlinear_arith)
            requires
                n == k + 1,
        ;
    } else {
        assert(n * c.r == c.r && n * c.g == c.g && n * c.b == c.b && n * var == var)
            by (nonlinear_arith)
            requires
                n == 1,
        ;
    }
}

/// The average of identical samples is the sample: a fresh entry that takes in the same
/// color and variance `k` more times averages to exactly that color and variance, and
/// so does a blank entry after `k >= 1` such samples.
pub proof fn lemma_identical_samples_average(c: Rgb, var: u32, k: nat)
    requires
        k < SAMPLE_LIMIT,
    ensures
        with_repeats(PaletteEntry::seeded(c, var), c, var, k).mean() == (c, var),
        k >= 1 ==> with_repeats(blank_entry(), c, var, k).mean() == (c, var),
{
    lemma_repeats_sums(c, var, k);
    let n = (k + 1) as int;
    assert((n * c.r) / n == c.r && (n * c.g) / n == c.g && (n * c.b) / n == c.b && (n * var) / n
        == var) by (nonlinear_arith)
        requires
            n >= 1,
    ;
    if k >= 1 {
        lemma_blank_repeats(c, var, k);
        lemma_repeats_sums(c, var, (k - 1) as nat);
        let m = k as int;
        assert((m * c.r) / m == c.r && (m * c.g) / m == c.g && (m * c.b) / m == c.b && (m * var)
            / m == var) by (nonlinear_arith)
            requires
                m >= 1,
        ;
    }
}

proof fn lemma_blank_repeats(c: Rgb, var: u32, k: nat)
    requires
        k >= 1,
    ensures
        with_repeats(blank_entry(), c, var, k) == with_repeats(
            PaletteEntry::seeded(c, var),
            c,
            var,
            (k - 1) as nat,
        ),
    decreases k,
{
    if k > 1 {
        lemma_blank_repeats(c, var, (k - 1) as nat);
    } else {
        assert(with_repeats(blank_entry(), c, var, 0) == blank_entry());
        assert(blank_entry().plus(c, var) == PaletteEntry::seeded(c, var));
    }
}

/// The first sample presented to an empty palette with at least one slot creates
/// entry 0.
pub proof fn lemma_first_sample_creates_entry_zero(cap: int, c: Rgb, var: u32, threshold: int)
    requires
        cap > 0,
    ensures
        match_outcome(Seq::empty(), cap, c, threshold) == PaletteMatch::NewEntry(0),
        after_match(Seq::empty(), cap, c, var, threshold) == seq![PaletteEntry::seeded(c, var)],
{
    assert(Seq::<PaletteEntry>::empty().push(PaletteEntry::seeded(c, var)) =~= seq![
        PaletteEntry::seeded(c, var),
    ]);
}

proof fn lemma_nearest_of_prefix(a: Seq<PaletteEntry>, b: Seq<PaletteEntry>, c: Rgb, k: int)
    requires
        0 <= k <= a.len(),
        k <= b.len(),
        forall|i: int| 0 <= i < k ==> a[i] == b[i],
    ensures
        nearest(a, c, k) == nearest(b, c, k),
        k >= 1 ==> 0 <= nearest(a, c, k) < k,
    decreases k,
{
    if k > 1 {
        lemma_nearest_of_prefix(a, b, c, k - 1);
    }
}

/// A color is at distance zero from an entry that holds only that color.
proof fn lemma_seeded_is_at_distance_zero(c: Rgb, var: u32)
    ensures
        entry_dist(PaletteEntry::seeded(c, var), c) == 0,
{
    reveal(color_dist);
    assert(PaletteEntry::seeded(c, var).mean().0 == c);
}

proof fn lemma_distance_not_negative(e: PaletteEntry, c: Rgb)
    ensures
        entry_dist(e, c) >= 0,
{
    reveal(color_dist);
    let p = crate::lab::lab_of(c);
    let q = crate::lab::lab_of(e.mean().0);
    assert((p.0 - q.0) * (p.0 - q.0) >= 0) by (nonlinear_arith);
    assert((p.1 - q.1) * (p.1 - q.1) >= 0) by (nonlinear_arith);
    assert((p.2 - q.2) * (p.2 - q.2) >= 0) by (nonlinear_arith);
}

/// Presenting a sample again gives a match at the index that the first presentation
/// gave: at once after a match, which leaves the palette as it was, and after a creation
/// when the threshold is positive. With threshold zero nothing ever matches.
pub proof fn lemma_same_sample_matches_again(
    entries: Seq<PaletteEntry>,
    cap: int,
    c: Rgb,
    var: u32,
    again: u32,
    threshold: int,
)
    requires
        entries.len() <= cap,
        match_outcome(entries, cap, c, threshold) is Match || (match_outcome(
            entries,
            cap,
            c,
            threshold,
        ) is NewEntry && threshold > 0),
    ensures
        match_outcome(entries, cap, c, threshold) matches PaletteMatch::Match(i) ==> match_outcome(
            after_match(entries, cap, c, var, threshold),
            cap,
            c,
            threshold,
        ) == PaletteMatch::Match(i),
        match_outcome(entries, cap, c, threshold) matches PaletteMatch::NewEntry(i)
            ==> match_outcome(after_match(entries, cap, c, var, threshold), cap, c, threshold)
            == PaletteMatch::Match(i),
        after_match(after_match(entries, cap, c, var, threshold), cap, c, again, threshold)
            == after_match(entries, cap, c, var, threshold),
{
    if !has_match(entries, c, threshold) {
        let n = entries.len() as int;
        let after = entries.push(PaletteEntry::seeded(c, var));
        lemma_seeded_is_at_distance_zero(c, var);
        if n > 0 {
            lemma_nearest_of_prefix(after, entries, c, n);
            lemma_distance_not_negative(entries[nearest(entries, c, n)], c);
        }
        assert(nearest(after, c, n + 1) == n);
        assert(has_match(after, c, threshold));
    }
}

} // verus!
