use vstd::prelude::*;

use crate::config::{MAX_WALKERS, MIN_WALKERS};
use crate::random::random_range_i32;

verus! {

/// What the simulation needs of a walker, whatever its kind.
///
/// The spec functions name what each operation does to a walker; an
/// implementation defines them by its own behaviour, and every method is
/// stated in their terms. `Force` is the vector that `rebound` resolves for a
/// pair; a walker that cannot move ignores what is applied to it.
pub trait Particle: Sized {
    type Force;

    /// The walker once its transient acceleration is reinitialised from its
    /// direction bias.
    spec fn started(self) -> Self;

    /// The repulsion that `self` resolves against `other`.
    spec fn force_on(self, other: Self) -> Self::Force;

    /// The opposite of `force`.
    spec fn recoil_of(force: Self::Force) -> Self::Force;

    /// `force` scaled by the energetic factor.
    spec fn reaction_of(force: Self::Force) -> Self::Force;

    /// The walker once `force` is added to its transient acceleration.
    spec fn pushed(self, force: Self::Force) -> Self;

    /// The walker once its motion and trail are advanced by one tick.
    spec fn advanced(self) -> Self;

    /// Reinitialises the transient acceleration from the direction bias.
    fn start_rebound(&mut self)
        ensures
            *final(self) == old(self).started(),
    ;

    /// The repulsion between `self` and `other`.
    fn rebound(&self, other: &Self) -> (r: Self::Force)
        ensures
            r == self.force_on(*other),
    ;

    /// What the first walker of a pair takes of a resolved force: its opposite.
    fn recoil(force: &Self::Force) -> (r: Self::Force)
        ensures
            r == Self::recoil_of(*force),
    ;

    /// What the second walker of a pair takes of a resolved force: the force
    /// scaled by the energetic factor.
    fn reaction(force: &Self::Force) -> (r: Self::Force)
        ensures
            r == Self::reaction_of(*force),
    ;

    /// Adds `force` to the transient acceleration.
    fn apply_force(&mut self, force: Self::Force)
        ensures
            *final(self) == old(self).pushed(force),
    ;

    /// Advances the walker's motion and trail by one tick.
    fn update(&mut self)
        ensures
            *final(self) == old(self).advanced(),
    ;
}

/// One step of a tick, as the walker index or pair of indices it concerns.
pub enum TickStep {
    /// The walker at this index starts its rebound.
    Start(usize),
    /// The pair at these indices is resolved: the first recoils, the second
    /// takes the reaction.
    Resolve(usize, usize),
    /// The walker at this index is advanced.
    Advance(usize),
}

/// `Start(k)` for every `k < m`, in increasing order.
pub open spec fn starts(m: int) -> Seq<TickStep>
    decreases m,
{
    if m <= 0 {
        seq![]
    } else {
        starts(m - 1).push(TickStep::Start((m - 1) as usize))
    }
}

/// `Advance(k)` for every `k < m`, in increasing order.
pub open spec fn advances(m: int) -> Seq<TickStep>
    decreases m,
{
    if m <= 0 {
        seq![]
    } else {
        advances(m - 1).push(TickStep::Advance((m - 1) as usize))
    }
}

/// `Resolve(i, j)` for every `j` in `[lo, hi)`, in increasing order.
pub open spec fn row(i: int, lo: int, hi: int) -> Seq<TickStep>
    decreases hi - lo,
{
    if hi <= lo {
        seq![]
    } else {
        row(i, lo, hi - 1).push(TickStep::Resolve(i as usize, (hi - 1) as usize))
    }
}

/// `Resolve(i, j)` for every pair `i < j < n` with `i < m`, in lexicographic
/// order.
pub open spec fn rows(n: int, m: int) -> Seq<TickStep>
    decreases m,
{
    if m <= 0 {
        seq![]
    } else {
        rows(n, m - 1) + row(m - 1, m, n)
    }
}

/// Every step of one tick over `n` walkers, in the order it is taken.
pub open spec fn tick_schedule(n: int) -> Seq<TickStep> {
    starts(n) + rows(n, n) + advances(n)
}

/// The population `ws` after `step`: a start or an advance changes the
/// walker at its index; a resolved pair `(i, j)` first pushes walker `i` by
/// the recoil of the force it resolves against walker `j`, then pushes walker
/// `j` by the reaction to that force.
pub open spec fn apply_step<W: Particle>(ws: Seq<W>, step: TickStep) -> Seq<W> {
    match step {
        TickStep::Start(k) => ws.update(k as int, ws[k as int].started()),
        TickStep::Resolve(i, j) => {
            let force = ws[i as int].force_on(ws[j as int]);
            let after_i = ws.update(i as int, ws[i as int].pushed(W::recoil_of(force)));
            after_i.update(j as int, after_i[j as int].pushed(W::reaction_of(force)))
        },
        TickStep::Advance(k) => ws.update(k as int, ws[k as int].advanced()),
    }
}

/// The population `ws` after each of `steps` in turn.
pub open spec fn run_steps<W: Particle>(ws: Seq<W>, steps: Seq<TickStep>) -> Seq<W>
    decreases steps.len(),
{
    if steps.len() == 0 {
        ws
    } else {
        apply_step(run_steps(ws, steps.drop_last()), steps.last())
    }
}

proof fn lemma_run_push<W: Particle>(ws: Seq<W>, steps: Seq<TickStep>, step: TickStep)
    ensures
        run_steps(ws, steps.push(step)) == apply_step(run_steps(ws, steps), step),
{
    assert(steps.push(step).drop_last() =~= steps);
}

/// `s` resolves a pair that comes before the one `t` resolves, in
/// lexicographic order.
pub open spec fn resolves_before(s: TickStep, t: TickStep) -> bool {
    match (s, t) {
        (TickStep::Resolve(a, b), TickStep::Resolve(c, d)) => a < c || (a == c && b < d),
        _ => false,
    }
}

/// `s` resolves a pair `(a, b)` with `a < b < n` and `a < m`.
pub open spec fn resolves_pair_below(s: TickStep, n: int, m: int) -> bool {
    match s {
        TickStep::Resolve(a, b) => a < m && a < b && b < n,
        _ => false,
    }
}

proof fn lemma_row(i: int, lo: int, hi: int)
    requires
        0 <= i,
        0 <= lo <= hi <= usize::MAX,
    ensures
        row(i, lo, hi).len() == hi - lo,
        forall|k: int|
            0 <= k < hi - lo ==> #[trigger] row(i, lo, hi)[k] == TickStep::Resolve(
                i as usize,
                (lo + k) as usize,
            ),
    decreases hi - lo,
{
    if hi > lo {
        lemma_row(i, lo, hi - 1);
    }
}

/// The pairs that a tick over `n` walkers resolves, among those whose first
/// index is below `m`: each pair `i < j < n` with `i < m` is there, nothing
/// else is, and they come in strictly increasing lexicographic order, so none
/// is resolved twice.
pub proof fn lemma_rows_cover_pairs(n: int, m: int)
    requires
        0 <= m <= n <= usize::MAX,
    ensures
        forall|k: int|
            0 <= k < rows(n, m).len() ==> resolves_pair_below(#[trigger] rows(n, m)[k], n, m),
        forall|k1: int, k2: int|
            0 <= k1 < k2 < rows(n, m).len() ==> resolves_before(
                #[trigger] rows(n, m)[k1],
                #[trigger] rows(n, m)[k2],
            ),
        forall|i: int, j: int|
            0 <= i < m && i < j < n ==> #[trigger] rows(n, m).contains(
                TickStep::Resolve(i as usize, j as usize),
            ),
    decreases m,
{
    if m > 0 {
        lemma_rows_cover_pairs(n, m - 1);
        lemma_row(m - 1, m, n);
        let prev = rows(n, m - 1);
        let last = row(m - 1, m, n);
        let all = rows(n, m);
        assert(all == prev + last);
        assert forall|k: int| 0 <= k < all.len() implies resolves_pair_below(
            #[trigger] all[k],
            n,
            m,
        ) by {
            if k < prev.len() {
                assert(resolves_pair_below(prev[k], n, m - 1));
            } else {
                assert(last[k - prev.len()] == all[k]);
            }
        }
        assert forall|k1: int, k2: int| 0 <= k1 < k2 < all.len() implies resolves_before(
            #[trigger] all[k1],
            #[trigger] all[k2],
        ) by {
            if k2 < prev.len() {
                assert(resolves_before(prev[k1], prev[k2]));
            } else if k1 < prev.len() {
                assert(resolves_pair_below(prev[k1], n, m - 1));
                assert(last[k2 - prev.len()] == all[k2]);
            } else {
                assert(last[k1 - prev.len()] == all[k1]);
                assert(last[k2 - prev.len()] == all[k2]);
            }
        }
        assert forall|i: int, j: int| 0 <= i < m && i < j < n implies #[trigger] all.contains(
            TickStep::Resolve(i as usize, j as usize),
        ) by {
            if i < m - 1 {
                assert(prev.contains(TickStep::Resolve(i as usize, j as usize)));
                let k = choose|k: int|
                    0 <= k < prev.len() && prev[k] == TickStep::Resolve(i as usize, j as usize);
                assert(all[k] == prev[k]);
            } else {
                let k = j - m;
                assert(last[k] == TickStep::Resolve(i as usize, j as usize));
                assert(all[prev.len() + k] == last[k]);
            }
        }
    }
}

proof fn lemma_rows_len(n: int, m: int)
    requires
        0 <= m <= n <= usize::MAX,
    ensures
        2 * rows(n, m).len() == 2 * m * n - m * (m + 1),
    decreases m,
{
    if m > 0 {
        lemma_rows_len(n, m - 1);
        lemma_row(m - 1, m, n);
        let before = rows(n, m - 1).len() as int;
        let added = row(m - 1, m, n).len() as int;
        assert(rows(n, m).len() == before + added);
        assert(2 * before == 2 * (m - 1) * n - (m - 1) * ((m - 1) + 1));
        assert(added == n - m);
        assert(2 * (before + added) == 2 * m * n - m * (m + 1)) by (nonlinear_arith)
            requires
                2 * before == 2 * (m - 1) * n - (m - 1) * ((m - 1) + 1),
                added == n - m,
        ;
    } else {
        assert(rows(n, m).len() == 0);
        assert(m * n == 0 && m * (m + 1) == 0) by (nonlinear_arith)
            requires
                m == 0,
        ;
    }
}

/// A tick over `n` walkers resolves `n * (n - 1) / 2` pairs: with
/// `lemma_rows_cover_pairs`, each unordered pair exactly once.
pub proof fn lemma_pair_count(n: int)
    requires
        0 <= n <= usize::MAX,
    ensures
        2 * rows(n, n).len() == n * (n - 1),
{
    lemma_rows_len(n, n);
    assert(2 * n * n - n * (n + 1) == n * (n - 1)) by (nonlinear_arith);
}

/// A tick over no walkers changes nothing, and a tick over a lone walker
/// resolves no pair: the walker is started, then advanced.
pub proof fn lemma_small_populations<W: Particle>(w: W)
    ensures
        tick_schedule(0) == Seq::<TickStep>::empty(),
        run_steps(Seq::<W>::empty(), tick_schedule(0)) == Seq::<W>::empty(),
        tick_schedule(1) == seq![TickStep::Start(0), TickStep::Advance(0)],
        run_steps(seq![w], tick_schedule(1)) == seq![w.started().advanced()],
{
    assert(tick_schedule(0) =~= Seq::<TickStep>::empty());
    assert(row(0, 1, 1) =~= Seq::<TickStep>::empty());
    assert(rows(1, 0) =~= Seq::<TickStep>::empty());
    assert(rows(1, 1) =~= Seq::<TickStep>::empty());
    let one = tick_schedule(1);
    assert(one =~= seq![TickStep::Start(0), TickStep::Advance(0)]);
    let first = seq![TickStep::Start(0)];
    assert(one.drop_last() =~= first);
    assert(first.drop_last() =~= Seq::<TickStep>::empty());
    assert(run_steps(seq![w], Seq::<TickStep>::empty()) == seq![w]);
    assert(apply_step(seq![w], TickStep::Start(0)) =~= seq![w.started()]);
    assert(run_steps(seq![w], first) =~= seq![w.started()]);
    assert(apply_step(seq![w.started()], TickStep::Advance(0)) =~= seq![
        w.started().advanced(),
    ]);
    assert(run_steps(seq![w], one) =~= seq![w.started().advanced()]);
}

/// A population size is one that a reset may draw.
pub open spec fn valid_size(n: int) -> bool {
    MIN_WALKERS <= n <= MAX_WALKERS
}

/// Draws the size of a new population from `[MIN_WALKERS, MAX_WALKERS]`.
pub fn sample_population_size() -> (n: usize)
    ensures
        MIN_WALKERS <= n <= MAX_WALKERS,
        valid_size(n as int),
{
    random_range_i32(MIN_WALKERS as i32, MAX_WALKERS as i32 + 1) as usize
}

/// The active population, advanced one tick at a time and replaced whole on
/// a reset.
pub struct Simulation<W> {
    walkers: Vec<W>,
}

impl<W> View for Simulation<W> {
    type V = Seq<W>;

    closed spec fn view(&self) -> Seq<W> {
        self.walkers@
    }
}

impl<W: Particle> Simulation<W> {
    /// A simulation of the population `walkers`.
    pub fn new(walkers: Vec<W>) -> (r: Self)
        requires
            valid_size(walkers@.len() as int),
        ensures
            r@ == walkers@,
    {
        Simulation { walkers }
    }

    /// Replaces the whole population by `walkers`.
    pub fn reset(&mut self, walkers: Vec<W>)
        requires
            valid_size(walkers@.len() as int),
        ensures
            final(self)@ == walkers@,
    {
        self.walkers = walkers;
    }

    /// The number of walkers.
    pub fn len(&self) -> (r: usize)
        ensures
            r == self@.len(),
    {
        self.walkers.len()
    }

    /// The walkers, for reading between ticks.
    pub fn walkers(&self) -> (r: &[W])
        ensures
            r@ == self@,
    {
        self.walkers.as_slice()
    }

    /// Runs one tick: every walker starts its rebound, every unordered pair
    /// `(i, j)` with `i < j` is resolved once in lexicographic order (the
    /// first walker recoils, the second takes the reaction), then every
    /// walker is advanced.
    pub fn tick(&mut self)
        ensures
            final(self)@ == run_steps(old(self)@, tick_schedule(old(self)@.len() as int)),
    {
        let n = self.walkers.len();
        let ghost initial = self.walkers@;
        let ghost mut log: Seq<TickStep> = seq![];
        let mut k: usize = 0;
        while k < n
            invariant
                self.walkers@.len() == n,
                k <= n,
                log == starts(k as int),
                self.walkers@ == run_steps(initial, log),
            decreases n - k,
        {
            self.walkers[k].start_rebound();
            proof {
                lemma_run_push(initial, log, TickStep::Start(k));
                log = log.push(TickStep::Start(k));
                assert(self.walkers@ =~= run_steps(initial, log));
            }
            k = k + 1;
        }
        let ghost started = log;
        let mut i: usize = 0;
        while i < n
            invariant
                self.walkers@.len() == n,
                i <= n,
                log == started + rows(n as int, i as int),
                self.walkers@ == run_steps(initial, log),
            decreases n - i,
        {
            let mut j: usize = i + 1;
            while j < n
                invariant
                    self.walkers@.len() == n,
                    i < n,
                    i < j <= n,
                    log == started + rows(n as int, i as int) + row(i as int, i + 1, j as int),
                    self.walkers@ == run_steps(initial, log),
                decreases n - j,
            {
                let ghost before = self.walkers@;
                let force = self.walkers[i].rebound(&self.walkers[j]);
                self.walkers[i].apply_force(W::recoil(&force));
                self.walkers[j].apply_force(W::reaction(&force));
                proof {
                    lemma_run_push(initial, log, TickStep::Resolve(i, j));
                    log = log.push(TickStep::Resolve(i, j));
                    assert(self.walkers@ =~= apply_step(before, TickStep::Resolve(i, j)));
                    assert(row(i as int, i + 1, j + 1) == row(i as int, i + 1, j as int).push(
                        TickStep::Resolve(i, j),
                    ));
                }
                j = j + 1;
            }
            proof {
                assert(rows(n as int, i + 1) == rows(n as int, i as int) + row(
                    i as int,
                    i + 1,
                    n as int,
                ));
                assert(log =~= started + rows(n as int, i + 1));
            }
            i = i + 1;
        }
        let ghost resolved = log;
        let mut k: usize = 0;
        while k < n
            invariant
                self.walkers@.len() == n,
                k <= n,
                log == resolved + advances(k as int),
                self.walkers@ == run_steps(initial, log),
            decreases n - k,
        {
            self.walkers[k].update();
            proof {
                lemma_run_push(initial, log, TickStep::Advance(k));
                log = log.push(TickStep::Advance(k));
                assert(self.walkers@ =~= run_steps(initial, log));
                assert(log =~= resolved + advances(k + 1));
            }
            k = k + 1;
        }
        proof {
            assert(log =~= tick_schedule(n as int));
        }
    }
}

} // verus!
