//! Lane colours.
//!
//! A `ColorAssigner` gives each newly opened lane a colour index from a
//! palette of `PALETTE_SIZE`, choosing the one with the lowest penalty:
//! penalties discourage the lane's own previous colour, colours of nearby
//! active lanes, colours used recently near the lane, colours already given
//! to fork siblings of the same row, and colours used more often than the
//! others. One lane may be made the main lane: it keeps a reserved colour
//! for good.
//!
//! Penalties are exact integers in units of `1 / PENALTY_SCALE`; each
//! weighted term is rounded down.

use std::collections::{HashSet, VecDeque};

use vstd::prelude::*;

verus! {

broadcast use vstd::std_specs::hash::group_hash_axioms;

/// Number of colours in the palette.
pub const PALETTE_SIZE: usize = 11;

/// The colour reserved for the main lane.
pub const MAIN_BRANCH_COLOR: usize = 9;

/// How many recent assignments take part in the penalty.
pub const HISTORY_WINDOW: usize = 6;

/// Penalties are counted in units of `1 / PENALTY_SCALE`.
pub const PENALTY_SCALE: u128 = 720720;

/// What a `ColorAssigner` holds, as mathematical values.
pub struct ColorState {
    /// Current colour of each lane (`None` while inactive).
    pub lane_colors: Seq<Option<usize>>,
    /// Last colour each lane had, kept after release.
    pub lane_last: Seq<usize>,
    /// Where the scan over the palette starts.
    pub next_color: usize,
    /// Colours that ordinary assignments skip.
    pub reserved: Set<usize>,
    /// Recent assignments as (row, lane, colour), oldest first.
    pub history: Seq<(usize, usize, usize)>,
    pub row: usize,
    /// Colours given to fork siblings in the current row.
    pub fork_colors: Set<usize>,
    /// How often each colour was handed out (saturating).
    pub usage: Seq<usize>,
    pub main_lane: Option<usize>,
}

impl ColorState {
    pub open spec fn wf(self) -> bool {
        &&& self.lane_colors.len() == self.lane_last.len()
        &&& forall|i: int| 0 <= i < self.lane_colors.len() ==> match #[trigger] self.lane_colors[i] {
            Some(c) => c < PALETTE_SIZE,
            None => true,
        }
        &&& forall|i: int| 0 <= i < self.lane_last.len() ==> #[trigger] self.lane_last[i] < PALETTE_SIZE
        &&& self.next_color < PALETTE_SIZE
        &&& self.history.len() <= HISTORY_WINDOW
        &&& forall|i: int| 0 <= i < self.history.len() ==> (#[trigger] self.history[i]).2 < PALETTE_SIZE
        &&& forall|c: usize| #[trigger] self.fork_colors.contains(c) ==> c < PALETTE_SIZE
        &&& self.usage.len() == PALETTE_SIZE
        &&& match self.main_lane {
            Some(m) => {
                &&& m < self.lane_colors.len()
                &&& self.lane_colors[m as int] == Some(MAIN_BRANCH_COLOR)
                &&& self.reserved.contains(MAIN_BRANCH_COLOR)
            },
            None => true,
        }
    }
}

/// Whether `lane` is the main lane of `s`.
pub open spec fn is_main(s: ColorState, lane: int) -> bool {
    match s.main_lane {
        Some(m) => m == lane,
        None => false,
    }
}

/// The state of a new assigner.
pub open spec fn initial_state() -> ColorState {
    ColorState {
        lane_colors: Seq::empty(),
        lane_last: Seq::empty(),
        next_color: 0,
        reserved: Set::empty(),
        history: Seq::empty(),
        row: 0,
        fork_colors: Set::empty(),
        usage: Seq::new(PALETTE_SIZE as nat, |i: int| 0usize),
        main_lane: None,
    }
}

/// `s` with lanes up to `lane` present: new lanes inactive, last colour 0.
pub open spec fn grown(s: ColorState, lane: int) -> ColorState {
    if lane < s.lane_colors.len() {
        s
    } else {
        ColorState {
            lane_colors: s.lane_colors + Seq::new((lane + 1 - s.lane_colors.len()) as nat, |i: int| None::<usize>),
            lane_last: s.lane_last + Seq::new((lane + 1 - s.lane_last.len()) as nat, |i: int| 0usize),
            ..s
        }
    }
}

pub open spec fn dist(a: int, b: int) -> int {
    if a >= b {
        a - b
    } else {
        b - a
    }
}

/// Penalty on colour `c` from the active lanes below `n` other than `lane`
/// itself: `8 / (distance + 1)` each.
pub open spec fn lane_penalty(colors: Seq<Option<usize>>, lane: int, c: usize, n: int) -> int
    decreases n,
{
    if n <= 0 {
        0
    } else {
        lane_penalty(colors, lane, c, n - 1) + if n - 1 != lane && colors[n - 1] == Some(c) {
            (8 * PENALTY_SCALE) as int / (dist(lane, n - 1) + 1)
        } else {
            0
        }
    }
}

/// Penalty on colour `c` from the first `n` history entries:
/// `(4 / (row gap + 1)) * (2 / (lane distance + 1))` each.
pub open spec fn history_penalty(h: Seq<(usize, usize, usize)>, row: int, lane: int, c: usize, n: int) -> int
    decreases n,
{
    if n <= 0 {
        0
    } else {
        let e = h[n - 1];
        let gap = if row >= e.0 {
            row - e.0
        } else {
            0
        };
        history_penalty(h, row, lane, c, n - 1) + if e.2 == c {
            ((8 * PENALTY_SCALE) as int / (gap + 1)) / (dist(lane, e.1 as int) + 1)
        } else {
            0
        }
    }
}

/// The highest of the first `n` usage counts (0 when `n` is 0).
pub open spec fn max_usage(u: Seq<usize>, n: int) -> int
    decreases n,
{
    if n <= 0 {
        0
    } else {
        let m = max_usage(u, n - 1);
        if u[n - 1] > m {
            u[n - 1] as int
        } else {
            m
        }
    }
}

/// `2 * usage / highest usage`, or 0 before any assignment.
pub open spec fn fairness_penalty(u: Seq<usize>, c: usize) -> int {
    let m = max_usage(u, PALETTE_SIZE as int);
    if m > 0 {
        (2 * PENALTY_SCALE) as int * u[c as int] / m
    } else {
        0
    }
}

/// Penalty of colour `c` for `lane` in a state where the lane exists.
pub open spec fn lane_state_penalty(s: ColorState, lane: int, c: usize, fork: bool) -> int {
    (if s.lane_last[lane] == c {
        (10 * PENALTY_SCALE) as int
    } else {
        0
    }) + lane_penalty(s.lane_colors, lane, c, s.lane_colors.len() as int) + history_penalty(
        s.history,
        s.row as int,
        lane,
        c,
        s.history.len() as int,
    ) + (if fork && s.fork_colors.contains(c) {
        (100 * PENALTY_SCALE) as int
    } else {
        0
    }) + fairness_penalty(s.usage, c)
}

/// Penalty of colour `c` for a new assignment to `lane`.
pub open spec fn penalty(s: ColorState, lane: int, c: usize, fork: bool) -> int {
    lane_state_penalty(grown(s, lane), lane, c, fork)
}

/// Whether an assignment may pick `c`.
pub open spec fn allowed(s: ColorState, c: usize, use_reserved: bool) -> bool {
    use_reserved || !s.reserved.contains(c)
}

/// The `k`-th colour of the scan, which starts at `next_color`.
pub open spec fn candidate(s: ColorState, k: int) -> usize {
    ((s.next_color + k) % (PALETTE_SIZE as int)) as usize
}

/// The best of the first `n` candidates: lowest penalty, earliest on ties.
pub open spec fn best_upto(s: ColorState, lane: int, fork: bool, use_reserved: bool, n: int) -> Option<usize>
    decreases n,
{
    if n <= 0 {
        None
    } else {
        let prev = best_upto(s, lane, fork, use_reserved, n - 1);
        let c = candidate(s, n - 1);
        if !allowed(s, c, use_reserved) {
            prev
        } else {
            match prev {
                None => Some(c),
                Some(b) => if penalty(s, lane, c, fork) < penalty(s, lane, b, fork) {
                    Some(c)
                } else {
                    Some(b)
                },
            }
        }
    }
}

/// The allowed colour of lowest penalty for `lane` (`next_color` if none is
/// allowed).
pub open spec fn best_color(s: ColorState, lane: int, fork: bool, use_reserved: bool) -> usize {
    match best_upto(s, lane, fork, use_reserved, PALETTE_SIZE as int) {
        Some(c) => c,
        None => s.next_color,
    }
}

/// `h` with `e` appended, keeping the newest `HISTORY_WINDOW` entries.
pub open spec fn push_window(h: Seq<(usize, usize, usize)>, e: (usize, usize, usize)) -> Seq<(usize, usize, usize)> {
    let h2 = h.push(e);
    if h2.len() > HISTORY_WINDOW {
        h2.subrange(1, h2.len() as int)
    } else {
        h2
    }
}

pub open spec fn bump(n: usize) -> usize {
    if n < usize::MAX {
        (n + 1) as usize
    } else {
        n
    }
}

/// The colour an assignment to `lane` yields: the main colour on the main
/// lane, which keeps it, else the best colour.
pub open spec fn chosen_color(s: ColorState, lane: int, fork: bool, use_reserved: bool) -> usize {
    if is_main(s, lane) {
        MAIN_BRANCH_COLOR
    } else {
        best_color(s, lane, fork, use_reserved)
    }
}

/// The state after an assignment to `lane`: unchanged on the main lane, else
/// `lane` holds `best_color(s, lane, fork, use_reserved)`.
pub open spec fn assigned(s: ColorState, lane: int, fork: bool, use_reserved: bool) -> ColorState {
    if is_main(s, lane) {
        s
    } else {
        assigned_other(s, lane, fork, use_reserved)
    }
}

/// The state after the best colour is given to `lane`.
pub open spec fn assigned_other(s: ColorState, lane: int, fork: bool, use_reserved: bool) -> ColorState {
    let c = best_color(s, lane, fork, use_reserved);
    let g = grown(s, lane);
    ColorState {
        lane_colors: g.lane_colors.update(lane, Some(c)),
        lane_last: g.lane_last.update(lane, c),
        next_color: ((c + 1) % (PALETTE_SIZE as int)) as usize,
        history: push_window(s.history, (s.row, lane as usize, c)),
        usage: s.usage.update(c as int, bump(s.usage[c as int])),
        fork_colors: if fork {
            s.fork_colors.insert(c)
        } else {
            s.fork_colors
        },
        ..g
    }
}

/// The state after `lane` is made the main lane; once a main lane exists,
/// it stays the only one and nothing changes.
pub open spec fn made_main(s: ColorState, lane: int) -> ColorState {
    let g = grown(s, lane);
    if s.main_lane is Some {
        s
    } else {
        ColorState {
        lane_colors: g.lane_colors.update(lane, Some(MAIN_BRANCH_COLOR)),
        lane_last: g.lane_last.update(lane, MAIN_BRANCH_COLOR),
        reserved: s.reserved.insert(MAIN_BRANCH_COLOR),
        main_lane: Some(lane as usize),
        usage: s.usage.update(MAIN_BRANCH_COLOR as int, bump(s.usage[MAIN_BRANCH_COLOR as int])),
        ..g
        }
    }
}

/// The state after `lane` is released.
pub open spec fn released(s: ColorState, lane: int) -> ColorState {
    if lane < s.lane_colors.len() && !is_main(s, lane) {
        ColorState { lane_colors: s.lane_colors.update(lane, None), ..s }
    } else {
        s
    }
}

/// The state after `lane` is continued.
pub open spec fn continued(s: ColorState, lane: int) -> ColorState {
    if is_main(s, lane) {
        s
    } else if grown(s, lane).lane_colors[lane] is Some {
        grown(s, lane)
    } else {
        assigned(s, lane, false, false)
    }
}

/// The colour `continue_lane(lane)` returns.
pub open spec fn continued_color(s: ColorState, lane: int) -> usize {
    if is_main(s, lane) {
        MAIN_BRANCH_COLOR
    } else {
        match grown(s, lane).lane_colors[lane] {
            Some(c) => c,
            None => best_color(s, lane, false, false),
        }
    }
}

/// Colour state of one layout build: see the module documentation.
#[derive(Debug)]
pub struct ColorAssigner {
    lane_colors: Vec<Option<usize>>,
    lane_last_color: Vec<usize>,
    next_color_index: usize,
    reserved_colors: HashSet<usize>,
    recent_assignments: VecDeque<(usize, usize, usize)>,
    current_row: usize,
    current_fork_colors: HashSet<usize>,
    color_usage_count: [usize; 11],
    main_lane: Option<usize>,
}

impl View for ColorAssigner {
    type V = ColorState;

    closed spec fn view(&self) -> ColorState {
        ColorState {
            lane_colors: self.lane_colors@,
            lane_last: self.lane_last_color@,
            next_color: self.next_color_index,
            reserved: self.reserved_colors@,
            history: self.recent_assignments@,
            row: self.current_row,
            fork_colors: self.current_fork_colors@,
            usage: self.color_usage_count@,
            main_lane: self.main_lane,
        }
    }
}

impl ColorAssigner {
    pub fn new() -> (r: Self)
        ensures
            r@ == initial_state(),
            r@.wf(),
    {
        let r = ColorAssigner {
            lane_colors: Vec::new(),
            lane_last_color: Vec::new(),
            next_color_index: 0,
            reserved_colors: HashSet::new(),
            recent_assignments: VecDeque::new(),
            current_row: 0,
            current_fork_colors: HashSet::new(),
            color_usage_count: [0; 11],
            main_lane: None,
        };
        assert(r@.usage =~= initial_state().usage);
        r
    }

    /// Whether `lane` is the main lane.
    pub fn is_main_lane(&self, lane: usize) -> (r: bool)
        ensures
            r == (self@.main_lane == Some(lane)),
    {
        match self.main_lane {
            Some(m) => m == lane,
            None => false,
        }
    }

    /// The colour of the main lane.
    pub fn get_main_color(&self) -> (r: usize)
        ensures
            r == MAIN_BRANCH_COLOR,
    {
        MAIN_BRANCH_COLOR
    }

    /// Excludes `color_index` from ordinary assignments.
    pub fn reserve_color(&mut self, color_index: usize)
        requires
            old(self)@.wf(),
        ensures
            final(self)@ == (ColorState { reserved: old(self)@.reserved.insert(color_index), ..old(self)@ }),
            final(self)@.wf(),
    {
        self.reserved_colors.insert(color_index);
    }

    /// Makes lanes up to `lane` present.
    fn ensure_capacity(&mut self, lane: usize)
        requires
            old(self)@.wf(),
            lane < usize::MAX,
        ensures
            final(self)@ == grown(old(self)@, lane as int),
            final(self)@.wf(),
            lane < final(self)@.lane_colors.len(),
    {
        let ghost s0 = self@;
        while self.lane_colors.len() <= lane
            invariant
                s0.wf(),
                lane < usize::MAX,
                self.lane_colors@.len() == self.lane_last_color@.len(),
                self.lane_colors@.len() >= s0.lane_colors.len(),
                self.lane_colors@ == s0.lane_colors + Seq::new(
                    (self.lane_colors@.len() - s0.lane_colors.len()) as nat,
                    |i: int| None::<usize>,
                ),
                self.lane_last_color@ == s0.lane_last + Seq::new(
                    (self.lane_colors@.len() - s0.lane_colors.len()) as nat,
                    |i: int| 0usize,
                ),
                self.lane_colors@.len() <= lane + 1 || self.lane_colors@.len() == s0.lane_colors.len(),
                self@ == (ColorState { lane_colors: self.lane_colors@, lane_last: self.lane_last_color@, ..s0 }),
            decreases lane + 1 - self.lane_colors.len(),
        {
            let ghost before_c = self.lane_colors@;
            let ghost before_l = self.lane_last_color@;
            self.lane_colors.push(None);
            self.lane_last_color.push(0);
            assert(self.lane_colors@ =~= s0.lane_colors + Seq::new(
                (self.lane_colors@.len() - s0.lane_colors.len()) as nat,
                |i: int| None::<usize>,
            ));
            assert(self.lane_last_color@ =~= s0.lane_last + Seq::new(
                (self.lane_colors@.len() - s0.lane_colors.len()) as nat,
                |i: int| 0usize,
            ));
        }
        proof {
            if (lane as int) < s0.lane_colors.len() {
                assert(self.lane_colors@ =~= s0.lane_colors);
                assert(self.lane_last_color@ =~= s0.lane_last);
            }
        }
    }

    /// The current colour of `lane`, if it is active.
    pub fn get_lane_color_index(&self, lane: usize) -> (r: Option<usize>)
        ensures
            r == (if lane < self@.lane_colors.len() {
                self@.lane_colors[lane as int]
            } else {
                None
            }),
    {
        if lane < self.lane_colors.len() {
            self.lane_colors[lane]
        } else {
            None
        }
    }

    /// Starts a new row: the fork-sibling colours are forgotten.
    pub fn advance_row(&mut self)
        requires
            old(self)@.wf(),
        ensures
            final(self)@ == (ColorState { row: bump(old(self)@.row), fork_colors: Set::empty(), ..old(self)@ }),
            final(self)@.wf(),
    {
        if self.current_row < usize::MAX {
            self.current_row = self.current_row + 1;
        }
        self.current_fork_colors.clear();
    }

    /// Starts a fork: the fork-sibling colours are forgotten.
    pub fn begin_fork(&mut self)
        requires
            old(self)@.wf(),
        ensures
            final(self)@ == (ColorState { fork_colors: Set::empty(), ..old(self)@ }),
            final(self)@.wf(),
    {
        self.current_fork_colors.clear();
    }
}

proof fn lemma_max_usage(u: Seq<usize>, n: int)
    requires
        0 <= n <= u.len(),
    ensures
        forall|c: int| 0 <= c < n ==> u[c] <= max_usage(u, n),
        max_usage(u, n) >= 0,
    decreases n,
{
    if n > 0 {
        lemma_max_usage(u, n - 1);
    }
}

proof fn lemma_div_le(a: int, b: int)
    requires
        0 <= a,
        1 <= b,
    ensures
        0 <= a / b <= a,
{
    assert(a / b <= a) by (nonlinear_arith)
        requires
            0 <= a,
            1 <= b,
    ;
    assert(0 <= a / b) by (nonlinear_arith)
        requires
            0 <= a,
            1 <= b,
    ;
}

proof fn lemma_share_le(k: int, u: int, m: int)
    requires
        0 <= k,
        0 <= u <= m,
        1 <= m,
    ensures
        0 <= k * u / m <= k,
{
    assert(k * u <= k * m) by (nonlinear_arith)
        requires
            0 <= k,
            0 <= u <= m,
    ;
    assert(k * u / m <= k * m / m) by (nonlinear_arith)
        requires
            k * u <= k * m,
            1 <= m,
    ;
    assert(k * m / m == k) by (nonlinear_arith)
        requires
            1 <= m,
    ;
    assert(0 <= k * u / m) by (nonlinear_arith)
        requires
            0 <= k,
            0 <= u,
            1 <= m,
    ;
}

proof fn lemma_best_upto_grown(s: ColorState, lane: int, fork: bool, use_reserved: bool, n: int)
    requires
        s.wf(),
        0 <= lane,
    ensures
        best_upto(grown(s, lane), lane, fork, use_reserved, n) == best_upto(s, lane, fork, use_reserved, n),
    decreases n,
{
    let g = grown(s, lane);
    assert(grown(g, lane) == g);
    if n > 0 {
        lemma_best_upto_grown(s, lane, fork, use_reserved, n - 1);
    }
}

/// Making the lane present first changes nothing about an assignment to it.
proof fn lemma_assigned_grown(s: ColorState, lane: int, fork: bool, use_reserved: bool)
    requires
        s.wf(),
        0 <= lane,
    ensures
        best_color(grown(s, lane), lane, fork, use_reserved) == best_color(s, lane, fork, use_reserved),
        assigned(grown(s, lane), lane, fork, use_reserved) == assigned(s, lane, fork, use_reserved),
{
    lemma_best_upto_grown(s, lane, fork, use_reserved, PALETTE_SIZE as int);
    assert(grown(grown(s, lane), lane) == grown(s, lane));
}

fn lane_distance(a: usize, b: usize) -> (d: usize)
    ensures
        d == dist(a as int, b as int),
{
    if a >= b {
        a - b
    } else {
        b - a
    }
}

impl ColorAssigner {
    /// The penalty of every colour for an assignment to `lane`, which exists.
    fn penalties(&self, lane: usize, is_fork_sibling: bool) -> (pen: [u128; 11])
        requires
            self@.wf(),
            lane < self@.lane_colors.len(),
        ensures
            forall|c: usize| c < PALETTE_SIZE ==> pen@[c as int] == lane_state_penalty(self@, lane as int, c, is_fork_sibling),
            forall|c: usize| c < PALETTE_SIZE ==> pen@[c as int] < u128::MAX,
    {
        let ghost s = self@;
        let ls: usize = self.lane_colors.len();
        let mut pen: [u128; 11] = [0; 11];

        // The lane's own previous colour.
        let last = self.lane_last_color[lane];
        pen[last] = 10 * PENALTY_SCALE;

        // Colours of the active lanes, weighted by closeness.
        let mut i: usize = 0;
        while i < self.lane_colors.len()
            invariant
                s == self@,
                s.wf(),
                ls == s.lane_colors.len(),
                lane < ls,
                last == s.lane_last[lane as int],
                i <= ls,
                forall|c: usize|
                    c < PALETTE_SIZE ==> #[trigger] pen@[c as int] == (if last == c {
                        (10 * PENALTY_SCALE) as int
                    } else {
                        0
                    }) + lane_penalty(s.lane_colors, lane as int, c, i as int),
                forall|c: usize| c < PALETTE_SIZE ==> #[trigger] pen@[c as int] <= (10 * PENALTY_SCALE) as int + (8 * PENALTY_SCALE) as int * i,
            decreases ls - i,
        {
            if i == lane {
            } else if let Some(color) = self.lane_colors[i] {
                let d = lane_distance(lane, i);
                let w: u128 = 8 * PENALTY_SCALE / (d as u128 + 1);
                proof {
                    lemma_div_le((8 * PENALTY_SCALE) as int, d + 1);
                }
                pen[color] = pen[color] + w;
            }
            i += 1;
        }

        // Recent assignments, weighted by closeness in rows and in lanes.
        let mut i: usize = 0;
        while i < self.recent_assignments.len()
            invariant
                s == self@,
                s.wf(),
                ls == s.lane_colors.len(),
                lane < ls,
                i <= s.history.len(),
                forall|c: usize|
                    c < PALETTE_SIZE ==> #[trigger] pen@[c as int] == (if last == c {
                        (10 * PENALTY_SCALE) as int
                    } else {
                        0
                    }) + lane_penalty(s.lane_colors, lane as int, c, ls as int) + history_penalty(
                        s.history,
                        s.row as int,
                        lane as int,
                        c,
                        i as int,
                    ),
                forall|c: usize|
                    c < PALETTE_SIZE ==> #[trigger] pen@[c as int] <= (10 * PENALTY_SCALE) as int + (8 * PENALTY_SCALE) as int * ls + (8
                        * PENALTY_SCALE) as int * i,
            decreases s.history.len() - i,
        {
            let (row, hist_lane, color) = self.recent_assignments[i];
            let gap: usize = if self.current_row >= row {
                self.current_row - row
            } else {
                0
            };
            let d = lane_distance(lane, hist_lane);
            let w: u128 = 8 * PENALTY_SCALE / (gap as u128 + 1) / (d as u128 + 1);
            proof {
                lemma_div_le((8 * PENALTY_SCALE) as int, gap + 1);
                lemma_div_le((8 * PENALTY_SCALE) as int / (gap + 1), d + 1);
            }
            pen[color] = pen[color] + w;
            i += 1;
        }

        // Colours already given to fork siblings in this row.
        let mut c: usize = 0;
        while c < PALETTE_SIZE
            invariant
                s == self@,
                s.wf(),
                ls == s.lane_colors.len(),
                c <= PALETTE_SIZE,
                forall|k: usize|
                    k < PALETTE_SIZE ==> #[trigger] pen@[k as int] == (if last == k {
                        (10 * PENALTY_SCALE) as int
                    } else {
                        0
                    }) + lane_penalty(s.lane_colors, lane as int, k, ls as int) + history_penalty(
                        s.history,
                        s.row as int,
                        lane as int,
                        k,
                        s.history.len() as int,
                    ) + (if k < c && is_fork_sibling && s.fork_colors.contains(k) {
                        (100 * PENALTY_SCALE) as int
                    } else {
                        0
                    }),
                forall|k: usize|
                    k < PALETTE_SIZE ==> #[trigger] pen@[k as int] <= (10 * PENALTY_SCALE) as int + (8 * PENALTY_SCALE) as int * ls + (8
                        * PENALTY_SCALE) as int * HISTORY_WINDOW + (if k < c {
                        (100 * PENALTY_SCALE) as int
                    } else {
                        0
                    }),
            decreases PALETTE_SIZE - c,
        {
            if is_fork_sibling && self.current_fork_colors.contains(&c) {
                pen[c] = pen[c] + 100 * PENALTY_SCALE;
            }
            c += 1;
        }

        // Colours used more often than the others.
        let mut max_count: usize = 0;
        let mut c: usize = 0;
        while c < PALETTE_SIZE
            invariant
                s == self@,
                s.wf(),
                c <= PALETTE_SIZE,
                max_count == max_usage(s.usage, c as int),
            decreases PALETTE_SIZE - c,
        {
            if self.color_usage_count[c] > max_count {
                max_count = self.color_usage_count[c];
            }
            c += 1;
        }
        proof {
            lemma_max_usage(s.usage, PALETTE_SIZE as int);
        }
        if max_count > 0 {
            let mut c: usize = 0;
            while c < PALETTE_SIZE
                invariant
                    s == self@,
                    s.wf(),
                    ls == s.lane_colors.len(),
                    c <= PALETTE_SIZE,
                    max_count == max_usage(s.usage, PALETTE_SIZE as int),
                    max_count > 0,
                    forall|k: int| 0 <= k < PALETTE_SIZE ==> s.usage[k] <= max_count,
                    forall|k: usize|
                        k < PALETTE_SIZE ==> #[trigger] pen@[k as int] == (if last == k {
                            (10 * PENALTY_SCALE) as int
                        } else {
                            0
                        }) + lane_penalty(s.lane_colors, lane as int, k, ls as int) + history_penalty(
                            s.history,
                            s.row as int,
                            lane as int,
                            k,
                            s.history.len() as int,
                        ) + (if is_fork_sibling && s.fork_colors.contains(k) {
                            (100 * PENALTY_SCALE) as int
                        } else {
                            0
                        }) + (if k < c {
                            fairness_penalty(s.usage, k)
                        } else {
                            0
                        }),
                    forall|k: usize|
                        k < PALETTE_SIZE ==> #[trigger] pen@[k as int] <= (110 * PENALTY_SCALE) as int + (8 * PENALTY_SCALE) as int * ls
                            + (8 * PENALTY_SCALE) as int * HISTORY_WINDOW + (if k < c {
                            (2 * PENALTY_SCALE) as int
                        } else {
                            0
                        }),
                decreases PALETTE_SIZE - c,
            {
                let count = self.color_usage_count[c];
                assert((2 * PENALTY_SCALE) as int * count <= (2 * PENALTY_SCALE) as int * usize::MAX) by (nonlinear_arith)
                    requires
                        count <= usize::MAX,
                ;
                let w: u128 = 2 * PENALTY_SCALE * (count as u128) / (max_count as u128);
                proof {
                    lemma_share_le((2 * PENALTY_SCALE) as int, count as int, max_count as int);
                    assert(w as int == (2 * PENALTY_SCALE) as int * count / max_count as int);
                    assert(w <= 2 * PENALTY_SCALE);
                    assert(pen@[c as int] <= (110 * PENALTY_SCALE) as int + (8 * PENALTY_SCALE) as int * ls + (8 * PENALTY_SCALE) as int
                        * HISTORY_WINDOW);
                    assert((8 * PENALTY_SCALE) as int * ls <= (8 * PENALTY_SCALE) as int * usize::MAX) by (nonlinear_arith)
                        requires
                            ls <= usize::MAX,
                    ;
                }
                pen[c] = pen[c] + w;
                c += 1;
            }
        }
        pen
    }
}

impl ColorAssigner {
    /// Gives `lane` the allowed colour of lowest penalty, scanning the palette
    /// from the colour after the last one chosen; the first such colour wins
    /// ties. Fork siblings avoid the colours given to their siblings in this
    /// row; reserved colours are skipped unless `use_reserved`.
    fn assign_color_advanced(&mut self, lane: usize, is_fork_sibling: bool, use_reserved: bool) -> (r: usize)
        requires
            old(self)@.wf(),
            lane < usize::MAX,
        ensures
            r == chosen_color(old(self)@, lane as int, is_fork_sibling, use_reserved),
            final(self)@ == assigned(old(self)@, lane as int, is_fork_sibling, use_reserved),
            final(self)@.wf(),
    {
        if self.is_main_lane(lane) {
            return MAIN_BRANCH_COLOR;
        }
        let ghost s0 = self@;
        self.ensure_capacity(lane);
        let pen = self.penalties(lane, is_fork_sibling);

        let mut best_color = self.next_color_index;
        let mut best_penalty = u128::MAX;
        let mut k: usize = 0;
        while k < PALETTE_SIZE
            invariant
                k <= PALETTE_SIZE,
                self@ == grown(s0, lane as int),
                s0.wf(),
                forall|c: usize| c < PALETTE_SIZE ==> pen@[c as int] == penalty(s0, lane as int, c, is_fork_sibling),
                forall|c: usize| c < PALETTE_SIZE ==> pen@[c as int] < u128::MAX,
                match best_upto(s0, lane as int, is_fork_sibling, use_reserved, k as int) {
                    Some(b) => best_color == b && best_penalty == penalty(s0, lane as int, b, is_fork_sibling) && b
                        < PALETTE_SIZE,
                    None => best_color == s0.next_color && best_penalty == u128::MAX,
                },
            decreases PALETTE_SIZE - k,
        {
            let color_idx = (self.next_color_index + k) % PALETTE_SIZE;
            if use_reserved || !self.reserved_colors.contains(&color_idx) {
                if pen[color_idx] < best_penalty {
                    best_penalty = pen[color_idx];
                    best_color = color_idx;
                }
            }
            k += 1;
        }

        self.lane_colors[lane] = Some(best_color);
        self.lane_last_color[lane] = best_color;
        self.next_color_index = (best_color + 1) % PALETTE_SIZE;
        self.recent_assignments.push_back((self.current_row, lane, best_color));
        if self.recent_assignments.len() > HISTORY_WINDOW {
            self.recent_assignments.pop_front();
        }
        if self.color_usage_count[best_color] < usize::MAX {
            self.color_usage_count[best_color] = self.color_usage_count[best_color] + 1;
        }
        if is_fork_sibling {
            self.current_fork_colors.insert(best_color);
        }
        proof {
            let s1 = assigned(s0, lane as int, is_fork_sibling, use_reserved);
            lemma_assigned_wf(s0, lane as int, is_fork_sibling, use_reserved);
            assert(self@.lane_colors =~= s1.lane_colors);
            assert(self@.lane_last =~= s1.lane_last);
            assert(self@.history =~= s1.history);
            assert(self@.usage =~= s1.usage);
        }
        best_color
    }

    /// Gives a new branch in `lane` a colour; reserved colours are skipped.
    /// The main lane keeps the main colour.
    pub fn assign_color(&mut self, lane: usize) -> (r: usize)
        requires
            old(self)@.wf(),
            lane < usize::MAX,
        ensures
            r == chosen_color(old(self)@, lane as int, false, false),
            final(self)@ == assigned(old(self)@, lane as int, false, false),
            final(self)@.wf(),
    {
        self.assign_color_advanced(lane, false, false)
    }

    /// Gives `lane` a colour as a fork sibling: colours given to other
    /// siblings since the last `begin_fork` or `advance_row` are avoided.
    pub fn assign_fork_sibling_color(&mut self, lane: usize) -> (r: usize)
        requires
            old(self)@.wf(),
            lane < usize::MAX,
        ensures
            r == chosen_color(old(self)@, lane as int, true, false),
            final(self)@ == assigned(old(self)@, lane as int, true, false),
            final(self)@.wf(),
    {
        self.assign_color_advanced(lane, true, false)
    }

    /// Makes `lane` the main lane, with the reserved main colour. The first
    /// main lane stays the only one: later calls change nothing.
    pub fn assign_main_color(&mut self, lane: usize) -> (r: usize)
        requires
            old(self)@.wf(),
            lane < usize::MAX,
        ensures
            r == MAIN_BRANCH_COLOR,
            final(self)@ == made_main(old(self)@, lane as int),
            final(self)@.wf(),
    {
        if self.main_lane.is_some() {
            return MAIN_BRANCH_COLOR;
        }
        let ghost s0 = self@;
        self.ensure_capacity(lane);
        let color = MAIN_BRANCH_COLOR;
        self.lane_colors[lane] = Some(color);
        self.lane_last_color[lane] = color;
        self.reserve_color(color);
        self.main_lane = Some(lane);
        if self.color_usage_count[color] < usize::MAX {
            self.color_usage_count[color] = self.color_usage_count[color] + 1;
        }
        proof {
            let s1 = made_main(s0, lane as int);
            assert(self@.lane_colors =~= s1.lane_colors);
            assert(self@.lane_last =~= s1.lane_last);
            assert(self@.usage =~= s1.usage);
        }
        color
    }

    /// The colour of a lane that goes on: the main colour on the main lane,
    /// else the lane's current colour, else a newly assigned one.
    pub fn continue_lane(&mut self, lane: usize) -> (r: usize)
        requires
            old(self)@.wf(),
            lane < usize::MAX,
        ensures
            r == continued_color(old(self)@, lane as int),
            final(self)@ == continued(old(self)@, lane as int),
            final(self)@.wf(),
    {
        if self.is_main_lane(lane) {
            return MAIN_BRANCH_COLOR;
        }
        let ghost s0 = self@;
        self.ensure_capacity(lane);
        match self.lane_colors[lane] {
            Some(c) => c,
            None => {
                proof {
                    lemma_assigned_grown(s0, lane as int, false, false);
                }
                self.assign_color(lane)
            },
        }
    }

    /// Ends the branch in `lane`: the lane loses its colour, but keeps it as
    /// its last one. The main lane keeps its colour.
    pub fn release_lane(&mut self, lane: usize)
        requires
            old(self)@.wf(),
        ensures
            final(self)@ == released(old(self)@, lane as int),
            final(self)@.wf(),
    {
        if lane < self.lane_colors.len() && !self.is_main_lane(lane) {
            self.lane_colors[lane] = None;
        }
    }
}

impl Default for ColorAssigner {
    fn default() -> (r: Self)
        ensures
            r@ == initial_state(),
            r@.wf(),
    {
        Self::new()
    }
}

// ---------------------------------------------------------------------------
// Laws of the assigner

proof fn lemma_best_upto(s: ColorState, lane: int, fork: bool, use_reserved: bool, n: int)
    requires
        s.wf(),
        0 <= n <= PALETTE_SIZE,
    ensures
        match best_upto(s, lane, fork, use_reserved, n) {
            Some(b) => {
                &&& b < PALETTE_SIZE
                &&& allowed(s, b, use_reserved)
                &&& forall|k: int|
                    0 <= k < n && allowed(s, candidate(s, k), use_reserved) ==> penalty(s, lane, b, fork) <= penalty(
                        s,
                        lane,
                        #[trigger] candidate(s, k),
                        fork,
                    )
            },
            None => forall|k: int| 0 <= k < n ==> !allowed(s, #[trigger] candidate(s, k), use_reserved),
        },
    decreases n,
{
    if n > 0 {
        lemma_best_upto(s, lane, fork, use_reserved, n - 1);
    }
}

proof fn lemma_every_colour_scanned(s: ColorState, c: usize) -> (k: int)
    requires
        s.wf(),
        c < PALETTE_SIZE,
    ensures
        0 <= k < PALETTE_SIZE,
        candidate(s, k) == c,
{
    if c >= s.next_color {
        c - s.next_color
    } else {
        c + PALETTE_SIZE - s.next_color
    }
}

/// The best colour is a palette colour; whenever some colour is allowed, it
/// is allowed and no allowed colour has a lower penalty. Off the main lane
/// it is the colour an assignment yields.
pub proof fn lemma_best_color_minimal(s: ColorState, lane: int, fork: bool, use_reserved: bool)
    requires
        s.wf(),
    ensures
        best_color(s, lane, fork, use_reserved) < PALETTE_SIZE,
        !is_main(s, lane) ==> chosen_color(s, lane, fork, use_reserved) == best_color(s, lane, fork, use_reserved),
        (exists|c: usize| c < PALETTE_SIZE && allowed(s, c, use_reserved)) ==> {
            &&& allowed(s, best_color(s, lane, fork, use_reserved), use_reserved)
            &&& forall|c: usize|
                c < PALETTE_SIZE && allowed(s, c, use_reserved) ==> penalty(s, lane, best_color(s, lane, fork, use_reserved), fork)
                    <= #[trigger] penalty(s, lane, c, fork)
        },
{
    lemma_best_upto(s, lane, fork, use_reserved, PALETTE_SIZE as int);
    if exists|c: usize| c < PALETTE_SIZE && allowed(s, c, use_reserved) {
        let w = choose|c: usize| c < PALETTE_SIZE && allowed(s, c, use_reserved);
        let kw = lemma_every_colour_scanned(s, w);
        assert(best_upto(s, lane, fork, use_reserved, PALETTE_SIZE as int) is Some);
        assert forall|c: usize| c < PALETTE_SIZE && allowed(s, c, use_reserved) implies penalty(
            s,
            lane,
            best_color(s, lane, fork, use_reserved),
            fork,
        ) <= #[trigger] penalty(s, lane, c, fork) by {
            let k = lemma_every_colour_scanned(s, c);
        }
    }
}

/// Making lanes present keeps the state well formed.
proof fn lemma_grown_wf(s: ColorState, lane: int)
    requires
        s.wf(),
        0 <= lane,
    ensures
        grown(s, lane).wf(),
        grown(s, lane).main_lane == s.main_lane,
        forall|i: int| 0 <= i < s.lane_colors.len() ==> #[trigger] grown(s, lane).lane_colors[i] == s.lane_colors[i],
{
}

/// An assignment keeps the state well formed.
pub proof fn lemma_assigned_wf(s: ColorState, lane: int, fork: bool, use_reserved: bool)
    requires
        s.wf(),
        0 <= lane,
    ensures
        assigned(s, lane, fork, use_reserved).wf(),
        assigned(s, lane, fork, use_reserved).main_lane == s.main_lane,
{
    if !is_main(s, lane) {
        lemma_best_color_minimal(s, lane, fork, use_reserved);
        lemma_grown_wf(s, lane);
        let c = best_color(s, lane, fork, use_reserved);
        let s1 = assigned(s, lane, fork, use_reserved);
        let h2 = s.history.push((s.row, lane as usize, c));
        assert forall|i: int| 0 <= i < s1.history.len() implies (#[trigger] s1.history[i]).2 < PALETTE_SIZE by {
            if h2.len() > HISTORY_WINDOW {
                assert(s1.history[i] == h2[i + 1]);
            }
        }
    }
}

/// Making a lane the main one keeps the state well formed.
proof fn lemma_made_main_wf(s: ColorState, lane: int)
    requires
        s.wf(),
        0 <= lane <= usize::MAX,
    ensures
        made_main(s, lane).wf(),
        s.main_lane is Some ==> made_main(s, lane) == s,
{
    lemma_grown_wf(s, lane);
    if s.main_lane is None {
        let g = grown(s, lane);
        let t = made_main(s, lane);
        assert(lane < g.lane_colors.len());
        assert forall|i: int| 0 <= i < t.lane_colors.len() implies match #[trigger] t.lane_colors[i] {
            Some(c) => c < PALETTE_SIZE,
            None => true,
        } by {
            if i != lane {
                assert(t.lane_colors[i] == g.lane_colors[i]);
            }
        }
        assert forall|i: int| 0 <= i < t.lane_last.len() implies #[trigger] t.lane_last[i] < PALETTE_SIZE by {
            if i != lane {
                assert(t.lane_last[i] == g.lane_last[i]);
            }
        }
        assert(t.reserved.contains(MAIN_BRANCH_COLOR));
        assert(t.lane_colors[(lane as usize) as int] == Some(MAIN_BRANCH_COLOR));
    }
}

/// One call on a `ColorAssigner`, for laws over sequences of calls.
pub enum ColorOp {
    AdvanceRow,
    BeginFork,
    Reserve(usize),
    Assign(usize),
    AssignForkSibling(usize),
    AssignMain(usize),
    Continue(usize),
    Release(usize),
}

/// The state after one call, as the methods' contracts give it.
pub open spec fn step(s: ColorState, op: ColorOp) -> ColorState {
    match op {
        ColorOp::AdvanceRow => ColorState { row: bump(s.row), fork_colors: Set::empty(), ..s },
        ColorOp::BeginFork => ColorState { fork_colors: Set::empty(), ..s },
        ColorOp::Reserve(c) => ColorState { reserved: s.reserved.insert(c), ..s },
        ColorOp::Assign(l) => assigned(s, l as int, false, false),
        ColorOp::AssignForkSibling(l) => assigned(s, l as int, true, false),
        ColorOp::AssignMain(l) => made_main(s, l as int),
        ColorOp::Continue(l) => continued(s, l as int),
        ColorOp::Release(l) => released(s, l as int),
    }
}

/// The state after the calls `ops`, in order.
pub open spec fn run(s: ColorState, ops: Seq<ColorOp>) -> ColorState
    decreases ops.len(),
{
    if ops.len() == 0 {
        s
    } else {
        step(run(s, ops.drop_last()), ops.last())
    }
}

/// `m` is the main lane and shows the main colour.
pub open spec fn main_color_held(s: ColorState, m: usize) -> bool {
    &&& s.main_lane == Some(m)
    &&& m < s.lane_colors.len()
    &&& s.lane_colors[m as int] == Some(MAIN_BRANCH_COLOR)
}

/// Every call keeps the state well formed and keeps a main lane once set.
pub proof fn lemma_step_wf(s: ColorState, op: ColorOp)
    requires
        s.wf(),
    ensures
        step(s, op).wf(),
        s.main_lane is Some ==> step(s, op).main_lane == s.main_lane,
{
    match op {
        ColorOp::Assign(l) => lemma_assigned_wf(s, l as int, false, false),
        ColorOp::AssignForkSibling(l) => lemma_assigned_wf(s, l as int, true, false),
        ColorOp::AssignMain(l) => lemma_made_main_wf(s, l as int),
        ColorOp::Continue(l) => {
            lemma_grown_wf(s, l as int);
            lemma_assigned_wf(s, l as int, false, false);
        },
        _ => {},
    }
}

/// Main-lane colour stability: once lane `m` is the main lane, it stays the
/// main lane and shows the main colour after any calls whatever, releases
/// and assignments of it included, and continuing it yields the main colour.
pub proof fn lemma_main_lane_color_stable(s: ColorState, m: usize, ops: Seq<ColorOp>)
    requires
        s.wf(),
        s.main_lane == Some(m),
    ensures
        run(s, ops).wf(),
        main_color_held(run(s, ops), m),
        continued_color(run(s, ops), m as int) == MAIN_BRANCH_COLOR,
    decreases ops.len(),
{
    if ops.len() > 0 {
        lemma_main_lane_color_stable(s, m, ops.drop_last());
        lemma_step_wf(run(s, ops.drop_last()), ops.last());
    }
}

/// While a main lane is set and some colour is not reserved, an assignment
/// to any other lane never yields the main colour.
pub proof fn lemma_others_avoid_main_color(s: ColorState, lane: int, fork: bool)
    requires
        s.wf(),
        s.main_lane is Some,
        !is_main(s, lane),
        exists|c: usize| c < PALETTE_SIZE && !s.reserved.contains(c),
    ensures
        chosen_color(s, lane, fork, false) != MAIN_BRANCH_COLOR,
        assigned(s, lane, fork, false).main_lane == s.main_lane,
{
    let w = choose|c: usize| c < PALETTE_SIZE && !s.reserved.contains(c);
    assert(allowed(s, w, false));
    lemma_best_color_minimal(s, lane, fork, false);
}

proof fn lemma_lane_penalty_absent(colors: Seq<Option<usize>>, lane: int, c: usize, n: int)
    requires
        0 <= n <= colors.len(),
        forall|i: int| 0 <= i < n ==> colors[i] != Some(c),
    ensures
        lane_penalty(colors, lane, c, n) == 0,
    decreases n,
{
    if n > 0 {
        lemma_lane_penalty_absent(colors, lane, c, n - 1);
    }
}

proof fn lemma_lane_penalty_nonneg(colors: Seq<Option<usize>>, lane: int, c: usize, n: int)
    ensures
        lane_penalty(colors, lane, c, n) >= 0,
    decreases n,
{
    if n > 0 {
        lemma_lane_penalty_nonneg(colors, lane, c, n - 1);
        lemma_div_le((8 * PENALTY_SCALE) as int, dist(lane, n - 1) + 1);
    }
}

proof fn lemma_history_penalty_bounds(h: Seq<(usize, usize, usize)>, row: int, lane: int, c: usize, n: int)
    requires
        0 <= n <= h.len(),
    ensures
        0 <= history_penalty(h, row, lane, c, n) <= (8 * PENALTY_SCALE) as int * n,
    decreases n,
{
    if n > 0 {
        lemma_history_penalty_bounds(h, row, lane, c, n - 1);
        let e = h[n - 1];
        let gap = if row >= e.0 {
            row - e.0
        } else {
            0
        };
        lemma_div_le((8 * PENALTY_SCALE) as int, gap + 1);
        lemma_div_le((8 * PENALTY_SCALE) as int / (gap + 1), dist(lane, e.1 as int) + 1);
    }
}

proof fn lemma_fairness_bounds(u: Seq<usize>, c: usize)
    requires
        u.len() == PALETTE_SIZE,
        c < PALETTE_SIZE,
    ensures
        0 <= fairness_penalty(u, c) <= (2 * PENALTY_SCALE) as int,
{
    lemma_max_usage(u, PALETTE_SIZE as int);
    let m = max_usage(u, PALETTE_SIZE as int);
    if m > 0 {
        lemma_share_le((2 * PENALTY_SCALE) as int, u[c as int] as int, m);
    }
}

/// Fork-sibling distinctness: two lanes other than the main lane, opened
/// one after the other as fork siblings of the same row, get different
/// colours, provided a colour remains that is neither reserved, nor held by
/// any lane, nor given to a sibling.
pub proof fn lemma_fork_siblings_differ(s: ColorState, l1: usize, l2: usize)
    requires
        s.wf(),
        !is_main(s, l1 as int),
        !is_main(s, l2 as int),
        exists|c: usize|
            c < PALETTE_SIZE && c != chosen_color(s, l1 as int, true, false) && #[trigger] allowed(
                assigned(s, l1 as int, true, false),
                c,
                false,
            ) && !s.fork_colors.contains(c) && forall|i: int|
                0 <= i < assigned(s, l1 as int, true, false).lane_colors.len() ==> assigned(
                    s,
                    l1 as int,
                    true,
                    false,
                ).lane_colors[i] != Some(c),
    ensures
        chosen_color(assigned(s, l1 as int, true, false), l2 as int, true, false) != chosen_color(s, l1 as int, true, false),
{
    let c1 = chosen_color(s, l1 as int, true, false);
    let s1 = assigned(s, l1 as int, true, false);
    lemma_best_color_minimal(s, l1 as int, true, false);
    lemma_assigned_wf(s, l1 as int, true, false);
    assert(!is_main(s1, l2 as int));
    let w = choose|c: usize|
        c < PALETTE_SIZE && c != c1 && #[trigger] allowed(s1, c, false) && !s.fork_colors.contains(c) && forall|i: int|
            0 <= i < s1.lane_colors.len() ==> s1.lane_colors[i] != Some(c);
    lemma_best_color_minimal(s1, l2 as int, true, false);
    let g = grown(s1, l2 as int);

    // The witness has a penalty below the fork-sibling weight.
    lemma_lane_penalty_absent(g.lane_colors, l2 as int, w, g.lane_colors.len() as int);
    lemma_history_penalty_bounds(g.history, g.row as int, l2 as int, w, g.history.len() as int);
    lemma_fairness_bounds(g.usage, w);
    assert(!g.fork_colors.contains(w));
    assert(penalty(s1, l2 as int, w, true) < (100 * PENALTY_SCALE) as int);

    // The first sibling's colour carries that weight.
    lemma_lane_penalty_nonneg(g.lane_colors, l2 as int, c1, g.lane_colors.len() as int);
    lemma_history_penalty_bounds(g.history, g.row as int, l2 as int, c1, g.history.len() as int);
    lemma_fairness_bounds(g.usage, c1);
    assert(g.fork_colors.contains(c1));
    assert(penalty(s1, l2 as int, c1, true) >= (100 * PENALTY_SCALE) as int);
}

} // verus!
