use vstd::prelude::*;
use crate::error::TurmiteError;
use crate::grid::TileGrid;
use crate::heading::Heading;
use crate::marker::Marker;
use crate::pattern::AntPattern;
use crate::pattern::has_marker;
use crate::pattern::lemma_next_spec_total;

verus! {

/// The agent: its grid coordinate and facing direction. Exactly one agent
/// exists for the life of a simulation.
#[derive(Clone, Copy, Debug, PartialEq, Eq, Structural)]
pub struct AntState {
    pub x: i64,
    pub y: i64,
    pub heading: Heading,
}

/// The agent in the mathematical model: the same state over unbounded
/// coordinates.
pub struct AntModel {
    pub x: int,
    pub y: int,
    pub heading: Heading,
}

impl View for AntState {
    type V = AntModel;

    open spec fn view(&self) -> AntModel {
        AntModel { x: self.x as int, y: self.y as int, heading: self.heading }
    }
}

impl AntState {
    /// The initial agent: at the origin, facing north.
    pub fn origin() -> (r: AntState)
        ensures
            r.x == 0 && r.y == 0 && r.heading == Heading::North,
    {
        AntState { x: 0, y: 0, heading: Heading::North }
    }
}

/// One tick of the state machine: read the marker under the agent (the
/// cyclic lookup on a revisit, the first-entry rule on a blank cell), paint
/// the cell with the marker the rule yields, turn, and advance one step.
/// `None` when the cell holds a marker that does not originate from the
/// table.
pub open spec fn tick_spec(p: AntPattern, g: Map<(int, int), Marker>, a: AntModel) -> Option<
    (Map<(int, int), Marker>, AntModel),
> {
    let c = (a.x, a.y);
    let looked = if g.contains_key(c) {
        p.next_spec(g[c])
    } else {
        Some(p.first_spec())
    };
    match looked {
        None => None,
        Some(pair) => {
            let h = a.heading.after_turn(pair.1);
            Some(
                (
                    g.insert(c, pair.0),
                    AntModel { x: a.x + h.dx(), y: a.y + h.dy(), heading: h },
                ),
            )
        },
    }
}

/// The state after `k` ticks, or `None` once any tick fails.
pub open spec fn run_spec(
    p: AntPattern,
    g: Map<(int, int), Marker>,
    a: AntModel,
    k: nat,
) -> Option<(Map<(int, int), Marker>, AntModel)>
    decreases k,
{
    if k == 0 {
        Some((g, a))
    } else {
        match run_spec(p, g, a, (k - 1) as nat) {
            None => None,
            Some(pair) => tick_spec(p, pair.0, pair.1),
        }
    }
}

/// Advances the simulation by one tick. On success, grid and agent hold
/// exactly the state `tick_spec` prescribes; on failure (a marker that does
/// not originate from the table) nothing is changed and the typed internal
/// error is returned.
pub fn step(p: &AntPattern, grid: &mut TileGrid, ant: &mut AntState) -> (r: Result<
    (),
    TurmiteError,
>)
    requires
        p.wf(),
        old(grid).wf(),
        i64::MIN < old(ant).x < i64::MAX,
        i64::MIN < old(ant).y < i64::MAX,
    ensures
        final(grid).wf(),
        r matches Ok(()) ==> tick_spec(*p, old(grid)@, old(ant)@) == Some(
            (final(grid)@, final(ant)@),
        ),
        r matches Err(e) ==> e == TurmiteError::UnknownMarker && tick_spec(
            *p,
            old(grid)@,
            old(ant)@,
        ) is None && final(grid)@ == old(grid)@ && *final(ant) == *old(ant),
        old(grid)@.dom().subset_of(final(grid)@.dom()),
{
    let looked = match grid.get(ant.x, ant.y) {
        Some(m) => match p.next(m) {
            Ok(pair) => pair,
            Err(e) => {
                return Err(e);
            },
        },
        None => p.first(),
    };
    grid.set(ant.x, ant.y, looked.0);
    ant.heading.apply_turn(looked.1);
    match ant.heading {
        Heading::North => ant.y = ant.y + 1,
        Heading::South => ant.y = ant.y - 1,
        Heading::East => ant.x = ant.x + 1,
        Heading::West => ant.x = ant.x - 1,
    }
    Ok(())
}

/// Advances the simulation by `ticks` ticks, stopping at the first failing
/// tick with its error and the state reached so far.
pub fn run(p: &AntPattern, grid: &mut TileGrid, ant: &mut AntState, ticks: u64) -> (r: Result<
    (),
    TurmiteError,
>)
    requires
        p.wf(),
        old(grid).wf(),
        old(ant).x - ticks > i64::MIN,
        old(ant).x + ticks < i64::MAX,
        old(ant).y - ticks > i64::MIN,
        old(ant).y + ticks < i64::MAX,
    ensures
        final(grid).wf(),
        r matches Ok(()) ==> run_spec(*p, old(grid)@, old(ant)@, ticks as nat) == Some(
            (final(grid)@, final(ant)@),
        ),
        r matches Err(e) ==> e == TurmiteError::UnknownMarker && run_spec(
            *p,
            old(grid)@,
            old(ant)@,
            ticks as nat,
        ) is None,
        old(grid)@.dom().subset_of(final(grid)@.dom()),
{
    let ghost g0 = old(grid)@;
    let ghost a0 = old(ant)@;
    let mut i: u64 = 0;
    while i < ticks
        invariant
            p.wf(),
            grid.wf(),
            g0 == old(grid)@,
            a0 == old(ant)@,
            0 <= i <= ticks,
            a0.x - ticks > i64::MIN,
            a0.x + ticks < i64::MAX,
            a0.y - ticks > i64::MIN,
            a0.y + ticks < i64::MAX,
            a0.x - i <= ant.x <= a0.x + i,
            a0.y - i <= ant.y <= a0.y + i,
            run_spec(*p, g0, a0, i as nat) == Some((grid@, ant@)),
            g0.dom().subset_of(grid@.dom()),
        decreases ticks - i,
    {
        let ghost g_before = grid@;
        let ghost a_before = ant@;
        match step(p, grid, ant) {
            Ok(()) => (),
            Err(e) => {
                proof {
                    assert(grid@ == g_before && ant@ == a_before);
                    assert(tick_spec(*p, g_before, a_before) is None);
                    assert(run_spec(*p, g0, a0, (i + 1) as nat) is None);
                    lemma_run_none_persists(*p, g0, a0, (i + 1) as nat, ticks as nat);
                    assert(g0.dom().subset_of(grid@.dom()));
                }
                return Err(e);
            },
        }
        i = i + 1;
        proof {
            assert(run_spec(*p, g0, a0, i as nat) == tick_spec(*p, g_before, a_before));
        }
    }
    Ok(())
}

/// Once a run has failed, every longer run fails too.
proof fn lemma_run_none_persists(
    p: AntPattern,
    g: Map<(int, int), Marker>,
    a: AntModel,
    j: nat,
    k: nat,
)
    requires
        j <= k,
        run_spec(p, g, a, j) is None,
    ensures
        run_spec(p, g, a, k) is None,
    decreases k,
{
    if j < k {
        lemma_run_none_persists(p, g, a, j, (k - 1) as nat);
    }
}

/// Every marker of the grid originates from the table. The step engine is
/// the only writer of the grid, and it only ever writes markers of the
/// table, so the property is an invariant of the simulation.
pub open spec fn grid_from_table(p: AntPattern, g: Map<(int, int), Marker>) -> bool {
    forall|c: (int, int)| #[trigger] g.dom().contains(c) ==> has_marker(p.marker_seq(), g[c])
}

/// Law: while every grid marker originates from the table, a tick cannot
/// fail, and it leaves the grid in the same condition: the lookup failure is
/// structurally impossible when the grid is written only by the step engine.
pub proof fn lemma_tick_total(p: AntPattern, g: Map<(int, int), Marker>, a: AntModel)
    requires
        p.wf(),
        grid_from_table(p, g),
    ensures
        tick_spec(p, g, a) is Some,
        grid_from_table(p, tick_spec(p, g, a)->Some_0.0),
{
    let c = (a.x, a.y);
    if g.contains_key(c) {
        lemma_next_spec_total(&p, g[c]);
    } else {
        assert(has_marker(p.marker_seq(), p.marker_seq()[1]));
    }
    let written = tick_spec(p, g, a)->Some_0.0;
    assert forall|k: (int, int)| #[trigger] written.dom().contains(k) implies has_marker(
        p.marker_seq(),
        written[k],
    ) by {
        if k == c {
            if g.contains_key(c) {
                lemma_next_spec_total(&p, g[c]);
            } else {
                assert(has_marker(p.marker_seq(), p.marker_seq()[1]));
            }
        }
    }
}

/// Law: a whole run succeeds while every grid marker originates from the
/// table, and the grid it leaves is in the same condition.
pub proof fn lemma_run_total(p: AntPattern, g: Map<(int, int), Marker>, a: AntModel, k: nat)
    requires
        p.wf(),
        grid_from_table(p, g),
    ensures
        run_spec(p, g, a, k) is Some,
        grid_from_table(p, run_spec(p, g, a, k)->Some_0.0),
    decreases k,
{
    if k > 0 {
        lemma_run_total(p, g, a, (k - 1) as nat);
        let mid = run_spec(p, g, a, (k - 1) as nat)->Some_0;
        lemma_tick_total(p, mid.0, mid.1);
    }
}

/// Law: the step relation is a function of its inputs. Two runs from equal
/// initial states with the same pattern agree after every number of ticks,
/// so the sequence of cell writes and the final agent state of a run are
/// determined by the pattern and the initial state alone.
pub proof fn lemma_run_deterministic(
    p: AntPattern,
    g1: Map<(int, int), Marker>,
    a1: AntModel,
    g2: Map<(int, int), Marker>,
    a2: AntModel,
    k: nat,
)
    requires
        g1 == g2,
        a1 == a2,
    ensures
        run_spec(p, g1, a1, k) == run_spec(p, g2, a2, k),
{
}

/// Law: the set of painted coordinates only grows. A coordinate present in
/// the grid is still present after any number of ticks; cells are repainted,
/// never removed.
pub proof fn lemma_grid_monotone(p: AntPattern, g: Map<(int, int), Marker>, a: AntModel, k: nat)
    ensures
        run_spec(p, g, a, k) matches Some(pair) ==> g.dom().subset_of(pair.0.dom()),
    decreases k,
{
    if k > 0 {
        lemma_grid_monotone(p, g, a, (k - 1) as nat);
        if run_spec(p, g, a, k) is Some {
            let mid = run_spec(p, g, a, (k - 1) as nat)->Some_0;
            assert(mid.0.dom().subset_of(run_spec(p, g, a, k)->Some_0.0.dom()));
        }
    }
}

/// The simulation context: the rule table, the grid, and the agent, owned
/// together and advanced only through `step` and `run`. The table is never
/// mutated after construction.
pub struct Turmite {
    pub pattern: AntPattern,
    pub grid: TileGrid,
    pub ant: AntState,
}

impl Turmite {
    /// Well-formed: the table and grid invariants hold, and every marker of
    /// the grid originates from the table.
    pub open spec fn wf(&self) -> bool {
        self.pattern.wf() && self.grid.wf() && grid_from_table(self.pattern, self.grid@)
    }

    /// A fresh simulation over a parsed table: empty grid, agent at the
    /// origin facing north.
    pub fn new(pattern: AntPattern) -> (r: Turmite)
        requires
            pattern.wf(),
        ensures
            r.wf(),
            r.pattern == pattern,
            r.grid@ == Map::<(int, int), Marker>::empty(),
            r.ant@ == (AntModel { x: 0, y: 0, heading: Heading::North }),
    {
        Turmite { pattern, grid: TileGrid::new(), ant: AntState::origin() }
    }

    /// One tick over the owned state. The context's invariant rules the
    /// lookup failure out: stepping always succeeds.
    pub fn step(&mut self) -> (r: Result<(), TurmiteError>)
        requires
            old(self).wf(),
            i64::MIN < old(self).ant.x < i64::MAX,
            i64::MIN < old(self).ant.y < i64::MAX,
        ensures
            final(self).wf(),
            final(self).pattern == old(self).pattern,
            r is Ok,
            tick_spec(old(self).pattern, old(self).grid@, old(self).ant@) == Some(
                (final(self).grid@, final(self).ant@),
            ),
            old(self).grid@.dom().subset_of(final(self).grid@.dom()),
    {
        proof {
            lemma_tick_total(self.pattern, self.grid@, self.ant@);
        }
        step(&self.pattern, &mut self.grid, &mut self.ant)
    }

    /// `ticks` ticks over the owned state; under the context's invariant the
    /// whole run succeeds.
    pub fn run(&mut self, ticks: u64) -> (r: Result<(), TurmiteError>)
        requires
            old(self).wf(),
            old(self).ant.x - ticks > i64::MIN,
            old(self).ant.x + ticks < i64::MAX,
            old(self).ant.y - ticks > i64::MIN,
            old(self).ant.y + ticks < i64::MAX,
        ensures
            final(self).wf(),
            final(self).pattern == old(self).pattern,
            r is Ok,
            run_spec(old(self).pattern, old(self).grid@, old(self).ant@, ticks as nat) == Some(
                (final(self).grid@, final(self).ant@),
            ),
            old(self).grid@.dom().subset_of(final(self).grid@.dom()),
    {
        proof {
            lemma_run_total(self.pattern, self.grid@, self.ant@, ticks as nat);
        }
        run(&self.pattern, &mut self.grid, &mut self.ant, ticks)
    }
}

} // verus!
