//! Running a chain reaction on a board.

use vstd::prelude::*;
use std::collections::VecDeque;
use crate::cascade::{
    captured,
    critical_cells,
    critical_in_row,
    lemma_ignite,
    lemma_settled,
    lemma_step_wf,
    lemma_triggered_among,
    triggered,
    Burst,
    Cascade,
    Effect,
};
use crate::cell::{max_capacity, Cell};
use crate::grid::{
    adjacent,
    at_rest,
    get_neighbors,
    grid_view,
    lemma_neighbors,
    neighbors,
    playable,
};
use crate::settling::{lemma_run_records, lemma_settled_rests};

verus! {

/// The cascade that a grid, the cells still queued behind `front`, and an
/// effects log stand for, with `front` at the head of the queue.
pub open spec fn cascade_of(
    grid: &Vec<Vec<Cell>>,
    front: Seq<Burst>,
    queue: &VecDeque<Burst>,
    effects: &Vec<Effect>,
) -> Cascade {
    Cascade { grid: grid_view(grid), queue: front + queue@, effects: effects@ }
}

/// Explodes the cell `front`, which has just left the queue: empties it,
/// charges each neighbour and hands it to the exploding cell's owner, records
/// what happened, and queues the neighbours that reached capacity.
fn explode(
    grid: &mut Vec<Vec<Cell>>,
    queue: &mut VecDeque<Burst>,
    effects: &mut Vec<Effect>,
    front: Burst,
)
    requires
        cascade_of(old(grid), seq![front], old(queue), old(effects)).wf(),
        cascade_of(old(grid), seq![front], old(queue), old(effects)).can_explode(),
        cascade_of(old(grid), seq![front], old(queue), old(effects)).paced(),
    ensures
        cascade_of(final(grid), Seq::empty(), final(queue), final(effects)) == cascade_of(
            old(grid),
            seq![front],
            old(queue),
            old(effects),
        ).step(),
        cascade_of(final(grid), Seq::empty(), final(queue), final(effects)).paced(),
{
    let ghost before = cascade_of(grid, seq![front], queue, effects);
    let ghost waiting = queue@;
    let ghost recorded = effects@;
    assert(before.queue.drop_first() =~= waiting);
    let rows = grid.len();
    let cols = grid[0].len();
    let owner = grid[front.row][front.col].owner;
    grid[front.row][front.col] = Cell::new();
    effects.push(Effect::Explosion { row: front.row, col: front.col, wave: front.wave });
    assert(front.wave < effects.len());
    let wave = front.wave + 1;
    let around = get_neighbors(rows, cols, front.row, front.col);
    proof {
        lemma_neighbors(rows, cols, front.row, front.col);
        assert forall|r: int| 0 <= r < rows implies (#[trigger] grid@[r])@.len() == cols by {
            assert(before.grid[r].len() == cols);
        }
    }
    let mut i: usize = 0;
    while i < around.len()
        invariant
            0 <= i <= around.len(),
            rows == before.grid.len(),
            cols == before.grid[0].len(),
            front.row < rows,
            front.col < cols,
            wave == front.wave + 1,
            owner == before.grid[front.row as int][front.col as int].owner,
            before.wf(),
            before.can_explode(),
            before.queue[0] == front,
            around@ == before.around(),
            around@ == neighbors(rows, cols, front.row, front.col),
            around@.no_duplicates(),
            forall|r: usize, c: usize|
                around@.contains((r, c)) <==> r < rows && c < cols && adjacent(
                    r as int,
                    c as int,
                    front.row as int,
                    front.col as int,
                ),
            grid@.len() == rows,
            forall|r: int| 0 <= r < rows ==> (#[trigger] grid@[r])@.len() == cols,
            forall|r: int, c: int|
                0 <= r < rows && 0 <= c < cols ==> (#[trigger] grid@[r]@[c]) == (if r == front.row
                    && c == front.col {
                    Cell::empty()
                } else if around@.take(i as int).contains((r as usize, c as usize)) {
                    before.grid[r][c].charged(owner)
                } else {
                    before.grid[r][c]
                }),
            queue@ == waiting + triggered(before.grid, around@.take(i as int), wave),
            effects@ == recorded.push(
                Effect::Explosion { row: front.row, col: front.col, wave: front.wave },
            ) + captured(before.grid, around@.take(i as int), front),
        decreases around.len() - i,
    {
        let (nr, nc) = around[i];
        proof {
            assert(around@.take(i as int + 1).drop_last() =~= around@.take(i as int));
        }
        let old_owner = grid[nr][nc].owner;
        grid[nr][nc].power += 1;
        grid[nr][nc].owner = owner;
        if old_owner != owner {
            effects.push(
                Effect::Capture {
                    row: nr,
                    col: nc,
                    from_row: front.row,
                    from_col: front.col,
                    wave: front.wave,
                },
            );
        }
        if grid[nr][nc].power >= max_capacity(nr, nc) {
            queue.push_back(Burst { row: nr, col: nc, wave });
        }
        i += 1;
    }
    proof {
        assert(around@.take(i as int) =~= around@);
        let after = cascade_of(grid, Seq::empty(), queue, effects);
        let next = before.step();
        assert(after.grid =~= next.grid) by {
            assert forall|r: int| 0 <= r < rows implies #[trigger] after.grid[r]
                =~= next.grid[r] by {}
        }
        lemma_triggered_among(before.grid, before.around(), wave);
    }
}

/// Collects the cells at capacity, row by row and from left to right.
fn find_critical(grid: &Vec<Vec<Cell>>) -> (queue: VecDeque<Burst>)
    ensures
        queue@ == critical_cells(grid_view(grid), grid_view(grid).len()),
{
    let mut queue: VecDeque<Burst> = VecDeque::new();
    let ghost cells = grid_view(grid);
    for r in 0..grid.len()
        invariant
            cells == grid_view(grid),
            queue@ == critical_cells(cells, r as nat),
    {
        let ghost above = queue@;
        let cols = grid[r].len();
        for c in 0..cols
            invariant
                r < grid.len(),
                cols == grid[r as int].len(),
                cells == grid_view(grid),
                queue@ == above + critical_in_row(cells[r as int], r, c as nat),
        {
            if grid[r][c].power >= max_capacity(r, c) {
                queue.push_back(Burst { row: r, col: c, wave: 0 });
            }
        }
    }
    queue
}

/// Whether every neighbour of `front` can take one more unit of charge.
fn has_room(grid: &Vec<Vec<Cell>>, front: Burst) -> (room: bool)
    requires
        playable(grid_view(grid)),
        front.row < grid_view(grid).len(),
        front.col < grid_view(grid)[0].len(),
    ensures
        room == (Cascade {
            grid: grid_view(grid),
            queue: seq![front],
            effects: Seq::empty(),
        }).can_explode(),
{
    let ghost probe = Cascade { grid: grid_view(grid), queue: seq![front], effects: Seq::empty() };
    let rows = grid.len();
    let cols = grid[0].len();
    let around = get_neighbors(rows, cols, front.row, front.col);
    for i in 0..around.len()
        invariant
            probe == (Cascade { grid: grid_view(grid), queue: seq![front], effects: Seq::empty() }),
            around@ == probe.around(),
            playable(probe.grid),
            rows == probe.grid.len(),
            cols == probe.grid[0].len(),
            forall|p: (usize, usize)| #[trigger] around@.contains(p) ==> p.0 < rows && p.1 < cols,
            forall|k: int| 0 <= k < i ==> probe.at(#[trigger] around@[k]).power < u8::MAX,
    {
        let (nr, nc) = around[i];
        assert(around@.contains((nr, nc)));
        if grid[nr][nc].power == u8::MAX {
            return false;
        }
    }
    true
}

/// Runs the cascade that starts on `grid` until no cell waits to explode:
/// queues the cells at capacity, then explodes the queued cells first in,
/// first out, appending what happens to `effects`.
///
/// A cascade need not come to rest: on a crowded board cells can be queued
/// faster than the queue is served. The caller answers for that it does;
/// `settles_within` finds out.
pub fn settle(grid: &mut Vec<Vec<Cell>>, effects: &mut Vec<Effect>)
    requires
        playable(grid_view(old(grid))),
        Cascade::ignite(grid_view(old(grid)), old(effects)@).settles(),
    ensures
        grid_view(final(grid)) == Cascade::ignite(
            grid_view(old(grid)),
            old(effects)@,
        ).settled().grid,
        final(effects)@ == Cascade::ignite(grid_view(old(grid)), old(effects)@).settled().effects,
        at_rest(grid_view(final(grid))),
        playable(grid_view(final(grid))),
        grid_view(final(grid)).len() == grid_view(old(grid)).len(),
        grid_view(final(grid))[0].len() == grid_view(old(grid))[0].len(),
        final(effects)@.len() >= old(effects)@.len(),
        final(effects)@.take(old(effects)@.len() as int) == old(effects)@,
{
    let ghost start = Cascade::ignite(grid_view(grid), effects@);
    let ghost mut fuel: nat = choose|n: nat| start.settles_in(n);
    let mut queue = find_critical(grid);
    proof {
        lemma_settled_rests(grid_view(grid), effects@);
        lemma_ignite(grid_view(grid), effects@);
        lemma_settled(start);
        lemma_run_records(start, fuel);
    }
    loop
        invariant
            cascade_of(grid, Seq::empty(), &queue, effects).wf(),
            cascade_of(grid, Seq::empty(), &queue, effects).paced(),
            cascade_of(grid, Seq::empty(), &queue, effects).settles_in(fuel),
            cascade_of(grid, Seq::empty(), &queue, effects).run(fuel) == start.settled(),
        ensures
            cascade_of(grid, Seq::empty(), &queue, effects) == start.settled(),
        decreases fuel,
    {
        let ghost now = cascade_of(grid, Seq::empty(), &queue, effects);
        match queue.pop_front() {
            None => {
                break ;
            },
            Some(front) => {
                proof {
                    assert(cascade_of(grid, seq![front], &queue, effects).queue =~= now.queue);
                    lemma_step_wf(now);
                }
                explode(grid, &mut queue, effects, front);
                proof {
                    fuel = (fuel - 1) as nat;
                }
            },
        }
    }
}

/// Whether the cascade that starts on `grid` comes to rest within `budget`
/// explosions, none of which charges a cell beyond the range of its power.
pub fn settles_within(grid: Vec<Vec<Cell>>, budget: usize) -> (settles: bool)
    requires
        playable(grid_view(&grid)),
    ensures
        settles == Cascade::ignite(grid_view(&grid), Seq::empty()).settles_in(budget as nat),
{
    let ghost start = Cascade::ignite(grid_view(&grid), Seq::empty());
    let mut scratch = grid;
    let mut effects: Vec<Effect> = Vec::new();
    let mut queue = find_critical(&scratch);
    proof {
        lemma_ignite(grid_view(&scratch), effects@);
    }
    let mut left = budget;
    loop
        invariant
            start == Cascade::ignite(grid_view(&grid), Seq::empty()),
            cascade_of(&scratch, Seq::empty(), &queue, &effects).wf(),
            cascade_of(&scratch, Seq::empty(), &queue, &effects).paced(),
            cascade_of(&scratch, Seq::empty(), &queue, &effects).settles_in(left as nat)
                == start.settles_in(budget as nat),
        decreases left,
    {
        let ghost now = cascade_of(&scratch, Seq::empty(), &queue, &effects);
        match queue.pop_front() {
            None => {
                return true;
            },
            Some(front) => {
                proof {
                    assert(cascade_of(&scratch, seq![front], &queue, &effects).queue =~= now.queue);
                    lemma_step_wf(now);
                }
                if left == 0 {
                    return false;
                }
                let room = has_room(&scratch, front);
                if !room {
                    return false;
                }
                explode(&mut scratch, &mut queue, &mut effects, front);
                left -= 1;
            },
        }
    }
}

} // verus!
