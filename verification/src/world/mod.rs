//! The play grid and what lives on it.

pub mod grid;

use crate::chance::toss;
use grid::{Grid, GridView};
use vstd::prelude::*;

verus! {

/// What a cell of the play grid is made of. `Solid` and `Wall` stop an
/// entity; `Wall` is rock with floor right below it, `Solid` any other
/// rock.
#[derive(Clone, Copy, Debug, PartialEq, Eq, Structural, Hash)]
pub enum Tile {
    Grass,
    Water,
    Solid,
    Wall,
    Floor,
}

impl Tile {
    /// Whether the tile stops an entity.
    pub open spec fn spec_is_solid(self) -> bool {
        self == Tile::Solid || self == Tile::Wall
    }

    /// Grass for heads, water for tails.
    pub fn of_toss(heads: bool) -> (tile: Tile)
        ensures
            tile == if heads {
                Tile::Grass
            } else {
                Tile::Water
            },
    {
        if heads {
            Tile::Grass
        } else {
            Tile::Water
        }
    }

    /// Grass or water, as a coin falls.
    pub fn random() -> (tile: Tile)
        ensures
            tile == Tile::Grass || tile == Tile::Water,
    {
        Tile::of_toss(toss())
    }

    /// Whether the tile stops an entity.
    #[verifier::when_used_as_spec(spec_is_solid)]
    pub fn is_solid(self) -> (solid: bool)
        ensures
            solid == self.spec_is_solid(),
    {
        match self {
            Tile::Solid | Tile::Wall => true,
            _ => false,
        }
    }
}

/// One slot of the play grid.
#[derive(Clone, Copy, Debug, PartialEq, Eq, Structural)]
pub struct Cell {
    pub tile: Tile,
}

impl Cell {
    /// A cell made of `tile`.
    pub fn new(tile: Tile) -> (cell: Cell)
        ensures
            cell.tile == tile,
    {
        Cell { tile }
    }
}

/// Whether the cell at `(x, y)` stops an entity. Nothing outside the grid
/// does, nor does an empty slot.
pub open spec fn is_solid_at(grid: GridView<Cell>, x: int, y: int) -> bool {
    match grid.get(x, y) {
        Some(cell) => cell.tile.spec_is_solid(),
        None => false,
    }
}

/// Whether `(x, y)` lies in the given ranges of columns and rows, both ends
/// of each range included.
pub open spec fn in_sweep(
    start_x: int,
    end_x: int,
    start_y: int,
    end_y: int,
    x: int,
    y: int,
) -> bool {
    start_x <= x <= end_x && start_y <= y <= end_y
}

/// Whether `a` comes before `b` when cells are read row by row.
pub open spec fn scans_before(a: (u32, u32), b: (u32, u32)) -> bool {
    a.1 < b.1 || (a.1 == b.1 && a.0 < b.0)
}

/// Whether `tiles` lists the cells of the given ranges that stop an entity:
/// each of them once, in the order in which the rows are read, and no
/// other cell.
pub open spec fn is_collision_list(
    grid: GridView<Cell>,
    start_x: int,
    end_x: int,
    start_y: int,
    end_y: int,
    tiles: Seq<(u32, u32)>,
) -> bool {
    &&& forall|k: int|
        0 <= k < tiles.len() ==> in_sweep(
            start_x,
            end_x,
            start_y,
            end_y,
            (#[trigger] tiles[k]).0 as int,
            tiles[k].1 as int,
        ) && is_solid_at(grid, tiles[k].0 as int, tiles[k].1 as int)
    &&& forall|x: int, y: int|
        in_sweep(start_x, end_x, start_y, end_y, x, y) && #[trigger] is_solid_at(grid, x, y)
            ==> exists|k: int|
            0 <= k < tiles.len() && (#[trigger] tiles[k]).0 == x && tiles[k].1 == y
    &&& forall|j: int, k: int|
        0 <= j < k < tiles.len() ==> scans_before(#[trigger] tiles[j], #[trigger] tiles[k])
}

/// The cells that a moving entity may run into, kept between steps so that
/// gathering them does not allocate anew. Each is given by its column and
/// row in the grid.
pub struct CollisionData {
    tiles: Vec<(u32, u32)>,
}

impl View for CollisionData {
    type V = Seq<(u32, u32)>;

    closed spec fn view(&self) -> Seq<(u32, u32)> {
        self.tiles@
    }
}

impl CollisionData {
    /// Nothing gathered.
    pub fn new() -> (data: CollisionData)
        ensures
            data@ =~= Seq::<(u32, u32)>::empty(),
    {
        CollisionData { tiles: Vec::new() }
    }

    /// Forgets the gathered cells.
    pub fn reset(&mut self)
        ensures
            final(self)@ =~= Seq::<(u32, u32)>::empty(),
    {
        self.tiles.clear();
    }

    /// Adds the cell in column `x` and row `y` behind those gathered.
    pub fn add(&mut self, x: u32, y: u32)
        ensures
            final(self)@ == old(self)@.push((x, y)),
    {
        self.tiles.push((x, y));
    }

    /// The number of cells gathered.
    pub fn count(&self) -> (count: usize)
        ensures
            count == self@.len(),
    {
        self.tiles.len()
    }

    /// The column and row of the cell gathered at place `index`.
    pub fn tile(&self, index: usize) -> (tile: (u32, u32))
        requires
            index < self@.len(),
        ensures
            tile == self@[index as int],
    {
        self.tiles[index]
    }
}

/// Gathers in `collision_data` the cells that stop an entity among the
/// columns `start_x` to `end_x` of the rows `start_y` to `end_y`, both ends
/// included, row by row. What was gathered before is forgotten.
pub fn get_collision_tiles(
    start_x: u32,
    end_x: u32,
    start_y: u32,
    end_y: u32,
    grid: &Grid<Cell>,
    collision_data: &mut CollisionData,
)
    ensures
        is_collision_list(
            grid@,
            start_x as int,
            end_x as int,
            start_y as int,
            end_y as int,
            final(collision_data)@,
        ),
{
    collision_data.reset();
    let width = grid.width();
    let height = grid.height();
    if width == 0 || height == 0 || start_x > end_x || start_y > end_y || start_x >= width
        || start_y >= height {
        assert forall|x: int, y: int|
            in_sweep(start_x as int, end_x as int, start_y as int, end_y as int, x, y)
            implies !#[trigger] is_solid_at(grid@, x, y) by {
            assert(!grid@.in_bounds(x, y));
        }
        return ;
    }
    let last_x: u32 = if end_x < width {
        end_x
    } else {
        width - 1
    };
    let last_y: u32 = if end_y < height {
        end_y
    } else {
        height - 1
    };
    let mut y: u32 = start_y;
    while y <= last_y
        invariant
            width == grid@.width,
            height == grid@.height,
            start_x <= last_x < width,
            start_y <= last_y < height,
            last_x <= end_x,
            last_y <= end_y,
            last_x == end_x || last_x == width - 1,
            last_y == end_y || last_y == height - 1,
            start_y <= y <= last_y + 1,
            forall|k: int|
                0 <= k < collision_data@.len() ==> in_sweep(
                    start_x as int,
                    end_x as int,
                    start_y as int,
                    end_y as int,
                    (#[trigger] collision_data@[k]).0 as int,
                    collision_data@[k].1 as int,
                ) && is_solid_at(grid@, collision_data@[k].0 as int, collision_data@[k].1 as int)
                    && collision_data@[k].1 < y,
            forall|cx: int, cy: int|
                in_sweep(start_x as int, end_x as int, start_y as int, end_y as int, cx, cy)
                    && cy < y && #[trigger] is_solid_at(grid@, cx, cy) ==> exists|k: int|
                    0 <= k < collision_data@.len() && (#[trigger] collision_data@[k]).0 == cx
                        && collision_data@[k].1 == cy,
            forall|j: int, k: int|
                0 <= j < k < collision_data@.len() ==> scans_before(
                    #[trigger] collision_data@[j],
                    #[trigger] collision_data@[k],
                ),
        decreases last_y + 1 - y,
    {
        let mut x: u32 = start_x;
        while x <= last_x
            invariant
                width == grid@.width,
                height == grid@.height,
                start_x <= last_x < width,
                start_y <= y <= last_y < height,
                last_x <= end_x,
                last_y <= end_y,
                last_x == end_x || last_x == width - 1,
                start_x <= x <= last_x + 1,
                forall|k: int|
                    0 <= k < collision_data@.len() ==> in_sweep(
                        start_x as int,
                        end_x as int,
                        start_y as int,
                        end_y as int,
                        (#[trigger] collision_data@[k]).0 as int,
                        collision_data@[k].1 as int,
                    ) && is_solid_at(
                        grid@,
                        collision_data@[k].0 as int,
                        collision_data@[k].1 as int,
                    ) && (collision_data@[k].1 < y || (collision_data@[k].1 == y
                        && collision_data@[k].0 < x)),
                forall|cx: int, cy: int|
                    in_sweep(start_x as int, end_x as int, start_y as int, end_y as int, cx, cy)
                        && (cy < y || (cy == y && cx < x)) && #[trigger] is_solid_at(
                        grid@,
                        cx,
                        cy,
                    ) ==> exists|k: int|
                        0 <= k < collision_data@.len() && (#[trigger] collision_data@[k]).0 == cx
                            && collision_data@[k].1 == cy,
                forall|j: int, k: int|
                    0 <= j < k < collision_data@.len() ==> scans_before(
                        #[trigger] collision_data@[j],
                        #[trigger] collision_data@[k],
                    ),
            decreases last_x + 1 - x,
        {
            let solid = match grid.get(x, y) {
                Some(cell) => cell.tile.is_solid(),
                None => false,
            };
            let ghost before = collision_data@;
            if solid {
                collision_data.add(x, y);
            }
            proof {
                assert(solid == is_solid_at(grid@, x as int, y as int));
                assert forall|cx: int, cy: int|
                    in_sweep(start_x as int, end_x as int, start_y as int, end_y as int, cx, cy)
                        && (cy < y || (cy == y && cx < x + 1)) && #[trigger] is_solid_at(
                        grid@,
                        cx,
                        cy,
                    ) implies exists|k: int|
                    0 <= k < collision_data@.len() && (#[trigger] collision_data@[k]).0 == cx
                        && collision_data@[k].1 == cy by {
                    if cy == y && cx == x {
                        assert(collision_data@[before.len() as int] == (x, y));
                    } else {
                        let k = choose|k: int|
                            0 <= k < before.len() && (#[trigger] before[k]).0 == cx && before[k].1
                                == cy;
                        assert(collision_data@[k] == before[k]);
                    }
                }
            }
            x += 1;
        }
        proof {
            assert forall|cx: int, cy: int|
                in_sweep(start_x as int, end_x as int, start_y as int, end_y as int, cx, cy)
                    && cy < y + 1 && #[trigger] is_solid_at(grid@, cx, cy) implies exists|k: int|
                0 <= k < collision_data@.len() && (#[trigger] collision_data@[k]).0 == cx
                    && collision_data@[k].1 == cy by {
                if cy == y && cx > last_x {
                    assert(!grid@.in_bounds(cx, cy));
                }
            }
        }
        y += 1;
    }
    proof {
        assert forall|cx: int, cy: int|
            in_sweep(start_x as int, end_x as int, start_y as int, end_y as int, cx, cy)
                && #[trigger] is_solid_at(grid@, cx, cy) implies exists|k: int|
            0 <= k < collision_data@.len() && (#[trigger] collision_data@[k]).0 == cx
                && collision_data@[k].1 == cy by {
            if cy > last_y {
                assert(!grid@.in_bounds(cx, cy));
            }
        }
    }
}

/// Something that acts in the world, step by step.
///
/// The world asks nothing of an actor: what `update` does and what
/// `is_alive` answers is the actor's own affair.
pub trait Actor: Sized {
    /// What an actor is handed with every step besides the grid: the
    /// player's intent, the time that has passed.
    type Context;

    /// What an actor may ask the world's owner to do after a step.
    type Action;

    /// One step of the actor on the grid.
    fn update(&mut self, context: &mut Self::Context, grid: &Grid<Cell>) -> Option<Self::Action>;

    /// Whether the actor stays in the world.
    fn is_alive(&self) -> bool;
}

/// Whether `actor` may answer `alive` when it is asked whether it is alive.
pub open spec fn reports<A: Actor>(actor: A, alive: bool) -> bool {
    call_ensures(A::is_alive, (&actor,), alive)
}

/// Whether `after` is `before` without its dead: `after` holds the actors
/// of `before` at the places `picked`, in their order, each of which
/// answered that it is alive, and every other actor of `before` answered
/// that it is not.
pub open spec fn is_pruned<A: Actor>(before: Seq<A>, after: Seq<A>, picked: Seq<int>) -> bool {
    &&& picked.len() == after.len()
    &&& forall|k: int| 0 <= k < picked.len() ==> 0 <= #[trigger] picked[k] < before.len()
    &&& forall|j: int, k: int| 0 <= j < k < picked.len() ==> picked[j] < picked[k]
    &&& forall|k: int|
        0 <= k < picked.len() ==> #[trigger] after[k] == before[picked[k]] && reports(
            after[k],
            true,
        )
    &&& forall|i: int|
        0 <= i < before.len() && !picked.contains(i) ==> reports(#[trigger] before[i], false)
}

/// Removes the actors that answer that they are not alive; the others keep
/// their order. Every actor is asked once.
pub fn retain_alive<A: Actor>(actors: &mut Vec<A>)
    ensures
        exists|picked: Seq<int>| #[trigger] is_pruned(old(actors)@, final(actors)@, picked),
{
    let mut all: Vec<A> = Vec::new();
    core::mem::swap(actors, &mut all);
    let ghost from = all@;
    let ghost mut picked: Seq<int> = Seq::empty();
    for actor in it: all
        invariant
            it.seq() == from,
            from == old(actors)@,
            is_pruned(from.take(it.index() as int), actors@, picked),
    {
        let ghost index = it.index() as int;
        let ghost before = from.take(index);
        let ghost longer = from.take(index + 1);
        let ghost kept = actors@;
        let alive = actor.is_alive();
        assert(reports(actor, alive));
        if alive {
            actors.push(actor);
            proof {
                let grown = picked.push(index);
                assert(grown[picked.len() as int] == index);
                assert forall|i: int|
                    0 <= i < longer.len() && !grown.contains(i) implies reports(
                    #[trigger] longer[i],
                    false,
                ) by {
                    if i < index {
                        if picked.contains(i) {
                            let k = choose|k: int| 0 <= k < picked.len() && picked[k] == i;
                            assert(grown[k] == i);
                        }
                        assert(longer[i] == before[i]);
                    }
                }
                assert forall|k: int| 0 <= k < grown.len() implies #[trigger] actors@[k]
                    == longer[grown[k]] && reports(actors@[k], true) by {
                    if k < picked.len() {
                        assert(actors@[k] == kept[k]);
                        assert(kept[k] == before[picked[k]]);
                    }
                }
                picked = grown;
            }
        } else {
            proof {
                assert forall|i: int|
                    0 <= i < longer.len() && !picked.contains(i) implies reports(
                    #[trigger] longer[i],
                    false,
                ) by {
                    if i < index {
                        assert(longer[i] == before[i]);
                    }
                }
                assert forall|k: int| 0 <= k < picked.len() implies #[trigger] actors@[k]
                    == longer[picked[k]] && reports(actors@[k], true) by {
                    assert(kept[k] == before[picked[k]]);
                }
            }
        }
    }
    proof {
        assert(from.take(from.len() as int) =~= from);
    }
}

/// One step of an actor: a call of its `update`.
pub fn step<A: Actor>(actor: &mut A, context: &mut A::Context, grid: &Grid<Cell>) -> (asked: Option<
    A::Action,
>)
    ensures
        exists|r: &mut A, c: &mut A::Context|
            #![trigger call_ensures(A::update, (r, c, grid), asked)]
            {
                &&& *r == *old(actor)
                &&& *final(r) == *final(actor)
                &&& *c == *old(context)
                &&& *final(c) == *final(context)
                &&& call_ensures(A::update, (r, c, grid), asked)
            },
{
    actor.update(context, grid)
}

/// What the actors asked for, in their order, given what each answered
/// to its update.
pub open spec fn asked_of<T>(answers: Seq<Option<T>>) -> Seq<T>
    decreases answers.len(),
{
    if answers.len() == 0 {
        Seq::empty()
    } else {
        let before = asked_of(answers.drop_last());
        match answers.last() {
            Some(asked) => before.push(asked),
            None => before,
        }
    }
}

/// Updates every actor once, in their order, on `grid`, and puts what the
/// actors ask for behind `actions`. Each update begins with the context
/// as the one before it left it.
pub fn update_all<A: Actor>(
    actors: &mut Vec<A>,
    context: &mut A::Context,
    grid: &Grid<Cell>,
    actions: &mut Vec<A::Action>,
)
    ensures
        final(actors)@.len() == old(actors)@.len(),
        exists|refs: Seq<&mut A>, contexts: Seq<&mut A::Context>, answers: Seq<Option<A::Action>>|
            #![trigger asked_of(answers), refs.len(), contexts.len()]
            {
                &&& refs.len() == old(actors)@.len()
                &&& contexts.len() == refs.len()
                &&& answers.len() == refs.len()
                &&& forall|i: int|
                    #![trigger refs[i]]
                    0 <= i < refs.len() ==> {
                        &&& *refs[i] == old(actors)@[i]
                        &&& *final(refs[i]) == final(actors)@[i]
                        &&& *contexts[i] == if i == 0 {
                            *old(context)
                        } else {
                            *final(contexts[i - 1])
                        }
                        &&& call_ensures(A::update, (refs[i], contexts[i], grid), answers[i])
                    }
                &&& *final(context) == if refs.len() == 0 {
                    *old(context)
                } else {
                    *final(contexts[refs.len() - 1])
                }
                &&& final(actions)@ == old(actions)@ + asked_of(answers)
            },
{
    let count = actors.len();
    let mut i: usize = 0;
    proof {
        let refs = Seq::<&mut A>::empty();
        let contexts = Seq::<&mut A::Context>::empty();
        let answers = Seq::<Option<A::Action>>::empty();
        assert(actions@ =~= old(actions)@ + asked_of(answers));
        assert(refs.len() == 0 && contexts.len() == 0 && answers.len() == 0);
    }
    while i < count
        invariant
            i <= count,
            actors@.len() == count,
            count == old(actors)@.len(),
            forall|j: int| i <= j < count ==> actors@[j] == old(actors)@[j],
            exists|
                refs: Seq<&mut A>,
                contexts: Seq<&mut A::Context>,
                answers: Seq<Option<A::Action>>,
            |
                #![trigger asked_of(answers), refs.len(), contexts.len()]
                {
                    &&& refs.len() == i
                    &&& contexts.len() == i
                    &&& answers.len() == i
                    &&& forall|j: int|
                        #![trigger refs[j]]
                        0 <= j < i ==> {
                            &&& *refs[j] == old(actors)@[j]
                            &&& *final(refs[j]) == actors@[j]
                            &&& *contexts[j] == if j == 0 {
                                *old(context)
                            } else {
                                *final(contexts[j - 1])
                            }
                            &&& call_ensures(A::update, (refs[j], contexts[j], grid), answers[j])
                        }
                    &&& *context == if i == 0 {
                        *old(context)
                    } else {
                        *final(contexts[i - 1])
                    }
                    &&& actions@ == old(actions)@ + asked_of(answers)
                },
        decreases count - i,
    {
        let ghost before = actors@;
        let ghost context_before = *context;
        let ghost actions_before = actions@;
        let answer = step(&mut actors[i], context, grid);
        match answer {
            Some(asked) => {
                actions.push(asked);
            },
            None => {},
        }
        proof {
            let (refs, contexts, answers) = choose|
                refs: Seq<&mut A>,
                contexts: Seq<&mut A::Context>,
                answers: Seq<Option<A::Action>>,
            |
                #![trigger asked_of(answers), refs.len(), contexts.len()]
                {
                    &&& refs.len() == i
                    &&& contexts.len() == i
                    &&& answers.len() == i
                    &&& forall|j: int|
                        #![trigger refs[j]]
                        0 <= j < i ==> {
                            &&& *refs[j] == old(actors)@[j]
                            &&& *final(refs[j]) == before[j]
                            &&& *contexts[j] == if j == 0 {
                                *old(context)
                            } else {
                                *final(contexts[j - 1])
                            }
                            &&& call_ensures(A::update, (refs[j], contexts[j], grid), answers[j])
                        }
                    &&& context_before == if i == 0 {
                        *old(context)
                    } else {
                        *final(contexts[i - 1])
                    }
                    &&& actions_before == old(actions)@ + asked_of(answers)
                };
            let (r, c) = choose|r: &mut A, c: &mut A::Context|
                #![trigger call_ensures(A::update, (r, c, grid), answer)]
                {
                    &&& *r == before[i as int]
                    &&& *final(r) == actors@[i as int]
                    &&& *c == context_before
                    &&& *final(c) == *context
                    &&& call_ensures(A::update, (r, c, grid), answer)
                };
            let longer = refs.push(r);
            let more = contexts.push(c);
            let told = answers.push(answer);
            assert(told.drop_last() =~= answers);
            assert(told.last() == answer);
            assert(actions@ =~= old(actions)@ + asked_of(told));
            assert forall|j: int|
                #![trigger longer[j]]
                0 <= j < i + 1 implies {
                &&& *longer[j] == old(actors)@[j]
                &&& *final(longer[j]) == actors@[j]
                &&& *more[j] == if j == 0 {
                    *old(context)
                } else {
                    *final(more[j - 1])
                }
                &&& call_ensures(A::update, (longer[j], more[j], grid), told[j])
            } by {
                if j < i {
                    assert(longer[j] == refs[j]);
                    assert(more[j] == contexts[j]);
                    assert(told[j] == answers[j]);
                    assert(actors@[j] == before[j]);
                }
                if j > 0 {
                    assert(more[j - 1] == contexts[j - 1]);
                }
            }
            assert(more[i as int] == c);
            assert(longer.len() == i + 1 && more.len() == i + 1 && told.len() == i + 1);
        }
        i += 1;
    }
}

/// The play grid, once there is one, and the actors on it.
pub struct World<A: Actor> {
    pub grid: Option<Grid<Cell>>,
    pub actors: Vec<A>,
}

impl<A: Actor> World<A> {
    /// A world without a grid and without actors.
    pub fn new() -> (world: World<A>)
        ensures
            world.grid is None,
            world.actors@.len() == 0,
    {
        World { grid: None, actors: Vec::new() }
    }

    /// Puts the world on `grid`; the grid it had is dropped.
    pub fn init(&mut self, grid: Grid<Cell>)
        ensures
            final(self).grid == Some(grid),
            final(self).actors == old(self).actors,
    {
        self.grid = Some(grid);
    }

    /// One step of the world. While the world has a grid, every actor is
    /// updated once, in the order in which the actors were added, each
    /// with the context as the update before it left it, and what the
    /// actors ask for is put behind `actions`. Then the actors that answer
    /// that they are not alive are removed. An actor added between two
    /// steps is updated from the next step on.
    pub fn update(&mut self, context: &mut A::Context, actions: &mut Vec<A::Action>)
        ensures
            final(self).grid == old(self).grid,
            exists|updated: Seq<A>, picked: Seq<int>|
                {
                    &&& updated.len() == old(self).actors@.len()
                    &&& #[trigger] is_pruned(updated, final(self).actors@, picked)
                    &&& old(self).grid is None ==> {
                        &&& updated == old(self).actors@
                        &&& final(actions)@ == old(actions)@
                        &&& *final(context) == *old(context)
                    }
                    &&& old(self).grid is Some ==> exists|
                        refs: Seq<&mut A>,
                        contexts: Seq<&mut A::Context>,
                        answers: Seq<Option<A::Action>>,
                    |
                        #![trigger asked_of(answers), refs.len(), contexts.len()]
                        {
                            &&& refs.len() == updated.len()
                            &&& contexts.len() == refs.len()
                            &&& answers.len() == refs.len()
                            &&& forall|i: int|
                                #![trigger refs[i]]
                                0 <= i < refs.len() ==> {
                                    &&& *refs[i] == old(self).actors@[i]
                                    &&& *final(refs[i]) == updated[i]
                                    &&& *contexts[i] == if i == 0 {
                                        *old(context)
                                    } else {
                                        *final(contexts[i - 1])
                                    }
                                    &&& call_ensures(
                                        A::update,
                                        (refs[i], contexts[i], &old(self).grid->0),
                                        answers[i],
                                    )
                                }
                            &&& *final(context) == if refs.len() == 0 {
                                *old(context)
                            } else {
                                *final(contexts[refs.len() - 1])
                            }
                            &&& final(actions)@ == old(actions)@ + asked_of(answers)
                        }
                },
    {
        match &self.grid {
            Some(grid) => {
                update_all(&mut self.actors, context, grid, actions);
            },
            None => {},
        }
        let ghost updated = self.actors@;
        retain_alive(&mut self.actors);
        proof {
            let picked = choose|picked: Seq<int>| #[trigger]
                is_pruned(updated, self.actors@, picked);
            assert(is_pruned(updated, self.actors@, picked));
        }
    }
}

} // verus!
