use vstd::arithmetic::div_mod::{
    lemma_add_mod_noop_right, lemma_mod_add_multiples_vanish, lemma_mod_bound,
    lemma_mod_equivalence, lemma_mod_self_0, lemma_small_mod,
};
use vstd::prelude::*;

use crate::command::{Command, Dir, Stone};

verus! {

/// The mathematical model of a field: its rows from top to bottom, each a
/// sequence of cells from left to right.
pub type Grid = Seq<Seq<Stone>>;

/// `g` has `h` rows of `w` cells each.
pub open spec fn rect(g: Grid, w: int, h: int) -> bool {
    &&& g.len() == h
    &&& forall|r: int| 0 <= r < h ==> (#[trigger] g[r]).len() == w
}

/// The number of cells in a row of `g`.
pub open spec fn cols_of(g: Grid) -> int {
    if g.len() > 0 {
        g[0].len() as int
    } else {
        0
    }
}

/// Cell `(r, c)` lies on the grid.
pub open spec fn inside(g: Grid, r: int, c: int) -> bool {
    0 <= r < g.len() && 0 <= c < g[r].len()
}

/// Cell `(r, c)` of `g` holds `s`.
pub open spec fn holds(g: Grid, s: Stone, r: int, c: int) -> bool {
    inside(g, r, c) && g[r][c] == s
}

/// Some cell of `g` holds `s`.
pub open spec fn present(g: Grid, s: Stone) -> bool {
    exists|r: int, c: int| holds(g, s, r, c)
}

/// No colour lies on two cells of `g`.
pub open spec fn distinct(g: Grid) -> bool {
    forall|s: Stone, r1: int, c1: int, r2: int, c2: int|
        s != Stone::__ && #[trigger] holds(g, s, r1, c1) && #[trigger] holds(g, s, r2, c2) ==> r1
            == r2 && c1 == c2
}

/// A cell that holds `s`; the only one when `g` is `distinct` and `s` is a colour.
pub open spec fn position_of(g: Grid, s: Stone) -> (int, int) {
    choose|r: int, c: int| holds(g, s, r, c)
}

/// `g` with cell `(r, c)` replaced by `s`.
pub open spec fn put(g: Grid, r: int, c: int, s: Stone) -> Grid {
    g.update(r, g[r].update(c, s))
}

/// `g` after the content of cell `from` has been moved onto cell `to`.
pub open spec fn move_stone(g: Grid, from: (int, int), to: (int, int)) -> Grid {
    put(put(g, from.0, from.1, Stone::__), to.0, to.1, g[from.0][from.1])
}

/// The cell `k` steps from `p` in direction `dir`, on a torus of `h` rows
/// and `w` columns.
pub open spec fn shift(w: int, h: int, p: (int, int), dir: Dir, k: int) -> (int, int) {
    match dir {
        Dir::Up => ((p.0 - k) % h, p.1),
        Dir::Down => ((p.0 + k) % h, p.1),
        Dir::Left => (p.0, (p.1 - k) % w),
        Dir::Right => (p.0, (p.1 + k) % w),
    }
}

/// The neighbour of `p` in direction `dir` on `g`.
pub open spec fn ahead(g: Grid, p: (int, int), dir: Dir) -> (int, int) {
    shift(cols_of(g), g.len() as int, p, dir, 1)
}

/// A stone that moves in direction `dir` on `g` never meets its own cell:
/// there are at least two cells along that axis.
pub open spec fn roomy(g: Grid, dir: Dir) -> bool {
    match dir {
        Dir::Up | Dir::Down => g.len() >= 2,
        Dir::Left | Dir::Right => cols_of(g) >= 2,
    }
}

/// One step on a ring of `n` cells, forwards or backwards.
pub proof fn lemma_ring_step(x: int, n: int)
    requires
        0 <= x < n,
    ensures
        (x + 1) % n == if x + 1 == n {
            0
        } else {
            x + 1
        },
        (x - 1) % n == if x == 0 {
            n - 1
        } else {
            x - 1
        },
{
    if x + 1 == n {
        lemma_mod_self_0(n);
    } else {
        lemma_small_mod((x + 1) as nat, n as nat);
    }
    if x == 0 {
        lemma_mod_add_multiples_vanish(-1, n);
        lemma_small_mod((n - 1) as nat, n as nat);
    } else {
        lemma_small_mod((x - 1) as nat, n as nat);
    }
}

/// What an attempted move comes to: the grid afterwards, the commands that
/// were realized, in order, and the number of steps the stone itself took.
pub struct Outcome {
    pub grid: Grid,
    pub commands: Seq<Command>,
    pub steps: nat,
}

/// `rest`, reached after `taken` steps that realized `prefix`.
pub open spec fn after(prefix: Seq<Command>, taken: nat, rest: Outcome) -> Outcome {
    Outcome { grid: rest.grid, commands: prefix + rest.commands, steps: taken + rest.steps }
}

/// The one-step command that a stone of colour `color` is given when it is
/// pushed in direction `dir`.
pub open spec fn pushed_by(color: Stone, dir: Dir) -> Command {
    Command { color, dir, number: color.spec_number_one(), side_effect: true }
}

/// The stone of colour `color` tries to take `steps` steps in direction
/// `dir`. A heavier neighbour stops it. A lighter one is pushed one step
/// first, and stops it too if it cannot move. The commands are those of the
/// pushed stones, the deepest push first.
pub open spec fn slide(g: Grid, color: Stone, dir: Dir, steps: nat) -> Outcome
    decreases color.weight(), steps,
{
    let from = position_of(g, color);
    let to = ahead(g, from, dir);
    let next = g[to.0][to.1];
    if steps == 0 || next.weight() >= color.weight() {
        Outcome { grid: g, commands: Seq::empty(), steps: 0 }
    } else {
        let pushed = if next == Stone::__ {
            Outcome { grid: g, commands: Seq::empty(), steps: 1 }
        } else {
            resolve(g, pushed_by(next, dir))
        };
        if pushed.steps == 0 {
            Outcome { grid: pushed.grid, commands: Seq::empty(), steps: 0 }
        } else {
            after(
                pushed.commands,
                1,
                slide(move_stone(pushed.grid, from, to), color, dir, (steps - 1) as nat),
            )
        }
    }
}

/// What the request `cmd` comes to on `g`: the stone slides as far as it
/// can; if it moved at all, the request itself closes the list, with its
/// step count cut down to the steps taken.
pub open spec fn resolve(g: Grid, cmd: Command) -> Outcome
    decreases cmd.color.weight(), cmd.spec_magnitude() + 1,
{
    let out = slide(g, cmd.color, cmd.dir, cmd.spec_magnitude());
    Outcome {
        grid: out.grid,
        commands: if out.steps == 0 {
            out.commands
        } else if out.steps == cmd.spec_magnitude() {
            out.commands.push(cmd)
        } else {
            out.commands.push(cmd.with_magnitude(out.steps))
        },
        steps: out.steps,
    }
}

/// The same colours lie on `a` and on `b`.
pub open spec fn same_stones(a: Grid, b: Grid) -> bool {
    forall|s: Stone| s != Stone::__ ==> (#[trigger] present(a, s) <==> present(b, s))
}

/// Every cell that holds a stone heavier than `color`, before or after,
/// holds the same in `a` and in `b`.
pub open spec fn heavier_untouched(a: Grid, b: Grid, color: Stone) -> bool {
    forall|r: int, c: int|
        #![trigger a[r][c]]
        #![trigger b[r][c]]
        inside(a, r, c) && (a[r][c].weight() > color.weight() || b[r][c].weight()
            > color.weight()) ==> b[r][c] == a[r][c]
}

/// Every command of `cmds` is the one-step push, in direction `dir`, of a
/// stone lighter than `color`.
pub open spec fn pushes_below(cmds: Seq<Command>, color: Stone, dir: Dir) -> bool {
    forall|i: int|
        0 <= i < cmds.len() ==> {
            &&& (#[trigger] cmds[i]).color != Stone::__
            &&& cmds[i].color.weight() < color.weight()
            &&& cmds[i] == pushed_by(cmds[i].color, dir)
        }
}

/// What holds of `out`, the outcome of sliding `color` on `g`.
pub open spec fn slid(g: Grid, color: Stone, dir: Dir, steps: nat, out: Outcome) -> bool {
    let w = cols_of(g);
    let h = g.len() as int;
    let start = position_of(g, color);
    let end = shift(w, h, start, dir, out.steps as int);
    let behind = shift(w, h, start, dir, out.steps - 1);
    &&& rect(out.grid, w, h)
    &&& distinct(out.grid)
    &&& same_stones(g, out.grid)
    &&& heavier_untouched(g, out.grid, color)
    &&& out.steps <= steps
    &&& out.steps == 0 ==> out.grid == g && out.commands.len() == 0
    &&& holds(out.grid, color, end.0, end.1)
    &&& out.steps > 0 ==> holds(out.grid, Stone::__, behind.0, behind.1)
    &&& pushes_below(out.commands, color, dir)
}

/// A shifted cell lies on the torus, no steps shift nowhere, and one step
/// after `k` steps is `k + 1` steps.
pub proof fn lemma_shift(w: int, h: int, p: (int, int), dir: Dir, k: int)
    requires
        0 <= p.0 < h,
        0 <= p.1 < w,
    ensures
        0 <= shift(w, h, p, dir, k).0 < h,
        0 <= shift(w, h, p, dir, k).1 < w,
        shift(w, h, p, dir, 0) == p,
        shift(w, h, shift(w, h, p, dir, k), dir, 1) == shift(w, h, p, dir, k + 1),
        shift(w, h, shift(w, h, p, dir, 1), dir, k) == shift(w, h, p, dir, k + 1),
{
    lemma_small_mod(p.0 as nat, h as nat);
    lemma_small_mod(p.1 as nat, w as nat);
    match dir {
        Dir::Up => {
            lemma_mod_bound(p.0 - k, h);
            lemma_add_mod_noop_right(-1, p.0 - k, h);
            lemma_add_mod_noop_right(-k, p.0 - 1, h);
        },
        Dir::Down => {
            lemma_mod_bound(p.0 + k, h);
            lemma_add_mod_noop_right(1, p.0 + k, h);
            lemma_add_mod_noop_right(k, p.0 + 1, h);
        },
        Dir::Left => {
            lemma_mod_bound(p.1 - k, w);
            lemma_add_mod_noop_right(-1, p.1 - k, w);
            lemma_add_mod_noop_right(-k, p.1 - 1, w);
        },
        Dir::Right => {
            lemma_mod_bound(p.1 + k, w);
            lemma_add_mod_noop_right(1, p.1 + k, w);
            lemma_add_mod_noop_right(k, p.1 + 1, w);
        },
    }
}

/// On a roomy grid the neighbour of a cell is another cell of the grid.
pub proof fn lemma_ahead(g: Grid, p: (int, int), dir: Dir)
    requires
        rect(g, cols_of(g), g.len() as int),
        inside(g, p.0, p.1),
        roomy(g, dir),
    ensures
        inside(g, ahead(g, p, dir).0, ahead(g, p, dir).1),
        ahead(g, p, dir) != p,
{
    lemma_ring_step(p.0, g.len() as int);
    lemma_ring_step(p.1, cols_of(g));
}

/// Moving a stone onto an empty cell keeps the shape of the grid and what
/// lies on it, and changes the two cells only.
pub proof fn lemma_move_stone(g: Grid, from: (int, int), to: (int, int))
    requires
        rect(g, cols_of(g), g.len() as int),
        distinct(g),
        inside(g, from.0, from.1),
        inside(g, to.0, to.1),
        from != to,
        g[from.0][from.1] != Stone::__,
        g[to.0][to.1] == Stone::__,
    ensures
        rect(move_stone(g, from, to), cols_of(g), g.len() as int),
        cols_of(move_stone(g, from, to)) == cols_of(g),
        distinct(move_stone(g, from, to)),
        same_stones(g, move_stone(g, from, to)),
        holds(move_stone(g, from, to), g[from.0][from.1], to.0, to.1),
        holds(move_stone(g, from, to), Stone::__, from.0, from.1),
        forall|r: int, c: int|
            inside(g, r, c) && (r, c) != from && (r, c) != to ==> #[trigger] move_stone(
                g,
                from,
                to,
            )[r][c] == g[r][c],
{
    let m = move_stone(g, from, to);
    let color = g[from.0][from.1];
    assert forall|r: int, c: int| inside(g, r, c) implies #[trigger] m[r][c] == if (r, c)
        == to {
        color
    } else if (r, c) == from {
        Stone::__
    } else {
        g[r][c]
    } by {}
    assert forall|s: Stone, r1: int, c1: int, r2: int, c2: int|
        s != Stone::__ && #[trigger] holds(m, s, r1, c1) && #[trigger] holds(
            m,
            s,
            r2,
            c2,
        ) implies r1 == r2 && c1 == c2 by {
        if s == color {
            if (r1, c1) != to {
                assert(holds(g, s, r1, c1));
                assert(holds(g, s, from.0, from.1));
            }
            if (r2, c2) != to {
                assert(holds(g, s, r2, c2));
                assert(holds(g, s, from.0, from.1));
            }
        } else {
            assert(holds(g, s, r1, c1));
            assert(holds(g, s, r2, c2));
        }
    }
    assert forall|s: Stone| s != Stone::__ implies (#[trigger] present(g, s) <==> present(
        m,
        s,
    )) by {
        if present(g, s) {
            let (r, c) = choose|r: int, c: int| holds(g, s, r, c);
            if (r, c) == from {
                assert(holds(m, s, to.0, to.1));
            } else {
                assert(holds(m, s, r, c));
            }
        }
        if present(m, s) {
            let (r, c) = choose|r: int, c: int| holds(m, s, r, c);
            if (r, c) == to {
                assert(holds(g, s, from.0, from.1));
            } else {
                assert(holds(g, s, r, c));
            }
        }
    }
}

/// Sliding keeps the grid well formed, moves no stone heavier than the one
/// that slides, and leaves that one `steps` cells further on, with the cell
/// behind it empty.
pub proof fn lemma_slide(g: Grid, color: Stone, dir: Dir, steps: nat)
    requires
        rect(g, cols_of(g), g.len() as int),
        distinct(g),
        roomy(g, dir),
        color != Stone::__,
        present(g, color),
    ensures
        slid(g, color, dir, steps, slide(g, color, dir, steps)),
    decreases color.weight(), steps,
{
    let w = cols_of(g);
    let h = g.len() as int;
    let from = position_of(g, color);
    assert(holds(g, color, from.0, from.1));
    let to = ahead(g, from, dir);
    lemma_ahead(g, from, dir);
    lemma_shift(w, h, from, dir, 0);
    let next = g[to.0][to.1];
    let out = slide(g, color, dir, steps);
    if steps == 0 || next.weight() >= color.weight() {
    } else {
        let pushed = if next == Stone::__ {
            Outcome { grid: g, commands: Seq::empty(), steps: 1 }
        } else {
            resolve(g, pushed_by(next, dir))
        };
        if next != Stone::__ {
            assert(holds(g, next, to.0, to.1));
            lemma_resolve(g, pushed_by(next, dir));
            let far = position_of(g, next);
            assert(holds(g, next, far.0, far.1));
            assert(far == to);
            lemma_shift(w, h, to, dir, 0);
        }
        if pushed.steps == 0 {
        } else {
            let pg = pushed.grid;
            assert(pushed.steps == 1);
            assert(holds(pg, Stone::__, to.0, to.1));
            assert(holds(pg, color, from.0, from.1));
            lemma_move_stone(pg, from, to);
            let mg = move_stone(pg, from, to);
            assert(holds(mg, color, to.0, to.1));
            lemma_slide(mg, color, dir, (steps - 1) as nat);
            let rest = slide(mg, color, dir, (steps - 1) as nat);
            assert(out == after(pushed.commands, 1, rest));
            let mid = position_of(mg, color);
            assert(holds(mg, color, mid.0, mid.1));
            assert(mid == to);
            lemma_shift(w, h, from, dir, rest.steps as int);
            lemma_shift(w, h, from, dir, rest.steps - 1);
            assert(same_stones(g, out.grid)) by {
                assert forall|s: Stone| s != Stone::__ implies (#[trigger] present(g, s)
                    <==> present(out.grid, s)) by {
                    assert(present(g, s) <==> present(pg, s));
                    assert(present(pg, s) <==> present(mg, s));
                    assert(present(mg, s) <==> present(rest.grid, s));
                }
            }
            assert(heavier_untouched(g, out.grid, color)) by {
                assert forall|r: int, c: int|
                    #![trigger g[r][c]]
                    #![trigger out.grid[r][c]]
                    inside(g, r, c) && (g[r][c].weight() > color.weight()
                        || out.grid[r][c].weight() > color.weight()) implies out.grid[r][c]
                    == g[r][c] by {
                    assert(inside(pg, r, c));
                    assert(inside(mg, r, c));
                    if (r, c) != from && (r, c) != to {
                        assert(mg[r][c] == pg[r][c]);
                    }
                }
            }
            if rest.steps == 0 {
                assert(out.grid == mg);
            }
            assert(pushes_below(out.commands, color, dir)) by {
                assert forall|i: int| 0 <= i < out.commands.len() implies {
                    &&& (#[trigger] out.commands[i]).color != Stone::__
                    &&& out.commands[i].color.weight() < color.weight()
                    &&& out.commands[i] == pushed_by(out.commands[i].color, dir)
                } by {
                    if i < pushed.commands.len() {
                        assert(out.commands[i] == pushed.commands[i]);
                        assert(pushed_by(next, dir).spec_magnitude() == 1);
                        if i < pushed.commands.len() - 1 {
                            assert(pushed.commands[i] == pushed.commands.drop_last()[i]);
                        } else {
                            assert(pushed.commands[i] == pushed.commands.last());
                        }
                    } else {
                        assert(out.commands[i] == rest.commands[i - pushed.commands.len()]);
                    }
                }
            }
        }
    }
}

/// What holds of `out`, the outcome of the request `cmd` on `g`.
pub open spec fn resolved(g: Grid, cmd: Command, out: Outcome) -> bool {
    let slide_out = Outcome {
        grid: out.grid,
        commands: if out.steps == 0 {
            out.commands
        } else {
            out.commands.drop_last()
        },
        steps: out.steps,
    };
    &&& slid(g, cmd.color, cmd.dir, cmd.spec_magnitude(), slide_out)
    &&& out.steps > 0 ==> out.commands.len() > 0 && out.commands.last() == if out.steps
        == cmd.spec_magnitude() {
        cmd
    } else {
        cmd.with_magnitude(out.steps)
    }
    &&& forall|i: int| 0 <= i < out.commands.len() ==> (#[trigger] out.commands[i]).wf()
}

/// A request keeps the grid well formed and realizes well-formed commands:
/// the pushes of lighter stones first, then the request itself.
pub proof fn lemma_resolve(g: Grid, cmd: Command)
    requires
        rect(g, cols_of(g), g.len() as int),
        distinct(g),
        roomy(g, cmd.dir),
        cmd.wf(),
        present(g, cmd.color),
    ensures
        resolved(g, cmd, resolve(g, cmd)),
    decreases cmd.color.weight(), cmd.spec_magnitude() + 1,
{
    lemma_slide(g, cmd.color, cmd.dir, cmd.spec_magnitude());
    let inner = slide(g, cmd.color, cmd.dir, cmd.spec_magnitude());
    let out = resolve(g, cmd);
    if out.steps > 0 {
        assert(out.commands.drop_last() =~= inner.commands);
    }
    assert forall|i: int| 0 <= i < out.commands.len() implies (#[trigger] out.commands[i]).wf() by {
        if i < inner.commands.len() {
            assert(out.commands[i] == inner.commands[i]);
        }
    }
}

/// Where `k` steps from one cell lead back to that cell, they do so from
/// every cell.
pub proof fn lemma_shift_back(w: int, h: int, p: (int, int), q: (int, int), dir: Dir, k: int)
    requires
        0 <= p.0 < h,
        0 <= p.1 < w,
        0 <= q.0 < h,
        0 <= q.1 < w,
    ensures
        shift(w, h, p, dir, k) == p <==> shift(w, h, q, dir, k) == q,
{
    lemma_small_mod(p.0 as nat, h as nat);
    lemma_small_mod(p.1 as nat, w as nat);
    lemma_small_mod(q.0 as nat, h as nat);
    lemma_small_mod(q.1 as nat, w as nat);
    match dir {
        Dir::Up => {
            lemma_mod_equivalence(p.0 - k, p.0, h);
            lemma_mod_equivalence(q.0 - k, q.0, h);
        },
        Dir::Down => {
            lemma_mod_equivalence(p.0 + k, p.0, h);
            lemma_mod_equivalence(q.0 + k, q.0, h);
        },
        Dir::Left => {
            lemma_mod_equivalence(p.1 - k, p.1, w);
            lemma_mod_equivalence(q.1 - k, q.1, w);
        },
        Dir::Right => {
            lemma_mod_equivalence(p.1 + k, p.1, w);
            lemma_mod_equivalence(q.1 + k, q.1, w);
        },
    }
}

/// The `steps` cells ahead of the stone of colour `color` are empty.
pub open spec fn clear_path(g: Grid, color: Stone, dir: Dir, steps: nat) -> bool {
    let start = position_of(g, color);
    forall|k: int|
        1 <= k <= steps ==> {
            let cell = #[trigger] shift(cols_of(g), g.len() as int, start, dir, k);
            g[cell.0][cell.1] == Stone::__
        }
}

/// `g` after the stone of colour `color` has gone `steps` cells in
/// direction `dir` over empty cells.
pub open spec fn gone(g: Grid, color: Stone, dir: Dir, steps: nat) -> Grid {
    let start = position_of(g, color);
    if steps == 0 {
        g
    } else {
        move_stone(g, start, shift(cols_of(g), g.len() as int, start, dir, steps as int))
    }
}

/// Over empty cells a stone slides as far as it is asked to, and pushes
/// nothing.
pub proof fn lemma_slide_clear(g: Grid, color: Stone, dir: Dir, steps: nat)
    requires
        rect(g, cols_of(g), g.len() as int),
        distinct(g),
        roomy(g, dir),
        color != Stone::__,
        present(g, color),
        clear_path(g, color, dir, steps),
    ensures
        slide(g, color, dir, steps) == (Outcome {
            grid: gone(g, color, dir, steps),
            commands: Seq::empty(),
            steps,
        }),
    decreases steps,
{
    let w = cols_of(g);
    let h = g.len() as int;
    let start = position_of(g, color);
    assert(holds(g, color, start.0, start.1));
    if steps > 0 {
        let to = ahead(g, start, dir);
        lemma_ahead(g, start, dir);
        assert(to == shift(w, h, start, dir, 1));
        assert(g[to.0][to.1] == Stone::__);
        lemma_move_stone(g, start, to);
        let g1 = move_stone(g, start, to);
        assert(holds(g1, color, to.0, to.1));
        let mid = position_of(g1, color);
        assert(holds(g1, color, mid.0, mid.1));
        assert(mid == to);
        let left = (steps - 1) as nat;
        assert(clear_path(g1, color, dir, left)) by {
            assert forall|k: int| 1 <= k <= left implies {
                let cell = #[trigger] shift(cols_of(g1), g1.len() as int, mid, dir, k);
                g1[cell.0][cell.1] == Stone::__
            } by {
                let cell = shift(w, h, to, dir, k);
                lemma_shift(w, h, start, dir, k);
                let same = shift(w, h, start, dir, k + 1);
                assert(cell == same);
                assert(g[same.0][same.1] == Stone::__);
                let near = shift(w, h, start, dir, k);
                assert(g[near.0][near.1] == Stone::__);
                lemma_shift_back(w, h, start, to, dir, k);
                assert(cell != to);
            }
        }
        lemma_slide_clear(g1, color, dir, left);
        let rest = slide(g1, color, dir, left);
        assert(slide(g, color, dir, steps) == after(Seq::empty(), 1, rest));
        assert(Seq::<Command>::empty() + rest.commands =~= Seq::<Command>::empty());
        if left > 0 {
            let end = shift(w, h, to, dir, left as int);
            lemma_shift(w, h, start, dir, left as int);
            assert(end == shift(w, h, start, dir, steps as int));
            assert(g[end.0][end.1] == Stone::__);
            lemma_shift(w, h, to, dir, left as int);
            lemma_shift_back(w, h, start, to, dir, left as int);
            let near = shift(w, h, start, dir, left as int);
            assert(g[near.0][near.1] == Stone::__);
            assert(end != to);
            assert(end != start);
            assert(move_stone(g1, to, end) =~~= move_stone(g, start, end));
        }
    }
}

/// Where every cell on the way of a request is empty, the request is
/// realized as it stands, alone, and its stone ends up as many cells
/// further as it asked for, around the edges of the grid where it has to.
pub proof fn lemma_clear_path(g: Grid, cmd: Command)
    requires
        rect(g, cols_of(g), g.len() as int),
        distinct(g),
        roomy(g, cmd.dir),
        cmd.wf(),
        present(g, cmd.color),
        clear_path(g, cmd.color, cmd.dir, cmd.spec_magnitude()),
    ensures
        resolve(g, cmd) == (Outcome {
            grid: move_stone(
                g,
                position_of(g, cmd.color),
                shift(
                    cols_of(g),
                    g.len() as int,
                    position_of(g, cmd.color),
                    cmd.dir,
                    cmd.spec_magnitude() as int,
                ),
            ),
            commands: seq![cmd],
            steps: cmd.spec_magnitude(),
        }),
{
    lemma_slide_clear(g, cmd.color, cmd.dir, cmd.spec_magnitude());
    assert(Seq::<Command>::empty().push(cmd) =~= seq![cmd]);
}

/// A request whose stone has a heavier stone right ahead realizes nothing
/// and leaves the grid as it was.
pub proof fn lemma_blocked(g: Grid, cmd: Command)
    requires
        ({
            let to = ahead(g, position_of(g, cmd.color), cmd.dir);
            g[to.0][to.1].weight() > cmd.color.weight()
        }),
    ensures
        resolve(g, cmd) == (Outcome { grid: g, commands: Seq::empty(), steps: 0 }),
{
}

/// Nothing is heavier than purple, so no stone stops a purple move by its
/// weight: where purple does not move, the stone right ahead of it could
/// not make way.
pub proof fn lemma_purple_stopped(g: Grid, cmd: Command)
    requires
        rect(g, cols_of(g), g.len() as int),
        distinct(g),
        roomy(g, cmd.dir),
        cmd.wf(),
        cmd.color == Stone::Purple,
        present(g, cmd.color),
        resolve(g, cmd).steps == 0,
    ensures
        ({
            let to = ahead(g, position_of(g, cmd.color), cmd.dir);
            let next = g[to.0][to.1];
            next != Stone::__ && next != Stone::Purple && resolve(g, pushed_by(next, cmd.dir)).steps
                == 0
        }),
{
    let start = position_of(g, cmd.color);
    assert(holds(g, cmd.color, start.0, start.1));
    let to = ahead(g, start, cmd.dir);
    lemma_ahead(g, start, cmd.dir);
    if g[to.0][to.1] == Stone::Purple {
        assert(holds(g, Stone::Purple, to.0, to.1));
    }
}

/// A one-step request whose stone has a lighter stone right ahead, with
/// an empty cell behind that one, realizes two commands: the push of the
/// lighter stone, then the request. Both stones end up one cell further.
pub proof fn lemma_push(g: Grid, cmd: Command)
    requires
        rect(g, cols_of(g), g.len() as int),
        distinct(g),
        roomy(g, cmd.dir),
        cmd.wf(),
        present(g, cmd.color),
        cmd.spec_magnitude() == 1,
        ({
            let to = ahead(g, position_of(g, cmd.color), cmd.dir);
            let far = ahead(g, to, cmd.dir);
            &&& g[to.0][to.1] != Stone::__
            &&& g[to.0][to.1].weight() < cmd.color.weight()
            &&& g[far.0][far.1] == Stone::__
        }),
    ensures
        ({
            let start = position_of(g, cmd.color);
            let to = ahead(g, start, cmd.dir);
            let far = ahead(g, to, cmd.dir);
            resolve(g, cmd) == (Outcome {
                grid: move_stone(move_stone(g, to, far), start, to),
                commands: seq![pushed_by(g[to.0][to.1], cmd.dir), cmd],
                steps: 1,
            })
        }),
{
    let start = position_of(g, cmd.color);
    assert(holds(g, cmd.color, start.0, start.1));
    let to = ahead(g, start, cmd.dir);
    lemma_ahead(g, start, cmd.dir);
    let next = g[to.0][to.1];
    let far = ahead(g, to, cmd.dir);
    let push = pushed_by(next, cmd.dir);
    assert(holds(g, next, to.0, to.1));
    let at = position_of(g, next);
    assert(holds(g, next, at.0, at.1));
    assert(at == to);
    assert(push.spec_magnitude() == 1);
    assert(clear_path(g, next, cmd.dir, 1)) by {
        assert forall|k: int| 1 <= k <= 1 implies {
            let cell = #[trigger] shift(cols_of(g), g.len() as int, at, cmd.dir, k);
            g[cell.0][cell.1] == Stone::__
        } by {}
    }
    lemma_clear_path(g, push);
    let pushed = resolve(g, push);
    lemma_resolve(g, push);
    lemma_shift(cols_of(g), g.len() as int, to, cmd.dir, 0);
    assert(holds(pushed.grid, Stone::__, to.0, to.1));
    assert(holds(pushed.grid, cmd.color, start.0, start.1));
    let g2 = move_stone(pushed.grid, start, to);
    let rest = slide(g2, cmd.color, cmd.dir, 0);
    assert(slide(g, cmd.color, cmd.dir, 1) == after(pushed.commands, 1, rest));
    assert((seq![push] + Seq::<Command>::empty()).push(cmd) =~= seq![push, cmd]);
}

/// Ahead of cell `p` lie `n` stones in a row, each lighter than the one
/// before it, the first lighter than what `p` holds, and behind the last
/// of them an empty cell.
pub open spec fn train(g: Grid, p: (int, int), dir: Dir, n: nat) -> bool
    decreases n,
{
    let q = ahead(g, p, dir);
    if n == 0 {
        g[q.0][q.1] == Stone::__
    } else {
        g[q.0][q.1] != Stone::__ && g[q.0][q.1].weight() < g[p.0][p.1].weight() && train(
            g,
            q,
            dir,
            (n - 1) as nat,
        )
    }
}

/// `g` after the stone on `p` and the `n` stones ahead of it have each
/// gone one cell in direction `dir`, the farthest first.
pub open spec fn pulled(g: Grid, p: (int, int), dir: Dir, n: nat) -> Grid
    decreases n,
{
    let q = ahead(g, p, dir);
    if n == 0 {
        move_stone(g, p, q)
    } else {
        move_stone(pulled(g, q, dir, (n - 1) as nat), p, q)
    }
}

/// The pushes of the `n` stones ahead of `p`, the farthest and lightest
/// first.
pub open spec fn pushes(g: Grid, p: (int, int), dir: Dir, n: nat) -> Seq<Command>
    decreases n,
{
    let q = ahead(g, p, dir);
    if n == 0 {
        Seq::empty()
    } else {
        pushes(g, q, dir, (n - 1) as nat).push(pushed_by(g[q.0][q.1], dir))
    }
}

/// A one-step request whose stone has a row of ever lighter stones ahead,
/// with an empty cell behind the last, moves each of them one cell. The
/// commands realized are their pushes, from the lightest to the heaviest,
/// and the request itself at the end.
pub proof fn lemma_train(g: Grid, cmd: Command, n: nat)
    requires
        rect(g, cols_of(g), g.len() as int),
        distinct(g),
        roomy(g, cmd.dir),
        cmd.wf(),
        present(g, cmd.color),
        cmd.spec_magnitude() == 1,
        train(g, position_of(g, cmd.color), cmd.dir, n),
    ensures
        resolve(g, cmd) == (Outcome {
            grid: pulled(g, position_of(g, cmd.color), cmd.dir, n),
            commands: pushes(g, position_of(g, cmd.color), cmd.dir, n).push(cmd),
            steps: 1,
        }),
    decreases n,
{
    let start = position_of(g, cmd.color);
    assert(holds(g, cmd.color, start.0, start.1));
    let to = ahead(g, start, cmd.dir);
    lemma_ahead(g, start, cmd.dir);
    if n == 0 {
        assert(clear_path(g, cmd.color, cmd.dir, 1)) by {
            assert forall|k: int| 1 <= k <= 1 implies {
                let cell = #[trigger] shift(cols_of(g), g.len() as int, start, cmd.dir, k);
                g[cell.0][cell.1] == Stone::__
            } by {}
        }
        lemma_clear_path(g, cmd);
        assert(Seq::<Command>::empty().push(cmd) =~= seq![cmd]);
    } else {
        let next = g[to.0][to.1];
        let push = pushed_by(next, cmd.dir);
        assert(holds(g, next, to.0, to.1));
        let at = position_of(g, next);
        assert(holds(g, next, at.0, at.1));
        assert(at == to);
        assert(push.spec_magnitude() == 1);
        lemma_train(g, push, (n - 1) as nat);
        let pushed = resolve(g, push);
        let g2 = move_stone(pushed.grid, start, to);
        let rest = slide(g2, cmd.color, cmd.dir, 0);
        assert(slide(g, cmd.color, cmd.dir, 1) == after(pushed.commands, 1, rest));
        assert(pushed.commands + Seq::<Command>::empty() =~= pushed.commands);
    }
}

/// The name of what a cell holds, filled up with blanks to ten characters.
pub open spec fn cell_text(s: Stone) -> Seq<char> {
    match s {
        Stone::__ => "__        "@,
        Stone::Red => "Red       "@,
        Stone::Orange => "Orange    "@,
        Stone::Yellow => "Yellow    "@,
        Stone::Green => "Green     "@,
        Stone::Blue => "Blue      "@,
        Stone::Purple => "Purple    "@,
    }
}

/// A horizontal line over `w` columns of ten characters each, and of one
/// character where there is no column.
pub open spec fn border(w: nat) -> Seq<char>
    decreases w,
{
    if w == 0 {
        "─"@
    } else if w == 1 {
        "──────────"@
    } else {
        border((w - 1) as nat) + "──────────"@
    }
}

/// The cells of a row, one after the other.
pub open spec fn row_text(row: Seq<Stone>) -> Seq<char>
    decreases row.len(),
{
    if row.len() == 0 {
        Seq::empty()
    } else {
        row_text(row.drop_last()) + cell_text(row.last())
    }
}

/// The rows of a grid, each between two vertical lines and on a line of
/// its own.
pub open spec fn rows_text(g: Grid) -> Seq<char>
    decreases g.len(),
{
    if g.len() == 0 {
        Seq::empty()
    } else {
        rows_text(g.drop_last()) + "│"@ + row_text(g.last()) + "│\n"@
    }
}

/// The picture of a grid of `w` columns: its rows in a frame.
pub open spec fn picture(g: Grid, w: nat) -> Seq<char> {
    "┌"@ + border(w) + "┐\n"@ + rows_text(g) + "└"@ + border(w) + "┘\n"@
}

/// The grid: one cell per position, wrapping around at every edge.
#[derive(Clone, Copy, Debug)]
pub struct Field<const W: usize, const H: usize> {
    field: [[Stone; W]; H],
}

impl<const W: usize, const H: usize> View for Field<W, H> {
    type V = Grid;

    closed spec fn view(&self) -> Grid {
        Seq::new(H as nat, |r: int| self.field[r]@)
    }
}

impl Field<12, 6> {
    /// The field every program starts on.
    pub fn new() -> (f: Field<12, 6>)
        ensures
            f.wf(),
            f@ == Self::initial(),
    {
        let e = Stone::__;
        let f = Field {
            field: [
                [Stone::Blue, e, e, e, e, e, Stone::Orange, e, e, e, e, e],
                [e, e, e, e, e, e, e, e, e, e, e, e],
                [e, e, Stone::Red, e, e, e, e, e, Stone::Green, e, e, e],
                [e, e, e, e, e, e, e, e, e, e, e, e],
                [e, e, e, e, Stone::Yellow, e, e, e, e, e, Stone::Purple, e],
                [e, e, e, e, e, e, e, e, e, e, e, e],
            ],
        };
        proof {
            f.lemma_view();
            assert(f@ =~~= Self::initial());
            Self::lemma_initial();
        }
        f
    }

    /// The starting position: blue and orange in the top row, red and green
    /// in the third, yellow and purple in the fifth.
    pub open spec fn initial() -> Grid {
        let e = Stone::__;
        seq![
            seq![Stone::Blue, e, e, e, e, e, Stone::Orange, e, e, e, e, e],
            seq![e, e, e, e, e, e, e, e, e, e, e, e],
            seq![e, e, Stone::Red, e, e, e, e, e, Stone::Green, e, e, e],
            seq![e, e, e, e, e, e, e, e, e, e, e, e],
            seq![e, e, e, e, Stone::Yellow, e, e, e, e, e, Stone::Purple, e],
            seq![e, e, e, e, e, e, e, e, e, e, e, e],
        ]
    }

    /// On the starting position every colour lies on exactly one cell.
    pub proof fn lemma_initial()
        ensures
            rect(Self::initial(), 12, 6),
            distinct(Self::initial()),
            holds(Self::initial(), Stone::Blue, 0, 0),
            holds(Self::initial(), Stone::Orange, 0, 6),
            holds(Self::initial(), Stone::Red, 2, 2),
            holds(Self::initial(), Stone::Green, 2, 8),
            holds(Self::initial(), Stone::Yellow, 4, 4),
            holds(Self::initial(), Stone::Purple, 4, 10),
    {
        let g = Self::initial();
        assert forall|s: Stone, r1: int, c1: int, r2: int, c2: int|
            s != Stone::__ && #[trigger] holds(g, s, r1, c1) && #[trigger] holds(
                g,
                s,
                r2,
                c2,
            ) implies r1 == r2 && c1 == c2 by {
            Self::lemma_initial_cell(s, r1, c1);
            Self::lemma_initial_cell(s, r2, c2);
        }
    }

    proof fn lemma_initial_cell(s: Stone, r: int, c: int)
        requires
            s != Stone::__,
            holds(Self::initial(), s, r, c),
        ensures
            (r, c) == match s {
                Stone::Blue => (0int, 0int),
                Stone::Orange => (0int, 6int),
                Stone::Red => (2int, 2int),
                Stone::Green => (2int, 8int),
                Stone::Yellow => (4int, 4int),
                _ => (4int, 10int),
            },
    {
    }
}

impl<const W: usize, const H: usize> Field<W, H> {
    /// The field is a rectangle of `H` rows by `W` columns on which no
    /// colour lies twice.
    pub open spec fn wf(&self) -> bool {
        &&& rect(self@, W as int, H as int)
        &&& distinct(self@)
    }

    /// What the view holds, cell by cell.
    proof fn lemma_view(&self)
        ensures
            rect(self@, W as int, H as int),
            forall|r: int, c: int|
                0 <= r < H && 0 <= c < W ==> #[trigger] self@[r][c] == self.field[r][c],
    {
        broadcast use vstd::array::group_array_axioms;

    }

    /// A field with the given rows.
    pub fn from_rows(rows: [[Stone; W]; H]) -> (f: Field<W, H>)
        ensures
            rect(f@, W as int, H as int),
            forall|r: int, c: int| 0 <= r < H && 0 <= c < W ==> #[trigger] f@[r][c] == rows[r][c],
    {
        let f = Field { field: rows };
        proof {
            f.lemma_view();
        }
        f
    }

    /// The rows of the field, top to bottom.
    pub fn rows(&self) -> (rows: [[Stone; W]; H])
        ensures
            forall|r: int, c: int|
                0 <= r < H && 0 <= c < W ==> #[trigger] rows[r][c] == self@[r][c],
    {
        proof {
            self.lemma_view();
        }
        self.field
    }

    /// Appends a horizontal line over all columns to `out`.
    fn push_border(out: &mut String)
        ensures
            final(out)@ == old(out)@ + border(W as nat),
    {
        if W == 0 {
            out.append("─");
            return ;
        }
        let mut col: usize = 1;
        out.append("──────────");
        while col < W
            invariant
                1 <= col <= W,
                out@ == old(out)@ + border(col as nat),
            decreases W - col,
        {
            out.append("──────────");
            col += 1;
            proof {
                assert(out@ =~= old(out)@ + border(col as nat));
            }
        }
    }

    /// The picture of the field: its rows in a frame, each cell ten
    /// characters wide.
    pub fn to_string(&self) -> (s: String)
        ensures
            s@ == picture(self@, W as nat),
    {
        proof {
            self.lemma_view();
        }
        let mut out = String::from_str("┌");
        Self::push_border(&mut out);
        out.append("┐\n");
        let ghost top = out@;
        let mut row: usize = 0;
        proof {
            assert(self@.take(0) =~= Seq::<Seq<Stone>>::empty());
            assert(out@ =~= top + rows_text(self@.take(0)));
        }
        while row < H
            invariant
                row <= H,
                rect(self@, W as int, H as int),
                out@ == top + rows_text(self@.take(row as int)),
            decreases H - row,
        {
            let ghost before = out@;
            let ghost cells = self@[row as int];
            out.append("│");
            let mut col: usize = 0;
            proof {
                assert(cells.take(0) =~= Seq::<Stone>::empty());
                assert(out@ =~= before + "│"@ + row_text(cells.take(0)));
            }
            while col < W
                invariant
                    row < H,
                    col <= W,
                    rect(self@, W as int, H as int),
                    cells == self@[row as int],
                    out@ == before + "│"@ + row_text(cells.take(col as int)),
                decreases W - col,
            {
                let stone = self.get(row, col);
                out.append(
                    match stone {
                        Stone::__ => "__        ",
                        Stone::Red => "Red       ",
                        Stone::Orange => "Orange    ",
                        Stone::Yellow => "Yellow    ",
                        Stone::Green => "Green     ",
                        Stone::Blue => "Blue      ",
                        Stone::Purple => "Purple    ",
                    },
                );
                proof {
                    let now = cells.take(col + 1);
                    assert(now.drop_last() =~= cells.take(col as int));
                    assert(now.last() == stone);
                    assert(out@ =~= before + "│"@ + row_text(now));
                }
                col += 1;
            }
            out.append("│\n");
            proof {
                assert(cells.take(W as int) =~= cells);
                let now = self@.take(row + 1);
                assert(now.drop_last() =~= self@.take(row as int));
                assert(now.last() == cells);
                assert(out@ =~= top + rows_text(now));
            }
            row += 1;
        }
        proof {
            assert(self@.take(H as int) =~= self@);
        }
        out.append("└");
        Self::push_border(&mut out);
        out.append("┘\n");
        proof {
            assert(out@ =~= picture(self@, W as nat));
        }
        out
    }

    pub fn width(&self) -> (w: usize)
        ensures
            w == W,
    {
        W
    }

    pub fn height(&self) -> (h: usize)
        ensures
            h == H,
    {
        H
    }

    /// What cell `(row, col)` holds.
    pub fn get(&self, row: usize, col: usize) -> (s: Stone)
        requires
            row < H,
            col < W,
        ensures
            s == self@[row as int][col as int],
    {
        proof {
            self.lemma_view();
        }
        self.field[row][col]
    }

    fn set(&mut self, color: Stone, row: usize, col: usize)
        requires
            row < H,
            col < W,
        ensures
            final(self)@ == put(old(self)@, row as int, col as int, color),
    {
        proof {
            self.lemma_view();
        }
        self.field[row][col] = color;
        proof {
            self.lemma_view();
            assert(self@ =~~= put(old(self)@, row as int, col as int, color));
        }
    }

    /// The row above or below `row`, wrapping around; `row` itself for a
    /// horizontal direction.
    pub fn next_row(row: usize, dir: Dir) -> (r: usize)
        requires
            row < H,
        ensures
            r < H,
            r == shift(W as int, H as int, (row as int, 0), dir, 1).0,
    {
        proof {
            lemma_ring_step(row as int, H as int);
        }
        if dir == Dir::Up {
            if row == 0 {
                H - 1
            } else {
                row - 1
            }
        } else if dir == Dir::Down {
            if row + 1 == H {
                0
            } else {
                row + 1
            }
        } else {
            row
        }
    }

    /// The column left or right of `col`, wrapping around; `col` itself for
    /// a vertical direction.
    pub fn next_col(col: usize, dir: Dir) -> (c: usize)
        requires
            col < W,
        ensures
            c < W,
            c == shift(W as int, H as int, (0, col as int), dir, 1).1,
    {
        proof {
            lemma_ring_step(col as int, W as int);
        }
        if dir == Dir::Left {
            if col == 0 {
                W - 1
            } else {
                col - 1
            }
        } else if dir == Dir::Right {
            if col + 1 == W {
                0
            } else {
                col + 1
            }
        } else {
            col
        }
    }

    /// Where the stone of colour `color` lies.
    pub fn find(&self, color: Stone) -> (p: (usize, usize))
        requires
            rect(self@, W as int, H as int),
            present(self@, color),
        ensures
            holds(self@, color, p.0 as int, p.1 as int),
            distinct(self@) && color != Stone::__ ==> (p.0 as int, p.1 as int) == position_of(
                self@,
                color,
            ),
    {
        let mut row: usize = 0;
        while row < H
            invariant
                row <= H,
                rect(self@, W as int, H as int),
                present(self@, color),
                forall|r: int, c: int| 0 <= r < row && 0 <= c < W ==> !holds(self@, color, r, c),
            decreases H - row,
        {
            let mut col: usize = 0;
            while col < W
                invariant
                    row < H,
                    col <= W,
                    rect(self@, W as int, H as int),
                    forall|r: int, c: int|
                        0 <= r < row && 0 <= c < W ==> !holds(self@, color, r, c),
                    forall|c: int| 0 <= c < col ==> !holds(self@, color, row as int, c),
                decreases W - col,
            {
                if self.get(row, col) == color {
                    proof {
                        assert(holds(self@, color, row as int, col as int));
                        let q = position_of(self@, color);
                        assert(holds(self@, color, q.0, q.1));
                    }
                    return (row, col);
                }
                col += 1;
            }
            row += 1;
        }
        proof {
            let q = position_of(self@, color);
            assert(holds(self@, color, q.0, q.1));
            assert(false);
        }
        (0, 0)
    }

    /// Whether the stone of colour `color` lies on the field.
    pub fn contains(&self, color: Stone) -> (b: bool)
        ensures
            b == present(self@, color),
    {
        proof {
            self.lemma_view();
        }
        let mut row: usize = 0;
        while row < H
            invariant
                row <= H,
                rect(self@, W as int, H as int),
                forall|r: int, c: int| 0 <= r < row && 0 <= c < W ==> !holds(self@, color, r, c),
            decreases H - row,
        {
            let mut col: usize = 0;
            while col < W
                invariant
                    row < H,
                    col <= W,
                    rect(self@, W as int, H as int),
                    forall|c: int| 0 <= c < col ==> !holds(self@, color, row as int, c),
                decreases W - col,
            {
                if self.get(row, col) == color {
                    proof {
                        assert(holds(self@, color, row as int, col as int));
                    }
                    return true;
                }
                col += 1;
            }
            row += 1;
        }
        proof {
            assert forall|r: int, c: int| !holds(self@, color, r, c) by {}
        }
        false
    }

    /// Whether the colour `color` lies on one cell at most.
    fn lies_once(&self, color: Stone) -> (b: bool)
        requires
            color != Stone::__,
        ensures
            b == (forall|r1: int, c1: int, r2: int, c2: int|
                #[trigger] holds(self@, color, r1, c1) && #[trigger] holds(self@, color, r2, c2)
                    ==> r1 == r2 && c1 == c2),
    {
        proof {
            self.lemma_view();
        }
        let mut seen: Option<(usize, usize)> = None;
        let mut row: usize = 0;
        while row < H
            invariant
                row <= H,
                rect(self@, W as int, H as int),
                seen matches Some(p) ==> holds(self@, color, p.0 as int, p.1 as int) && p.0 < row,
                forall|r: int, c: int|
                    0 <= r < row && 0 <= c < W && holds(self@, color, r, c) ==> seen == Some(
                        (r as usize, c as usize),
                    ),
            decreases H - row,
        {
            let mut col: usize = 0;
            while col < W
                invariant
                    row < H,
                    col <= W,
                    rect(self@, W as int, H as int),
                    seen matches Some(p) ==> holds(self@, color, p.0 as int, p.1 as int) && (p.0
                        < row || (p.0 == row && p.1 < col)),
                    forall|r: int, c: int|
                        0 <= r < row && 0 <= c < W && holds(self@, color, r, c) ==> seen == Some(
                            (r as usize, c as usize),
                        ),
                    forall|c: int|
                        0 <= c < col && holds(self@, color, row as int, c) ==> seen == Some(
                            (row, c as usize),
                        ),
                decreases W - col,
            {
                if self.get(row, col) == color {
                    match seen {
                        Some(p) => {
                            proof {
                                assert(holds(self@, color, p.0 as int, p.1 as int));
                                assert(holds(self@, color, row as int, col as int));
                            }
                            return false;
                        },
                        None => {
                            seen = Some((row, col));
                        },
                    }
                }
                col += 1;
            }
            row += 1;
        }
        true
    }

    /// Whether no colour lies on two cells of the field.
    pub fn is_valid(&self) -> (b: bool)
        ensures
            b == self.wf(),
    {
        proof {
            self.lemma_view();
        }
        let b = self.lies_once(Stone::Red) && self.lies_once(Stone::Orange) && self.lies_once(
            Stone::Yellow,
        ) && self.lies_once(Stone::Green) && self.lies_once(Stone::Blue) && self.lies_once(
            Stone::Purple,
        );
        proof {
            if b {
                assert forall|s: Stone, r1: int, c1: int, r2: int, c2: int|
                    s != Stone::__ && #[trigger] holds(self@, s, r1, c1) && #[trigger] holds(
                        self@,
                        s,
                        r2,
                        c2,
                    ) implies r1 == r2 && c1 == c2 by {
                    match s {
                        Stone::Red => {},
                        Stone::Orange => {},
                        Stone::Yellow => {},
                        Stone::Green => {},
                        Stone::Blue => {},
                        _ => {},
                    }
                }
            }
        }
        b
    }

    /// Attempts the move that `cmd` asks for and returns the commands that
    /// were realized, in the order in which their opcodes are to run: the
    /// pushes of lighter stones first, the request itself last.
    pub fn commands_for(&mut self, cmd: Command) -> (cmds: Vec<Command>)
        requires
            old(self).wf(),
            cmd.wf(),
            present(old(self)@, cmd.color),
            roomy(old(self)@, cmd.dir),
        ensures
            final(self)@ == resolve(old(self)@, cmd).grid,
            cmds@ == resolve(old(self)@, cmd).commands,
            final(self).wf(),
            same_stones(old(self)@, final(self)@),
            forall|i: int| 0 <= i < cmds.len() ==> (#[trigger] cmds[i]).wf(),
    {
        let mut cmds = Vec::new();
        proof {
            self.lemma_cols();
            lemma_resolve(self@, cmd);
        }
        self.step_rec(&mut cmds, cmd);
        proof {
            assert(cmds@ =~= resolve(old(self)@, cmd).commands);
        }
        cmds
    }

    proof fn lemma_cols(&self)
        requires
            rect(self@, W as int, H as int),
        ensures
            H > 0 ==> cols_of(self@) == W,
            self@.len() == H,
    {
    }

    /// Slides the stone of `cmd`, pushes what is in its way, and appends to
    /// `cmds` what was realized. Returns whether the stone was blocked at
    /// its first step.
    fn step_rec(&mut self, cmds: &mut Vec<Command>, cmd: Command) -> (blocked: bool)
        requires
            old(self).wf(),
            cmd.wf(),
            present(old(self)@, cmd.color),
            roomy(old(self)@, cmd.dir),
        ensures
            final(self)@ == resolve(old(self)@, cmd).grid,
            final(cmds)@ == old(cmds)@ + resolve(old(self)@, cmd).commands,
            blocked == (resolve(old(self)@, cmd).steps == 0),
        decreases cmd.color.weight(),
    {
        let (row_idx, col_idx) = self.find(cmd.color);
        let mut current_row = row_idx;
        let mut current_col = col_idx;
        let mag = cmd.magnitude();
        let mut steps_taken: usize = 0;
        let mut stopped = false;
        let ghost g0 = self@;
        let ghost c0 = cmds@;
        let ghost mut acc: Seq<Command> = Seq::empty();
        proof {
            self.lemma_cols();
            assert(cmds@ =~= c0 + acc);
            let first = slide(g0, cmd.color, cmd.dir, mag as nat);
            assert(first.commands =~= acc + first.commands);
        }
        while steps_taken < mag && !stopped
            invariant
                steps_taken <= mag <= 3,
                mag == cmd.spec_magnitude(),
                cmd.wf(),
                self.wf(),
                H > 0,
                roomy(self@, cmd.dir),
                current_row < H,
                current_col < W,
                holds(self@, cmd.color, current_row as int, current_col as int),
                cmds@ == c0 + acc,
                !stopped ==> slide(g0, cmd.color, cmd.dir, mag as nat) == after(
                    acc,
                    steps_taken as nat,
                    slide(self@, cmd.color, cmd.dir, (mag - steps_taken) as nat),
                ),
                stopped ==> slide(g0, cmd.color, cmd.dir, mag as nat) == (Outcome {
                    grid: self@,
                    commands: acc,
                    steps: steps_taken as nat,
                }),
            decreases
                    mag - steps_taken + if stopped {
                        0int
                    } else {
                        1int
                    },
        {
            let next_row = Self::next_row(current_row, cmd.dir);
            let next_col = Self::next_col(current_col, cmd.dir);
            let next = self.get(next_row, next_col);
            let ghost g = self@;
            let ghost from = (current_row as int, current_col as int);
            let ghost to = (next_row as int, next_col as int);
            let ghost left = (mag - steps_taken) as nat;
            proof {
                self.lemma_cols();
                let at = position_of(g, cmd.color);
                assert(holds(g, cmd.color, at.0, at.1));
                assert(at == from);
                assert(to == ahead(g, from, cmd.dir));
                lemma_ahead(g, from, cmd.dir);
                if next == cmd.color {
                    assert(holds(g, cmd.color, to.0, to.1));
                }
            }
            if next > cmd.color {
                // A heavier stone lies ahead: the move ends here.
                stopped = true;
            } else if next == Stone::__ {
                // The cell ahead is empty: the stone moves onto it.
                self.set(Stone::__, current_row, current_col);
                self.set(cmd.color, next_row, next_col);
                proof {
                    lemma_move_stone(g, from, to);
                    assert(self@ == move_stone(g, from, to));
                    let rest = slide(self@, cmd.color, cmd.dir, (left - 1) as nat);
                    assert(slide(g, cmd.color, cmd.dir, left) == after(Seq::empty(), 1, rest));
                    assert(acc + (Seq::<Command>::empty() + rest.commands) =~= acc
                        + rest.commands);
                }
                current_row = next_row;
                current_col = next_col;
                steps_taken += 1;
            } else {
                // A lighter stone lies ahead: it has to make way first.
                let next_cmd = Command {
                    color: next,
                    number: next.number_one(),
                    dir: cmd.dir,
                    side_effect: true,
                };
                proof {
                    assert(holds(g, next, to.0, to.1));
                    assert(next_cmd == pushed_by(next, cmd.dir));
                    lemma_resolve(g, next_cmd);
                    let far = position_of(g, next);
                    assert(holds(g, next, far.0, far.1));
                    assert(far == to);
                    lemma_shift(W as int, H as int, to, cmd.dir, 0);
                }
                let ghost pushed = resolve(g, next_cmd);
                let blocked = self.step_rec(cmds, next_cmd);
                if blocked {
                    stopped = true;
                    proof {
                        assert(cmds@ =~= c0 + acc);
                    }
                } else {
                    proof {
                        assert(pushed.steps == 1);
                        assert(holds(pushed.grid, Stone::__, to.0, to.1));
                        assert(holds(pushed.grid, cmd.color, from.0, from.1));
                        lemma_move_stone(pushed.grid, from, to);
                    }
                    self.set(Stone::__, current_row, current_col);
                    self.set(cmd.color, next_row, next_col);
                    proof {
                        assert(self@ == move_stone(pushed.grid, from, to));
                        let rest = slide(self@, cmd.color, cmd.dir, (left - 1) as nat);
                        assert(slide(g, cmd.color, cmd.dir, left) == after(
                            pushed.commands,
                            1,
                            rest,
                        ));
                        assert(acc + (pushed.commands + rest.commands) =~= (acc
                            + pushed.commands) + rest.commands);
                        assert(cmds@ =~= c0 + (acc + pushed.commands));
                        acc = acc + pushed.commands;
                    }
                    current_row = next_row;
                    current_col = next_col;
                    steps_taken += 1;
                }
            }
        }
        proof {
            let out = slide(g0, cmd.color, cmd.dir, mag as nat);
            assert(out.steps == steps_taken);
            assert(out.grid == self@);
            assert(out.commands =~= acc);
        }
        if steps_taken == 0 {
            // Blocked at once: nothing is realized.
            proof {
                lemma_slide(g0, cmd.color, cmd.dir, mag as nat);
                assert(cmds@ =~= c0 + resolve(g0, cmd).commands);
            }
            true
        } else if steps_taken == mag {
            cmds.push(cmd);
            proof {
                assert(cmds@ =~= c0 + resolve(g0, cmd).commands);
            }
            false
        } else {
            // Stopped on the way: the request counts for the steps taken.
            let new_cmd = cmd.change_magnitude(steps_taken);
            cmds.push(new_cmd);
            proof {
                assert(cmds@ =~= c0 + resolve(g0, cmd).commands);
            }
            false
        }
    }
}

} // verus!
