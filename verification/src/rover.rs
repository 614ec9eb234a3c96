//! The rover state machine: a rover on a bounded grid follows turn and
//! move commands until its command list is exhausted or it leaves the grid.

use vstd::prelude::*;

use crate::vector::{Vector, is_unit_vector, spec_rotate_left, spec_rotate_right};

verus! {

/// A command issued to a [`Rover`].
#[derive(Debug, Clone, Copy, PartialEq, Eq, Structural)]
pub enum Command {
    /// Command the rover to turn left (90 degrees anticlockwise).
    Left,
    /// Command the rover to turn right (90 degrees clockwise).
    Right,
    /// Command the rover to move forward by 1 in the direction it faces.
    Forward,
}

/// A cardinal orientation, in bijection with the four unit vectors.
#[derive(Debug, Clone, Copy, PartialEq, Eq, Structural)]
pub enum Orientation {
    N,
    E,
    S,
    W,
}

/// Whether a rover is still inside its area of operation.
#[derive(Debug, Clone, Copy, PartialEq, Eq, Structural)]
pub enum RoverStatus {
    Operational,
    Lost,
}

/// An `m * n` grid representing the area of operation for a [`Rover`]. For
/// a `10 * 5` grid, `Grid { m: 10, n: 5 }`, the northeast corner is the
/// position `(10, 5)` and the southwest corner is `(0, 0)`; a position
/// `(x, y)` is on the grid when `0 <= x <= m` and `0 <= y <= n`.
#[derive(Debug, Clone, Copy, PartialEq, Eq, Structural)]
pub struct Grid {
    pub m: i32,
    pub n: i32,
}

/// A rover: a position, an orientation given as a unit vector, and a
/// status that starts `Operational` and becomes `Lost` forever if a
/// forward move would leave the grid.
#[derive(Debug, Clone, Copy, PartialEq, Eq, Structural)]
pub struct Rover {
    /// The position of the rover on a [`Grid`].
    pub position: Vector,
    /// The orientation of the rover, always one of the four unit vectors;
    /// a rover facing east has orientation `Vector { x: 1, y: 0 }`.
    pub orientation: Vector,
    /// `Operational` while every forward move so far has stayed on the
    /// grid, `Lost` from the first one that would have left it.
    pub status: RoverStatus,
}

/// The mathematical value of a [`Grid`].
pub struct GridView {
    pub m: int,
    pub n: int,
}

/// The mathematical value of a [`Rover`]: its position, the unit vector it
/// faces along, and whether it is lost.
pub struct RoverView {
    pub x: int,
    pub y: int,
    pub dx: int,
    pub dy: int,
    pub lost: bool,
}

impl View for Grid {
    type V = GridView;

    open spec fn view(&self) -> GridView {
        GridView { m: self.m as int, n: self.n as int }
    }
}

impl View for Rover {
    type V = RoverView;

    open spec fn view(&self) -> RoverView {
        RoverView {
            x: self.position.x as int,
            y: self.position.y as int,
            dx: self.orientation.x as int,
            dy: self.orientation.y as int,
            lost: self.status == RoverStatus::Lost,
        }
    }
}

/// The effect of one command on a rover. A lost rover ignores every
/// command. Turns replace the orientation by its rotation and leave the
/// position alone. A forward move adds the orientation to the position;
/// if the candidate position lies outside the grid the rover becomes lost
/// and keeps its last valid position, otherwise it moves there.
pub open spec fn step(r: RoverView, c: Command, g: GridView) -> RoverView {
    if r.lost {
        r
    } else {
        match c {
            Command::Left => RoverView { dx: -r.dy, dy: r.dx, ..r },
            Command::Right => RoverView { dx: r.dy, dy: -r.dx, ..r },
            Command::Forward => {
                let nx = r.x + r.dx;
                let ny = r.y + r.dy;
                if nx < 0 || nx > g.m || ny < 0 || ny > g.n {
                    RoverView { lost: true, ..r }
                } else {
                    RoverView { x: nx, y: ny, ..r }
                }
            },
        }
    }
}

/// The terminal state of a rover after following a whole command list in
/// order.
pub open spec fn run(r: RoverView, cs: Seq<Command>, g: GridView) -> RoverView
    decreases cs.len(),
{
    if cs.len() == 0 {
        r
    } else {
        run(step(r, cs[0], g), cs.drop_first(), g)
    }
}

/// Following a list and then one more command is the same as stepping the
/// terminal state of the list by that command.
pub proof fn lemma_run_snoc(r: RoverView, cs: Seq<Command>, c: Command, g: GridView)
    ensures
        run(r, cs.push(c), g) == step(run(r, cs, g), c, g),
    decreases cs.len(),
{
    if cs.len() == 0 {
        assert(cs.push(c)[0] == c);
        assert(cs.push(c).drop_first() =~= Seq::<Command>::empty());
        assert(run(r, cs.push(c), g) == run(step(r, c, g), Seq::<Command>::empty(), g));
    } else {
        assert(cs.push(c)[0] == cs[0]);
        assert(cs.push(c).drop_first() =~= cs.drop_first().push(c));
        lemma_run_snoc(step(r, cs[0], g), cs.drop_first(), c, g);
        assert(run(r, cs.push(c), g) == run(step(r, cs[0], g), cs.drop_first().push(c), g));
        assert(run(r, cs, g) == run(step(r, cs[0], g), cs.drop_first(), g));
    }
}

/// Following a concatenation of two command lists is the same as following
/// the first and then the second from where the first ended.
pub proof fn lemma_run_concat(r: RoverView, a: Seq<Command>, b: Seq<Command>, g: GridView)
    ensures
        run(r, a + b, g) == run(run(r, a, g), b, g),
    decreases a.len(),
{
    if a.len() == 0 {
        assert(a + b =~= b);
    } else {
        assert((a + b)[0] == a[0]);
        assert((a + b).drop_first() =~= a.drop_first() + b);
        lemma_run_concat(step(r, a[0], g), a.drop_first(), b, g);
    }
}

/// A lost rover is left unchanged by any command list.
pub proof fn lemma_lost_halts(r: RoverView, cs: Seq<Command>, g: GridView)
    requires
        r.lost,
    ensures
        run(r, cs, g) == r,
    decreases cs.len(),
{
    if cs.len() > 0 {
        assert(step(r, cs[0], g) == r);
        lemma_lost_halts(r, cs.drop_first(), g);
    }
}

/// Lost is sticky: once a command list leaves a rover lost, appending any
/// further commands to the tail of the list changes nothing about the
/// final position, orientation or status.
pub proof fn lemma_lost_is_sticky(r: RoverView, cs: Seq<Command>, extra: Seq<Command>, g: GridView)
    requires
        run(r, cs, g).lost,
    ensures
        run(r, cs + extra, g) == run(r, cs, g),
{
    lemma_run_concat(r, cs, extra, g);
    lemma_lost_halts(run(r, cs, g), extra, g);
}

impl Orientation {
    /// The unit vector that this orientation denotes.
    pub open spec fn spec_unit_vector(self) -> Vector {
        match self {
            Orientation::N => Vector { x: 0, y: 1 },
            Orientation::E => Vector { x: 1, y: 0 },
            Orientation::S => Vector { x: 0, y: -1i32 },
            Orientation::W => Vector { x: -1i32, y: 0 },
        }
    }

    /// Convert this orientation to the unit vector that encodes it. The
    /// conversion is total and its result is always canonical.
    pub fn to_unit_vector(self) -> (v: Vector)
        ensures
            v == self.spec_unit_vector(),
            is_unit_vector(v),
    {
        match self {
            Orientation::N => Vector::new(0, 1),
            Orientation::E => Vector::new(1, 0),
            Orientation::S => Vector::new(0, -1),
            Orientation::W => Vector::new(-1, 0),
        }
    }

    /// Convert a unit vector back to the orientation it encodes. The
    /// conversion is partial: it is defined only on the four canonical
    /// unit vectors, which the precondition demands.
    pub fn from_unit_vector(v: Vector) -> (o: Orientation)
        requires
            is_unit_vector(v),
        ensures
            o.spec_unit_vector() == v,
    {
        if v.x == 0 && v.y == 1 {
            Orientation::N
        } else if v.x == 1 && v.y == 0 {
            Orientation::E
        } else if v.x == 0 && v.y == -1 {
            Orientation::S
        } else {
            Orientation::W
        }
    }
}

impl Rover {
    /// A rover is well formed when its orientation is one of the four
    /// canonical unit vectors. Rovers built by [`Rover::new`] are well
    /// formed, and following commands keeps them so.
    pub open spec fn wf(&self) -> bool {
        is_unit_vector(self.orientation)
    }

    /// A new rover at `position` facing `orientation`, operational.
    pub fn new(position: Vector, orientation: Orientation) -> (r: Rover)
        ensures
            r.position == position,
            r.orientation == orientation.spec_unit_vector(),
            r.status == RoverStatus::Operational,
            r.wf(),
    {
        Rover { position, orientation: orientation.to_unit_vector(), status: RoverStatus::Operational }
    }

    /// Follow a whole command list in order: the rover ends in the state
    /// that [`run`] assigns to its starting state and the list. Commands
    /// after the one that loses the rover are not processed, which by
    /// [`lemma_lost_is_sticky`] does not change the outcome.
    pub fn follow_commands(&mut self, commands: &[Command], grid: &Grid)
        requires
            old(self).wf(),
        ensures
            final(self)@ == run(old(self)@, commands@, grid@),
            final(self).wf(),
    {
        let mut i: usize = 0;
        while i < commands.len()
            invariant
                i <= commands.len(),
                self@ == run(old(self)@, commands@.take(i as int), grid@),
                self.wf(),
            decreases commands.len() - i,
        {
            if self.status == RoverStatus::Lost {
                proof {
                    lemma_run_concat(
                        old(self)@,
                        commands@.take(i as int),
                        commands@.skip(i as int),
                        grid@,
                    );
                    assert(commands@.take(i as int) + commands@.skip(i as int) =~= commands@);
                    lemma_lost_halts(self@, commands@.skip(i as int), grid@);
                }
                return;
            }
            let command = commands[i];
            self.follow_command(command, grid);
            proof {
                lemma_run_snoc(old(self)@, commands@.take(i as int), command, grid@);
                assert(commands@.take(i as int).push(command) =~= commands@.take(i as int + 1));
            }
            i = i + 1;
        }
        proof {
            assert(commands@.take(commands@.len() as int) =~= commands@);
        }
    }

    /// Follow a single command: the rover ends in the state that [`step`]
    /// assigns to its starting state and the command.
    fn follow_command(&mut self, command: Command, grid: &Grid)
        requires
            old(self).wf(),
        ensures
            final(self)@ == step(old(self)@, command, grid@),
            final(self).wf(),
    {
        if self.status == RoverStatus::Operational {
            match command {
                Command::Left => {
                    proof {
                        crate::vector::lemma_rotation_closure(self.orientation);
                    }
                    self.orientation = self.orientation.rotate_left();
                    assert(self.orientation == spec_rotate_left(old(self).orientation));
                }
                Command::Right => {
                    proof {
                        crate::vector::lemma_rotation_closure(self.orientation);
                    }
                    self.orientation = self.orientation.rotate_right();
                    assert(self.orientation == spec_rotate_right(old(self).orientation));
                }
                Command::Forward => {
                    let nx: i64 = self.position.x as i64 + self.orientation.x as i64;
                    let ny: i64 = self.position.y as i64 + self.orientation.y as i64;
                    if nx > grid.m as i64 || nx < 0 || ny > grid.n as i64 || ny < 0 {
                        self.status = RoverStatus::Lost;
                    } else {
                        self.position = self.position.add(self.orientation);
                    }
                }
            }
        }
    }
}

} // verus!
