//! Camera navigation: which camera commands one frame's keyboard state asks for.
use vstd::prelude::*;

verus! {

/// One frame of input: whether the window is still open, and which keys are down.
#[derive(Clone, Copy, Debug, PartialEq, Eq, Structural)]
pub struct Input {
    pub open: bool,
    pub escape: bool,
    pub w: bool,
    pub s: bool,
    pub a: bool,
    pub d: bool,
    pub shift: bool,
    pub up: bool,
    pub down: bool,
}

/// A discrete camera movement; each is followed by a fresh frame.
#[derive(Clone, Copy, Debug, PartialEq, Eq, Structural)]
pub enum Command {
    MoveFront,
    MoveBack,
    MoveLeft,
    MoveRight,
    MoveUp,
    MoveDown,
    RotateLeft,
    RotateRight,
}

pub open spec fn when(b: bool, c: Command) -> Seq<Command> {
    if b {
        seq![c]
    } else {
        seq![]
    }
}

/// The commands of one frame, in this order: `W` forward, `S` back, `A`
/// left (turn left with shift), `D` right (turn right with shift), up arrow
/// up, down arrow down.
pub open spec fn commands_of(i: Input) -> Seq<Command> {
    when(i.w, Command::MoveFront) + when(i.s, Command::MoveBack) + when(
        i.a,
        if i.shift {
            Command::RotateLeft
        } else {
            Command::MoveLeft
        },
    ) + when(
        i.d,
        if i.shift {
            Command::RotateRight
        } else {
            Command::MoveRight
        },
    ) + when(i.up, Command::MoveUp) + when(i.down, Command::MoveDown)
}

/// Whether the viewer goes on: the window is open and escape is not down.
pub fn keep_running(input: &Input) -> (r: bool)
    ensures
        r == (input.open && !input.escape),
{
    input.open && !input.escape
}

fn push_when(r: &mut Vec<Command>, b: bool, c: Command)
    ensures
        final(r)@ == old(r)@ + when(b, c),
{
    if b {
        r.push(c);
    }
    assert(r@ =~= old(r)@ + when(b, c));
}

/// The camera commands that `input` asks for, in the order they apply.
pub fn frame_commands(input: &Input) -> (r: Vec<Command>)
    ensures
        r@ == commands_of(*input),
{
    let mut r: Vec<Command> = Vec::new();
    let left = if input.shift { Command::RotateLeft } else { Command::MoveLeft };
    let right = if input.shift { Command::RotateRight } else { Command::MoveRight };
    push_when(&mut r, input.w, Command::MoveFront);
    push_when(&mut r, input.s, Command::MoveBack);
    push_when(&mut r, input.a, left);
    push_when(&mut r, input.d, right);
    push_when(&mut r, input.up, Command::MoveUp);
    push_when(&mut r, input.down, Command::MoveDown);
    assert(r@ =~= commands_of(*input));
    r
}

} // verus!
