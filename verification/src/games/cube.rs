//! The cube platformer's state machine: its states, moving between rooms,
//! counting orbs toward the boss fight, and the death countdown; and the
//! state machine of the game's earlier build.
use vstd::prelude::*;

verus! {

pub const STATE_START: i32 = 0;
pub const STATE_PLAY: i32 = 1;
pub const STATE_BOSS: i32 = 2;
pub const STATE_GAMECLEAR: i32 = 3;
pub const STATE_GAMEOVER: i32 = 4;
pub const STATE_GAMEOVER_SEQ: i32 = 5;

/// Orbs that open the boss fight.
pub const ORBS_FOR_BOSS: i32 = 3;

/// Frames of the death sequence.
pub const DEATH_FRAMES: i32 = 60;

/// Which side of the screen the player left the room by, if any (checked
/// in this order: top, bottom, left, right).
#[derive(Debug, Clone, Copy, PartialEq, Eq, Structural)]
pub enum Exit {
    Stay,
    Up,
    Down,
    Left,
    Right,
}

/// The room reached through an exit: rooms are numbered by column and row,
/// rows growing downward.
pub open spec fn spec_room_after(room: (i32, i32), exit: Exit) -> (int, int) {
    match exit {
        Exit::Stay => (room.0 as int, room.1 as int),
        Exit::Up => (room.0 as int, room.1 - 1),
        Exit::Down => (room.0 as int, room.1 + 1),
        Exit::Left => (room.0 - 1, room.1 as int),
        Exit::Right => (room.0 + 1, room.1 as int),
    }
}

/// The room reached through an exit.
pub fn room_after(room: (i32, i32), exit: Exit) -> (r: (i32, i32))
    requires
        i32::MIN < room.0 < i32::MAX,
        i32::MIN < room.1 < i32::MAX,
    ensures
        (r.0 as int, r.1 as int) == spec_room_after(room, exit),
{
    match exit {
        Exit::Stay => room,
        Exit::Up => (room.0, room.1 - 1),
        Exit::Down => (room.0, room.1 + 1),
        Exit::Left => (room.0 - 1, room.1),
        Exit::Right => (room.0 + 1, room.1),
    }
}

/// Leaving a room and coming back through the opposite side returns to it.
pub proof fn law_opposite_exits_return(room: (i32, i32))
    requires
        i32::MIN < room.0 < i32::MAX,
        i32::MIN < room.1 < i32::MAX,
    ensures
        ({
            let up = spec_room_after(room, Exit::Up);
            let left = spec_room_after(room, Exit::Left);
            &&& spec_room_after((up.0 as i32, up.1 as i32), Exit::Down) == (room.0 as int, room.1 as int)
            &&& spec_room_after((left.0 as i32, left.1 as i32), Exit::Right) == (room.0 as int, room.1 as int)
        }),
{
}

/// After a frame of play in which `newly` orbs were collected: the new
/// count, and whether the boss fight starts (at three orbs or more).
pub fn count_orbs(collected: i32, newly: i32) -> (r: (i32, bool))
    requires
        0 <= newly,
        collected + newly <= i32::MAX,
    ensures
        r.0 == collected + newly,
        r.1 == (collected + newly >= ORBS_FOR_BOSS),
{
    let c = collected + newly;
    (c, c >= ORBS_FOR_BOSS)
}

/// One frame of the death sequence: the timer goes down by one, and the
/// sequence ends (game over) once it reaches zero.
pub fn count_down(timer: i32) -> (r: (i32, bool))
    requires
        timer > i32::MIN,
    ensures
        r.0 == timer - 1,
        r.1 == (timer - 1 <= 0),
{
    let t = timer - 1;
    (t, t <= 0)
}

/// The state after a frame, for the moves that do not depend on the
/// player's motion: jump starts the game from the title and restarts it
/// after it ended (the restart also empties the orb count and goes back to
/// the first room); the death sequence ends after its countdown.
pub open spec fn spec_control_step(state: i32, jump: bool, timer_done: bool) -> (i32, bool) {
    if state == STATE_START {
        (if jump { STATE_PLAY } else { STATE_START }, false)
    } else if state == STATE_GAMEOVER_SEQ {
        (if timer_done { STATE_GAMEOVER } else { STATE_GAMEOVER_SEQ }, false)
    } else if state == STATE_GAMEOVER || state == STATE_GAMECLEAR {
        if jump { (STATE_PLAY, true) } else { (state, false) }
    } else {
        (state, false)
    }
}

/// The state after a frame for the title, the death sequence and the end
/// screens, and whether the game restarts.
pub fn control_step(state: i32, jump: bool, timer_done: bool) -> (r: (i32, bool))
    ensures
        r == spec_control_step(state, jump, timer_done),
{
    if state == STATE_START {
        (if jump { STATE_PLAY } else { STATE_START }, false)
    } else if state == STATE_GAMEOVER_SEQ {
        (if timer_done { STATE_GAMEOVER } else { STATE_GAMEOVER_SEQ }, false)
    } else if state == STATE_GAMEOVER || state == STATE_GAMECLEAR {
        if jump { (STATE_PLAY, true) } else { (state, false) }
    } else {
        (state, false)
    }
}

/// Frames of the earlier build's death sequence.
pub const LONG_DEATH_FRAMES: i32 = 300;

/// Frames the screen shakes after a death.
pub const SHAKE_FRAMES: i32 = 10;

/// One frame of the earlier build's state machine, after the player has
/// moved (`died` is read only while playing): the title goes straight to
/// play; a death starts the 300-frame death sequence and a 10-frame shake;
/// the sequence counts down and, once its counter reaches zero, the player
/// respawns and play resumes. Every frame the shake, when running, loses a
/// frame. The result is the new state, death counter and shake, and whether
/// the player respawns.
pub open spec fn spec_long_step(state: u32, died: bool, death_counter: i32, shake: i32) -> (u32, int, int, bool) {
    let (st, dc, sh, respawn) = if state == STATE_START as u32 {
        (STATE_PLAY as u32, death_counter as int, shake as int, false)
    } else if state == STATE_PLAY as u32 {
        if died {
            (STATE_GAMEOVER_SEQ as u32, LONG_DEATH_FRAMES as int, SHAKE_FRAMES as int, false)
        } else {
            (state, death_counter as int, shake as int, false)
        }
    } else if state == STATE_GAMEOVER_SEQ as u32 {
        if death_counter - 1 <= 0 {
            (STATE_PLAY as u32, death_counter - 1, shake as int, true)
        } else {
            (state, death_counter - 1, shake as int, false)
        }
    } else {
        (state, death_counter as int, shake as int, false)
    };
    (st, dc, if sh > 0 { sh - 1 } else { sh }, respawn)
}

/// One frame of the earlier build's state machine (see `spec_long_step`).
pub fn long_step(state: u32, died: bool, death_counter: i32, shake: i32) -> (r: (u32, i32, i32, bool))
    requires
        state == STATE_GAMEOVER_SEQ as u32 ==> death_counter > i32::MIN,
    ensures
        (r.0, r.1 as int, r.2 as int, r.3) == spec_long_step(state, died, death_counter, shake),
{
    let mut st = state;
    let mut dc = death_counter;
    let mut sh = shake;
    let mut respawn = false;
    if state == STATE_START as u32 {
        st = STATE_PLAY as u32;
    } else if state == STATE_PLAY as u32 {
        if died {
            sh = SHAKE_FRAMES;
            st = STATE_GAMEOVER_SEQ as u32;
            dc = LONG_DEATH_FRAMES;
        }
    } else if state == STATE_GAMEOVER_SEQ as u32 {
        dc = dc - 1;
        if dc <= 0 {
            respawn = true;
            st = STATE_PLAY as u32;
        }
    }
    if sh > 0 {
        sh = sh - 1;
    }
    (st, dc, sh, respawn)
}

} // verus!
