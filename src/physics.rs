use vstd::prelude::*;
use crate::force::{field, net_force, Force};
use crate::game::{in_play_button, in_reset_button, lemma_buttons_apart, Game, GameModel};
use crate::state::{State, StateModel, WinState};

verus! {

/// An engine arena handle, by its raw parts.
#[derive(Copy, Clone, Debug, PartialEq, Eq, Structural)]
pub struct EngineHandle {
    pub index: u32,
    pub generation: u32,
}

/// A collision notification raised by the engine during a step: the two
/// colliders involved, and whether either of them is a sensor.
#[derive(Copy, Clone, Debug, PartialEq, Eq, Structural)]
pub struct CollisionEvent {
    pub collider1: EngineHandle,
    pub collider2: EngineHandle,
    pub sensor: bool,
}

/// The handles a run needs to interpret engine notifications.
#[derive(Copy, Clone, Debug, PartialEq, Eq, Structural)]
pub struct PhysEventHandler {
    pub goal_handle: EngineHandle,
    pub puck_collider_handle: EngineHandle,
    pub puck_handle: EngineHandle,
}

/// Exactly one of the two colliders is the puck's and the other is a sensor;
/// the only sensor is the goal's.
pub open spec fn qualifies(h: PhysEventHandler, e: CollisionEvent) -> bool {
    ((e.collider1 == h.puck_collider_handle) != (e.collider2 == h.puck_collider_handle))
        && e.sensor
}

pub open spec fn after_collision(h: PhysEventHandler, w: WinState, e: CollisionEvent) -> WinState {
    if qualifies(h, e) && w == WinState::Ongoing {
        WinState::Win
    } else {
        w
    }
}

/// The win state after a frame's notifications, in order.
pub open spec fn after_events(h: PhysEventHandler, w: WinState, evs: Seq<CollisionEvent>) -> WinState
    decreases evs.len(),
{
    if evs.len() == 0 {
        w
    } else {
        after_collision(h, after_events(h, w, evs.drop_last()), evs.last())
    }
}

/// The game after one frame in which the engine raised `evs` and left the
/// puck at (`x`, `y`). Nothing changes without a run or while paused.
pub open spec fn stepped(g: GameModel, h: PhysEventHandler, evs: Seq<CollisionEvent>, x: int, y: int) -> GameModel {
    match g.current {
        Some(s) => if s.pause {
            g
        } else {
            GameModel {
                current: Some(
                    StateModel { win_state: after_events(h, s.win_state, evs), puck_x: x, puck_y: y, ..s },
                ),
                ..g
            }
        },
        None => g,
    }
}

/// The input of one frame: the engine's notifications and where it left the puck.
pub type Frame = (Seq<CollisionEvent>, i32, i32);

pub open spec fn run_frames(g: GameModel, h: PhysEventHandler, frames: Seq<Frame>) -> GameModel
    decreases frames.len(),
{
    if frames.len() == 0 {
        g
    } else {
        let f = frames.last();
        stepped(run_frames(g, h, frames.drop_last()), h, f.0, f.1 as int, f.2 as int)
    }
}

impl PhysEventHandler {
    /// Record a collision notification: the puck reaching the goal's sensor
    /// wins an ongoing game; anything else changes nothing.
    pub fn handle_collision_event(&self, state: &mut State, event: CollisionEvent)
        ensures
            final(state)@ == (StateModel {
                win_state: after_collision(*self, old(state)@.win_state, event),
                ..old(state)@
            }),
    {
        if ((event.collider1 == self.puck_collider_handle) != (event.collider2
            == self.puck_collider_handle)) && event.sensor {
            if state.win_state == WinState::Ongoing {
                state.win_state = WinState::Win;
            }
        }
    }
}

/// Begin a run from a snapshot of the draft.
pub fn initialize_physics(game: &mut Game)
    requires
        old(game).wf(),
    ensures
        final(game).wf(),
        final(game)@ == (GameModel { current: Some(old(game)@.base), ..old(game)@ }),
        final(game)@.current matches Some(s) && !s.pause && s.win_state == WinState::Ongoing,
{
    game.current = Some(game.base.snapshot());
}

/// Whether a frame advances the simulation: a run exists and is not paused.
pub fn is_advancing(game: &Game) -> (r: bool)
    ensures
        r == (game@.current matches Some(s) && !s.pause),
{
    match &game.current {
        Some(s) => !s.pause,
        None => false,
    }
}

/// One frame, after the engine has advanced: route the frame's collision
/// notifications, store the puck's new position (`puck_x`, `puck_y`), and
/// return the force to apply to the puck for the next integration. Returns
/// `None`, changing nothing, without a run or while paused.
pub fn wasm_calc_physics_step(
    game: &mut Game,
    handler: &PhysEventHandler,
    events: &Vec<CollisionEvent>,
    puck_x: i32,
    puck_y: i32,
) -> (r: Option<Force>)
    requires
        old(game).wf(),
    ensures
        final(game).wf(),
        final(game)@ == stepped(old(game)@, *handler, events@, puck_x as int, puck_y as int),
        r is Some <==> (old(game)@.current matches Some(s) && !s.pause),
        r matches Some(f) ==> (old(game)@.current matches Some(s) && (f.x as int, f.y as int)
            == field(puck_x as int, puck_y as int, s.neg_puck, s.charges)),
{
    match game.current {
        Some(ref mut s) => {
            if s.pause {
                None
            } else {
                let ghost s0 = s@;
                let mut i: usize = 0;
                while i < events.len()
                    invariant
                        i <= events@.len(),
                        s@ == (StateModel {
                            win_state: after_events(*handler, s0.win_state, events@.take(i as int)),
                            ..s0
                        }),
                    decreases events.len() - i,
                {
                    assert(events@.take(i as int + 1).drop_last() =~= events@.take(i as int));
                    handler.handle_collision_event(s, events[i]);
                    i = i + 1;
                }
                assert(events@.take(i as int) =~= events@);
                let f = net_force(puck_x, puck_y, s.neg_puck, &s.charges);
                s.puck_x = puck_x;
                s.puck_y = puck_y;
                Some(f)
            }
        },
        None => None,
    }
}

/// A qualifying notification applied twice leaves the same win state as
/// applied once.
pub proof fn lemma_goal_notification_idempotent(h: PhysEventHandler, w: WinState, e: CollisionEvent)
    ensures
        after_collision(h, after_collision(h, w, e), e) == after_collision(h, w, e),
{
}

/// Once won, a run stays won whatever the engine reports.
pub proof fn lemma_win_is_final(h: PhysEventHandler, evs: Seq<CollisionEvent>)
    ensures
        after_events(h, WinState::Win, evs) == WinState::Win,
    decreases evs.len(),
{
    if evs.len() > 0 {
        lemma_win_is_final(h, evs.drop_last());
    }
}

/// A frame while paused changes nothing.
pub proof fn lemma_paused_step_changes_nothing(
    g: GameModel,
    h: PhysEventHandler,
    evs: Seq<CollisionEvent>,
    x: int,
    y: int,
)
    requires
        g.current matches Some(s) && s.pause,
    ensures
        stepped(g, h, evs, x, y) == g,
{
}

/// Frames never touch the draft, and never end the run.
pub proof fn lemma_frames_keep_draft(g: GameModel, h: PhysEventHandler, frames: Seq<Frame>)
    ensures
        run_frames(g, h, frames).base == g.base,
        g.current is Some ==> run_frames(g, h, frames).current is Some,
    decreases frames.len(),
{
    if frames.len() > 0 {
        lemma_frames_keep_draft(g, h, frames.drop_last());
    }
}

/// Starting a run, playing any frames, then resetting gives back the game
/// exactly as it was before the start.
pub proof fn lemma_start_reset_round_trip(g: GameModel, h: PhysEventHandler, frames: Seq<Frame>)
    requires
        g.editing(),
    ensures
        run_frames(g.toggled(), h, frames).reset() == g,
{
    lemma_frames_keep_draft(g.toggled(), h, frames);
}

/// The same round trip through the buttons: a release on Play in edit mode,
/// any frames, then a release on Reset give back the game as it was.
pub proof fn lemma_button_round_trip(
    g: GameModel,
    h: PhysEventHandler,
    frames: Seq<Frame>,
    x1: int,
    y1: int,
    x2: int,
    y2: int,
)
    requires
        g.editing(),
        in_play_button(x1, y1),
        in_reset_button(x2, y2),
    ensures
        run_frames(g.released(x1, y1), h, frames).released(x2, y2) == g,
{
    lemma_buttons_apart(x2, y2);
    lemma_start_reset_round_trip(g, h, frames);
}

} // verus!
