//! Small pieces of state that the board's views keep from frame to frame:
//! which board generation the piece animations show, how many frames the
//! reflection still has to redraw, and which square the pointer is over.
use vstd::prelude::*;
use crate::chess_match::ChessMatch;
use crate::client::{random_clip_index, result_sound, result_sound_spec, GameMode, ResultSound};
use crate::game::{outcome_spec, GameOutcome};
use crate::types::{Color, Square};

verus! {

/// Frames the reflection is redrawn after its target changes.
pub const RENDER_TARGET_REFRESH_FRAMES: u8 = 3;

/// Which board generation the pieces show, and how far its motions are.
pub struct PieceAnimationState {
    pub rendered_generation: u64,
    pub active_motions: usize,
    pub landed_generation: Option<u64>,
}

impl Default for PieceAnimationState {
    fn default() -> (r: Self)
        ensures
            r.rendered_generation == u64::MAX,
            r.active_motions == 0,
            r.landed_generation is None,
    {
        PieceAnimationState { rendered_generation: u64::MAX, active_motions: 0, landed_generation: None }
    }
}

impl PieceAnimationState {
    /// Whether `generation` is shown and none of its motions still runs.
    pub fn is_settled(&self, generation: u64) -> (r: bool)
        ensures
            r == (self.rendered_generation == generation && self.active_motions == 0),
    {
        self.rendered_generation == generation && self.active_motions == 0
    }

    /// Starts showing `generation`, with `active_motions` motions under way.
    pub fn begin_generation(&mut self, generation: u64, active_motions: usize)
        ensures
            final(self).rendered_generation == generation,
            final(self).active_motions == active_motions,
            final(self).landed_generation is None,
    {
        self.rendered_generation = generation;
        self.active_motions = active_motions;
        self.landed_generation = None;
    }

    /// One motion of `generation` has ended; motions of an older generation
    /// are ignored.
    pub fn finish_motion(&mut self, generation: u64)
        ensures
            final(self).rendered_generation == old(self).rendered_generation,
            final(self).landed_generation == old(self).landed_generation,
            final(self).active_motions == if old(self).rendered_generation == generation
                && old(self).active_motions > 0 {
                (old(self).active_motions - 1) as usize
            } else {
                old(self).active_motions
            },
    {
        if self.rendered_generation == generation {
            self.active_motions = if self.active_motions > 0 {
                self.active_motions - 1
            } else {
                0
            };
        }
    }

    /// Whether the moving piece of `generation` has reached its square.
    pub fn has_move_landed(&self, generation: u64) -> (r: bool)
        ensures
            r == (self.landed_generation == Some(generation)),
    {
        match self.landed_generation {
            Some(landed) => landed == generation,
            None => false,
        }
    }

    /// Records that the moving piece of `generation` has landed, when that
    /// generation is the one shown.
    pub fn mark_move_landed(&mut self, generation: u64)
        ensures
            final(self).rendered_generation == old(self).rendered_generation,
            final(self).active_motions == old(self).active_motions,
            final(self).landed_generation == if old(self).rendered_generation == generation {
                Some(generation)
            } else {
                old(self).landed_generation
            },
    {
        if self.rendered_generation == generation {
            self.landed_generation = Some(generation);
        }
    }
}

/// How many more frames the planar reflection is to be redrawn.
pub struct ReflectionDirty {
    pub frames_remaining: u8,
}

impl Default for ReflectionDirty {
    fn default() -> (r: Self)
        ensures
            r.frames_remaining == RENDER_TARGET_REFRESH_FRAMES,
    {
        ReflectionDirty { frames_remaining: RENDER_TARGET_REFRESH_FRAMES }
    }
}

impl ReflectionDirty {
    /// Asks for at least `frames` more redraws; a longer pending refresh is
    /// kept.
    pub fn request_frames(&mut self, frames: u8)
        ensures
            final(self).frames_remaining == if frames > old(self).frames_remaining {
                frames
            } else {
                old(self).frames_remaining
            },
    {
        if frames > self.frames_remaining {
            self.frames_remaining = frames;
        }
    }

    /// Whether this frame is to be redrawn; counts it off.
    pub fn consume_frame(&mut self) -> (r: bool)
        ensures
            r == (old(self).frames_remaining > 0),
            final(self).frames_remaining == if old(self).frames_remaining > 0 {
                (old(self).frames_remaining - 1) as u8
            } else {
                0
            },
    {
        let needs_render = self.frames_remaining > 0;
        if needs_render {
            self.frames_remaining = self.frames_remaining - 1;
        }
        needs_render
    }
}

/// The square under the pointer, and whether the press under way has turned
/// into a camera drag.
pub struct BoardPointerState {
    pub hovered_square: Option<Square>,
    pub primary_dragged: bool,
}

impl Default for BoardPointerState {
    fn default() -> (r: Self)
        ensures
            r.hovered_square is None,
            !r.primary_dragged,
    {
        BoardPointerState { hovered_square: None, primary_dragged: false }
    }
}

impl BoardPointerState {
    /// The pointer entered `square`.
    pub fn enter(&mut self, square: Square)
        ensures
            final(self).hovered_square == Some(square),
            final(self).primary_dragged == old(self).primary_dragged,
    {
        self.hovered_square = Some(square);
    }

    /// The pointer left `square`: the hover clears only if it is still on
    /// that square.
    pub fn leave(&mut self, square: Square)
        ensures
            final(self).hovered_square == if old(self).hovered_square == Some(square) {
                None
            } else {
                old(self).hovered_square
            },
            final(self).primary_dragged == old(self).primary_dragged,
    {
        match self.hovered_square {
            Some(hovered) => {
                if hovered == square {
                    self.hovered_square = None;
                }
            },
            None => {},
        }
    }

    /// A new primary press starts undragged.
    pub fn begin_primary_press(&mut self)
        ensures
            final(self).hovered_square == old(self).hovered_square,
            !final(self).primary_dragged,
    {
        self.primary_dragged = false;
    }
}

/// Whether the result panel is open, and the outcome it last saw.
pub struct HudState {
    pub expanded: bool,
    pub last_outcome: GameOutcome,
}

impl Default for HudState {
    fn default() -> (r: Self)
        ensures
            !r.expanded,
            r.last_outcome == GameOutcome::Ongoing,
    {
        HudState { expanded: false, last_outcome: GameOutcome::Ongoing }
    }
}

/// Whether moves can still be made after `o`.
pub open spec fn playable(o: GameOutcome) -> bool {
    o is Ongoing || o is Check
}

impl HudState {
    /// Notes the current outcome; the panel opens when the game has just
    /// ended, once.
    pub fn observe_outcome(&mut self, outcome: GameOutcome)
        ensures
            final(self).last_outcome == outcome,
            final(self).expanded == (old(self).expanded || (old(self).last_outcome != outcome && playable(
                old(self).last_outcome,
            ) && !playable(outcome))),
    {
        if outcome == self.last_outcome {
            return;
        }
        let just_ended = crate::client::is_playable(self.last_outcome) && !crate::client::is_playable(outcome);
        self.last_outcome = outcome;
        if just_ended && !self.expanded {
            self.expanded = true;
        }
    }

    /// The panel button was pressed.
    pub fn toggle(&mut self)
        ensures
            final(self).expanded == !old(self).expanded,
            final(self).last_outcome == old(self).last_outcome,
    {
        self.expanded = !self.expanded;
    }

    /// A room was made ready; a newly created one opens the panel, so that
    /// its id can be shared.
    pub fn room_ready(&mut self, created: bool)
        ensures
            final(self).expanded == (old(self).expanded || created),
            final(self).last_outcome == old(self).last_outcome,
    {
        if created {
            self.expanded = true;
        }
    }
}

/// What the camera does when the board has changed.
#[derive(Clone, Copy, Debug, PartialEq, Eq, Structural)]
pub enum GenerationCameraAction {
    /// Wait for the pieces to stop moving.
    Wait,
    /// Note the change and stay.
    Observe,
    /// Turn to the given side.
    Orient(Color),
}

/// The camera's reaction to a new board: none while the menu is open; wait
/// for the animation; in a local game, turn to the side to move after a
/// move; otherwise stay where the player put it.
pub fn generation_camera_action(
    menu_open: bool,
    mode: GameMode,
    has_last_move: bool,
    animation_settled: bool,
    side_to_move: Color,
) -> (r: GenerationCameraAction)
    ensures
        r == if menu_open {
            GenerationCameraAction::Observe
        } else if !animation_settled {
            GenerationCameraAction::Wait
        } else if mode == GameMode::Local && has_last_move {
            GenerationCameraAction::Orient(side_to_move)
        } else {
            GenerationCameraAction::Observe
        },
{
    if menu_open {
        return GenerationCameraAction::Observe;
    }
    if !animation_settled {
        return GenerationCameraAction::Wait;
    }
    if mode == GameMode::Local && has_last_move {
        GenerationCameraAction::Orient(side_to_move)
    } else {
        GenerationCameraAction::Observe
    }
}

/// The side the camera recenters on: the side to move in a local game, the
/// player's side otherwise.
pub fn manual_recenter_side(active_mode: GameMode, player_side: Color, side_to_move: Color) -> (r: Color)
    ensures
        r == if active_mode == GameMode::Local {
            side_to_move
        } else {
            player_side
        },
{
    match active_mode {
        GameMode::Local => side_to_move,
        GameMode::Ai | GameMode::Multiplayer => player_side,
    }
}

/// Which board generation already had its move sound, the last clip played,
/// and the result sound waiting to follow it.
pub struct MoveSoundState {
    pub played_move_generation: Option<u64>,
    pub previous_clip: Option<usize>,
    /// The generation it belongs to, and the sound.
    pub pending_result: Option<(u64, ResultSound)>,
}

impl Default for MoveSoundState {
    fn default() -> (r: Self)
        ensures
            r.played_move_generation is None,
            r.previous_clip is None,
            r.pending_result is None,
    {
        MoveSoundState { played_move_generation: None, previous_clip: None, pending_result: None }
    }
}

impl MoveSoundState {
    /// Once per board generation, when the moving piece has landed, picks
    /// the move sound to play (one of `clip_count`, not the previous one)
    /// and queues the result sound of a finished game.
    pub fn move_sound(&mut self, chess_match: &ChessMatch, animation: &PieceAnimationState, clip_count: usize) -> (r:
        Option<usize>)
        requires
            chess_match.wf(),
            clip_count > 1 ==> (old(self).previous_clip matches Some(p) ==> p + clip_count - 1 <= usize::MAX),
        ensures
            ({
                let ready = old(self).played_move_generation != Some(chess_match.generation)
                    && chess_match.last_move is Some && clip_count > 0 && animation.landed_generation == Some(
                    chess_match.generation,
                );
                let outcome = outcome_spec(chess_match.game.position_spec(), chess_match.game.history());
                if ready {
                    &&& r matches Some(clip) && clip < clip_count && final(self).previous_clip == Some(clip)
                    &&& clip_count > 1 ==> (old(self).previous_clip matches Some(p) ==> r != Some(p))
                    &&& final(self).played_move_generation == Some(chess_match.generation)
                    &&& final(self).pending_result == match result_sound_spec(outcome, chess_match.controllers) {
                        Some(sound) => Some((chess_match.generation, sound)),
                        None => old(self).pending_result,
                    }
                } else {
                    r is None && final(self).played_move_generation == old(self).played_move_generation
                        && final(self).previous_clip == old(self).previous_clip && final(self).pending_result
                        == old(self).pending_result
                }
            }),
    {
        match self.played_move_generation {
            Some(played) => {
                if played == chess_match.generation {
                    return None;
                }
            },
            None => {},
        }
        if chess_match.last_move.is_none() || clip_count == 0 || !animation.has_move_landed(chess_match.generation) {
            return None;
        }
        self.played_move_generation = Some(chess_match.generation);
        let clip = random_clip_index(clip_count, self.previous_clip);
        self.previous_clip = Some(clip);
        match result_sound(chess_match.game.outcome(), chess_match.controllers) {
            Some(sound) => {
                self.pending_result = Some((chess_match.generation, sound));
            },
            None => {},
        }
        Some(clip)
    }

    /// Drops a waiting result sound that belongs to another board
    /// generation; returns whether one is still waiting.
    pub fn keep_current_result(&mut self, generation: u64) -> (waiting: bool)
        ensures
            final(self).played_move_generation == old(self).played_move_generation,
            final(self).previous_clip == old(self).previous_clip,
            final(self).pending_result == match old(self).pending_result {
                Some((g, sound)) => if g == generation {
                    Some((g, sound))
                } else {
                    None
                },
                None => None,
            },
            waiting == final(self).pending_result is Some,
    {
        match self.pending_result {
            Some((g, _)) => {
                if g != generation {
                    self.pending_result = None;
                    false
                } else {
                    true
                }
            },
            None => false,
        }
    }

    /// The waiting result sound is due: hands it out.
    pub fn take_result(&mut self) -> (r: Option<ResultSound>)
        ensures
            r == match old(self).pending_result {
                Some((_, sound)) => Some(sound),
                None => None,
            },
            final(self).pending_result is None,
            final(self).played_move_generation == old(self).played_move_generation,
            final(self).previous_clip == old(self).previous_clip,
    {
        let sound = match self.pending_result {
            Some((_, sound)) => Some(sound),
            None => None,
        };
        self.pending_result = None;
        sound
    }
}

/// Border widths, in pixels, of one corner of the fullscreen icon.
#[derive(Clone, Copy, Debug, PartialEq, Eq, Structural)]
pub struct CornerBorder {
    pub left: u8,
    pub right: u8,
    pub top: u8,
    pub bottom: u8,
}

/// The borders of the icon corner at `top`/`left`: they point outward in a
/// window and turn inward in fullscreen.
pub fn fullscreen_corner_border(top: bool, left: bool, fullscreen: bool) -> (r: CornerBorder)
    ensures
        r.left == (if left != fullscreen { 2u8 } else { 0u8 }),
        r.right == (if left != fullscreen { 0u8 } else { 2u8 }),
        r.top == (if top != fullscreen { 2u8 } else { 0u8 }),
        r.bottom == (if top != fullscreen { 0u8 } else { 2u8 }),
{
    let vertical_edge_on_left = left != fullscreen;
    let horizontal_edge_on_top = top != fullscreen;
    CornerBorder {
        left: if vertical_edge_on_left { 2 } else { 0 },
        right: if vertical_edge_on_left { 0 } else { 2 },
        top: if horizontal_edge_on_top { 2 } else { 0 },
        bottom: if horizontal_edge_on_top { 0 } else { 2 },
    }
}

/// How the window is shown.
#[derive(Clone, Copy, Debug, PartialEq, Eq, Structural)]
pub enum ScreenMode {
    Windowed,
    /// Borderless fullscreen on the current monitor.
    BorderlessFullscreen,
    /// Exclusive fullscreen.
    Fullscreen,
}

/// What the fullscreen button switches to: a window becomes borderless
/// fullscreen, and any fullscreen becomes a window.
pub fn toggled_window_mode(current: ScreenMode) -> (r: ScreenMode)
    ensures
        r == if current == ScreenMode::Windowed {
            ScreenMode::BorderlessFullscreen
        } else {
            ScreenMode::Windowed
        },
{
    match current {
        ScreenMode::Windowed => ScreenMode::BorderlessFullscreen,
        _ => ScreenMode::Windowed,
    }
}

} // verus!
