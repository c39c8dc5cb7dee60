//! What the game menu's buttons do: the choices they record, the game they
//! start, and the work they hand to the engine, the multiplayer connection
//! and the camera.
use vstd::prelude::*;
use crate::chess_match::{restarted, ChessMatch};
use crate::client::{
    controllers_for, resolve_side_spec, starting_camera_side, Controller, GameMenuState, GameMode, SideChoice,
};
use crate::multiplayer::{join_id, normalize_join_id, MultiplayerPhase};
use crate::types::Color;
use crate::variant::Variant;

verus! {

/// A menu button.
#[derive(Clone, Copy, Debug, PartialEq, Eq, Structural)]
pub enum MenuAction {
    Mode(GameMode),
    Variant(Variant),
    Side(SideChoice),
    Start,
}

/// Whether a button shows as chosen.
pub fn action_selected(action: MenuAction, menu: &GameMenuState) -> (r: bool)
    ensures
        r == match action {
            MenuAction::Mode(mode) => menu.selected_mode == mode,
            MenuAction::Variant(variant) => menu.selected_variant == variant,
            MenuAction::Side(side) => menu.selected_side == side,
            MenuAction::Start => false,
        },
{
    match action {
        MenuAction::Mode(mode) => menu.selected_mode == mode,
        MenuAction::Variant(variant) => menu.selected_variant == variant,
        MenuAction::Side(side) => menu.selected_side == side,
        MenuAction::Start => false,
    }
}

/// The label of the start button.
pub fn start_button_label(menu: &GameMenuState) -> (r: &'static str)
    ensures
        r@ == if menu.selected_mode != GameMode::Multiplayer {
            "START GAME"@
        } else if crate::text::trim(menu.multiplayer_game_id@).len() == 0 {
            "CREATE GAME"@
        } else {
            "JOIN GAME"@
        },
{
    if menu.selected_mode != GameMode::Multiplayer {
        return "START GAME";
    }
    let chars = crate::text::chars_of(menu.multiplayer_game_id.as_str());
    let cut = crate::text::trimmed(&chars);
    if cut.len() == 0 {
        "CREATE GAME"
    } else {
        "JOIN GAME"
    }
}

/// What the multiplayer connection is asked to do.
#[derive(Clone, Debug, PartialEq, Eq)]
pub enum MultiplayerCommand {
    Create { variant: Variant, side: SideChoice },
    Join { game_id: String },
    Disconnect,
}

/// Work a menu button hands on, in order.
#[derive(Clone, Debug, PartialEq, Eq)]
pub enum MenuEffect {
    /// Start the engine if it is not running.
    WarmUpEngine,
    /// Stop the engine's search.
    CancelEngineSearch,
    /// Stop the search, mark a new game, and start the engine.
    StartNewEngineGame,
    /// Let the engine go.
    ShutDownEngine,
    Multiplayer(MultiplayerCommand),
    /// Turn the camera behind a side.
    TurnCamera(Color),
}

/// The menu fields that are not the ones named.
pub open spec fn menu_same_except_choices(a: GameMenuState, b: GameMenuState) -> bool {
    &&& b.open == a.open
    &&& b.active_mode == a.active_mode
    &&& b.active_side == a.active_side
    &&& b.multiplayer_game_id == a.multiplayer_game_id
}

/// Handles a pressed menu button. `entropy` decides a random side.
pub fn apply_menu_action(
    menu: &mut GameMenuState,
    chess_match: &mut ChessMatch,
    phase: MultiplayerPhase,
    action: MenuAction,
    entropy: u128,
) -> (effects: Vec<MenuEffect>)
    requires
        old(chess_match).wf(),
    ensures
        final(chess_match).wf(),
        match action {
            MenuAction::Mode(mode) => {
                &&& final(menu).selected_mode == mode
                &&& final(menu).selected_variant == old(menu).selected_variant
                &&& final(menu).selected_side == old(menu).selected_side
                &&& menu_same_except_choices(*old(menu), *final(menu))
                &&& *final(chess_match) == *old(chess_match)
                &&& effects@ == if mode == GameMode::Ai {
                    seq![MenuEffect::WarmUpEngine]
                } else {
                    Seq::empty()
                }
            },
            MenuAction::Variant(variant) => {
                &&& final(menu).selected_variant == variant
                &&& final(menu).selected_mode == old(menu).selected_mode
                &&& final(menu).selected_side == old(menu).selected_side
                &&& menu_same_except_choices(*old(menu), *final(menu))
                &&& if old(chess_match).variant != variant {
                    &&& restarted(*old(chess_match), *final(chess_match), variant)
                    &&& final(chess_match).controllers == [Controller::Human, Controller::Human]
                    &&& effects@ == seq![MenuEffect::CancelEngineSearch]
                } else {
                    *final(chess_match) == *old(chess_match) && effects@.len() == 0
                }
            },
            MenuAction::Side(side) => {
                &&& final(menu).selected_side == side
                &&& final(menu).selected_mode == old(menu).selected_mode
                &&& final(menu).selected_variant == old(menu).selected_variant
                &&& menu_same_except_choices(*old(menu), *final(menu))
                &&& *final(chess_match) == *old(chess_match)
                &&& effects@.len() == 0
            },
            MenuAction::Start => if old(menu).selected_mode == GameMode::Multiplayer {
                &&& *final(menu) == *old(menu)
                &&& *final(chess_match) == *old(chess_match)
                &&& if phase == MultiplayerPhase::Connecting || phase == MultiplayerPhase::Reconnecting {
                    effects@.len() == 0
                } else {
                    let id = join_id(old(menu).multiplayer_game_id@);
                    &&& effects@.len() == 1
                    &&& if id.len() == 0 {
                        effects@[0] == MenuEffect::Multiplayer(
                            MultiplayerCommand::Create {
                                variant: old(menu).selected_variant,
                                side: old(menu).selected_side,
                            },
                        )
                    } else {
                        effects@[0] matches MenuEffect::Multiplayer(MultiplayerCommand::Join { game_id }) && game_id@
                            == id
                    }
                }
            } else {
                let mode = old(menu).selected_mode;
                let side = if mode == GameMode::Local {
                    Color::White
                } else {
                    resolve_side_spec(old(menu).selected_side, entropy)
                };
                &&& restarted(*old(chess_match), *final(chess_match), old(menu).selected_variant)
                &&& final(chess_match).controllers == if mode == GameMode::Local {
                    [Controller::Human, Controller::Human]
                } else if side == Color::White {
                    [Controller::Human, Controller::Computer]
                } else {
                    [Controller::Computer, Controller::Human]
                }
                &&& final(menu).active_mode == mode
                &&& final(menu).active_side == side
                &&& !final(menu).open
                &&& final(menu).selected_mode == old(menu).selected_mode
                &&& final(menu).selected_variant == old(menu).selected_variant
                &&& final(menu).selected_side == old(menu).selected_side
                &&& final(menu).multiplayer_game_id == old(menu).multiplayer_game_id
                &&& effects@ == seq![
                    if mode == GameMode::Ai {
                        MenuEffect::StartNewEngineGame
                    } else {
                        MenuEffect::ShutDownEngine
                    },
                    MenuEffect::Multiplayer(MultiplayerCommand::Disconnect),
                    MenuEffect::TurnCamera(side),
                ]
            },
        },
{
    let mut effects: Vec<MenuEffect> = Vec::new();
    match action {
        MenuAction::Mode(mode) => {
            menu.selected_mode = mode;
            if mode == GameMode::Ai {
                effects.push(MenuEffect::WarmUpEngine);
            }
        },
        MenuAction::Variant(variant) => {
            menu.selected_variant = variant;
            if chess_match.variant != variant {
                chess_match.restart(variant);
                chess_match.controllers = [Controller::Human, Controller::Human];
                effects.push(MenuEffect::CancelEngineSearch);
            }
        },
        MenuAction::Side(side) => {
            menu.selected_side = side;
        },
        MenuAction::Start => {
            let mode = menu.selected_mode;
            if mode == GameMode::Multiplayer {
                if phase == MultiplayerPhase::Connecting || phase == MultiplayerPhase::Reconnecting {
                    return effects;
                }
                let game_id = normalize_join_id(menu.multiplayer_game_id.as_str());
                if game_id.as_str().unicode_len() == 0 {
                    effects.push(
                        MenuEffect::Multiplayer(
                            MultiplayerCommand::Create { variant: menu.selected_variant, side: menu.selected_side },
                        ),
                    );
                } else {
                    effects.push(MenuEffect::Multiplayer(MultiplayerCommand::Join { game_id }));
                }
                return effects;
            }
            let side = starting_camera_side(mode, menu.selected_side, entropy);
            let variant = menu.selected_variant;
            chess_match.restart(variant);
            chess_match.controllers = controllers_for(mode, side);
            if mode == GameMode::Ai {
                effects.push(MenuEffect::StartNewEngineGame);
            } else {
                effects.push(MenuEffect::ShutDownEngine);
            }
            effects.push(MenuEffect::Multiplayer(MultiplayerCommand::Disconnect));
            menu.active_mode = mode;
            menu.active_side = side;
            menu.open = false;
            effects.push(MenuEffect::TurnCamera(side));
        },
    }
    effects
}

} // verus!
