//! A small turn-based creature-battling engine: an item catalog, an inventory
//! whose items apply parsed effects to a party member, and a battle resolver.

pub mod apply;
pub mod backpack;
pub mod battle;
pub mod catalog;
pub mod creature;
pub mod effect;
pub mod error;
pub mod number;
pub mod player;
pub mod text;

pub use crate::apply::{apply_effect, apply_effect_list, apply_effects, EffectOutcome};
pub use crate::backpack::{actions, Backpack};
pub use crate::battle::{
    active_member, alive_pokemons, battle_match, battle_round, calculate_damage, is_battle_ready,
    run_battle, BattleEvent, BattleReport, MatchOutcome, Side,
};
pub use crate::catalog::{explicit_items, Item};
pub use crate::creature::{Move, PokeMoves, PokeStats, Pokemon, PokemonStatus};
pub use crate::effect::{parse_effects, tuple_name_value_format, EffectPair};
pub use crate::error::GameError;
pub use crate::number::{ascii_to_number, slice_to_number};
pub use crate::player::{Player, PlayerCard, MAX_POKEMONS_IN_PARTY};
pub use crate::text::{str_eq, to_chars};
