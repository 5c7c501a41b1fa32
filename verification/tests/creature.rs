use pokemon::creature::{attack_type_is_valid, check_moves, explicit_moves, valid_type_names};
use pokemon::{GameError, Move, PokeStats, Pokemon, PokemonStatus};

fn tackle(attack_type: &str) -> Move<'_> {
    Move { name: "Tackle", attack_type, damage: 20, current_use: 50, max_use: 50 }
}

#[test]
fn new_creatures_start_with_the_same_statistics() {
    let stats = PokeStats::default();
    assert_eq!(stats.level, 1);
    assert_eq!(stats.attack, 10);
    assert_eq!(stats.defense, 20);
    assert_eq!(stats.special_attack, 12);
    assert_eq!(stats.special_defense, 20);
    assert_eq!(stats.speed, 4);
    assert_eq!(stats.evade, 5);
    assert_eq!(stats.health, 100);
    assert_eq!(stats.max_health, 100);
    assert_eq!(stats.status, PokemonStatus::Healthy);
}

#[test]
fn the_fixed_moves_are_four() {
    let moves = explicit_moves().unwrap();
    assert_eq!(
        moves,
        vec![
            Move { name: "Ember", attack_type: "Fire", damage: 10, current_use: 20, max_use: 20 },
            Move {
                name: "Water Gun",
                attack_type: "Water",
                damage: 30,
                current_use: 20,
                max_use: 20
            },
            Move {
                name: "Tackle",
                attack_type: "Normal",
                damage: 20,
                current_use: 50,
                max_use: 50
            },
            Move {
                name: "Burba Blast",
                attack_type: "Psyche",
                damage: 120,
                current_use: 1,
                max_use: 1
            },
        ]
    );
}

#[test]
fn a_new_creature_has_its_first_and_third_slot_filled() {
    let john = Pokemon::new("John").unwrap();
    assert_eq!(john.name, "John");
    assert_eq!(john.stats, PokeStats::default());
    assert_eq!(
        john.moves.slot1,
        Some(Move { name: "Ember", attack_type: "Fire", damage: 10, current_use: 20, max_use: 20 })
    );
    assert_eq!(john.moves.slot2, None);
    assert_eq!(
        john.moves.slot3,
        Some(Move {
            name: "Burba Blast",
            attack_type: "Psyche",
            damage: 120,
            current_use: 1,
            max_use: 1
        })
    );
    assert_eq!(john.moves.slot4, None);
}

#[test]
fn the_valid_types_are_five() {
    assert_eq!(valid_type_names(), vec!["fire", "water", "psyche", "normal", "darkness"]);
}

#[test]
fn valid_types_are_accepted_in_any_case() {
    assert!(attack_type_is_valid("fire"));
    assert!(attack_type_is_valid("Fire"));
    assert!(attack_type_is_valid("FIRE"));
    assert!(attack_type_is_valid("wAtEr"));
    assert!(attack_type_is_valid("Psyche"));
    assert!(attack_type_is_valid("NORMAL"));
    assert!(attack_type_is_valid("Darkness"));
}

#[test]
fn case_is_folded_as_unicode_folds_it() {
    assert!(attack_type_is_valid("DAR\u{212A}NESS"));
}

#[test]
fn other_types_are_refused() {
    assert!(!attack_type_is_valid("grass"));
    assert!(!attack_type_is_valid(""));
    assert!(!attack_type_is_valid("fire "));
    assert!(!attack_type_is_valid("fir"));
    assert!(!attack_type_is_valid("firewater"));
}

#[test]
fn a_list_of_valid_moves_passes() {
    assert_eq!(check_moves(&vec![]), Ok(()));
    assert_eq!(check_moves(&vec![tackle("Normal"), tackle("DARKNESS")]), Ok(()));
}

#[test]
fn one_invalid_type_fails_the_list() {
    assert_eq!(
        check_moves(&vec![tackle("Normal"), tackle("Grass"), tackle("Fire")]),
        Err(GameError::InvalidAttackType)
    );
}
