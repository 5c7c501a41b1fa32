use pokemon::{
    actions, Backpack, EffectOutcome, EffectPair, GameError, Item, PokeMoves, PokeStats, Pokemon,
    PokemonStatus,
};

fn member(name: &str, health: isize, status: PokemonStatus) -> Pokemon<'static> {
    Pokemon {
        name: name.to_string(),
        moves: PokeMoves { slot1: None, slot2: None, slot3: None, slot4: None },
        stats: PokeStats { health, status, ..PokeStats::default() },
    }
}

fn pair(name: &str, value: &str) -> EffectPair {
    EffectPair { name: name.to_string(), value: value.to_string() }
}

#[test]
fn a_new_backpack_is_empty() {
    let backpack = Backpack::new();
    assert!(backpack.data.is_empty());
    assert!(!backpack.look_up("Potion"));
    assert_eq!(backpack.show_items(), Vec::<String>::new());
}

#[test]
fn the_first_item_of_a_name_opens_a_stack_of_one() {
    let mut backpack = Backpack::new();
    assert_eq!(backpack.acquire_item("Potion"), Ok(()));
    assert_eq!(backpack.data, vec![Item { name: "Potion", ability: "Heal: 20", quantity: 1 }]);
    assert!(backpack.look_up("Potion"));
    assert!(!backpack.look_up("Super Potion"));
}

#[test]
fn ten_items_of_a_name_are_one_stack_of_ten() {
    let mut backpack = Backpack::new();
    for _ in 0..10 {
        assert_eq!(backpack.acquire_item("Full Recover"), Ok(()));
    }
    assert_eq!(
        backpack.data,
        vec![Item { name: "Full Recover", ability: "Heal: 999, Status: None", quantity: 10 }]
    );
}

#[test]
fn stacks_keep_the_order_of_their_first_item() {
    let mut backpack = Backpack::new();
    for name in ["Super Potion", "Potion", "Super Potion", "Hyper Potion", "Potion", "Potion"] {
        assert_eq!(backpack.acquire_item(name), Ok(()));
    }
    assert_eq!(
        backpack.data,
        vec![
            Item { name: "Super Potion", ability: "Heal: 60", quantity: 2 },
            Item { name: "Potion", ability: "Heal: 20", quantity: 3 },
            Item { name: "Hyper Potion", ability: "Heal: 120", quantity: 1 },
        ]
    );
}

#[test]
fn an_unknown_item_is_not_acquired() {
    let mut backpack = Backpack::new();
    backpack.acquire_item("Potion").unwrap();
    assert_eq!(backpack.acquire_item("Master Ball"), Err(GameError::UnknownItem));
    assert_eq!(backpack.data, vec![Item { name: "Potion", ability: "Heal: 20", quantity: 1 }]);
}

#[test]
fn the_listing_has_one_line_for_each_stack() {
    let mut backpack = Backpack::new();
    backpack.acquire_item("Potion").unwrap();
    backpack.acquire_item("Full Recover").unwrap();
    backpack.acquire_item("Potion").unwrap();
    assert_eq!(
        backpack.show_items(),
        vec!["Potion: Heal: 20".to_string(), "Full Recover: Heal: 999, Status: None".to_string()]
    );
}

#[test]
fn the_walk_stops_where_the_call_says_so() {
    let mut backpack = Backpack::new();
    for name in ["Potion", "Super Potion", "Hyper Potion"] {
        backpack.acquire_item(name).unwrap();
    }
    assert_eq!(backpack.walk_through_items(|_, item| item.name == "Super Potion"), Some(1));
    assert_eq!(backpack.walk_through_items(|idx, _| idx == 2), Some(2));
    assert_eq!(backpack.walk_through_items(|_, _| true), Some(0));
    assert_eq!(backpack.walk_through_items(|_, _| false), None);
}

#[test]
fn the_walk_visits_the_stacks_in_order_up_to_the_stop() {
    let mut backpack = Backpack::new();
    for name in ["Potion", "Super Potion", "Hyper Potion", "Full Recover"] {
        backpack.acquire_item(name).unwrap();
    }
    let seen = std::cell::RefCell::new(Vec::new());
    let stop = backpack.walk_through_items(|idx, item| {
        seen.borrow_mut().push((idx, item.name));
        item.name == "Hyper Potion"
    });
    assert_eq!(stop, Some(2));
    assert_eq!(seen.into_inner(), vec![(0, "Potion"), (1, "Super Potion"), (2, "Hyper Potion")]);
}

#[test]
fn a_stack_is_found_at_its_place() {
    let mut backpack = Backpack::new();
    for name in ["Potion", "Super Potion"] {
        backpack.acquire_item(name).unwrap();
    }
    assert_eq!(backpack.find("Potion"), Some(0));
    assert_eq!(backpack.find("Super Potion"), Some(1));
    assert_eq!(backpack.find("Hyper Potion"), None);
}

#[test]
fn an_item_has_the_effects_of_its_catalog_text() {
    assert_eq!(actions(&Item::new("Potion").unwrap()), Ok(vec![pair("Heal", "20")]));
    assert_eq!(actions(&Item::new("Super Potion").unwrap()), Ok(vec![pair("Heal", "60")]));
    assert_eq!(actions(&Item::new("Hyper Potion").unwrap()), Ok(vec![pair("Heal", "120")]));
    assert_eq!(
        actions(&Item::new("Full Recover").unwrap()),
        Ok(vec![pair("Heal", "999"), pair("Status", "None")])
    );
}

#[test]
fn an_item_outside_the_catalog_has_no_effects() {
    let forged = Item { name: "Elixir", ability: "Heal: 1", quantity: 1 };
    assert_eq!(actions(&forged), Err(GameError::UnknownItem));
}

#[test]
fn using_an_item_takes_one_from_its_stack() {
    let mut backpack = Backpack::new();
    for _ in 0..3 {
        backpack.acquire_item("Potion").unwrap();
    }
    let mut party = vec![member("John", 50, PokemonStatus::Healthy)];
    assert_eq!(backpack.use_item("Potion", &mut party, "John"), Ok(vec![EffectOutcome::Healed]));
    assert_eq!(party[0].stats.health, 70);
    assert_eq!(backpack.data, vec![Item { name: "Potion", ability: "Heal: 20", quantity: 2 }]);
    assert_eq!(backpack.use_item("Potion", &mut party, "John"), Ok(vec![EffectOutcome::Healed]));
    assert_eq!(party[0].stats.health, 90);
    assert_eq!(backpack.data, vec![Item { name: "Potion", ability: "Heal: 20", quantity: 1 }]);
}

#[test]
fn using_the_last_item_removes_the_stack() {
    let mut backpack = Backpack::new();
    backpack.acquire_item("Super Potion").unwrap();
    backpack.acquire_item("Potion").unwrap();
    backpack.acquire_item("Hyper Potion").unwrap();
    let mut party = vec![member("John", 95, PokemonStatus::Healthy)];
    assert_eq!(backpack.use_item("Potion", &mut party, "John"), Ok(vec![EffectOutcome::Healed]));
    assert_eq!(party[0].stats.health, 100);
    assert_eq!(
        backpack.data,
        vec![
            Item { name: "Super Potion", ability: "Heal: 60", quantity: 1 },
            Item { name: "Hyper Potion", ability: "Heal: 120", quantity: 1 },
        ]
    );
    assert!(!backpack.look_up("Potion"));
    assert!(backpack.data.iter().all(|item| item.quantity >= 1));
}

#[test]
fn an_item_without_effect_is_used_up_all_the_same() {
    let mut backpack = Backpack::new();
    backpack.acquire_item("Potion").unwrap();
    let mut party = vec![member("John", 100, PokemonStatus::Healthy)];
    assert_eq!(backpack.use_item("Potion", &mut party, "John"), Ok(vec![EffectOutcome::NoEffect]));
    assert_eq!(party[0].stats.health, 100);
    assert!(backpack.data.is_empty());
}

#[test]
fn a_full_recover_heals_and_cures() {
    let mut backpack = Backpack::new();
    backpack.acquire_item("Full Recover").unwrap();
    let mut party = vec![
        member("John", 3, PokemonStatus::Confused),
        member("Paul", 3, PokemonStatus::Confused),
    ];
    assert_eq!(
        backpack.use_item("Full Recover", &mut party, "John"),
        Ok(vec![EffectOutcome::Healed, EffectOutcome::Cured])
    );
    assert_eq!(party[0], member("John", 100, PokemonStatus::Healthy));
    assert_eq!(party[1], member("Paul", 3, PokemonStatus::Confused));
    assert!(backpack.data.is_empty());
}

#[test]
fn an_item_that_is_not_owned_cannot_be_used() {
    let mut backpack = Backpack::new();
    backpack.acquire_item("Potion").unwrap();
    let mut party = vec![member("John", 50, PokemonStatus::Healthy)];
    assert_eq!(
        backpack.use_item("Super Potion", &mut party, "John"),
        Err(GameError::NotOwned)
    );
    assert_eq!(backpack.use_item("Elixir", &mut party, "John"), Err(GameError::NotOwned));
    assert_eq!(party[0].stats.health, 50);
    assert_eq!(backpack.data, vec![Item { name: "Potion", ability: "Heal: 20", quantity: 1 }]);
}

#[test]
fn an_item_is_kept_when_the_target_is_not_in_the_party() {
    let mut backpack = Backpack::new();
    backpack.acquire_item("Potion").unwrap();
    let mut party = vec![member("Paul", 50, PokemonStatus::Healthy)];
    assert_eq!(
        backpack.use_item("Potion", &mut party, "John"),
        Err(GameError::TargetNotInParty)
    );
    assert_eq!(party[0].stats.health, 50);
    assert_eq!(backpack.data, vec![Item { name: "Potion", ability: "Heal: 20", quantity: 1 }]);
}

#[test]
fn not_owning_counts_before_the_missing_target() {
    let mut backpack = Backpack::new();
    let mut party: Vec<Pokemon<'static>> = vec![];
    assert_eq!(backpack.use_item("Potion", &mut party, "John"), Err(GameError::NotOwned));
}

#[test]
fn a_forged_stack_is_refused_and_kept() {
    let mut backpack = Backpack { data: vec![Item { name: "Elixir", ability: "Heal: 1", quantity: 2 }] };
    let mut party = vec![member("John", 50, PokemonStatus::Healthy)];
    assert_eq!(backpack.use_item("Elixir", &mut party, "John"), Err(GameError::UnknownItem));
    assert_eq!(party[0].stats.health, 50);
    assert_eq!(backpack.data.len(), 1);
    assert_eq!(backpack.data[0].quantity, 2);
}

#[test]
fn acquiring_and_using_up_leaves_nothing_behind() {
    let mut backpack = Backpack::new();
    let mut party = vec![member("John", 1, PokemonStatus::Healthy)];
    for _ in 0..4 {
        backpack.acquire_item("Potion").unwrap();
    }
    for left in [3, 2, 1] {
        backpack.use_item("Potion", &mut party, "John").unwrap();
        assert_eq!(backpack.data.len(), 1);
        assert_eq!(backpack.data[0].quantity, left);
    }
    backpack.use_item("Potion", &mut party, "John").unwrap();
    assert!(backpack.data.is_empty());
    assert_eq!(backpack.use_item("Potion", &mut party, "John"), Err(GameError::NotOwned));
    assert_eq!(party[0].stats.health, 81);
}
