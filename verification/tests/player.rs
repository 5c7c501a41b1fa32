use pokemon::{GameError, Player, Pokemon, MAX_POKEMONS_IN_PARTY};

#[test]
fn a_new_player_owns_nothing() {
    let player = Player::new("John");
    assert_eq!(player.trainer_card.name, "John");
    assert!(player.trainer_card.badges.is_empty());
    assert_eq!(player.trainer_card.battles, 0);
    assert_eq!(player.trainer_card.pokemon_encountered, 0);
    assert!(player.backpack.data.is_empty());
    assert_eq!(player.pokedex, "");
    assert!(player.party.is_empty());
}

#[test]
fn a_party_holds_six() {
    assert_eq!(MAX_POKEMONS_IN_PARTY, 6);
}

#[test]
fn members_join_in_order() {
    let mut player = Player::new("John");
    assert_eq!(player.add_party_member(Pokemon::new("John").unwrap()), Ok(()));
    assert_eq!(player.add_party_member(Pokemon::new("John2").unwrap()), Ok(()));
    assert_eq!(player.party.len(), 2);
    assert_eq!(player.party[0].name, "John");
    assert_eq!(player.party[1].name, "John2");
}

#[test]
fn a_seventh_member_is_rejected() {
    let mut player = Player::new("Mew");
    let names = ["Smith", "Smith2", "Smith3", "Smith4", "Smith5", "Smith6"];
    for name in names {
        assert_eq!(player.add_party_member(Pokemon::new(name).unwrap()), Ok(()));
    }
    assert_eq!(player.party.len(), 6);
    assert_eq!(
        player.add_party_member(Pokemon::new("Smith7").unwrap()),
        Err(GameError::PartyFull)
    );
    assert_eq!(player.party.len(), 6);
    for (member, name) in player.party.iter().zip(names) {
        assert_eq!(member.name, name);
    }
    assert_eq!(
        player.add_party_member(Pokemon::new("Smith8").unwrap()),
        Err(GameError::PartyFull)
    );
    assert_eq!(player.party.len(), 6);
}

#[test]
fn members_are_found_by_their_exact_name() {
    let mut player = Player::new("John");
    player.add_party_member(Pokemon::new("John").unwrap()).unwrap();
    player.add_party_member(Pokemon::new("John2").unwrap()).unwrap();
    assert!(Player::look_for_pokemon_in_party(&player.party, "John"));
    assert!(Player::look_for_pokemon_in_party(&player.party, "John2"));
    assert!(!Player::look_for_pokemon_in_party(&player.party, "john"));
    assert!(!Player::look_for_pokemon_in_party(&player.party, "John3"));
    assert!(!Player::look_for_pokemon_in_party(&player.party, ""));
}

#[test]
fn nobody_is_found_in_an_empty_party() {
    let player = Player::new("John");
    assert!(!Player::look_for_pokemon_in_party(&player.party, "John"));
}
