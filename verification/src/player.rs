//! The player: a trainer card, an inventory and a party of creatures.

use vstd::prelude::*;
use crate::backpack::Backpack;
use crate::catalog::ItemView;
use crate::creature::{has_member, Pokemon};
use crate::error::GameError;
use crate::text::str_eq;

verus! {

/// The most members a party can hold.
pub const MAX_POKEMONS_IN_PARTY: usize = 6;

/// What is written on a trainer's card.
#[derive(Debug, PartialEq, Eq)]
pub struct PlayerCard<'a> {
    pub name: &'a str,
    pub badges: Vec<&'a str>,
    pub battles: usize,
    pub pokemon_encountered: usize,
}

/// A trainer with an inventory and a party.
#[derive(Debug, PartialEq, Eq)]
pub struct Player<'a> {
    pub trainer_card: PlayerCard<'a>,
    pub backpack: Backpack<'a>,
    pub pokedex: String,
    pub party: Vec<Pokemon<'a>>,
}

impl<'a> Player<'a> {
    /// A trainer called `name` with nothing on the card, an empty inventory
    /// and an empty party.
    pub fn new(name: &'a str) -> (r: Player<'a>)
        ensures
            r.trainer_card.name@ == name@,
            r.trainer_card.badges@ == Seq::<&'a str>::empty(),
            r.trainer_card.battles == 0,
            r.trainer_card.pokemon_encountered == 0,
            r.backpack@ == Seq::<ItemView>::empty(),
            r.pokedex@ == Seq::<char>::empty(),
            r.party@ == Seq::<Pokemon<'a>>::empty(),
    {
        Player {
            trainer_card: PlayerCard {
                name,
                badges: Vec::new(),
                battles: 0,
                pokemon_encountered: 0,
            },
            backpack: Backpack::new(),
            pokedex: String::new(),
            party: Vec::with_capacity(MAX_POKEMONS_IN_PARTY),
        }
    }

    /// Adds `member` at the end of the party, unless the party is full: then
    /// the member is rejected with `PartyFull` and nothing changes.
    pub fn add_party_member(&mut self, member: Pokemon<'a>) -> (r: Result<(), GameError>)
        ensures
            old(self).party.len() >= MAX_POKEMONS_IN_PARTY ==> r == Err::<(), GameError>(
                GameError::PartyFull,
            ) && *final(self) == *old(self),
            old(self).party.len() < MAX_POKEMONS_IN_PARTY ==> r == Ok::<(), GameError>(())
                && final(self).party@ == old(self).party@.push(member)
                && final(self).trainer_card == old(self).trainer_card
                && final(self).backpack == old(self).backpack
                && final(self).pokedex == old(self).pokedex,
            old(self).party.len() <= MAX_POKEMONS_IN_PARTY ==> final(self).party.len()
                <= MAX_POKEMONS_IN_PARTY,
    {
        let len = self.party.len();
        if len >= MAX_POKEMONS_IN_PARTY {
            return Err(GameError::PartyFull);
        }
        self.party.push(member);
        Ok(())
    }

    /// Whether a member of `party` carries `name`.
    pub fn look_for_pokemon_in_party(party: &Vec<Pokemon<'a>>, name: &str) -> (r: bool)
        ensures
            r == has_member(party@, name@),
    {
        let mut i: usize = 0;
        while i < party.len()
            invariant
                i <= party.len(),
                forall|j: int| 0 <= j < i ==> (#[trigger] party@[j]).name@ != name@,
            decreases party.len() - i,
        {
            if str_eq(party[i].name.as_str(), name) {
                return true;
            }
            i += 1;
        }
        false
    }
}

} // verus!
