//! The item catalog: which item names exist, and the ability text of each.

use vstd::prelude::*;
use crate::error::GameError;
use crate::text::str_eq;

verus! {

/// An owned stack of one kind of item.
#[derive(Debug, PartialEq, Eq)]
pub struct Item<'a> {
    pub name: &'a str,
    pub ability: &'a str,
    pub quantity: usize,
}

/// What a stack holds, as plain values.
pub struct ItemView {
    pub name: Seq<char>,
    pub ability: Seq<char>,
    pub quantity: nat,
}

impl<'a> View for Item<'a> {
    type V = ItemView;

    open spec fn view(&self) -> ItemView {
        ItemView { name: self.name@, ability: self.ability@, quantity: self.quantity as nat }
    }
}

/// The catalog: each item name with its ability text.
pub open spec fn catalog() -> Seq<(Seq<char>, Seq<char>)> {
    seq![
        ("Potion"@, "Heal: 20"@),
        ("Super Potion"@, "Heal: 60"@),
        ("Hyper Potion"@, "Heal: 120"@),
        ("Full Recover"@, "Heal: 999, Status: None"@),
    ]
}

/// The ability text of the item called `name`, if the catalog has it.
pub open spec fn ability_of(name: Seq<char>) -> Option<Seq<char>> {
    if name == "Potion"@ {
        Some("Heal: 20"@)
    } else if name == "Super Potion"@ {
        Some("Heal: 60"@)
    } else if name == "Hyper Potion"@ {
        Some("Heal: 120"@)
    } else if name == "Full Recover"@ {
        Some("Heal: 999, Status: None"@)
    } else {
        None
    }
}

/// A stack as the catalog allows it: a known name with that name's ability
/// text, and at least one item.
pub open spec fn valid_stack(stack: ItemView) -> bool {
    &&& ability_of(stack.name) == Some(stack.ability)
    &&& stack.quantity >= 1
}

/// The views of the catalog's entries.
pub open spec fn entry_views(entries: Seq<(&'static str, &'static str)>) -> Seq<
    (Seq<char>, Seq<char>),
> {
    Seq::new(entries.len(), |i: int| (entries[i].0@, entries[i].1@))
}

/// The catalog as a list, names first.
pub fn explicit_items() -> (r: Vec<(&'static str, &'static str)>)
    ensures
        entry_views(r@) == catalog(),
{
    let r = vec![
        ("Potion", "Heal: 20"),
        ("Super Potion", "Heal: 60"),
        ("Hyper Potion", "Heal: 120"),
        ("Full Recover", "Heal: 999, Status: None"),
    ];
    assert(entry_views(r@) == catalog());
    r
}

impl<'a> Item<'a> {
    /// Whether this stack is one that the catalog allows.
    pub open spec fn wf(&self) -> bool {
        valid_stack(self@)
    }

    /// Looks `name` up in the catalog.
    pub fn ability_from_name(name: &str) -> (r: Option<&'static str>)
        ensures
            match ability_of(name@) {
                Some(text) => r matches Some(s) && s@ == text,
                None => r is None,
            },
    {
        let entries = explicit_items();
        let mut i: usize = 0;
        while i < entries.len()
            invariant
                i <= entries.len(),
                entry_views(entries@) == catalog(),
                forall|j: int| 0 <= j < i ==> catalog()[j].0 != name@,
            decreases entries.len() - i,
        {
            let (entry_name, ability) = entries[i];
            assert(entry_views(entries@)[i as int] == (entry_name@, ability@));
            if str_eq(entry_name, name) {
                proof {
                    assert(catalog()[i as int] == (entry_name@, ability@));
                    assert(catalog()[0] == ("Potion"@, "Heal: 20"@));
                    assert(catalog()[1] == ("Super Potion"@, "Heal: 60"@));
                    assert(catalog()[2] == ("Hyper Potion"@, "Heal: 120"@));
                    assert(catalog()[3] == ("Full Recover"@, "Heal: 999, Status: None"@));
                    assert(entry_views(entries@).len() == 4);
                    assert(ability_of(name@) == Some(ability@));
                }
                return Some(ability);
            }
            i += 1;
        }
        assert(entry_views(entries@).len() == 4);
        None
    }

    /// Accepts `name` only if the catalog has it.
    pub fn check_item(name: &str) -> (r: Result<(), GameError>)
        ensures
            ability_of(name@) is Some ==> r == Ok::<(), GameError>(()),
            ability_of(name@) is None ==> r == Err::<(), GameError>(GameError::UnknownItem),
    {
        match Self::ability_from_name(name) {
            Some(_) => Ok(()),
            None => Err(GameError::UnknownItem),
        }
    }

    /// A stack of one item called `name`, if the catalog has that name.
    pub fn new(name: &'a str) -> (r: Result<Item<'a>, GameError>)
        ensures
            match ability_of(name@) {
                Some(text) => r matches Ok(item) && item@ == (ItemView {
                    name: name@,
                    ability: text,
                    quantity: 1,
                }) && item.wf(),
                None => r == Err::<Item<'a>, GameError>(GameError::UnknownItem),
            },
    {
        match Self::ability_from_name(name) {
            Some(ability) => Ok(Item { name, ability, quantity: 1 }),
            None => Err(GameError::UnknownItem),
        }
    }
}

} // verus!
