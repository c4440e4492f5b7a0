//! The decisions of a random self-play run: which player acts and which of
//! its legal actions is picked.

use vstd::prelude::*;

use crate::game::Game;
use crate::types::{Action, Faction};

verus! {

/// One step of the xorshift generator (shifts 13, 7 and 17).
pub open spec fn xorshift(v: u64) -> u64 {
    let a = v ^ (v << 13u64);
    let b = a ^ (a >> 7u64);
    b ^ (b << 17u64)
}

/// The next number of the xorshift sequence.
pub fn next_random(value: u64) -> (r: u64)
    ensures
        r == xorshift(value),
{
    let mut v = value;
    v = v ^ (v << 13u64);
    v = v ^ (v >> 7u64);
    v = v ^ (v << 17u64);
    v
}

/// Whether `r` names `f` with its legal actions.
pub open spec fn acts(r: Option<(Faction, Vec<Action>)>, game: &Game, f: Faction) -> bool {
    match r {
        Some((g, a)) => g == f && a@ == game.legal_for(f),
        None => false,
    }
}

/// The player who can act now, the Fellowship asked first, with its legal
/// actions; `None` when neither can act.
pub fn acting_player(game: &Game) -> (r: Option<(Faction, Vec<Action>)>)
    requires
        game.wf(),
    ensures
        game.legal_for(Faction::Fellowship).len() > 0 ==> acts(r, game, Faction::Fellowship),
        game.legal_for(Faction::Fellowship).len() == 0 && game.legal_for(Faction::Sauron).len() > 0 ==> acts(
            r,
            game,
            Faction::Sauron,
        ),
        game.legal_for(Faction::Fellowship).len() == 0 && game.legal_for(Faction::Sauron).len() == 0 ==> r is None,
{
    let fellowship = game.legal_actions_for(Faction::Fellowship);
    if fellowship.len() > 0 {
        return Some((Faction::Fellowship, fellowship));
    }
    let sauron = game.legal_actions_for(Faction::Sauron);
    if sauron.len() > 0 {
        return Some((Faction::Sauron, sauron));
    }
    None
}

/// The position a random number picks among `count` choices.
pub fn pick(random: u64, count: usize) -> (r: usize)
    requires
        count > 0,
    ensures
        r == random % (count as u64),
        r < count,
{
    (random % count as u64) as usize
}

} // verus!
