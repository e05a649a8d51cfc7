//! Built-in strategies, and the registry that names them.

pub mod greedy;
pub mod loser;
pub mod not_sorry;
pub mod random;
pub mod reverse;
pub mod sidekick;
pub mod survivor;
pub mod teleporter;
pub mod util;

use crate::card::Card;
use crate::moves::Move;
use crate::rules::StandardRules;
use crate::strategy::{Complexity, Strategy, StrategyDescription, StrategyView, ViewModel};
use crate::text::{joined, str_eq};
pub use greedy::GreedyStrategy;
pub use loser::LoserStrategy;
pub use not_sorry::NotSorryStrategy;
use crate::rng::{GameRng, RngCall, next_word};
pub use random::RandomStrategy;
pub use reverse::ReverseStrategy;
pub use sidekick::SidekickStrategy;
pub use survivor::SurvivorStrategy;
pub use teleporter::TeleporterStrategy;
use vstd::prelude::*;

verus! {

/// One of the built-in strategies, chosen at run time.
#[derive(Debug, Clone, Copy, PartialEq, Eq, Structural)]
pub enum StrategyKind {
    Random,
    Greedy,
    NotSorry,
    Survivor,
    Reverse,
    Teleporter,
    Sidekick,
    Loser,
}

/// The display name of each built-in strategy.
pub open spec fn kind_name(k: StrategyKind) -> Seq<char> {
    match k {
        StrategyKind::Random => "Random"@,
        StrategyKind::Greedy => "Greedy"@,
        StrategyKind::NotSorry => "Not Sorry"@,
        StrategyKind::Survivor => "Survivor"@,
        StrategyKind::Reverse => "Reverse"@,
        StrategyKind::Teleporter => "Teleporter"@,
        StrategyKind::Sidekick => "Sidekick"@,
        StrategyKind::Loser => "Loser"@,
    }
}

/// The one-line summary each built-in strategy describes itself with.
pub open spec fn kind_summary(k: StrategyKind) -> Seq<char> {
    match k {
        StrategyKind::Random => "Picks a uniformly random legal move."@,
        StrategyKind::Greedy => "Always minimizes total distance-to-home, preferring moves into the safety zone."@,
        StrategyKind::NotSorry => "Prioritizes starting pawns off their Start square; Greedy otherwise."@,
        StrategyKind::Survivor => "Attacks the current leader (bump > Sorry > 11-swap), Greedy otherwise."@,
        StrategyKind::Reverse => "Holds one pawn near start_exit and hopes for a 4 or chain of 10s."@,
        StrategyKind::Teleporter => "Always swaps on 11; picks the swap that best advances own pawn; Greedy otherwise."@,
        StrategyKind::Sidekick => "Attacks the most recently-bumped opponent; Greedy otherwise."@,
        StrategyKind::Loser => "Deliberately plays to lose — avoids bumps and maximizes own distance-to-home."@,
    }
}

/// How involved each built-in strategy says it is.
pub open spec fn kind_complexity(k: StrategyKind) -> Complexity {
    match k {
        StrategyKind::Random => Complexity::Trivial,
        StrategyKind::Greedy => Complexity::Low,
        StrategyKind::NotSorry => Complexity::Low,
        StrategyKind::Survivor => Complexity::Medium,
        StrategyKind::Reverse => Complexity::Medium,
        StrategyKind::Teleporter => Complexity::Low,
        StrategyKind::Sidekick => Complexity::Medium,
        StrategyKind::Loser => Complexity::Medium,
    }
}

/// Every built-in strategy, in the order they are offered to players.
pub open spec fn all_kinds() -> Seq<StrategyKind> {
    seq![
        StrategyKind::Random,
        StrategyKind::Greedy,
        StrategyKind::NotSorry,
        StrategyKind::Survivor,
        StrategyKind::Reverse,
        StrategyKind::Teleporter,
        StrategyKind::Sidekick,
        StrategyKind::Loser,
    ]
}

impl Strategy for StrategyKind {
    open spec fn name_text(&self) -> Seq<char> {
        kind_name(*self)
    }

    fn name(&self) -> (r: &'static str)
        ensures
            r@ == kind_name(*self),
    {
        match self {
            StrategyKind::Random => RandomStrategy.name(),
            StrategyKind::Greedy => GreedyStrategy.name(),
            StrategyKind::NotSorry => NotSorryStrategy.name(),
            StrategyKind::Survivor => SurvivorStrategy.name(),
            StrategyKind::Reverse => ReverseStrategy.name(),
            StrategyKind::Teleporter => TeleporterStrategy.name(),
            StrategyKind::Sidekick => SidekickStrategy.name(),
            StrategyKind::Loser => LoserStrategy.name(),
        }
    }

    fn describe(&self) -> (r: StrategyDescription)
        ensures
            r.name@ == kind_name(*self),
            r.summary@ == kind_summary(*self),
            r.complexity == kind_complexity(*self),
    {
        match self {
            StrategyKind::Random => RandomStrategy.describe(),
            StrategyKind::Greedy => GreedyStrategy.describe(),
            StrategyKind::NotSorry => NotSorryStrategy.describe(),
            StrategyKind::Survivor => SurvivorStrategy.describe(),
            StrategyKind::Reverse => ReverseStrategy.describe(),
            StrategyKind::Teleporter => TeleporterStrategy.describe(),
            StrategyKind::Sidekick => SidekickStrategy.describe(),
            StrategyKind::Loser => LoserStrategy.describe(),
        }
    }

    /// Only the random strategy draws a card index at random; every other
    /// strategy plays the first card.
    fn choose_card(&self, view: &StrategyView, rules: &StandardRules, rng: &mut GameRng) -> (r: usize)
        ensures
            !(*self is Random) ==> r == 0,
            view.hand@.len() == 0 ==> r == 0,
            *self is Random && view.hand@.len() > 0 ==> r == next_word(old(rng).seed_model(), old(rng).calls_model()) as int
                % view.hand@.len() as int,
    {
        match self {
            StrategyKind::Random => RandomStrategy.choose_card(view, rules, rng),
            StrategyKind::Greedy => GreedyStrategy.choose_card(view, rules, rng),
            StrategyKind::NotSorry => NotSorryStrategy.choose_card(view, rules, rng),
            StrategyKind::Survivor => SurvivorStrategy.choose_card(view, rules, rng),
            StrategyKind::Reverse => ReverseStrategy.choose_card(view, rules, rng),
            StrategyKind::Teleporter => TeleporterStrategy.choose_card(view, rules, rng),
            StrategyKind::Sidekick => SidekickStrategy.choose_card(view, rules, rng),
            StrategyKind::Loser => LoserStrategy.choose_card(view, rules, rng),
        }
    }

    open spec fn decide(&self, v: ViewModel, card: Card, legal: Seq<Move>, seed: u64, calls: Seq<RngCall>) -> (Move, Seq<RngCall>) {
        match self {
            StrategyKind::Random => RandomStrategy.decide(v, card, legal, seed, calls),
            StrategyKind::Greedy => GreedyStrategy.decide(v, card, legal, seed, calls),
            StrategyKind::NotSorry => NotSorryStrategy.decide(v, card, legal, seed, calls),
            StrategyKind::Survivor => SurvivorStrategy.decide(v, card, legal, seed, calls),
            StrategyKind::Reverse => ReverseStrategy.decide(v, card, legal, seed, calls),
            StrategyKind::Teleporter => TeleporterStrategy.decide(v, card, legal, seed, calls),
            StrategyKind::Sidekick => SidekickStrategy.decide(v, card, legal, seed, calls),
            StrategyKind::Loser => LoserStrategy.decide(v, card, legal, seed, calls),
        }
    }

    fn choose_move(&self, view: &StrategyView, rules: &StandardRules, card: Card, legal: &[Move], rng: &mut GameRng) -> (r: Move) {
        match self {
            StrategyKind::Random => RandomStrategy.choose_move(view, rules, card, legal, rng),
            StrategyKind::Greedy => GreedyStrategy.choose_move(view, rules, card, legal, rng),
            StrategyKind::NotSorry => NotSorryStrategy.choose_move(view, rules, card, legal, rng),
            StrategyKind::Survivor => SurvivorStrategy.choose_move(view, rules, card, legal, rng),
            StrategyKind::Reverse => ReverseStrategy.choose_move(view, rules, card, legal, rng),
            StrategyKind::Teleporter => TeleporterStrategy.choose_move(view, rules, card, legal, rng),
            StrategyKind::Sidekick => SidekickStrategy.choose_move(view, rules, card, legal, rng),
            StrategyKind::Loser => LoserStrategy.choose_move(view, rules, card, legal, rng),
        }
    }
}

/// The rule set called `name`: "Standard" (or the empty name) gives the
/// standard rules; any other name is refused with a message naming it.
pub fn make_rules(name: &str) -> (r: Result<StandardRules, String>)
    ensures
        (name@ == "Standard"@ || name@ == ""@) <==> r is Ok,
        r matches Ok(rules) ==> rules.wf() && !rules.is_play_out(),
        r matches Err(msg) ==> msg@ == "unknown rules variant: "@ + name@,
{
    if str_eq(name, "Standard") || str_eq(name, "") {
        Ok(StandardRules::new())
    } else {
        Err(joined("unknown rules variant: ", name))
    }
}

/// The built-in strategy whose display name is `name`; any other name is
/// refused with a message naming it.
pub fn make_strategy(name: &str) -> (r: Result<StrategyKind, String>)
    ensures
        (exists|k: StrategyKind| kind_name(k) == name@) <==> r is Ok,
        r matches Ok(k) ==> kind_name(k) == name@,
        r matches Err(msg) ==> msg@ == "unknown strategy: "@ + name@,
{
    let r = if str_eq(name, "Random") {
        Ok(StrategyKind::Random)
    } else if str_eq(name, "Greedy") {
        Ok(StrategyKind::Greedy)
    } else if str_eq(name, "Not Sorry") {
        Ok(StrategyKind::NotSorry)
    } else if str_eq(name, "Survivor") {
        Ok(StrategyKind::Survivor)
    } else if str_eq(name, "Reverse") {
        Ok(StrategyKind::Reverse)
    } else if str_eq(name, "Teleporter") {
        Ok(StrategyKind::Teleporter)
    } else if str_eq(name, "Sidekick") {
        Ok(StrategyKind::Sidekick)
    } else if str_eq(name, "Loser") {
        Ok(StrategyKind::Loser)
    } else {
        Err(joined("unknown strategy: ", name))
    };
    proof {
        if r is Ok {
            assert(kind_name(r->Ok_0) == name@);
        } else {
            assert forall|k: StrategyKind| kind_name(k) != name@ by {
                match k {
                    StrategyKind::Random => {},
                    StrategyKind::Greedy => {},
                    StrategyKind::NotSorry => {},
                    StrategyKind::Survivor => {},
                    StrategyKind::Reverse => {},
                    StrategyKind::Teleporter => {},
                    StrategyKind::Sidekick => {},
                    StrategyKind::Loser => {},
                }
            }
        }
    }
    r
}

/// The names of every rule set on offer.
pub fn available_rules() -> (r: Vec<String>)
    ensures
        r@.len() == 1,
        r@[0]@ == "Standard"@,
{
    let mut out: Vec<String> = Vec::new();
    out.push("Standard".to_owned());
    out
}

/// The names of every built-in strategy, in `all_kinds` order.
pub fn available_strategies() -> (r: Vec<String>)
    ensures
        r@.len() == all_kinds().len(),
        forall|i: int| 0 <= i < r@.len() ==> (#[trigger] r@[i])@ == kind_name(all_kinds()[i]),
{
    let mut out: Vec<String> = Vec::new();
    out.push("Random".to_owned());
    out.push("Greedy".to_owned());
    out.push("Not Sorry".to_owned());
    out.push("Survivor".to_owned());
    out.push("Reverse".to_owned());
    out.push("Teleporter".to_owned());
    out.push("Sidekick".to_owned());
    out.push("Loser".to_owned());
    out
}

} // verus!
