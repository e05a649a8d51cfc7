//! Verified Sorry! board game engine: board model, rules, legal-move
//! generation, move application, strategies, the turn-by-turn state
//! machine, whole-game play and batch simulation.

pub mod apply;
pub mod board;
pub mod card;
pub mod error;
pub mod game;
pub mod history;
pub mod interactive;
pub mod move_laws;
pub mod moves;
pub mod replay;
pub mod rng;
pub mod rules;
pub mod server;
pub mod simulator;
pub mod strategies;
pub mod strategy;
pub mod text;

pub use apply::{BumpEvent, SlideEvent, apply_move};
pub use board::{BoardState, PawnId, PlayerId, Space, SpaceId};
pub use card::{Card, standard_deck};
pub use error::SorryError;
pub use game::Game;
pub use history::{Action, GameHistory, TurnRecord};
pub use interactive::{ActionNeeded, InteractiveGame, InteractiveGameState, PlayerAction, PlayerView};
pub use moves::{Move, SplitLeg, legal_moves};
pub use rules::{SlidePath, StandardRules};
pub use simulator::{AggregateCounts, GameStats, Simulator, SimulatorConfig};
pub use strategies::{
    GreedyStrategy, LoserStrategy, NotSorryStrategy, RandomStrategy, ReverseStrategy, SidekickStrategy,
    StrategyKind, SurvivorStrategy, TeleporterStrategy,
};
pub use strategy::{Complexity, Strategy, StrategyDescription, StrategyView};
