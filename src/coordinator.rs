use vstd::prelude::*;
use vstd::string::*;

use crate::commands::{same_text, Command, GoParameters};
use crate::game::{Game, Move, Position, Variant};
use crate::options::Check;

verus! {

/// What the owner of the search thread has to do after a decision.
#[derive(Clone, Copy, Debug, PartialEq, Eq, Structural)]
pub enum Action {
    Nothing,
    /// Start the search thread.
    StartWorker,
    /// Clear the stop flag and wake the search thread for a search of the current game.
    WakeWorker,
    /// Raise the stop flag.
    RaiseStop,
    /// Raise the stop flag, wake the search thread so that it ends, and wait for it.
    StopWorker,
}

/// The engine's state between commands: whether the search thread runs, the game to search,
/// and the options.
#[derive(Clone, Debug)]
pub struct Coordinator {
    pub running: bool,
    pub gbgp_mode: bool,
    pub debug_mode: bool,
    pub game: Game,
    pub twelve_mens_morris: Check,
}

impl Coordinator {
    pub fn new() -> (r: Self)
        ensures
            !r.running,
            !r.gbgp_mode,
            !r.debug_mode,
            r.game.position.is_initial(),
            r.game.moves@.len() == 0,
            !r.twelve_mens_morris.value,
    {
        Coordinator {
            running: false,
            gbgp_mode: false,
            debug_mode: false,
            game: Game::new(),
            twelve_mens_morris: Check::new(false),
        }
    }

    /// Starts the search thread unless it runs already.
    pub fn newgame(&mut self) -> (r: Action)
        ensures
            r == if old(self).running {
                Action::Nothing
            } else {
                Action::StartWorker
            },
            final(self).running,
            final(self).game == old(self).game,
    {
        if self.running {
            return Action::Nothing;
        }
        self.running = true;
        Action::StartWorker
    }

    /// Sets the position and the moves played from it.
    pub fn position(&mut self, position: Position, moves: Vec<Move>)
        ensures
            final(self).game.position == position,
            final(self).game.moves@ == moves@,
            final(self).running == old(self).running,
    {
        self.game.position = position;
        self.game.moves = moves;
    }

    /// Stores the parameters of a search and asks for it; an error, changing nothing, when the
    /// search thread was never started.
    pub fn go(&mut self, parameters: GoParameters) -> (r: Result<Action, String>)
        ensures
            r is Err <==> !old(self).running,
            r is Err ==> final(self).game == old(self).game,
            r matches Ok(a) ==> a == Action::WakeWorker && final(self).game.ponder
                == parameters.ponder && final(self).game.wtime == parameters.wtime
                && final(self).game.btime == parameters.btime && final(self).game.depth
                == parameters.depth && final(self).game.movetime == parameters.movetime
                && final(self).game.position == old(self).game.position
                && final(self).game.moves@ == old(self).game.moves@,
            final(self).running == old(self).running,
    {
        if !self.running {
            return Err("The engine has not been initialized".to_string());
        }
        self.game.ponder = parameters.ponder;
        self.game.wtime = parameters.wtime;
        self.game.btime = parameters.btime;
        self.game.depth = parameters.depth;
        self.game.movetime = parameters.movetime;
        Ok(Action::WakeWorker)
    }

    /// Asks a running search to stop with its best move so far.
    pub fn stop(&self) -> (r: Action)
        ensures
            r == Action::RaiseStop,
    {
        Action::RaiseStop
    }

    /// Ends the search thread if it runs; nothing otherwise.
    pub fn quit(&mut self) -> (r: Action)
        ensures
            r == if old(self).running {
                Action::StopWorker
            } else {
                Action::Nothing
            },
            !final(self).running,
    {
        if !self.running {
            return Action::Nothing;
        }
        self.running = false;
        Action::StopWorker
    }

    /// Sets an option by name: `TwelveMensMorris` takes `true` or `false`; any other name, or
    /// a missing or invalid value, is an error.
    pub fn setoption(&mut self, name: &str, value: Option<&str>) -> (r: Result<(), String>)
        ensures
            r is Ok <==> (name@ == "TwelveMensMorris"@ && value is Some && (value->0@ == "true"@
                || value->0@ == "false"@)),
            r is Ok ==> final(self).twelve_mens_morris.value == (value->0@ == "true"@),
            r is Err ==> final(self).twelve_mens_morris.value == old(self).twelve_mens_morris.value,
            final(self).running == old(self).running,
            final(self).game == old(self).game,
    {
        if !same_text(name, "TwelveMensMorris") {
            return Err("Invalid option".to_string());
        }
        match value {
            Some(v) => self.twelve_mens_morris.set(v),
            None => Err("Expected value for option".to_string()),
        }
    }

    /// The handshake: from now on every command is carried out.
    pub fn gbgp(&mut self)
        ensures
            final(self).gbgp_mode,
            final(self).running == old(self).running,
            final(self).game == old(self).game,
    {
        self.gbgp_mode = true;
    }

    /// Whether a command is carried out now: before the handshake only `gbgp` and `quit` are,
    /// and every other command is ignored.
    pub fn accepts(&self, command: &Command) -> (r: bool)
        ensures
            r == (self.gbgp_mode || *command is Gbgp || *command is Quit),
    {
        match command {
            Command::Gbgp => true,
            Command::Quit => true,
            _ => self.gbgp_mode,
        }
    }

    /// The board the searches use.
    pub fn variant(&self) -> (r: Variant)
        ensures
            r == if self.twelve_mens_morris.value {
                Variant::Twelve
            } else {
                Variant::Nine
            },
    {
        if self.twelve_mens_morris.value {
            Variant::Twelve
        } else {
            Variant::Nine
        }
    }
}

} // verus!
