use vstd::prelude::*;
use crate::board::{Board, BoardView};
use crate::input_listener::InputEvent;

verus! {

/// The three board sizes a game can be played at.
#[derive(Clone, Copy, Debug, PartialEq, Eq, Hash, Structural)]
pub enum Difficulty {
    Easy,
    Medium,
    Hard,
}

impl Difficulty {
    /// Width, height and number of mines of the board for this difficulty.
    pub open spec fn spec_dimensions(self) -> (nat, nat, nat) {
        match self {
            Difficulty::Easy => (9, 9, 10),
            Difficulty::Medium => (16, 16, 32),
            Difficulty::Hard => (30, 16, 60),
        }
    }

    pub fn dimensions(&self) -> (r: (usize, usize, usize))
        ensures
            r.0 as nat == self.spec_dimensions().0,
            r.1 as nat == self.spec_dimensions().1,
            r.2 as nat == self.spec_dimensions().2,
    {
        match self {
            Difficulty::Easy => (9, 9, 10),
            Difficulty::Medium => (16, 16, 32),
            Difficulty::Hard => (30, 16, 60),
        }
    }
}

/// The controller's state as plain values. Times are in milliseconds on a
/// clock that the caller supplies.
pub struct AppView {
    pub board: BoardView,
    pub start_time: nat,
    pub end_time: nat,
    pub game_over: bool,
    pub victory: bool,
    pub quit: bool,
    pub start_up: bool,
    pub change_difficulty: bool,
    pub difficulty: Difficulty,
}

impl AppView {
    /// The controller's invariant: a difficulty may be chosen exactly at
    /// start-up and after a game ended, a game is not both lost and won, the
    /// board is empty until the first game, and afterwards has the size and
    /// mine count of the difficulty last chosen.
    pub open spec fn well_formed(self) -> bool {
        &&& self.board.well_formed()
        &&& self.change_difficulty == (self.start_up || self.game_over || self.victory)
        &&& !(self.game_over && self.victory)
        &&& self.start_up ==> !self.game_over && !self.victory && self.board.cells.len() == 0
        &&& !self.start_up ==> {
            &&& self.board.width == self.difficulty.spec_dimensions().0
            &&& self.board.height == self.difficulty.spec_dimensions().1
            &&& self.board.mine_count == self.difficulty.spec_dimensions().2
        }
    }

    /// Whether a game is under way: past start-up, neither lost nor won.
    pub open spec fn playing(self) -> bool {
        !self.start_up && !self.game_over && !self.victory
    }

    /// Milliseconds since the game started; once it is lost or won, the time
    /// stands at the moment it ended.
    pub open spec fn elapsed(self, now: nat) -> nat {
        let until = if self.game_over || self.victory {
            self.end_time
        } else {
            now
        };
        if until >= self.start_time {
            (until - self.start_time) as nat
        } else {
            0
        }
    }

    /// The state after an event other than a choice of difficulty, at time
    /// `now`. Moves, selections and flags act only while playing; selecting
    /// a mine loses the game, and opening the last safe cell wins it.
    pub open spec fn next(self, event: InputEvent, now: nat) -> AppView {
        match event {
            InputEvent::Navigation(direction) => if self.playing() {
                AppView { board: self.board.moved(direction), ..self }
            } else {
                self
            },
            InputEvent::Select => if self.playing() {
                let opened = self.board.selected_opened();
                if self.board.selected_is_mine() {
                    AppView {
                        board: opened,
                        game_over: true,
                        end_time: now,
                        change_difficulty: true,
                        ..self
                    }
                } else if opened.all_safe_open() {
                    AppView {
                        board: opened,
                        victory: true,
                        end_time: now,
                        change_difficulty: true,
                        ..self
                    }
                } else {
                    AppView { board: opened, ..self }
                }
            } else {
                self
            },
            InputEvent::Flag => if self.playing() {
                AppView { board: self.board.flag_toggled(), ..self }
            } else {
                self
            },
            InputEvent::Quit => AppView { quit: true, ..self },
            _ => self,
        }
    }

    /// Whether this state is a new game at `difficulty` started at `now`
    /// from state `prev`: a fresh board of that difficulty, the clock reset,
    /// nothing lost or won, and no other choice of difficulty until it ends.
    pub open spec fn started_from(self, prev: AppView, difficulty: Difficulty, now: nat) -> bool {
        &&& self.board.is_fresh(
            difficulty.spec_dimensions().0,
            difficulty.spec_dimensions().1,
            difficulty.spec_dimensions().2,
        )
        &&& !self.board.all_safe_open()
        &&& self == AppView {
            board: self.board,
            start_time: now,
            game_over: false,
            victory: false,
            start_up: false,
            change_difficulty: false,
            difficulty: difficulty,
            ..prev
        }
    }
}

/// Selecting a mine during a game loses it, and from then on the clock
/// shows the time at which it was selected, whenever it is read.
pub proof fn lemma_mine_ends_game(a: AppView, now: nat, later: nat)
    requires
        a.well_formed(),
        a.playing(),
        a.board.selected_is_mine(),
    ensures
        a.next(InputEvent::Select, now).game_over,
        a.next(InputEvent::Select, now).elapsed(later) == a.elapsed(now),
{
}

/// Once a game is lost or won, the clock stands still: whatever event
/// follows, other than the choice of a new difficulty, and whenever the
/// clock is read, it shows the same time, and the game stays ended.
pub proof fn lemma_clock_stands_after_end(
    a: AppView,
    event: InputEvent,
    now: nat,
    read_at: nat,
    read_before: nat,
)
    requires
        a.well_formed(),
        a.game_over || a.victory,
        !(event is GameDifficulty),
    ensures
        a.next(event, now).elapsed(read_at) == a.elapsed(read_before),
        a.next(event, now).game_over == a.game_over,
        a.next(event, now).victory == a.victory,
{
}

/// The game controller: the board, the clock of the current game, and
/// whether the game is starting up, lost, won or being quit.
pub struct App {
    board: Board,
    start_time: u64,
    end_time: u64,
    game_over: bool,
    victory: bool,
    quit: bool,
    start_up: bool,
    change_difficulty: bool,
    difficulty: Difficulty,
}

impl View for App {
    type V = AppView;

    closed spec fn view(&self) -> AppView {
        AppView {
            board: self.board@,
            start_time: self.start_time as nat,
            end_time: self.end_time as nat,
            game_over: self.game_over,
            victory: self.victory,
            quit: self.quit,
            start_up: self.start_up,
            change_difficulty: self.change_difficulty,
            difficulty: self.difficulty,
        }
    }
}

impl App {
    /// A controller at start-up, waiting for a difficulty to be chosen.
    pub fn new() -> (r: App)
        ensures
            r@.well_formed(),
            r@.start_up,
            r@.change_difficulty,
            r@.difficulty == Difficulty::Easy,
            !r@.game_over,
            !r@.victory,
            !r@.quit,
            r@.board.cells.len() == 0,
            r@.start_time == 0,
            r@.end_time == 0,
    {
        App {
            board: Board::new(),
            start_time: 0,
            end_time: 0,
            game_over: false,
            victory: false,
            quit: false,
            start_up: true,
            change_difficulty: true,
            difficulty: Difficulty::Easy,
        }
    }

    /// Handles one event at time `now`: a difficulty is ignored while a game
    /// is under way and otherwise starts a new game at it; the other events
    /// act as `AppView::next` says.
    pub fn handle_input(&mut self, event: InputEvent, now: u64)
        requires
            old(self)@.well_formed(),
        ensures
            final(self)@.well_formed(),
            match event {
                InputEvent::GameDifficulty(difficulty) => if old(self)@.playing() {
                    final(self)@ == old(self)@
                } else {
                    final(self)@.started_from(old(self)@, difficulty, now as nat)
                },
                _ => final(self)@ == old(self)@.next(event, now as nat),
            },
    {
        let playing = !self.start_up && !self.game_over && !self.victory;
        match event {
            InputEvent::Navigation(_) => {
                if playing {
                    self.board.change_active_cell(event);
                }
            },
            InputEvent::Select => {
                if playing {
                    let mut hit_mine = false;
                    self.board.select_active_cell(&mut hit_mine);
                    if hit_mine {
                        self.set_is_game_over(true, now);
                    } else if self.board.is_all_safe_cells_open() {
                        self.set_is_victory(true, now);
                    }
                }
            },
            InputEvent::GameDifficulty(difficulty) => {
                if self.change_difficulty {
                    self.initiate_game(difficulty, now);
                }
            },
            InputEvent::Flag => {
                if playing {
                    self.board.toggle_active_cell_flag();
                }
            },
            InputEvent::Quit => {
                self.quit = true;
            },
            _ => {},
        }
    }

    /// Starts a new game at `difficulty`, with its clock set to `now`.
    fn initiate_game(&mut self, difficulty: Difficulty, now: u64)
        ensures
            final(self)@.started_from(old(self)@, difficulty, now as nat),
    {
        self.difficulty = difficulty;
        self.game_over = false;
        self.victory = false;
        self.change_difficulty = false;
        self.start_up = false;
        self.board.initiate_board(self.difficulty);
        self.start_time = now;
    }

    /// Stops the clock at `now` and lets a difficulty be chosen again.
    fn end_game(&mut self, now: u64)
        ensures
            final(self)@ == (AppView {
                end_time: now as nat,
                change_difficulty: true,
                ..old(self)@
            }),
    {
        self.end_time = now;
        self.change_difficulty = true;
    }

    fn set_is_game_over(&mut self, game_over: bool, now: u64)
        ensures
            final(self)@ == (if game_over {
                AppView {
                    game_over: true,
                    end_time: now as nat,
                    change_difficulty: true,
                    ..old(self)@
                }
            } else {
                AppView { game_over: false, ..old(self)@ }
            }),
    {
        self.game_over = game_over;
        if self.game_over {
            self.end_game(now);
        }
    }

    pub fn get_is_game_over(&self) -> (r: bool)
        ensures
            r == self@.game_over,
    {
        self.game_over
    }

    fn set_is_victory(&mut self, victory: bool, now: u64)
        ensures
            final(self)@ == (if victory {
                AppView {
                    victory: true,
                    end_time: now as nat,
                    change_difficulty: true,
                    ..old(self)@
                }
            } else {
                AppView { victory: false, ..old(self)@ }
            }),
    {
        self.victory = victory;
        if self.victory {
            self.end_game(now);
        }
    }

    pub fn get_is_victory(&self) -> (r: bool)
        ensures
            r == self@.victory,
    {
        self.victory
    }

    pub fn is_start_up(&self) -> (r: bool)
        ensures
            r == self@.start_up,
    {
        self.start_up
    }

    /// Whether the player asked to quit.
    pub fn is_quit(&self) -> (r: bool)
        ensures
            r == self@.quit,
    {
        self.quit
    }

    /// The difficulty of the current or last game.
    pub fn get_difficulty(&self) -> (r: Difficulty)
        ensures
            r == self@.difficulty,
    {
        self.difficulty
    }

    /// The board, for rendering.
    pub fn get_board(&self) -> (r: &Board)
        ensures
            r@ == self@.board,
    {
        &self.board
    }

    /// Milliseconds the game has run at time `now`, standing still once it
    /// is lost or won.
    pub fn elapsed_millis(&self, now: u64) -> (r: u64)
        ensures
            r as nat == self@.elapsed(now as nat),
    {
        let until = if self.game_over || self.victory {
            self.end_time
        } else {
            now
        };
        if until >= self.start_time {
            until - self.start_time
        } else {
            0
        }
    }
}

} // verus!
