use vstd::prelude::*;

verus! {

/// Where the high scores are kept, relative to the player's home directory.
pub struct Scoreboard {
    scoreboard_path: String,
}

impl View for Scoreboard {
    type V = Seq<char>;

    closed spec fn view(&self) -> Seq<char> {
        self.scoreboard_path@
    }
}

impl Scoreboard {
    pub fn new() -> (r: Scoreboard)
        ensures
            r@ == "/minesweeper-tui/scoreboard.txt"@,
    {
        Scoreboard { scoreboard_path: "/minesweeper-tui/scoreboard.txt".to_string() }
    }

    /// The full path of the score file under the home directory
    /// `home_path`; empty when no home directory is known.
    pub fn get_scoreboard_path(&self, home_path: &str) -> (r: String)
        ensures
            r@ == (if home_path@.len() == 0 {
                Seq::<char>::empty()
            } else {
                home_path@ + self@
            }),
    {
        if home_path.is_empty() {
            return String::new();
        }
        let home = home_path.to_string();
        home.concat(self.scoreboard_path.as_str())
    }
}

} // verus!
