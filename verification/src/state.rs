//! The whole program's mutable state, and game-mode detection.

use vstd::prelude::*;

use crate::screen::Screen;

verus! {

/// Which release of the game the base archive belongs to.
#[derive(Clone, Copy, Debug, PartialEq, Eq, Structural)]
pub enum GameMode {
    Commercial,
    Retail,
    Registered,
    Shareware,
    Undetermined,
}

/// Which of the known base archives exist on disk, in probe order.
pub struct WadCandidates {
    pub doom2: bool,
    pub plutonia: bool,
    pub doomu: bool,
    pub doom: bool,
    pub doom1: bool,
    pub tnt: bool,
}

/// The mode and probe-order index `identify_version` decides on.
pub open spec fn identified(c: WadCandidates) -> (GameMode, Option<usize>) {
    if c.doom2 {
        (GameMode::Commercial, Some(0usize))
    } else if c.plutonia {
        (GameMode::Commercial, Some(1usize))
    } else if c.doomu {
        (GameMode::Retail, Some(2usize))
    } else if c.doom {
        (GameMode::Registered, Some(3usize))
    } else if c.doom1 {
        (GameMode::Shareware, Some(4usize))
    } else if c.tnt {
        (GameMode::Shareware, Some(5usize))
    } else {
        (GameMode::Undetermined, None)
    }
}

/// Decide the game mode from which base archives exist: the first present
/// archive in probe order wins; none at all leaves the mode undetermined.
pub fn identify_version(c: &WadCandidates) -> (r: (GameMode, Option<usize>))
    ensures
        r == identified(*c),
{
    if c.doom2 {
        (GameMode::Commercial, Some(0))
    } else if c.plutonia {
        (GameMode::Commercial, Some(1))
    } else if c.doomu {
        (GameMode::Retail, Some(2))
    } else if c.doom {
        (GameMode::Registered, Some(3))
    } else if c.doom1 {
        (GameMode::Shareware, Some(4))
    } else if c.tnt {
        (GameMode::Shareware, Some(5))
    } else {
        (GameMode::Undetermined, None)
    }
}

/// Everything the game keeps between startup and the render loop.
pub struct State {
    pub wad: crate::wad::State,
    pub status_bar: crate::status_bar::State,
    pub screens: Vec<Screen>,
    pub game_mode: GameMode,
    pub modified_game: bool,
    pub no_monsters: bool,
    pub respawn: bool,
    pub fast: bool,
    pub dev_parm: bool,
    pub forward_move: [isize; 2],
    pub side_move: [isize; 2],
}

impl State {
    /// The archive state is well formed and at least one screen exists,
    /// each of the fixed size.
    pub open spec fn wf(self) -> bool {
        &&& self.wad.wf()
        &&& self.screens@.len() >= 1
        &&& forall|i: int| 0 <= i < self.screens@.len() ==> (#[trigger] self.screens@[i]).wf()
    }

    /// The startup state: an empty archive directory, no status bar yet,
    /// one black screen, and the classic movement scales.
    pub fn new() -> (s: State)
        ensures
            s.wf(),
            s.game_mode == GameMode::Undetermined,
            !s.modified_game,
            !s.no_monsters,
            !s.respawn,
            !s.fast,
            !s.dev_parm,
            s.wad@.lumps.len() == 0,
            s.wad@.sources.len() == 0,
            s.status_bar.sbar is None,
            s.screens@.len() == 1,
            s.screens@[0].buffer@ == Seq::new(crate::screen::SCREENSIZE as nat, |j: int| 0u8),
            s.forward_move@ == seq![0x19isize, 0x32isize],
            s.side_move@ == seq![0x18isize, 0x28isize],
    {
        let mut screens: Vec<Screen> = Vec::new();
        screens.push(Screen::new());
        let s = State {
            wad: crate::wad::State::new(),
            status_bar: crate::status_bar::State::new(),
            screens,
            game_mode: GameMode::Undetermined,
            modified_game: false,
            no_monsters: false,
            respawn: false,
            fast: false,
            dev_parm: false,
            forward_move: [0x19, 0x32],
            side_move: [0x18, 0x28],
        };
        proof {
            assert(s.forward_move@ =~= seq![0x19isize, 0x32isize]);
            assert(s.side_move@ =~= seq![0x18isize, 0x28isize]);
        }
        s
    }
}

} // verus!
