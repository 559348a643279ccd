//! The status-bar client: it fetches the bar's image record through the
//! cache, decodes it, and composites it onto the first screen.

use vstd::prelude::*;

use crate::screen::SCREENSIZE;
use crate::screen::SCREENWIDTH;
use crate::video::blit_result;
use crate::video::draw_patch;
use crate::video::patch_fits;
use crate::video::Patch;
use crate::wad::names_equal;
use crate::wad::read_model;

verus! {

/// The status bar's anchor column on the screen.
pub const ST_X: usize = 0;

/// The left edge of the bar's arms-background region.
pub const ST_X2: usize = 104;

/// The horizontal anchor of the bar's face.
pub const ST_FX: usize = 143;

/// The vertical anchor of the bar's face.
pub const ST_FY: usize = 169;

/// The status-bar client's state: the decoded bar patch, once loaded.
pub struct State {
    pub sbar: Option<Patch>,
}

impl State {
    /// No patch loaded yet.
    pub fn new() -> (s: State)
        ensures
            s.sbar is None,
    {
        State { sbar: None }
    }
}

/// The name of the status-bar image record, `STBAR`.
pub open spec fn stbar_name() -> Seq<u8> {
    seq![83u8, 84u8, 66u8, 65u8, 82u8]
}

/// Why the status bar could not initialize.
#[derive(Clone, Copy, Debug, PartialEq, Eq, Structural)]
pub enum StatusBarError {
    /// No record named `STBAR` exists in the directory.
    PatchMissing,
    /// The record exists but does not decode as a patch.
    PatchInvalid,
}

/// Fetch the `STBAR` record through the cache and decode it into the
/// status bar's patch slot.
pub fn init(state: &mut crate::state::State) -> (r: Result<(), StatusBarError>)
    requires
        old(state).wad.wf(),
    ensures
        final(state).wad.wf(),
        final(state).screens == old(state).screens,
        final(state).game_mode == old(state).game_mode,
        final(state).modified_game == old(state).modified_game,
        final(state).no_monsters == old(state).no_monsters,
        final(state).respawn == old(state).respawn,
        final(state).fast == old(state).fast,
        final(state).dev_parm == old(state).dev_parm,
        final(state).forward_move == old(state).forward_move,
        final(state).side_move == old(state).side_move,
        match r {
            Ok(()) => exists|i: int|
                {
                    &&& 0 <= i < old(state).wad@.lumps.len()
                    &&& #[trigger] names_equal(old(state).wad@.lumps[i].name, stbar_name())
                    &&& forall|j: int|
                        0 <= j < i ==> !names_equal(old(state).wad@.lumps[j].name, stbar_name())
                    &&& Patch::decodes(old(state).wad@.lump_bytes(i))
                    &&& final(state).wad@ == read_model(old(state).wad@, i)
                    &&& final(state).status_bar.sbar matches Some(p) && p.is_decode_of(
                        old(state).wad@.lump_bytes(i),
                    ) && p.wf()
                },
            Err(StatusBarError::PatchMissing) => (forall|j: int|
                0 <= j < old(state).wad@.lumps.len() ==> !names_equal(
                    old(state).wad@.lumps[j].name,
                    stbar_name(),
                )) && *final(state) == *old(state),
            Err(StatusBarError::PatchInvalid) => exists|i: int|
                {
                    &&& 0 <= i < old(state).wad@.lumps.len()
                    &&& #[trigger] names_equal(old(state).wad@.lumps[i].name, stbar_name())
                    &&& forall|j: int|
                        0 <= j < i ==> !names_equal(old(state).wad@.lumps[j].name, stbar_name())
                    &&& !Patch::decodes(old(state).wad@.lump_bytes(i))
                    &&& final(state).wad@ == read_model(old(state).wad@, i)
                    &&& final(state).status_bar == old(state).status_bar
                },
        },
{
    let mut nm: Vec<u8> = Vec::new();
    nm.push(83);
    nm.push(84);
    nm.push(66);
    nm.push(65);
    nm.push(82);
    proof {
        assert(nm@ =~= stbar_name());
    }
    match crate::wad::cache_lump_name(&mut state.wad, nm.as_slice()) {
        None => Err(StatusBarError::PatchMissing),
        Some(bytes) => match Patch::new(bytes.as_slice()) {
            Ok(p) => {
                state.status_bar.sbar = Some(p);
                Ok(())
            },
            Err(_) => Err(StatusBarError::PatchInvalid),
        },
    }
}

/// Composite the status-bar patch onto the first screen at the bar's
/// anchor. The patch must be loaded and must fit the screen buffer.
pub fn drawer(state: &mut crate::state::State)
    requires
        old(state).wf(),
        old(state).status_bar.sbar matches Some(p) && patch_fits(
            p,
            SCREENSIZE as int,
            SCREENWIDTH as int,
            ST_X as int,
            0,
        ),
    ensures
        final(state).wf(),
        final(state).screens@.len() == old(state).screens@.len(),
        final(state).screens@[0].buffer@ == blit_result(
            old(state).screens@[0].buffer@,
            SCREENWIDTH as int,
            ST_X as int,
            0,
            old(state).status_bar.sbar.unwrap(),
        ),
        forall|i: int|
            1 <= i < old(state).screens@.len() ==> final(state).screens@[i] == old(
                state,
            ).screens@[i],
        final(state).wad == old(state).wad,
        final(state).status_bar == old(state).status_bar,
        final(state).game_mode == old(state).game_mode,
        final(state).modified_game == old(state).modified_game,
        final(state).no_monsters == old(state).no_monsters,
        final(state).respawn == old(state).respawn,
        final(state).fast == old(state).fast,
        final(state).dev_parm == old(state).dev_parm,
        final(state).forward_move == old(state).forward_move,
        final(state).side_move == old(state).side_move,
{
    match &state.status_bar.sbar {
        Some(p) => {
            let scr = vstd::std_specs::vec::vec_index_mut(&mut state.screens, 0);
            draw_patch(&mut scr.buffer, SCREENWIDTH, ST_X as i32, 0, p);
        },
        None => {
            proof {
                assert(false);
            }
        },
    }
}

} // verus!
