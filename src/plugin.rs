//! The plugin settings of a process: its layout file, its identity, its
//! synchronisation backend, and the choice of the tile it draws.
use vstd::prelude::*;

use crate::layout::{Tile, TileView, TiledDisplay, TiledDisplayView};
use crate::barrier::BarrierError;
use crate::sync::{choose_sync, sync_choice, MpiSync, SyncBackends};

verus! {

/// The first tile of the first machine whose identity is `id`, if any.
pub open spec fn selected_tile(td: TiledDisplayView, id: Seq<char>) -> Option<TileView> {
    if exists|i: int| 0 <= i < td.machines.len() && td.machines[i].identity == id {
        let i = choose|i: int|
            0 <= i < td.machines.len() && td.machines[i].identity == id && forall|j: int|
                0 <= j < i ==> td.machines[j].identity != id;
        if td.machines[i].tiles.len() > 0 {
            Some(td.machines[i].tiles[0])
        } else {
            None
        }
    } else {
        None
    }
}

/// When exactly one machine has identity `id`, the selection is that
/// machine's first tile, or nothing when it has no tile.
pub proof fn lemma_unique_identity_selects_its_first_tile(td: TiledDisplayView, id: Seq<char>, i: int)
    requires
        0 <= i < td.machines.len(),
        td.machines[i].identity == id,
        forall|j: int| 0 <= j < td.machines.len() && j != i ==> td.machines[j].identity != id,
    ensures
        selected_tile(td, id) == (if td.machines[i].tiles.len() > 0 {
            Some(td.machines[i].tiles[0])
        } else {
            None
        }),
{
    let k = choose|k: int|
        0 <= k < td.machines.len() && td.machines[k].identity == id && forall|j: int|
            0 <= j < k ==> td.machines[j].identity != id;
    assert(0 <= k < td.machines.len() && td.machines[k].identity == id);
}

/// When no machine has identity `id`, nothing is selected.
pub proof fn lemma_unknown_identity_selects_nothing(td: TiledDisplayView, id: Seq<char>)
    requires
        forall|j: int| 0 <= j < td.machines.len() ==> td.machines[j].identity != id,
    ensures
        selected_tile(td, id) is None,
{
}

/// Exact comparison of two strings, character by character.
pub fn str_eq(a: &str, b: &str) -> (r: bool)
    ensures
        r == (a@ == b@),
{
    let n = a.unicode_len();
    if n != b.unicode_len() {
        return false;
    }
    let mut i: usize = 0;
    while i < n
        invariant
            n == a@.len(),
            n == b@.len(),
            i <= n,
            a@.subrange(0, i as int) == b@.subrange(0, i as int),
        decreases n - i,
    {
        if a.get_char(i) != b.get_char(i) {
            assert(a@[i as int] != b@[i as int]);
            return false;
        }
        assert(a@.subrange(0, i + 1) == a@.subrange(0, i as int).push(a@[i as int]));
        assert(b@.subrange(0, i + 1) == b@.subrange(0, i as int).push(b@[i as int]));
        i = i + 1;
    }
    assert(a@ == a@.subrange(0, n as int));
    assert(b@ == b@.subrange(0, n as int));
    true
}

/// Relies on hostname::get and OsString::into_string: the machine's host
/// name, where it can be read and is valid Unicode.
#[verifier::external_body]
fn read_host_name() -> (r: Option<String>) {
    hostname::get().ok().and_then(|h| h.into_string().ok())
}

/// Settings of the tiled display for one process.
pub struct TiledDisplayPlugin {
    /// Path to the layout file.
    pub config: String,
    /// Identity of this machine in the layout.
    pub identity: String,
    /// Which synchronisation backend coordinates the frames.
    pub sync: SyncBackends,
}

impl Default for TiledDisplayPlugin {
    fn default() -> (r: TiledDisplayPlugin)
        ensures
            r.config@ == Seq::<char>::empty(),
            r.sync == SyncBackends::Auto,
    {
        TiledDisplayPlugin {
            config: String::new(),
            identity: TiledDisplayPlugin::hostname(),
            sync: SyncBackends::Auto,
        }
    }
}

impl TiledDisplayPlugin {
    /// The machine's host name, or the empty string where it cannot be read.
    pub fn hostname() -> (r: String) {
        Self::identity_or_empty(read_host_name())
    }

    /// The host name where one was read, else the empty string.
    pub fn identity_or_empty(host: Option<String>) -> (r: String)
        ensures
            r@ == match host {
                Some(h) => h@,
                None => Seq::<char>::empty(),
            },
    {
        match host {
            Some(h) => h,
            None => String::new(),
        }
    }

    /// The synchronisation backend for these settings, given whether the
    /// collective environment is available.
    pub fn select_sync(&self, available: bool) -> (r: Result<Option<MpiSync>, BarrierError>)
        ensures
            r == sync_choice(self.sync, available),
    {
        choose_sync(self.sync, available)
    }

    /// Finds the first machine whose identity is `identity` and returns a
    /// copy of its first tile; `None` when no machine matches or the match
    /// has no tile.
    pub fn select_tile(tiled_display: &TiledDisplay, identity: &str) -> (r: Option<Tile>)
        ensures
            match (r, selected_tile(tiled_display@, identity@)) {
                (Some(t), Some(v)) => t@ == v,
                (None, None) => true,
                _ => false,
            },
    {
        let machines = &tiled_display.machines;
        let ghost td = tiled_display@;
        let mut i: usize = 0;
        while i < machines.len()
            invariant
                td == tiled_display@,
                machines == &tiled_display.machines,
                i <= machines.len(),
                forall|j: int| 0 <= j < i ==> td.machines[j].identity != identity@,
            decreases machines.len() - i,
        {
            assert(td.machines[i as int] == machines[i as int]@);
            if str_eq(machines[i].identity.as_str(), identity) {
                let m = &machines[i];
                assert(td.machines[i as int].identity == identity@);
                let ghost k = choose|k: int|
                    0 <= k < td.machines.len() && td.machines[k].identity == identity@
                        && forall|j: int| 0 <= j < k ==> td.machines[j].identity != identity@;
                assert(k == i) by {
                    if k < i {
                    } else if k > i {
                        assert(td.machines[i as int].identity == identity@);
                    }
                }
                if m.tiles.len() > 0 {
                    let t = m.tiles[0].clone();
                    assert(td.machines[i as int].tiles[0] == m.tiles[0]@);
                    return Some(t);
                } else {
                    return None;
                }
            }
            i = i + 1;
        }
        None
    }
}

} // verus!
