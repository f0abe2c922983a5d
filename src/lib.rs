//! Coordination layer for a tiled display: the layout of a large canvas over
//! a cluster of machines, the choice of the tile each process draws, the
//! geometry of its window and camera, and the per-frame barrier decisions.
pub mod barrier;
pub mod document;
pub mod layout;
pub mod loader;
pub mod number;
pub mod plugin;
pub mod sync;
pub mod viewport;
pub mod xml;

pub use barrier::{
    barrier_outcome, busy_barrier_step, unsynchronized_barrier, BarrierError, LocalBarrier,
    PollAction, FRAME_BARRIER_TIMEOUT_MS,
};
pub use layout::{Machine, MachineView, StereoChannel, Tile, TileView, TiledDisplay, TiledDisplayView};
pub use loader::{load_str, parse_events, Field, LoadError, SchemaFault};
pub use plugin::TiledDisplayPlugin;
pub use sync::{attachment, Attachment, MpiMeta, MpiPlugin, MpiSync, SyncBackends};
pub use viewport::{reanchor, sub_view, unanchor, window_geometry, Length, OverlayNode, SubView, WindowGeometry};
pub use xml::XmlEvent;
