//! Retention sweep for intermediate CAD/CAM interchange (DXF) files.
//!
//! A shared job-tree file server accumulates `.dxf` files that serve as a
//! hand-off between two CAD/CAM tools. Once a `.dxf` has been imported, a
//! companion `.log` file with the same base name marks it as produced by the
//! authoritative export pipeline, and after a fixed retention window the pair
//! may be removed.
//!
//! The library holds the whole decision logic of that sweep, verified:
//!
//! - [`paths`]: the structural pattern on path segments (a directory named
//!   `DXF` somewhere beneath a `Fab` segment), the `.dxf` file-name test, and
//!   the `.log` sibling of a `.dxf` path;
//! - [`model`]: a snapshot of the tree as a flat listing of entries (path
//!   segments, directory flag, seconds since last modification), and the
//!   specification of pruning, candidate selection, paired deletion and the
//!   success count over such a listing;
//! - [`sweep`]: the executable sweep over a listing — candidate directories,
//!   the deletion plan, the count of fully successful pairs, and the listing
//!   that remains — each proved against the model;
//! - [`laws`]: the properties the sweep obeys (age pruning, deletion pairing,
//!   no premature deletion, idempotent convergence), stated and proved.
//!
//! Reading and changing the real filesystem is left to a thin unverified
//! shell: it builds the listing, asks this library what to remove, performs
//! the removals and reports the count.
//!
//! Known risk, kept deliberately: eligibility is decided by directory
//! modification times alone. A `.dxf` file freshly written into a directory
//! that itself passed the age check is removed like any other.

pub mod laws;
pub mod model;
pub mod paths;
pub mod sweep;
