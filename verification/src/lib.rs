//! Interactive renderer of a place's road network into a vector image.
//!
//! The crate holds the verified core of the application: polyline
//! simplification, query construction for the geocoding and road-data
//! services, layout and emission of the vector document, the cursor and
//! option models, and the panel state machine that drives the terminal
//! front end.  Network transport, terminal rendering and file output live
//! in the unverified shell around this library.

pub mod geo;
pub mod numfmt;
pub mod simplify;
pub mod state;
pub mod svg;
pub mod util;

pub use geo::NominatimEntry;
pub use geo::OsmType;
pub use util::DotsSpinner;
pub use util::WrappingList;
