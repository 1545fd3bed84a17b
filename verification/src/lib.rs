//! The logic of the LnMai host: the boundary types shared with the judgment
//! core, the touch-area names, reading the judge-area mesh and scene into
//! the triangles each area is drawn with, and the decisions the host makes
//! about its command line and its input overlays.
pub mod areas;
pub mod host;
pub mod layout;
pub mod obj;
pub mod protocol;
pub mod scene;
pub mod text;
