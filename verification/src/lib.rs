//! Rendering core of a reflowable e-book reader: an arena tree filled by a
//! streaming markup parser, a paginator that slices a laid-out chapter into
//! screen-sized pages, a bounded cache of rendered chapters with page
//! navigation, and the text shaper with its glyph atlas.

pub mod active_areas;
pub mod cache;
pub mod error;
pub mod fps_calculator;
pub mod gestures;
pub mod html_parser;
pub mod layout;
pub mod library;
pub mod page;
pub mod paginator;
pub mod planner;
pub mod resource;
pub mod scribe;
pub mod sculpter;
pub mod serialize;
pub mod settings;
pub mod shelf;
pub mod toc;
pub mod tree;
pub mod worker;
