//! A markdown viewer's document model: the markdown parser front end, the
//! link and path rules, the HTML fragment handling, the navigation history, the
//! keyboard shortcuts and the theme palette.

pub mod bridge;
pub mod document;
pub mod events;
pub mod highlight;
pub mod html;
pub mod images;
pub mod layout;
pub mod links;
pub mod navigation;
pub mod parser;
pub mod paths;
pub mod shortcuts;
pub mod text;
pub mod style;
pub mod theme;
pub mod viewer;
