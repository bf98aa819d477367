//! A markdown viewer's core: layout of styled text, rendering of markdown
//! events into terminal lines, and the state of the pager that shows them.

pub mod args;
pub mod asking;
pub mod blocks;
pub mod branches;
pub mod cells;
pub mod coding;
pub mod config;
pub mod diagram;
pub mod drawing;
pub mod dump;
pub mod dumping;
pub mod elements;
pub mod event;
pub mod finding;
pub mod flowing;
pub mod following;
pub mod geometry;
pub mod highlight;
pub mod images;
pub mod index;
pub mod invariants;
pub mod kitty;
pub mod looks;
pub mod memo;
pub mod moving;
pub mod nesting;
pub mod numbers;
pub mod order;
pub mod pager;
pub mod pager_laws;
pub mod pager_view;
pub mod painting;
pub mod paragraphs;
pub mod paths;
pub mod picturing;
pub mod prose;
pub mod reaching;
pub mod render;
pub mod resolving;
pub mod rewrap;
pub mod screen;
pub mod search;
pub mod slug;
pub mod state;
pub mod strings;
pub mod table;
pub mod tabling;
pub mod telling;
pub mod text;
pub mod tree;
pub mod walks;
pub mod width;
pub mod words;
pub mod wrap;
