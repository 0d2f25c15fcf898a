//! Core of an interactive image viewer: the bindings from keys to actions,
//! the dispatch of actions, the view transform model, the collection of
//! image paths, the navigation cursor over them, the choice of decoder, and the frame
//! scheduler for animated images.

pub mod binds;
pub mod view;
pub mod frames;
pub mod formats;
pub mod loader;
pub mod input;

