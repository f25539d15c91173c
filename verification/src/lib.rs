//! The rules of a small falling-block game played on a board of ten rows and
//! five columns, together with the shape catalog it draws its pieces from.

pub mod board;
pub mod cell;
pub mod format;
pub mod game;
pub mod menu;
pub mod model;
pub mod piece;
mod random;
pub mod tshape;

pub use cell::Direction;
pub use cell::Position;
pub use game::Game;
pub use game::Score;
pub use game::Settings;
pub use game::Tick;
pub use menu::Action;
pub use menu::Config;
pub use menu::Label;
pub use menu::Menu;
pub use model::Cell;
pub use model::Key;
pub use tshape::ParseError;
pub use tshape::TShape;
