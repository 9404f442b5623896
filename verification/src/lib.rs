pub mod board;
pub mod game;
pub mod puyo_pair;

pub use board::Board;
pub use game::Game;
pub use game::GameMode;
pub use game::Inputs;
pub use puyo_pair::PuyoPair;
pub use board::Cell;
pub use board::PuyoColor;
