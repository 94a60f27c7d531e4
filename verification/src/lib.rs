pub mod field;
pub mod lemmas;
pub mod pixel;
pub mod tetromino;

pub use field::Field;
pub use pixel::Pixel;
pub use tetromino::Tetromino;
pub use tetromino::TetrominoType;
