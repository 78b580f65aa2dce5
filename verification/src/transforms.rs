pub mod flate;
pub mod image;
pub mod lzma;
pub mod pdf;
pub mod unicode;
pub mod wav;
