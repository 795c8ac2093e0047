pub mod teltonika;
pub mod utils;
