pub mod particles;
pub mod ensemble;
pub mod racket;
