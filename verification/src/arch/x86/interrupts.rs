pub mod lock;
