pub mod calendar;
pub mod calendar_sync;
pub mod command;
pub mod hash_map_vec;
