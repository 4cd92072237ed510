//! What the firmware decides. Pins, radio, storage and threads are the application's.

pub mod buzzer;
pub mod clock;
pub mod crash;
pub mod display;
pub mod entities;
pub mod identity;
pub mod key_table;
pub mod logger;
pub mod machine;
pub mod main_loop;
pub mod number;
pub mod ota;
pub mod portal;
pub mod promises;
pub mod readings;
pub mod seed;
pub mod settings;
pub mod steering;
pub mod ticker;
pub mod updater;
pub mod wifi;
