pub mod bitmap;
pub mod codec;
pub mod dynamic_tick_array;
pub mod error;
pub mod fixed_tick_array;
pub mod modify_position;
pub mod packed;
pub mod tick;
pub mod tick_array;
