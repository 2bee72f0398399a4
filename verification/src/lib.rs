//! Verified core of an escape-time fractal engine: render window geometry,
//! fractal configuration, the key-frame animation tracks, and the bookkeeping of
//! the autofocus search. Floating-point quantities are carried as their IEEE-754
//! bit patterns, so ordering and validation rules on them are proved exactly.

pub mod float_bits;
pub mod window;
pub mod key_time;
pub mod key_frame;
pub mod interpol_value;
pub mod animation;
pub mod focal_point;
pub mod fractal_config;
pub mod focal_system;
