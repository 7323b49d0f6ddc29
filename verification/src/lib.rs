pub mod device;
pub mod dtype;
pub mod error;
pub mod threefry;
pub mod prng;
pub mod shape;
pub mod buffer;
pub mod cpu;
pub mod array;
pub mod ops;
pub mod primitive;
pub mod transforms;
pub mod codegen;
pub mod device_dispatch;
pub mod binding;
pub mod oneshot;
