mod bytes;
pub mod engine;
pub mod error;
pub mod font;
pub mod gen_vec;
pub mod image;
pub mod math;
pub mod mesh;
pub mod os;
pub mod packer;
pub mod renderer;
pub mod rhi;
