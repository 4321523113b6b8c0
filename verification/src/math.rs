pub mod vec2i;
