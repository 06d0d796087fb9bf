//! Integer and decision logic of a recursive ray tracer: which lights reach a
//! hit point, how a surface scatters a ray, how far shading recurses, how a
//! texture is sampled, and how the image rows are shared among workers.
pub mod light;
pub mod material;
pub mod render;
pub mod scene;
pub mod texture;
