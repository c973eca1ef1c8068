//! The verified core of a textured-model viewer: a polygon-mesh loader, a
//! bitmap font loader, text-overlay geometry, and the frame engine's
//! decisions (swapchain staleness, frame abandonment, completion-token
//! threading and uniform-slot reuse).
pub mod number;
pub mod text;
pub mod geometry;
pub mod font;
pub mod overlay;
pub mod ring;
pub mod render;
