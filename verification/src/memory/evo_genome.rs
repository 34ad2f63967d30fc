pub mod aakk_encoder;
pub mod semantic_clusterer;
pub mod wing_manager;

pub use aakk_encoder::AAKEncoder;
pub use semantic_clusterer::SemanticClusterer;
pub use wing_manager::WingManager;
