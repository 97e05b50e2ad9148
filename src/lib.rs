pub mod features;
pub mod profile;
pub mod text_score;
pub mod weight_map;
