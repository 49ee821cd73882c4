pub mod answer;
pub mod circuit;
pub mod craig;
pub mod ghash;
pub mod lit;
pub mod model;
pub mod itp;
pub mod laws;
