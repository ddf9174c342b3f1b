pub mod analysis;

pub use analysis::Analysis;
