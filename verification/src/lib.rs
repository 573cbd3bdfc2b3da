pub mod report;
pub mod stream;
pub mod text;
