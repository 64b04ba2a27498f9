pub mod allocator;
pub mod converter;
pub mod converters;
pub mod error;
pub mod generator;
pub mod interface;
pub mod length;

pub use interface::Converter;
pub use interface::Generator;
