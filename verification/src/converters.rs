pub mod collection_converter;
pub mod little_endian_converter;
pub mod string_converter;
