use binary::allocator::Allocator;
use binary::converter;
use binary::converter::Converter;
use binary::converters::little_endian_converter::{LittleEndianConverter, LittleEndianValue};
use binary::error::Error;

fn le_base_methods_with_data<T: LittleEndianValue + Eq + std::fmt::Debug + 'static>(
    source: T,
    expected: &[u8],
) -> Result<(), Error> {
    let mut allocator = Allocator::new();
    let converter = LittleEndianConverter::<T>::new();
    converter.encode(&mut allocator, &source)?;
    assert_eq!(allocator.length(), expected.len());
    assert_eq!(allocator.as_slice(), expected);
    let span = allocator.as_slice();
    assert_eq!(span.len(), expected.len());
    let actual = converter.decode(&span)?;
    assert_eq!(actual, source);
    Ok(())
}

fn le_auto_methods_with_data<T: LittleEndianValue + Eq + std::fmt::Debug + 'static>(
    source: T,
    expected: &[u8],
) -> Result<(), Error> {
    let mut allocator = Allocator::new();
    let converter = LittleEndianConverter::<T>::new();
    converter.encode_auto(&mut allocator, &source)?;
    assert_eq!(allocator.length(), expected.len());
    assert_eq!(allocator.as_slice(), expected);
    let mut span = allocator.as_slice();
    assert_eq!(span.len(), expected.len());
    let actual = converter.decode_auto(&mut span)?;
    assert_eq!(actual, source);
    assert_eq!(span.len(), 0);
    Ok(())
}

fn le_length_prefix_methods_with_data<T: LittleEndianValue + Eq + std::fmt::Debug + 'static>(
    source: T,
    expected: &[u8],
) -> Result<(), Error> {
    let mut allocator = Allocator::new();
    let converter = LittleEndianConverter::<T>::new();
    converter.encode_with_length_prefix(&mut allocator, &source)?;
    let mut bytes_expected = vec![0u8; 4];
    let mut bytes_written = 0usize;
    converter::encode_direct(&mut bytes_expected, std::mem::size_of::<T>(), &mut bytes_written)?;
    bytes_expected.resize(bytes_written, 0);
    bytes_expected.extend_from_slice(expected);
    assert_eq!(allocator.length(), bytes_expected.len());
    assert_eq!(allocator.as_slice(), bytes_expected);
    let mut span = allocator.as_slice();
    let actual = converter.decode_with_length_prefix(&mut span)?;
    assert_eq!(actual, source);
    assert_eq!(span.len(), 0);
    Ok(())
}

#[test]
fn little_endian_converter_base_methods() -> Result<(), Error> {
    le_base_methods_with_data(0x7Fi8, &0x7Fi8.to_le_bytes())?;
    le_base_methods_with_data(0x1234i16, &0x1234i16.to_le_bytes())?;
    le_base_methods_with_data(0x12345678i32, &0x12345678i32.to_le_bytes())?;
    le_base_methods_with_data(0x1234567890ABCDEFi64, &0x1234567890ABCDEFi64.to_le_bytes())?;
    Ok(())
}

#[test]
fn little_endian_converter_auto_methods() -> Result<(), Error> {
    le_auto_methods_with_data(0x7Fi8, &0x7Fi8.to_le_bytes())?;
    le_auto_methods_with_data(0x1234i16, &0x1234i16.to_le_bytes())?;
    le_auto_methods_with_data(0x12345678i32, &0x12345678i32.to_le_bytes())?;
    le_auto_methods_with_data(0x1234567890ABCDEFi64, &0x1234567890ABCDEFi64.to_le_bytes())?;
    Ok(())
}

#[test]
fn little_endian_converter_length_prefix_methods() -> Result<(), Error> {
    le_length_prefix_methods_with_data(0x7Fi8, &0x7Fi8.to_le_bytes())?;
    le_length_prefix_methods_with_data(0x1234i16, &0x1234i16.to_le_bytes())?;
    le_length_prefix_methods_with_data(0x12345678i32, &0x12345678i32.to_le_bytes())?;
    le_length_prefix_methods_with_data(0x1234567890ABCDEFi64, &0x1234567890ABCDEFi64.to_le_bytes())?;
    Ok(())
}

#[test]
fn decode_not_enough_bytes() {
    let converter = LittleEndianConverter::<u16>::new();
    let buffer = [0u8; 1];
    let span = &buffer[..];
    let result = converter.decode(&span);
    let error = result.unwrap_err();
    assert_eq!(error, Error::InsufficientData);
    assert_eq!(error.message(), "not enough bytes.");
}
