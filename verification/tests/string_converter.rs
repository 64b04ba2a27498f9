use binary::allocator::Allocator;
use binary::converter;
use binary::converter::Converter;
use binary::converters::string_converter::StringConverter;
use binary::error::Error;
use binary::interface::Converter as _;

fn string_base_methods_with_data(source: String, expected: &[u8]) -> Result<(), Error> {
    let mut allocator = Allocator::new();
    let converter = StringConverter::new();
    converter.encode(&mut allocator, &source)?;
    assert_eq!(allocator.length(), expected.len());
    assert_eq!(allocator.as_slice(), expected);
    let span = allocator.as_slice();
    assert_eq!(span.len(), expected.len());
    let actual = converter.decode(&span)?;
    assert_eq!(actual, source);
    Ok(())
}

fn string_auto_methods_with_data(source: String, expected: &[u8]) -> Result<(), Error> {
    let mut allocator = Allocator::new();
    let converter = StringConverter::new();
    converter.encode_auto(&mut allocator, &source)?;
    let mut bytes_expected = vec![0u8; 4];
    let mut bytes_written = 0usize;
    converter::encode_direct(&mut bytes_expected, source.len(), &mut bytes_written)?;
    bytes_expected.resize(bytes_written, 0);
    bytes_expected.extend_from_slice(expected);
    assert_eq!(allocator.length(), bytes_expected.len());
    assert_eq!(allocator.as_slice(), bytes_expected);
    let mut span = allocator.as_slice();
    let actual = converter.decode_auto(&mut span)?;
    assert_eq!(actual, source);
    assert_eq!(span.len(), 0);
    Ok(())
}

fn string_length_prefix_methods_with_data(source: String, expected: &[u8]) -> Result<(), Error> {
    let mut allocator = Allocator::new();
    let converter = StringConverter::new();
    converter.encode_with_length_prefix(&mut allocator, &source)?;
    let mut bytes_expected = vec![0u8; 4];
    let mut bytes_written = 0usize;
    converter::encode_direct(&mut bytes_expected, source.len(), &mut bytes_written)?;
    bytes_expected.resize(bytes_written, 0);
    bytes_expected.extend_from_slice(expected);
    assert_eq!(allocator.length(), bytes_expected.len());
    assert_eq!(allocator.as_slice(), bytes_expected);
    let mut span = allocator.as_slice();
    let actual = converter.decode_with_length_prefix(&mut span)?;
    assert_eq!(actual, source);
    assert_eq!(span.len(), 0);
    Ok(())
}

#[test]
fn string_converter_base_info() {
    let converter = StringConverter::new();
    assert_eq!(converter.length(), 0);
    assert_eq!(converter.generic_argument(), 9);
}

#[test]
fn string_converter_base_methods() -> Result<(), Error> {
    string_base_methods_with_data("".to_string(), "".as_bytes())?;
    string_base_methods_with_data("Hello, world!".to_string(), "Hello, world!".as_bytes())?;
    Ok(())
}

#[test]
fn string_converter_auto_methods() -> Result<(), Error> {
    string_auto_methods_with_data("".to_string(), "".as_bytes())?;
    string_auto_methods_with_data("Hello, world!".to_string(), "Hello, world!".as_bytes())?;
    Ok(())
}

#[test]
fn string_converter_length_prefix_methods() -> Result<(), Error> {
    string_length_prefix_methods_with_data("".to_string(), "".as_bytes())?;
    string_length_prefix_methods_with_data("Hello, world!".to_string(), "Hello, world!".as_bytes())?;
    Ok(())
}

#[test]
fn decode_invalid_bytes() {
    let converter = StringConverter::new();
    let buffer = [0x80u8; 1];
    let span = &buffer[..];
    let result = converter.decode(&span);
    let error = result.unwrap_err();
    assert_eq!(error, Error::InvalidEncoding);
    assert_eq!(error.message(), "invalid bytes.");
}
