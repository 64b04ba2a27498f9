use binary::allocator::Allocator;
use binary::converter::Converter;
use binary::converters::collection_converter::{CollectionConverter, COLLECTION_KEY_FLAG};
use binary::converters::little_endian_converter::LittleEndianConverter;
use binary::converters::string_converter::StringConverter;
use binary::error::Error;
use binary::interface::Converter as _;

#[test]
fn collection_converter_base_info() {
    let element = LittleEndianConverter::<i32>::new();
    let element_key = element.generic_argument();
    let converter = CollectionConverter::<i32, _>::new(element);
    assert_eq!(converter.length(), 0);
    assert_eq!(converter.generic_argument(), element_key ^ COLLECTION_KEY_FLAG);

    let element = StringConverter::new();
    let element_key = element.generic_argument();
    let converter = CollectionConverter::<String, _>::new(element);
    assert_eq!(converter.length(), 0);
    assert_eq!(converter.generic_argument(), element_key ^ COLLECTION_KEY_FLAG);
}

#[test]
fn collection_converter_base_methods() -> Result<(), Error> {
    let converter = CollectionConverter::<i32, _>::new(LittleEndianConverter::<i32>::new());
    let item: Vec<i32> = vec![1, 2, 3];
    let mut allocator = Allocator::new();
    converter.encode(&mut allocator, &item)?;
    let span = allocator.as_slice();
    let actual = converter.decode(&span)?;
    assert_eq!(actual, item);

    let converter = CollectionConverter::<String, _>::new(StringConverter::new());
    let item: Vec<String> = vec!["Alpha".to_string(), "Bravo".to_string()];
    let mut allocator = Allocator::new();
    converter.encode(&mut allocator, &item)?;
    let span = allocator.as_slice();
    let actual = converter.decode(&span)?;
    assert_eq!(actual, item);
    Ok(())
}

#[test]
fn collection_converter_auto_methods() -> Result<(), Error> {
    let converter = CollectionConverter::<String, _>::new(StringConverter::new());
    let item: Vec<String> = vec!["Alpha".to_string(), "Bravo".to_string()];
    let mut allocator = Allocator::new();
    converter.encode_auto(&mut allocator, &item)?;
    let expected: Vec<u8> = vec![
        12, 5, 0x41, 0x6C, 0x70, 0x68, 0x61, 5, 0x42, 0x72, 0x61, 0x76, 0x6F,
    ];
    assert_eq!(allocator.length(), expected.len());
    assert_eq!(allocator.as_slice(), expected);
    let mut span = allocator.as_slice();
    let actual = converter.decode_auto(&mut span)?;
    assert_eq!(actual, item);
    assert_eq!(span.len(), 0);
    Ok(())
}

#[test]
fn collection_converter_nested_collections() -> Result<(), Error> {
    let inner = CollectionConverter::<i32, _>::new(LittleEndianConverter::<i32>::new());
    let converter = CollectionConverter::<Vec<i32>, _>::new(inner);
    let item: Vec<Vec<i32>> = vec![vec![1, 2], vec![], vec![3]];
    let mut allocator = Allocator::new();
    converter.encode(&mut allocator, &item)?;
    let span = allocator.as_slice();
    let actual = converter.decode(&span)?;
    assert_eq!(actual, item);
    Ok(())
}

#[test]
fn collection_converter_propagates_element_error() {
    let converter = CollectionConverter::<String, _>::new(StringConverter::new());
    let buffer = [0x01u8, 0x80];
    let span = &buffer[..];
    let error = converter.decode(&span).unwrap_err();
    assert_eq!(error, Error::InvalidEncoding);
}
