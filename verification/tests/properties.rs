use binary::allocator::Allocator;
use binary::converter;
use binary::converter::Converter;
use binary::converters::little_endian_converter::LittleEndianConverter;
use binary::converters::string_converter::StringConverter;
use binary::error::Error;
use binary::generator::Generator;
use binary::interface::Converter as _;
use binary::interface::Generator as _;

#[test]
fn length_prefix_boundaries() -> Result<(), Error> {
    let cases: Vec<(usize, Vec<u8>)> = vec![
        (0, vec![0x00]),
        (127, vec![0x7F]),
        (128, vec![0x80, 0x00, 0x00, 0x80]),
        (0x7FFF_FFFF, vec![0xFF, 0xFF, 0xFF, 0xFF]),
    ];
    for (number, expected) in cases {
        let mut allocator = Allocator::new();
        converter::encode(&mut allocator, number)?;
        assert_eq!(allocator.as_slice(), expected);
        let mut span = allocator.as_slice();
        let value = converter::decode(&mut span)?;
        assert_eq!(value, number);
        assert_eq!(span.len(), 0);
    }
    Ok(())
}

#[test]
fn bare_length_value_wide_form() -> Result<(), Error> {
    let mut allocator = Allocator::new();
    converter::encode(&mut allocator, 768)?;
    assert_eq!(allocator.as_slice(), &[0x80u8, 0x00, 0x03, 0x00][..]);
    Ok(())
}

#[test]
fn growth_scenario() -> Result<(), Error> {
    let mut allocator = Allocator::new();
    allocator.append(&[0x31])?;
    assert_eq!(allocator.length(), 1);
    assert_eq!(allocator.capacity(), 256);
    assert_eq!(allocator.as_slice(), &[0x31u8][..]);

    let mut allocator = Allocator::new();
    let run = [0x31u8; 255];
    allocator.append(&run)?;
    assert_eq!(allocator.capacity(), 256);
    assert_eq!(allocator.length(), 255);

    allocator.append(&[0x31])?;
    assert_eq!(allocator.length(), 256);
    assert_eq!(allocator.capacity(), 256);

    allocator.append(&[0x31])?;
    assert_eq!(allocator.length(), 257);
    assert_eq!(allocator.capacity(), 512);
    Ok(())
}

#[test]
fn anchor_shrink_boundary() -> Result<(), Error> {
    let converter = StringConverter::new();

    let payload = "abcdefghijklmnop".to_string();
    assert_eq!(payload.len(), 16);
    let mut allocator = Allocator::new();
    converter.encode_with_length_prefix(&mut allocator, &payload)?;
    assert_eq!(allocator.length(), 17);
    let mut expected = vec![16u8];
    expected.extend_from_slice(payload.as_bytes());
    assert_eq!(allocator.as_slice(), expected);

    let payload = "abcdefghijklmnopq".to_string();
    assert_eq!(payload.len(), 17);
    let mut allocator = Allocator::new();
    converter.encode_with_length_prefix(&mut allocator, &payload)?;
    assert_eq!(allocator.length(), 21);
    let mut expected = vec![0x80u8, 0x00, 0x00, 0x11];
    expected.extend_from_slice(payload.as_bytes());
    assert_eq!(allocator.as_slice(), expected);
    Ok(())
}

#[test]
fn insufficient_data_boundary() {
    let converter = LittleEndianConverter::<i32>::new();
    let buffer = [0u8; 3];
    let mut span = &buffer[..];
    let error = converter.decode_auto(&mut span).unwrap_err();
    assert_eq!(error, Error::InsufficientData);
    assert_eq!(span.len(), 3);

    let converter = StringConverter::new();
    let buffer = [0x05u8, 0x61, 0x62];
    let mut span = &buffer[..];
    let error = converter.decode_with_length_prefix(&mut span).unwrap_err();
    assert_eq!(error, Error::InsufficientData);
    assert_eq!(span.len(), 3);
}

#[test]
fn hello_world_auto_dispatch() -> Result<(), Error> {
    let mut allocator = Allocator::new();
    let converter = StringConverter::new();
    let source = "Hello, world!".to_string();
    converter.encode_auto(&mut allocator, &source)?;
    let mut expected = vec![0x0Du8];
    expected.extend_from_slice(source.as_bytes());
    assert_eq!(allocator.as_slice(), expected);
    let mut span = allocator.as_slice();
    let actual = converter.decode_auto(&mut span)?;
    assert_eq!(actual, source);
    assert_eq!(span.len(), 0);
    Ok(())
}

#[test]
fn capacity_exceeded_on_oversized_magnitude() {
    let mut allocator = Allocator::new();
    let error = converter::encode(&mut allocator, 0x8000_0000usize).unwrap_err();
    assert_eq!(error, Error::CapacityExceeded);
    assert_eq!(error.message(), "maximum capacity has been reached.");
    assert_eq!(allocator.length(), 0);
}

#[test]
fn ensure_rejects_oversized_request() {
    let mut allocator = Allocator::new();
    let error = allocator.ensure(usize::MAX).unwrap_err();
    assert_eq!(error, Error::CapacityExceeded);
    assert_eq!(allocator.capacity(), 0);
    allocator.ensure(10).unwrap();
    assert_eq!(allocator.capacity(), 256);
    assert_eq!(allocator.length(), 0);
}

#[test]
fn insufficient_space_on_direct_encode() {
    let mut buffer = [0u8; 2];
    let mut bytes_written = 0usize;
    let error = converter::encode_direct(&mut buffer, 768, &mut bytes_written).unwrap_err();
    assert_eq!(error, Error::InsufficientSpace);
    assert_eq!(error.message(), "not enough bytes to write.");
    assert_eq!(buffer, [0u8; 2]);
}

#[test]
fn direct_encode_both_forms() -> Result<(), Error> {
    let mut buffer = [0xAAu8; 8];
    let mut bytes_written = 0usize;
    converter::encode_direct(&mut buffer, 127, &mut bytes_written)?;
    assert_eq!(bytes_written, 1);
    assert_eq!(&buffer[..1], &[0x7F]);
    converter::encode_direct(&mut buffer, 768, &mut bytes_written)?;
    assert_eq!(bytes_written, 4);
    assert_eq!(&buffer[..4], &[0x80, 0x00, 0x03, 0x00]);
    Ok(())
}

#[test]
fn generator_registry_last_wins() {
    let mut generator = Generator::new();
    assert!(generator.get_converter(7).is_none());
    let converter = LittleEndianConverter::<i32>::new();
    let key = converter.generic_argument();
    generator.add_converter(converter);
    let found = generator.get_converter(key);
    assert!(found.is_some());
    assert_eq!(found.unwrap().length(), 4);
    generator.add_converter(LittleEndianConverter::<i32>::new());
    assert!(generator.get_converter(key).is_some());
    assert!(generator.get_converter(key ^ 1).is_none());
}

#[test]
fn error_messages() {
    assert_eq!(Error::CapacityExceeded.message(), "maximum capacity has been reached.");
    assert_eq!(Error::AllocationFailed.message(), "out of memory.");
    assert_eq!(Error::InvalidAnchor.message(), "allocator has been modified unexpectedly!");
    assert_eq!(Error::InsufficientData.message(), "not enough bytes.");
    assert_eq!(Error::InsufficientSpace.message(), "not enough bytes to write.");
    assert_eq!(Error::InvalidEncoding.message(), "invalid bytes.");
}

#[test]
fn growth_keeps_written_prefix_and_invariant() -> Result<(), Error> {
    let mut allocator = Allocator::new();
    let first = b"abcdefgh".to_vec();
    allocator.append(&first)?;
    let big = [0x42u8; 300];
    allocator.append(&big)?;
    assert_eq!(&allocator.as_slice()[..8], &first[..]);
    assert_eq!(allocator.length(), 308);
    assert_eq!(allocator.capacity(), 512);
    assert!(allocator.length() <= allocator.capacity());
    assert!(allocator.capacity() <= allocator.max_capacity());
    Ok(())
}
