use optibridge_protocol::{FirmwareImage, check_image_size, image_flash_limit, parse_decimal, size_fields};

#[test]
fn size_report_gives_text_and_data_of_its_second_line() {
    let report = b"   text\t   data\t    bss\t    dec\t    hex\tfilename\n  20480\t    512\t   1024\t  22016\t   5600\ttarget/optibridge\n";
    assert_eq!(size_fields(report), Some((20480, 512)));
    let crlf = b"text data\r\n 7 9 \r\n";
    assert_eq!(size_fields(crlf), Some((7, 9)));
}

#[test]
fn size_report_without_two_fields_gives_nothing() {
    assert_eq!(size_fields(b"text data bss"), None);
    assert_eq!(size_fields(b"text data bss\n"), None);
    assert_eq!(size_fields(b"text data\n\n1 2\n"), None);
    assert_eq!(size_fields(b"text data\n 12 \n"), None);
    assert_eq!(size_fields(b"text data\n12 x3\n"), None);
}

#[test]
fn decimal_fields_follow_u64_parsing() {
    assert_eq!(parse_decimal(b"0"), Some(0));
    assert_eq!(parse_decimal(b"+42"), Some(42));
    assert_eq!(parse_decimal(b"+"), None);
    assert_eq!(parse_decimal(b""), None);
    assert_eq!(parse_decimal(b"-1"), None);
    assert_eq!(parse_decimal(b"18446744073709551615"), Some(u64::MAX));
    assert_eq!(parse_decimal(b"18446744073709551616"), None);
    for field in [&b"0"[..], b"+42", b"+", b"", b"-1", b"18446744073709551615", b"18446744073709551616", b"007"] {
        let text = std::str::from_utf8(field).unwrap();
        assert_eq!(parse_decimal(field), text.parse::<u64>().ok());
    }
}

#[test]
fn images_are_held_to_their_flash_limits() {
    assert_eq!(image_flash_limit(FirmwareImage::OptiBridge), 24576);
    assert_eq!(image_flash_limit(FirmwareImage::Bridge), 32768);
    assert_eq!(check_image_size(FirmwareImage::OptiBridge, 20480, 512), Ok(20992));
    assert_eq!(check_image_size(FirmwareImage::OptiBridge, 24576, 0), Ok(24576));
    assert_eq!(check_image_size(FirmwareImage::OptiBridge, 24000, 1000), Err(25000));
    assert_eq!(check_image_size(FirmwareImage::Bridge, 24000, 1000), Ok(25000));
    assert_eq!(check_image_size(FirmwareImage::Bridge, 32768, 1), Err(32769));
}
