use bin2hpp::format_as_binary;

/// Reads an initialiser list back: the values of the literals between the
/// commas.
fn read_list(text: &str) -> Vec<u8> {
    if text.is_empty() {
        return Vec::new();
    }
    text.split(',')
        .map(|item| {
            assert!(item.starts_with("0x"), "no hexadecimal literal: {:?}", item);
            u8::from_str_radix(&item[2..], 16).unwrap()
        })
        .collect()
}

#[test]
fn binary_of_nothing_is_empty() {
    assert_eq!(format_as_binary(&[]), "");
}

#[test]
fn binary_of_one_byte_has_no_comma() {
    assert_eq!(format_as_binary(&[0x41]), "0x41");
}

#[test]
fn binary_of_two_bytes_has_one_comma() {
    let text = format_as_binary(&[0x00, 0xFF]);
    assert_eq!(text, "0x0,0xff");
    assert_eq!(text.matches(',').count(), 1);
    assert!(!text.ends_with(','));
}

#[test]
fn binary_literals_have_no_leading_zeros() {
    assert_eq!(format_as_binary(&[0, 1, 9, 10, 15, 16, 17, 127, 128, 254, 255]),
        "0x0,0x1,0x9,0xa,0xf,0x10,0x11,0x7f,0x80,0xfe,0xff");
}

#[test]
fn binary_literals_are_lower_case() {
    assert_eq!(format_as_binary(&[0xAB, 0xCD, 0xEF]), "0xab,0xcd,0xef");
}

#[test]
fn binary_agrees_with_std_formatting() {
    for b in 0..=255u8 {
        assert_eq!(format_as_binary(&[b]), format!("{:#x}", b));
    }
}

#[test]
fn binary_reads_back_every_byte() {
    let all: Vec<u8> = (0..=255u8).collect();
    assert_eq!(read_list(&format_as_binary(&all)), all);
}

#[test]
fn binary_reads_back_repeated_and_reversed_bytes() {
    let mut data: Vec<u8> = (0..=255u8).rev().collect();
    data.extend_from_slice(&[0, 0, 0, 255, 255, 16, 16]);
    let text = format_as_binary(&data);
    assert_eq!(read_list(&text), data);
    assert_eq!(text.matches(',').count(), data.len() - 1);
}

#[test]
fn binary_reads_back_nothing() {
    assert_eq!(read_list(&format_as_binary(&[])), Vec::<u8>::new());
}
