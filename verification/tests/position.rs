use nil::position::byte_col;
use nil::position::utf16_col;

#[test]
fn columns_of_plain_text_are_the_same_in_both_counts() {
    for col in 0..=5u32 {
        assert_eq!(byte_col("a = 1", col), Some(col as usize));
        assert_eq!(utf16_col("a = 1", col), Some(col as usize));
    }
    assert_eq!(byte_col("a = 1", 6), None);
    assert_eq!(utf16_col("a = 1", 6), None);
    assert_eq!(byte_col("", 0), Some(0));
    assert_eq!(utf16_col("", 0), Some(0));
    assert_eq!(byte_col("", 1), None);
}

#[test]
fn columns_of_wide_characters() {
    // a: 1 byte, 1 unit; é: 2 bytes, 1 unit; 中: 3 bytes, 1 unit; 𝄞: 4 bytes, 2 units.
    let line = "aé中𝄞b";
    let pairs = [(0, 0), (1, 1), (2, 3), (3, 6), (5, 10), (6, 11)];
    for (units, bytes) in pairs {
        assert_eq!(byte_col(line, units), Some(bytes as usize), "{}", units);
        assert_eq!(utf16_col(line, bytes), Some(units as usize), "{}", bytes);
    }
    assert_eq!(byte_col(line, 4), None);
    assert_eq!(byte_col(line, 7), None);
    for bytes in [2, 4, 5, 7, 8, 9, 12] {
        assert_eq!(utf16_col(line, bytes), None, "{}", bytes);
    }
}

#[test]
fn columns_there_and_back() {
    let line = "x = \"𝄞é\"; # 中文";
    for units in 0..40u32 {
        if let Some(bytes) = byte_col(line, units) {
            assert_eq!(utf16_col(line, bytes as u32), Some(units as usize));
            assert!(line.is_char_boundary(bytes));
            assert_eq!(line[..bytes].encode_utf16().count(), units as usize);
        }
    }
}
