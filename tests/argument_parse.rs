use mangatra::DEFAULT_PADDING;

#[test]
fn test_basic() {}

#[test]
fn default_padding_is_ten() {
    assert_eq!(DEFAULT_PADDING, 10);
}
