use vellum::text::mask_api_key;
use vellum::text::rough_token_count;

#[test]
fn token_count_is_ceiling_of_chars_over_ratio() {
    assert_eq!(rough_token_count(""), 0);
    // ceil(10 * 2 / 37) = 1
    assert_eq!(rough_token_count("Hi"), 1);
    // ceil(10 * 11 / 37) = 3
    assert_eq!(rough_token_count("Hello there"), 3);
    // 37 characters are exactly 10 tokens
    assert_eq!(rough_token_count(&"x".repeat(37)), 10);
    assert_eq!(rough_token_count(&"x".repeat(38)), 11);
}

#[test]
fn short_keys_are_fully_masked() {
    assert_eq!(mask_api_key(""), "********");
    assert_eq!(mask_api_key("12345678"), "********");
}

#[test]
fn long_keys_keep_ends() {
    assert_eq!(mask_api_key("123456789"), "1234***6789");
    assert_eq!(mask_api_key("sk-abcdefghijklmnop"), "sk-a***mnop");
}
