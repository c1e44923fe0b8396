use omegawhisper::json::saved_answer;

#[test]
fn the_answer_names_the_file() {
    assert_eq!(saved_answer("/home/me/a.wav"), "{\"filePath\":\"/home/me/a.wav\"}");
    assert_eq!(saved_answer(""), "{\"filePath\":\"\"}");
}

#[test]
fn special_characters_are_escaped() {
    assert_eq!(
        saved_answer("a\"b\\c\n\r\t\u{8}\u{c}\u{1}\u{1f}\u{7f}é/"),
        "{\"filePath\":\"a\\\"b\\\\c\\n\\r\\t\\b\\f\\u0001\\u001f\u{7f}é/\"}"
    );
}
