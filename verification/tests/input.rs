use rustvent2023::input::{cache_path, decode_into, input_url, session_cookie};

#[test]
fn where_a_text_is_kept_and_fetched_from() {
    assert_eq!(cache_path("1"), "./.cache/day1.input");
    assert_eq!(cache_path("11"), "./.cache/day11.input");
    assert_eq!(input_url("2023", "1"), "https://adventofcode.com/2023/day/1/input");
    assert_eq!(session_cookie("abc"), "session=abc");
    assert_eq!(session_cookie(""), "session=");
}

#[test]
fn every_byte_is_a_character() {
    let mut text: Vec<char> = vec!['a'];
    decode_into(&mut text, &[0x62, 0xe9, 0x0a]);
    assert_eq!(text, vec!['a', 'b', '\u{e9}', '\n']);
    decode_into(&mut text, &[]);
    assert_eq!(text.len(), 4);
}
