use store_things::text::{chars_of, string_of};

#[test]
fn chars_of_lists_every_character() {
    assert_eq!(chars_of(""), Vec::<char>::new());
    assert_eq!(chars_of("a/b"), vec!['a', '/', 'b']);
    assert_eq!(chars_of("ü~é"), vec!['ü', '~', 'é']);
}

#[test]
fn string_of_takes_a_range() {
    let chars = chars_of("photo.png");
    assert_eq!(string_of(&chars, 0, 5), "photo");
    assert_eq!(string_of(&chars, 6, 9), "png");
    assert_eq!(string_of(&chars, 4, 4), "");
    assert_eq!(string_of(&chars, 0, 9), "photo.png");
}
