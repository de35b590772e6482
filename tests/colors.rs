use weesels::colors::strip_colors;

#[test]
fn test_strip_colors() {
    let inputs = [
        "\x1904foobar",
        "foo\x1901bar",
        "foo\x19F01bar",
        "foo\x19B22bar",
        "foo\x19F@12345bar",
        "foo\x19@12345,23bar",
        "foo\x19@12345,@12345bar",
        "foo\x19@12345~@12345bar",
        "foo\x19*@12345~@12345bar",
    ];
    for input in inputs.iter() {
        assert_eq!(
            String::from("foobar"),
            strip_colors(String::from(*input)),
            "Stripping colors from {:?}",
            input
        );
    }
}

#[test]
fn resets_are_dropped_and_other_text_kept() {
    assert_eq!("ab☃c", strip_colors(String::from("a\x1cb☃c")));
    assert_eq!("", strip_colors(String::new()));
}

#[test]
fn a_code_cut_short_ends_the_text() {
    assert_eq!("foo", strip_colors(String::from("foo\x19")));
    assert_eq!("foo", strip_colors(String::from("foo\x19F@12")));
}
