use dmi::text::{blank, classify, is_word, past_spaces, past_word, split_line, split_lines, Keyword};

fn key_and_value(line: &[u8]) -> (Vec<u8>, Vec<u8>) {
    let p = split_line(line);
    (line[p.key_start..p.key_end].to_vec(), line[p.value_start..p.value_end].to_vec())
}

#[test]
fn splits_lines_at_line_feeds() {
    assert_eq!(split_lines(b"a\nb\n"), vec![b"a".to_vec(), b"b".to_vec()]);
    assert_eq!(split_lines(b"a\n\nb"), vec![b"a".to_vec(), b"".to_vec(), b"b".to_vec()]);
    assert_eq!(split_lines(b""), Vec::<Vec<u8>>::new());
    assert_eq!(split_lines(b"\n"), vec![b"".to_vec()]);
    assert_eq!(split_lines(b"one"), vec![b"one".to_vec()]);
}

#[test]
fn carriage_return_stays_in_the_line() {
    assert_eq!(split_lines(b"a\r\nb"), vec![b"a\r".to_vec(), b"b".to_vec()]);
}

#[test]
fn finds_keyword_and_value() {
    assert_eq!(key_and_value(b"\tdirs = 4"), (b"dirs".to_vec(), b"4".to_vec()));
    assert_eq!(key_and_value(b"width = 32\r"), (b"width".to_vec(), b"32".to_vec()));
    assert_eq!(
        key_and_value(b"state = \"open door\"  "),
        (b"state".to_vec(), b"\"open door\"".to_vec())
    );
    assert_eq!(key_and_value(b"# BEGIN DMI"), (b"#".to_vec(), b"".to_vec()));
    assert_eq!(key_and_value(b"   "), (b"".to_vec(), b"".to_vec()));
    assert_eq!(key_and_value(b""), (b"".to_vec(), b"".to_vec()));
    assert_eq!(key_and_value(b"dirs ="), (b"dirs".to_vec(), b"".to_vec()));
    assert_eq!(key_and_value(b"dirs =   "), (b"dirs".to_vec(), b"".to_vec()));
    assert_eq!(key_and_value(b"dirs == 4"), (b"dirs".to_vec(), b"".to_vec()));
    assert_eq!(key_and_value(b"dirs=4"), (b"dirs=4".to_vec(), b"".to_vec()));
    assert_eq!(key_and_value(b"dirs"), (b"dirs".to_vec(), b"".to_vec()));
}

#[test]
fn knows_the_keywords() {
    let cases: Vec<(&[u8], Keyword)> = vec![
        (b"", Keyword::Blank),
        (b"#", Keyword::Comment),
        (b"Description", Keyword::Comment),
        (b"version", Keyword::Version),
        (b"width", Keyword::Width),
        (b"height", Keyword::Height),
        (b"state", Keyword::State),
        (b"dirs", Keyword::Dirs),
        (b"frames", Keyword::Frames),
        (b"delay", Keyword::Delay),
        (b"movement", Keyword::Movement),
        (b"loop", Keyword::Other),
        (b"Version", Keyword::Other),
        (b"widths", Keyword::Other),
        (b"dir", Keyword::Other),
    ];
    for (word, want) in cases {
        assert_eq!(classify(word, 0, word.len()), want);
    }
}

#[test]
fn blank_space_is_space_and_control_characters() {
    for b in 0..=255u8 {
        assert_eq!(blank(b), b == b' ' || (9..=13).contains(&b));
    }
}

#[test]
fn moves_past_spaces_and_words() {
    assert_eq!(past_spaces(b"  ab  ", 0), 2);
    assert_eq!(past_spaces(b"  ab  ", 2), 2);
    assert_eq!(past_word(b"  ab  ", 2), 4);
    assert_eq!(past_spaces(b"  ab  ", 4), 6);
    assert_eq!(past_word(b"  ab  ", 6), 6);
}

#[test]
fn compares_a_range_with_a_word() {
    assert!(is_word(b"xxdirsxx", 2, 6, "dirs"));
    assert!(!is_word(b"xxdirsxx", 2, 5, "dirs"));
    assert!(!is_word(b"xxdirsxx", 1, 5, "dirs"));
    assert!(is_word(b"", 0, 0, ""));
}
