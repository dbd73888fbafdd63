use dmi::error::DmiError;
use dmi::metadata::{Header, IconMetaData};
use dmi::number::Decimal;
use dmi::render::state_lines;
use dmi::state::{report, Fault, IconState};
use dmi::text::split_lines;

fn dec(units: u32) -> Decimal {
    Decimal { units, fraction: 0, fraction_digits: 0 }
}

fn malformed(line_number: usize, line: &[u8]) -> DmiError {
    DmiError::MalformedMetadata { line_number, line: line.to_vec() }
}

fn invalid(line_number: usize, line: &[u8]) -> DmiError {
    DmiError::ValidationError { line_number, line: line.to_vec() }
}

fn render_state(s: &IconState) -> Vec<u8> {
    state_lines(s).join(&b'\n')
}

fn same_state(a: &IconState, b: &IconState) -> bool {
    a.state_name() == b.state_name()
        && a.number_of_dirs() == b.number_of_dirs()
        && a.number_of_frames() == b.number_of_frames()
        && a.delays() == b.delays()
        && a.moving() == b.moving()
}

#[test]
fn one_idle_state() {
    let text = b"version = 4.0\nwidth = 32\nheight = 32\nstate = \"idle\"\ndirs = 4\nframes = 1\n";
    let doc = IconMetaData::new(text).unwrap();
    assert_eq!(doc.version, Decimal { units: 4, fraction: 0, fraction_digits: 1 });
    assert_eq!(doc.width, 32);
    assert_eq!(doc.height, 32);
    assert_eq!(doc.icon_states.len(), 1);
    let s = &doc.icon_states[0];
    assert_eq!(s.state_name(), &b"idle".to_vec());
    assert_eq!(s.number_of_dirs(), 4);
    assert_eq!(s.number_of_frames(), 1);
    assert_eq!(s.delays(), &vec![dec(1)]);
    assert!(!s.moving());
}

#[test]
fn short_delay_list_is_padded_with_its_last_value() {
    let doc = IconMetaData::new(b"state = \"a\"\nframes = 3\ndelay = 2\n").unwrap();
    assert_eq!(doc.icon_states[0].delays(), &vec![dec(2), dec(2), dec(2)]);
    let doc = IconMetaData::new(b"state = \"a\"\nframes = 4\ndelay = 1,5\n").unwrap();
    assert_eq!(doc.icon_states[0].delays(), &vec![dec(1), dec(5), dec(5), dec(5)]);
}

#[test]
fn padding_does_not_depend_on_line_order() {
    let doc = IconMetaData::new(b"state = \"a\"\ndelay = 2\nframes = 3\n").unwrap();
    assert_eq!(doc.icon_states[0].delays(), &vec![dec(2), dec(2), dec(2)]);
}

#[test]
fn long_delay_list_is_cut() {
    let doc = IconMetaData::new(b"state = \"a\"\nframes = 2\ndelay = 1,2,3,4\n").unwrap();
    assert_eq!(doc.icon_states[0].delays(), &vec![dec(1), dec(2)]);
}

#[test]
fn missing_delays_are_one_per_frame() {
    let doc = IconMetaData::new(b"state = \"a\"\nframes = 3\n").unwrap();
    assert_eq!(doc.icon_states[0].delays(), &vec![dec(1), dec(1), dec(1)]);
}

#[test]
fn fractional_delays_keep_their_digits() {
    let doc = IconMetaData::new(b"state = \"a\"\nframes = 2\ndelay = 0.5,1.25\n").unwrap();
    assert_eq!(
        doc.icon_states[0].delays(),
        &vec![
            Decimal { units: 0, fraction: 5, fraction_digits: 1 },
            Decimal { units: 1, fraction: 25, fraction_digits: 2 }
        ]
    );
}

#[test]
fn three_directions_are_invalid() {
    let r = IconMetaData::new(b"width = 32\nstate = \"a\"\n\tdirs = 3\n");
    assert_eq!(r.err(), Some(invalid(3, b"\tdirs = 3")));
}

#[test]
fn allowed_direction_counts() {
    for d in [1u32, 4, 8] {
        let text = format!("state = \"a\"\ndirs = {}\n", d);
        let doc = IconMetaData::new(text.as_bytes()).unwrap();
        assert_eq!(doc.icon_states[0].number_of_dirs(), d);
    }
    for d in [0u32, 2, 3, 5, 6, 7, 9, 16] {
        let text = format!("state = \"a\"\ndirs = {}\n", d);
        let line = format!("dirs = {}", d);
        assert_eq!(IconMetaData::new(text.as_bytes()).err(), Some(invalid(2, line.as_bytes())));
    }
}

#[test]
fn zero_frames_are_invalid() {
    let r = IconMetaData::new(b"state = \"a\"\nframes = 0\n");
    assert_eq!(r.err(), Some(invalid(2, b"frames = 0")));
}

#[test]
fn header_only_document_has_no_states() {
    let doc = IconMetaData::new(b"# BEGIN DMI\nversion = 4.0\n\twidth = 48\n\theight = 16\n").unwrap();
    assert_eq!(doc.version, Decimal { units: 4, fraction: 0, fraction_digits: 1 });
    assert_eq!((doc.width, doc.height), (48, 16));
    assert!(doc.icon_states.is_empty());
}

#[test]
fn empty_document_is_all_zero() {
    let doc = IconMetaData::new(b"").unwrap();
    assert_eq!(doc.version, dec(0));
    assert_eq!((doc.width, doc.height), (0, 0));
    assert!(doc.icon_states.is_empty());
}

#[test]
fn other_versions_are_kept() {
    let doc = IconMetaData::new(b"version = 5.12\n").unwrap();
    assert_eq!(doc.version, Decimal { units: 5, fraction: 12, fraction_digits: 2 });
}

#[test]
fn header_order_does_not_matter() {
    let lines = ["version = 4.0", "width = 32", "height = 64"];
    let orders = [[0, 1, 2], [0, 2, 1], [1, 0, 2], [1, 2, 0], [2, 0, 1], [2, 1, 0]];
    for o in orders {
        let text = format!("{}\n{}\n{}\n", lines[o[0]], lines[o[1]], lines[o[2]]);
        let doc = IconMetaData::new(text.as_bytes()).unwrap();
        assert_eq!(doc.version, Decimal { units: 4, fraction: 0, fraction_digits: 1 });
        assert_eq!((doc.width, doc.height), (32, 64));
    }
}

#[test]
fn states_come_in_document_order() {
    let mut text = String::from("version = 4.0\nwidth = 32\nheight = 32\n");
    let names = ["", "walk", "run", "open door", "walk"];
    for (k, n) in names.iter().enumerate() {
        text.push_str(&format!("state = \"{}\"\n\tframes = {}\n", n, k + 1));
    }
    let doc = IconMetaData::new(text.as_bytes()).unwrap();
    assert_eq!(doc.icon_states.len(), names.len());
    for (k, n) in names.iter().enumerate() {
        assert_eq!(doc.icon_states[k].state_name(), &n.as_bytes().to_vec());
        assert_eq!(doc.icon_states[k].number_of_frames(), k as u32 + 1);
        assert_eq!(doc.icon_states[k].delays().len(), k + 1);
    }
}

#[test]
fn rendering_and_parsing_again_gives_the_same_state() {
    let text = b"state = \"spin\"\n\tdirs = 8\n\tframes = 3\n\tdelay = 1.5,2\n\tmovement = 1\nstate = \"\"\nstate = \"a b\"\n\tframes = 2\n\tdelay = 0.05,10.500\n";
    let doc = IconMetaData::new(text).unwrap();
    assert_eq!(doc.icon_states.len(), 3);
    for s in &doc.icon_states {
        let (alone, next) = IconState::parse_icon_state(&state_lines(s), 0).unwrap();
        assert_eq!(next, 5);
        assert!(same_state(s, &alone));
        let again = IconMetaData::new(&render_state(s)).unwrap();
        assert_eq!(again.icon_states.len(), 1);
        assert!(same_state(s, &again.icon_states[0]));
    }
    assert_eq!(
        doc.icon_states[0].delays(),
        &vec![
            Decimal { units: 1, fraction: 5, fraction_digits: 1 },
            dec(2),
            dec(2)
        ]
    );
}

#[test]
fn a_real_block() {
    let text = b"# BEGIN DMI\nversion = 4.0\n\twidth = 32\n\theight = 32\nstate = \"door\"\n\tdirs = 1\n\tframes = 2\n\tdelay = 1,3\n\tloop = 1\n\trewind = 0\nstate = \"door\"\n\tdirs = 4\n\tframes = 1\n\tmovement = 1\n# END DMI\n";
    let doc = IconMetaData::new(text).unwrap();
    assert_eq!(doc.icon_states.len(), 2);
    assert_eq!(doc.icon_states[0].delays(), &vec![dec(1), dec(3)]);
    assert!(!doc.icon_states[0].moving());
    assert!(doc.icon_states[1].moving());
    assert_eq!(doc.icon_states[1].number_of_dirs(), 4);
    assert_eq!(doc.icon_states[1].delays(), &vec![dec(1)]);
}

#[test]
fn carriage_returns_are_blank_space() {
    let doc = IconMetaData::new(b"version = 4.0\r\nwidth = 8\r\nstate = \"a\"\r\n\tdirs = 4\r\n").unwrap();
    assert_eq!(doc.width, 8);
    assert_eq!(doc.icon_states[0].state_name(), &b"a".to_vec());
    assert_eq!(doc.icon_states[0].number_of_dirs(), 4);
}

#[test]
fn description_line_is_skipped() {
    let doc = IconMetaData::new(b"Description\n# BEGIN DMI\n\nwidth = 3\n").unwrap();
    assert_eq!(doc.width, 3);
}

#[test]
fn unknown_header_keyword_is_malformed() {
    let r = IconMetaData::new(b"version = 4.0\ncolour = 3\n");
    assert_eq!(r.err(), Some(malformed(2, b"colour = 3")));
    let r = IconMetaData::new(b"dirs = 4\n");
    assert_eq!(r.err(), Some(malformed(1, b"dirs = 4")));
}

#[test]
fn header_keyword_inside_a_block_is_malformed() {
    let r = IconMetaData::new(b"state = \"a\"\nwidth = 32\n");
    assert_eq!(r.err(), Some(malformed(2, b"width = 32")));
}

#[test]
fn unknown_keyword_inside_a_block_is_ignored() {
    let doc = IconMetaData::new(b"state = \"a\"\nhotspot = 1,2,3\nrewind\n").unwrap();
    assert_eq!(doc.icon_states.len(), 1);
    assert_eq!(doc.icon_states[0].number_of_frames(), 1);
}

#[test]
fn malformed_literals_are_reported() {
    assert_eq!(IconMetaData::new(b"width = abc\n").err(), Some(malformed(1, b"width = abc")));
    assert_eq!(IconMetaData::new(b"width = 32 33\n").err(), Some(malformed(1, b"width = 32 33")));
    assert_eq!(IconMetaData::new(b"height\n").err(), Some(malformed(1, b"height")));
    assert_eq!(IconMetaData::new(b"version = four\n").err(), Some(malformed(1, b"version = four")));
    assert_eq!(
        IconMetaData::new(b"\nstate = \"a\"\ndelay = 1,,2\n").err(),
        Some(malformed(3, b"delay = 1,,2"))
    );
    assert_eq!(
        IconMetaData::new(b"state = \"a\"\ndelay = 1, 2\n").err(),
        Some(malformed(2, b"delay = 1, 2"))
    );
    assert_eq!(
        IconMetaData::new(b"state = \"a\"\nmovement = yes\n").err(),
        Some(malformed(2, b"movement = yes"))
    );
    assert_eq!(
        IconMetaData::new(b"state = \"a\"\nframes = -1\n").err(),
        Some(malformed(2, b"frames = -1"))
    );
    assert_eq!(IconMetaData::new(b"state = idle\n").err(), Some(malformed(1, b"state = idle")));
    assert_eq!(IconMetaData::new(b"state = \"\n").err(), Some(malformed(1, b"state = \"")));
}

#[test]
fn first_fault_is_reported() {
    let r = IconMetaData::new(b"state = \"a\"\ndirs = 3\nstate = \"b\"\nframes = x\n");
    assert_eq!(r.err(), Some(invalid(2, b"dirs = 3")));
    let r = IconMetaData::new(b"state = \"a\"\ndirs = 4\nstate = \"b\"\nframes = x\n");
    assert_eq!(r.err(), Some(malformed(4, b"frames = x")));
}

#[test]
fn movement_values() {
    for (word, want) in [("1", true), ("true", true), ("0", false), ("false", false)] {
        let text = format!("state = \"a\"\nmovement = {}\n", word);
        let doc = IconMetaData::new(text.as_bytes()).unwrap();
        assert_eq!(doc.icon_states[0].moving(), want);
    }
}

#[test]
fn block_parser_stops_at_the_next_declaration() {
    let lines = split_lines(b"width = 1\nstate = \"a\"\nframes = 2\n\nstate = \"b\"\ndirs = 8\n");
    let (a, next) = IconState::parse_icon_state(&lines, 1).unwrap();
    assert_eq!(next, 4);
    assert_eq!(a.state_name(), &b"a".to_vec());
    assert_eq!(a.number_of_frames(), 2);
    assert_eq!(a.delays(), &vec![dec(1), dec(1)]);
    let (b, next) = IconState::parse_icon_state(&lines, 4).unwrap();
    assert_eq!(next, 6);
    assert_eq!(b.number_of_dirs(), 8);
    assert_eq!(
        IconState::parse_icon_state(&lines, 0).err(),
        Some(malformed(1, b"width = 1"))
    );
}

#[test]
fn attribute_setters() {
    let mut s = IconState::named(b"n".to_vec());
    assert_eq!(s.parse_dir(b"8"), Ok(()));
    assert_eq!(s.number_of_dirs(), 8);
    assert_eq!(s.parse_dir(b"2"), Err(Fault::Invalid));
    assert_eq!(s.parse_dir(b"x"), Err(Fault::Malformed));
    assert_eq!(s.number_of_dirs(), 8);
    assert_eq!(s.parse_frames(b"5"), Ok(()));
    assert_eq!(s.parse_frames(b"0"), Err(Fault::Invalid));
    assert_eq!(s.parse_frames(b""), Err(Fault::Malformed));
    assert_eq!(s.number_of_frames(), 5);
    assert_eq!(s.parse_delay(b"3,4"), Ok(()));
    assert_eq!(s.parse_delay(b"3,"), Err(Fault::Malformed));
    assert_eq!(s.parse_delay(b""), Err(Fault::Malformed));
    assert_eq!(s.delays(), &vec![dec(3), dec(4)]);
    assert_eq!(s.parse_movement(b"true"), Ok(()));
    assert_eq!(s.parse_movement(b"TRUE"), Err(Fault::Malformed));
    assert!(s.moving());
    assert_eq!(s.take_line(b"state = \"x\""), Ok(false));
    assert_eq!(s.take_line(b"  frames = 3"), Ok(true));
    assert_eq!(s.take_line(b"version = 4.0"), Err(Fault::Malformed));
    s.settle();
    assert_eq!(s.delays(), &vec![dec(3), dec(4), dec(4)]);
    s.settle();
    assert_eq!(s.delays(), &vec![dec(3), dec(4), dec(4)]);
}

#[test]
fn header_lines() {
    let mut h = Header::blank();
    assert_eq!(h.take_line(b"width = 7"), Ok(true));
    assert_eq!(h.take_line(b"state = \"a\""), Ok(false));
    assert_eq!(h.take_line(b"frames = 2"), Err(Fault::Malformed));
    assert_eq!(h.width, 7);
    assert_eq!(h.height, 0);
}

#[test]
fn parse_metadata_takes_lines() {
    let lines = vec![b"height = 9".to_vec(), b"state = \"\"".to_vec()];
    let doc = IconMetaData::parse_metadata(&lines).unwrap();
    assert_eq!(doc.height, 9);
    assert_eq!(doc.icon_states[0].state_name(), &Vec::<u8>::new());
}

#[test]
fn report_counts_lines_from_one() {
    let lines = vec![b"a".to_vec(), b"b".to_vec()];
    assert_eq!(report(&lines, 1, Fault::Malformed), malformed(2, b"b"));
    assert_eq!(report(&lines, 0, Fault::Invalid), invalid(1, b"a"));
}
