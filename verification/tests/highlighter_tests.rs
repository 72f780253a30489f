use adbx::color::{
    fallback_color, field_color, get_color_from_string, level_color, Color, FieldKind,
};
use adbx::highlighter::{is_decimal_digit, parse_line, MyHighlighter};
use adbx::text::{fit, split_lines};

const SAMPLE: &str = "05-21 10:00:00.000  1234  5678 I MyTag: hello";

#[test]
fn structured_line_yields_its_fields() {
    let mut highlighter = MyHighlighter::new();
    let (segments, raw) = highlighter.highlighter(SAMPLE);
    assert_eq!(raw.origin, SAMPLE);
    let info = raw.info.expect("the sample is structured");
    assert_eq!(info.date, 0..5);
    assert_eq!(info.time, 6..18);
    assert_eq!(info.pid, 20..24);
    assert_eq!(info.tid, 26..30);
    assert_eq!(info.level, 31..32);
    assert_eq!(info.tag, 33..39);
    assert_eq!(info.message, 40..45);
    assert_eq!(&SAMPLE[info.level.clone()], "I");
    assert_eq!(&SAMPLE[info.message.clone()], "hello");
    assert_eq!(segments.len(), 11);
    assert_eq!(segments[0].text, "05-21");
    assert_eq!(segments[2].text, "10:00:00.000");
    assert_eq!(segments[4].text, "1234 ");
    assert_eq!(segments[6].text, "5678 ");
    assert_eq!(segments[8].text, "MyTag               ");
    assert_eq!(segments[8].text.chars().count(), 20);
    assert!(segments[8].italics);
    assert_eq!(segments[10].text, "hello");
    assert_eq!(segments[10].color, Color { r: 255, g: 255, b: 255 });
}

#[test]
fn structured_line_is_drawn_field_by_field() {
    let mut highlighter = MyHighlighter::new();
    let (segments, _) = highlighter.highlighter(SAMPLE);
    assert_eq!(segments[0].color, Color { r: 0x66, g: 0x99, b: 0x99 });
    assert_eq!(segments[2].color, Color { r: 0x33, g: 0x99, b: 0x99 });
    assert_eq!(segments[4].color, Color { r: 0xcc, g: 0xcc, b: 0xcc });
    assert_eq!(segments[6].color, Color { r: 0x99, g: 0xcc, b: 0x99 });
    assert_eq!(segments[8].color, Color { r: 170, g: 64, b: 64 });
    for gap in [1usize, 3, 5, 7, 9] {
        assert_eq!(segments[gap].text, "  ");
        assert!(!segments[gap].monospace);
        assert!(!segments[gap].italics);
        assert_eq!(segments[gap].color, Color { r: 160, g: 160, b: 160 });
    }
    for field in [0usize, 2, 4, 6, 8, 10] {
        assert!(segments[field].monospace);
    }
}

#[test]
fn short_text_is_unstructured() {
    let mut highlighter = MyHighlighter::new();
    let line = "not a log line";
    assert_eq!(line.chars().count(), 14);
    let (segments, raw) = highlighter.highlighter(line);
    assert!(raw.info.is_none());
    assert_eq!(raw.origin, line);
    assert_eq!(segments.len(), 1);
    assert_eq!(segments[0].text, line);
    assert_eq!(segments[0].color, Color { r: 160, g: 160, b: 160 });
    assert!(segments[0].monospace);
    assert!(!segments[0].italics);
}

#[test]
fn line_of_seventeen_characters_is_unstructured() {
    let line = "05-21 a b c d e f";
    assert_eq!(line.chars().count(), 17);
    assert!(parse_line(line).is_none());
    let mut highlighter = MyHighlighter::new();
    let (segments, raw) = highlighter.highlighter(line);
    assert!(raw.info.is_none());
    assert_eq!(segments.len(), 1);
    assert_eq!(segments[0].text, line);
}

#[test]
fn line_of_eighteen_characters_can_be_structured() {
    let line = "05-21 a b c d e fg";
    assert_eq!(line.chars().count(), 18);
    let info = parse_line(line).expect("six fields after the date");
    assert_eq!(info.date, 0..5);
    assert_eq!(info.time, 6..7);
    assert_eq!(info.pid, 8..9);
    assert_eq!(info.tid, 10..11);
    assert_eq!(info.level, 12..13);
    assert_eq!(info.tag, 14..15);
    assert_eq!(info.message, 16..18);
}

#[test]
fn line_that_starts_without_a_digit_is_unstructured() {
    let line = "x5-21 10:00:00.000  1234  5678 I MyTag: hello";
    assert!(parse_line(line).is_none());
    let mut highlighter = MyHighlighter::new();
    let (segments, raw) = highlighter.highlighter(line);
    assert!(raw.info.is_none());
    assert_eq!(segments.len(), 1);
    assert_eq!(segments[0].text, line);
    assert_eq!(raw.origin, line);
}

#[test]
fn empty_line_is_unstructured() {
    let mut highlighter = MyHighlighter::new();
    let (segments, raw) = highlighter.highlighter("");
    assert!(raw.info.is_none());
    assert_eq!(raw.origin, "");
    assert_eq!(segments.len(), 1);
    assert_eq!(segments[0].text, "");
}

#[test]
fn line_with_too_few_fields_is_unstructured() {
    let line = "05-21 10:00:00.000  1234  5678 I MyTag:";
    assert!(line.chars().count() >= 18);
    assert!(parse_line(line).is_none());
    let other = "05-21 10:00:00.000 and nothing more";
    assert!(parse_line(other).is_none());
    let mut highlighter = MyHighlighter::new();
    let (segments, raw) = highlighter.highlighter(other);
    assert!(raw.info.is_none());
    assert_eq!(segments.len(), 1);
    assert_eq!(segments[0].text, other);
}

#[test]
fn message_runs_to_the_end_of_the_line() {
    let line = "05-21 10:00:00.000  1234  5678 W Tag: several words   with gaps ";
    let info = parse_line(line).expect("structured");
    assert_eq!(info.date, 0..5);
    assert_eq!(info.message.end, line.chars().count());
    assert_eq!(&line[info.message.clone()], "several words   with gaps ");
    let mut highlighter = MyHighlighter::new();
    let (segments, _) = highlighter.highlighter(line);
    assert_eq!(segments[10].text, "several words   with gaps ");
    assert_eq!(segments[10].color, Color { r: 255, g: 255, b: 0 });
}

#[test]
fn fields_lie_in_order_without_overlap() {
    let info = parse_line(SAMPLE).expect("structured");
    let ranges = [
        info.date, info.time, info.pid, info.tid, info.level, info.tag, info.message,
    ];
    for range in ranges.iter() {
        assert!(range.start <= range.end);
    }
    for pair in ranges.windows(2) {
        assert!(pair[0].end <= pair[1].start);
    }
    assert_eq!(ranges[6].end, SAMPLE.chars().count());
}

#[test]
fn positions_count_characters() {
    let line = "05-21 10:00:00.000  1234  5678 E Täg: grüße";
    let info = parse_line(line).expect("structured");
    assert_eq!(info.tag, 33..37);
    assert_eq!(info.message, 38..43);
    assert_eq!(info.message.end, line.chars().count());
    let mut highlighter = MyHighlighter::new();
    let (segments, _) = highlighter.highlighter(line);
    assert_eq!(segments[8].text, "Täg                 ");
    assert_eq!(segments[10].text, "grüße");
    assert_eq!(segments[10].color, Color { r: 255, g: 128, b: 128 });
}

#[test]
fn tag_loses_all_trailing_colons() {
    let line = "05-21 10:00:00.000  1234  5678 D Tag::: text";
    let mut highlighter = MyHighlighter::new();
    let (segments, raw) = highlighter.highlighter(line);
    assert_eq!(raw.info.expect("structured").tag, 33..39);
    assert_eq!(segments[8].text, "Tag                 ");
    assert_eq!(segments[10].color, Color { r: 0xAD, g: 0xD8, b: 0xE6 });
}

#[test]
fn long_fields_are_cut_to_their_width() {
    let line = "05-21 10:00:00.000  1234567  89 V AVeryLongTagNameThatGoesOn: text";
    let mut highlighter = MyHighlighter::new();
    let (segments, _) = highlighter.highlighter(line);
    assert_eq!(segments[4].text, "12345");
    assert_eq!(segments[6].text, "89   ");
    assert_eq!(segments[8].text, "AVeryLongTagNameThat");
    assert_eq!(segments[8].text.chars().count(), 20);
    assert_eq!(segments[10].color, Color { r: 220, g: 220, b: 220 });
}

#[test]
fn same_line_gives_same_result() {
    let mut highlighter = MyHighlighter::new();
    let (first, first_raw) = highlighter.highlighter(SAMPLE);
    let (second, second_raw) = highlighter.highlighter(SAMPLE);
    assert_eq!(first.len(), second.len());
    for (a, b) in first.iter().zip(second.iter()) {
        assert_eq!(a.text, b.text);
        assert_eq!(a.color, b.color);
        assert_eq!(a.italics, b.italics);
        assert_eq!(a.monospace, b.monospace);
    }
    assert_eq!(first_raw.origin, second_raw.origin);
}

#[test]
fn digits_are_zero_to_nine() {
    for c in '0'..='9' {
        assert!(is_decimal_digit(c));
    }
    assert!(!is_decimal_digit('/'));
    assert!(!is_decimal_digit(':'));
    assert!(!is_decimal_digit('a'));
    assert!(!is_decimal_digit('٣'));
}

#[test]
fn tag_of_two_characters_has_no_first_parts() {
    assert_eq!(get_color_from_string("ab"), Color { r: 0, g: 0, b: 194 });
}

#[test]
fn empty_tag_is_black() {
    assert_eq!(get_color_from_string(""), Color { r: 0, g: 0, b: 0 });
}

#[test]
fn tag_of_one_character_uses_the_last_part() {
    assert_eq!(get_color_from_string("A"), Color { r: 0, g: 0, b: 130 });
}

#[test]
fn tag_color_is_twice_the_mean_of_each_part() {
    assert_eq!(get_color_from_string("abc"), Color { r: 194, g: 196, b: 198 });
    assert_eq!(get_color_from_string("aabbccd"), Color { r: 194, g: 196, b: 198 });
    assert_eq!(get_color_from_string("  !!##"), Color { r: 64, g: 66, b: 70 });
    assert_eq!(get_color_from_string("acbdxz"), Color { r: 196, g: 198, b: 242 });
}

#[test]
fn tag_color_mean_is_rounded_down() {
    assert_eq!(get_color_from_string("  !  !   !"), Color { r: 64, g: 64, b: 64 });
}

#[test]
fn tag_color_is_capped() {
    assert_eq!(get_color_from_string("中中中"), Color { r: 255, g: 255, b: 255 });
    assert_eq!(get_color_from_string("\u{7f}\u{7f}\u{80}"), Color { r: 254, g: 254, b: 255 });
    assert_eq!(get_color_from_string("\u{10FFFF}\u{10FFFF}\u{10FFFF}"), Color { r: 255, g: 255, b: 255 });
}

#[test]
fn same_tag_same_color() {
    assert_eq!(get_color_from_string("ActivityManager"), get_color_from_string("ActivityManager"));
    assert_ne!(get_color_from_string("ActivityManager"), get_color_from_string("WindowManager"));
}

#[test]
fn level_letters_select_their_color() {
    assert_eq!(level_color('V'), Color { r: 220, g: 220, b: 220 });
    assert_eq!(level_color('D'), Color { r: 0xAD, g: 0xD8, b: 0xE6 });
    assert_eq!(level_color('I'), Color { r: 255, g: 255, b: 255 });
    assert_eq!(level_color('W'), Color { r: 255, g: 255, b: 0 });
    assert_eq!(level_color('E'), Color { r: 255, g: 128, b: 128 });
    assert_eq!(level_color('F'), level_color('V'));
    assert_eq!(level_color('e'), level_color('V'));
    assert_eq!(level_color(' '), level_color('V'));
}

#[test]
fn colors_are_those_of_the_toolkit() {
    let same = |ours: Color, theirs: egui::Color32| {
        assert_eq!((ours.r, ours.g, ours.b, 255), (theirs.r(), theirs.g(), theirs.b(), theirs.a()));
    };
    same(fallback_color(), egui::Color32::GRAY);
    same(fallback_color(), egui::TextFormat::default().color);
    same(level_color('V'), egui::Color32::LIGHT_GRAY);
    same(level_color('D'), egui::Color32::LIGHT_BLUE);
    same(level_color('I'), egui::Color32::WHITE);
    same(level_color('W'), egui::Color32::YELLOW);
    same(level_color('E'), egui::Color32::LIGHT_RED);
    same(level_color('?'), egui::Color32::LIGHT_GRAY);
    same(field_color(FieldKind::Date), egui::Color32::from_rgb(0x66, 0x99, 0x99));
    same(field_color(FieldKind::Time), egui::Color32::from_rgb(0x33, 0x99, 0x99));
    same(field_color(FieldKind::Pid), egui::Color32::from_rgb(0xcc, 0xcc, 0xcc));
    same(field_color(FieldKind::Tid), egui::Color32::from_rgb(0x99, 0xcc, 0x99));
    same(Color::from_rgb(1, 2, 3), egui::Color32::from_rgb(1, 2, 3));
}

#[test]
fn fit_pads_on_the_right_and_cuts() {
    assert_eq!(fit("ab", 5), "ab   ");
    assert_eq!(fit("abcde", 5), "abcde");
    assert_eq!(fit("abcdefg", 5), "abcde");
    assert_eq!(fit("", 3), "   ");
    assert_eq!(fit("abc", 0), "");
    assert_eq!(fit("äöüß", 3), "äöü");
    assert_eq!(fit("ä", 3), "ä  ");
}

#[test]
fn lines_end_at_line_feeds() {
    assert_eq!(split_lines("a\nb\n"), vec!["a", "b"]);
    assert_eq!(split_lines("a\nb"), vec!["a", "b"]);
    assert_eq!(split_lines(""), Vec::<String>::new());
    assert_eq!(split_lines("\n"), vec![""]);
    assert_eq!(split_lines("\n\n"), vec!["", ""]);
    assert_eq!(split_lines("a\n\nb\n"), vec!["a", "", "b"]);
    assert_eq!(split_lines("a\r\nb\r\n"), vec!["a", "b"]);
    assert_eq!(split_lines("a\r\r\nb"), vec!["a\r", "b"]);
    assert_eq!(split_lines("a\rb\n"), vec!["a\rb"]);
    assert_eq!(split_lines("a\r"), vec!["a\r"]);
    assert_eq!(split_lines("\r\n"), vec![""]);
}

#[test]
fn lines_agree_with_the_standard_library() {
    for text in ["", "a", "a\n", "a\nb", "\n", "\n\n", "a\r\nb\r\n", "a\r\r\n", "x\ry\n", "é\nü\n", "tail\r"] {
        let expected: Vec<String> = text.lines().map(|line| line.to_string()).collect();
        assert_eq!(split_lines(text), expected, "for {:?}", text);
    }
}
