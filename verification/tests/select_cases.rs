use csv::StringRecord;
use cutr::{extract_bytes, extract_chars, extract_fields, select_bytes};

#[test]
fn characters_follow_the_list_not_the_line() {
    assert_eq!(extract_chars("", &[0..1]), "");
    assert_eq!(extract_chars("ábc", &[0..1]), "á");
    assert_eq!(extract_chars("ábc", &[2..3, 1..2]), "cb");
    assert_eq!(extract_chars("ábc", &[0..1, 1..2, 4..5]), "áb");
}

#[test]
fn overlapping_ranges_repeat_their_characters() {
    assert_eq!(extract_chars("hello", &[0..3, 1..4]), "helell");
    assert_eq!(extract_chars("hello", &[1..2, 1..2, 1..2]), "eee");
}

#[test]
fn a_range_is_cut_off_at_the_end_of_the_line() {
    assert_eq!(extract_chars("hello", &[3..100]), "lo");
    assert_eq!(extract_chars("hello", &[5..6]), "");
    assert_eq!(extract_chars("hello", &[0..usize::MAX]), "hello");
    assert_eq!(
        extract_chars("hello", &[usize::MAX - 1..usize::MAX]),
        ""
    );
}

#[test]
fn an_empty_list_and_an_empty_range_select_nothing() {
    assert_eq!(extract_chars("hello", &[]), "");
    assert_eq!(extract_chars("hello", &[2..2]), "");
    assert_eq!(extract_bytes("hello", &[]), "");
    assert_eq!(select_bytes(b"hello", &[4..4]), Vec::<u8>::new());
    let record = StringRecord::from(vec!["a", "b"]);
    assert_eq!(extract_fields(&record, &[]), Vec::<String>::new());
}

#[test]
fn characters_are_counted_not_bytes() {
    assert_eq!(extract_chars("日本語のテキスト", &[2..4]), "語の");
    assert_eq!(extract_chars("a😀b", &[1..2]), "😀");
    assert_eq!(extract_chars("a😀b", &[2..3]), "b");
}

#[test]
fn bytes_are_selected_as_they_are() {
    assert_eq!(select_bytes("ábc".as_bytes(), &[0..1]), vec![0xc3]);
    assert_eq!(select_bytes("ábc".as_bytes(), &[1..2]), vec![0xa1]);
    assert_eq!(
        select_bytes("ábc".as_bytes(), &[3..4, 2..3, 0..2]),
        vec![b'c', b'b', 0xc3, 0xa1]
    );
    assert_eq!(select_bytes(b"abc", &[1..9, 7..9]), vec![b'b', b'c']);
    assert_eq!(select_bytes(&[0xff, 0x00, 0x80], &[0..3]), vec![0xff, 0x00, 0x80]);
}

#[test]
fn a_split_character_is_replaced() {
    assert_eq!(extract_bytes("ábc", &[0..1]), "\u{fffd}");
    assert_eq!(extract_bytes("ábc", &[1..2]), "\u{fffd}");
    assert_eq!(extract_bytes("ábc", &[1..3]), "\u{fffd}b");
    assert_eq!(extract_bytes("ábc", &[0..2]), "á");
    assert_eq!(extract_bytes("ábc", &[0..4]), "ábc");
    assert_eq!(extract_bytes("ábc", &[3..4, 2..3]), "cb");
}

#[test]
fn halves_of_a_character_join_again() {
    assert_eq!(extract_bytes("ábc", &[0..1, 1..2]), "á");
    assert_eq!(extract_bytes("ábc", &[1..2, 0..1]), "\u{fffd}\u{fffd}");
}

#[test]
fn whole_lines_come_back_unchanged() {
    for line in ["", "plain", "ábc", "日本語", "a\tb"] {
        assert_eq!(extract_bytes(line, &[0..line.len()]), line);
        assert_eq!(extract_bytes(line, &[0..usize::MAX]), line);
        assert_eq!(extract_chars(line, &[0..usize::MAX]), line);
    }
}

#[test]
fn fields_are_taken_untouched() {
    let record = StringRecord::from(vec!["Captain", "Sham", "12345"]);
    assert_eq!(extract_fields(&record, &[0..1, 2..3]), ["Captain", "12345"]);
    assert_eq!(extract_fields(&record, &[0..1, 3..4]), ["Captain"]);
    assert_eq!(extract_fields(&record, &[1..2, 0..1]), ["Sham", "Captain"]);
    assert_eq!(extract_fields(&record, &[0..3]), ["Captain", "Sham", "12345"]);
    assert_eq!(
        extract_fields(&record, &[1..9, 1..2]),
        ["Sham", "12345", "Sham"]
    );
    let record = StringRecord::from(vec!["a,b", " c ", "", "é\"x"]);
    assert_eq!(extract_fields(&record, &[0..4]), ["a,b", " c ", "", "é\"x"]);
}

#[test]
fn fields_of_an_empty_record() {
    let record = StringRecord::new();
    assert_eq!(extract_fields(&record, &[0..1]), Vec::<String>::new());
    assert_eq!(extract_fields(&record, &[0..usize::MAX]), Vec::<String>::new());
}

#[test]
fn bytes_and_characters_agree_on_ascii() {
    let lists: [&[std::ops::Range<usize>]; 4] = [&[0..1], &[2..5, 0..2], &[4..40, 1..2, 1..2], &[]];
    for line in ["", "plain text", "a,b\tc", "~\u{7f}\u{0}!"] {
        for list in lists {
            assert_eq!(extract_bytes(line, list), extract_chars(line, list));
        }
    }
}

#[test]
fn a_list_in_two_parts_selects_part_after_part() {
    let first = [2..4, 0..1];
    let rest = [1..3, 9..12, 3..4];
    let whole: Vec<_> = first.iter().chain(rest.iter()).cloned().collect();
    let line = "ábcdé";
    assert_eq!(
        extract_chars(line, &whole),
        extract_chars(line, &first) + &extract_chars(line, &rest)
    );
    let mut bytes = select_bytes(line.as_bytes(), &first);
    bytes.extend(select_bytes(line.as_bytes(), &rest));
    assert_eq!(select_bytes(line.as_bytes(), &whole), bytes);
    let record = StringRecord::from(vec!["a", "b", "c", "d"]);
    let mut fields = extract_fields(&record, &first);
    fields.extend(extract_fields(&record, &rest));
    assert_eq!(extract_fields(&record, &whole), fields);
}
