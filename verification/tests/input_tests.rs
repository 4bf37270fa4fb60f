use rcomb_parser::parser_input::{scan_line, ParserInput};

#[test]
fn test_txt() {
    let mut curr_index = 0;
    let mut a = ParserInput::text("abc\ndef\nghi\n");

    while a.has_more(curr_index + 1) {
        match a.read_by_size(curr_index, 2) {
            Result::Ok(read) => {
                println!("curr_index[{}]", curr_index);
                println!("{:?}", read);
                println!("");
            }
            Result::Err(_) => {
                assert!(false);
            }
        };
        curr_index = curr_index + 1;
    }
    assert_eq!(curr_index, 11);
}

fn stream(data: Vec<u8>) -> impl Fn(u64, usize) -> Result<Vec<u8>, String> + 'static {
    move |offset: u64, capacity: usize| {
        let start = std::cmp::min(offset as usize, data.len());
        let end = std::cmp::min(start + capacity, data.len());
        Ok(data[start..end].to_vec())
    }
}

fn numbered(len: usize) -> Vec<u8> {
    (0..len).map(|i| b'a' + (i % 26) as u8).collect()
}

#[test]
fn text_reads_are_slices_of_the_text() {
    let mut input = ParserInput::text("abc\ndef");
    assert_eq!(input.read_by_size(2, 3).unwrap(), b"c\nd");
    assert_eq!(input.read_by_size(7, 0).unwrap(), b"");
    assert_eq!(input.read_by_size(5, 3).unwrap_err().to_string(), "error message[offset over]");
    assert!(input.has_more(6));
    assert!(!input.has_more(7));
}

#[test]
fn lines_end_with_their_terminator() {
    let mut input = ParserInput::text("abc\ndef\r\nghi\rjkl\0mno");
    assert_eq!(input.read_line(0), b"abc\n");
    assert_eq!(input.read_line(4), b"def\r\n");
    assert_eq!(input.read_line(9), b"ghi\r");
    assert_eq!(input.read_line(13), b"jkl");
    assert_eq!(input.read_line(17), b"mno");
    assert_eq!(input.read_line(40), b"");
}

#[test]
fn stream_serves_from_its_window_and_moves_it_on_a_miss() {
    let data = numbered(10000);
    let mut input = ParserInput::file(stream(data.clone()));
    assert_eq!(input.read_by_size(10, 5).unwrap(), &data[10..15]);
    match &input {
        ParserInput::File { buffer_seek, buffer_read, .. } => {
            assert_eq!(*buffer_seek, 0);
            assert_eq!(*buffer_read, 4096);
        }
        ParserInput::Text(_) => assert!(false),
    }
    assert_eq!(input.read_by_size(4090, 10).unwrap(), &data[4090..4100]);
    match &input {
        ParserInput::File { buffer_seek, buffer_read, .. } => {
            assert_eq!(*buffer_seek, 4090);
            assert_eq!(*buffer_read, 4096);
        }
        ParserInput::Text(_) => assert!(false),
    }
    assert_eq!(input.read_by_size(9990, 10).unwrap(), &data[9990..10000]);
    match &input {
        ParserInput::File { buffer_seek, buffer_read, .. } => {
            assert_eq!(*buffer_seek, 9990);
            assert_eq!(*buffer_read, 10);
        }
        ParserInput::Text(_) => assert!(false),
    }
    assert_eq!(input.read_by_size(9995, 10).unwrap_err().to_string(), "error message[offset over]");
}

#[test]
fn stream_refuses_a_read_larger_than_its_window() {
    let mut input = ParserInput::file(stream(numbered(10000)));
    assert_eq!(input.read_by_size(0, 4097).unwrap_err().to_string(), "error message[buffer over]");
    assert_eq!(input.read_by_size(0, 4096).unwrap().len(), 4096);
}

#[test]
fn stream_failure_is_an_io_error() {
    let mut input = ParserInput::file(|offset: u64, _capacity: usize| {
        if offset < 100 {
            Ok(vec![b'x'; 10])
        } else {
            Err("disk gone".to_owned())
        }
    });
    assert_eq!(input.read_by_size(0, 4).unwrap(), b"xxxx");
    assert_eq!(input.read_by_size(200, 4).unwrap_err().to_string(), "io error message[disk gone]");
    assert!(!input.has_more(300));
}

#[test]
fn stream_has_more_looks_past_a_full_window() {
    let mut input = ParserInput::file(stream(numbered(5000)));
    assert!(input.has_more(0));
    assert!(input.has_more(4999));
    assert!(!input.has_more(5000));
    assert!(!input.has_more(7000));
}

#[test]
fn stream_lines_cross_windows() {
    let mut data = numbered(5000);
    data[4500] = b'\n';
    let mut input = ParserInput::file(stream(data.clone()));
    let line = input.read_line(100);
    assert_eq!(line.len(), 4401);
    assert_eq!(line, &data[100..4501]);
    assert_eq!(input.read_line(4501), &data[4501..5000]);
}

#[test]
fn stream_that_hands_over_too_much_is_cut_to_the_window() {
    let mut input = ParserInput::file(|_offset: u64, _capacity: usize| Ok(vec![b'z'; 6000]));
    assert_eq!(input.read_by_size(0, 4096).unwrap().len(), 4096);
    match &input {
        ParserInput::File { buffer_read, .. } => assert_eq!(*buffer_read, 4096),
        ParserInput::Text(_) => assert!(false),
    }
}

#[test]
fn scan_says_whether_the_line_goes_on() {
    let mut line = b">".to_vec();
    assert_eq!(scan_line(b"abc", 1, false, &mut line), Some(false));
    assert_eq!(line, b">bc");
    assert_eq!(scan_line(b"d\r", 0, false, &mut line), Some(true));
    assert_eq!(line, b">bcd\r");
    assert_eq!(scan_line(b"\nrest", 0, true, &mut line), None);
    assert_eq!(line, b">bcd\r\n");
    let mut line = Vec::new();
    assert_eq!(scan_line(b"x", 0, true, &mut line), None);
    assert_eq!(line, b"");
    assert_eq!(scan_line(b"ab\0cd", 0, false, &mut line), None);
    assert_eq!(line, b"ab");
    assert_eq!(scan_line(b"ab", 7, true, &mut line), Some(true));
    assert_eq!(line, b"ab");
}

#[test]
fn stream_line_ends_with_the_stream() {
    let mut input = ParserInput::file(stream(b"one\r\ntwo".to_vec()));
    assert_eq!(input.read_line(0), b"one\r\n");
    assert_eq!(input.read_line(5), b"two");
    assert_eq!(input.read_line(8), b"");
    assert_eq!(input.read_line(3), b"\r\n");
}
