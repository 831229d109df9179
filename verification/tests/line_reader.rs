use rust_pop3_client::line_reader::LineReader;
use rust_pop3_client::transport::ScriptedTransport;
use rust_pop3_client::Pop3Error;

#[test]
fn test_read_single_line() {
    let mut reader = LineReader::new();
    let data = b"Hello\n";
    let mut source = ScriptedTransport::new(data.to_vec(), 512);
    let line = reader.read_line(&mut source).unwrap();
    assert_eq!("Hello".to_string(), line);
}

#[test]
fn test_read_multiple_lines() {
    let mut reader = LineReader::new();
    let data = b"Hello\nWorld\n";
    let mut source = ScriptedTransport::new(data.to_vec(), 512);
    let line = reader.read_line(&mut source).unwrap();
    assert_eq!("Hello".to_string(), line);

    let mut source = ScriptedTransport::new(Vec::new(), 512);
    let line = reader.read_line(&mut source).unwrap();
    assert_eq!("World".to_string(), line);
}

#[test]
fn test_read_split_lines() {
    let mut reader = LineReader::new();
    let data = b"Hello\nWor";
    let mut source = ScriptedTransport::new(data.to_vec(), 512);
    let line = reader.read_line(&mut source).unwrap();
    assert_eq!("Hello".to_string(), line);

    let data = b"ld\n";
    let mut source = ScriptedTransport::new(data.to_vec(), 512);
    let line = reader.read_line(&mut source).unwrap();
    assert_eq!("World".to_string(), line);
}

#[test]
fn test_read_buffer_exceeded() {
    let mut reader = LineReader::new();
    let data = [0; 512];
    let mut source = ScriptedTransport::new(data.to_vec(), 512);
    let line = reader.read_line(&mut source);
    assert!(line.is_err());
}

#[test]
fn chunk_boundaries_do_not_change_lines() {
    // the same input, delivered one byte at a time and all at once,
    // yields the same sequence of decoded lines
    let data = b"alpha\r\nbeta\ngamma delta\n";
    let mut whole: Vec<String> = Vec::new();
    let mut reader = LineReader::new();
    let mut source = ScriptedTransport::new(data.to_vec(), 512);
    for _ in 0..3 {
        whole.push(reader.read_line(&mut source).unwrap());
    }
    let mut pieces: Vec<String> = Vec::new();
    let mut reader = LineReader::new();
    let mut source = ScriptedTransport::new(data.to_vec(), 1);
    for _ in 0..3 {
        pieces.push(reader.read_line(&mut source).unwrap());
    }
    assert_eq!(whole, pieces);
    assert_eq!(vec!["alpha", "beta", "gamma delta"], whole);
}

#[test]
fn line_filling_buffer_without_terminator_is_rejected() {
    // 512 bytes with no terminator: the line can never fit
    let mut reader = LineReader::new();
    let data = vec![b'a'; 512];
    let mut source = ScriptedTransport::new(data, 512);
    let r = reader.read_line(&mut source);
    assert!(matches!(r, Err(Pop3Error::BufferExceeded)));
}

#[test]
fn line_of_capacity_minus_one_plus_terminator_succeeds() {
    // 511 bytes plus the terminator exactly fill the buffer and succeed
    let mut reader = LineReader::new();
    let mut data = vec![b'a'; 511];
    data.push(b'\n');
    let mut source = ScriptedTransport::new(data, 512);
    let line = reader.read_line(&mut source).unwrap();
    assert_eq!(511, line.len());
    assert!(line.bytes().all(|b| b == b'a'));
}

#[test]
fn surrounding_whitespace_is_trimmed() {
    let mut reader = LineReader::new();
    let mut source = ScriptedTransport::new(b"  hello world \r\n".to_vec(), 512);
    let line = reader.read_line(&mut source).unwrap();
    assert_eq!("hello world", line);
}

#[test]
fn unicode_whitespace_is_trimmed() {
    // trimming covers all Unicode white space, not just ASCII: a
    // trailing no-break space goes too
    let mut reader = LineReader::new();
    let mut source = ScriptedTransport::new("A\u{a0}\n".as_bytes().to_vec(), 512);
    let line = reader.read_line(&mut source).unwrap();
    assert_eq!("A", line);

    let mut reader = LineReader::new();
    let mut source =
        ScriptedTransport::new("\u{3000}wide\u{2028}\r\n".as_bytes().to_vec(), 512);
    let line = reader.read_line(&mut source).unwrap();
    assert_eq!("wide", line);
}

#[test]
fn non_ascii_text_is_decoded() {
    // multi-byte characters survive the byte-level framing and decoding
    let mut reader = LineReader::new();
    let mut source = ScriptedTransport::new("caf\u{e9} \u{2603}\r\n".as_bytes().to_vec(), 2);
    let line = reader.read_line(&mut source).unwrap();
    assert_eq!("caf\u{e9} \u{2603}", line);
}

#[test]
fn invalid_text_is_a_decode_error() {
    let mut reader = LineReader::new();
    let mut source = ScriptedTransport::new(vec![b'a', 0xff, 0xfe, b'\n'], 512);
    let r = reader.read_line(&mut source);
    assert!(matches!(r, Err(Pop3Error::Decode)));
}

#[test]
fn exhausted_source_is_a_transport_error() {
    let mut reader = LineReader::new();
    let mut source = ScriptedTransport::new(b"no terminator".to_vec(), 512);
    let r = reader.read_line(&mut source);
    assert!(matches!(r, Err(Pop3Error::Transport(_))));
}

#[test]
fn get_eol_reports_first_terminator() {
    let mut reader = LineReader::new();
    assert_eq!(None, reader.get_eol());
    let mut source = ScriptedTransport::new(b"ab\ncd\n".to_vec(), 512);
    let line = reader.read_line(&mut source).unwrap();
    assert_eq!("ab", line);
    // "cd\n" is retained: its terminator is at offset 2
    assert_eq!(Some(2), reader.get_eol());
}
