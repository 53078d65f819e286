use unix_tools::stream::{chunk_item, line_item, CHUNK_SIZE};

#[test]
fn chunk_of_read_bytes() {
    let mut buf = [0u8; CHUNK_SIZE];
    buf[..3].copy_from_slice(b"abc");
    buf[3] = b'z';
    let item = chunk_item::<String>(Ok(3), &buf);
    assert_eq!(item, Some(Ok(b"abc".to_vec())));
}

#[test]
fn chunk_of_full_buffer() {
    let buf = [7u8; CHUNK_SIZE];
    assert_eq!(chunk_item::<String>(Ok(CHUNK_SIZE), &buf), Some(Ok(vec![7u8; CHUNK_SIZE])));
}

#[test]
fn empty_read_ends_stream() {
    let buf = [1u8; CHUNK_SIZE];
    assert_eq!(chunk_item::<String>(Ok(0), &buf), None);
}

#[test]
fn failed_read_is_passed_on() {
    let buf = [1u8; CHUNK_SIZE];
    assert_eq!(chunk_item(Err("broken".to_string()), &buf), Some(Err("broken".to_string())));
}

#[test]
fn chunks_join_to_input() {
    let input: Vec<u8> = (0..2500u32).map(|i| (i % 251) as u8).collect();
    let mut pos = 0;
    let mut joined = Vec::new();
    loop {
        let mut buf = [0u8; CHUNK_SIZE];
        let n = (input.len() - pos).min(CHUNK_SIZE);
        buf[..n].copy_from_slice(&input[pos..pos + n]);
        pos += n;
        match chunk_item::<String>(Ok(n), &buf) {
            None => break,
            Some(Ok(chunk)) => {
                assert!(!chunk.is_empty());
                joined.extend(chunk)
            }
            Some(Err(_)) => unreachable!(),
        }
    }
    assert_eq!(joined, input);
}

#[test]
fn line_of_read() {
    assert_eq!(line_item::<String>(Ok(6), "hello\n".to_string()), Ok(Some("hello\n".to_string())));
    assert_eq!(line_item::<String>(Ok(0), String::new()), Ok(None));
    assert_eq!(line_item(Err(3u8), "x".to_string()), Err(3u8));
}
