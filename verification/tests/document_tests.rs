use loss::chunk::Chunk;
use loss::document::{Document, Fetch, LoadError, DEFAULT_CHUNK_SIZE};

fn open(data: &[u8]) -> Document {
    let tail: &[u8] = match Document::tail_window(data.len()) {
        Some((begin, end)) => &data[begin..end],
        None => &[],
    };
    Document::new(data.len(), tail).unwrap()
}

fn load_chunk(doc: &mut Document, data: &[u8], begin: usize, end: usize) -> Option<usize> {
    match doc.plan_load(begin, end) {
        Some((read_begin, read_end)) => doc
            .load_chunk(begin, end, &data[read_begin..read_end])
            .unwrap(),
        None => doc.load_chunk(begin, end, &[]).unwrap(),
    }
}

fn load_around(doc: &mut Document, data: &[u8], offset: usize) {
    let (read_begin, read_end) = doc.plan_load_around(offset).unwrap();
    doc.load_chunk_around(offset, &data[read_begin..read_end])
        .unwrap()
        .unwrap();
}

fn text(lines: Vec<Vec<u8>>) -> Vec<String> {
    lines
        .into_iter()
        .map(|line| String::from_utf8(line).unwrap())
        .collect()
}

fn query_lines(doc: &mut Document, data: &[u8], offset: usize, count: usize) -> Vec<String> {
    loop {
        match doc.query_lines(offset, count) {
            Fetch::Ready(lines) => return text(lines),
            Fetch::Missing(at) => load_around(doc, data, at),
        }
    }
}

fn above(doc: &mut Document, data: &[u8], offset: usize, count: usize) -> usize {
    loop {
        match doc.query_distance_to_above_n_lines(offset, count) {
            Fetch::Ready(distance) => return distance,
            Fetch::Missing(at) => load_around(doc, data, at),
        }
    }
}

fn below(doc: &mut Document, data: &[u8], offset: usize, count: usize) -> usize {
    loop {
        match doc.query_distance_to_below_n_lines(offset, count) {
            Fetch::Ready(distance) => return distance,
            Fetch::Missing(at) => load_around(doc, data, at),
        }
    }
}

fn holds(line: &[u8], pattern: &str) -> bool {
    let pattern = pattern.as_bytes();
    pattern.is_empty() || line.windows(pattern.len()).any(|part| part == pattern)
}

fn prev_match(doc: &mut Document, data: &[u8], offset: usize, pattern: &str) -> Option<usize> {
    loop {
        match doc.query_distance_to_prev_match(offset, |line: &Vec<u8>| holds(line, pattern)) {
            Fetch::Ready(distance) => return distance,
            Fetch::Missing(at) => load_around(doc, data, at),
        }
    }
}

fn next_match(doc: &mut Document, data: &[u8], offset: usize, pattern: &str) -> Option<usize> {
    loop {
        match doc.query_distance_to_next_match(offset, |line: &Vec<u8>| holds(line, pattern)) {
            Fetch::Ready(distance) => return distance,
            Fetch::Missing(at) => load_around(doc, data, at),
        }
    }
}

#[test]
fn test_query_distance_to_prev_match() {
    let data = b"1234\nabcd\n1234\nabcd\n1234\nabcd\n1234\nabcd\n\n\n1234\nremain";
    let mut doc = open(data);
    assert_eq!(prev_match(&mut doc, data, 0, "123"), None);
    assert_eq!(prev_match(&mut doc, data, 5, "123"), Some(5));
    assert_eq!(prev_match(&mut doc, data, 10, "123"), Some(10));
    assert_eq!(prev_match(&mut doc, data, 0, "bcd"), None);
    assert_eq!(prev_match(&mut doc, data, 35, "34"), Some(5));
    assert_eq!(prev_match(&mut doc, data, 40, "bc"), Some(5));
    assert_eq!(prev_match(&mut doc, data, 47, "bc"), Some(12));
    assert_eq!(prev_match(&mut doc, data, 47, "remain"), None);
}

#[test]
fn test_query_distance_to_next_match() {
    let data = b"1234\nabcd\n1234\nabcd\n1234\nabcd\n1234\nabcd\n\n\n1234\nremain";
    let mut doc = open(data);
    assert_eq!(next_match(&mut doc, data, 0, "123"), Some(0));
    assert_eq!(next_match(&mut doc, data, 5, "123"), Some(5));
    assert_eq!(next_match(&mut doc, data, 10, "123"), Some(0));
    assert_eq!(next_match(&mut doc, data, 0, "bcd"), Some(5));
    assert_eq!(next_match(&mut doc, data, 35, "34"), Some(7));
    assert_eq!(next_match(&mut doc, data, 35, "abcde"), None);
    assert_eq!(next_match(&mut doc, data, 35, "main"), Some(12));
    assert_eq!(next_match(&mut doc, data, 47, "main"), Some(0));
}

#[test]
fn test_query_distance_to_above_n_lines() {
    let data = b"1234\nabcd\n1234\nabcd\n1234\nabcd\n1234\nabcd\n\n\n1234\nremain";
    let mut doc = open(data);
    assert_eq!(above(&mut doc, data, 0, 0), 0);
    assert_eq!(above(&mut doc, data, 5, 0), 0);
    assert_eq!(above(&mut doc, data, 5, 1), 5);
    assert_eq!(above(&mut doc, data, 20, 1), 5);
    assert_eq!(above(&mut doc, data, 30, 6), 30);
    assert_eq!(above(&mut doc, data, 35, 7), 35);
    assert_eq!(above(&mut doc, data, 35, 10), 35);
    assert_eq!(above(&mut doc, data, 40, 0), 0);
    assert_eq!(above(&mut doc, data, 40, 1), 5);
    assert_eq!(above(&mut doc, data, 40, 2), 10);
    assert_eq!(above(&mut doc, data, 41, 1), 1);
    assert_eq!(above(&mut doc, data, 41, 2), 6);
    assert_eq!(above(&mut doc, data, 41, 3), 11);
    assert_eq!(above(&mut doc, data, 42, 1), 1);
    assert_eq!(above(&mut doc, data, 42, 2), 2);
    assert_eq!(above(&mut doc, data, 42, 3), 7);
    assert_eq!(above(&mut doc, data, 47, 0), 0);
    assert_eq!(above(&mut doc, data, 47, 1), 5);
    assert_eq!(above(&mut doc, data, 47, 2), 6);
    assert_eq!(above(&mut doc, data, 47, 3), 7);
    assert_eq!(above(&mut doc, data, 47, 4), 12);
}

#[test]
fn test_query_distance_to_below_n_lines() {
    let data = b"1234\nabcd\n1234\nabcd\n1234\nabcd\n1234\nabcd\nremain";
    let mut doc = open(data);
    assert_eq!(below(&mut doc, data, 0, 2), 10);
    assert_eq!(below(&mut doc, data, 0, 6), 30);
    assert_eq!(below(&mut doc, data, 5, 0), 0);
    assert_eq!(below(&mut doc, data, 20, 1), 5);
    assert_eq!(below(&mut doc, data, 30, 6), 10);
}

#[test]
fn test_query_lines() {
    let data = b"1234\nabcd\n1234\nabcd\n1234\nabcd\n1234\nabcd\nremain";
    let mut doc = open(data);
    doc.default_chunk_size = 10;
    assert_eq!(doc.chunks.len(), 1);
    assert_eq!(doc.last_line, b"remain".to_vec());
    doc.chunks.pop();

    assert_eq!(query_lines(&mut doc, data, 0, 2), vec!["1234", "abcd"]);
    assert_eq!(query_lines(&mut doc, data, 15, 1), vec!["abcd"]);
    assert_eq!(query_lines(&mut doc, data, 0, 1), vec!["1234"]);
    assert_eq!(
        query_lines(&mut doc, data, 15, 3),
        vec!["abcd", "1234", "abcd"]
    );
    assert_eq!(query_lines(&mut doc, data, 35, 1), vec!["abcd"]);
    assert_eq!(query_lines(&mut doc, data, 35, 2), vec!["abcd", "remain"]);

    let data = b"123456789\n\n\nabcd\n123456789\n";
    let mut doc = open(data);
    doc.default_chunk_size = 24;
    assert_eq!(doc.chunks.len(), 1);
    assert_eq!(doc.last_line, b"123456789\n".to_vec());
    doc.chunks.pop();

    assert_eq!(query_lines(&mut doc, data, 0, 2), vec!["123456789", ""]);
    assert_eq!(query_lines(&mut doc, data, 0, 3), vec!["123456789", "", ""]);
    assert_eq!(
        query_lines(&mut doc, data, 0, 4),
        vec!["123456789", "", "", "abcd"]
    );
    assert_eq!(
        query_lines(&mut doc, data, 0, 5),
        vec!["123456789", "", "", "abcd", "123456789"]
    );
    assert_eq!(
        query_lines(&mut doc, data, 0, 6),
        vec!["123456789", "", "", "abcd", "123456789"]
    );
    assert_eq!(
        query_lines(&mut doc, data, 10, 6),
        vec!["", "", "abcd", "123456789"]
    );
    assert_eq!(
        query_lines(&mut doc, data, 11, 6),
        vec!["", "abcd", "123456789"]
    );
    assert_eq!(query_lines(&mut doc, data, 12, 6), vec!["abcd", "123456789"]);
    assert_eq!(query_lines(&mut doc, data, 12, 1), vec!["abcd"]);

    assert_eq!(
        doc.chunks,
        vec![
            Chunk {
                offset_begin: 0,
                offset_end: 12,
                rows: vec![b"123456789".to_vec(), b"".to_vec(), b"".to_vec()]
            },
            Chunk {
                offset_begin: 12,
                offset_end: 17,
                rows: vec![b"abcd".to_vec()]
            },
        ]
    );
}

#[test]
fn test_get_chunk_index_by_offset() {
    let mut doc = open(b"");
    doc.chunks.push(Chunk {
        offset_begin: 0,
        offset_end: 5,
        rows: vec![],
    });
    doc.chunks.push(Chunk {
        offset_begin: 5,
        offset_end: 10,
        rows: vec![],
    });
    doc.chunks.push(Chunk {
        offset_begin: 15,
        offset_end: 20,
        rows: vec![],
    });
    assert_eq!(doc.get_chunk_index_by_offset(0), Some(0));
    assert_eq!(doc.get_chunk_index_by_offset(2), Some(0));
    assert_eq!(doc.get_chunk_index_by_offset(5), Some(1));
    assert_eq!(doc.get_chunk_index_by_offset(10), None);
    assert_eq!(doc.get_chunk_index_by_offset(15), Some(2));
    assert_eq!(doc.get_chunk_index_by_offset(17), Some(2));
    assert_eq!(doc.get_chunk_index_by_offset(21), None);
}

#[test]
fn test_load_chunk() {
    let data = b"1234\n1234\n1234\n1234\n1234\n1234\n1234\n1234\nabc";
    let mut doc = open(data);
    assert_eq!(doc.chunks.len(), 1);
    assert_eq!(doc.last_line, b"abc".to_vec());
    doc.chunks.pop();

    load_chunk(&mut doc, data, 0, 11);
    assert_eq!(doc.chunks[0].offset_begin, 0);
    assert_eq!(doc.chunks[0].offset_end, 10);
    assert_eq!(doc.chunks[0].rows, vec![b"1234".to_vec(), b"1234".to_vec()]);

    load_chunk(&mut doc, data, 5, 16);
    assert_eq!(doc.chunks[1].offset_begin, 10);
    assert_eq!(doc.chunks[1].offset_end, 15);
    assert_eq!(doc.chunks[1].rows.len(), 1);

    load_chunk(&mut doc, data, 28, 39);
    assert_eq!(doc.chunks[2].offset_begin, 30);
    assert_eq!(doc.chunks[2].offset_end, 35);
    assert_eq!(doc.chunks[2].rows.len(), 1);

    load_chunk(&mut doc, data, 15, 28);
    assert_eq!(doc.chunks[2].offset_begin, 15);
    assert_eq!(doc.chunks[2].offset_end, 25);
    assert_eq!(doc.chunks[3].offset_begin, 30);
    assert_eq!(doc.chunks[3].offset_end, 35);

    load_chunk(&mut doc, data, 18, 32);
    assert_eq!(doc.chunks[3].offset_begin, 25);
    assert_eq!(doc.chunks[3].offset_end, 30);
    assert_eq!(doc.chunks[4].offset_begin, 30);
    assert_eq!(doc.chunks[4].offset_end, 35);

    load_chunk(&mut doc, data, 30, 42);
    assert_eq!(doc.chunks[5].offset_begin, 35);
    assert_eq!(doc.chunks[5].offset_end, 40);

    load_chunk(&mut doc, data, 30, 43);
    assert_eq!(doc.chunks[5].offset_begin, 35);
    assert_eq!(doc.chunks[5].offset_end, 40);

    load_chunk(&mut doc, data, 30, 45);
    assert_eq!(doc.chunks[5].offset_begin, 35);
    assert_eq!(doc.chunks[5].offset_end, 40);

    load_chunk(&mut doc, data, 6, 31);
    assert_eq!(doc.chunks.len(), 6);
}

#[test]
fn test_load_chunk_drain() {
    let data = b"1234\n1234\n1234\n1234\n1234\n1234\n1234\n1234\n";
    let mut doc = open(data);
    assert_eq!(doc.chunks.len(), 1);
    assert_eq!(doc.last_line, b"1234\n".to_vec());
    doc.chunks.pop();

    load_chunk(&mut doc, data, 0, 11);
    assert_eq!(doc.chunks[0].offset_begin, 0);
    assert_eq!(doc.chunks[0].offset_end, 10);

    load_chunk(&mut doc, data, 15, 21);
    assert_eq!(doc.chunks[1].offset_begin, 15);
    assert_eq!(doc.chunks[1].offset_end, 20);

    load_chunk(&mut doc, data, 23, 32);
    assert_eq!(doc.chunks.len(), 3);
    assert_eq!(doc.chunks[2].offset_begin, 25);
    assert_eq!(doc.chunks[2].offset_end, 30);

    load_chunk(&mut doc, data, 35, 40);
    assert_eq!(doc.chunks.len(), 3);

    load_chunk(&mut doc, data, 12, 32);
    assert_eq!(doc.chunks.len(), 2);
    assert_eq!(doc.chunks[1].offset_begin, 15);
    assert_eq!(doc.chunks[1].offset_end, 30);
}

#[test]
fn empty_file_has_an_empty_last_line() {
    assert_eq!(Document::tail_window(0), None);
    let mut doc = open(b"");
    assert!(doc.chunks.is_empty());
    assert_eq!(doc.last_line, Vec::<u8>::new());
    assert_eq!(doc.document_size, 0);
    assert_eq!(doc.last_line_start_offset(), 0);
    assert_eq!(doc.percent_ratio_of_offset(0), 100);
    assert_eq!(doc.query_lines(0, 3), Fetch::Ready(vec![Vec::new()]));
    assert_eq!(doc.query_lines(0, 0), Fetch::Ready(Vec::new()));
    assert_eq!(doc.query_distance_to_below_n_lines(0, 5), Fetch::Ready(0));
    assert_eq!(doc.query_distance_to_above_n_lines(0, 5), Fetch::Ready(0));
    assert_eq!(doc.last_line_without_line_break(), Vec::<u8>::new());
}

#[test]
fn last_line_start_is_size_less_last_line() {
    for data in [
        &b"only"[..],
        &b"only\n"[..],
        &b"a\nb"[..],
        &b"a\nb\n"[..],
        &b"\n"[..],
        &b"\n\n"[..],
    ] {
        let doc = open(data);
        assert_eq!(doc.document_size, data.len());
        assert_eq!(
            doc.last_line_start_offset(),
            doc.document_size - doc.last_line.len()
        );
        assert_eq!(doc.last_line, data[doc.last_line_start_offset()..].to_vec());
    }
    let doc = open(b"a\nb\n");
    assert_eq!(doc.last_line, b"b\n".to_vec());
    assert_eq!(doc.last_line_without_line_break(), b"b".to_vec());
    assert_eq!(doc.last_line_start_offset(), 2);
    assert_eq!(doc.percent_ratio_of_offset(1), 50);
    assert_eq!(doc.percent_ratio_of_offset(2), 100);
    assert_eq!(doc.percent_ratio_of_offset(0), 0);
}

#[test]
fn tail_window_reaches_back_a_chunk_and_a_byte() {
    assert_eq!(Document::tail_window(10), Some((0, 10)));
    assert_eq!(
        Document::tail_window(DEFAULT_CHUNK_SIZE + 1),
        Some((0, DEFAULT_CHUNK_SIZE + 1))
    );
    assert_eq!(
        Document::tail_window(DEFAULT_CHUNK_SIZE + 10),
        Some((9, DEFAULT_CHUNK_SIZE + 10))
    );
}

#[test]
fn chunks_stay_in_order_and_apart() {
    let data = b"1234\n1234\n1234\n1234\n1234\n1234\n1234\n1234\nabc";
    let mut doc = open(data);
    doc.chunks.pop();
    for (begin, end) in [(28, 39), (0, 11), (18, 32), (5, 16), (30, 45), (6, 31), (0, 43)] {
        load_chunk(&mut doc, data, begin, end);
        for pair in doc.chunks.windows(2) {
            assert!(pair[0].offset_end <= pair[1].offset_begin);
            assert!(pair[0].offset_begin < pair[0].offset_end);
        }
        for chunk in doc.chunks.iter() {
            let bytes: usize = chunk.rows.iter().map(|row| row.len() + 1).sum();
            assert_eq!(chunk.offset_end - chunk.offset_begin, bytes);
            assert!(chunk.offset_end <= doc.last_line_start_offset());
        }
        assert_eq!(doc.last_line, b"abc".to_vec());
        assert_eq!(doc.document_size, 43);
    }
}

#[test]
fn load_errors() {
    let data = b"1234\n1234\n1234\n1234\nabc";
    let mut doc = open(data);
    doc.chunks.pop();
    // nothing was read
    assert_eq!(doc.plan_load(0, 11), Some((0, 11)));
    assert_eq!(doc.load_chunk(0, 11, &[]), Err(LoadError::NothingRead));
    // the window holds no line break to start after
    assert_eq!(doc.plan_load(6, 9), Some((5, 9)));
    assert_eq!(doc.load_chunk(6, 9, b"1234"), Err(LoadError::LineTooLong));
    // the bytes cut across the last line
    assert_eq!(doc.plan_load(10, 22), Some((9, 22)));
    assert_eq!(
        doc.load_chunk(10, 22, b"\n1234\n1234\nX\n"),
        Err(LoadError::Inconsistent)
    );
    assert!(doc.chunks.is_empty());
    // the bytes cut across a chunk that is loaded
    assert_eq!(load_chunk(&mut doc, data, 10, 16), Some(0));
    assert_eq!((doc.chunks[0].offset_begin, doc.chunks[0].offset_end), (10, 15));
    assert_eq!(doc.plan_load(0, 20), Some((0, 20)));
    assert_eq!(
        doc.load_chunk(0, 20, b"1234\n1234\n12\n4444444"),
        Err(LoadError::Inconsistent)
    );
    assert_eq!(doc.chunks.len(), 1);
    // the tail holds no line break after its first byte
    let long = vec![b'x'; DEFAULT_CHUNK_SIZE + 100];
    let (begin, end) = Document::tail_window(long.len()).unwrap();
    assert_eq!(
        Document::new(long.len(), &long[begin..end]).err(),
        Some(LoadError::LineTooLong)
    );
    assert_eq!(Document::new(5, &[]).err(), Some(LoadError::NothingRead));
}

#[test]
fn loads_keep_the_answers() {
    let data = b"1234\nabcd\n1234\nabcd\n1234\nabcd\n1234\nabcd\nremain";
    let mut doc = open(data);
    doc.default_chunk_size = 10;
    doc.chunks.pop();
    let first = query_lines(&mut doc, data, 5, 4);
    let loaded = doc.chunks.len();
    let second = query_lines(&mut doc, data, 5, 4);
    assert_eq!(first, vec!["abcd", "1234", "abcd", "1234"]);
    assert_eq!(first, second);
    assert_eq!(doc.chunks.len(), loaded);
    // more chunks are loaded: the answer stays
    query_lines(&mut doc, data, 30, 3);
    above(&mut doc, data, 40, 8);
    assert_eq!(query_lines(&mut doc, data, 5, 4), first);
    assert_eq!(doc.document_size, data.len());
    assert_eq!(doc.last_line, b"remain".to_vec());
    // the same answer from a document that holds the file in one chunk
    let mut whole = open(data);
    assert_eq!(query_lines(&mut whole, data, 5, 4), first);
}

#[test]
fn distances_below_add_up() {
    let data = b"1\n22\n333\n4444\n55555\n666666\nlast";
    let mut doc = open(data);
    let starts = [0usize, 2, 5, 9, 14, 20, 27];
    for (index, start) in starts.iter().enumerate() {
        for a in 0..8 {
            for b in 0..8 {
                let first = below(&mut doc, data, *start, a);
                let second = below(&mut doc, data, start + first, b);
                assert_eq!(first + second, below(&mut doc, data, *start, a + b));
                let reached = (index + a).min(starts.len() - 1);
                assert_eq!(first, starts[reached] - start);
            }
        }
    }
}

#[test]
fn queries_say_what_is_missing() {
    let data = b"1234\nabcd\n1234\nabcd\n1234\nabcd\n1234\nabcd\nremain";
    let mut doc = open(data);
    doc.default_chunk_size = 10;
    doc.chunks.pop();
    assert_eq!(doc.query_lines(0, 2), Fetch::Missing(0));
    assert_eq!(doc.query_distance_to_below_n_lines(15, 1), Fetch::Missing(15));
    assert_eq!(doc.query_distance_to_above_n_lines(15, 1), Fetch::Missing(15));
    assert_eq!(doc.query_distance_to_above_n_lines(40, 1), Fetch::Missing(39));
    assert_eq!(doc.assert_offset_is_at_line_start(15), Fetch::Missing(15));
    assert_eq!(doc.get_chunk_by_offset(15), Fetch::Missing(15));
    load_around(&mut doc, data, 15);
    assert_eq!(doc.query_lines(15, 1), Fetch::Ready(vec![b"abcd".to_vec()]));
    assert_eq!(doc.query_lines(15, 2), Fetch::Missing(20));
    assert_eq!(doc.query_distance_to_below_n_lines(15, 1), Fetch::Ready(5));
    assert_eq!(doc.query_distance_to_above_n_lines(15, 1), Fetch::Ready(5));
    assert_eq!(doc.query_distance_to_above_n_lines(15, 2), Fetch::Missing(9));
    assert_eq!(doc.assert_offset_is_at_line_start(15), Fetch::Ready(true));
    assert_eq!(doc.assert_offset_is_at_line_start(16), Fetch::Ready(false));
    assert_eq!(
        doc.query_distance_to_next_match(15, |line: &Vec<u8>| holds(line, "zz")),
        Fetch::Missing(20)
    );
    assert_eq!(
        doc.query_distance_to_prev_match(15, |line: &Vec<u8>| holds(line, "zz")),
        Fetch::Missing(9)
    );
    match doc.get_chunk_by_offset(17) {
        Fetch::Ready(chunk) => assert_eq!((chunk.offset_begin, chunk.offset_end), (10, 20)),
        Fetch::Missing(_) => panic!("the chunk is loaded"),
    }
}

#[test]
fn above_counts_the_line_before_the_last() {
    // the line above the last line is an empty line at the start of the file
    let data = b"\nabc";
    let mut doc = open(data);
    assert_eq!(doc.last_line_start_offset(), 1);
    assert_eq!(above(&mut doc, data, 1, 1), 1);
    assert_eq!(prev_match(&mut doc, data, 1, ""), Some(1));
}

#[test]
fn set_default_chunk_size_sets_it() {
    let mut doc = open(b"a\nb");
    assert_eq!(doc.default_chunk_size, DEFAULT_CHUNK_SIZE);
    doc.set_default_chunk_size(2);
    assert_eq!(doc.default_chunk_size, 2);
    assert_eq!(doc.plan_load_around(0), None);
}

#[test]
fn bytes_that_are_no_text_are_refused() {
    let data = b"1234\n1234\n1234\n1234\nabc";
    let mut doc = open(data);
    doc.chunks.pop();
    assert_eq!(doc.plan_load(0, 11), Some((0, 11)));
    let before = (doc.chunks.len(), doc.last_line.clone(), doc.document_size);
    // a byte that starts no character
    assert_eq!(
        doc.load_chunk(0, 11, b"1234\n\xff234\n1"),
        Err(LoadError::InvalidUtf8)
    );
    // a character cut in two by the end of the window
    assert_eq!(
        doc.load_chunk(0, 11, b"1234\n1234\n\xc3"),
        Err(LoadError::InvalidUtf8)
    );
    assert_eq!(
        (doc.chunks.len(), doc.last_line.clone(), doc.document_size),
        before
    );
    // bytes beyond the window are not looked at
    assert_eq!(doc.load_chunk(0, 11, b"1234\n1234\n1\xff"), Ok(Some(0)));
    assert_eq!(doc.chunks[0].rows, vec![b"1234".to_vec(), b"1234".to_vec()]);
    // text in more than one byte is taken as it is
    let wide = "a\u{e9}\n\u{4e2d}\u{6587}\nz".as_bytes();
    let mut doc = open(wide);
    assert_eq!(doc.chunks.len(), 1);
    assert_eq!(
        doc.chunks[0].rows,
        vec!["a\u{e9}".as_bytes().to_vec(), "\u{4e2d}\u{6587}".as_bytes().to_vec()]
    );
    assert_eq!(doc.last_line, b"z".to_vec());
    assert_eq!(doc.last_line_start_offset(), 11);
    // the tail of a file is held to the same
    assert_eq!(
        Document::new(4, b"a\n\xffz").err(),
        Some(LoadError::InvalidUtf8)
    );
    assert_eq!(doc.query_lines(0, 1), Fetch::Ready(vec!["a\u{e9}".as_bytes().to_vec()]));
}

fn tail_of(data: &[u8]) -> &[u8] {
    match Document::tail_window(data.len()) {
        Some((begin, end)) => &data[begin..end],
        None => &[],
    }
}

#[test]
fn a_grown_file_keeps_its_chunks() {
    let data = b"one\ntwo\nthree";
    let mut doc = open(data);
    assert_eq!(doc.chunks.len(), 1);
    assert_eq!(doc.last_line_start_offset(), 8);
    // the same size changes nothing
    assert_eq!(doc.update_docsize_and_lastline(data.len(), b""), Ok(false));
    assert_eq!(doc.last_line, b"three".to_vec());
    // the file has grown by a line and a half
    let grown = b"one\ntwo\nthree\nfour\nfi";
    assert_eq!(
        doc.update_docsize_and_lastline(grown.len(), tail_of(grown)),
        Ok(true)
    );
    assert_eq!(doc.document_size, grown.len());
    assert_eq!(doc.last_line, b"fi".to_vec());
    assert_eq!(doc.last_line_start_offset(), 19);
    assert_eq!(doc.chunks.len(), 1);
    assert_eq!(
        (doc.chunks[0].offset_begin, doc.chunks[0].offset_end),
        (0, 8)
    );
    assert_eq!(
        query_lines(&mut doc, grown, 0, 10),
        vec!["one", "two", "three", "four", "fi"]
    );
    // a tail that cannot be read leaves the document as it is
    assert_eq!(
        doc.update_docsize_and_lastline(30, b""),
        Err(LoadError::NothingRead)
    );
    assert_eq!(
        doc.update_docsize_and_lastline(30, b"\xff\n"),
        Err(LoadError::InvalidUtf8)
    );
    assert_eq!(doc.document_size, grown.len());
    assert_eq!(doc.last_line, b"fi".to_vec());
}

#[test]
fn a_shorter_file_drops_the_chunks_that_reach_too_far() {
    let data = b"one\ntwo\nthree\nfour";
    let mut doc = open(data);
    assert_eq!(doc.chunks.len(), 1);
    assert_eq!(doc.chunks[0].offset_end, 14);
    doc.log_timestamp_format = Some("%H".to_string());
    doc.log_default_date = Some(loss::log_timestamp::LogDate { days: 1 });
    let short = b"one\ntw";
    assert_eq!(
        doc.update_docsize_and_lastline(short.len(), tail_of(short)),
        Ok(true)
    );
    assert_eq!(doc.document_size, 6);
    assert_eq!(doc.last_line, b"tw".to_vec());
    assert!(doc.chunks.is_empty());
    assert_eq!(doc.log_timestamp_format, None);
    assert_eq!(doc.log_default_date, None);
    assert_eq!(query_lines(&mut doc, short, 0, 10), vec!["one", "tw"]);
    // an empty file
    assert_eq!(doc.update_docsize_and_lastline(0, b""), Ok(true));
    assert_eq!(doc.document_size, 0);
    assert!(doc.last_line.is_empty());
}
