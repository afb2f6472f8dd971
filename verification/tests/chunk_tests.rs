use loss::chunk::{copy_range, find_break, Chunk};

fn rows(chunk: &Chunk) -> Vec<String> {
    chunk
        .rows
        .iter()
        .map(|row| String::from_utf8(row.clone()).unwrap())
        .collect()
}

#[test]
fn test_query_line_index() {
    let content = "123456\n12345\n12\n\n123456\n";
    let chunk = Chunk::build_chunk(content.as_bytes(), 0, false, false);
    assert_eq!(chunk.offset_begin, 0);
    assert_eq!(chunk.offset_end, 24);
    assert_eq!(chunk.rows.len(), 5);
    assert_eq!(chunk.query_line_index(0), 0);
    assert_eq!(chunk.query_line_index(6), 0);
    assert_eq!(chunk.query_line_index(9), 1);
    assert_eq!(chunk.query_line_index(13), 2);
    assert_eq!(chunk.query_line_index(15), 2);
    assert_eq!(chunk.query_line_index(16), 3);
    assert_eq!(chunk.query_line_index(17), 4);
    assert_eq!(chunk.query_line_index(22), 4);
    assert_eq!(chunk.query_line_index(23), 4);
}

#[test]
fn test_build_chunk() {
    let content = "123456\n12345\n12\n\n123456";

    let chunk = Chunk::build_chunk(content.as_bytes(), 2, false, false);
    assert_eq!(chunk.offset_begin, 2);
    assert_eq!(chunk.offset_end, 25);
    assert_eq!(rows(&chunk), vec!["123456", "12345", "12", "", "123456"]);

    let chunk = Chunk::build_chunk(content.as_bytes(), 2, true, false);
    assert_eq!(chunk.offset_begin, 9);
    assert_eq!(chunk.offset_end, 25);
    assert_eq!(rows(&chunk), vec!["12345", "12", "", "123456"]);

    let chunk = Chunk::build_chunk(content.as_bytes(), 2, false, true);
    assert_eq!(chunk.offset_begin, 2);
    assert_eq!(chunk.offset_end, 19);
    assert_eq!(rows(&chunk), vec!["123456", "12345", "12", ""]);

    let chunk = Chunk::build_chunk(content.as_bytes(), 2, true, true);
    assert_eq!(chunk.offset_begin, 9);
    assert_eq!(chunk.offset_end, 19);
    assert_eq!(rows(&chunk), vec!["12345", "12", ""]);

    let content = "\nabc\n12\n\n\n12345\n";

    let chunk = Chunk::build_chunk(content.as_bytes(), 1, false, false);
    assert_eq!(chunk.offset_begin, 1);
    assert_eq!(chunk.offset_end, 17);
    assert_eq!(rows(&chunk), vec!["", "abc", "12", "", "", "12345"]);

    let chunk = Chunk::build_chunk(content.as_bytes(), 1, true, false);
    assert_eq!(chunk.offset_begin, 2);
    assert_eq!(chunk.offset_end, 17);
    assert_eq!(rows(&chunk), vec!["abc", "12", "", "", "12345"]);

    let chunk = Chunk::build_chunk(content.as_bytes(), 1, false, true);
    assert_eq!(chunk.offset_begin, 1);
    assert_eq!(chunk.offset_end, 17);
    assert_eq!(rows(&chunk), vec!["", "abc", "12", "", "", "12345"]);

    let chunk = Chunk::build_chunk(content.as_bytes(), 1, true, true);
    assert_eq!(chunk.offset_begin, 2);
    assert_eq!(chunk.offset_end, 17);
    assert_eq!(rows(&chunk), vec!["abc", "12", "", "", "12345"]);
}

#[test]
fn chunk_span_counts_rows_and_line_breaks() {
    // a chunk that ends at a line break: every row counts with its break
    let closed = Chunk::build_chunk(b"ab\ncde\n", 10, false, false);
    let bytes: usize = closed.rows.iter().map(|row| row.len()).sum();
    assert_eq!(closed.offset_end - closed.offset_begin, bytes + closed.rows.len());
    // a chunk with an open last row: that row counts without a break
    let open = Chunk::build_chunk(b"ab\ncde", 10, false, false);
    let bytes: usize = open.rows.iter().map(|row| row.len()).sum();
    assert_eq!(open.offset_end - open.offset_begin, bytes + open.rows.len() - 1);
}

#[test]
fn build_chunk_of_nothing_and_of_breaks_only() {
    let empty = Chunk::build_chunk(b"", 7, false, false);
    assert_eq!((empty.offset_begin, empty.offset_end), (7, 7));
    assert!(empty.rows.is_empty());
    let breaks = Chunk::build_chunk(b"\n\n", 0, false, true);
    assert_eq!(rows(&breaks), vec!["", ""]);
    assert_eq!((breaks.offset_begin, breaks.offset_end), (0, 2));
    // the first line break is the last byte: nothing is left after the drop
    let dropped = Chunk::build_chunk(b"abc\n", 3, true, false);
    assert_eq!((dropped.offset_begin, dropped.offset_end), (7, 7));
    assert!(dropped.rows.is_empty());
}

#[test]
fn query_line_index_exactly_and_row_starts() {
    let chunk = Chunk::build_chunk(b"123456\n12345\n12\n\n123456\n", 100, false, false);
    assert_eq!(chunk.query_line_index_exactly(100), 0);
    assert_eq!(chunk.query_line_index_exactly(107), 1);
    assert_eq!(chunk.query_line_index_exactly(113), 2);
    assert_eq!(chunk.query_line_index_exactly(116), 3);
    assert_eq!(chunk.query_line_index_exactly(117), 4);
    assert_eq!(chunk.query_line_start_offset(0), 100);
    assert_eq!(chunk.query_line_start_offset(1), 107);
    assert_eq!(chunk.query_line_start_offset(3), 116);
    assert_eq!(chunk.query_line_start_offset(5), 124);
    assert!(chunk.is_row_start(100));
    assert!(chunk.is_row_start(116));
    assert!(!chunk.is_row_start(101));
    assert!(!chunk.is_row_start(124));
    assert!(!chunk.is_row_start(99));
}

#[test]
fn find_break_and_copy_range() {
    let text = b"ab\ncd";
    assert_eq!(find_break(text, 0), 2);
    assert_eq!(find_break(text, 2), 2);
    assert_eq!(find_break(text, 3), 5);
    assert_eq!(find_break(text, 5), 5);
    assert_eq!(copy_range(text, 1, 4), b"b\nc".to_vec());
    assert_eq!(copy_range(text, 2, 2), Vec::<u8>::new());
}
