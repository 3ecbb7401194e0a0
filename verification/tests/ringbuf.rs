use snag::daemon::ringbuf::RingBuffer;

#[test]
fn test_write_and_read() {
    let mut rb = RingBuffer::new(16);
    rb.write(b"hello");
    assert_eq!(rb.len(), 5);
    assert_eq!(rb.all_bytes(), b"hello");
}

#[test]
fn test_wrap_around() {
    let mut rb = RingBuffer::new(8);
    rb.write(b"12345");
    rb.write(b"67890");
    assert_eq!(rb.len(), 8);
    assert_eq!(rb.all_bytes(), b"34567890");
}

#[test]
fn test_data_larger_than_capacity() {
    let mut rb = RingBuffer::new(4);
    rb.write(b"abcdefgh");
    assert_eq!(rb.len(), 4);
    assert_eq!(rb.all_bytes(), b"efgh");
}

#[test]
fn test_last_n_lines() {
    let mut rb = RingBuffer::new(64);
    rb.write(b"line1\nline2\nline3\nline4\n");
    let last2 = rb.last_n_lines(2);
    assert_eq!(last2, b"line3\nline4\n");
}

#[test]
fn test_empty() {
    let rb = RingBuffer::new(16);
    assert!(rb.is_empty());
    assert_eq!(rb.len(), 0);
    assert_eq!(rb.all_bytes(), b"");
}

#[test]
fn split_writes_keep_the_same_bytes() {
    let mut a = RingBuffer::new(6);
    a.write(b"abcd");
    a.write(b"efgh");
    let mut b = RingBuffer::new(6);
    b.write(b"abcdefgh");
    assert_eq!(a.all_bytes(), b.all_bytes());
    assert_eq!(a.all_bytes(), b"cdefgh");
}

#[test]
fn last_lines_without_trailing_newline() {
    let mut rb = RingBuffer::new(64);
    rb.write(b"a\nb\nc");
    // The count goes by newlines: one newline after the cut.
    assert_eq!(rb.last_n_lines(1), b"b\nc");
    assert_eq!(rb.last_n_lines(2), b"a\nb\nc");
    assert_eq!(rb.last_n_lines(5), b"a\nb\nc");
    assert_eq!(rb.last_n_lines(0), b"");
}

#[test]
fn zero_capacity_keeps_nothing() {
    let mut rb = RingBuffer::new(0);
    rb.write(b"abc");
    assert!(rb.is_empty());
    assert_eq!(rb.all_bytes(), b"");
}

#[test]
fn clear_empties_and_keeps_capacity() {
    let mut rb = RingBuffer::new(4);
    rb.write(b"xyz");
    rb.clear();
    assert!(rb.is_empty());
    rb.write(b"123456");
    assert_eq!(rb.all_bytes(), b"3456");
}

#[test]
fn as_slices_join_to_contents() {
    let mut rb = RingBuffer::new(5);
    rb.write(b"abcd");
    rb.write(b"efg");
    let (x, y) = rb.as_slices();
    let mut joined = x.to_vec();
    joined.extend_from_slice(y);
    assert_eq!(joined, b"cdefg");
}

#[test]
fn holds_last_bytes_written_since_clear() {
    let mut rb = RingBuffer::new(4);
    rb.write(b"old data");
    rb.clear();
    rb.write(b"ab");
    rb.write(b"cde");
    rb.write(b"f");
    assert_eq!(rb.all_bytes(), b"cdef".to_vec());
    let (a, b) = rb.as_slices();
    let mut joined = a.to_vec();
    joined.extend_from_slice(b);
    assert_eq!(joined, b"cdef".to_vec());
    assert_eq!(a.len() + b.len(), rb.len());
}
