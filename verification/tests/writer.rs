use log_collector::writer::{line_count, LineWriter};

#[test]
fn forward_gap_is_padded_with_blank_lines() {
    let mut w = LineWriter::new(0);
    let mut content: Vec<u8> = Vec::new();
    content.extend_from_slice(&w.write_to_line(1, b"line-1"));
    content.extend_from_slice(&w.write_to_line(5, b"line-5"));
    assert_eq!(content, b"line-1\n\n\n\nline-5\n".to_vec());
}

#[test]
fn leading_gap_is_padded_with_blank_lines() {
    let mut w = LineWriter::new(0);
    let content = w.write_to_line(3, b"line-3");
    assert_eq!(content, b"\n\nline-3\n".to_vec());
}

#[test]
fn backward_line_number_appends_without_padding() {
    let mut w = LineWriter::new(0);
    let mut content: Vec<u8> = Vec::new();
    content.extend_from_slice(&w.write_to_line(5, b"five"));
    // A line number at or below the cursor appends right after prior
    // content; nothing already written moves.
    content.extend_from_slice(&w.write_to_line(2, b"two"));
    content.extend_from_slice(&w.write_to_line(5, b"five-again"));
    assert_eq!(content, b"\n\n\n\nfive\ntwo\nfive-again\n".to_vec());
}

#[test]
fn reopened_resource_continues_at_its_line_count() {
    let existing = b"line-1\n\n\n\nline-5\n";
    assert_eq!(line_count(existing), 5);
    let mut w = LineWriter::new(line_count(existing));
    let chunk = w.write_to_line(7, b"line-7");
    assert_eq!(chunk, b"\nline-7\n".to_vec());
}

#[test]
fn line_count_counts_terminated_and_partial_lines() {
    assert_eq!(line_count(b""), 0);
    assert_eq!(line_count(b"a"), 1);
    assert_eq!(line_count(b"a\n"), 1);
    assert_eq!(line_count(b"a\nb"), 2);
    assert_eq!(line_count(b"a\nb\n"), 2);
    assert_eq!(line_count(b"\n"), 1);
}
