use backend_supervisor::lines::LineSplitter;

#[test]
fn splitter_returns_completed_lines_in_order() {
    let mut s = LineSplitter::new();
    let lines = s.push(b"one\ntwo\nthr");
    assert_eq!(lines, vec![b"one".to_vec(), b"two".to_vec()]);
    let lines = s.push(b"ee\n");
    assert_eq!(lines, vec![b"three".to_vec()]);
}

#[test]
fn splitter_keeps_open_line_without_newline() {
    let mut s = LineSplitter::new();
    assert!(s.push(b"partial").is_empty());
    assert!(s.push(b"").is_empty());
    assert_eq!(s.push(b"\n"), vec![b"partial".to_vec()]);
}

#[test]
fn splitter_gives_empty_lines_for_consecutive_newlines() {
    let mut s = LineSplitter::new();
    assert_eq!(s.push(b"\n\n"), vec![Vec::<u8>::new(), Vec::<u8>::new()]);
}

#[test]
fn splitter_on_empty_input_gives_nothing() {
    let mut s = LineSplitter::new();
    assert!(s.push(&[]).is_empty());
}
