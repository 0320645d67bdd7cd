use batchrun::split_input::Splitter;

#[test]
fn null_splitter() {
    let buffer = b"foo\0bar\0baz\0";
    let result: Vec<_> = Splitter::null(buffer).collect();
    assert_eq!(result, vec!["foo", "bar", "baz"]);
}

#[test]
fn null_splitter_no_null() {
    let buffer = b"foo bar baz";
    let result: Vec<_> = Splitter::null(buffer).collect();
    assert_eq!(result, vec!["foo bar baz"]);
}

#[test]
fn whitespace_splitter() {
    let buffer = b"foo bar baz";
    let result: Vec<_> = Splitter::whitespace(buffer).collect();
    assert_eq!(result, vec!["foo", "bar", "baz"]);
}

#[test]
fn whitespace_splitter_no_whitespace() {
    let buffer = b"foo\0bar\0baz\0";
    let result: Vec<_> = Splitter::whitespace(buffer).collect();
    assert_eq!(result, vec!["foo\0bar\0baz\0"]);
}

#[test]
fn splitter_empty() {
    let buffer = b"";
    let result = Splitter::null(buffer).collect();
    assert_eq!(result, Vec::<&str>::new());
    let result: Vec<_> = Splitter::whitespace(buffer).collect();
    assert_eq!(result, Vec::<&str>::new());
}

#[test]
fn bad_utf8() {
    let buffer = b"foo\xFFbar";
    let result: Vec<_> = Splitter::null(buffer).collect();
    assert_eq!(result, vec!["foo"]);
    let result: Vec<_> = Splitter::whitespace(buffer).collect();
    assert_eq!(result, vec!["foo"]);
}

#[test]
fn chunks_1() {
    let buffer = b"foo\0bar\0baz\0";
    let result: Vec<_> = Splitter::null(buffer).chunks(1).collect();
    assert_eq!(result, vec![vec!["foo"], vec!["bar"], vec!["baz"]]);
}

#[test]
fn chunks_incomplete() {
    let buffer = b"foo\0bar\0baz\0";
    let result: Vec<_> = Splitter::null(buffer).chunks(2).collect();
    assert_eq!(result, vec![vec!["foo", "bar"], vec!["baz"]]);
}

#[test]
fn whitespace_runs_of_mixed_whitespace() {
    let buffer = b"  foo\t\tbar\r\n baz \x0c";
    let result = Splitter::whitespace(buffer).collect();
    assert_eq!(result, vec!["foo", "bar", "baz"]);
}

#[test]
fn whitespace_only_is_no_token() {
    let result = Splitter::whitespace(b" \n\t ").collect();
    assert_eq!(result, Vec::<&str>::new());
}

#[test]
fn whitespace_drops_invalid_bytes_within_their_token() {
    let result = Splitter::whitespace(b"ab cd\xC3 ef").collect();
    assert_eq!(result, vec!["ab", "cd", "ef"]);
    let result = Splitter::whitespace(b"a\xFF b").collect();
    assert_eq!(result, vec!["a", "b"]);
}

#[test]
fn whitespace_keeps_multibyte_characters() {
    let result = Splitter::whitespace("h\u{e9}llo w\u{f6}rld".as_bytes()).collect();
    assert_eq!(result, vec!["h\u{e9}llo", "w\u{f6}rld"]);
}

#[test]
fn null_without_trailing_nul() {
    let result = Splitter::null(b"a b\0c").collect();
    assert_eq!(result, vec!["a b", "c"]);
}

#[test]
fn null_invalid_bytes_dropped_within_token() {
    let result = Splitter::null(b"ab\xFFcd\0ef\0").collect();
    assert_eq!(result, vec!["ab", "ef"]);
}

#[test]
fn null_token_of_only_invalid_bytes_is_empty() {
    let result = Splitter::null(b"\xFF\0x\0").collect();
    assert_eq!(result, vec!["", "x"]);
}

#[test]
fn null_stream_ends_at_empty_token() {
    let result = Splitter::null(b"a\0\0b\0").collect();
    assert_eq!(result, vec!["a"]);
}

#[test]
fn next_yields_tokens_then_none() {
    let mut s = Splitter::null(b"x\0y");
    assert_eq!(s.next(), Some("x".to_string()));
    assert_eq!(s.next(), Some("y".to_string()));
    assert_eq!(s.next(), None);
    assert_eq!(s.next(), None);
}

#[test]
fn batches_of_three_over_seven_tokens() {
    let result = Splitter::whitespace(b"1 2 3 4 5 6 7").chunks(3).collect();
    assert_eq!(result.len(), 3);
    assert_eq!(result, vec![vec!["1", "2", "3"], vec!["4", "5", "6"], vec!["7"]]);
    let flat: Vec<String> = result.into_iter().flatten().collect();
    assert_eq!(flat, vec!["1", "2", "3", "4", "5", "6", "7"]);
}

#[test]
fn batches_exact_multiple() {
    let result = Splitter::whitespace(b"a b c d").chunks(2).collect();
    assert_eq!(result, vec![vec!["a", "b"], vec!["c", "d"]]);
}

#[test]
fn batches_of_empty_input() {
    let result = Splitter::whitespace(b"").chunks(4).collect();
    assert!(result.is_empty());
}

#[test]
fn batch_size_zero_gives_no_batches() {
    let mut chunks = Splitter::whitespace(b"a b").chunks(0);
    assert_eq!(chunks.next(), None);
}

#[test]
fn chunks_next_one_at_a_time() {
    let mut chunks = Splitter::null(b"a\0b\0c").chunks(2);
    assert_eq!(chunks.next(), Some(vec!["a".to_string(), "b".to_string()]));
    assert_eq!(chunks.next(), Some(vec!["c".to_string()]));
    assert_eq!(chunks.next(), None);
}
