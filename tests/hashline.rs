use hashfile::anchor::{hash_lines, resolve_anchor, resolve_hashed, tag_content, HashlineError, LineAnchor};
use hashfile::text::{join_lines, push_decimal, push_hex};
use hashfile::hashing::{compute_file_hash, hash_line};
use hashfile::ops::{apply_operations, HashlineOperation, OperationType};
use hashfile::tools::{edit_text, parse_operation_type, read_text, EditOperation};

fn anchor(n: usize, line: &str) -> LineAnchor {
    LineAnchor { line_num: n, hash: hash_line(line) }
}

fn op(kind: OperationType, a: LineAnchor, end: Option<LineAnchor>, content: Option<&str>) -> HashlineOperation {
    HashlineOperation { op_type: kind, anchor: a, end_anchor: end, content: content.map(|c| c.to_string()) }
}

fn edit(op_type: &str, a: &str, end: Option<&str>, content: Option<&str>) -> EditOperation {
    EditOperation {
        op_type: op_type.to_string(),
        anchor: a.to_string(),
        end_anchor: end.map(|e| e.to_string()),
        content: content.map(|c| c.to_string()),
    }
}

#[test]
fn test_hash_line() {
    assert_eq!(hash_line("hello"), hash_line("hello  "));
    assert_ne!(hash_line("hello"), hash_line("world"));
    let h = hash_line("test");
    assert_eq!(h.len(), 2);
}

#[test]
fn test_apply_operations() -> Result<(), HashlineError> {
    let content = "line1\nline2\nline3\n";
    let h2 = hash_line("line2");
    let ops = vec![HashlineOperation {
        op_type: OperationType::Replace,
        anchor: format!("2:{}", h2).parse()?,
        end_anchor: None,
        content: Some("new line 2".to_string()),
    }];

    let result = apply_operations(content, ops)?;
    assert_eq!(result, "line1\nnew line 2\nline3\n");
    Ok(())
}

#[test]
fn hash_values_are_fnv1a() {
    // FNV-1a 64 of the empty input is cbf29ce484222325, of "a" af63dc4c8601ec8c.
    assert_eq!(hash_line(""), "25");
    assert_eq!(compute_file_hash(""), "222325");
    assert_eq!(hash_line("a"), "8c");
    assert_eq!(compute_file_hash("a"), "01ec8c");
}

#[test]
fn trailing_whitespace_is_ignored_by_line_hash() {
    assert_eq!(hash_line("a \t "), "8c");
    assert_eq!(hash_line("let x = 1;"), hash_line("let x = 1;\u{3000} "));
    assert_ne!(compute_file_hash("a "), compute_file_hash("a"));
}

#[test]
fn digest_is_stable_and_sensitive() {
    let content = "fn main() {}\n";
    assert_eq!(compute_file_hash(content), compute_file_hash(content));
    assert_ne!(compute_file_hash(content), compute_file_hash("fn main() {}\n "));
    assert_eq!(compute_file_hash(content).len(), 6);
}

#[test]
fn tag_content_renders_records() {
    let t = tag_content("a\nb");
    assert_eq!(t, format!("1:8c|a\n2:{}|b\n", hash_line("b")));
    assert_eq!(tag_content(""), "");
    assert_eq!(tag_content("x\r\ny\n"), format!("1:{}|x\n2:{}|y\n", hash_line("x"), hash_line("y")));
}

#[test]
fn read_text_adds_metadata() {
    let out = read_text("a\n");
    assert_eq!(out, format!("1:8c|a\n---\nhashline_version: 1\ntotal_lines: 1\nfile_hash: {}\n", compute_file_hash("a\n")));
}

#[test]
fn parse_anchor_forms() {
    let a: LineAnchor = "12:ab".parse().unwrap();
    assert_eq!(a.line_num, 12);
    assert_eq!(a.hash, "ab");
    assert!(matches!("12".parse::<LineAnchor>(), Err(HashlineError::InvalidAnchorFormat)));
    assert!(matches!("1:2:3".parse::<LineAnchor>(), Err(HashlineError::InvalidAnchorFormat)));
    assert!(matches!("x:ab".parse::<LineAnchor>(), Err(HashlineError::InvalidLineNumber)));
    assert!(matches!(":ab".parse::<LineAnchor>(), Err(HashlineError::InvalidLineNumber)));
    assert!(matches!("99999999999999999999999:ab".parse::<LineAnchor>(), Err(HashlineError::InvalidLineNumber)));
    assert!(matches!("+7:ab".parse::<LineAnchor>(), Err(HashlineError::InvalidLineNumber)));
    assert!(matches!(LineAnchor::parse("3:"), Err(HashlineError::InvalidHash)));
    assert!(matches!(LineAnchor::parse("3:zz"), Err(HashlineError::InvalidHash)));
    assert!(matches!(LineAnchor::parse("3:AB"), Err(HashlineError::InvalidHash)));
    let b = LineAnchor::parse("0:0f9").unwrap();
    assert_eq!(b.line_num, 0);
    assert_eq!(b.hash, "0f9");
}

#[test]
fn resolver_exact_match() {
    let lines = ["a", "b", "c"];
    assert_eq!(resolve_anchor(&lines, &anchor(2, "b")), Ok(1));
}

#[test]
fn resolver_fuzzy_fallback() {
    let lines = ["a", "c", "b"];
    assert_eq!(resolve_anchor(&lines, &anchor(2, "b")), Ok(2));
}

#[test]
fn resolver_ambiguous() {
    let lines = ["x", "x"];
    match resolve_anchor(&lines, &anchor(5, "x")) {
        Err(HashlineError::AnchorAmbiguous { line_num, count, .. }) => {
            assert_eq!(line_num, 5);
            assert_eq!(count, 2);
        }
        other => panic!("unexpected {:?}", other),
    }
}

#[test]
fn resolver_not_found() {
    let lines = ["a", "b"];
    let mut h = hash_line("zzz");
    if h == hash_line("a") || h == hash_line("b") {
        h = hash_line("yyy");
    }
    let a = LineAnchor { line_num: 1, hash: h.clone() };
    assert_eq!(resolve_anchor(&lines, &a), Err(HashlineError::AnchorNotFound { line_num: 1, hash: h }));
}

#[test]
fn delete_range() {
    let content = "line1\nline2\nline3\n";
    let ops = vec![op(OperationType::Delete, anchor(1, "line1"), Some(anchor(2, "line2")), None)];
    assert_eq!(apply_operations(content, ops), Ok("line3\n".to_string()));
}

#[test]
fn inserts_before_and_after() {
    let content = "a\nb";
    let ops = vec![
        op(OperationType::InsertAfter, anchor(2, "b"), None, Some("c\nd")),
        op(OperationType::InsertBefore, anchor(1, "a"), None, Some("z")),
    ];
    assert_eq!(apply_operations(content, ops), Ok("z\na\nb\nc\nd".to_string()));
    let none = vec![op(OperationType::InsertAfter, anchor(1, "a"), None, None)];
    assert_eq!(apply_operations(content, none), Ok("a\nb".to_string()));
}

#[test]
fn replace_range_without_content_deletes() {
    let content = "a\nb\nc\n";
    let ops = vec![op(OperationType::Replace, anchor(1, "a"), Some(anchor(2, "b")), None)];
    assert_eq!(apply_operations(content, ops), Ok("c\n".to_string()));
}

#[test]
fn inverted_range_is_refused() {
    let content = "a\nb\nc\n";
    let ops = vec![op(OperationType::Delete, anchor(3, "c"), Some(anchor(1, "a")), None)];
    assert_eq!(apply_operations(content, ops), Err(HashlineError::InvertedRange));
}

#[test]
fn overlapping_deletes_are_refused() {
    let content = "a\nb\nc\n";
    let ops = vec![
        op(OperationType::Delete, anchor(3, "c"), None, None),
        op(OperationType::Delete, anchor(2, "b"), Some(anchor(3, "c")), None),
    ];
    assert_eq!(apply_operations(content, ops), Err(HashlineError::RangeOutOfBounds));
}

#[test]
fn empty_batch_round_trips() {
    for content in ["", "\n", "a", "a\n", "a\n\n", "a\nb\n", "  x \n\ny"] {
        assert_eq!(apply_operations(content, vec![]), Ok(content.to_string()));
    }
}

#[test]
fn batch_order_does_not_matter() {
    let content = "l1\nl2\nl3\n";
    let first = || op(OperationType::Replace, anchor(1, "l1"), None, Some("one"));
    let third = || op(OperationType::InsertAfter, anchor(3, "l3"), None, Some("four"));
    let x = apply_operations(content, vec![first(), third()]);
    let y = apply_operations(content, vec![third(), first()]);
    assert_eq!(x, y);
    assert_eq!(x, Ok("one\nl2\nl3\nfour\n".to_string()));
}

#[test]
fn edit_with_current_digest() {
    let content = "line1\nline2\nline3\n";
    let digest = compute_file_hash(content);
    let a = format!("2:{}", hash_line("line2"));
    let r = edit_text(content, &digest, vec![edit("replace", &a, None, Some("new line 2"))]);
    assert_eq!(r, Ok("line1\nnew line 2\nline3\n".to_string()));
}

#[test]
fn edit_after_external_change_conflicts() {
    let content = "line1\nline2\nline3\n";
    let digest = compute_file_hash(content);
    let changed = format!("{}line4\n", content);
    let a = format!("1:{}", hash_line("line1"));
    let r = edit_text(&changed, &digest, vec![edit("delete", &a, None, None)]);
    assert_eq!(r, Err(HashlineError::Conflict));
}

#[test]
fn edit_refuses_unknown_operation_and_bad_anchor() {
    let content = "a\n";
    let digest = compute_file_hash(content);
    let r = edit_text(content, &digest, vec![edit("move", "1:8c", None, None)]);
    assert_eq!(r, Err(HashlineError::UnknownOperation { name: "move".to_string() }));
    let r = edit_text(content, &digest, vec![edit("delete", "1-8c", None, None)]);
    assert_eq!(r, Err(HashlineError::InvalidAnchorFormat));
    let r = edit_text(content, &digest, vec![edit("delete", "1:8c", Some("q:8c"), None)]);
    assert_eq!(r, Err(HashlineError::InvalidLineNumber));
    assert_eq!(parse_operation_type(&"insert_before".to_string()), Ok(OperationType::InsertBefore));
}

#[test]
fn resolver_over_given_hashes() {
    let hs: Vec<String> = vec!["aa".to_string(), "cc".to_string(), "bb".to_string()];
    let a = LineAnchor { line_num: 2, hash: "bb".to_string() };
    assert_eq!(resolve_hashed(&hs, &a), Ok(2));
    let a = LineAnchor { line_num: 2, hash: "cc".to_string() };
    assert_eq!(resolve_hashed(&hs, &a), Ok(1));
    let a = LineAnchor { line_num: 0, hash: "aa".to_string() };
    assert_eq!(resolve_hashed(&hs, &a), Ok(0));
    let a = LineAnchor { line_num: 1, hash: "dd".to_string() };
    assert_eq!(resolve_hashed(&hs, &a), Err(HashlineError::AnchorNotFound { line_num: 1, hash: "dd".to_string() }));
}

#[test]
fn hash_lines_hashes_each_line() {
    assert_eq!(hash_lines(&["a", "", "a  "]), vec!["8c".to_string(), "25".to_string(), "8c".to_string()]);
}

#[test]
fn digit_rendering() {
    let mut s = String::from("n=");
    push_decimal(&mut s, 0);
    push_decimal(&mut s, 1207);
    assert_eq!(s, "n=01207");
    let mut h = String::new();
    push_hex(&mut h, 0xab3, 6);
    push_hex(&mut h, 0x1ff, 2);
    assert_eq!(h, "000ab3ff");
}

#[test]
fn join_lines_puts_newlines_between() {
    assert_eq!(join_lines(&vec![]), "");
    assert_eq!(join_lines(&vec!["a".to_string()]), "a");
    assert_eq!(join_lines(&vec!["a".to_string(), "".to_string(), "b".to_string()]), "a\n\nb");
}

#[test]
fn line_number_zero_names_no_line() {
    let lines = ["x", "x"];
    match resolve_anchor(&lines, &anchor(0, "x")) {
        Err(HashlineError::AnchorAmbiguous { line_num, count, .. }) => {
            assert_eq!(line_num, 0);
            assert_eq!(count, 2);
        }
        other => panic!("unexpected {:?}", other),
    }
    assert_eq!(resolve_anchor(&["x", "y"], &anchor(0, "x")), Ok(0));
}

#[test]
fn read_text_of_empty_content() {
    assert_eq!(read_text(""), "---\nhashline_version: 1\ntotal_lines: 0\nfile_hash: 222325\n");
}
