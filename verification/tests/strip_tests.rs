use cpi_sync::strip::strip_prop_comments;

fn strip(data: &[u8]) -> Vec<u8> {
    strip_prop_comments(&data.to_vec())
}

#[test]
fn strip_drops_comment_lines_and_terminates_kept_lines() {
    assert_eq!(
        strip(b"#skip\nkeep=1\n#skip2\nkeep=2"),
        b"keep=1\nkeep=2\n".to_vec()
    );
}

#[test]
fn strip_normalizes_crlf_endings() {
    assert_eq!(
        strip(b"keep=1\r\n#c\r\nkeep=2"),
        b"keep=1\nkeep=2\n".to_vec()
    );
}

#[test]
fn strip_of_only_comments_is_empty() {
    assert_eq!(strip(b"#a\n#b\n"), Vec::<u8>::new());
}

#[test]
fn strip_of_empty_content_is_empty() {
    assert_eq!(strip(b""), Vec::<u8>::new());
}

#[test]
fn strip_keeps_blank_lines() {
    assert_eq!(strip(b"a\n\nb"), b"a\n\nb\n".to_vec());
}

#[test]
fn strip_is_idempotent_on_its_own_output() {
    let once = strip(b"#skip\nkeep=1\r\n\nkeep=2");
    let twice = strip(&once);
    assert_eq!(once, twice);
}

#[test]
fn strip_keeps_hash_after_first_column() {
    assert_eq!(strip(b"key=#value\n"), b"key=#value\n".to_vec());
}
