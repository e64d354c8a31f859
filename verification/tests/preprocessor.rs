use circomspect::parser_logic::{parse_string, preprocess};
use circomspect::report::{ReportCode, Severity};

#[test]
fn test_parse_string() {
    let function = r#"
            function f(m) {
                // This is a comment.
                var x = 1024;
                var y = 16;
                while (x < m) {
                    x += y;
                }
                if (x == m) {
                    x = 0;
                }
                /* This is another comment. */
                return x;
            }
        "#;
    let _ = parse_string(function);

    let template = r#"
            template T(m) {
                signal input in[m];
                signal output out;

                var sum = 0;
                for (var i = 0; i < m; i++) {
                    sum += in[i];
                }
                out <== sum;
            }
        "#;
    let _ = parse_string(template);
}

#[test]
fn preprocess_keeps_length_and_bytes() {
    let src = b"a = 1; /* note\nwith lines */ b = 2; // tail\nc = 3;";
    let out = preprocess(src, 0).unwrap();
    assert_eq!(out.len(), src.len());
    for (i, &b) in out.iter().enumerate() {
        assert!(b == src[i] || b == 0x20);
    }
    for i in 0..src.len() {
        assert_eq!(src[i] == b'\n', out[i] == b'\n');
    }
}

#[test]
fn preprocess_strips_comments_to_spaces() {
    let out = preprocess(b"a//b\nc", 0).unwrap();
    assert_eq!(out, b"a   \nc".to_vec());

    let out = preprocess(b"a/*b*/c", 0).unwrap();
    assert_eq!(out, b"a     c".to_vec());
}

#[test]
fn preprocess_line_comment_opener_inert_in_block() {
    // The `//` inside the block comment must not open a line comment:
    // the `*/` still closes the block and `x` survives.
    let out = preprocess(b"/*//*/x", 0).unwrap();
    assert_eq!(out, b"      x".to_vec());
}

#[test]
fn preprocess_block_opener_inert_in_line_comment() {
    let out = preprocess(b"///*\nx", 0).unwrap();
    assert_eq!(out, b"    \nx".to_vec());
}

#[test]
fn preprocess_unterminated_block_comment_fails() {
    let report = preprocess(b"/* unterminated", 0).unwrap_err();
    assert!(matches!(report.severity, Severity::Error));
    assert!(matches!(report.code, ReportCode::UnclosedComment));
    assert_eq!(report.primary.len(), 1);
    assert_eq!(report.primary[0].start, 0);
    assert_eq!(report.primary[0].end, 0);

    let report = preprocess(b"ab /* x", 7).unwrap_err();
    assert_eq!(report.primary[0].file_id, 7);
    assert_eq!(report.primary[0].start, 3);

    assert!(preprocess(b"/*x*", 0).is_err());
}

#[test]
fn preprocess_line_comment_at_eof_is_fine() {
    let out = preprocess(b"// eof no newline", 0).unwrap();
    assert_eq!(out, b"                 ".to_vec());
    assert_eq!(out.len(), 17);
}

#[test]
fn preprocess_empty_input() {
    let out = preprocess(b"", 0).unwrap();
    assert_eq!(out, Vec::<u8>::new());
}

#[test]
fn preprocess_slash_at_eof_is_kept() {
    let out = preprocess(b"a /", 0).unwrap();
    assert_eq!(out, b"a /".to_vec());
}

#[test]
fn parse_string_returns_preprocessed_text() {
    let out = parse_string("x /* y */").unwrap();
    assert_eq!(out, b"x        ".to_vec());
    assert!(parse_string("/* open").is_none());
}
