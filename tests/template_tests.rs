use flowrun::template::{extract_template_content, usize_text};

#[test]
fn test_extract_template_content() {
    let res = extract_template_content(r#"${{aaa}}"#);
    assert_eq!(res[0], "aaa");
    let res = extract_template_content(r#"fda&*(h${{aaa}}430&)"#);
    assert_eq!(res[0], "aaa");
    let res = extract_template_content(r#"fda&*(h${{hello.world}}430&)"#);
    assert_eq!(res[0], "hello.world");
    let res = extract_template_content(r#"f${{hello}}da&*(h${{world}}430&)"#);
    assert_eq!(res[0], "hello");
    assert_eq!(res[1], "world");
}

#[test]
fn extract_template_trims_spaces() {
    assert_eq!(extract_template_content("${{ a.b }}"), vec!["a.b".to_string()]);
    assert!(extract_template_content("no tokens").is_empty());
}

#[test]
fn usize_text_is_decimal() {
    assert_eq!(usize_text(0), "0");
    assert_eq!(usize_text(7), "7");
    assert_eq!(usize_text(1203), "1203");
}
