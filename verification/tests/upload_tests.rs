#[test]
fn test_multipart_form_structure_code_textarea() {
    let valid_rust_code = r#"
        fn main() {
            let x: i32 = 42;
            println!("{}", x);
        }
    "#;

    // Create multipart form data with code field as sent by textarea
    let boundary = "------------------------boundary123";
    let body = format!(
        "--{boundary}\r\n\
         Content-Disposition: form-data; name=\"input-method\"\r\n\
         \r\n\
         code\r\n\
         --{boundary}\r\n\
         Content-Disposition: form-data; name=\"file\"\r\n\
         \r\n\
         \r\n\
         --{boundary}\r\n\
         Content-Disposition: form-data; name=\"code\"\r\n\
         \r\n\
         {code}\r\n\
         --{boundary}--\r\n",
        boundary = boundary,
        code = valid_rust_code
    );

    assert!(body.contains("input-method"), "Body should contain input-method field");
    assert!(body.contains("name=\"code\""), "Body should contain code field");
    assert!(body.contains(valid_rust_code), "Body should contain the actual code");

    // Verify that input-method comes before code (order matters for server logic)
    let input_method_pos = body.find("input-method").unwrap();
    let code_pos = body.find("name=\"code\"").unwrap();
    assert!(input_method_pos < code_pos, "input-method must come before code field for server to process correctly");
}

#[test]
fn test_multipart_form_field_order_matters() {
    // This test verifies that when file upload is used, the empty code field
    // comes AFTER the file field, ensuring the server processes them in the right order
    let boundary = "------------------------boundary123";
    let rust_code = "fn test() { }";

    let body = format!(
        "--{boundary}\r\n\
         Content-Disposition: form-data; name=\"input-method\"\r\n\
         \r\n\
         file\r\n\
         --{boundary}\r\n\
         Content-Disposition: form-data; name=\"file\"; filename=\"test.rs\"\r\n\
         Content-Type: application/octet-stream\r\n\
         \r\n\
         {code}\r\n\
         --{boundary}\r\n\
         Content-Disposition: form-data; name=\"code\"\r\n\
         \r\n\
         \r\n\
         --{boundary}--\r\n",
        boundary = boundary,
        code = rust_code
    );

    // Verify field order: input-method, then file, then code
    let input_method_pos = body.find("name=\"input-method\"").unwrap();
    let file_pos = body.find("name=\"file\"").unwrap();
    let code_pos = body.find("name=\"code\"").unwrap();

    assert!(input_method_pos < file_pos, "input-method must come before file");
    assert!(file_pos < code_pos, "file must come before code field");

    // This order is critical: the code field should not overwrite the file contents
    // because the server checks input_method when processing the code field
}

use pcg::upload::{classify_field, FieldRequest, UploadField, UploadForm, UploadOutcome};

/// Feeds the fields of a form, given as (name, text or file contents,
/// file name), as the server reads them.
fn read_form(fields: &[(&str, &str, Option<&str>)]) -> Result<UploadForm, &'static str> {
    let mut form = UploadForm::new();
    for (name, contents, file_name) in fields {
        let field = classify_field(name);
        match form.request(field) {
            FieldRequest::Text => form.accept_text(field, contents.to_string()),
            FieldRequest::File => {
                if !UploadForm::accepts_file_name(file_name.unwrap()) {
                    return Err(pcg::upload::rejected_file_message());
                }
                form.accept_file(contents.to_string());
            }
            FieldRequest::Skip => {}
        }
    }
    Ok(form)
}

#[test]
fn file_upload_keeps_file_contents_over_empty_code_field() {
    let form = read_form(&[
        ("input-method", "file", None),
        ("file", "fn test() { }", Some("test.rs")),
        ("code", "", None),
    ])
    .unwrap();
    assert_eq!(form.code, "fn test() { }");
    assert_eq!(form.outcome(), UploadOutcome::Analyze { use_polonius: false });
}

#[test]
fn textarea_upload_takes_code_field() {
    let form = read_form(&[
        ("input-method", "code", None),
        ("file", "", None),
        ("code", "fn main() {}", None),
        ("borrow-checker", "polonius", None),
    ])
    .unwrap();
    assert_eq!(form.code, "fn main() {}");
    assert_eq!(form.outcome(), UploadOutcome::Analyze { use_polonius: true });
}

#[test]
fn code_field_before_input_method_is_ignored() {
    let form = read_form(&[("code", "fn main() {}", None), ("input-method", "code", None)]).unwrap();
    assert_eq!(form.outcome(), UploadOutcome::NoCode);
}

#[test]
fn non_rust_file_is_rejected() {
    let r = read_form(&[("input-method", "file", None), ("file", "x", Some("notes.txt"))]);
    assert_eq!(r.err(), Some("Only Rust files (.rs) are accepted"));
}

#[test]
fn field_names_are_classified() {
    assert_eq!(classify_field("input-method"), UploadField::InputMethod);
    assert_eq!(classify_field("borrow-checker"), UploadField::BorrowChecker);
    assert_eq!(classify_field("code"), UploadField::Code);
    assert_eq!(classify_field("file"), UploadField::File);
    assert_eq!(classify_field("other"), UploadField::Other);
    assert!(UploadForm::accepts_file_name("a.rs"));
    assert!(!UploadForm::accepts_file_name("rs"));
    assert_eq!(pcg::upload::no_code_message(), "No code content provided");
}

#[test]
fn failed_analysis_is_answered_with_compilation_failed() {
    let (status, body) = pcg::upload::failed_analysis_response("out text", "error[E0308]");
    assert_eq!(status, 500);
    assert!(body.contains("Compilation failed"));
    assert!(body.contains("out text"));
    assert!(body.contains("error[E0308]"));
    assert_eq!(
        body,
        "Compilation failed:\n\n=== STDOUT ===\nout text\n\n=== STDERR ===\nerror[E0308]"
    );
}

#[test]
fn bad_uploads_are_answered_with_400() {
    assert_eq!(pcg::upload::no_code_response(), (400, "No code content provided"));
    assert_eq!(pcg::upload::rejected_file_response(), (400, "Only Rust files (.rs) are accepted"));
}
