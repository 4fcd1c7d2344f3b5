use watch_rust_errors::cargo::{
    compile_output, compile_result, parse, render_diagnostics, OutputError,
};
use watch_rust_errors::rust::{ParseError, RustDiagnostic, Type};

fn diag(
    t: Type,
    num: Option<&str>,
    msg: &str,
    loc: Option<(&str, u32, u32)>,
    details: Option<&str>,
) -> RustDiagnostic {
    RustDiagnostic::new(
        t,
        num,
        msg,
        loc.map(|l| l.0),
        loc.map(|l| l.1),
        loc.map(|l| l.2),
        details,
    )
}

fn round_trip(d: RustDiagnostic) {
    let text = format!("{}\n", d.to_string());
    let parsed = parse(&text).unwrap();
    assert_eq!(parsed, vec![d]);
}

#[test]
fn round_trip_every_combination() {
    for code in [None, Some("E0308")] {
        for loc in [None, Some(("src/main.rs", 12, 7))] {
            for details in [None, Some("   |\n12 |     let x: i32 = \"a\";\n   = note: expected")] {
                round_trip(diag(Type::Error, code, "mismatched types", loc, details));
                round_trip(diag(Type::Warning, code, "unused variable: `x`", loc, details));
            }
        }
    }
}

#[test]
fn round_trip_keeps_non_ascii_text() {
    round_trip(diag(
        Type::Warning,
        None,
        "nom de variable « é »",
        Some(("src/é.rs", 4294967295, 0)),
        Some("détail"),
    ));
}

#[test]
fn interleaved_lines_are_skipped() {
    let text = "   Compiling demo v0.1.0\n\
                error[E0425]: cannot find value `y` in this scope\n\
                \x20 --> src/lib.rs:3:5\n\
                \n\
                some chatter\n\
                \n\
                warning: unused import\n\
                \x20 --> src/lib.rs:1:5\n\
                \x20 |\n\
                \n\
                Finished\n";
    let ds = parse(text).unwrap();
    assert_eq!(ds.len(), 2);
    assert_eq!(ds[0].type_, Type::Error);
    assert_eq!(ds[0].num.as_deref(), Some("E0425"));
    assert_eq!(ds[0].message, "cannot find value `y` in this scope");
    assert_eq!(ds[0].file.as_deref(), Some("src/lib.rs"));
    assert_eq!(ds[0].line, Some(3));
    assert_eq!(ds[0].column, Some(5));
    assert_eq!(ds[0].details, None);
    assert_eq!(ds[1].type_, Type::Warning);
    assert_eq!(ds[1].num, None);
    assert_eq!(ds[1].message, "unused import");
    assert_eq!(ds[1].line, Some(1));
    assert_eq!(ds[1].details.as_deref(), Some("  |"));
}

#[test]
fn unfinished_block_is_dropped() {
    let ds = parse("error: first\n\nerror: second\n  --> a.rs:1:1\n").unwrap();
    assert_eq!(ds.len(), 1);
    assert_eq!(ds[0].message, "first");
}

#[test]
fn crlf_line_endings() {
    let ds = parse("warning: w\r\n  --> b.rs:2:3\r\n\r\n").unwrap();
    assert_eq!(ds.len(), 1);
    assert_eq!(ds[0].message, "w");
    assert_eq!(ds[0].file.as_deref(), Some("b.rs"));
    assert_eq!(ds[0].column, Some(3));
}

#[test]
fn empty_text_has_no_diagnostics() {
    assert_eq!(parse("").unwrap(), vec![]);
}

#[test]
fn header_only_and_empty_message() {
    let ds = parse("error: \n\n").unwrap();
    assert_eq!(ds[0].message, "");
    assert_eq!(ds[0].file, None);
    assert_eq!(ds[0].details, None);
}

#[test]
fn details_without_location() {
    let ds = parse("warning: w\n= note: n\n\n").unwrap();
    assert_eq!(ds[0].file, None);
    assert_eq!(ds[0].details.as_deref(), Some("= note: n"));
}

#[test]
fn bad_header_is_an_error() {
    assert_eq!(parse("errors: 2\n\n"), Err(ParseError::BadHeader));
    assert_eq!(parse("error[X1]: m\n\n"), Err(ParseError::BadHeader));
    assert_eq!(parse("error[E]: m\n\n"), Err(ParseError::BadHeader));
    assert_eq!(parse("warning:m\n\n"), Err(ParseError::BadHeader));
}

#[test]
fn bad_location_is_an_error() {
    assert_eq!(parse("error: m\n  --> a.rs:x:1\n\n"), Err(ParseError::BadLocation));
    assert_eq!(parse("error: m\n  --> a.rs:1\n\n"), Err(ParseError::BadLocation));
    assert_eq!(parse("error: m\n  --> a.rs:1:2 extra\n\n"), Err(ParseError::BadLocation));
    assert_eq!(parse("error: m\n  -->a.rs:1:2\n\n"), Err(ParseError::BadLocation));
}

#[test]
fn oversized_number_is_an_error() {
    assert_eq!(parse("error: m\n  --> a.rs:4294967296:1\n\n"), Err(ParseError::NumberTooLarge));
    assert_eq!(parse("error: m\n  --> a.rs:1:99999999999\n\n"), Err(ParseError::NumberTooLarge));
}

#[test]
fn first_bad_block_decides() {
    assert_eq!(
        parse("error: ok\n\nerror: m\n  --> a:1:b\n\nerrors\n\n"),
        Err(ParseError::BadLocation)
    );
}

#[test]
fn type_words() {
    assert_eq!(Type::from_str("error"), Ok(Type::Error));
    assert_eq!(Type::from_str("warning"), Ok(Type::Warning));
    assert_eq!(Type::from_str("errors"), Err(ParseError::UnknownType));
    assert_eq!(Type::from_str(""), Err(ParseError::UnknownType));
    assert_eq!(Type::Error.to_string(), "error");
    assert_eq!(Type::Warning.to_string(), "warning");
}

#[test]
fn rendering_is_exact() {
    let d = diag(Type::Error, Some("E0001"), "bad", Some(("a.rs", 10, 205)), Some("x\ny"));
    assert_eq!(d.to_string(), "error[E0001]: bad\n  --> a.rs:10:205\nx\ny\n");
    let w = RustDiagnostic::new(Type::Warning, None, "w", Some("f"), None, Some(0), None);
    assert_eq!(w.to_string(), "warning: w\n  --> f:-:0\n");
}

#[test]
fn new_copies_fields() {
    let d = RustDiagnostic::new(Type::Warning, Some("E1"), "m", None, None, None, Some("d"));
    assert_eq!(d.type_, Type::Warning);
    assert_eq!(d.num.as_deref(), Some("E1"));
    assert_eq!(d.message, "m");
    assert_eq!(d.file, None);
    assert_eq!(d.details.as_deref(), Some("d"));
}

#[test]
fn clean_run_succeeds_with_nothing() {
    let r = compile_result(true, "").unwrap();
    assert!(r.success);
    assert!(r.errors.is_empty());
    assert!(r.warnings.is_empty());
    let r = compile_output(true, b"".to_vec()).unwrap();
    assert!(r.success);
    assert!(r.errors.is_empty());
    assert!(r.warnings.is_empty());
}

#[test]
fn mismatched_types_run() {
    let out = b"error[E0001]: mismatched types\n  --> src/main.rs:4:17\n\n";
    let r = compile_output(false, out.to_vec()).unwrap();
    assert!(!r.success);
    assert_eq!(r.warnings.len(), 0);
    assert_eq!(r.errors.len(), 1);
    let e = &r.errors[0];
    assert_eq!(e.type_, Type::Error);
    assert_eq!(e.num.as_deref(), Some("E0001"));
    assert_eq!(e.message, "mismatched types");
    assert_eq!(e.file.as_deref(), Some("src/main.rs"));
    assert_eq!(e.line, Some(4));
    assert_eq!(e.column, Some(17));
}

#[test]
fn errors_and_warnings_are_split_in_order() {
    let text = "warning: w1\n\nerror: e1\n\nwarning: w2\n\nerror: e2\n\n";
    let r = compile_result(false, text).unwrap();
    let e: Vec<&str> = r.errors.iter().map(|d| d.message.as_str()).collect();
    let w: Vec<&str> = r.warnings.iter().map(|d| d.message.as_str()).collect();
    assert_eq!(e, vec!["e1", "e2"]);
    assert_eq!(w, vec!["w1", "w2"]);
}

#[test]
fn output_errors() {
    assert_eq!(compile_output(true, vec![0xff, 0x0a]).unwrap_err(), OutputError::NotText);
    assert_eq!(
        compile_output(true, b"errorx\n\n".to_vec()).unwrap_err(),
        OutputError::Parse(ParseError::BadHeader)
    );
    assert_eq!(compile_result(true, "errorx\n\n").unwrap_err(), ParseError::BadHeader);
}

#[test]
fn output_decodes_multibyte_text() {
    let r = compile_output(true, "warning: café\n\n".as_bytes().to_vec()).unwrap();
    assert_eq!(r.warnings[0].message, "café");
}

#[test]
fn block_text_reads_as_one_diagnostic() {
    let d = RustDiagnostic::from_str("warning: unused\n  --> src/a.rs:8:1\n  |\n8 | use x;\n").unwrap();
    assert_eq!(d.type_, Type::Warning);
    assert_eq!(d.message, "unused");
    assert_eq!(d.file.as_deref(), Some("src/a.rs"));
    assert_eq!(d.line, Some(8));
    assert_eq!(d.column, Some(1));
    assert_eq!(d.details.as_deref(), Some("  |\n8 | use x;"));
    assert_eq!(RustDiagnostic::from_str("note: x\n"), Err(ParseError::BadHeader));
    assert_eq!(RustDiagnostic::from_str(""), Err(ParseError::BadHeader));
}

#[test]
fn rendered_sequence_reads_back() {
    let ds = vec![
        diag(Type::Warning, None, "w", None, Some("= help: h")),
        diag(Type::Error, Some("E0599"), "no method", Some(("src/x.rs", 1, 2)), None),
        diag(Type::Error, None, "aborting", None, None),
    ];
    let text = render_diagnostics(&ds);
    assert_eq!(text, "warning: w\n= help: h\n\nerror[E0599]: no method\n  --> src/x.rs:1:2\n\nerror: aborting\n\n");
    assert_eq!(parse(&text).unwrap(), ds);
    assert_eq!(render_diagnostics(&vec![]), "");
}

#[test]
fn block_text_without_final_newline() {
    let d = RustDiagnostic::from_str("warning: unused variable: `x`").unwrap();
    assert_eq!(d.type_, Type::Warning);
    assert_eq!(d.num, None);
    assert_eq!(d.message, "unused variable: `x`");
    assert_eq!(d.file, None);
    assert_eq!(d.line, None);
    assert_eq!(d.column, None);
    assert_eq!(d.details, None);
    let d = RustDiagnostic::from_str("error[E0001]: m\r\n  --> a.rs:1:2\r\nnote\r").unwrap();
    assert_eq!(d.file.as_deref(), Some("a.rs"));
    assert_eq!(d.details.as_deref(), Some("note"));
}

#[test]
fn from_str_reads_back_every_combination() {
    for code in [None, Some("E0001")] {
        for loc in [None, Some(("src/lib.rs", 3, 14))] {
            for details in [None, Some("  |\n3 | fn f() {}")] {
                let d = diag(Type::Error, code, "mismatched types", loc, details);
                assert_eq!(RustDiagnostic::from_str(&d.to_string()), Ok(d));
            }
        }
    }
}

#[test]
fn carriage_return_inside_a_line_is_kept() {
    round_trip(diag(Type::Error, None, "a\rb", Some(("we\rird.rs", 1, 1)), Some("x\ry")));
}

#[test]
fn extra_lines_outside_blocks_change_nothing() {
    let plain = "error: a\n\nwarning: b\n  --> f.rs:2:2\n\n";
    let noisy = "Checking x\nerror: a\n\n   Compiling y\n\nwarning: b\n  --> f.rs:2:2\n\nFinished\n";
    assert_eq!(compile_result(false, plain), compile_result(false, noisy));
    assert_eq!(parse(noisy).unwrap().len(), 2);
}
