use regen::generated::Native;
use regen::toolchain::{
    is_native_target, is_truthy, native_dump_paths, prettify_json, rustdoc_build_path,
    rustdoc_flags, target_names, truthy_normalized, written, CommandError, JsonError,
};

#[test]
fn switches_are_read_whatever_their_case() {
    assert_eq!(is_truthy("1"), Some(true));
    assert_eq!(is_truthy("true"), Some(true));
    assert_eq!(is_truthy("TRUE"), Some(true));
    assert_eq!(is_truthy("True"), Some(true));
    assert_eq!(is_truthy("0"), Some(false));
    assert_eq!(is_truthy("false"), Some(false));
    assert_eq!(is_truthy("FALSE"), Some(false));
    assert_eq!(is_truthy("fAlSe"), Some(false));
    assert_eq!(is_truthy(""), None);
    assert_eq!(is_truthy("yes"), None);
    assert_eq!(is_truthy("2"), None);
    assert_eq!(is_truthy(" true"), None);
    assert_eq!(is_truthy("true "), None);
}

#[test]
fn normalized_switches_are_read_exactly() {
    assert_eq!(truthy_normalized("true"), Some(true));
    assert_eq!(truthy_normalized("1"), Some(true));
    assert_eq!(truthy_normalized("false"), Some(false));
    assert_eq!(truthy_normalized("0"), Some(false));
    assert_eq!(truthy_normalized("TRUE"), None);
    assert_eq!(truthy_normalized(""), None);
}

#[test]
fn build_path_holds_the_target() {
    assert_eq!(
        rustdoc_build_path("x86_64-unknown-linux-gnu"),
        "build/x86_64-unknown-linux-gnu/doc/std.json"
    );
    assert_eq!(rustdoc_build_path(""), "build//doc/std.json");
}

#[test]
fn json_is_reformatted_with_tabs() {
    let out = prettify_json("{\"b\":[1,2],\"a\":{\"c\":null}}").unwrap();
    assert_eq!(
        String::from_utf8(out).unwrap(),
        "{\n\t\"a\": {\n\t\t\"c\": null\n\t},\n\t\"b\": [\n\t\t1,\n\t\t2\n\t]\n}"
    );
    assert_eq!(prettify_json(" 12 ").unwrap(), b"12");
    assert_eq!(prettify_json("[]").unwrap(), b"[]");
}

#[test]
fn text_that_is_no_json_is_turned_down() {
    for bad in ["", "{", "{\"a\":}", "[1,]", "nul", "1 2"] {
        assert!(matches!(prettify_json(bad), Err(JsonError::Parse(_))), "for {bad:?}");
    }
    match prettify_json("{") {
        Err(JsonError::Parse(message)) => assert!(!message.is_empty()),
        other => panic!("unexpected {other:?}"),
    }
}

#[test]
fn command_errors_carry_their_cause() {
    let e = CommandError::ExitCode(-1);
    assert!(matches!(e, CommandError::ExitCode(-1)));
    assert!(matches!(CommandError::Io("gone".to_owned()), CommandError::Io(m) if m == "gone"));
    assert!(matches!(CommandError::ParseError("bad".to_owned()), CommandError::ParseError(_)));
    let _ = Native {};
}

#[test]
fn native_targets_begin_with_the_architecture_and_hold_the_system() {
    assert!(is_native_target("x86_64-unknown-linux-gnu", "x86_64", "linux"));
    assert!(is_native_target("x86_64-unknown-linux-musl", "x86_64", "linux"));
    assert!(!is_native_target("x86_64-pc-windows-msvc", "x86_64", "linux"));
    assert!(!is_native_target("aarch64-unknown-linux-gnu", "x86_64", "linux"));
    assert!(!is_native_target("linux-x86_64", "x86_64", "linux"));
    // The name of the system must follow the architecture.
    assert!(!is_native_target("linux", "linux", "linux"));
    assert!(is_native_target("linuxlinux", "linux", "linux"));
    assert!(is_native_target("x86_64", "x86_64", ""));
    assert!(is_native_target("anything", "", "thing"));
    assert!(!is_native_target("", "x86_64", "linux"));
}

#[test]
fn target_list_is_split_at_line_feeds() {
    assert_eq!(target_names("a\nb\n"), vec!["a", "b", ""]);
    assert_eq!(target_names("a"), vec!["a"]);
    assert_eq!(target_names(""), vec![""]);
    assert_eq!(target_names("\n\n"), vec!["", "", ""]);
    assert_eq!(target_names("a\r\nb"), vec!["a\r", "b"]);
    for s in ["", "x", "x\ny", "\nx\n\ny\n", "a\r\n"] {
        let want: Vec<String> = s.split('\n').map(str::to_owned).collect();
        assert_eq!(target_names(s), want);
    }
}

#[test]
fn dump_paths_are_those_of_the_native_targets_in_order() {
    let targets: Vec<String> = [
        "aarch64-apple-darwin",
        "x86_64-unknown-linux-musl",
        "x86_64-pc-windows-msvc",
        "x86_64-unknown-linux-gnu",
        "",
    ]
    .iter()
    .map(|s| s.to_string())
    .collect();
    assert_eq!(
        native_dump_paths(&targets, "x86_64", "linux"),
        vec![
            "build/x86_64-unknown-linux-musl/doc/std.json",
            "build/x86_64-unknown-linux-gnu/doc/std.json"
        ]
    );
    assert_eq!(native_dump_paths(&targets, "riscv64", "linux"), Vec::<String>::new());
    assert_eq!(native_dump_paths(&vec![], "x86_64", "linux"), Vec::<String>::new());
}

#[test]
fn json_format_is_added_to_the_flags() {
    assert_eq!(rustdoc_flags(""), " --output-format json");
    assert_eq!(rustdoc_flags("-Z unstable-options"), "-Z unstable-options --output-format json");
}

#[test]
fn outcome_of_the_writer_is_passed_on() {
    assert_eq!(written(Ok(vec![1, 2, 3])).unwrap(), vec![1, 2, 3]);
    assert_eq!(written(Ok(vec![])).unwrap(), Vec::<u8>::new());
    let error = serde_json::from_str::<bool>("maybe").unwrap_err();
    let text = error.to_string();
    match written(Err(error)) {
        Err(JsonError::Write(message)) => assert_eq!(message, text),
        other => panic!("unexpected {other:?}"),
    }
}
