use wristvault::compile::{
    accept_assembly, matches_at, prepare_source, replace_all, resolve_include, split_lines,
    CompiledArtifact,
};
use wristvault::error::PipelineError;

fn chars(s: &str) -> Vec<char> {
    s.chars().collect()
}

fn strings(list: &[&str]) -> Vec<String> {
    list.iter().map(|s| s.to_string()).collect()
}

#[test]
fn include_is_rewritten_to_the_absolute_path() {
    let program = ";x\n            INCLUDE \"Inc150/WRISTAPP.I\"\n;y\n";
    assert_eq!(
        resolve_include(program, "/home/me/include/Inc150/WRISTAPP.I"),
        ";x\n            INCLUDE \"/home/me/include/Inc150/WRISTAPP.I\"\n;y\n"
    );
}

#[test]
fn program_without_include_is_unchanged() {
    assert_eq!(resolve_include("lda #1\n", "/abs"), "lda #1\n");
    assert_eq!(resolve_include("", "/abs"), "");
}

#[test]
fn every_include_is_rewritten() {
    let program = "INCLUDE \"Inc150/WRISTAPP.I\"INCLUDE \"Inc150/WRISTAPP.I\"";
    assert_eq!(resolve_include(program, "p"), "INCLUDE \"p\"INCLUDE \"p\"");
}

#[test]
fn replacing_is_that_of_the_standard_library() {
    for (text, pattern, replacement) in [
        ("aaa", "aa", "b"),
        ("abcabc", "bc", ""),
        ("abcabc", "abc", "abcabc"),
        ("xyz", "q", "r"),
        ("", "a", "b"),
        ("aXbXc", "X", "XX"),
        ("ab", "abc", "z"),
        ("\u{e9}t\u{e9}", "\u{e9}", "e"),
    ] {
        let expected: Vec<char> = text.replace(pattern, replacement).chars().collect();
        assert_eq!(replace_all(&chars(text), &chars(pattern), &chars(replacement)), expected);
    }
}

#[test]
fn empty_pattern_replaces_nothing() {
    assert_eq!(replace_all(&chars("abc"), &chars(""), &chars("x")), chars("abc"));
}

#[test]
fn pattern_is_matched_in_place() {
    let text = chars("hello");
    assert!(matches_at(&text, 1, &chars("ell")));
    assert!(!matches_at(&text, 1, &chars("elo")));
    assert!(matches_at(&text, 5, &chars("")));
    assert!(matches_at(&text, 0, &chars("hello")));
}

#[test]
fn lines_are_those_of_the_standard_library() {
    for text in ["", "a", "a\n", "a\nb", "a\r\nb\r\n", "\n", "\n\n", "a\rb\n", "a\n\r", "\r\n", "a\r", "x\n\ny\r\r\n"] {
        let expected: Vec<String> = text.lines().map(|line| line.to_string()).collect();
        assert_eq!(split_lines(&chars(text)), expected);
    }
}

#[test]
fn lines_keep_their_order() {
    assert_eq!(split_lines(&chars("one\ntwo\r\nthree")), strings(&["one", "two", "three"]));
}

#[test]
fn source_is_prepared_when_the_resource_was_found() {
    let program = "; head\n    INCLUDE \"Inc150/WRISTAPP.I\"\nSTART EQU *\n";
    assert_eq!(
        prepare_source(program, "/abs/WRISTAPP.I", true),
        Ok(strings(&["; head", "    INCLUDE \"/abs/WRISTAPP.I\"", "START EQU *"]))
    );
}

#[test]
fn missing_resource_is_reported_with_its_path() {
    assert_eq!(
        prepare_source("lda #1\n", "/abs/include/Inc150/WRISTAPP.I", false),
        Err(PipelineError::MissingResource { path: "/abs/include/Inc150/WRISTAPP.I".to_string() })
    );
}

#[test]
fn hex_text_means_success_despite_diagnostics() {
    let outcome = Ok((strings(&["symbol X defined"]), "a1b2".to_string(), strings(&["l1", "l2"])));
    assert_eq!(
        accept_assembly(outcome, false),
        Ok(CompiledArtifact {
            diagnostics: strings(&["symbol X defined"]),
            hex_text: "a1b2".to_string(),
            listing: None,
        })
    );
}

#[test]
fn listing_is_kept_on_request() {
    let outcome = Ok((vec![], "00".to_string(), strings(&["l1", "l2"])));
    assert_eq!(
        accept_assembly(outcome, true),
        Ok(CompiledArtifact {
            diagnostics: vec![],
            hex_text: "00".to_string(),
            listing: Some(strings(&["l1", "l2"])),
        })
    );
}

#[test]
fn empty_hex_text_is_an_assembly_failure() {
    let outcome = Ok((strings(&["bad line 3"]), String::new(), strings(&["l1"])));
    assert_eq!(
        accept_assembly(outcome, true),
        Err(PipelineError::AssemblyFailure { diagnostics: strings(&["bad line 3"]) })
    );
    assert_eq!(
        accept_assembly(Ok((vec![], String::new(), vec![])), false),
        Err(PipelineError::AssemblyFailure { diagnostics: vec![] })
    );
}

#[test]
fn failed_assembler_is_an_assembly_failure() {
    assert_eq!(
        accept_assembly(Err(strings(&["parse error at line 1", "symbol error"])), false),
        Err(PipelineError::AssemblyFailure {
            diagnostics: strings(&["parse error at line 1", "symbol error"])
        })
    );
}
