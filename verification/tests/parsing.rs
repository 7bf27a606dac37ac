use wristvault::entry::{
    entries_from_segments, first_malformed_segment, parse_entries, parse_entries_with,
    parse_segment, scan_entries, RecoveryEntry, Strictness,
};
use wristvault::error::{PipelineError, Stage};

fn entry(service: &str, code: &str) -> RecoveryEntry {
    RecoveryEntry { service: service.to_string(), code: code.to_string() }
}

#[test]
fn two_pairs_give_two_entries_in_order() {
    let entries = parse_entries("github:abc123,google:def456");
    assert_eq!(entries, vec![entry("github", "abc123"), entry("google", "def456")]);
}

#[test]
fn empty_input_gives_no_entries() {
    assert_eq!(parse_entries(""), Vec::<RecoveryEntry>::new());
}

#[test]
fn segment_without_colon_is_dropped() {
    let entries = parse_entries("github:abc123,noColonHere,google:def456");
    assert_eq!(entries, vec![entry("github", "abc123"), entry("google", "def456")]);
}

#[test]
fn only_malformed_segments_give_no_entries() {
    assert_eq!(parse_entries("noColonHere"), Vec::<RecoveryEntry>::new());
    assert_eq!(parse_entries(",,"), Vec::<RecoveryEntry>::new());
}

#[test]
fn segment_is_split_at_its_first_colon() {
    assert_eq!(parse_entries("a:b:c"), vec![entry("a", "b:c")]);
}

#[test]
fn empty_service_and_empty_code_are_kept() {
    assert_eq!(parse_entries(":"), vec![entry("", "")]);
    assert_eq!(parse_entries("svc:,:code"), vec![entry("svc", ""), entry("", "code")]);
}

#[test]
fn trailing_comma_adds_no_entry() {
    assert_eq!(parse_entries("a:1,"), vec![entry("a", "1")]);
}

#[test]
fn white_space_is_kept_in_labels() {
    assert_eq!(parse_entries(" a : 1 "), vec![entry(" a ", " 1 ")]);
}

#[test]
fn labels_outside_ascii_are_kept() {
    assert_eq!(parse_entries("caf\u{e9}:\u{df}1"), vec![entry("caf\u{e9}", "\u{df}1")]);
}

#[test]
fn lenient_policy_drops_malformed_segment() {
    let result = parse_entries_with("a:1,bad,b:2", Strictness::Lenient);
    assert_eq!(result, Ok(vec![entry("a", "1"), entry("b", "2")]));
}

#[test]
fn strict_policy_names_first_malformed_segment() {
    let result = parse_entries_with("a:1,bad,b:2,worse", Strictness::Strict);
    assert_eq!(result, Err(PipelineError::MalformedInput { segment: 1 }));
    assert_eq!(
        parse_entries_with("", Strictness::Strict),
        Err(PipelineError::MalformedInput { segment: 0 })
    );
}

#[test]
fn strict_policy_accepts_well_formed_input() {
    let result = parse_entries_with("a:1,b:2", Strictness::Strict);
    assert_eq!(result, Ok(vec![entry("a", "1"), entry("b", "2")]));
}

#[test]
fn separated_segments_are_read_like_a_list() {
    let entries = entries_from_segments(&["github:abc123", "noColonHere", "google:def456"]);
    assert_eq!(entries, parse_entries("github:abc123,noColonHere,google:def456"));
    assert_eq!(entries_from_segments(&[]), Vec::<RecoveryEntry>::new());
}

#[test]
fn each_failure_belongs_to_its_stage() {
    assert_eq!(PipelineError::MalformedInput { segment: 0 }.stage(), Stage::Parse);
    assert_eq!(PipelineError::EmptyEntrySet.stage(), Stage::Generate);
    assert_eq!(
        PipelineError::UnreplacedPlaceholder { name: "NUM_CODES".to_string() }.stage(),
        Stage::Generate
    );
    assert_eq!(PipelineError::MissingResource { path: "x".to_string() }.stage(), Stage::Compile);
    assert_eq!(PipelineError::AssemblyFailure { diagnostics: vec![] }.stage(), Stage::Compile);
    assert_eq!(
        PipelineError::TransmissionFailure { message: "x".to_string() }.stage(),
        Stage::Transmit
    );
}

#[test]
fn each_failure_says_what_went_wrong() {
    assert_eq!(PipelineError::MalformedInput { segment: 12 }.message(), "segment 12 has no colon");
    assert_eq!(PipelineError::EmptyEntrySet.message(), "the input holds no service:code pair");
    assert_eq!(
        PipelineError::UnreplacedPlaceholder { name: "NUM_CODES".to_string() }.message(),
        "placeholder NUM_CODES was not replaced"
    );
    assert_eq!(
        PipelineError::MissingResource { path: "/x/WRISTAPP.I".to_string() }.message(),
        "Include file not found: /x/WRISTAPP.I"
    );
    assert_eq!(
        PipelineError::AssemblyFailure { diagnostics: vec!["a".to_string()] }.message(),
        "Assembly compilation failed"
    );
    assert_eq!(
        PipelineError::TransmissionFailure { message: "port busy".to_string() }.message(),
        "port busy"
    );
}

#[test]
fn stages_have_their_names() {
    assert_eq!(Stage::Parse.name(), "parse");
    assert_eq!(Stage::Generate.name(), "generate");
    assert_eq!(Stage::Compile.name(), "compile");
    assert_eq!(Stage::Transmit.name(), "transmit");
}

#[test]
fn first_segment_without_colon_is_found() {
    assert_eq!(first_malformed_segment("a:1,b:2"), None);
    assert_eq!(first_malformed_segment("a:1,bad,b:2,worse"), Some(1));
    assert_eq!(first_malformed_segment("bad"), Some(0));
    assert_eq!(first_malformed_segment(""), Some(0));
    assert_eq!(first_malformed_segment("a:1,"), Some(1));
}

#[test]
fn scan_gives_entries_and_first_malformed_segment() {
    let chars: Vec<char> = "a:1,,b:2".chars().collect();
    assert_eq!(scan_entries(&chars), (vec![entry("a", "1"), entry("b", "2")], Some(1)));
}

#[test]
fn segment_is_read_within_its_bounds() {
    let chars: Vec<char> = "xx,a:b,yy".chars().collect();
    assert_eq!(parse_segment(&chars, 3, 6), Some(entry("a", "b")));
    assert_eq!(parse_segment(&chars, 0, 2), None);
    assert_eq!(parse_segment(&chars, 4, 6), Some(entry("", "b")));
    assert_eq!(parse_segment(&chars, 3, 5), Some(entry("a", "")));
    assert_eq!(parse_segment(&chars, 3, 3), None);
}
