use wristvault::compile::{accept_assembly, prepare_source};
use wristvault::entry::parse_entries;
use wristvault::hex::transcode;
use wristvault::machine::{step, Device, Event, StateId};
use wristvault::program::generate_wristapp;
use wristvault::transmit::{frame_payload, prepare_transmission};

#[test]
fn two_pairs_go_through_every_stage() {
    let input = "github:abc123,google:def456";
    let entries = parse_entries(input);
    assert_eq!(entries.len(), 2);
    assert_eq!(entries[0].service, "github");
    assert_eq!(entries[0].code, "abc123");
    assert_eq!(entries[1].service, "google");
    assert_eq!(entries[1].code, "def456");

    let start = Device { state: StateId::Idle, index: 0 };
    let once = step(entries.len(), start, Event::Next).0;
    assert_eq!(once.index, 1);
    let twice = step(entries.len(), once, Event::Next).0;
    assert_eq!(twice.index, 0);

    let program = generate_wristapp(input).unwrap();
    let lines = prepare_source(&program, "/nowhere/include/Inc150/WRISTAPP.I", true).unwrap();
    let outcome = match rs_asm6805::assemble("wristapp.asm".to_string(), lines) {
        Ok(output) => Ok(output),
        Err(errors) => Err(errors.iter().map(|e| e.to_string()).collect()),
    };
    let artifact = accept_assembly(outcome, true).unwrap();
    assert!(!artifact.hex_text.is_empty());
    let listing = artifact.listing.unwrap();
    assert!(listing.iter().any(|line| line.contains("a1 02") && line.ends_with("cmp     #2")));
    assert!(listing.iter().any(|line| line.contains("25 ") && line.ends_with("blo     SET_CURRENT_SERVICE")));
    assert!(listing.iter().any(|line| line.contains("a6 01") && line.contains("lda     #1")));
    assert!(listing.iter().any(|line| line.ends_with("S8_SVC1:   timex   \"GOOGLE  \"")));

    let decoded = transcode(&artifact.hex_text);
    assert_eq!(decoded.dropped, 0);
    assert_eq!(decoded.bytes.len() * 2, artifact.hex_text.len());

    let groups = prepare_transmission(&artifact.hex_text, 100);
    assert_eq!(groups, frame_payload(decoded.bytes.clone(), 100));
    assert_eq!(groups[0].len(), 141);
    assert_eq!(groups[0][0], 0x78);
    assert_eq!(groups[1], vec![7, 32, 0, 0, 4, 195, 191]);
    assert_eq!(groups[groups.len() - 1], vec![4, 33, 216, 194]);
    let pages = (decoded.bytes.len() + 31) / 32;
    assert_eq!(groups.len(), 1 + 1 + (pages + 3) + 1);
}

#[test]
fn lookup_rows_of_the_program_point_at_the_strings() {
    let program = generate_wristapp("github:abc123,google:def456").unwrap();
    let lines = prepare_source(&program, "/nowhere/include/Inc150/WRISTAPP.I", true).unwrap();
    let (_, _, listing) = rs_asm6805::assemble("wristapp.asm".to_string(), lines).unwrap();
    let address = |symbol: &str| -> usize {
        let line = listing.iter().find(|l| l.contains(&format!("|{}:", symbol))).unwrap();
        usize::from_str_radix(line[6..10].trim(), 16).unwrap()
    };
    let row = |text: &str| -> usize {
        let line = listing.iter().find(|l| l.contains(text)).unwrap();
        usize::from_str_radix(line[12..14].trim(), 16).unwrap()
    };
    let origin = 0x0110;
    assert_eq!(row("db      S8_SVC0-START"), address("S8_SVC0") - origin);
    assert_eq!(row("db      S8_COD0-START"), address("S8_COD0") - origin);
    assert_eq!(row("db      S8_SVC1-START"), address("S8_SVC1") - origin);
    assert_eq!(row("db      S8_COD1-START"), address("S8_COD1") - origin);
}
