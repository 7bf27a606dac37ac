use wristvault::entry::RecoveryEntry;
use wristvault::field::FieldWidth;
use wristvault::tables::{
    calculate_recovery_data_size, format_recovery_codes, format_recovery_codes_advanced,
    generate_code_table, generate_tables, layout_narrow, layout_tables, lookup_rows, narrow_rows,
    render_lookup, symbol, FieldKind, LookupRow, ROWS_PER_ENTRY,
};

fn entry(service: &str, code: &str) -> RecoveryEntry {
    RecoveryEntry { service: service.to_string(), code: code.to_string() }
}

fn row(symbol: &str, comment: &str) -> LookupRow {
    LookupRow { symbol: symbol.to_string(), comment: comment.to_string() }
}

#[test]
fn tables_of_two_entries() {
    let (services, codes, lookup) = generate_tables(&["github:abc123", "google:def456"]);
    assert_eq!(
        services,
        "S8_SVC0:   timex   \"GITHUB  \"\nS8_SVC1:   timex   \"GOOGLE  \"\n"
    );
    assert_eq!(codes, "S8_COD0:   timex   \"ABC123  \"\nS8_COD1:   timex   \"DEF456  \"\n");
    assert_eq!(
        lookup,
        "        db      S8_SVC0-START  ; github\n        db      S8_COD0-START  ; abc123\n        db      S8_SVC1-START  ; google\n        db      S8_COD1-START  ; def456\n"
    );
}

#[test]
fn tables_of_no_entries_are_empty() {
    assert_eq!(generate_tables(&[]), (String::new(), String::new(), String::new()));
    assert_eq!(generate_tables(&["noColonHere"]), (String::new(), String::new(), String::new()));
    assert_eq!(generate_code_table(&[]), "");
    assert_eq!(format_recovery_codes(""), "");
    assert_eq!(format_recovery_codes_advanced(""), Ok((String::new(), String::new())));
}

#[test]
fn entries_are_numbered_without_the_dropped_segments() {
    let (services, codes, lookup) = generate_tables(&["a:1", "bad", "b:2"]);
    assert_eq!(services, "S8_SVC0:   timex   \"A       \"\nS8_SVC1:   timex   \"B       \"\n");
    assert_eq!(codes, "S8_COD0:   timex   \"1       \"\nS8_COD1:   timex   \"2       \"\n");
    assert_eq!(
        lookup,
        "        db      S8_SVC0-START  ; a\n        db      S8_COD0-START  ; 1\n        db      S8_SVC1-START  ; b\n        db      S8_COD1-START  ; 2\n"
    );
}

#[test]
fn long_labels_are_cut_in_the_strings_and_kept_in_the_comments() {
    let (services, codes, lookup) = generate_tables(&["verylongservice:verylongcode99"]);
    assert_eq!(services, "S8_SVC0:   timex   \"VERYLONG\"\n");
    assert_eq!(codes, "S8_COD0:   timex   \"VERYLONG\"\n");
    assert_eq!(
        lookup,
        "        db      S8_SVC0-START  ; verylongservice\n        db      S8_COD0-START  ; verylongcode99\n"
    );
}

#[test]
fn code_table_is_the_second_table() {
    let segments = ["github:abc123", "google:def456"];
    assert_eq!(generate_code_table(&segments), generate_tables(&segments).1);
    assert_eq!(generate_code_table(&["x:y"]), "S8_COD0:   timex   \"Y       \"\n");
}

#[test]
fn six_character_tables_of_two_entries() {
    let result = format_recovery_codes_advanced("github:abc123,google:def456");
    let data = "S6_SVC0:   timex6  \"GITHUB\"\nS6_COD0:   timex6  \"ABC123\"\nS6_SVC1:   timex6  \"GOOGLE\"\nS6_COD1:   timex6  \"DEF456\"\n";
    let lookup = "        db      S6_SVC0-START  ; Service: github\n        db      S6_COD0-START  ; Code: abc123\n        db      S6_SVC1-START  ; Service: google\n        db      S6_COD1-START  ; Code: def456\n";
    assert_eq!(result, Ok((data.to_string(), lookup.to_string())));
    assert_eq!(format_recovery_codes("github:abc123,google:def456"), data);
}

#[test]
fn six_character_strings_are_cut_and_padded() {
    assert_eq!(
        format_recovery_codes("bitbucket:xy"),
        "S6_SVC0:   timex6  \"BITBUC\"\nS6_COD0:   timex6  \"XY    \"\n"
    );
}

#[test]
fn six_character_tables_skip_malformed_segments() {
    assert_eq!(
        format_recovery_codes("a:1,noColonHere,b:2"),
        "S6_SVC0:   timex6  \"A     \"\nS6_COD0:   timex6  \"1     \"\nS6_SVC1:   timex6  \"B     \"\nS6_COD1:   timex6  \"2     \"\n"
    );
}

#[test]
fn data_size_is_twelve_bytes_for_each_segment() {
    assert_eq!(calculate_recovery_data_size(&[]), 0);
    assert_eq!(calculate_recovery_data_size(&["a:1"]), 12);
    assert_eq!(calculate_recovery_data_size(&["a:1", "b:2", "c:3"]), 36);
}

#[test]
fn symbols_carry_width_kind_and_index() {
    assert_eq!(symbol(FieldWidth::Six, FieldKind::Service, 0), "S6_SVC0");
    assert_eq!(symbol(FieldWidth::Six, FieldKind::Code, 7), "S6_COD7");
    assert_eq!(symbol(FieldWidth::Eight, FieldKind::Service, 12), "S8_SVC12");
    assert_eq!(symbol(FieldWidth::Eight, FieldKind::Code, 105), "S8_COD105");
}

#[test]
fn lookup_rows_lead_back_to_the_entries() {
    let entries = vec![entry("github", "abc123"), entry("google", "def456"), entry("x", "y")];
    let rows = lookup_rows(&entries);
    assert_eq!(rows.len(), ROWS_PER_ENTRY * entries.len());
    for (index, e) in entries.iter().enumerate() {
        let service = &rows[ROWS_PER_ENTRY * index];
        let code = &rows[ROWS_PER_ENTRY * index + 1];
        assert_eq!(service.symbol, format!("S8_SVC{}", index));
        assert_eq!(service.comment, e.service);
        assert_eq!(code.symbol, format!("S8_COD{}", index));
        assert_eq!(code.comment, e.code);
    }
    let mut symbols: Vec<&String> = rows.iter().map(|r| &r.symbol).collect();
    symbols.sort();
    symbols.dedup();
    assert_eq!(symbols.len(), rows.len());
}

#[test]
fn six_character_rows_say_what_they_hold() {
    let rows = narrow_rows(&[entry("github", "abc123")]);
    assert_eq!(
        rows,
        vec![row("S6_SVC0", "Service: github"), row("S6_COD0", "Code: abc123")]
    );
}

#[test]
fn lookup_text_has_one_line_for_each_row() {
    let text = render_lookup(&[row("A", "first"), row("B", "")]);
    assert_eq!(text, "        db      A-START  ; first\n        db      B-START  ; \n");
    assert_eq!(render_lookup(&[]), "");
}

#[test]
fn layouts_of_entries_match_the_generated_tables() {
    let entries = vec![entry("github", "abc123"), entry("google", "def456")];
    assert_eq!(layout_tables(&entries), generate_tables(&["github:abc123", "google:def456"]));
    assert_eq!(
        Ok(layout_narrow(&entries)),
        format_recovery_codes_advanced("github:abc123,google:def456")
    );
}

#[test]
fn eleventh_entry_has_a_two_digit_index() {
    let segments = ["a:0", "b:1", "c:2", "d:3", "e:4", "f:5", "g:6", "h:7", "i:8", "j:9", "k:10"];
    let (services, _, lookup) = generate_tables(&segments);
    assert!(services.ends_with("S8_SVC10:   timex   \"K       \"\n"));
    assert!(lookup.ends_with("        db      S8_SVC10-START  ; k\n        db      S8_COD10-START  ; 10\n"));
}

#[test]
fn six_character_tables_have_two_lines_for_each_usable_segment() {
    for (codes, usable) in [
        ("", 0usize),
        ("noColonHere", 0),
        ("a:1", 1),
        ("a:1,noColonHere,b:2", 2),
        ("x,a:1,y,b:2,z,c:3,", 3),
        ("github:abc123,google:def456", 2),
    ] {
        let (data, lookup) = format_recovery_codes_advanced(codes).unwrap();
        assert_eq!(data.matches('\n').count(), ROWS_PER_ENTRY * usable);
        assert_eq!(lookup.matches('\n').count(), ROWS_PER_ENTRY * usable);
        assert_eq!(data.lines().count(), ROWS_PER_ENTRY * usable);
        assert_eq!(lookup.lines().count(), ROWS_PER_ENTRY * usable);
        assert!(!data.contains("NOCOLONHERE") && !lookup.contains("noColonHere"));
    }
}

#[test]
fn eight_character_tables_have_their_lines() {
    let (services, codes, lookup) = generate_tables(&["a:1", "bad", "b:2", "c:3"]);
    assert_eq!(services.lines().count(), 3);
    assert_eq!(codes.lines().count(), 3);
    assert_eq!(lookup.lines().count(), ROWS_PER_ENTRY * 3);
}

#[test]
fn label_with_a_line_feed_takes_more_lines() {
    let (data, lookup) = format_recovery_codes_advanced("a\nb:1").unwrap();
    assert_eq!(data.matches('\n').count(), 3);
    assert_eq!(lookup.matches('\n').count(), 3);
}
