//! The program for the device: the skeleton, and its assembly from the generated fragments.

use vstd::prelude::*;
use vstd::string::StringExecFns;
use crate::entry::{entry_views, first_malformed, parse_entries, parse_entries_with, parsed, split, RecoveryEntry, Strictness};
use crate::error::PipelineError;
use crate::machine::{navigation, navigation_states, render_state_tables, state_tables_text, state_views, wrap_operands, EventEntry, StateDescriptor};
use crate::tables::{code_table, layout_narrow, layout_tables, lookup_rows_of, lookup_text, narrow_table, service_table};
use crate::template::{binding_views, lemma_bound_at, lemma_rendered_push, part_views, render, rendered, Binding, Part, PartText, Slot};
use crate::text::decimal_text;

verus! {

/// The head of the program, up to the addresses of its variables.
pub const HEADER: &'static str =
    ";Name: WristVault\n;Version: VAULT\n;Description: Recovery Codes with Navigation\n;\n            INCLUDE \"Inc150/WRISTAPP.I\"\n;\n";

/// The origin, the entry points that the host calls, and the links to the two states.
pub const ENTRY_POINTS: &'static str =
    ";\nSTART    EQU   *\n;\nL0110:  jmp    MAIN\nL0113:  rts\n        nop\n        nop\nL0116:  rts\n        nop\n        nop\nL0119:  rts\n        nop\n        nop\nL011c:  rts\n        nop\n        nop\n\nL011f:  lda    STATETAB0,X\n        rts\n\nL0123:  jmp    HANDLE_STATE0\n        db      STATETAB0-STATETAB0\nL0127:  jmp    HANDLE_STATE1\n        db      STATETAB1-STATETAB0\n\n";

/// What separates the six-character strings from the event tables.
pub const TABLES_GAP: &'static str = "\n";

/// The handler of the idle state, up to the operand against which the index is compared
/// after the next-button.
pub const IDLE_HANDLER: &'static str =
    "HANDLE_STATE0:\n        bset    1,APP_FLAGS\n        lda     BTNSTATE\n        cmp     #EVT_ENTER\n        beq     SHOW_SERVICE_LIST\n        cmp     #EVT_RESUME\n        beq     SHOW_SERVICE_LIST\n        cmp     #EVT_USER0\n        beq     SHOW_SERVICE_LIST\n        cmp     #EVT_DNNEXT\n        beq     NEXT_SERVICE\n        cmp     #EVT_DNPREV\n        beq     PREV_SERVICE\n        rts\n\nNEXT_SERVICE:\n        lda     CURRENT_CODE\n        inca\n        cmp     #";

/// From the wraparound to the first entry up to the operand that the previous-button loads
/// at the first entry.
pub const WRAP_FORWARD: &'static str =
    "\n        blo     SET_CURRENT_SERVICE\n        clra                    ; Wrap to first service\n        bra     SET_CURRENT_SERVICE\n\nPREV_SERVICE:\n        lda     CURRENT_CODE\n        deca\n        bpl     SET_CURRENT_SERVICE\n        lda     #";

/// The rest of the code: the two displays, the return to the list, the start-up, and the
/// fixed strings of the top and middle lines.
pub const DISPLAYS: &'static str =
    "    ; Wrap to last service\n\nSET_CURRENT_SERVICE:\n        sta     CURRENT_CODE\n        ; Fall through to display\n\nSHOW_SERVICE_LIST:\n        jsr     CLEARALL\n\n        ; Show \"HOLD TO\" on top line using system string\n        lda     #SYS6_HOLDTO\n        jsr     PUT6TOP\n\n        ; Show \"REVEAL\" on middle line\n        lda     #S6_REVEAL-START\n        jsr     PUT6MID\n\n        ; Show current service name on bottom (use 8-char string)\n        lda     CURRENT_CODE\n        lsla                    ; *2 (two lookup rows for each entry)\n        tax\n        lda     LOOKUP_TABLE,X\n        jmp     PUTMSGBOT\n\nHANDLE_STATE1:\n        bset    1,APP_FLAGS\n        lda     BTNSTATE\n        cmp     #EVT_TIMER2\n        beq     SHOW_RECOVERY_CODE\n        cmp     #EVT_UPSET\n        beq     RETURN_TO_SERVICE\n        rts\n\nSHOW_RECOVERY_CODE:\n        jsr     CLEARALL\n\n        ; Show \"SHOWING\" on top\n        lda     #S6_SHOW-START\n        jsr     PUT6TOP\n\n        ; Show \"CODE\" on middle\n        lda     #S6_CODE-START\n        jsr     PUT6MID\n\n        ; Show actual recovery code on bottom (use 8-char string)\n        lda     CURRENT_CODE\n        lsla                    ; *2 (two lookup rows for each entry)\n        inca                    ; the code row follows the service row\n        tax\n        lda     LOOKUP_TABLE,X\n        jmp     PUTMSGBOT\n\nRETURN_TO_SERVICE:\n        lda     #EVT_USER0\n        jmp     POSTEVENT\n\nMAIN:\n        lda     #$c0\n        sta     WRISTAPP_FLAGS\n        clr     FLAGBYTE\n        clr     CURRENT_CODE            ; Start with first code\n        rts\n\nS6_REVEAL:  timex6  \"REVEAL\"\nS6_SHOW:    timex6  \"SHOW  \"\nS6_CODE:    timex6  \"CODE  \"\n\n; 8-character service names for bottom display\n";

/// What stands above the eight-character code strings.
pub const CODE_HEADING: &'static str = "\n; 8-character recovery codes for bottom display\n";

/// What stands above the rows of the lookup table.
pub const LOOKUP_HEADING: &'static str =
    "\n; Lookup table: two rows for each entry, the service first\nLOOKUP_TABLE:\n";

/// Where the program keeps its variables in the memory of the device.
#[derive(Debug, Clone, Copy, PartialEq, Eq, Structural)]
pub struct MemoryLayout {
    /// The address of the general flags.
    pub flag_byte: u8,
    /// The address of the index of the current entry.
    pub current_code: u8,
}

/// The capital hexadecimal digit for a value below sixteen.
pub open spec fn capital_hex_digit(v: nat) -> char {
    if v < 10 {
        (0x30 + v) as char
    } else {
        (0x41 + v - 10) as char
    }
}

/// An address as the program text writes it: a dollar sign and two hexadecimal digits.
pub open spec fn address_text(address: u8) -> Seq<char> {
    seq!['$', capital_hex_digit((address / 16) as nat), capital_hex_digit((address % 16) as nat)]
}

/// The lines that give the variables their addresses.
pub open spec fn memory_layout_text(layout: MemoryLayout) -> Seq<char> {
    "FLAGBYTE        EQU     "@ + address_text(layout.flag_byte) + "    ; General flags\n"@
        + "CURRENT_CODE    EQU     "@ + address_text(layout.current_code)
        + "    ; Current code index (0-based)\n"@
}

/// The addresses that the device leaves to the program.
pub open spec fn standard_layout() -> MemoryLayout {
    MemoryLayout { flag_byte: 0x61, current_code: 0x62 }
}

/// The skeleton of the program: its fixed text, with a placeholder wherever a fragment goes.
pub open spec fn skeleton_parts() -> Seq<PartText> {
    Seq::<PartText>::empty().push(PartText::Text(HEADER@)).push(
        PartText::Slot(Slot::MemoryLayout),
    ).push(PartText::Text(ENTRY_POINTS@)).push(PartText::Slot(Slot::RecoveryData)).push(
        PartText::Text(TABLES_GAP@),
    ).push(PartText::Slot(Slot::StateTables)).push(PartText::Text(IDLE_HANDLER@)).push(
        PartText::Slot(Slot::EntryCount),
    ).push(PartText::Text(WRAP_FORWARD@)).push(PartText::Slot(Slot::LastIndex)).push(
        PartText::Text(DISPLAYS@),
    ).push(PartText::Slot(Slot::ServiceTable)).push(PartText::Text(CODE_HEADING@)).push(
        PartText::Slot(Slot::CodeTable),
    ).push(PartText::Text(LOOKUP_HEADING@)).push(PartText::Slot(Slot::LookupTable))
}

/// The program for a list of entries: the skeleton with the addresses, the six-character
/// strings, the event tables, the number of entries and the index of the last one, and the
/// eight-character tables in their places.
pub open spec fn program_text(
    entries: Seq<(Seq<char>, Seq<char>)>,
    layout: MemoryLayout,
    states: Seq<(u8, Seq<EventEntry>)>,
) -> Seq<char> {
    HEADER@ + memory_layout_text(layout) + ENTRY_POINTS@ + narrow_table(entries) + TABLES_GAP@
        + state_tables_text(states) + IDLE_HANDLER@ + decimal_text(entries.len()) + WRAP_FORWARD@
        + decimal_text((entries.len() - 1) as nat) + DISPLAYS@ + service_table(entries)
        + CODE_HEADING@ + code_table(entries) + LOOKUP_HEADING@ + lookup_text(
        lookup_rows_of(entries),
    )
}

/// Appends an address.
pub fn append_address(out: &mut String, address: u8)
    ensures
        final(out)@ == old(out)@ + address_text(address),
{
    let high = address / 16;
    let low = address % 16;
    let first: char = if high < 10 {
        (0x30u8 + high) as char
    } else {
        (0x41u8 + high - 10) as char
    };
    let second: char = if low < 10 {
        (0x30u8 + low) as char
    } else {
        (0x41u8 + low - 10) as char
    };
    out.push('$');
    out.push(first);
    out.push(second);
    assert(out@ == old(out)@ + address_text(address));
}

/// The lines that give the variables their addresses.
pub fn render_memory_layout(layout: &MemoryLayout) -> (out: String)
    ensures
        out@ == memory_layout_text(*layout),
{
    let mut out = String::from_str("FLAGBYTE        EQU     ");
    append_address(&mut out, layout.flag_byte);
    out.append("    ; General flags\n");
    out.append("CURRENT_CODE    EQU     ");
    append_address(&mut out, layout.current_code);
    out.append("    ; Current code index (0-based)\n");
    assert(out@ == memory_layout_text(*layout));
    out
}

/// The skeleton of the program.
pub fn skeleton() -> (parts: Vec<Part>)
    ensures
        part_views(parts@) == skeleton_parts(),
{
    let mut parts: Vec<Part> = Vec::new();
    parts.push(Part::Text(String::from_str(HEADER)));
    parts.push(Part::Slot(Slot::MemoryLayout));
    parts.push(Part::Text(String::from_str(ENTRY_POINTS)));
    parts.push(Part::Slot(Slot::RecoveryData));
    parts.push(Part::Text(String::from_str(TABLES_GAP)));
    parts.push(Part::Slot(Slot::StateTables));
    parts.push(Part::Text(String::from_str(IDLE_HANDLER)));
    parts.push(Part::Slot(Slot::EntryCount));
    parts.push(Part::Text(String::from_str(WRAP_FORWARD)));
    parts.push(Part::Slot(Slot::LastIndex));
    parts.push(Part::Text(String::from_str(DISPLAYS)));
    parts.push(Part::Slot(Slot::ServiceTable));
    parts.push(Part::Text(String::from_str(CODE_HEADING)));
    parts.push(Part::Slot(Slot::CodeTable));
    parts.push(Part::Text(String::from_str(LOOKUP_HEADING)));
    parts.push(Part::Slot(Slot::LookupTable));
    assert(part_views(parts@) =~= skeleton_parts());
    parts
}

/// With one fragment for each placeholder, the skeleton becomes its text with the fragments
/// in their places.
proof fn lemma_skeleton_rendered(b: Seq<(Slot, Seq<char>)>)
    requires
        b.len() == 8,
        b[0].0 == Slot::MemoryLayout,
        b[1].0 == Slot::RecoveryData,
        b[2].0 == Slot::StateTables,
        b[3].0 == Slot::EntryCount,
        b[4].0 == Slot::LastIndex,
        b[5].0 == Slot::ServiceTable,
        b[6].0 == Slot::CodeTable,
        b[7].0 == Slot::LookupTable,
    ensures
        rendered(skeleton_parts(), b) == Ok::<Seq<char>, Slot>(
            HEADER@ + b[0].1 + ENTRY_POINTS@ + b[1].1 + TABLES_GAP@ + b[2].1 + IDLE_HANDLER@
                + b[3].1 + WRAP_FORWARD@ + b[4].1 + DISPLAYS@ + b[5].1 + CODE_HEADING@ + b[6].1
                + LOOKUP_HEADING@ + b[7].1,
        ),
{
    lemma_bound_at(b, Slot::MemoryLayout, 0);
    lemma_bound_at(b, Slot::RecoveryData, 1);
    lemma_bound_at(b, Slot::StateTables, 2);
    lemma_bound_at(b, Slot::EntryCount, 3);
    lemma_bound_at(b, Slot::LastIndex, 4);
    lemma_bound_at(b, Slot::ServiceTable, 5);
    lemma_bound_at(b, Slot::CodeTable, 6);
    lemma_bound_at(b, Slot::LookupTable, 7);
    let mut parts = Seq::<PartText>::empty();
    assert(rendered(parts, b) == Ok::<Seq<char>, Slot>(Seq::empty()));
    lemma_rendered_push(parts, b, PartText::Text(HEADER@));
    assert(Seq::<char>::empty() + HEADER@ == HEADER@);
    parts = parts.push(PartText::Text(HEADER@));
    lemma_rendered_push(parts, b, PartText::Slot(Slot::MemoryLayout));
    parts = parts.push(PartText::Slot(Slot::MemoryLayout));
    lemma_rendered_push(parts, b, PartText::Text(ENTRY_POINTS@));
    parts = parts.push(PartText::Text(ENTRY_POINTS@));
    lemma_rendered_push(parts, b, PartText::Slot(Slot::RecoveryData));
    parts = parts.push(PartText::Slot(Slot::RecoveryData));
    lemma_rendered_push(parts, b, PartText::Text(TABLES_GAP@));
    parts = parts.push(PartText::Text(TABLES_GAP@));
    lemma_rendered_push(parts, b, PartText::Slot(Slot::StateTables));
    parts = parts.push(PartText::Slot(Slot::StateTables));
    lemma_rendered_push(parts, b, PartText::Text(IDLE_HANDLER@));
    parts = parts.push(PartText::Text(IDLE_HANDLER@));
    lemma_rendered_push(parts, b, PartText::Slot(Slot::EntryCount));
    parts = parts.push(PartText::Slot(Slot::EntryCount));
    lemma_rendered_push(parts, b, PartText::Text(WRAP_FORWARD@));
    parts = parts.push(PartText::Text(WRAP_FORWARD@));
    lemma_rendered_push(parts, b, PartText::Slot(Slot::LastIndex));
    parts = parts.push(PartText::Slot(Slot::LastIndex));
    lemma_rendered_push(parts, b, PartText::Text(DISPLAYS@));
    parts = parts.push(PartText::Text(DISPLAYS@));
    lemma_rendered_push(parts, b, PartText::Slot(Slot::ServiceTable));
    parts = parts.push(PartText::Slot(Slot::ServiceTable));
    lemma_rendered_push(parts, b, PartText::Text(CODE_HEADING@));
    parts = parts.push(PartText::Text(CODE_HEADING@));
    lemma_rendered_push(parts, b, PartText::Slot(Slot::CodeTable));
    parts = parts.push(PartText::Slot(Slot::CodeTable));
    lemma_rendered_push(parts, b, PartText::Text(LOOKUP_HEADING@));
    parts = parts.push(PartText::Text(LOOKUP_HEADING@));
    lemma_rendered_push(parts, b, PartText::Slot(Slot::LookupTable));
    parts = parts.push(PartText::Slot(Slot::LookupTable));
}

/// Generates the program for a list of entries. A list without entries is rejected, since
/// the wraparound of the index needs at least one; any other list gives a program.
pub fn generate_program(
    entries: &[RecoveryEntry],
    layout: &MemoryLayout,
    states: &[StateDescriptor],
) -> (result: Result<String, PipelineError>)
    ensures
        entries@.len() == 0 ==> result == Err::<String, PipelineError>(PipelineError::EmptyEntrySet),
        entries@.len() > 0 ==> (result matches Ok(program) && program@ == program_text(
            entry_views(entries@),
            *layout,
            state_views(states@),
        )),
{
    let count = entries.len();
    if count == 0 {
        return Err(PipelineError::EmptyEntrySet);
    }
    let narrow = layout_narrow(entries);
    let wide = layout_tables(entries);
    let operands = wrap_operands(count);
    let mut bindings: Vec<Binding> = Vec::new();
    bindings.push(Binding { slot: Slot::MemoryLayout, fragment: render_memory_layout(layout) });
    bindings.push(Binding { slot: Slot::RecoveryData, fragment: narrow.0 });
    bindings.push(Binding { slot: Slot::StateTables, fragment: render_state_tables(states) });
    bindings.push(Binding { slot: Slot::EntryCount, fragment: operands.0 });
    bindings.push(Binding { slot: Slot::LastIndex, fragment: operands.1 });
    bindings.push(Binding { slot: Slot::ServiceTable, fragment: wide.0 });
    bindings.push(Binding { slot: Slot::CodeTable, fragment: wide.1 });
    bindings.push(Binding { slot: Slot::LookupTable, fragment: wide.2 });
    let parts = skeleton();
    proof {
        assert(entry_views(entries@).len() == count);
        lemma_skeleton_rendered(binding_views(bindings@));
    }
    render(parts.as_slice(), bindings.as_slice())
}

/// Generates the program for the user's list of `service:code` pairs, with the standard
/// addresses and the two states of the navigation. Segments without a colon are dropped; an
/// input that yields no entry is rejected.
pub fn generate_wristapp(recovery_codes: &str) -> (result: Result<String, PipelineError>)
    ensures
        parsed(recovery_codes@).len() == 0 ==> result == Err::<String, PipelineError>(
            PipelineError::EmptyEntrySet,
        ),
        parsed(recovery_codes@).len() > 0 ==> (result matches Ok(program) && program@
            == program_text(parsed(recovery_codes@), standard_layout(), navigation_states())),
{
    let entries = parse_entries(recovery_codes);
    let layout = MemoryLayout { flag_byte: 0x61, current_code: 0x62 };
    let states = navigation();
    assert(entry_views(entries@).len() == entries@.len());
    generate_program(entries.as_slice(), &layout, states.as_slice())
}

/// Generates the program under a policy for segments without a colon. Under the strict
/// policy such a segment makes the input invalid, and the first of them is named; under the
/// lenient policy it is dropped. What is left must hold at least one entry.
pub fn generate_wristapp_with(recovery_codes: &str, policy: Strictness) -> (result: Result<
    String,
    PipelineError,
>)
    ensures
        match result {
            Ok(program) => parsed(recovery_codes@).len() > 0 && (policy == Strictness::Strict
                ==> first_malformed(split(recovery_codes@, ',')) is None) && program@
                == program_text(parsed(recovery_codes@), standard_layout(), navigation_states()),
            Err(PipelineError::MalformedInput { segment }) => policy == Strictness::Strict
                && first_malformed(split(recovery_codes@, ',')) == Some(segment as nat),
            Err(PipelineError::EmptyEntrySet) => parsed(recovery_codes@).len() == 0 && (policy
                == Strictness::Strict ==> first_malformed(split(recovery_codes@, ',')) is None),
            Err(_) => false,
        },
{
    match parse_entries_with(recovery_codes, policy) {
        Ok(entries) => {
            let layout = MemoryLayout { flag_byte: 0x61, current_code: 0x62 };
            let states = navigation();
            assert(entry_views(entries@).len() == entries@.len());
            generate_program(entries.as_slice(), &layout, states.as_slice())
        },
        Err(e) => Err(e),
    }
}

} // verus!
