//! Layout of the data tables: the stored strings of each entry and the lookup rows that lead
//! to them.

use vstd::prelude::*;
use vstd::string::StringExecFns;
use crate::entry::{entries_from_segments, entries_of, entry_of, entry_views, parse_entries, parsed, slice_texts, split, RecoveryEntry};
use crate::error::PipelineError;
use crate::field::{ascii_upper, fit, format_field, is_ascii, lemma_uppercase_ascii, uppercase, FieldWidth};
use crate::text::{append_decimal, count_of, decimal_text, first_index_of, lemma_count_absent, lemma_count_concat, lemma_decimal_digits, lemma_decimal_injective, lemma_first_index_of};

verus! {

/// Which half of an entry a field holds.
#[derive(Debug, Clone, Copy, PartialEq, Eq, Structural)]
pub enum FieldKind {
    Service,
    Code,
}

/// The number of lookup rows for each entry: one for the service, one for the code. The
/// program on the device multiplies the entry's index by this number to find its rows.
pub const ROWS_PER_ENTRY: usize = 2;

/// One row of a lookup table: the symbol whose distance from the program's origin the row
/// stores, and the label it stands for. The distance itself is left to the assembler.
#[derive(Debug, Clone, PartialEq, Eq)]
pub struct LookupRow {
    pub symbol: String,
    pub comment: String,
}

impl View for LookupRow {
    type V = (Seq<char>, Seq<char>);

    open spec fn view(&self) -> (Seq<char>, Seq<char>) {
        (self.symbol@, self.comment@)
    }
}

/// The rows of a list, as pairs of symbol and comment.
pub open spec fn row_views(rows: Seq<LookupRow>) -> Seq<(Seq<char>, Seq<char>)> {
    Seq::new(rows.len(), |i: int| rows[i]@)
}

/// What the symbols of one kind of field start with.
pub open spec fn symbol_prefix(width: FieldWidth, kind: FieldKind) -> Seq<char> {
    match (width, kind) {
        (FieldWidth::Six, FieldKind::Service) => "S6_SVC"@,
        (FieldWidth::Six, FieldKind::Code) => "S6_COD"@,
        (FieldWidth::Eight, FieldKind::Service) => "S8_SVC"@,
        (FieldWidth::Eight, FieldKind::Code) => "S8_COD"@,
    }
}

/// The symbol of the field of the entry at `index`.
pub open spec fn symbol_name(width: FieldWidth, kind: FieldKind, index: nat) -> Seq<char> {
    symbol_prefix(width, kind) + decimal_text(index)
}

/// The assembler directive that stores a string of this width.
pub open spec fn directive(width: FieldWidth) -> Seq<char> {
    match width {
        FieldWidth::Six => "timex6  "@,
        FieldWidth::Eight => "timex   "@,
    }
}

/// The line that stores one field: symbol, directive, and the label in upper case at the
/// exact width of the slot.
pub open spec fn data_line(width: FieldWidth, kind: FieldKind, index: nat, label: Seq<char>) -> Seq<
    char,
> {
    symbol_name(width, kind, index) + ":   "@ + directive(width) + "\""@ + fit(
        uppercase(label),
        width.chars(),
    ) + "\"\n"@
}

/// The line of one lookup row: the distance of the symbol from the origin, with the comment.
pub open spec fn lookup_line(row: (Seq<char>, Seq<char>)) -> Seq<char> {
    "        db      "@ + row.0 + "-START  ; "@ + row.1 + "\n"@
}

/// What the comments of the six-character lookup rows start with.
pub open spec fn comment_prefix(kind: FieldKind) -> Seq<char> {
    match kind {
        FieldKind::Service => "Service: "@,
        FieldKind::Code => "Code: "@,
    }
}

/// The eight-character service strings, one line for each entry.
pub open spec fn service_table(entries: Seq<(Seq<char>, Seq<char>)>) -> Seq<char>
    decreases entries.len(),
{
    if entries.len() == 0 {
        Seq::empty()
    } else {
        service_table(entries.drop_last()) + data_line(
            FieldWidth::Eight,
            FieldKind::Service,
            (entries.len() - 1) as nat,
            entries.last().0,
        )
    }
}

/// The eight-character code strings, one line for each entry.
pub open spec fn code_table(entries: Seq<(Seq<char>, Seq<char>)>) -> Seq<char>
    decreases entries.len(),
{
    if entries.len() == 0 {
        Seq::empty()
    } else {
        code_table(entries.drop_last()) + data_line(
            FieldWidth::Eight,
            FieldKind::Code,
            (entries.len() - 1) as nat,
            entries.last().1,
        )
    }
}

/// The six-character strings: for each entry the line of its service, then that of its code.
pub open spec fn narrow_table(entries: Seq<(Seq<char>, Seq<char>)>) -> Seq<char>
    decreases entries.len(),
{
    if entries.len() == 0 {
        Seq::empty()
    } else {
        narrow_table(entries.drop_last()) + data_line(
            FieldWidth::Six,
            FieldKind::Service,
            (entries.len() - 1) as nat,
            entries.last().0,
        ) + data_line(
            FieldWidth::Six,
            FieldKind::Code,
            (entries.len() - 1) as nat,
            entries.last().1,
        )
    }
}

/// The label that the row at position `row` of a lookup table stands for.
pub open spec fn row_label(entries: Seq<(Seq<char>, Seq<char>)>, row: int) -> Seq<char> {
    if row % (ROWS_PER_ENTRY as int) == 0 {
        entries[row / (ROWS_PER_ENTRY as int)].0
    } else {
        entries[row / (ROWS_PER_ENTRY as int)].1
    }
}

/// The kind of field that the row at position `row` of a lookup table leads to.
pub open spec fn row_kind(row: int) -> FieldKind {
    if row % (ROWS_PER_ENTRY as int) == 0 {
        FieldKind::Service
    } else {
        FieldKind::Code
    }
}

/// The rows of the lookup table for the eight-character strings: two rows for each entry,
/// the service first, in the order of the entries. Each comment is the label as it was given.
pub open spec fn lookup_rows_of(entries: Seq<(Seq<char>, Seq<char>)>) -> Seq<(Seq<char>, Seq<char>)> {
    Seq::new(
        (ROWS_PER_ENTRY * entries.len()) as nat,
        |row: int|
            (
                symbol_name(FieldWidth::Eight, row_kind(row), (row / (ROWS_PER_ENTRY as int)) as nat),
                row_label(entries, row),
            ),
    )
}

/// The rows of the lookup table for the six-character strings. Each comment says which half
/// of the entry the label is.
pub open spec fn narrow_rows_of(entries: Seq<(Seq<char>, Seq<char>)>) -> Seq<(Seq<char>, Seq<char>)> {
    Seq::new(
        (ROWS_PER_ENTRY * entries.len()) as nat,
        |row: int|
            (
                symbol_name(FieldWidth::Six, row_kind(row), (row / (ROWS_PER_ENTRY as int)) as nat),
                comment_prefix(row_kind(row)) + row_label(entries, row),
            ),
    )
}

/// The text of a lookup table: the lines of its rows.
pub open spec fn lookup_text(rows: Seq<(Seq<char>, Seq<char>)>) -> Seq<char>
    decreases rows.len(),
{
    if rows.len() == 0 {
        Seq::empty()
    } else {
        lookup_text(rows.drop_last()) + lookup_line(rows.last())
    }
}

/// The position in a lookup table of the row for one field of the entry at `index`.
pub open spec fn row_position(kind: FieldKind, index: nat) -> nat {
    match kind {
        FieldKind::Service => (ROWS_PER_ENTRY * index) as nat,
        FieldKind::Code => (ROWS_PER_ENTRY * index + 1) as nat,
    }
}

/// The symbol of the field of the entry at `index`.
pub fn symbol(width: FieldWidth, kind: FieldKind, index: usize) -> (name: String)
    ensures
        name@ == symbol_name(width, kind, index as nat),
{
    let prefix = match (width, kind) {
        (FieldWidth::Six, FieldKind::Service) => "S6_SVC",
        (FieldWidth::Six, FieldKind::Code) => "S6_COD",
        (FieldWidth::Eight, FieldKind::Service) => "S8_SVC",
        (FieldWidth::Eight, FieldKind::Code) => "S8_COD",
    };
    let mut name = String::from_str(prefix);
    append_decimal(&mut name, index);
    name
}

/// Appends the line that stores one field.
pub fn append_data_line(
    out: &mut String,
    width: FieldWidth,
    kind: FieldKind,
    index: usize,
    label: &str,
)
    ensures
        final(out)@ == old(out)@ + data_line(width, kind, index as nat, label@),
{
    let name = symbol(width, kind, index);
    let field = format_field(label, width);
    let keyword = match width {
        FieldWidth::Six => "timex6  ",
        FieldWidth::Eight => "timex   ",
    };
    out.append(name.as_str());
    out.append(":   ");
    out.append(keyword);
    out.append("\"");
    out.append(field.text.as_str());
    out.append("\"\n");
    assert(out@ == old(out)@ + data_line(width, kind, index as nat, label@));
}

/// Appends the line of one lookup row.
pub fn append_lookup_line(out: &mut String, row: &LookupRow)
    ensures
        final(out)@ == old(out)@ + lookup_line(row@),
{
    out.append("        db      ");
    out.append(row.symbol.as_str());
    out.append("-START  ; ");
    out.append(row.comment.as_str());
    out.append("\n");
    assert(out@ == old(out)@ + lookup_line(row@));
}

/// The rows of the lookup table for the eight-character strings.
pub fn lookup_rows(entries: &[RecoveryEntry]) -> (rows: Vec<LookupRow>)
    ensures
        row_views(rows@) == lookup_rows_of(entry_views(entries@)),
{
    let n = entries.len();
    let mut rows: Vec<LookupRow> = Vec::new();
    let mut i: usize = 0;
    while i < n
        invariant
            i <= n == entries@.len(),
            rows@.len() == ROWS_PER_ENTRY * i,
            forall|row: int|
                0 <= row < ROWS_PER_ENTRY * i ==> #[trigger] rows@[row]@ == lookup_rows_of(
                    entry_views(entries@),
                )[row],
        decreases n - i,
    {
        let entry = &entries[i];
        let service = LookupRow {
            symbol: symbol(FieldWidth::Eight, FieldKind::Service, i),
            comment: entry.service.clone(),
        };
        let code = LookupRow {
            symbol: symbol(FieldWidth::Eight, FieldKind::Code, i),
            comment: entry.code.clone(),
        };
        rows.push(service);
        rows.push(code);
        i = i + 1;
    }
    assert(row_views(rows@) =~= lookup_rows_of(entry_views(entries@)));
    rows
}

/// The rows of the lookup table for the six-character strings.
pub fn narrow_rows(entries: &[RecoveryEntry]) -> (rows: Vec<LookupRow>)
    ensures
        row_views(rows@) == narrow_rows_of(entry_views(entries@)),
{
    let n = entries.len();
    let mut rows: Vec<LookupRow> = Vec::new();
    let mut i: usize = 0;
    while i < n
        invariant
            i <= n == entries@.len(),
            rows@.len() == ROWS_PER_ENTRY * i,
            forall|row: int|
                0 <= row < ROWS_PER_ENTRY * i ==> #[trigger] rows@[row]@ == narrow_rows_of(
                    entry_views(entries@),
                )[row],
        decreases n - i,
    {
        let entry = &entries[i];
        let mut service_comment = String::from_str("Service: ");
        service_comment.append(entry.service.as_str());
        let mut code_comment = String::from_str("Code: ");
        code_comment.append(entry.code.as_str());
        let service = LookupRow {
            symbol: symbol(FieldWidth::Six, FieldKind::Service, i),
            comment: service_comment,
        };
        let code = LookupRow {
            symbol: symbol(FieldWidth::Six, FieldKind::Code, i),
            comment: code_comment,
        };
        rows.push(service);
        rows.push(code);
        i = i + 1;
    }
    assert(row_views(rows@) =~= narrow_rows_of(entry_views(entries@)));
    rows
}

/// The text of a lookup table.
pub fn render_lookup(rows: &[LookupRow]) -> (out: String)
    ensures
        out@ == lookup_text(row_views(rows@)),
{
    let n = rows.len();
    let mut out = String::new();
    let mut i: usize = 0;
    assert(row_views(rows@).take(0) == Seq::<(Seq<char>, Seq<char>)>::empty());
    while i < n
        invariant
            i <= n == rows@.len(),
            out@ == lookup_text(row_views(rows@).take(i as int)),
        decreases n - i,
    {
        proof {
            let next = row_views(rows@).take(i + 1);
            assert(next.drop_last() == row_views(rows@).take(i as int));
            assert(next.last() == rows@[i as int]@);
        }
        append_lookup_line(&mut out, &rows[i]);
        i = i + 1;
    }
    assert(row_views(rows@).take(n as int) == row_views(rows@));
    out
}

/// Lays out the tables for the eight-character strings: the service strings, the code
/// strings, and the lookup table with two rows for each entry.
pub fn layout_tables(entries: &[RecoveryEntry]) -> (tables: (String, String, String))
    ensures
        tables.0@ == service_table(entry_views(entries@)),
        tables.1@ == code_table(entry_views(entries@)),
        tables.2@ == lookup_text(lookup_rows_of(entry_views(entries@))),
{
    let n = entries.len();
    let mut services = String::new();
    let mut codes = String::new();
    let mut i: usize = 0;
    let ghost views = entry_views(entries@);
    assert(views.take(0) == Seq::<(Seq<char>, Seq<char>)>::empty());
    while i < n
        invariant
            i <= n == entries@.len(),
            views == entry_views(entries@),
            services@ == service_table(views.take(i as int)),
            codes@ == code_table(views.take(i as int)),
        decreases n - i,
    {
        proof {
            let next = views.take(i + 1);
            assert(next.drop_last() == views.take(i as int));
            assert(next.last() == entries@[i as int]@);
        }
        let entry = &entries[i];
        append_data_line(
            &mut services,
            FieldWidth::Eight,
            FieldKind::Service,
            i,
            entry.service.as_str(),
        );
        append_data_line(&mut codes, FieldWidth::Eight, FieldKind::Code, i, entry.code.as_str());
        i = i + 1;
    }
    assert(views.take(n as int) == views);
    let rows = lookup_rows(entries);
    let lookup = render_lookup(rows.as_slice());
    (services, codes, lookup)
}

/// Lays out the tables for the six-character strings: the strings of all entries, and their
/// lookup table.
pub fn layout_narrow(entries: &[RecoveryEntry]) -> (tables: (String, String))
    ensures
        tables.0@ == narrow_table(entry_views(entries@)),
        tables.1@ == lookup_text(narrow_rows_of(entry_views(entries@))),
{
    let n = entries.len();
    let mut data = String::new();
    let mut i: usize = 0;
    let ghost views = entry_views(entries@);
    assert(views.take(0) == Seq::<(Seq<char>, Seq<char>)>::empty());
    while i < n
        invariant
            i <= n == entries@.len(),
            views == entry_views(entries@),
            data@ == narrow_table(views.take(i as int)),
        decreases n - i,
    {
        proof {
            let next = views.take(i + 1);
            assert(next.drop_last() == views.take(i as int));
            assert(next.last() == entries@[i as int]@);
        }
        let entry = &entries[i];
        let ghost before = data@;
        append_data_line(&mut data, FieldWidth::Six, FieldKind::Service, i, entry.service.as_str());
        append_data_line(&mut data, FieldWidth::Six, FieldKind::Code, i, entry.code.as_str());
        assert(data@ == before + data_line(
            FieldWidth::Six,
            FieldKind::Service,
            i as nat,
            entry.service@,
        ) + data_line(FieldWidth::Six, FieldKind::Code, i as nat, entry.code@));
        i = i + 1;
    }
    assert(views.take(n as int) == views);
    let rows = narrow_rows(entries);
    let lookup = render_lookup(rows.as_slice());
    (data, lookup)
}

/// Generates the tables for the eight-character strings from segments that are already
/// separated. Segments without a colon take no part; the entries are numbered in order.
pub fn generate_tables(codes: &[&str]) -> (tables: (String, String, String))
    ensures
        tables.0@ == service_table(entries_of(slice_texts(codes@))),
        tables.1@ == code_table(entries_of(slice_texts(codes@))),
        tables.2@ == lookup_text(lookup_rows_of(entries_of(slice_texts(codes@)))),
{
    let entries = entries_from_segments(codes);
    layout_tables(entries.as_slice())
}

/// The eight-character code strings alone.
pub fn generate_code_table(codes: &[&str]) -> (table: String)
    ensures
        table@ == code_table(entries_of(slice_texts(codes@))),
{
    generate_tables(codes).1
}

/// Generates the six-character strings and their lookup table from a comma-separated list.
/// This never fails: an input without entries gives empty tables.
pub fn format_recovery_codes_advanced(codes: &str) -> (result: Result<(String, String), PipelineError>)
    ensures
        result matches Ok(tables) && tables.0@ == narrow_table(parsed(codes@)) && tables.1@
            == lookup_text(narrow_rows_of(parsed(codes@))),
{
    let entries = parse_entries(codes);
    Ok(layout_narrow(entries.as_slice()))
}

/// The six-character strings of a comma-separated list.
pub fn format_recovery_codes(codes: &str) -> (data: String)
    ensures
        data@ == narrow_table(parsed(codes@)),
{
    let entries = parse_entries(codes);
    layout_narrow(entries.as_slice()).0
}

/// The number of bytes that the six-character strings of these segments take: two strings of
/// six bytes for each.
pub fn calculate_recovery_data_size(codes: &[&str]) -> (size: usize)
    requires
        codes@.len() * 12 <= usize::MAX,
    ensures
        size == codes@.len() * 12,
{
    codes.len() * 12
}

/// Symbols of one width name different fields differently.
pub proof fn lemma_symbols_distinct(
    width: FieldWidth,
    kind_a: FieldKind,
    index_a: nat,
    kind_b: FieldKind,
    index_b: nat,
)
    requires
        symbol_name(width, kind_a, index_a) == symbol_name(width, kind_b, index_b),
    ensures
        kind_a == kind_b,
        index_a == index_b,
{
    reveal_strlit("S6_SVC");
    reveal_strlit("S6_COD");
    reveal_strlit("S8_SVC");
    reveal_strlit("S8_COD");
    let prefix_a = symbol_prefix(width, kind_a);
    let prefix_b = symbol_prefix(width, kind_b);
    let a = symbol_name(width, kind_a, index_a);
    let b = symbol_name(width, kind_b, index_b);
    assert(prefix_a.len() == 6 && prefix_b.len() == 6);
    assert(a[3] == prefix_a[3]);
    assert(b[3] == prefix_b[3]);
    assert(a.skip(6) == decimal_text(index_a));
    assert(b.skip(6) == decimal_text(index_b));
    lemma_decimal_injective(index_a, index_b);
}

/// The lookup table leads from an index back to the entry: the rows of the entry at `index`
/// stand at twice the index and right after, they reference the symbols of that index, their
/// comments are the labels of that entry as they were given, and no other row references
/// these symbols.
pub proof fn lemma_lookup_round_trip(entries: Seq<(Seq<char>, Seq<char>)>, index: nat)
    requires
        index < entries.len(),
    ensures
        lookup_rows_of(entries).len() == ROWS_PER_ENTRY * entries.len(),
        lookup_rows_of(entries)[row_position(FieldKind::Service, index) as int] == (
            symbol_name(FieldWidth::Eight, FieldKind::Service, index),
            entries[index as int].0,
        ),
        lookup_rows_of(entries)[row_position(FieldKind::Code, index) as int] == (
            symbol_name(FieldWidth::Eight, FieldKind::Code, index),
            entries[index as int].1,
        ),
        forall|row: int|
            0 <= row < ROWS_PER_ENTRY * entries.len() && (#[trigger] lookup_rows_of(entries)[row]).0
                == symbol_name(FieldWidth::Eight, FieldKind::Service, index) ==> row
                == row_position(FieldKind::Service, index),
        forall|row: int|
            0 <= row < ROWS_PER_ENTRY * entries.len() && (#[trigger] lookup_rows_of(entries)[row]).0
                == symbol_name(FieldWidth::Eight, FieldKind::Code, index) ==> row == row_position(
                FieldKind::Code,
                index,
            ),
{
    let rows = lookup_rows_of(entries);
    assert forall|row: int|
        0 <= row < ROWS_PER_ENTRY * entries.len() && (#[trigger] rows[row]).0 == symbol_name(
            FieldWidth::Eight,
            FieldKind::Service,
            index,
        ) implies row == row_position(FieldKind::Service, index) by {
        lemma_symbols_distinct(
            FieldWidth::Eight,
            row_kind(row),
            (row / (ROWS_PER_ENTRY as int)) as nat,
            FieldKind::Service,
            index,
        );
    }
    assert forall|row: int|
        0 <= row < ROWS_PER_ENTRY * entries.len() && (#[trigger] rows[row]).0 == symbol_name(
            FieldWidth::Eight,
            FieldKind::Code,
            index,
        ) implies row == row_position(FieldKind::Code, index) by {
        lemma_symbols_distinct(
            FieldWidth::Eight,
            row_kind(row),
            (row / (ROWS_PER_ENTRY as int)) as nat,
            FieldKind::Code,
            index,
        );
    }
}

/// A text within ASCII that holds no line feed.
pub open spec fn plain(s: Seq<char>) -> bool {
    forall|i: int| 0 <= i < s.len() ==> is_ascii(#[trigger] s[i]) && s[i] != '\n'
}

/// Every label of the entries is plain.
pub open spec fn plain_entries(entries: Seq<(Seq<char>, Seq<char>)>) -> bool {
    forall|k: int|
        0 <= k < entries.len() ==> plain((#[trigger] entries[k]).0) && plain(entries[k].1)
}

/// The fixed pieces of the lines hold no line feed but the one that ends a line.
proof fn lemma_fixed_pieces()
    ensures
        count_of("S6_SVC"@, '\n') == 0,
        count_of("S6_COD"@, '\n') == 0,
        count_of("S8_SVC"@, '\n') == 0,
        count_of("S8_COD"@, '\n') == 0,
        count_of(":   "@, '\n') == 0,
        count_of("timex6  "@, '\n') == 0,
        count_of("timex   "@, '\n') == 0,
        count_of("\""@, '\n') == 0,
        count_of("\"\n"@, '\n') == 1,
        count_of("        db      "@, '\n') == 0,
        count_of("-START  ; "@, '\n') == 0,
        count_of("Service: "@, '\n') == 0,
        count_of("Code: "@, '\n') == 0,
        count_of("\n"@, '\n') == 1,
{
    reveal_strlit("S6_SVC");
    reveal_strlit("S6_COD");
    reveal_strlit("S8_SVC");
    reveal_strlit("S8_COD");
    reveal_strlit(":   ");
    reveal_strlit("timex6  ");
    reveal_strlit("timex   ");
    reveal_strlit("\"");
    reveal_strlit("\"\n");
    reveal_strlit("        db      ");
    reveal_strlit("-START  ; ");
    reveal_strlit("Service: ");
    reveal_strlit("Code: ");
    reveal_strlit("\n");
    lemma_count_absent("S6_SVC"@, '\n');
    lemma_count_absent("S6_COD"@, '\n');
    lemma_count_absent("S8_SVC"@, '\n');
    lemma_count_absent("S8_COD"@, '\n');
    lemma_count_absent(":   "@, '\n');
    lemma_count_absent("timex6  "@, '\n');
    lemma_count_absent("timex   "@, '\n');
    lemma_count_absent("\""@, '\n');
    lemma_count_absent("        db      "@, '\n');
    lemma_count_absent("-START  ; "@, '\n');
    lemma_count_absent("Service: "@, '\n');
    lemma_count_absent("Code: "@, '\n');
    let quote_end = "\"\n"@;
    assert(quote_end.drop_last() =~= seq!['"']);
    assert(seq!['"'].drop_last() =~= Seq::<char>::empty());
    assert(count_of(Seq::<char>::empty(), '\n') == 0);
    assert(count_of(seq!['"'], '\n') == 0);
    let end = "\n"@;
    assert(end.drop_last() =~= Seq::<char>::empty());
}

/// A symbol holds no line feed.
proof fn lemma_symbol_on_one_line(width: FieldWidth, kind: FieldKind, index: nat)
    ensures
        count_of(symbol_name(width, kind, index), '\n') == 0,
{
    lemma_fixed_pieces();
    lemma_decimal_digits(index);
    lemma_count_absent(decimal_text(index), '\n');
    lemma_count_concat(symbol_prefix(width, kind), decimal_text(index), '\n');
}

/// The field of a plain label holds no line feed.
proof fn lemma_field_on_one_line(label: Seq<char>, width: nat)
    requires
        plain(label),
    ensures
        count_of(fit(uppercase(label), width), '\n') == 0,
{
    lemma_uppercase_ascii(label);
    let upper = uppercase(label);
    let field = fit(upper, width);
    assert forall|j: int| 0 <= j < field.len() implies field[j] != '\n' by {
        if j < upper.len() {
            assert(upper[j] == ascii_upper(label[j]));
            assert(is_ascii(label[j]) && label[j] != '\n');
        }
    }
    lemma_count_absent(field, '\n');
}

/// The line that stores the field of a plain label is one line.
pub proof fn lemma_data_line_is_one_line(
    width: FieldWidth,
    kind: FieldKind,
    index: nat,
    label: Seq<char>,
)
    requires
        plain(label),
    ensures
        count_of(data_line(width, kind, index, label), '\n') == 1,
{
    lemma_fixed_pieces();
    lemma_symbol_on_one_line(width, kind, index);
    lemma_field_on_one_line(label, width.chars());
    let a = symbol_name(width, kind, index);
    let b = a + ":   "@;
    let c = b + directive(width);
    let d = c + "\""@;
    let e = d + fit(uppercase(label), width.chars());
    lemma_count_concat(a, ":   "@, '\n');
    lemma_count_concat(b, directive(width), '\n');
    lemma_count_concat(c, "\""@, '\n');
    lemma_count_concat(d, fit(uppercase(label), width.chars()), '\n');
    lemma_count_concat(e, "\"\n"@, '\n');
}

/// The line of a lookup row whose symbol and comment hold no line feed is one line.
pub proof fn lemma_lookup_line_is_one_line(row: (Seq<char>, Seq<char>))
    requires
        count_of(row.0, '\n') == 0,
        count_of(row.1, '\n') == 0,
    ensures
        count_of(lookup_line(row), '\n') == 1,
{
    lemma_fixed_pieces();
    let a = "        db      "@ + row.0;
    let b = a + "-START  ; "@;
    let c = b + row.1;
    lemma_count_concat("        db      "@, row.0, '\n');
    lemma_count_concat(a, "-START  ; "@, '\n');
    lemma_count_concat(b, row.1, '\n');
    lemma_count_concat(c, "\n"@, '\n');
}

/// A lookup table whose rows hold no line feed has one line for each row.
pub proof fn lemma_lookup_text_lines(rows: Seq<(Seq<char>, Seq<char>)>)
    requires
        forall|k: int|
            0 <= k < rows.len() ==> count_of((#[trigger] rows[k]).0, '\n') == 0 && count_of(
                rows[k].1,
                '\n',
            ) == 0,
    ensures
        count_of(lookup_text(rows), '\n') == rows.len(),
    decreases rows.len(),
{
    if rows.len() > 0 {
        let head = rows.drop_last();
        assert forall|k: int| 0 <= k < head.len() implies count_of((#[trigger] head[k]).0, '\n')
            == 0 && count_of(head[k].1, '\n') == 0 by {
            assert(head[k] == rows[k]);
        }
        lemma_lookup_text_lines(head);
        assert(count_of(rows[rows.len() - 1].0, '\n') == 0);
        lemma_lookup_line_is_one_line(rows.last());
        lemma_count_concat(lookup_text(head), lookup_line(rows.last()), '\n');
    }
}

/// For entries with plain labels every table has its lines: the six-character strings two
/// for each entry, the eight-character service and code strings one each, and both lookup
/// tables one for each of their rows.
pub proof fn lemma_tables_line_counts(entries: Seq<(Seq<char>, Seq<char>)>)
    requires
        plain_entries(entries),
    ensures
        count_of(narrow_table(entries), '\n') == ROWS_PER_ENTRY * entries.len(),
        count_of(lookup_text(narrow_rows_of(entries)), '\n') == ROWS_PER_ENTRY * entries.len(),
        count_of(service_table(entries), '\n') == entries.len(),
        count_of(code_table(entries), '\n') == entries.len(),
        count_of(lookup_text(lookup_rows_of(entries)), '\n') == ROWS_PER_ENTRY * entries.len(),
    decreases entries.len(),
{
    lemma_fixed_pieces();
    let wide = lookup_rows_of(entries);
    let narrow = narrow_rows_of(entries);
    assert forall|k: int| 0 <= k < wide.len() implies count_of((#[trigger] wide[k]).0, '\n') == 0
        && count_of(wide[k].1, '\n') == 0 by {
        let at = k / (ROWS_PER_ENTRY as int);
        lemma_symbol_on_one_line(FieldWidth::Eight, row_kind(k), at as nat);
        assert(plain(entries[at].0) && plain(entries[at].1));
        lemma_count_absent(row_label(entries, k), '\n');
    }
    lemma_lookup_text_lines(wide);
    assert forall|k: int| 0 <= k < narrow.len() implies count_of((#[trigger] narrow[k]).0, '\n')
        == 0 && count_of(narrow[k].1, '\n') == 0 by {
        let at = k / (ROWS_PER_ENTRY as int);
        lemma_symbol_on_one_line(FieldWidth::Six, row_kind(k), at as nat);
        assert(plain(entries[at].0) && plain(entries[at].1));
        lemma_count_absent(row_label(entries, k), '\n');
        lemma_count_concat(comment_prefix(row_kind(k)), row_label(entries, k), '\n');
    }
    lemma_lookup_text_lines(narrow);
    if entries.len() > 0 {
        let head = entries.drop_last();
        let index = (entries.len() - 1) as nat;
        let last = entries.last();
        assert forall|k: int| 0 <= k < head.len() implies plain((#[trigger] head[k]).0) && plain(
            head[k].1,
        ) by {
            assert(head[k] == entries[k]);
        }
        lemma_tables_line_counts(head);
        assert(plain(entries[entries.len() - 1].0) && plain(entries[entries.len() - 1].1));
        lemma_data_line_is_one_line(FieldWidth::Six, FieldKind::Service, index, last.0);
        lemma_data_line_is_one_line(FieldWidth::Six, FieldKind::Code, index, last.1);
        lemma_data_line_is_one_line(FieldWidth::Eight, FieldKind::Service, index, last.0);
        lemma_data_line_is_one_line(FieldWidth::Eight, FieldKind::Code, index, last.1);
        let first_line = data_line(FieldWidth::Six, FieldKind::Service, index, last.0);
        let second_line = data_line(FieldWidth::Six, FieldKind::Code, index, last.1);
        lemma_count_concat(narrow_table(head), first_line, '\n');
        lemma_count_concat(narrow_table(head) + first_line, second_line, '\n');
        lemma_count_concat(
            service_table(head),
            data_line(FieldWidth::Eight, FieldKind::Service, index, last.0),
            '\n',
        );
        lemma_count_concat(
            code_table(head),
            data_line(FieldWidth::Eight, FieldKind::Code, index, last.1),
            '\n',
        );
    }
}

/// The pieces of a plain text are plain.
proof fn lemma_split_plain(s: Seq<char>, sep: char)
    requires
        plain(s),
    ensures
        forall|k: int| 0 <= k < split(s, sep).len() ==> plain(#[trigger] split(s, sep)[k]),
    decreases s.len(),
{
    let at = first_index_of(s, sep) as int;
    lemma_first_index_of(s, sep);
    if at < s.len() {
        let first = s.take(at);
        let rest = s.skip(at + 1);
        assert(plain(first)) by {
            assert forall|i: int| 0 <= i < first.len() implies is_ascii(#[trigger] first[i])
                && first[i] != '\n' by {
                assert(first[i] == s[i]);
            }
        }
        assert(plain(rest)) by {
            assert forall|i: int| 0 <= i < rest.len() implies is_ascii(#[trigger] rest[i])
                && rest[i] != '\n' by {
                assert(rest[i] == s[i + at + 1]);
            }
        }
        lemma_split_plain(rest, sep);
        assert forall|k: int| 0 <= k < split(s, sep).len() implies plain(
            #[trigger] split(s, sep)[k],
        ) by {
            if k > 0 {
                assert(split(s, sep)[k] == split(rest, sep)[k - 1]);
            }
        }
    }
}

/// The entries of plain segments have plain labels.
proof fn lemma_entries_plain(segments: Seq<Seq<char>>)
    requires
        forall|k: int| 0 <= k < segments.len() ==> plain(#[trigger] segments[k]),
    ensures
        plain_entries(entries_of(segments)),
    decreases segments.len(),
{
    if segments.len() > 0 {
        let head = segments.drop_last();
        let last = segments.last();
        assert forall|k: int| 0 <= k < head.len() implies plain(#[trigger] head[k]) by {
            assert(head[k] == segments[k]);
        }
        lemma_entries_plain(head);
        assert(plain(segments[segments.len() - 1]));
        lemma_first_index_of(last, ':');
        match entry_of(last) {
            Some(entry) => {
                let at = first_index_of(last, ':') as int;
                assert(plain(entry.0)) by {
                    assert forall|i: int| 0 <= i < entry.0.len() implies is_ascii(
                        #[trigger] entry.0[i],
                    ) && entry.0[i] != '\n' by {
                        assert(entry.0[i] == last[i]);
                    }
                }
                assert(plain(entry.1)) by {
                    assert forall|i: int| 0 <= i < entry.1.len() implies is_ascii(
                        #[trigger] entry.1[i],
                    ) && entry.1[i] != '\n' by {
                        assert(entry.1[i] == last[i + at + 1]);
                    }
                }
                let all = entries_of(head).push(entry);
                assert forall|k: int| 0 <= k < all.len() implies plain((#[trigger] all[k]).0)
                    && plain(all[k].1) by {
                    if k < entries_of(head).len() {
                        assert(all[k] == entries_of(head)[k]);
                    }
                }
            },
            None => {},
        }
    }
}

/// For a plain list the six-character tables have two lines for each segment that holds a
/// colon, and none for any other segment: the strings as well as the lookup rows.
pub proof fn lemma_narrow_tables_have_two_lines_per_entry(codes: Seq<char>)
    requires
        plain(codes),
    ensures
        plain_entries(parsed(codes)),
        count_of(narrow_table(parsed(codes)), '\n') == ROWS_PER_ENTRY * parsed(codes).len(),
        count_of(lookup_text(narrow_rows_of(parsed(codes))), '\n') == ROWS_PER_ENTRY * parsed(
            codes,
        ).len(),
{
    lemma_split_plain(codes, ',');
    lemma_entries_plain(split(codes, ','));
    lemma_tables_line_counts(parsed(codes));
}

} // verus!
