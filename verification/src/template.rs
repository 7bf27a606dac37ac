//! The template engine: a program skeleton with named placeholders, and its substitution.

use vstd::prelude::*;
use vstd::string::StringExecFns;
use crate::error::PipelineError;

verus! {

/// The placeholders that a skeleton can hold.
#[derive(Debug, Clone, Copy, PartialEq, Eq, Structural)]
pub enum Slot {
    /// The addresses of the program's variables.
    MemoryLayout,
    /// The six-character strings.
    RecoveryData,
    /// The event tables of the states.
    StateTables,
    /// The number of entries.
    EntryCount,
    /// The index of the last entry.
    LastIndex,
    /// The eight-character service strings.
    ServiceTable,
    /// The eight-character code strings.
    CodeTable,
    /// The rows of the lookup table.
    LookupTable,
}

/// One piece of a skeleton: text that is copied, or a placeholder that is replaced.
#[derive(Debug, Clone, PartialEq, Eq)]
pub enum Part {
    Text(String),
    Slot(Slot),
}

/// What a piece of a skeleton holds.
pub enum PartText {
    Text(Seq<char>),
    Slot(Slot),
}

impl View for Part {
    type V = PartText;

    open spec fn view(&self) -> PartText {
        match self {
            Part::Text(text) => PartText::Text(text@),
            Part::Slot(slot) => PartText::Slot(*slot),
        }
    }
}

/// A fragment for a placeholder.
#[derive(Debug, Clone, PartialEq, Eq)]
pub struct Binding {
    pub slot: Slot,
    pub fragment: String,
}

impl View for Binding {
    type V = (Slot, Seq<char>);

    open spec fn view(&self) -> (Slot, Seq<char>) {
        (self.slot, self.fragment@)
    }
}

/// The pieces of a list, by what they hold.
pub open spec fn part_views(parts: Seq<Part>) -> Seq<PartText> {
    Seq::new(parts.len(), |i: int| parts[i]@)
}

/// The bindings of a list, as pairs of placeholder and fragment.
pub open spec fn binding_views(bindings: Seq<Binding>) -> Seq<(Slot, Seq<char>)> {
    Seq::new(bindings.len(), |i: int| bindings[i]@)
}

/// The name of a placeholder.
pub open spec fn slot_name(slot: Slot) -> Seq<char> {
    match slot {
        Slot::MemoryLayout => "MEMORY_LAYOUT"@,
        Slot::RecoveryData => "RECOVERY_DATA"@,
        Slot::StateTables => "STATE_TABLES"@,
        Slot::EntryCount => "NUM_CODES"@,
        Slot::LastIndex => "NUM_CODES_MINUS_1"@,
        Slot::ServiceTable => "SERVICE_TABLE_DATA"@,
        Slot::CodeTable => "CODE_TABLE_DATA"@,
        Slot::LookupTable => "LOOKUP_DATA"@,
    }
}

/// The fragment that the bindings give for a placeholder: that of the first binding for it.
pub open spec fn bound_to(bindings: Seq<(Slot, Seq<char>)>, slot: Slot) -> Option<Seq<char>>
    decreases bindings.len(),
{
    if bindings.len() == 0 {
        None
    } else if bindings[0].0 == slot {
        Some(bindings[0].1)
    } else {
        bound_to(bindings.skip(1), slot)
    }
}

/// The text of one piece under the bindings, or the placeholder that has no fragment.
pub open spec fn piece_text(part: PartText, bindings: Seq<(Slot, Seq<char>)>) -> Result<Seq<char>, Slot> {
    match part {
        PartText::Text(text) => Ok(text),
        PartText::Slot(slot) => match bound_to(bindings, slot) {
            Some(fragment) => Ok(fragment),
            None => Err(slot),
        },
    }
}

/// The text of a skeleton under the bindings: each piece of text as it is and each
/// placeholder replaced once by its fragment, in order. Where placeholders have no fragment
/// there is no text, and the first of them is named.
pub open spec fn rendered(parts: Seq<PartText>, bindings: Seq<(Slot, Seq<char>)>) -> Result<
    Seq<char>,
    Slot,
>
    decreases parts.len(),
{
    if parts.len() == 0 {
        Ok(Seq::empty())
    } else {
        match rendered(parts.drop_last(), bindings) {
            Err(slot) => Err(slot),
            Ok(text) => match piece_text(parts.last(), bindings) {
                Ok(piece) => Ok(text + piece),
                Err(slot) => Err(slot),
            },
        }
    }
}

/// The name of a placeholder.
pub fn name_of(slot: Slot) -> (name: String)
    ensures
        name@ == slot_name(slot),
{
    let name = match slot {
        Slot::MemoryLayout => "MEMORY_LAYOUT",
        Slot::RecoveryData => "RECOVERY_DATA",
        Slot::StateTables => "STATE_TABLES",
        Slot::EntryCount => "NUM_CODES",
        Slot::LastIndex => "NUM_CODES_MINUS_1",
        Slot::ServiceTable => "SERVICE_TABLE_DATA",
        Slot::CodeTable => "CODE_TABLE_DATA",
        Slot::LookupTable => "LOOKUP_DATA",
    };
    String::from_str(name)
}

/// Finds the first binding for a placeholder.
pub fn find_binding(bindings: &[Binding], slot: Slot) -> (found: Option<usize>)
    ensures
        match found {
            Some(at) => at < bindings@.len() && bindings@[at as int].slot == slot && bound_to(
                binding_views(bindings@),
                slot,
            ) == Some(bindings@[at as int].fragment@),
            None => bound_to(binding_views(bindings@), slot) is None,
        },
{
    let n = bindings.len();
    let mut i: usize = 0;
    let ghost all = binding_views(bindings@);
    assert(all.skip(0) == all);
    while i < n
        invariant
            i <= n == bindings@.len(),
            all == binding_views(bindings@),
            bound_to(all, slot) == bound_to(all.skip(i as int), slot),
        decreases n - i,
    {
        proof {
            let rest = all.skip(i as int);
            assert(rest[0] == bindings@[i as int]@);
            assert(rest.skip(1) == all.skip(i + 1));
        }
        if bindings[i].slot == slot {
            return Some(i);
        }
        i = i + 1;
    }
    assert(all.skip(n as int).len() == 0);
    None
}

/// Substitutes the fragments into the skeleton. Generation fails at the first placeholder
/// without a fragment, and no text is produced then.
pub fn render(parts: &[Part], bindings: &[Binding]) -> (result: Result<String, PipelineError>)
    ensures
        match result {
            Ok(text) => rendered(part_views(parts@), binding_views(bindings@)) == Ok::<
                Seq<char>,
                Slot,
            >(text@),
            Err(e) => rendered(part_views(parts@), binding_views(bindings@)) matches Err(slot) && (
            e matches PipelineError::UnreplacedPlaceholder { name } && name@ == slot_name(slot)),
        },
{
    let n = parts.len();
    let mut out = String::new();
    let mut i: usize = 0;
    let ghost all = part_views(parts@);
    let ghost bound = binding_views(bindings@);
    assert(all.take(0) == Seq::<PartText>::empty());
    while i < n
        invariant
            i <= n == parts@.len(),
            all == part_views(parts@),
            bound == binding_views(bindings@),
            rendered(all.take(i as int), bound) == Ok::<Seq<char>, Slot>(out@),
        decreases n - i,
    {
        proof {
            let next = all.take(i + 1);
            assert(next.drop_last() == all.take(i as int));
            assert(next.last() == parts@[i as int]@);
        }
        match &parts[i] {
            Part::Text(text) => {
                out.append(text.as_str());
            },
            Part::Slot(slot) => {
                match find_binding(bindings, *slot) {
                    Some(at) => {
                        out.append(bindings[at].fragment.as_str());
                    },
                    None => {
                        proof {
                            lemma_rendered_prefix_error(all, bound, i + 1);
                        }
                        return Err(PipelineError::UnreplacedPlaceholder { name: name_of(*slot) });
                    },
                }
            },
        }
        i = i + 1;
    }
    assert(all.take(n as int) == all);
    Ok(out)
}

/// Once a prefix of a skeleton fails on a placeholder, the whole skeleton fails on it.
pub proof fn lemma_rendered_prefix_error(
    parts: Seq<PartText>,
    bindings: Seq<(Slot, Seq<char>)>,
    upto: int,
)
    requires
        0 <= upto <= parts.len(),
        rendered(parts.take(upto), bindings) is Err,
    ensures
        rendered(parts, bindings) == rendered(parts.take(upto), bindings),
    decreases parts.len() - upto,
{
    if upto < parts.len() {
        let next = parts.take(upto + 1);
        assert(next.drop_last() == parts.take(upto));
        lemma_rendered_prefix_error(parts, bindings, upto + 1);
    } else {
        assert(parts.take(upto) == parts);
    }
}

/// Generation succeeds exactly when every placeholder of the skeleton has a fragment: one
/// placeholder that would stay unreplaced makes it fail.
pub proof fn lemma_render_needs_every_binding(parts: Seq<PartText>, bindings: Seq<(Slot, Seq<char>)>)
    ensures
        rendered(parts, bindings) is Ok <==> (forall|i: int|
            0 <= i < parts.len() ==> piece_text(#[trigger] parts[i], bindings) is Ok),
    decreases parts.len(),
{
    if parts.len() > 0 {
        let head = parts.drop_last();
        lemma_render_needs_every_binding(head, bindings);
        if rendered(parts, bindings) is Ok {
            assert forall|i: int| 0 <= i < parts.len() implies piece_text(
                #[trigger] parts[i],
                bindings,
            ) is Ok by {
                if i < head.len() {
                    assert(head[i] == parts[i]);
                }
            }
        }
        if forall|i: int| 0 <= i < parts.len() ==> piece_text(#[trigger] parts[i], bindings) is Ok {
            assert forall|i: int| 0 <= i < head.len() implies piece_text(
                #[trigger] head[i],
                bindings,
            ) is Ok by {
                assert(head[i] == parts[i]);
            }
            assert(piece_text(parts[parts.len() - 1], bindings) is Ok);
        }
    }
}

/// Adding a piece to a skeleton adds its text, or the failure on its placeholder.
pub proof fn lemma_rendered_push(parts: Seq<PartText>, bindings: Seq<(Slot, Seq<char>)>, part: PartText)
    ensures
        rendered(parts.push(part), bindings) == match rendered(parts, bindings) {
            Err(slot) => Err::<Seq<char>, Slot>(slot),
            Ok(text) => match piece_text(part, bindings) {
                Ok(piece) => Ok(text + piece),
                Err(slot) => Err(slot),
            },
        },
{
    assert(parts.push(part).drop_last() == parts);
}

/// The first binding for a placeholder decides its fragment.
pub proof fn lemma_bound_at(bindings: Seq<(Slot, Seq<char>)>, slot: Slot, at: int)
    requires
        0 <= at < bindings.len(),
        bindings[at].0 == slot,
        forall|j: int| 0 <= j < at ==> bindings[j].0 != slot,
    ensures
        bound_to(bindings, slot) == Some(bindings[at].1),
    decreases at,
{
    if at > 0 {
        let rest = bindings.skip(1);
        assert(rest[at - 1] == bindings[at]);
        assert forall|j: int| 0 <= j < at - 1 implies rest[j].0 != slot by {
            assert(rest[j] == bindings[j + 1]);
        }
        lemma_bound_at(rest, slot, at - 1);
    }
}

} // verus!
