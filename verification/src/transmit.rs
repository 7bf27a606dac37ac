//! Framing of the binary program into the packet groups that go over the serial link.

use vstd::prelude::*;
use timex_datalink::PacketGenerator;
use timex_datalink::protocol_4::{End, Protocol4, Start, Sync, WristApp};
use crate::error::PipelineError;
use crate::hex::{decode, transcode};
use crate::text::trim;

verus! {

/// The protocol container of the `timex_datalink` crate: it collects components and hands
/// out their packet groups. Nothing inside it is visible here.
#[verifier::external_type_specification]
#[verifier::external_body]
pub struct ExProtocol4(Protocol4);

/// What a protocol container holds: for each component added so far, in the order of adding,
/// the packet groups that this component produces.
pub uninterp spec fn component_groups(p: Protocol4) -> Seq<Seq<Seq<u8>>>;

/// The packet groups that the wrist-app component produces for a binary payload: the payload
/// in numbered pages between a clear, a section and an end command, each with a checksum.
pub uninterp spec fn wrist_app_groups(payload: Seq<u8>) -> Seq<Seq<u8>>;

/// The number of bytes of the second synchronization pattern.
pub const SYNC_TAIL_LENGTH: usize = 40;

/// The synchronization preamble used when the caller asks for none in particular.
pub const DEFAULT_SYNC_LENGTH: u16 = 100;

/// The preamble: one group that holds a ping byte, `length` bytes of the first pattern and
/// forty bytes of the second.
pub open spec fn sync_groups(length: nat) -> Seq<Seq<u8>> {
    seq![
        seq![0x78u8] + Seq::new(length, |i: int| 0x55u8) + Seq::new(
            SYNC_TAIL_LENGTH as nat,
            |i: int| 0xAAu8,
        ),
    ]
}

/// The start marker: one group, the start command with its length byte and checksum.
pub open spec fn start_groups() -> Seq<Seq<u8>> {
    seq![seq![7u8, 32u8, 0u8, 0u8, 4u8, 195u8, 191u8]]
}

/// The end marker: one group, the skip command with its length byte and checksum.
pub open spec fn end_groups() -> Seq<Seq<u8>> {
    seq![seq![4u8, 33u8, 216u8, 194u8]]
}

/// The contents of the packet groups, as sequences of bytes.
pub open spec fn group_bytes(groups: Seq<Vec<u8>>) -> Seq<Seq<u8>> {
    Seq::new(groups.len(), |i: int| groups[i]@)
}

/// All the groups of the components, in order.
pub open spec fn join_groups(parts: Seq<Seq<Seq<u8>>>) -> Seq<Seq<u8>>
    decreases parts.len(),
{
    if parts.len() == 0 {
        Seq::empty()
    } else {
        join_groups(parts.drop_last()) + parts.last()
    }
}

/// The packet stream for a payload: preamble, start marker, payload, end marker.
pub open spec fn framed(payload: Seq<u8>, sync_length: nat) -> Seq<Seq<u8>> {
    sync_groups(sync_length) + start_groups() + wrist_app_groups(payload) + end_groups()
}

/// `Protocol4::new` makes a container without components.
#[verifier::external_body]
fn new_protocol() -> (p: Protocol4)
    ensures
        component_groups(p) == Seq::<Seq<Seq<u8>>>::empty(),
{
    Protocol4::new()
}

/// `Protocol4::add` of a `Sync` puts it behind the components already there; a `Sync`
/// produces the one group of `sync_groups`.
#[verifier::external_body]
fn add_sync(p: &mut Protocol4, length: u16)
    ensures
        component_groups(*final(p)) == component_groups(*old(p)).push(sync_groups(length as nat)),
{
    p.add(Sync { length: length as usize })
}

/// `Protocol4::add` of a `Start` puts it behind the components already there; a `Start`
/// produces the one group of `start_groups`.
#[verifier::external_body]
fn add_start(p: &mut Protocol4)
    ensures
        component_groups(*final(p)) == component_groups(*old(p)).push(start_groups()),
{
    p.add(Start {})
}

/// `Protocol4::add` of a `WristApp` puts it behind the components already there; what a
/// `WristApp` produces depends on its payload alone.
#[verifier::external_body]
fn add_wrist_app(p: &mut Protocol4, payload: Vec<u8>)
    ensures
        component_groups(*final(p)) == component_groups(*old(p)).push(wrist_app_groups(payload@)),
{
    p.add(WristApp { wrist_app_data: payload })
}

/// `Protocol4::add` of an `End` puts it behind the components already there; an `End`
/// produces the one group of `end_groups`.
#[verifier::external_body]
fn add_end(p: &mut Protocol4)
    ensures
        component_groups(*final(p)) == component_groups(*old(p)).push(end_groups()),
{
    p.add(End {})
}

/// `Protocol4::packets` hands out the groups of every component, component after component.
#[verifier::external_body]
fn protocol_packets(p: &Protocol4) -> (groups: Vec<Vec<u8>>)
    ensures
        group_bytes(groups@) == join_groups(component_groups(*p)),
{
    p.packets()
}

/// Wraps the payload in the framing that the device expects: exactly one preamble, one start
/// marker, the payload and one end marker, in that order.
pub fn frame_payload(payload: Vec<u8>, sync_length: u16) -> (groups: Vec<Vec<u8>>)
    ensures
        group_bytes(groups@) == framed(payload@, sync_length as nat),
{
    let ghost a = sync_groups(sync_length as nat);
    let ghost b = start_groups();
    let ghost c = wrist_app_groups(payload@);
    let ghost d = end_groups();
    let mut protocol = new_protocol();
    add_sync(&mut protocol, sync_length);
    add_start(&mut protocol);
    add_wrist_app(&mut protocol, payload);
    add_end(&mut protocol);
    proof {
        let e = Seq::<Seq<Seq<u8>>>::empty();
        let all = e.push(a).push(b).push(c).push(d);
        assert(component_groups(protocol) == all);
        assert(all.drop_last() == e.push(a).push(b).push(c));
        assert(e.push(a).push(b).push(c).drop_last() == e.push(a).push(b));
        assert(e.push(a).push(b).drop_last() == e.push(a));
        assert(e.push(a).drop_last() == e);
        assert(join_groups(e) == Seq::<Seq<u8>>::empty());
        assert(join_groups(e.push(a)) == a);
        assert(join_groups(e.push(a).push(b)) == a + b);
        assert(join_groups(e.push(a).push(b).push(c)) == a + b + c);
        assert(join_groups(all) == a + b + c + d);
    }
    protocol_packets(&protocol)
}

/// Turns the assembler's hexadecimal output into the packet stream for the device.
pub fn prepare_transmission(hex_text: &str, sync_length: u16) -> (groups: Vec<Vec<u8>>)
    ensures
        group_bytes(groups@) == framed(decode(trim(hex_text@)), sync_length as nat),
{
    frame_payload(transcode(hex_text).bytes, sync_length)
}

/// Passes on what the transport adapter reported: success as it is, an error as a
/// transmission failure that carries the adapter's message unchanged.
pub fn transmission_result(written: Result<(), String>) -> (result: Result<(), PipelineError>)
    ensures
        written is Ok ==> result is Ok,
        written matches Err(message) ==> result == Err::<(), PipelineError>(
            PipelineError::TransmissionFailure { message },
        ),
{
    match written {
        Ok(()) => Ok(()),
        Err(message) => Err(PipelineError::TransmissionFailure { message }),
    }
}

} // verus!
