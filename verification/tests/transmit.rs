use timex_datalink::protocol_4::{End, Start, Sync, WristApp};
use timex_datalink::{PacketGenerator, Protocol4};
use wristvault::error::PipelineError;
use wristvault::transmit::{
    frame_payload, prepare_transmission, transmission_result, DEFAULT_SYNC_LENGTH, SYNC_TAIL_LENGTH,
};

fn sync_group(length: usize) -> Vec<u8> {
    let mut group = vec![0x78u8];
    group.extend(std::iter::repeat(0x55u8).take(length));
    group.extend(std::iter::repeat(0xaau8).take(SYNC_TAIL_LENGTH));
    group
}

#[test]
fn framing_has_preamble_start_payload_and_end_in_order() {
    let payload: Vec<u8> = (0..100u8).collect();
    let groups = frame_payload(payload.clone(), 100);
    let inner = WristApp { wrist_app_data: payload }.packets();
    assert_eq!(groups.len(), inner.len() + 3);
    assert_eq!(groups[0], sync_group(100));
    assert_eq!(groups[1], vec![7, 32, 0, 0, 4, 195, 191]);
    assert_eq!(groups[2..groups.len() - 1].to_vec(), inner);
    assert_eq!(groups[groups.len() - 1], vec![4, 33, 216, 194]);
}

#[test]
fn framing_is_that_of_the_protocol_container() {
    let payload = vec![0x41u8, 0x42, 0x43];
    let mut protocol = Protocol4::new();
    protocol.add(Sync { length: 100 });
    protocol.add(Start {});
    protocol.add(WristApp { wrist_app_data: payload.clone() });
    protocol.add(End {});
    assert_eq!(frame_payload(payload, DEFAULT_SYNC_LENGTH), protocol.packets());
}

#[test]
fn markers_are_those_of_the_protocol_components() {
    let groups = frame_payload(vec![1, 2, 3], 5);
    assert_eq!(vec![groups[0].clone()], Sync { length: 5 }.packets());
    assert_eq!(vec![groups[1].clone()], Start {}.packets());
    assert_eq!(vec![groups[groups.len() - 1].clone()], End {}.packets());
}

#[test]
fn each_marker_occurs_once() {
    let groups = frame_payload(vec![0x21; 70], 100);
    let start = vec![7u8, 32, 0, 0, 4, 195, 191];
    let end = vec![4u8, 33, 216, 194];
    assert_eq!(groups.iter().filter(|g| **g == sync_group(100)).count(), 1);
    assert_eq!(groups.iter().filter(|g| **g == start).count(), 1);
    assert_eq!(groups.iter().filter(|g| **g == end).count(), 1);
}

#[test]
fn payload_is_sent_in_pages() {
    let payload: Vec<u8> = (0..70u8).collect();
    let groups = frame_payload(payload.clone(), 0);
    assert_eq!(groups[0], sync_group(0));
    // clear, section, three pages of at most thirty-two bytes, end of the payload
    assert_eq!(groups.len(), 3 + 6);
    assert_eq!(groups[2][1..3], [0x93, 0x02]);
    assert_eq!(groups[3][1..5], [0x90, 0x02, 3, 1]);
    assert_eq!(groups[4][1..4], [0x91, 0x02, 1]);
    assert_eq!(groups[4][4..36].to_vec(), payload[0..32].to_vec());
    assert_eq!(groups[6][1..4], [0x91, 0x02, 3]);
    assert_eq!(groups[6][4..10].to_vec(), payload[64..70].to_vec());
    assert_eq!(groups[7][1..3], [0x92, 0x02]);
}

#[test]
fn empty_payload_is_framed_too() {
    let groups = frame_payload(vec![], 100);
    assert_eq!(groups.len(), 3 + 3);
    assert_eq!(groups[0].len(), 141);
}

#[test]
fn preamble_has_the_length_asked_for() {
    assert_eq!(frame_payload(vec![1], 0)[0].len(), 41);
    assert_eq!(frame_payload(vec![1], 300)[0].len(), 341);
    assert_eq!(frame_payload(vec![1], u16::MAX)[0].len(), 65535 + 41);
    assert_eq!(DEFAULT_SYNC_LENGTH, 100);
}

#[test]
fn hex_text_is_decoded_before_framing() {
    assert_eq!(prepare_transmission(" 414243\n", 100), frame_payload(vec![0x41, 0x42, 0x43], 100));
    assert_eq!(prepare_transmission("41G242", 7), frame_payload(vec![0x41, 0x24], 7));
    assert_eq!(prepare_transmission("", 7), frame_payload(vec![], 7));
}

#[test]
fn transport_success_is_passed_on() {
    assert_eq!(transmission_result(Ok(())), Ok(()));
}

#[test]
fn transport_error_is_forwarded_unchanged() {
    assert_eq!(
        transmission_result(Err("No such file or directory (os error 2)".to_string())),
        Err(PipelineError::TransmissionFailure {
            message: "No such file or directory (os error 2)".to_string()
        })
    );
}
