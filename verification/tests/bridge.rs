use xkore_bridge::bridge::{keepalive_frame, BridgeState};
use xkore_bridge::codec::encode;
use xkore_bridge::codec::{TAG_TO_APP, TAG_TO_PEER};

fn connected_bridge() -> BridgeState {
    let mut b = BridgeState::new();
    b.on_connect_attempt(0, true);
    assert!(b.connected);
    b
}

#[test]
fn stays_disconnected_and_throttles_retries() {
    // Agent endpoint absent: every attempt fails, spaced by the interval.
    let mut b = BridgeState::new();
    assert!(b.reconnect_due(0)); // the very first attempt is immediate
    b.on_connect_attempt(0, false);
    assert!(!b.connected);
    assert!(!b.reconnect_due(1));
    assert!(!b.reconnect_due(2999));
    assert!(b.reconnect_due(3000));
    b.on_connect_attempt(3000, false);
    assert!(!b.connected);
    assert!(!b.reconnect_due(5999));
    assert!(b.reconnect_due(6000));
}

#[test]
fn reconnect_not_due_while_connected() {
    let b = connected_bridge();
    assert!(!b.reconnect_due(1_000_000));
}

#[test]
fn agent_r_frame_fills_inbound_queue() {
    // ['R', 5, 0, 'h','e','l','l','o'] => the 5 payload bytes, nothing else.
    let mut b = connected_bridge();
    let forward = b.on_control_read(&vec![82u8, 5, 0, 104, 101, 108, 108, 111]);
    assert!(forward.is_empty());
    let delivered = b.take_inbound(100);
    assert_eq!(delivered, vec![104u8, 101, 108, 108, 111]);
    assert!(b.take_inbound(100).is_empty());
}

#[test]
fn agent_s_frame_goes_to_downstream_peer() {
    // ['S', 3, 0, 'a','b','c'] with a downstream peer attached.
    let mut b = connected_bridge();
    b.set_downstream(true);
    let forward = b.on_control_read(&vec![83u8, 3, 0, 97, 98, 99]);
    assert_eq!(forward, vec![97u8, 98, 99]);
    assert!(b.take_inbound(100).is_empty());
}

#[test]
fn keepalive_frame_is_consumed_silently() {
    let mut b = connected_bridge();
    let forward = b.on_control_read(&keepalive_frame());
    assert!(forward.is_empty());
    assert!(b.take_inbound(100).is_empty());
}

#[test]
fn unknown_tag_keeps_stream_aligned() {
    // An unknown frame is discarded, and the frame after it still routes.
    let mut b = connected_bridge();
    let mut read = vec![88u8, 2, 0, 1, 2];
    read.extend_from_slice(&[82u8, 1, 0, 42]);
    let forward = b.on_control_read(&read);
    assert!(forward.is_empty());
    assert_eq!(b.take_inbound(100), vec![42u8]);
}

#[test]
fn one_byte_feed_equals_one_block_feed() {
    let mut stream: Vec<u8> = Vec::new();
    stream.extend_from_slice(&[82u8, 3, 0, 120, 121, 122]);
    stream.extend_from_slice(&[83u8, 1, 0, 113]);
    stream.extend_from_slice(&[75u8, 0, 0]);
    stream.extend_from_slice(&[82u8, 2, 0]); // trailing partial frame

    let mut by_byte = connected_bridge();
    let mut forward_bytes: Vec<u8> = Vec::new();
    for &byte in stream.iter() {
        forward_bytes.extend_from_slice(&by_byte.on_control_read(&vec![byte]));
    }

    let mut block = connected_bridge();
    let forward_block = block.on_control_read(&stream);

    assert_eq!(forward_bytes, forward_block);
    assert_eq!(by_byte.take_inbound(100), block.take_inbound(100));
    assert_eq!(by_byte.recv_buf, block.recv_buf);
    assert_eq!(by_byte.recv_buf, vec![82u8, 2, 0]);
}

#[test]
fn frame_split_across_reads_completes_later() {
    let mut b = connected_bridge();
    assert!(b.on_control_read(&vec![82u8, 2]).is_empty());
    assert!(b.take_inbound(100).is_empty());
    assert!(b.on_control_read(&vec![0u8, 104]).is_empty());
    assert!(b.take_inbound(100).is_empty());
    assert!(b.on_control_read(&vec![105u8]).is_empty());
    assert_eq!(b.take_inbound(100), vec![104u8, 105]);
}

#[test]
fn disconnected_send_passes_through_untouched() {
    let mut b = BridgeState::new();
    let data = vec![1u8, 2, 3];
    let stolen = b.on_application_send(&data);
    assert!(!stolen); // caller lets the bytes flow to the real peer
    assert!(b.outbound.is_empty());
    assert!(b.inbound.is_empty());
}

#[test]
fn connected_send_is_stolen_as_s_frames_in_order() {
    let mut b = connected_bridge();
    assert!(b.on_application_send(&vec![97u8, 98]));
    assert!(b.on_application_send(&vec![99u8, 100]));
    let mut expected = encode(TAG_TO_PEER, &vec![97u8, 98]);
    expected.extend_from_slice(&encode(TAG_TO_PEER, &vec![99u8, 100]));
    assert_eq!(b.outbound, expected);
}

#[test]
fn captured_receive_is_framed_for_the_agent() {
    let mut b = connected_bridge();
    assert!(b.on_application_receive(&vec![120u8, 121]));
    assert_eq!(b.outbound, vec![82u8, 2, 0, 120, 121]);
    // Asymmetry kept from the design: the receive path captures a copy for
    // the agent (the real receive already completed), while the send path
    // steals the traffic outright.  The bridge itself delivers nothing to
    // the application here; delivery comes later from the inbound queue.
    assert!(b.take_inbound(100).is_empty());
}

#[test]
fn disconnected_receive_changes_nothing() {
    let mut b = BridgeState::new();
    assert!(!b.on_application_receive(&vec![9u8]));
    assert!(b.outbound.is_empty());
}

#[test]
fn failed_write_restores_data_ahead_of_newer_bytes() {
    let mut b = connected_bridge();
    b.on_application_send(&vec![111u8, 110, 101]); // "one"
    let drained = b.drain_outbound();
    assert!(b.outbound.is_empty());
    // While the write is failing, more traffic is captured.
    b.on_application_send(&vec![116u8, 119, 111]); // "two"
    b.on_write_failed(&drained);
    assert!(!b.connected);
    let mut expected = encode(TAG_TO_PEER, &vec![111u8, 110, 101]);
    expected.extend_from_slice(&encode(TAG_TO_PEER, &vec![116u8, 119, 111]));
    assert_eq!(b.outbound, expected);
    // After the next successful reconnect the same bytes drain first.
    assert!(b.reconnect_due(3000));
    b.on_connect_attempt(3000, true);
    assert_eq!(b.drain_outbound(), expected);
}

#[test]
fn keepalive_due_five_seconds_after_connect() {
    let mut b = BridgeState::new();
    b.on_connect_attempt(100, true);
    assert!(!b.ping_due(5099));
    assert!(b.ping_due(5100));
    b.on_ping_result(5100, true);
    assert!(!b.ping_due(10_099));
    assert!(b.ping_due(10_100));
}

#[test]
fn keepalive_not_due_while_disconnected() {
    let b = BridgeState::new();
    assert!(!b.ping_due(1_000_000));
}

#[test]
fn failed_keepalive_write_disconnects() {
    let mut b = connected_bridge();
    b.on_application_send(&vec![5u8]);
    b.on_ping_result(5000, false);
    assert!(!b.connected);
    assert!(!b.has_control);
    // Queued outbound data survives the disconnect.
    assert_eq!(b.outbound, encode(TAG_TO_PEER, &vec![5u8]));
}

#[test]
fn disconnect_drops_stale_partial_frame() {
    let mut b = connected_bridge();
    assert!(b.on_control_read(&vec![82u8, 9]).is_empty());
    assert_eq!(b.recv_buf, vec![82u8, 9]);
    b.on_disconnect();
    assert!(b.recv_buf.is_empty());
}

#[test]
fn append_inbound_keeps_arrival_order() {
    let mut b = BridgeState::new();
    b.append_inbound(&vec![1u8, 2]);
    b.append_inbound(&vec![3u8]);
    assert_eq!(b.take_inbound(100), vec![1u8, 2, 3]);
}

#[test]
fn take_inbound_is_fifo_and_respects_the_cap() {
    let mut b = connected_bridge();
    b.on_control_read(&vec![82u8, 5, 0, 104, 101, 108, 108, 111]);
    assert_eq!(b.take_inbound(2), vec![104u8, 101]);
    assert_eq!(b.take_inbound(10), vec![108u8, 108, 111]);
    assert!(b.take_inbound(10).is_empty());
}

#[test]
fn several_frames_in_one_read_route_in_order() {
    let mut b = connected_bridge();
    let mut read = encode(TAG_TO_APP, &vec![1u8]);
    read.extend_from_slice(&encode(TAG_TO_PEER, &vec![2u8]));
    read.extend_from_slice(&encode(TAG_TO_APP, &vec![3u8]));
    let forward = b.on_control_read(&read);
    assert_eq!(forward, vec![2u8]);
    assert_eq!(b.take_inbound(100), vec![1u8, 3]);
}
