use audio_stream::bridge::capture_loop;
use audio_stream::bridge::push_word;
use audio_stream::bridge::sample_word;
use audio_stream::bridge::stream;
use audio_stream::bridge::words_per_unit;
use audio_stream::bridge::Bridge;
use audio_stream::bridge::BridgeState;
use audio_stream::bridge::Enqueue;
use audio_stream::bridge::FALLBACK_RATE;
use audio_stream::config::Args;

fn args(rate: u32, buffer: u16) -> Args {
    Args { rate, buffer, address: String::from("127.0.0.1:4010") }
}

#[test]
fn words_leave_in_the_order_they_came() {
    let mut bridge = Bridge::new(8);
    let words = [5u32, 0, 0xffff_ffff, 5, 7];
    for w in words {
        assert_eq!(bridge.enqueue(w), Enqueue::Queued);
    }
    assert_eq!(bridge.len(), 5);
    for w in words {
        assert_eq!(bridge.dequeue(), Some(w));
    }
    assert_eq!(bridge.dequeue(), None);
    assert_eq!(bridge.len(), 0);
}

#[test]
fn order_holds_when_both_sides_take_turns() {
    let mut bridge = Bridge::new(3);
    let mut offered = 0u32;
    let mut expected = 0u32;
    for round in 0..200u32 {
        let pushes = round % 4;
        for _ in 0..pushes {
            if bridge.enqueue(offered) == Enqueue::Queued {
                offered += 1;
            } else {
                assert_eq!(bridge.len(), 3);
            }
        }
        let pops = (round / 2) % 3;
        for _ in 0..pops {
            if let Some(w) = bridge.dequeue() {
                assert_eq!(w, expected);
                expected += 1;
            }
        }
        assert!(bridge.len() <= bridge.capacity());
        assert_eq!(offered - expected, bridge.len() as u32);
    }
    while let Some(w) = bridge.dequeue() {
        assert_eq!(w, expected);
        expected += 1;
    }
    assert_eq!(expected, offered);
}

#[test]
fn full_queue_refuses_until_a_word_leaves() {
    let mut bridge = Bridge::new(2);
    assert_eq!(bridge.capacity(), 2);
    assert_eq!(bridge.enqueue(1), Enqueue::Queued);
    assert_eq!(bridge.enqueue(2), Enqueue::Queued);
    assert_eq!(bridge.enqueue(3), Enqueue::Full);
    assert_eq!(bridge.enqueue(3), Enqueue::Full);
    assert_eq!(bridge.len(), 2);
    assert_eq!(bridge.dequeue(), Some(1));
    assert_eq!(bridge.enqueue(3), Enqueue::Queued);
    assert_eq!(bridge.enqueue(4), Enqueue::Full);
    assert_eq!(bridge.dequeue(), Some(2));
    assert_eq!(bridge.dequeue(), Some(3));
    assert_eq!(bridge.dequeue(), None);
}

#[test]
fn bridge_without_capacity_is_always_full() {
    let mut bridge = Bridge::new(0);
    assert_eq!(bridge.enqueue(1), Enqueue::Full);
    assert_eq!(bridge.len(), 0);
    assert_eq!(bridge.state(), BridgeState::Idle);
}

#[test]
fn life_cycle_with_a_drain() {
    let mut bridge = Bridge::new(4);
    assert_eq!(bridge.state(), BridgeState::Idle);
    assert_eq!(bridge.enqueue(1), Enqueue::Queued);
    assert_eq!(bridge.state(), BridgeState::Streaming);
    assert_eq!(bridge.enqueue(2), Enqueue::Queued);
    bridge.close();
    assert_eq!(bridge.state(), BridgeState::Draining);
    assert_eq!(bridge.enqueue(3), Enqueue::Closed);
    assert_eq!(bridge.len(), 2);
    assert_eq!(bridge.dequeue(), Some(1));
    assert_eq!(bridge.state(), BridgeState::Draining);
    assert_eq!(bridge.dequeue(), Some(2));
    assert_eq!(bridge.state(), BridgeState::Terminated);
    assert_eq!(bridge.dequeue(), None);
    assert_eq!(bridge.enqueue(4), Enqueue::Closed);
    bridge.close();
    assert_eq!(bridge.state(), BridgeState::Terminated);
}

#[test]
fn closing_an_empty_bridge_terminates_it() {
    let mut bridge = Bridge::new(4);
    bridge.close();
    assert_eq!(bridge.state(), BridgeState::Terminated);
    let mut bridge = Bridge::new(4);
    assert_eq!(bridge.enqueue(1), Enqueue::Queued);
    assert_eq!(bridge.dequeue(), Some(1));
    assert_eq!(bridge.state(), BridgeState::Streaming);
    bridge.close();
    assert_eq!(bridge.state(), BridgeState::Terminated);
}

#[test]
fn fatal_error_discards_what_is_queued() {
    let mut bridge = Bridge::new(4);
    assert_eq!(bridge.enqueue(1), Enqueue::Queued);
    assert_eq!(bridge.enqueue(2), Enqueue::Queued);
    bridge.fail();
    assert_eq!(bridge.state(), BridgeState::Terminated);
    assert_eq!(bridge.len(), 0);
    assert_eq!(bridge.dequeue(), None);
    assert_eq!(bridge.enqueue(3), Enqueue::Closed);
}

#[test]
fn word_bytes_are_little_endian() {
    let mut out = vec![9u8];
    push_word(&mut out, 0x0403_0201);
    push_word(&mut out, 0xdead_beef);
    assert_eq!(out, vec![9u8, 1, 2, 3, 4, 0xef, 0xbe, 0xad, 0xde]);
    assert_eq!(&out[1..5], &0x0403_0201u32.to_le_bytes());
}

#[test]
fn sample_words_are_read_little_endian() {
    let bytes = [0u8, 1, 2, 3, 4, 0xff, 0xff, 0xff, 0xff];
    assert_eq!(sample_word(&bytes, 1), 0x0403_0201);
    assert_eq!(sample_word(&bytes, 5), 0xffff_ffff);
    assert_eq!(sample_word(&bytes, 0), u32::from_le_bytes([0, 1, 2, 3]));
}

#[test]
fn samples_are_enqueued_word_by_word() {
    let mut bridge = Bridge::new(3);
    let samples: Vec<u8> = (1..=18u8).collect();
    let next = bridge.enqueue_samples(&samples, 0);
    assert_eq!(next, 12);
    assert_eq!(bridge.len(), 3);
    assert_eq!(bridge.enqueue_samples(&samples, next), 12);
    assert_eq!(bridge.dequeue(), Some(0x0403_0201));
    assert_eq!(bridge.dequeue(), Some(0x0807_0605));
    let next = bridge.enqueue_samples(&samples, next);
    assert_eq!(next, 16);
    assert_eq!(bridge.enqueue_samples(&samples, next), 16);
    assert_eq!(bridge.dequeue(), Some(0x0c0b_0a09));
    assert_eq!(bridge.dequeue(), Some(0x100f_0e0d));
    assert_eq!(bridge.dequeue(), None);
}

#[test]
fn samples_are_refused_by_a_closed_bridge() {
    let mut bridge = Bridge::new(3);
    bridge.close();
    assert_eq!(bridge.enqueue_samples(&[1, 2, 3, 4], 0), 0);
    assert_eq!(bridge.len(), 0);
}

#[test]
fn chunk_waits_for_more_than_a_unit() {
    let mut bridge = Bridge::new(16);
    assert_eq!(bridge.next_chunk(2), None);
    bridge.enqueue(1);
    bridge.enqueue(2);
    assert_eq!(bridge.next_chunk(2), None);
    assert_eq!(bridge.len(), 2);
    bridge.enqueue(3);
    assert_eq!(bridge.next_chunk(2), Some(vec![1u8, 0, 0, 0, 2, 0, 0, 0]));
    assert_eq!(bridge.len(), 1);
    assert_eq!(bridge.next_chunk(2), None);
    assert_eq!(bridge.state(), BridgeState::Streaming);
}

#[test]
fn drain_flushes_a_short_last_chunk() {
    let mut bridge = Bridge::new(16);
    for w in 1..=5u32 {
        bridge.enqueue(w);
    }
    bridge.close();
    assert_eq!(bridge.next_chunk(2), Some(vec![1u8, 0, 0, 0, 2, 0, 0, 0]));
    assert_eq!(bridge.next_chunk(2), Some(vec![3u8, 0, 0, 0, 4, 0, 0, 0]));
    assert_eq!(bridge.state(), BridgeState::Draining);
    assert_eq!(bridge.next_chunk(2), Some(vec![5u8, 0, 0, 0]));
    assert_eq!(bridge.state(), BridgeState::Terminated);
    assert_eq!(bridge.next_chunk(2), None);
}

#[test]
fn capture_loop_sends_whole_units_and_keeps_the_rest() {
    let mut bridge = Bridge::new(64);
    for w in [0u32, 0, 0, 7, 0, 0, 9] {
        bridge.enqueue(w);
    }
    let sent = capture_loop(&mut bridge, 2);
    assert_eq!(
        sent,
        vec![vec![0u8, 9, 0], vec![1u8, 0, 0, 0, 0, 7, 0, 0, 0], vec![0u8, 9, 0]]
    );
    assert_eq!(bridge.len(), 1);
    assert_eq!(bridge.state(), BridgeState::Streaming);
    assert!(capture_loop(&mut bridge, 2).is_empty());
    bridge.close();
    assert_eq!(capture_loop(&mut bridge, 2), vec![vec![1u8, 9, 0, 0, 0]]);
    assert_eq!(bridge.state(), BridgeState::Terminated);
    assert!(capture_loop(&mut bridge, 2).is_empty());
}

#[test]
fn capture_loop_keeps_an_exact_unit_back() {
    let mut bridge = Bridge::new(64);
    for w in [1u32, 2, 3, 4] {
        bridge.enqueue(w);
    }
    let sent = capture_loop(&mut bridge, 2);
    assert_eq!(sent, vec![vec![1u8, 1, 0, 0, 0, 2, 0, 0, 0]]);
    assert_eq!(bridge.len(), 2);
    bridge.close();
    assert_eq!(capture_loop(&mut bridge, 2), vec![vec![1u8, 3, 0, 0, 0, 4, 0, 0, 0]]);
    assert_eq!(bridge.state(), BridgeState::Terminated);
}

#[test]
fn capture_loop_on_an_idle_bridge() {
    let mut bridge = Bridge::new(4);
    assert!(capture_loop(&mut bridge, 1).is_empty());
    assert_eq!(bridge.state(), BridgeState::Idle);
}

#[test]
fn bytes_cross_the_bridge_unchanged() {
    let samples: Vec<u8> = (0..64u32).map(|i| (i * 7 % 256) as u8).collect();
    let mut bridge = Bridge::new(64);
    assert_eq!(bridge.enqueue_samples(&samples, 0), 64);
    bridge.close();
    let sent = capture_loop(&mut bridge, 4);
    assert_eq!(sent.len(), 4);
    let mut back = Vec::new();
    for frame in &sent {
        assert_eq!(frame[0], 1);
        back.extend_from_slice(&frame[1..]);
    }
    assert_eq!(back, samples);
}

#[test]
fn unit_of_a_stereo_stream() {
    assert_eq!(words_per_unit(2), 2048);
    assert_eq!(words_per_unit(1), 1024);
    assert_eq!(words_per_unit(0), 0);
    assert_eq!(words_per_unit(u16::MAX), 65535 * 1024);
}

#[test]
fn bridged_session_announces_its_rate_first() {
    assert_eq!(FALLBACK_RATE, 44100);
    let plan = stream(&args(0, 2048));
    assert_eq!(plan.rate, 44100);
    assert_eq!(plan.announcement, b"\x0232 44100 2048".to_vec());
    let plan = stream(&args(48000, 1024));
    assert_eq!(plan.rate, 48000);
    assert_eq!(plan.announcement, b"\x0232 48000 1024".to_vec());
}
