use audio_stream::announce::AudioInfo;
use audio_stream::announce::FormatParam;
use audio_stream::announce::MediaKind;
use audio_stream::announce::MediaSubtype;
use audio_stream::announce::MediaType;
use audio_stream::announce::ParamId;
use audio_stream::capture::capture;
use audio_stream::capture::frames;
use audio_stream::capture::stream;
use audio_stream::capture::CaptureBuffer;
use audio_stream::capture::CaptureError;
use audio_stream::capture::DataBlock;
use audio_stream::capture::Delivery;
use audio_stream::capture::EXIT_FAILURE;
use audio_stream::config::Args;
use audio_stream::config::BACKEND_RATE;
use audio_stream::config::DEFAULT_BUFFER;
use audio_stream::transport::after_send;
use audio_stream::transport::SendMode;
use audio_stream::transport::SendOutcome;
use audio_stream::transport::Verdict;
use audio_stream::transport::SEND_TIMEOUT_MILLIS;
use byteorder::ByteOrder;
use byteorder::LittleEndian;

fn args(rate: u32, buffer: u16) -> Args {
    Args { rate, buffer, address: String::from("127.0.0.1:4010") }
}

fn scenario_buffer() -> Vec<u8> {
    let mut samples = vec![0u8; 2048];
    samples[1100] = 0x5a;
    samples
}

#[test]
fn end_to_end_silence_then_sound() {
    let samples = scenario_buffer();
    let buffer = CaptureBuffer { datas: vec![DataBlock { size: 2048, data: Some(&samples) }] };
    let sent = capture(Some(&buffer)).unwrap();
    assert_eq!(sent.len(), 2);
    assert_eq!(sent[0].len(), 3);
    assert_eq!(sent[0][0], 0);
    assert_eq!(LittleEndian::read_u16(&sent[0][1..3]), 1025);
    assert_eq!(sent[1].len(), 1025);
    assert_eq!(sent[1][0], 1);
    assert_eq!(&sent[1][1..], &samples[1024..2048]);
}

#[test]
fn frames_of_the_same_scenario() {
    let samples = scenario_buffer();
    let sent = frames(&samples, 1024);
    assert_eq!(sent.len(), 2);
    assert_eq!(sent[0], vec![0u8, 0x01, 0x04]);
    assert_eq!(sent[1][0], 1);
    assert_eq!(&sent[1][1..], &samples[1024..]);
}

#[test]
fn frames_keep_the_order_of_the_buffer() {
    let samples: Vec<u8> = (0..10u8).map(|i| i + 1).collect();
    let sent = frames(&samples, 4);
    assert_eq!(
        sent,
        vec![vec![1u8, 1, 2, 3, 4], vec![1u8, 5, 6, 7, 8], vec![1u8, 9, 10]]
    );
}

#[test]
fn frames_of_a_short_silent_tail() {
    let mut samples = vec![0u8; 1500];
    samples[3] = 1;
    let sent = frames(&samples, 1024);
    assert_eq!(sent.len(), 2);
    assert_eq!(sent[0].len(), 1025);
    assert_eq!(sent[1], vec![0u8, 0xdd, 0x01]);
    assert_eq!(LittleEndian::read_u16(&sent[1][1..]), 477);
}

#[test]
fn frames_of_nothing() {
    assert!(frames(&[], 1024).is_empty());
}

#[test]
fn capture_without_a_buffer() {
    assert_eq!(capture(None), Err(CaptureError::NoBuffers));
    assert_eq!(CaptureError::NoBuffers.message(), "no buffers");
}

#[test]
fn capture_without_mapped_memory() {
    let buffer = CaptureBuffer { datas: vec![DataBlock { size: 16, data: None }] };
    assert_eq!(capture(Some(&buffer)), Err(CaptureError::NoData));
    assert_eq!(CaptureError::NoData.message(), "no data");
}

#[test]
fn capture_of_a_buffer_without_blocks() {
    let buffer = CaptureBuffer { datas: Vec::new() };
    assert_eq!(capture(Some(&buffer)), Ok(Vec::new()));
}

#[test]
fn capture_reads_the_valid_range_only() {
    let mut samples = vec![0u8; 64];
    samples[40] = 3;
    let buffer = CaptureBuffer { datas: vec![DataBlock { size: 32, data: Some(&samples) }] };
    assert_eq!(capture(Some(&buffer)), Ok(vec![vec![0u8, 33, 0]]));
    let buffer = CaptureBuffer { datas: vec![DataBlock { size: 0, data: Some(&samples) }] };
    assert_eq!(capture(Some(&buffer)), Ok(Vec::new()));
}

#[test]
fn capture_reads_the_first_block_only() {
    let first = [1u8, 2];
    let second = [3u8, 4];
    let buffer = CaptureBuffer {
        datas: vec![
            DataBlock { size: 2, data: Some(&first) },
            DataBlock { size: 2, data: Some(&second) },
        ],
    };
    assert_eq!(capture(Some(&buffer)), Ok(vec![vec![1u8, 1, 2]]));
}

#[test]
fn session_starts_without_a_format() {
    let session = stream(&args(0, 2048));
    assert_eq!(session.user_data.format, AudioInfo { rate: 0, channels: 0 });
    assert_eq!(session.buffer_size, 2048);
    assert_eq!(session.rate, None);
    let session = stream(&args(48000, 512));
    assert_eq!(session.rate, Some(48000));
    assert_eq!(session.buffer_size, 512);
}

#[test]
fn session_announces_with_its_buffer_size() {
    let mut session = stream(&args(0, 2048));
    let param = FormatParam {
        kind: Some(MediaKind { media_type: MediaType::Audio, media_subtype: MediaSubtype::Raw }),
        audio: Some(AudioInfo { rate: 48000, channels: 2 }),
    };
    let frame = session.on_format_changed(ParamId::Format, Some(&param));
    assert_eq!(frame, Some(b"\x0232 48000 2048".to_vec()));
    assert_eq!(session.user_data.format, AudioInfo { rate: 48000, channels: 2 });
    assert_eq!(session.on_format_changed(ParamId::Other, Some(&param)), None);
    assert_eq!(session.on_format_changed(ParamId::Format, None), None);
    assert_eq!(session.user_data.format, AudioInfo { rate: 48000, channels: 2 });
}

#[test]
fn session_sends_or_exits() {
    let session = stream(&args(0, 2048));
    let samples = scenario_buffer();
    let buffer = CaptureBuffer { datas: vec![DataBlock { size: 2048, data: Some(&samples) }] };
    match session.on_buffer_ready(Some(&buffer)) {
        Delivery::Send(sent) => assert_eq!(sent.len(), 2),
        Delivery::Exit { .. } => panic!("a good buffer ended the session"),
    }
    match session.on_buffer_ready(None) {
        Delivery::Send(_) => panic!("a missing buffer was sent"),
        Delivery::Exit { code, error } => {
            assert_eq!(code, 1);
            assert_eq!(code, EXIT_FAILURE);
            assert_eq!(error, CaptureError::NoBuffers);
        }
    }
}

#[test]
fn settings_and_their_defaults() {
    assert_eq!(BACKEND_RATE, 0);
    assert_eq!(DEFAULT_BUFFER, 2048);
    assert_eq!(args(0, 2048).requested_rate(), None);
    assert_eq!(args(1, 2048).requested_rate(), Some(1));
    assert_eq!(args(0, 2048).rate_or(44100), 44100);
    assert_eq!(args(96000, 2048).rate_or(44100), 96000);
}

#[test]
fn send_verdicts() {
    assert_eq!(SEND_TIMEOUT_MILLIS, 1000);
    assert_eq!(after_send(SendMode::BestEffort, SendOutcome::Sent), Verdict::Proceed);
    assert_eq!(after_send(SendMode::BoundedTimeout, SendOutcome::Sent), Verdict::Proceed);
    assert_eq!(after_send(SendMode::BestEffort, SendOutcome::WouldBlock), Verdict::Dropped);
    assert_eq!(after_send(SendMode::BoundedTimeout, SendOutcome::WouldBlock), Verdict::Fatal);
    assert_eq!(after_send(SendMode::BestEffort, SendOutcome::TimedOut), Verdict::Fatal);
    assert_eq!(after_send(SendMode::BoundedTimeout, SendOutcome::TimedOut), Verdict::Fatal);
    assert_eq!(after_send(SendMode::BestEffort, SendOutcome::Failed), Verdict::Fatal);
    assert_eq!(after_send(SendMode::BoundedTimeout, SendOutcome::Failed), Verdict::Fatal);
}
