use audio_stream::announce::control_frame;
use audio_stream::announce::handle_param_change;
use audio_stream::announce::push_decimal;
use audio_stream::announce::AudioInfo;
use audio_stream::announce::FormatAnnouncement;
use audio_stream::announce::FormatParam;
use audio_stream::announce::MediaKind;
use audio_stream::announce::MediaSubtype;
use audio_stream::announce::MediaType;
use audio_stream::announce::ParamId;
use audio_stream::announce::UserData;
use audio_stream::announce::BIT_DEPTH;

fn raw_audio(rate: u32, channels: u32) -> FormatParam {
    FormatParam {
        kind: Some(MediaKind { media_type: MediaType::Audio, media_subtype: MediaSubtype::Raw }),
        audio: Some(AudioInfo { rate, channels }),
    }
}

fn blank() -> UserData {
    UserData { format: AudioInfo { rate: 0, channels: 0 } }
}

#[test]
fn control_frame_for_48000_and_2048() {
    let mut user_data = blank();
    let param = raw_audio(48000, 2);
    let frame = handle_param_change(ParamId::Format, &mut user_data, Some(&param), 2048);
    assert_eq!(frame, Some(b"\x0232 48000 2048".to_vec()));
    assert_eq!(user_data.format, AudioInfo { rate: 48000, channels: 2 });
}

#[test]
fn control_frame_text() {
    assert_eq!(control_frame(48000, 2048), b"\x0232 48000 2048".to_vec());
    assert_eq!(control_frame(44100, 2048), b"\x0232 44100 2048".to_vec());
    assert_eq!(control_frame(0, 0), b"\x0232 0 0".to_vec());
    assert_eq!(control_frame(u32::MAX, u16::MAX), b"\x0232 4294967295 65535".to_vec());
}

#[test]
fn control_frame_agrees_with_std_formatting() {
    for rate in [0u32, 1, 9, 10, 99, 100, 8000, 96000, 192000, 1_000_000_007] {
        for buffer in [0u16, 7, 10, 512, 2048, 65535] {
            let expected = format!("\x02{} {} {}", 32, rate, buffer).into_bytes();
            assert_eq!(control_frame(rate, buffer), expected);
        }
    }
}

#[test]
fn announcement_with_another_bit_depth() {
    let a = FormatAnnouncement { bit_depth: 16, sample_rate: 22050, buffer_size: 100 };
    assert_eq!(a.to_frame(), b"\x0216 22050 100".to_vec());
    assert_eq!(BIT_DEPTH, 32);
}

#[test]
fn decimal_is_appended() {
    let mut out = b"n=".to_vec();
    push_decimal(&mut out, 0);
    push_decimal(&mut out, 1203);
    assert_eq!(out, b"n=01203".to_vec());
}

#[test]
fn cleared_format_is_ignored() {
    let mut user_data = UserData { format: AudioInfo { rate: 44100, channels: 2 } };
    assert_eq!(handle_param_change(ParamId::Format, &mut user_data, None, 2048), None);
    assert_eq!(user_data.format, AudioInfo { rate: 44100, channels: 2 });
}

#[test]
fn other_parameters_are_ignored() {
    let mut user_data = blank();
    let param = raw_audio(48000, 2);
    assert_eq!(handle_param_change(ParamId::Other, &mut user_data, Some(&param), 2048), None);
    assert_eq!(user_data, blank());
}

#[test]
fn objects_that_are_no_format_are_ignored() {
    let mut user_data = blank();
    let param = FormatParam { kind: None, audio: None };
    assert_eq!(handle_param_change(ParamId::Format, &mut user_data, Some(&param), 2048), None);
    assert_eq!(user_data, blank());
}

#[test]
fn other_media_are_ignored() {
    let kinds = [
        (MediaType::Video, MediaSubtype::Raw),
        (MediaType::Audio, MediaSubtype::Dsp),
        (MediaType::Audio, MediaSubtype::Other),
        (MediaType::Audio, MediaSubtype::Unknown),
        (MediaType::Unknown, MediaSubtype::Raw),
        (MediaType::Image, MediaSubtype::Raw),
        (MediaType::Binary, MediaSubtype::Raw),
        (MediaType::Stream, MediaSubtype::Raw),
        (MediaType::Application, MediaSubtype::Other),
    ];
    for (media_type, media_subtype) in kinds {
        let mut user_data = blank();
        let param = FormatParam {
            kind: Some(MediaKind { media_type, media_subtype }),
            audio: Some(AudioInfo { rate: 48000, channels: 2 }),
        };
        let frame = handle_param_change(ParamId::Format, &mut user_data, Some(&param), 2048);
        assert_eq!(frame, None);
        assert_eq!(user_data, blank());
    }
}

#[test]
fn every_change_is_announced_anew() {
    let mut user_data = blank();
    let first = raw_audio(44100, 2);
    let second = raw_audio(96000, 1);
    assert_eq!(
        handle_param_change(ParamId::Format, &mut user_data, Some(&first), 512),
        Some(b"\x0232 44100 512".to_vec())
    );
    assert_eq!(
        handle_param_change(ParamId::Format, &mut user_data, Some(&second), 512),
        Some(b"\x0232 96000 512".to_vec())
    );
    assert_eq!(user_data.format, AudioInfo { rate: 96000, channels: 1 });
    assert_eq!(
        handle_param_change(ParamId::Format, &mut user_data, Some(&second), 512),
        Some(b"\x0232 96000 512".to_vec())
    );
}
