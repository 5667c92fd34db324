use std::time::Duration;

use aula_rgb::color::{ChannelOrder, Rgb};
use aula_rgb::device::{DeviceId, Frame, Link};
use aula_rgb::error::Error;
use aula_rgb::f75::keymap::{layout, led_for, max_row, max_x_eighths, static_name, LED_ORDER};
use aula_rgb::f75::protocol::{
    build_packet, cmd, is_per_key, is_valid_config, max_fps_for, min_frame_gap_ms, mode, ADDR,
    CONFIG_LEN, HEADER_LEN, PACKET_LEN, PAYLOAD_LEN, PER_KEY_CONFIG, REPORT_ID, STATIC_LEN,
    STATIC_SLOTS, STREAM_LEN, STREAM_SLOTS,
};
use aula_rgb::f75::{
    clamped_gap, confirms_protocol, encode_static, encode_stream, matrix_from_response,
    response_config, ConfigRead, ReadStep, F75,
};
use aula_rgb::transport::{Confidence, DeviceCandidate};

#[test]
fn packet_header_is_well_formed() {
    let pkt = build_packet(cmd::STREAM, ADDR, STREAM_LEN as u16, None);
    assert_eq!(pkt.len(), PACKET_LEN);
    assert_eq!(pkt[0], REPORT_ID);
    assert_eq!(pkt[1], 0x08);
    assert_eq!(&pkt[2..6], &[0x00, 0x00, 0x01, 0x00]);
    // 0x017a little-endian
    assert_eq!(pkt[6], 0x7a);
    assert_eq!(pkt[7], 0x01);
}

#[test]
fn payload_is_copied_and_clamped() {
    let big = vec![0xabu8; PAYLOAD_LEN + 64];
    let pkt = build_packet(cmd::WRITE_STATIC, ADDR, STATIC_LEN as u16, Some(&big));
    assert_eq!(pkt.len(), PACKET_LEN);
    assert_eq!(pkt[HEADER_LEN], 0xab);
    assert_eq!(pkt[PACKET_LEN - 1], 0xab);
}

#[test]
fn embedded_config_is_per_key_and_valid() {
    assert!(is_valid_config(&PER_KEY_CONFIG));
    assert_eq!(PER_KEY_CONFIG[mode::OFF_A], mode::PER_KEY[0]);
    assert_eq!(PER_KEY_CONFIG[mode::OFF_B], mode::PER_KEY[1]);
    assert_eq!(PER_KEY_CONFIG[mode::OFF_C], mode::PER_KEY[2]);
}

#[test]
fn zeroed_config_is_rejected() {
    assert!(!is_valid_config(&[0u8; CONFIG_LEN]));
}

#[test]
fn stream_slot_count_is_exact() {
    assert_eq!(STREAM_LEN % 3, 0);
    assert_eq!(STREAM_SLOTS, 126);
}

#[test]
fn a_short_payload_is_zero_padded() {
    let pkt = build_packet(cmd::WRITE_CONFIG, ADDR, 3, Some(&[7, 8, 9]));
    assert_eq!(&pkt[8..11], &[7, 8, 9]);
    assert!(pkt[11..].iter().all(|b| *b == 0));
    assert_eq!(pkt[6], 3);
    assert_eq!(pkt[7], 0);
}

#[test]
fn the_per_key_check_reads_all_three_mode_bytes() {
    assert!(is_per_key(&PER_KEY_CONFIG));
    let mut cfg = PER_KEY_CONFIG;
    cfg[mode::OFF_C] = mode::SOLID[2];
    assert!(!is_per_key(&cfg));
}

#[test]
fn esc_is_led_zero_and_backtick_is_one() {
    // The single-byte hardware probe that proved the ordering.
    assert_eq!(led_for("Esc"), Some(0));
    assert_eq!(led_for("`"), Some(1));
}

#[test]
fn column_major_stride_of_six() {
    assert_eq!(led_for("F1"), Some(12));
    assert_eq!(led_for("F2"), Some(18));
    assert_eq!(led_for("F3"), Some(24));
}

#[test]
fn keys_without_an_led_have_none() {
    assert_eq!(led_for("Home"), None);
    assert_eq!(led_for("-"), None);
    assert_eq!(led_for(""), None, "an empty slot is not a key");
    assert_eq!(LED_ORDER[6], "");
    assert_eq!(static_name("Space"), "Space");
    assert_eq!(static_name("NoSuchKey"), "?");
}

#[test]
fn layout_is_populated_and_unique() {
    let keys = layout();
    assert!(
        keys.len() > 70,
        "expected most keys mapped, got {}",
        keys.len()
    );
    let mut leds: Vec<_> = keys.iter().map(|k| k.led).collect();
    leds.sort_unstable();
    let before = leds.len();
    leds.dedup();
    assert_eq!(before, leds.len(), "LED indices must be unique");
}

#[test]
fn geometry_is_sane() {
    let keys = layout();
    assert!(max_row(&keys) == 5, "F75 has six rows");
    // Eighths of a key unit: the board is about 16 units wide.
    let mx = max_x_eighths(&keys);
    assert!((14 * 8..18 * 8).contains(&mx), "board is ~16u wide, got {mx}");
}

#[test]
fn spacebar_is_wide_enough_to_exclude() {
    let keys = layout();
    let space = keys.iter().find(|k| k.name == "Space").unwrap();
    assert!(space.w_quarters >= 3 * 4, "effects rely on w to skip oversized keys");
}

#[test]
fn key_centres_are_measured_from_the_row_edge() {
    let keys = layout();
    let esc = keys.iter().find(|k| k.name == "Esc").unwrap();
    assert_eq!((esc.row, esc.x_eighths, esc.w_quarters), (0, 4, 4));
    let tab = keys.iter().find(|k| k.name == "Tab").unwrap();
    assert_eq!((tab.row, tab.x_eighths), (2, 6));
    let q = keys.iter().find(|k| k.name == "Q").unwrap();
    // Tab is 1.5u, so Q's centre is at 2u: 16 eighths.
    assert_eq!(q.x_eighths, 16);
}

#[test]
fn static_layout_is_planar() {
    let mut f = Frame::black(STATIC_SLOTS);
    f.set(0, Rgb::new(255, 0, 0));
    f.set(1, Rgb::new(0, 255, 0));
    let buf = encode_static(ChannelOrder::Rgb, &f);

    // red of key 0 at offset 0; green of key 1 in the SECOND plane
    assert_eq!(buf[0], 255);
    assert_eq!(buf[STATIC_SLOTS + 1], 255);
    // key 1 has no red, key 0 has no green
    assert_eq!(buf[1], 0);
    assert_eq!(buf[STATIC_SLOTS], 0);
}

#[test]
fn stream_layout_is_interleaved() {
    let mut f = Frame::black(STREAM_SLOTS);
    f.set(0, Rgb::new(255, 0, 0));
    f.set(1, Rgb::new(0, 255, 0));
    let buf = encode_stream(ChannelOrder::Rgb, &f);

    assert_eq!(&buf[0..3], &[255, 0, 0]);
    assert_eq!(&buf[3..6], &[0, 255, 0]);
}

#[test]
fn single_byte_at_offset_one_is_key_one_red() {
    let mut f = Frame::black(STATIC_SLOTS);
    f.set(1, Rgb::new(255, 0, 0));
    let buf = encode_static(ChannelOrder::Rgb, &f);
    assert_eq!(buf[1], 255);
    assert_eq!(buf.iter().filter(|b| **b != 0).count(), 1);
}

#[test]
fn encoded_lengths_match_protocol() {
    let f = Frame::solid(STATIC_SLOTS, Rgb::new(255, 255, 255));
    assert_eq!(encode_static(ChannelOrder::Rgb, &f).len(), 384);
    assert_eq!(encode_stream(ChannelOrder::Rgb, &f).len(), 378);
}

#[test]
fn channel_order_reaches_the_wire() {
    let f = Frame::solid(2, Rgb::new(1, 2, 3));
    let buf = encode_stream(ChannelOrder::Bgr, &f);
    assert_eq!(&buf[0..6], &[3, 2, 1, 3, 2, 1]);
    // Slots past the frame are black.
    assert_eq!(&buf[6..9], &[0, 0, 0]);
    let planar = encode_static(ChannelOrder::Grb, &f);
    assert_eq!((planar[0], planar[128], planar[256]), (2, 1, 3));
}

/// The clamp is what stands between a user's FPS slider and a keyboard that
/// drops keypresses.
#[test]
fn a_frame_rate_request_can_only_ever_slow_things_down() {
    for link in [Link::Wired, Link::Dongle, Link::Unknown] {
        let floor = Duration::from_millis(min_frame_gap_ms(link));
        let gap = |fps: u32| Duration::from_millis(clamped_gap(fps, link));
        assert!(gap(60) >= floor, "{link:?} let a fast request through");
        assert!(gap(u32::MAX) >= floor, "{link:?}");
        assert_eq!(
            gap(60),
            gap(max_fps_for(link)),
            "{link:?} an over-fast request should land on the ceiling"
        );
        assert_eq!(gap(1), Duration::from_millis(1000), "{link:?}");
        assert_eq!(gap(0), Duration::from_millis(1000), "{link:?}");
    }
}

#[test]
fn the_radio_is_paced_more_gently_than_the_cable() {
    assert!(clamped_gap(60, Link::Dongle) > clamped_gap(60, Link::Wired));
}

#[test]
fn the_wired_ceiling_lands_on_a_whole_frame_rate() {
    assert_eq!(clamped_gap(21, Link::Wired), 47);
    assert_eq!(clamped_gap(10, Link::Wired), 100);
    assert_eq!(clamped_gap(60, Link::Dongle), 100);
}

fn candidate(link: Link, confidence: Confidence, confirmed: bool) -> DeviceCandidate {
    DeviceCandidate {
        id: DeviceId::new(0x258a, 0x010c),
        link,
        model: "AULA F75",
        path: "p".to_string(),
        product: String::new(),
        confidence,
        confirmed,
    }
}

#[test]
fn an_unconfirmed_scan_result_may_not_change_mode() {
    let k = F75::new(&candidate(Link::Unknown, Confidence::Probed, false), ChannelOrder::Rgb);
    assert!(!k.can_change_mode());
    match k.config_write(&PER_KEY_CONFIG) {
        Err(Error::UnverifiedDevice { id }) => assert_eq!(id, DeviceId::new(0x258a, 0x010c)),
        other => panic!("expected a refusal, got {other:?}"),
    }
    let k = F75::new(&candidate(Link::Wired, Confidence::Known, false), ChannelOrder::Rgb);
    assert!(k.can_change_mode());
    assert_eq!(k.name(), "AULA F75 (wired)");
}

#[test]
fn a_corrupt_config_block_is_never_written() {
    let k = F75::new(&candidate(Link::Wired, Confidence::Known, true), ChannelOrder::Rgb);
    assert!(matches!(k.config_write(&[0u8; CONFIG_LEN]), Err(Error::RefusedConfigWrite)));
    let pkt = k.config_write(&PER_KEY_CONFIG).unwrap();
    assert_eq!(pkt[1], cmd::WRITE_CONFIG);
    assert_eq!(&pkt[8..8 + CONFIG_LEN], &PER_KEY_CONFIG[..]);
}

#[test]
fn an_unchanged_frame_is_skipped_until_the_keepalive() {
    let mut k = F75::new(&candidate(Link::Wired, Confidence::Known, true), ChannelOrder::Rgb);
    let f = Frame::solid(STREAM_SLOTS, Rgb::new(1, 2, 3));
    let (wait, pkt) = k.stream_write(&f, 1_000).unwrap();
    assert_eq!(wait, 0, "nothing to wait for before the first write");
    assert_eq!(pkt[1], cmd::STREAM);
    assert_eq!(&pkt[8..11], &[1, 2, 3]);
    k.stream_sent(&f);
    // 10 ms later: identical frame, keepalive not due.
    assert!(k.stream_write(&f, 11_000).is_none());
    // A different frame goes out, after the rest of the 46 ms gap.
    let g = Frame::solid(STREAM_SLOTS, Rgb::new(9, 9, 9));
    let (wait, _) = k.stream_write(&g, 11_000).unwrap();
    assert_eq!(wait, 36_000);
    // Two seconds after the last write, the same frame is resent.
    k.stream_sent(&g);
    assert!(k.stream_write(&g, 47_000 + 2_000_000).is_some());
}

#[test]
fn a_static_write_forgets_the_streamed_frame() {
    let mut k = F75::new(&candidate(Link::Wired, Confidence::Known, true), ChannelOrder::Rgb);
    let f = Frame::solid(STREAM_SLOTS, Rgb::new(1, 2, 3));
    let _ = k.stream_write(&f, 0).unwrap();
    k.stream_sent(&f);
    let (wait, pkt) = k.static_write(&f, 100_000);
    assert_eq!(wait, 0);
    assert_eq!(pkt[1], cmd::WRITE_STATIC);
    assert!(k.stream_write(&f, 100_001).is_some(), "the board no longer shows the stream");
}

#[test]
fn a_config_read_retries_then_reports_the_last_signature() {
    let mut r = ConfigRead::new();
    let mut bad = vec![0u8; HEADER_LEN + CONFIG_LEN];
    bad[HEADER_LEN + 126] = 0x12;
    bad[HEADER_LEN + 127] = 0x34;
    for _ in 0..3 {
        match r.on_response(&bad, Link::Wired) {
            ReadStep::Retry { sleep_ms } => assert_eq!(sleep_ms, 20),
            other => panic!("expected a retry, got {other:?}"),
        }
    }
    match r.on_response(&[6, 0x84], Link::Wired) {
        ReadStep::Failed {
            sleep_ms,
            error: Error::BadConfigRead { magic },
        } => {
            assert_eq!(sleep_ms, 20);
            assert_eq!(magic, [0x12, 0x34]);
        }
        other => panic!("expected a failure, got {other:?}"),
    }
}

#[test]
fn a_valid_reply_ends_the_read() {
    let mut r = ConfigRead::new();
    let mut resp = vec![0u8; HEADER_LEN];
    resp.extend_from_slice(&PER_KEY_CONFIG);
    match r.on_response(&resp, Link::Dongle) {
        ReadStep::Done(cfg) => assert_eq!(cfg, PER_KEY_CONFIG.to_vec()),
        other => panic!("expected the block, got {other:?}"),
    }
    assert!(confirms_protocol(&resp));
    assert!(!confirms_protocol(&resp[..HEADER_LEN + 10]));
    assert_eq!(response_config(&resp).unwrap().len(), CONFIG_LEN);
    assert_eq!(matrix_from_response(&[1, 2, 3, 4, 5, 6, 7, 8, 9, 10]), vec![9, 10]);
    assert!(matrix_from_response(&[1, 2]).is_empty());
}
