use aula_rgb::color::{ChannelOrder, Rgb};
use aula_rgb::device::{DeviceId, Frame, Link, ParseDeviceIdError};
use aula_rgb::dongle::plan::plan;
use aula_rgb::dongle::protocol::{encode_groups, MAX_PAYLOAD};
use aula_rgb::dongle::Dongle;
use aula_rgb::f75::keymap::layout;
use aula_rgb::transport::{Confidence, DeviceCandidate};

#[test]
fn hex_roundtrip() {
    assert_eq!(Rgb::from_hex("#ff00aa"), Some(Rgb::new(255, 0, 170)));
    assert_eq!(Rgb::from_hex("00ff00"), Some(Rgb::new(0, 255, 0)));
    assert_eq!(Rgb::from_hex("nope"), None);
}

#[test]
fn channel_order_reorders() {
    let c = Rgb::new(1, 2, 3);
    assert_eq!(ChannelOrder::Rgb.apply(c), [1, 2, 3]);
    assert_eq!(ChannelOrder::Grb.apply(c), [2, 1, 3]);
}

#[test]
fn channel_orders_parse_without_regard_to_case() {
    assert_eq!("BGR".parse::<ChannelOrder>(), Ok(ChannelOrder::Bgr));
    assert_eq!(ChannelOrder::parse("gRb"), Some(ChannelOrder::Grb));
    assert!("rgba".parse::<ChannelOrder>().is_err());
}

#[test]
fn hex_accepts_space_and_hashes_but_only_six_digits() {
    assert_eq!(Rgb::from_hex("  ##0A0b0C "), Some(Rgb::new(10, 11, 12)));
    assert_eq!(Rgb::from_hex("+f+f+f"), None);
    assert_eq!(Rgb::from_hex("#fff"), None);
    // Six bytes that are not six ASCII characters: no colour, and no panic.
    assert_eq!(Rgb::from_hex("éééf"), None);
    assert_eq!(Rgb::from_hex("ffé"), None);
    assert_eq!(Rgb::from_hex("ffffé"), None);
}

#[test]
fn out_of_range_set_is_ignored() {
    let mut f = Frame::black(4);
    f.set(99, Rgb::new(255, 255, 255));
    assert!(f.iter().all(|c| c.is_black()));
}

#[test]
fn additive_blend_saturates() {
    let mut f = Frame::black(1);
    f.add(0, Rgb::new(200, 0, 0));
    f.add(0, Rgb::new(100, 0, 0));
    assert_eq!(f.get(0), Rgb::new(255, 0, 0));
}

#[test]
fn reads_past_the_frame_are_black_and_fill_covers_it() {
    let mut f = Frame::solid(3, Rgb::new(1, 1, 1));
    assert_eq!(f.get(3), Rgb::new(0, 0, 0));
    f.fill(Rgb::new(4, 5, 6));
    assert_eq!(f.as_slice(), &[Rgb::new(4, 5, 6); 3]);
    assert_eq!(f.len(), 3);
    assert!(!f.is_empty());
    assert!(Frame::black(0).is_empty());
    assert!(f.same_as(&f.clone()));
    assert!(!f.same_as(&Frame::black(3)));
}

#[test]
fn device_ids_are_written_and_read_as_hex_pairs() {
    let id = DeviceId::new(0x3554, 0xfa09);
    assert_eq!(id.to_text(), "3554:fa09");
    assert_eq!(DeviceId::new(0x0a, 0x1).to_text(), "000a:0001");
    assert_eq!("3554:FA09".parse::<DeviceId>(), Ok(id));
    assert_eq!(DeviceId::parse("+3554:fa09"), Ok(id));
    assert_eq!(DeviceId::parse("3554fa09"), Err(ParseDeviceIdError));
    assert_eq!(DeviceId::parse("3554:"), Err(ParseDeviceIdError));
    assert_eq!(DeviceId::parse("13554:fa09"), Err(ParseDeviceIdError));
    assert_eq!(DeviceId::parse("3554:fa:09"), Err(ParseDeviceIdError));
    assert_eq!(DeviceId::parse("0003554:fa09"), Ok(id), "leading zeros are fine");
    assert_eq!(DeviceId::parse(&id.to_text()), Ok(id));
}

#[test]
fn link_suffixes() {
    assert_eq!(Link::Wired.suffix(), "wired");
    assert_eq!(Link::Dongle.suffix(), "2.4 GHz dongle");
    assert_eq!(Link::Unknown.suffix(), "unknown link");
}

#[test]
fn a_solid_board_is_a_single_group() {
    let layout = layout();
    let frame = Frame::solid(128, Rgb::new(255, 255, 0));
    let groups = plan(&layout, &frame);
    assert_eq!(groups.len(), 1, "one colour should be one group");
    assert_eq!(groups[0].leds.len(), layout.len());
    assert_eq!(groups[0].encoded_len(), 4 + layout.len());
}

#[test]
fn the_largest_colour_run_is_planned_first() {
    let layout = layout();
    let mut frame = Frame::solid(128, Rgb::new(0, 0, 0));
    for (i, k) in layout.iter().enumerate() {
        frame.set(
            k.led,
            if i < 3 {
                Rgb::new(1, 2, 3)
            } else {
                Rgb::new(4, 5, 6)
            },
        );
    }
    let groups = plan(&layout, &frame);
    assert_eq!(groups.len(), 2);
    assert!(
        groups[0].leds.len() > groups[1].leds.len(),
        "a tight budget should buy the most visible change first"
    );
}

/// The pathological case for a 14-byte pipe: every key a different colour.
#[test]
fn a_rainbow_plans_many_small_groups() {
    let layout = layout();
    let mut frame = Frame::solid(128, Rgb::new(0, 0, 0));
    for (i, k) in layout.iter().enumerate() {
        frame.set(k.led, Rgb::new(i as u8, 255 - i as u8, 128));
    }
    let groups = plan(&layout, &frame);
    assert!(
        groups.len() > 20,
        "distinct colours cannot be grouped, and that is the real limit"
    );
    let (payload, sent) = encode_groups(&groups, MAX_PAYLOAD);
    assert!(payload.len() <= MAX_PAYLOAD);
    assert!(sent.len() < groups.len());
}

#[test]
fn dark_keys_are_left_out_and_ties_go_by_colour() {
    let layout = layout();
    let mut frame = Frame::black(128);
    frame.set(layout[0].led, Rgb::new(9, 0, 0));
    frame.set(layout[1].led, Rgb::new(1, 0, 0));
    frame.set(layout[2].led, Rgb::new(9, 0, 0));
    frame.set(layout[3].led, Rgb::new(2, 0, 0));
    let groups = plan(&layout, &frame);
    assert_eq!(groups.len(), 3);
    assert_eq!(groups[0].color, Rgb::new(9, 0, 0));
    assert_eq!(groups[0].leds, vec![layout[0].led as u8, layout[2].led as u8]);
    assert_eq!(groups[1].color, Rgb::new(1, 0, 0));
    assert_eq!(groups[2].color, Rgb::new(2, 0, 0));
    let total: usize = groups.iter().map(|g| g.leds.len()).sum();
    assert_eq!(total, 4, "every lit key once");
}

fn receiver() -> Dongle {
    Dongle::new(&DeviceCandidate {
        id: DeviceId::new(0x3554, 0xfa09),
        link: Link::Dongle,
        model: "AULA F75",
        path: "r".into(),
        product: String::new(),
        confidence: Confidence::Known,
        confirmed: true,
    })
}

#[test]
fn the_receiver_skips_a_board_it_already_shows() {
    let mut d = receiver();
    assert_eq!(d.name(), "AULA F75 (2.4 GHz dongle)");
    assert_eq!(d.max_fps(), 21);
    let f = Frame::solid(128, Rgb::new(255, 255, 0));
    let p = d.begin_paint(&f, false, 0).expect("the first paint always goes out");
    assert_eq!(p.wait_us, 0);
    assert_eq!(p.frames.len(), 6, "a solid board is six chunks");
    assert!(p.complete);
    d.finish_paint(&p, 80_000);
    // Unchanged, within the keepalive: nothing to do.
    assert!(d.begin_paint(&f, false, 100_000).is_none());
    // Forced: it goes out, after the six-chunk budget (93.75 ms) from the tick.
    let p = d.begin_paint(&f, true, 100_000).unwrap();
    assert_eq!(p.wait_us, 0, "the tick was at 0, and 100 ms have passed");
    d.finish_paint(&p, 180_000);
    // The keepalive fires 700 ms after the last full paint.
    assert!(d.begin_paint(&f, false, 800_000).is_none());
    assert!(d.begin_paint(&f, false, 880_000).is_some());
}

#[test]
fn a_truncated_paint_is_not_recorded_as_shown() {
    let mut d = receiver();
    let layout = layout();
    let mut f = Frame::black(128);
    for (i, k) in layout.iter().enumerate() {
        f.set(k.led, Rgb::new(i as u8, 255 - i as u8, 128));
    }
    let p = d.begin_paint(&f, false, 0).unwrap();
    assert!(!p.complete);
    d.finish_paint(&p, 1_000);
    assert!(d.begin_paint(&f, false, 2_000).is_some(), "the board is not known to show it");
}

#[test]
fn a_dark_board_sends_nothing_but_still_paces() {
    let mut d = receiver();
    let f = Frame::black(128);
    let p = d.begin_paint(&f, true, 0).unwrap();
    assert!(p.frames.is_empty());
    assert!(p.payload.is_empty());
}

#[test]
fn the_packet_gap_and_frame_rate_only_move_within_bounds() {
    let mut d = receiver();
    d.set_packet_gap_ms(0);
    assert_eq!(d.chunk_wait(Some(0), 0), 2_000);
    d.set_packet_gap_ms(1_000);
    assert_eq!(d.chunk_wait(Some(0), 50_000), 50_000);
    assert_eq!(d.chunk_wait(None, 0), 0);
    d.set_max_fps(5);
    let f = Frame::solid(128, Rgb::new(1, 1, 1));
    let p = d.begin_paint(&f, true, 0).unwrap();
    d.finish_paint(&p, 0);
    let p = d.begin_paint(&f, true, 0).unwrap();
    assert_eq!(p.wait_us, 200_000, "5 FPS is a 200 ms tick");
}

#[test]
fn every_channel_order_sends_each_channel_once() {
    let c = Rgb::new(10, 20, 30);
    let orders = [
        (ChannelOrder::Rgb, [10, 20, 30]),
        (ChannelOrder::Grb, [20, 10, 30]),
        (ChannelOrder::Brg, [30, 10, 20]),
        (ChannelOrder::Rbg, [10, 30, 20]),
        (ChannelOrder::Gbr, [20, 30, 10]),
        (ChannelOrder::Bgr, [30, 20, 10]),
    ];
    for (o, want) in orders {
        let w = o.apply(c);
        assert_eq!(w, want);
        let mut sorted = w;
        sorted.sort();
        assert_eq!(sorted, [10, 20, 30]);
    }
}

#[test]
fn adding_colours_ignores_order_and_grouping() {
    let (a, b, c) = (Rgb::new(200, 10, 0), Rgb::new(100, 20, 5), Rgb::new(1, 250, 7));
    assert_eq!(a.blend_add(b), b.blend_add(a));
    assert_eq!(a.blend_add(b).blend_add(c), a.blend_add(b.blend_add(c)));
    assert_eq!(a.blend_add(b).blend_add(c), Rgb::new(255, 255, 12));
    assert_eq!(a.blend_add(Rgb::new(0, 0, 0)), a);
}

#[test]
fn from_str_reads_what_parse_reads() {
    assert_eq!("0001:fFfF".parse::<DeviceId>(), Ok(DeviceId::new(1, 0xffff)));
    assert_eq!("0001".parse::<DeviceId>(), Err(ParseDeviceIdError));
    assert_eq!("Rbg".parse::<ChannelOrder>(), Ok(ChannelOrder::Rbg));
    assert_eq!("rg".parse::<ChannelOrder>(), Err(()));
}
