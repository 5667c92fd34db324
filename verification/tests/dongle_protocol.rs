use aula_rgb::color::Rgb;
use aula_rgb::dongle::protocol::{
    build_frame, build_raw_frame, checksum, chunk, chunk_config, cmd, encode_groups, idle_frame,
    Group, CHUNK_PAYLOAD, MAX_CHUNKS_PER_SEC, MAX_PAYLOAD, TICK_MS,
};
use aula_rgb::f75::protocol::PER_KEY_CONFIG;

/// Every one of these came off the wire.
#[test]
fn frames_match_the_captured_bytes() {
    // 13 88 01 00 15 00 ff ff 01 37 00.. e7  — LED 0x37 cyan
    let g = Group {
        color: Rgb::new(0, 255, 255),
        leds: vec![0x37],
    };
    let (payload, sent) = encode_groups(&[g], CHUNK_PAYLOAD);
    assert_eq!(sent.len(), 1);
    let frames = chunk(cmd::LIGHTING, &payload);
    assert_eq!(frames.len(), 1);
    assert_eq!(
        frames[0].to_vec(),
        vec![
            0x13, 0x88, 0x01, 0x00, 0x15, 0x00, 0xff, 0xff, 0x01, 0x37, 0, 0, 0, 0, 0, 0, 0, 0, 0,
            0xe7
        ]
    );
}

#[test]
fn two_leds_of_one_colour_match_the_capture() {
    // 13 88 01 00 16 00 00 ff 02 24 2a 00.. 01
    let g = Group {
        color: Rgb::new(0, 0, 255),
        leds: vec![0x24, 0x2a],
    };
    let (payload, _) = encode_groups(&[g], CHUNK_PAYLOAD);
    let f = chunk(cmd::LIGHTING, &payload)[0];
    assert_eq!(f[4], 0x16);
    assert_eq!(&f[5..11], &[0x00, 0x00, 0xff, 0x02, 0x24, 0x2a]);
    assert_eq!(f[19], 0x01);
}

#[test]
fn two_groups_pack_into_one_frame() {
    // 13 88 01 00 1a 00 ff ff 01 43 ff ff 00 01 27 00.. 1e
    let groups = [
        Group {
            color: Rgb::new(0, 255, 255),
            leds: vec![0x43],
        },
        Group {
            color: Rgb::new(255, 255, 0),
            leds: vec![0x27],
        },
    ];
    let (payload, sent) = encode_groups(&groups, CHUNK_PAYLOAD);
    assert_eq!(sent.len(), 2);
    let f = chunk(cmd::LIGHTING, &payload)[0];
    assert_eq!(f[4], 0x1a);
    assert_eq!(f[19], 0x1e);
}

#[test]
fn the_idle_tick_matches_the_capture() {
    let f = idle_frame();
    assert_eq!(&f[..5], &[0x13, 0x88, 0x01, 0x00, 0x23]);
    assert!(f[5..19].iter().all(|b| *b == 0));
    assert_eq!(f[19], 0xbf, "the capture's idle checksum");
}

/// A whole-board apply: one colour, 80 keys, six chunks.
#[test]
fn a_solid_full_board_costs_six_chunks() {
    let g = Group {
        color: Rgb::new(255, 255, 0),
        leds: (0..80).collect(),
    };
    assert_eq!(g.encoded_len(), 84, "3 colour + 1 count + 80 indices");
    let (payload, sent) = encode_groups(&[g], MAX_PAYLOAD);
    assert_eq!(payload.len(), 84);
    assert_eq!(sent.len(), 1, "it must fit whole");
    let frames = chunk(cmd::LIGHTING, &payload);
    assert_eq!(frames.len(), 6);
    for (i, f) in frames.iter().enumerate() {
        assert_eq!(f[2], 6, "chunk count");
        assert_eq!(f[3], i as u8, "chunk index");
        assert_eq!(f[19], checksum(f));
    }
}

/// A frame is all-or-nothing, so the budget has to hold a realistic one.
#[test]
fn the_budget_fits_a_whole_multicolour_board() {
    // 80 lit keys spread over 20 colours: 20*4 + 80 = 160 bytes.
    let groups: Vec<Group> = (0..20u8)
        .map(|i| Group {
            color: Rgb::new(i.wrapping_mul(11), i, 255 - i),
            leds: (0..4).map(|j| i * 4 + j).collect(),
        })
        .collect();
    let need: usize = groups.iter().map(|g| g.encoded_len()).sum();
    assert_eq!(need, 160);
    assert!(
        need <= MAX_PAYLOAD,
        "a 20-colour board needs {need} bytes but the cap is {MAX_PAYLOAD}; \
         every key past the cut would go dark"
    );

    let (payload, sent) = encode_groups(&groups, MAX_PAYLOAD);
    assert_eq!(sent.len(), groups.len(), "the whole frame must fit");
    assert_eq!(payload.len(), need);
    let encoded: usize = sent.iter().map(|g| g.encoded_len()).sum();
    assert_eq!(encoded, payload.len());
}

/// Truncation still has to be safe when a frame genuinely cannot fit.
#[test]
fn an_oversized_frame_is_truncated_not_corrupted() {
    let groups: Vec<Group> = (0..60u8)
        .map(|i| Group {
            color: Rgb::new(i, i, i),
            leds: vec![i, i + 1, i + 2, i + 3, i + 4],
        })
        .collect();
    let (payload, sent) = encode_groups(&groups, MAX_PAYLOAD);
    assert!(payload.len() <= MAX_PAYLOAD);
    assert!(sent.len() < groups.len(), "it should have run out of room");
    let encoded: usize = sent.iter().map(|g| g.encoded_len()).sum();
    assert_eq!(
        encoded,
        payload.len(),
        "what came back must describe the bytes"
    );
}

#[test]
fn checksums_hold_for_every_frame_shape() {
    for n in 0..=CHUNK_PAYLOAD {
        let payload: Vec<u8> = (0..n as u8).collect();
        let f = build_frame(cmd::LIGHTING, 1, 0, &payload);
        assert_eq!(f[19], checksum(&f));
        assert_eq!(f[4], 16 + n as u8);
    }
}

/// Config framing, checked against the captured bytes.
#[test]
fn config_chunks_match_the_captured_framing() {
    let frames = chunk_config(&PER_KEY_CONFIG);
    assert_eq!(frames.len(), 10, "128 bytes is ten 14-byte chunks");

    // 13 04 0a 00 0e ...
    assert_eq!(&frames[0][..5], &[0x13, 0x04, 0x0a, 0x00, 0x0e]);
    for (i, f) in frames.iter().enumerate() {
        assert_eq!(f[2], 10, "chunk count");
        assert_eq!(f[3], i as u8, "chunk index");
        assert_eq!(f[19], checksum(f), "checksum");
    }

    // The tail carries just the signature: 13 04 0a 09 02 5a a5
    let last = frames[9];
    assert_eq!(&last[..7], &[0x13, 0x04, 0x0a, 0x09, 0x02, 0x5a, 0xa5]);
}

/// The length byte is raw here and biased in the lighting family.
#[test]
fn config_length_is_raw_where_lighting_is_biased() {
    let raw = build_raw_frame(cmd::WRITE_CONFIG, 1, 0, &[1, 2, 3]);
    assert_eq!(raw[4], 3);
    let lit = build_frame(cmd::LIGHTING, 1, 0, &[1, 2, 3]);
    assert_eq!(lit[4], 3 + 16);
}

/// The rate limit must be a chunk budget, not a frame budget.
#[test]
fn the_budget_gives_sparse_frames_more_headroom() {
    let per_frame = |chunks: u64| chunks * 1000 / MAX_CHUNKS_PER_SEC;
    let full_board = per_frame(8);
    let sparse = per_frame(2);
    assert!(
        sparse * 3 < full_board,
        "a 2-chunk frame should be far cheaper than an 8-chunk one: \
         {sparse} ms vs {full_board} ms"
    );
    // The measured clean rate: 8 chunks at 8 FPS.
    assert_eq!(full_board, 125, "8 chunks should earn a 125 ms gap");
}

/// The tick is a floor the budget can never undercut.
#[test]
fn a_cheap_frame_is_still_paced_by_the_tick() {
    let budget_ms = 1000 / MAX_CHUNKS_PER_SEC;
    assert!(
        budget_ms < TICK_MS,
        "a one-chunk frame's budget ({budget_ms} ms) is under the tick, so the \
         tick must be what limits it"
    );
}

#[test]
fn an_empty_payload_needs_no_frames() {
    assert!(chunk(cmd::LIGHTING, &[]).is_empty());
}

#[test]
fn chunks_carry_the_payload_in_order_and_nothing_else() {
    let payload: Vec<u8> = (0..40u8).collect();
    let frames = chunk(cmd::LIGHTING, &payload);
    assert_eq!(frames.len(), 3);
    let mut back = Vec::new();
    for f in &frames {
        let n = (f[4] - 16) as usize;
        back.extend_from_slice(&f[5..5 + n]);
        assert!(f[5 + n..19].iter().all(|b| *b == 0), "padding is zero");
    }
    assert_eq!(back, payload);
    assert_eq!(frames[2][4], 16 + 12);
}

#[test]
fn a_tiny_budget_sends_nothing() {
    let g = Group {
        color: Rgb::new(1, 2, 3),
        leds: vec![1, 2, 3],
    };
    let (payload, sent) = encode_groups(&[g], 4);
    assert!(payload.is_empty());
    assert!(sent.is_empty());
}

#[test]
fn a_group_too_big_for_the_room_is_cut_to_a_prefix() {
    let a = Group {
        color: Rgb::new(9, 9, 9),
        leds: vec![1, 2, 3, 4, 5, 6],
    };
    let b = Group {
        color: Rgb::new(7, 7, 7),
        leds: vec![8],
    };
    // 4 + 6 = 10 bytes for the first; 4 more leave room for 2 of the second's
    // head, too little to start it.
    let (payload, sent) = encode_groups(&[a, b], 12);
    assert_eq!(payload, vec![9, 9, 9, 6, 1, 2, 3, 4, 5, 6]);
    assert_eq!(sent.len(), 1);

    let c = Group {
        color: Rgb::new(5, 5, 5),
        leds: vec![10, 11, 12, 13, 14, 15, 16, 17],
    };
    let (payload, sent) = encode_groups(&[c], 7);
    assert_eq!(payload, vec![5, 5, 5, 3, 10, 11, 12]);
    assert_eq!(sent[0].leds, vec![10, 11, 12]);
}

#[test]
fn empty_groups_are_skipped() {
    let e = Group {
        color: Rgb::new(1, 1, 1),
        leds: vec![],
    };
    let g = Group {
        color: Rgb::new(2, 2, 2),
        leds: vec![3],
    };
    let (payload, sent) = encode_groups(&[e, g], MAX_PAYLOAD);
    assert_eq!(payload, vec![2, 2, 2, 1, 3]);
    assert_eq!(sent.len(), 1);
}
