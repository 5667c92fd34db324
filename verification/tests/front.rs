use aula_rgb::color::Rgb;
use aula_rgb::desktop::{
    blend_label, device_entries, sanitise, short, waiting_label, BrushMode, CloseAction,
    DeviceEntry, Settings,
};
use aula_rgb::device::{DeviceId, Link};
use aula_rgb::editor::{
    delete_keyframe, delete_layer, fill_keys, insert_keyframe_after, move_layer, paint_key, History,
    UNDO_LIMIT,
};
use aula_rgb::effects::font::{bitmap, glyph, GLYPH_W};
use aula_rgb::effects::paths::{ext, ext_of_name, file_name, is_still_ext, stem, stem_of_name};
use aula_rgb::effects::{default_device, yes, Blend, Direction, Ease, Generator, HexColor};
use aula_rgb::engine::{searched, EngineState};
use aula_rgb::transport::{Confidence, DeviceCandidate};

#[test]
fn file_names_are_sanitised() {
    assert_eq!(sanitise("My Cool FX!"), "my-cool-fx-");
    assert_eq!(sanitise("   "), "effect");
}

#[test]
fn sanitising_keeps_dashes_underscores_and_letters() {
    assert_eq!(sanitise("  a_b-C  "), "a_b-c");
    assert_eq!(sanitise("x/y.z"), "x-y-z");
}

#[test]
fn long_labels_are_shortened_with_an_ellipsis() {
    assert_eq!(short("Gaming Keyboard", 20), "Gaming Keyboard");
    assert_eq!(short("Gaming Keyboard", 7), "Gaming\u{2026}");
    assert_eq!(short("abc", 0), "\u{2026}");
    assert_eq!(short("abc", 3), "abc");
}

#[test]
fn labels_for_the_editor() {
    assert_eq!(BrushMode::Pick.label(), "Eyedropper");
    assert_eq!(BrushMode::Row.label(), "Row");
    assert_eq!(blend_label(Blend::Multiply), "Multiply");
    assert_eq!(Blend::default(), Blend::Add);
    assert_eq!(Ease::Hold.label(), "Hold (cut)");
    assert_eq!(Ease::default(), Ease::Linear);
    assert_eq!(Generator::GradientScroll.label(), "Gradient scroll");
    assert_eq!(Direction::BottomToTop.label(), "\u{2191} Bottom to top");
    assert!(!Generator::Rainbow.uses_colors());
    assert!(Generator::Ripple.uses_colors());
    assert!(!Generator::Ripple.uses_direction());
    assert!(Generator::Wave.uses_direction());
}

#[test]
fn settings_default_to_asking_and_the_hardware_ceiling() {
    let s = Settings::default();
    assert_eq!(s.close_action, CloseAction::Ask);
    assert!(s.minimize_to_tray);
    assert!(s.run_in_background);
    assert_eq!(s.max_fps, 21);
}

#[test]
fn hex_colours_round_trip() {
    let c = Rgb::new(0x0a, 0xff, 0x80);
    let h = HexColor::from(c);
    assert_eq!(h.0, "#0aff80");
    assert_eq!(h.to_rgb(), c);
    assert_eq!(HexColor("garbage".into()).to_rgb(), Rgb::new(0, 0, 0));
    assert_eq!(default_device(), "aula-f75");
    assert!(yes());
}

#[test]
fn unknown_characters_fall_back_rather_than_vanish() {
    assert_eq!(bitmap("\u{263a}"), bitmap("?"));
}

#[test]
fn a_letter_is_five_columns_wide() {
    let b = bitmap("A");
    assert_eq!(b.len(), GLYPH_W + 1, "five columns plus a gap");
    assert!(b[GLYPH_W].iter().all(|x| !x), "the gap is blank");
    assert_eq!(b[0], [false, true, true, true]);
    assert_eq!(glyph('a'), glyph('A'));
}

#[test]
fn extensions_and_stems_follow_the_file_name() {
    assert_eq!(ext_of_name("Photo.JPG"), "jpg");
    assert_eq!(ext_of_name(".hidden"), "");
    assert_eq!(ext_of_name("archive.tar.gz"), "gz");
    assert_eq!(ext_of_name("noext"), "");
    assert_eq!(stem_of_name("archive.tar.gz"), "archive.tar");
    assert_eq!(stem_of_name(".hidden"), ".hidden");
    assert!(is_still_ext("webp"));
    assert!(!is_still_ext("gif"));
    assert_eq!(ext("art/frame.PNG"), "png");
    assert_eq!(stem("art/frame.PNG"), "frame");
    assert_eq!(stem(""), "imported");
    assert_eq!(file_name("art/frame.png"), "frame.png");
}

fn candidate(id: DeviceId, link: Link) -> DeviceCandidate {
    DeviceCandidate {
        id,
        link,
        model: "AULA F75",
        path: "p".into(),
        product: String::new(),
        confidence: Confidence::Known,
        confirmed: true,
    }
}

#[test]
fn a_missing_pin_keeps_its_row() {
    let wired = DeviceId::new(0x258a, 0x010c);
    let radio = DeviceId::new(0x3554, 0xfa09);
    let rows = device_entries(&[candidate(wired, Link::Wired)], Some(radio));
    assert_eq!(rows.len(), 2);
    assert_eq!(rows[0].label, "AULA F75 (wired)");
    assert!(rows[0].present);
    assert_eq!(rows[1].id, radio);
    assert_eq!(rows[1].label, "3554:fa09");
    assert!(!rows[1].present);
    assert_eq!(rows[1].link, Link::Dongle);

    let rows = device_entries(&[candidate(wired, Link::Wired)], Some(wired));
    assert_eq!(rows.len(), 1);
    assert_eq!(waiting_label(&rows, wired), "AULA F75 (wired)");
    assert_eq!(waiting_label(&rows, radio), "3554:fa09");
    let none: Vec<DeviceEntry> = Vec::new();
    assert_eq!(waiting_label(&none, radio), "3554:fa09");
}

#[test]
fn the_engine_gives_up_on_the_third_failed_write() {
    let mut s = EngineState::new(None, vec![], 0);
    s.connected();
    assert!(!s.frame_written(false));
    assert!(!s.frame_written(false));
    assert!(s.frame_written(false));
    assert_eq!(s.write_failures, 0);
    assert!(!s.enumeration_fresh);
    assert!(!s.frame_written(false));
    assert!(!s.frame_written(true), "a success resets the count");
    assert!(!s.frame_written(false));
    assert!(!s.frame_written(false));
}

#[test]
fn pinning_allow_lists_once_and_reconnects() {
    let radio = DeviceId::new(0x3554, 0xfa09);
    let mut s = EngineState::new(None, vec![], 0);
    assert!(s.open_due(0));
    assert!(!s.open_due(1_000_000));
    assert!(s.open_due(2_000_001));
    s.select_device(Some(radio));
    s.select_device(Some(radio));
    assert_eq!(s.allow, vec![radio]);
    assert_eq!(s.pinned, Some(radio));
    assert!(s.open_due(2_000_002), "a new pin reconnects at once");
    assert_eq!(searched(s.allow.len()), 3);
}

#[test]
fn the_selection_stays_in_range() {
    let mut s = EngineState::new(None, vec![], 0);
    assert!(s.select_effect(4, 6));
    assert!(!s.select_effect(9, 6));
    assert_eq!(s.selected, 4);
    s.clamp_selection(3);
    assert_eq!(s.selected, 2);
    s.clamp_selection(0);
    assert_eq!(s.selected, 0);
    assert!(!s.rescan_due(700_000));
    assert!(s.rescan_due(750_001));
}

#[test]
fn scattered_write_failures_keep_the_board() {
    let mut s = EngineState::new(None, vec![], 0);
    s.connected();
    for ok in [false, true, false, false, true, false, false, true, false] {
        assert!(!s.frame_written(ok), "no three failures in a row");
    }
    assert_eq!(s.write_failures, 1);
    assert!(!s.frame_written(false));
    assert!(s.frame_written(false), "the third failure in a row gives up");
}

#[test]
fn a_path_ending_in_the_parent_directory_has_no_file_name() {
    assert_eq!(stem(".."), "imported");
    assert_eq!(stem("art/.."), "imported");
    assert_eq!(file_name(".."), "..");
    assert_eq!(file_name("art/.."), "art/..");
}

#[test]
fn a_plain_name_is_its_own_file_name() {
    assert_eq!(file_name("Logo.PNG"), "Logo.PNG");
    assert_eq!(stem("Logo.PNG"), "Logo");
    assert_eq!(ext("Logo.PNG"), "png");
    assert_eq!(stem(".hidden"), ".hidden");
    assert_eq!(ext(".hidden"), "");
}

#[test]
fn undo_and_redo_walk_the_history() {
    let mut h: History<Vec<u8>> = History::new();
    let mut colours = vec![0, 0, 0];
    assert!(!h.can_undo() && !h.undo(&mut colours));
    h.snapshot(colours.clone());
    colours[1] = 50;
    assert!(h.undo(&mut colours));
    assert_eq!(colours, vec![0, 0, 0]);
    assert!(h.can_redo());
    assert!(h.redo(&mut colours));
    assert_eq!(colours, vec![0, 50, 0]);
    assert!(!h.redo(&mut colours), "nothing left to redo");
    // A new edit forgets what was undone.
    assert!(h.undo(&mut colours));
    h.snapshot(colours.clone());
    assert!(!h.can_redo());
}

#[test]
fn the_history_keeps_only_the_newest_edits() {
    let mut h: History<usize> = History::new();
    for i in 0..UNDO_LIMIT + 5 {
        h.snapshot(i);
    }
    let mut cur = 1000;
    let mut undone = 0;
    while h.undo(&mut cur) {
        undone += 1;
    }
    assert_eq!(undone, UNDO_LIMIT);
    assert_eq!(cur, 5, "the oldest five were dropped");
}

#[test]
fn a_slash_separated_path_names_its_last_component() {
    assert_eq!(file_name("dir/a.png"), "a.png");
    assert_eq!(stem("dir/a.png"), "a");
    assert_eq!(ext("art/Logo.PNG"), "png");
    assert_eq!(ext("d.v2/a"), "");
    assert_eq!(stem("/abs/path/clip.tar.gz"), "clip.tar");
}

#[test]
fn painting_sets_one_key_and_fill_sets_them_all() {
    let mut colours: Vec<HexColor> = (0..4).map(|_| HexColor::from_rgb(Rgb::new(0, 0, 0))).collect();
    paint_key(&mut colours, 3, Rgb::new(1, 2, 3));
    assert_eq!(colours[3].0, "#010203");
    assert_eq!(colours[0].0, "#000000");
    paint_key(&mut colours, 9, Rgb::new(9, 9, 9));
    assert_eq!(colours.len(), 4, "a key past the end is ignored");
    fill_keys(&mut colours, Rgb::new(255, 0, 170));
    assert!(colours.iter().all(|c| c.0 == "#ff00aa"));
}

#[test]
fn layers_move_with_the_active_one_following() {
    let mut layers = vec!["base", "wave", "text", "glow"];
    assert_eq!(move_layer(&mut layers, 0, 0, true), Some(1), "the moved layer stays active");
    assert_eq!(layers, vec!["wave", "base", "text", "glow"]);
    assert_eq!(move_layer(&mut layers, 2, 1, true), Some(1), "the displaced neighbour stays active");
    assert_eq!(layers, vec!["wave", "text", "base", "glow"]);
    assert_eq!(move_layer(&mut layers, 3, 0, true), Some(3), "an untouched layer stays active");
    assert_eq!(layers, vec!["text", "wave", "base", "glow"]);
    assert_eq!(move_layer(&mut layers, 0, 3, true), None, "already on top");
    assert_eq!(move_layer(&mut layers, 0, 0, false), None, "already at the bottom");
    assert_eq!(layers, vec!["text", "wave", "base", "glow"]);
}

#[test]
fn deleting_keeps_one_layer_and_one_keyframe() {
    let mut layers = vec!["a", "b", "c"];
    assert_eq!(delete_layer(&mut layers, 2), Some(1));
    assert_eq!(layers, vec!["a", "b"]);
    assert_eq!(delete_layer(&mut layers, 0), Some(0));
    assert_eq!(delete_layer(&mut layers, 0), None, "the last layer stays");
    assert_eq!(layers, vec!["b"]);

    let mut kfs = vec![0.0f32, 1.0];
    assert_eq!(delete_keyframe(&mut kfs, 1), Some(0));
    assert_eq!(delete_keyframe(&mut kfs, 0), None, "a layer needs one keyframe");
    assert_eq!(kfs, vec![0.0]);
}

#[test]
fn a_new_keyframe_goes_after_the_selected_one() {
    let mut kfs = vec!["k0", "k1"];
    assert_eq!(insert_keyframe_after(&mut kfs, 0, "new"), 1);
    assert_eq!(kfs, vec!["k0", "new", "k1"]);
}
