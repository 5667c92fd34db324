use aula_rgb::device::{DeviceId, Link};
use aula_rgb::dongle::{discover, known, USAGE_PAGE_LIGHTING};
use aula_rgb::f75::scan_spec;
use aula_rgb::transport::{
    choose_device, collections, is_keyboard_shaped, list_collections, openable_collections,
    targets, Choice, CollectionInfo, Confidence, DeviceCandidate, ScanOptions,
};

fn candidate(id: DeviceId, link: Link, confirmed: bool) -> DeviceCandidate {
    DeviceCandidate {
        id,
        link,
        model: "AULA F75",
        path: format!("path-{}", id.to_text()),
        product: "Gaming Keyboard".into(),
        confidence: Confidence::Known,
        confirmed,
    }
}

const WIRED: DeviceId = DeviceId { vid: 0x258a, pid: 0x010c };
const DONGLE: DeviceId = DeviceId { vid: 0x3554, pid: 0xfa09 };

#[test]
fn wired_wins_when_nothing_is_pinned() {
    let c = vec![
        candidate(DONGLE, Link::Dongle, true),
        candidate(WIRED, Link::Wired, true),
    ];
    assert_eq!(choose_device(&c, None), Choice::Use(1));
}

#[test]
fn a_pin_beats_the_wired_preference() {
    let c = vec![
        candidate(WIRED, Link::Wired, true),
        candidate(DONGLE, Link::Dongle, true),
    ];
    assert_eq!(choose_device(&c, Some(DONGLE)), Choice::Use(1));
}

/// Pinning the receiver and unplugging it must not hand the lighting back to
/// the cable.
#[test]
fn a_missing_pin_never_falls_back_to_a_present_device() {
    let c = vec![candidate(WIRED, Link::Wired, true)];
    assert_eq!(choose_device(&c, Some(DONGLE)), Choice::PinnedMissing(DONGLE));
}

#[test]
fn nothing_plugged_in_is_not_a_choice() {
    assert_eq!(choose_device(&[], None), Choice::Nothing);
    assert_eq!(choose_device(&[], Some(WIRED)), Choice::PinnedMissing(WIRED));
}

#[test]
fn a_confirmed_device_breaks_a_tie() {
    let c = vec![
        candidate(DONGLE, Link::Dongle, false),
        candidate(DeviceId::new(0x1d57, 0xfa60), Link::Dongle, true),
    ];
    assert_eq!(choose_device(&c, None), Choice::Use(1));
}

#[test]
fn among_equals_the_first_listed_wins() {
    let c = vec![
        candidate(DONGLE, Link::Unknown, true),
        candidate(WIRED, Link::Unknown, true),
    ];
    assert_eq!(choose_device(&c, None), Choice::Use(0));
}

#[test]
fn labels_say_how_the_board_is_attached() {
    let mut c = candidate(WIRED, Link::Wired, true);
    assert_eq!(c.label(), "AULA F75 (wired)");

    c.link = Link::Dongle;
    assert_eq!(c.label(), "AULA F75 (2.4 GHz dongle)");

    c.confidence = Confidence::Probed;
    assert_eq!(c.label(), "AULA F75 (2.4 GHz dongle, unverified)");

    // Nothing has confirmed it is even an AULA board, so it is named by what
    // the device itself reports rather than by our model name.
    c.confirmed = false;
    c.id = DeviceId::new(0x3554, 0xfa09);
    assert_eq!(c.label(), "Gaming Keyboard (3554:fa09, unverified)");

    c.product = String::new();
    assert_eq!(c.label(), "unknown device (3554:fa09, unverified)");

    c.confidence = Confidence::Known;
    c.link = Link::Unknown;
    assert_eq!(c.label(), "AULA F75 (unknown link, not answering)");
}

fn info(id: DeviceId, page: u16, usage: u16, path: &str) -> CollectionInfo {
    CollectionInfo {
        id,
        path: path.to_string(),
        usage_page: page,
        usage,
        interface: 0,
        product: "Board".to_string(),
        manufacturer: "Maker".to_string(),
    }
}

#[test]
fn os_collections_are_never_opened() {
    let all = vec![
        info(WIRED, 0x0001, 0x0006, "kbd"),
        info(WIRED, 0xff00, 0x0001, "vendor-a"),
        info(WIRED, 0x000c, 0x0001, "consumer"),
        info(WIRED, 0xff00, 0x0002, "vendor-b"),
        info(DONGLE, 0xff02, 0x0001, "other"),
    ];
    assert_eq!(openable_collections(&all, WIRED, true), vec![1, 3]);
    assert_eq!(openable_collections(&all, WIRED, false), vec![1, 3]);
    assert_eq!(collections(&all, WIRED), vec![0, 1, 2, 3]);
    assert!(all[0].is_os_owned() && all[2].is_os_owned() && !all[1].is_os_owned());
    assert!(all[1].is_vendor() && !all[0].is_vendor());
}

/// Linux's hidraw has reported a usage page only for the first collection;
/// trusted hardware falls back to anything the OS has not claimed.
#[test]
fn trusted_hardware_without_vendor_pages_falls_back() {
    let all = vec![
        info(WIRED, 0x0001, 0x0006, "kbd"),
        info(WIRED, 0x0000, 0x0000, "unknown-a"),
        info(WIRED, 0x000c, 0x0001, "consumer"),
        info(WIRED, 0x0000, 0x0000, "unknown-b"),
    ];
    assert_eq!(openable_collections(&all, WIRED, true), vec![1, 3]);
    assert!(openable_collections(&all, WIRED, false).is_empty());
}

#[test]
fn list_collections_keeps_one_device() {
    let all = vec![
        info(WIRED, 0x0001, 0x0006, "kbd"),
        info(DONGLE, 0xff02, 0x0001, "radio"),
        info(WIRED, 0xff00, 0x0001, "vendor"),
    ];
    let l = list_collections(&all, 0x258a, 0x010c);
    assert_eq!(l.len(), 2);
    assert_eq!(l[0].path, "kbd");
    assert_eq!(l[1].path, "vendor");
    assert!(is_keyboard_shaped(&all, WIRED));
    assert!(!is_keyboard_shaped(&all, DONGLE));
}

#[test]
fn targets_are_sorted_unique_and_classified() {
    let stranger = DeviceId::new(0x1111, 0x2222);
    let allowed = DeviceId::new(0x0001, 0x0002);
    let mouse = DeviceId::new(0x0005, 0x0006);
    let all = vec![
        info(stranger, 0x0001, 0x0006, "s-kbd"),
        info(WIRED, 0xff00, 0x0001, "w-1"),
        info(stranger, 0xff00, 0x0001, "s-vendor"),
        info(allowed, 0xff00, 0x0001, "a"),
        info(WIRED, 0xff00, 0x0002, "w-2"),
        info(mouse, 0xff00, 0x0001, "m-vendor"),
    ];
    let opts = ScanOptions {
        allow: vec![allowed],
        deep: false,
        include_non_keyboards: false,
    };
    let t = targets(&all, &scan_spec(&opts));
    assert_eq!(
        t,
        vec![
            (allowed, Link::Unknown, Confidence::Known),
            (WIRED, Link::Wired, Confidence::Known),
        ]
    );

    let deep = ScanOptions {
        allow: vec![allowed],
        deep: true,
        include_non_keyboards: false,
    };
    let t = targets(&all, &scan_spec(&deep));
    assert_eq!(
        t,
        vec![
            (allowed, Link::Unknown, Confidence::Known),
            (stranger, Link::Unknown, Confidence::Probed),
            (WIRED, Link::Wired, Confidence::Known),
        ],
        "a keyboard-shaped stranger is probed, the mouse is not"
    );

    let wide = ScanOptions {
        allow: vec![],
        deep: true,
        include_non_keyboards: true,
    };
    let t = targets(&all, &scan_spec(&wide));
    assert_eq!(t.len(), 4);
    assert_eq!(t[0], (allowed, Link::Unknown, Confidence::Probed));
    assert_eq!(t[1], (mouse, Link::Unknown, Confidence::Probed));
}

#[test]
fn receivers_are_found_by_id_and_lighting_page() {
    let extra = DeviceId::new(0x1d57, 0xfa60);
    let all = vec![
        info(DONGLE, 0x0001, 0x0006, "d-kbd"),
        info(DONGLE, USAGE_PAGE_LIGHTING, 0x0001, "d-light"),
        info(extra, USAGE_PAGE_LIGHTING, 0x0001, "e-light"),
        info(WIRED, USAGE_PAGE_LIGHTING, 0x0001, "w-light"),
    ];
    assert_eq!(known(), vec![DONGLE]);
    let found = discover(&all, &[]);
    assert_eq!(found.len(), 1);
    assert_eq!(found[0].path, "d-light");
    assert!(found[0].confirmed);
    assert_eq!(found[0].link, Link::Dongle);

    let found = discover(&all, &[extra]);
    assert_eq!(found.len(), 2);
    assert_eq!(found[1].id, extra);
    assert!(!found[1].confirmed, "an allow-listed id has not been decoded");
    assert_eq!(found[1].confidence, Confidence::Known);
}
