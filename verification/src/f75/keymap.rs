//! AULA F75 LED index map and physical geometry.
//!
//! The LED order is the keyboard's own key-matrix order, which the firmware
//! exposes through command 0x83 (4 bytes per entry, HID usage code in byte 3).
//!
//! It is column-major: down the leftmost physical column (Esc, `, Tab, Caps,
//! LShift, LCtrl), then the next column, and so on. Of the indices below, the
//! empty names are matrix positions with no key fitted.

use vstd::prelude::*;

use crate::device::KeyPos;
use crate::text::str_eq;

verus! {

/// LED index to key name, straight from the firmware's matrix table. An
/// empty name is a matrix position with no key fitted.
pub const LED_ORDER: [&'static str; 90] = [
    "Esc", "`", "Tab", "Caps", "LShift", "LCtrl", "", "1",
    "Q", "A", "Z", "LWin", "F1", "2", "W", "S",
    "X", "LAlt", "F2", "3", "E", "D", "C", "",
    "F3", "4", "R", "F", "V", "", "F4", "5",
    "T", "G", "B", "Space", "F5", "6", "Y", "H",
    "N", "", "F6", "7", "U", "J", "M", "",
    "F7", "8", "I", "K", ",", "Fn", "F8", "9",
    "O", "L", ".", "RCtrl", "F9", "0", "P", ";",
    "/", "", "F10", "", "[", "'", "RShift", "",
    "F11", "=", "]", "", "", "Left", "F12", "Backspace",
    "\\", "Enter", "Up", "Down", "Knob", "Del", "PgUp", "PgDn",
    "End", "Right",
];

/// Physical keys, row by row and left to right: name, row from the top, and
/// width in quarters of a key unit.
pub const ROWS: [(&'static str, u8, u32); 82] = [
    ("Esc", 0, 4), ("F1", 0, 4), ("F2", 0, 4), ("F3", 0, 4), ("F4", 0, 4), ("F5", 0, 4),
    ("F6", 0, 4), ("F7", 0, 4), ("F8", 0, 4), ("F9", 0, 4), ("F10", 0, 4), ("F11", 0, 4),
    ("F12", 0, 4), ("Del", 0, 4), ("Knob", 0, 4),
    ("`", 1, 4), ("1", 1, 4), ("2", 1, 4), ("3", 1, 4), ("4", 1, 4), ("5", 1, 4), ("6", 1, 4),
    ("7", 1, 4), ("8", 1, 4), ("9", 1, 4), ("0", 1, 4), ("-", 1, 4), ("=", 1, 4),
    ("Backspace", 1, 8), ("PgUp", 1, 4),
    ("Tab", 2, 6), ("Q", 2, 4), ("W", 2, 4), ("E", 2, 4), ("R", 2, 4), ("T", 2, 4), ("Y", 2, 4),
    ("U", 2, 4), ("I", 2, 4), ("O", 2, 4), ("P", 2, 4), ("[", 2, 4), ("]", 2, 4),
    ("\\", 2, 6), ("PgDn", 2, 4),
    ("Caps", 3, 7), ("A", 3, 4), ("S", 3, 4), ("D", 3, 4), ("F", 3, 4), ("G", 3, 4), ("H", 3, 4),
    ("J", 3, 4), ("K", 3, 4), ("L", 3, 4), (";", 3, 4), ("'", 3, 4), ("Enter", 3, 9),
    ("Home", 3, 4),
    ("LShift", 4, 9), ("Z", 4, 4), ("X", 4, 4), ("C", 4, 4), ("V", 4, 4), ("B", 4, 4),
    ("N", 4, 4), ("M", 4, 4), (",", 4, 4), (".", 4, 4), ("/", 4, 4), ("RShift", 4, 7),
    ("Up", 4, 4), ("End", 4, 4),
    ("LCtrl", 5, 5), ("LWin", 5, 5), ("LAlt", 5, 5), ("Space", 5, 25), ("Fn", 5, 4),
    ("RCtrl", 5, 4), ("Left", 5, 4), ("Down", 5, 4), ("Right", 5, 4),
];

/// The first LED slot at or after `i` whose name is `name`.
pub open spec fn led_search(name: Seq<char>, i: int) -> Option<usize>
    decreases 90 - i,
{
    if i >= 90 || i < 0 {
        None
    } else if LED_ORDER@[i]@ == name {
        Some(i as usize)
    } else {
        led_search(name, i + 1)
    }
}

/// The LED that drives the key called `name`, if the matrix has one.
pub open spec fn spec_led_for(name: Seq<char>) -> Option<usize> {
    if name.len() == 0 {
        None
    } else {
        led_search(name, 0)
    }
}

/// Find the LED slot of a key by name.
pub fn led_for(name: &str) -> (r: Option<usize>)
    ensures
        r == spec_led_for(name@),
{
    if name.is_empty() {
        return None;
    }
    let mut i: usize = 0;
    while i < 90
        invariant
            i <= 90,
            name@.len() > 0,
            spec_led_for(name@) == led_search(name@, i as int),
        decreases 90 - i,
    {
        if str_eq(LED_ORDER[i], name) {
            return Some(i);
        }
        i = i + 1;
    }
    None
}

/// The first physical key at or after `i` named `name`.
pub open spec fn row_search(name: Seq<char>, i: int) -> Option<int>
    decreases 82 - i,
{
    if i >= 82 || i < 0 {
        None
    } else if ROWS@[i].0@ == name {
        Some(i)
    } else {
        row_search(name, i + 1)
    }
}

proof fn lemma_row_search(name: Seq<char>, k: int, j: int)
    requires
        0 <= k <= j < 82,
        ROWS@[j].0@ == name,
    ensures
        row_search(name, k) matches Some(m) && ROWS@[m].0@ == name,
    decreases j - k,
{
    if ROWS@[k].0@ != name {
        lemma_row_search(name, k + 1, j);
    }
}

/// The table's own copy of a key name, or `?` for a name the board lacks.
pub fn static_name(name: &str) -> (s: &'static str)
    ensures
        match row_search(name@, 0) {
            Some(i) => s == ROWS@[i].0,
            None => s@ == "?"@,
        },
{
    let mut i: usize = 0;
    while i < 82
        invariant
            i <= 82,
            row_search(name@, 0) == row_search(name@, i as int),
        decreases 82 - i,
    {
        if str_eq(ROWS[i].0, name) {
            return ROWS[i].0;
        }
        i = i + 1;
    }
    "?"
}

/// Quarters from the row's left edge to the left edge of physical key `i`.
pub open spec fn left_edge(i: int) -> int
    decreases i,
{
    if i <= 0 {
        0
    } else if ROWS@[i - 1].1 != ROWS@[i].1 {
        0
    } else {
        left_edge(i - 1) + ROWS@[i - 1].2
    }
}

/// A key as plain values: name, row, centre in eighths, width in quarters,
/// LED.
pub open spec fn key_view(k: KeyPos) -> (Seq<char>, u8, u32, u32, usize) {
    (k.name@, k.row, k.x_eighths, k.w_quarters, k.led)
}

/// The keys among the first `n` physical keys that have an LED, in table
/// order.
pub open spec fn spec_layout(n: int) -> Seq<(Seq<char>, u8, u32, u32, usize)>
    decreases n,
{
    if n <= 0 {
        Seq::empty()
    } else {
        let i = n - 1;
        let rest = spec_layout(n - 1);
        match spec_led_for(ROWS@[i].0@) {
            Some(led) => rest.push(
                (ROWS@[i].0@, ROWS@[i].1, (2 * left_edge(i) + ROWS@[i].2) as u32, ROWS@[i].2, led),
            ),
            None => rest,
        }
    }
}

proof fn lemma_left_edge_bounded(i: int)
    requires
        0 <= i < 82,
    ensures
        0 <= left_edge(i),
        left_edge(i) <= 25 * i,
    decreases i,
{
    if i > 0 {
        lemma_left_edge_bounded(i - 1);
        assert(ROWS@[i - 1].2 <= 25);
        if ROWS@[i - 1].1 == ROWS@[i].1 {
            assert(left_edge(i) == left_edge(i - 1) + ROWS@[i - 1].2);
        } else {
            assert(left_edge(i) == 0);
        }
    }
}

/// The summed widths, in quarters, of every physical key among the first `n`
/// that sits in row `r`, whether or not it has an LED.
pub open spec fn row_width_before(r: u8, n: int) -> int
    decreases n,
{
    if n <= 0 {
        0
    } else {
        row_width_before(r, n - 1) + if ROWS@[n - 1].1 == r {
            ROWS@[n - 1].2 as int
        } else {
            0
        }
    }
}

/// Physical key `i` as a laid-out key: its name, row and width, an LED the
/// matrix gives that name, and its centre at the summed widths of every
/// physical key before it in its row plus half its own width.
pub open spec fn sits_at(k: KeyPos, i: int) -> bool {
    &&& k.name@ == ROWS@[i].0@
    &&& k.row == ROWS@[i].1
    &&& k.w_quarters == ROWS@[i].2
    &&& k.x_eighths == 2 * row_width_before(ROWS@[i].1, i) + ROWS@[i].2
    &&& spec_led_for(ROWS@[i].0@) == Some(k.led)
}

/// Some physical key is the laid-out key `k`, placed where its row puts it.
pub open spec fn placed(k: KeyPos) -> bool {
    exists|i: int| 0 <= i < 82 && #[trigger] sits_at(k, i)
}

proof fn lemma_rows_ascend(j: int, i: int)
    requires
        0 <= j <= i < 82,
    ensures
        ROWS@[j].1 <= ROWS@[i].1,
    decreases i - j,
{
    if j < i {
        lemma_rows_ascend(j, i - 1);
        assert(ROWS@[i - 1].1 <= ROWS@[i].1);
    }
}

proof fn lemma_no_width_from_other_rows(r: u8, n: int)
    requires
        0 <= n <= 82,
        forall|j: int| 0 <= j < n ==> ROWS@[j].1 != r,
    ensures
        row_width_before(r, n) == 0,
    decreases n,
{
    if n > 0 {
        lemma_no_width_from_other_rows(r, n - 1);
    }
}

/// A row's left edge is reached by every physical key before it in the row,
/// whether or not that key has an LED: the edge is the summed width of all
/// of them.
pub proof fn lemma_left_edge_counts_every_key(i: int)
    requires
        0 <= i < 82,
    ensures
        left_edge(i) == row_width_before(ROWS@[i].1, i),
    decreases i,
{
    if i > 0 {
        if ROWS@[i - 1].1 != ROWS@[i].1 {
            assert forall|j: int| 0 <= j < i implies ROWS@[j].1 != ROWS@[i].1 by {
                lemma_rows_ascend(j, i - 1);
                lemma_rows_ascend(i - 1, i);
            }
            lemma_no_width_from_other_rows(ROWS@[i].1, i);
        } else {
            lemma_left_edge_counts_every_key(i - 1);
        }
    }
}

/// Laid-out entry `t` is physical key `i`, as the layout places it.
spec fn entry_of(t: (Seq<char>, u8, u32, u32, usize), i: int) -> bool {
    &&& spec_led_for(ROWS@[i].0@) == Some(t.4)
    &&& t == (ROWS@[i].0@, ROWS@[i].1, (2 * left_edge(i) + ROWS@[i].2) as u32, ROWS@[i].2, t.4)
}

proof fn lemma_layout_entry(n: int, m: int)
    requires
        0 <= n <= 82,
        0 <= m < spec_layout(n).len(),
    ensures
        exists|i: int| 0 <= i < n && #[trigger] entry_of(spec_layout(n)[m], i),
    decreases n,
{
    let i = n - 1;
    let rest = spec_layout(n - 1);
    if m < rest.len() {
        lemma_layout_entry(n - 1, m);
        assert(spec_layout(n)[m] == rest[m]);
        let j = choose|j: int| 0 <= j < n - 1 && #[trigger] entry_of(rest[m], j);
        assert(entry_of(spec_layout(n)[m], j));
    } else {
        assert(entry_of(spec_layout(n)[m], i));
    }
}

/// Laid-out entry `t`, as plain values, is some physical key with an LED,
/// centred after the summed widths of every physical key before it in its
/// row, with or without an LED.
pub open spec fn entry_placed(t: (Seq<char>, u8, u32, u32, usize)) -> bool {
    exists|i: int|
        #![trigger ROWS@[i]]
        0 <= i < 82 && t.0 == ROWS@[i].0@ && t.1 == ROWS@[i].1 && t.3
            == ROWS@[i].2 && t.2 == 2 * row_width_before(ROWS@[i].1, i) + ROWS@[i].2 && spec_led_for(
            ROWS@[i].0@,
        ) == Some(t.4)
}

/// Every key of the layout sits where its row puts it: its centre, in
/// eighths, is twice the summed widths in quarters of all the physical keys
/// before it in its row, whether or not they have an LED, plus its own width.
pub proof fn lemma_layout_places_every_key(m: int)
    requires
        0 <= m < spec_layout(82).len(),
    ensures
        entry_placed(spec_layout(82)[m]),
{
    lemma_layout_entry(82, m);
    let t = spec_layout(82)[m];
    let i = choose|i: int| 0 <= i < 82 && #[trigger] entry_of(t, i);
    lemma_left_edge_bounded(i);
    lemma_left_edge_counts_every_key(i);
    assert(ROWS@[i].2 <= 25);
}

/// Every key that has both a physical position and an LED, row by row.
pub fn layout() -> (keys: Vec<KeyPos>)
    ensures
        keys@.map_values(|k: KeyPos| key_view(k)) == spec_layout(82),
        forall|m: int| 0 <= m < keys@.len() ==> placed(#[trigger] keys@[m]),
{
    let mut keys: Vec<KeyPos> = Vec::new();
    let mut x: u32 = 0;
    let mut i: usize = 0;
    while i < 82
        invariant
            i <= 82,
            x == left_edge(i as int) || i == 82,
            i < 82 ==> x == left_edge(i as int),
            keys@.map_values(|k: KeyPos| key_view(k)) == spec_layout(i as int),
        decreases 82 - i,
    {
        let (name, row, w) = ROWS[i];
        proof {
            lemma_left_edge_bounded(i as int);
            assert(w <= 25);
        }
        let ghost before = keys@.map_values(|k: KeyPos| key_view(k));
        match led_for(name) {
            Some(led) => {
                let k = KeyPos { name: static_name(name), row, x_eighths: 2 * x + w, w_quarters: w, led };
                keys.push(k);
                proof {
                    lemma_row_search(name@, 0, i as int);
                    assert(keys@.map_values(|k: KeyPos| key_view(k)) =~= before.push(key_view(k)));
                }
            },
            None => {},
        }
        if i + 1 < 82 {
            if ROWS[i + 1].1 != row {
                x = 0;
            } else {
                x = x + w;
            }
        }
        i = i + 1;
    }
    proof {
        assert forall|m: int| 0 <= m < keys@.len() implies placed(#[trigger] keys@[m]) by {
            lemma_layout_entry(82, m);
            let t = spec_layout(82)[m];
            assert(keys@.map_values(|k: KeyPos| key_view(k))[m] == key_view(keys@[m]));
            let i = choose|i: int| 0 <= i < 82 && #[trigger] entry_of(t, i);
            lemma_left_edge_bounded(i);
            lemma_left_edge_counts_every_key(i);
            assert(ROWS@[i].2 <= 25);
            assert(sits_at(keys@[m], i));
        }
    }
    keys
}

/// The bottom row index, or 0 for no keys.
pub open spec fn spec_max_row(keys: Seq<KeyPos>) -> u8
    decreases keys.len(),
{
    if keys.len() == 0 {
        0
    } else {
        let m = spec_max_row(keys.drop_last());
        if keys.last().row > m {
            keys.last().row
        } else {
            m
        }
    }
}

/// The bottom row index.
pub fn max_row(keys: &[KeyPos]) -> (m: u8)
    ensures
        m == spec_max_row(keys@),
{
    let mut m: u8 = 0;
    let mut i: usize = 0;
    while i < keys.len()
        invariant
            i <= keys@.len(),
            m == spec_max_row(keys@.take(i as int)),
        decreases keys@.len() - i,
    {
        proof {
            assert(keys@.take(i + 1).drop_last() =~= keys@.take(i as int));
        }
        if keys[i].row > m {
            m = keys[i].row;
        }
        i = i + 1;
    }
    assert(keys@.take(i as int) =~= keys@);
    m
}

/// The rightmost key centre, in eighths of a key unit, or 0 for no keys.
pub open spec fn spec_max_x_eighths(keys: Seq<KeyPos>) -> u32
    decreases keys.len(),
{
    if keys.len() == 0 {
        0
    } else {
        let m = spec_max_x_eighths(keys.drop_last());
        if keys.last().x_eighths > m {
            keys.last().x_eighths
        } else {
            m
        }
    }
}

/// The rightmost key centre, in eighths of a key unit. Effects use it to
/// normalise across the board.
pub fn max_x_eighths(keys: &[KeyPos]) -> (m: u32)
    ensures
        m == spec_max_x_eighths(keys@),
{
    let mut m: u32 = 0;
    let mut i: usize = 0;
    while i < keys.len()
        invariant
            i <= keys@.len(),
            m == spec_max_x_eighths(keys@.take(i as int)),
        decreases keys@.len() - i,
    {
        proof {
            assert(keys@.take(i + 1).drop_last() =~= keys@.take(i as int));
        }
        if keys[i].x_eighths > m {
            m = keys[i].x_eighths;
        }
        i = i + 1;
    }
    assert(keys@.take(i as int) =~= keys@);
    m
}

} // verus!
