//! The desktop front end's plain data and the rules it applies to text:
//! brush modes, settings, tray actions, device
//! status and the picker's rows, file-name sanitising, and shortening labels.

use vstd::prelude::*;

use crate::device::{id_text, DeviceId, Link};
use crate::effects::Blend;
use crate::f75::protocol::MAX_FPS;
use crate::text::{chars_of, push_str, string_from_chars, trim_chars, trimmed};
use crate::transport::{candidate_label, DeviceCandidate};

verus! {

/// How a click or drag on the board paints.
#[derive(Clone, Copy, Debug, PartialEq, Eq, Structural)]
pub enum BrushMode {
    Key,
    Row,
    Column,
    Region,
    Pick,
}

pub open spec fn brush_label(b: BrushMode) -> Seq<char> {
    match b {
        BrushMode::Key => "Key"@,
        BrushMode::Row => "Row"@,
        BrushMode::Column => "Column"@,
        BrushMode::Region => "Region"@,
        BrushMode::Pick => "Eyedropper"@,
    }
}

impl BrushMode {
    pub fn label(self) -> (s: &'static str)
        ensures
            s@ == brush_label(self),
    {
        match self {
            BrushMode::Key => "Key",
            BrushMode::Row => "Row",
            BrushMode::Column => "Column",
            BrushMode::Region => "Region",
            BrushMode::Pick => "Eyedropper",
        }
    }
}

pub open spec fn spec_blend_label(b: Blend) -> Seq<char> {
    match b {
        Blend::Normal => "Normal"@,
        Blend::Add => "Add"@,
        Blend::Screen => "Screen"@,
        Blend::Multiply => "Multiply"@,
        Blend::Max => "Max"@,
    }
}

/// The name a blend mode is shown by.
pub fn blend_label(b: Blend) -> (s: &'static str)
    ensures
        s@ == spec_blend_label(b),
{
    match b {
        Blend::Normal => "Normal",
        Blend::Add => "Add",
        Blend::Screen => "Screen",
        Blend::Multiply => "Multiply",
        Blend::Max => "Max",
    }
}

/// What `char::is_alphanumeric` says of a character: alphabetic or numeric
/// in the Unicode sense.
pub uninterp spec fn alphanumeric(c: char) -> bool;

/// `char::is_alphanumeric`.
#[verifier::external_body]
fn is_alphanumeric(c: char) -> (b: bool)
    ensures
        b == alphanumeric(c),
{
    c.is_alphanumeric()
}

/// What `str::to_lowercase` makes of a string: its full Unicode lower-case
/// mapping.
pub uninterp spec fn lowercase(s: Seq<char>) -> Seq<char>;

/// `str::to_lowercase`.
#[verifier::external_body]
fn to_lowercase(s: &str) -> (r: String)
    ensures
        r@ == lowercase(s@),
{
    s.to_lowercase()
}

/// A character kept in a file name, or the dash that replaces it.
pub open spec fn name_char(c: char) -> char {
    if alphanumeric(c) || c == '-' || c == '_' {
        c
    } else {
        '-'
    }
}

/// A file name made from what the user typed: trimmed, every character that
/// is not alphanumeric, `-` or `_` replaced by `-`, then lower-cased; or
/// `effect` when nothing is left.
pub open spec fn spec_sanitise(name: Seq<char>) -> Seq<char> {
    let m = trimmed(name).map_values(|c: char| name_char(c));
    if m.len() == 0 {
        "effect"@
    } else {
        lowercase(m)
    }
}

/// Make a file name from what the user typed.
pub fn sanitise(name: &str) -> (s: String)
    ensures
        s@ == spec_sanitise(name@),
{
    let all = chars_of(name);
    let t = trim_chars(&all);
    let mut m: Vec<char> = Vec::new();
    let mut i: usize = 0;
    while i < t.len()
        invariant
            i <= t@.len(),
            t@ == trimmed(name@),
            m@ == t@.take(i as int).map_values(|c: char| name_char(c)),
        decreases t@.len() - i,
    {
        let c = t[i];
        let k = if is_alphanumeric(c) || c == '-' || c == '_' {
            c
        } else {
            '-'
        };
        m.push(k);
        i = i + 1;
        assert(m@ =~= t@.take(i as int).map_values(|c: char| name_char(c)));
    }
    assert(t@.take(i as int) =~= t@);
    if m.len() == 0 {
        let mut v: Vec<char> = Vec::new();
        push_str(&mut v, "effect");
        return string_from_chars(&v);
    }
    let joined = string_from_chars(&m);
    to_lowercase(joined.as_str())
}

/// A label cut to at most `max` characters: as it is if it fits, else its
/// first `max - 1` characters and an ellipsis.
pub open spec fn spec_short(s: Seq<char>, max: usize) -> Seq<char> {
    if s.len() <= max {
        s
    } else {
        s.take(if max >= 1 { max - 1 } else { 0 }) + seq!['\u{2026}']
    }
}

/// Cut a label to fit a narrow space.
pub fn short(s: &str, max: usize) -> (r: String)
    ensures
        r@ == spec_short(s@, max),
{
    let cs = chars_of(s);
    if cs.len() <= max {
        return string_from_chars(&cs);
    }
    let keep = if max >= 1 {
        max - 1
    } else {
        0
    };
    let mut v: Vec<char> = Vec::new();
    let mut i: usize = 0;
    while i < keep
        invariant
            i <= keep,
            keep < cs@.len(),
            v@ == cs@.take(i as int),
        decreases keep - i,
    {
        v.push(cs[i]);
        i = i + 1;
        assert(v@ =~= cs@.take(i as int));
    }
    v.push('\u{2026}');
    string_from_chars(&v)
}

/// What the window's close button does.
#[derive(Clone, Copy, Debug, PartialEq, Eq, Structural)]
pub enum CloseAction {
    /// Ask each time: guessing wrong either kills the lighting the user wanted
    /// to keep running or hides a window they wanted gone.
    Ask,
    /// Keep running in the tray.
    Tray,
    /// Quit, which also turns the lighting loop off.
    Quit,
}

impl Default for CloseAction {
    fn default() -> (a: Self)
        ensures
            a == CloseAction::Ask,
    {
        CloseAction::Ask
    }
}

/// Small persisted preferences.
#[derive(Clone, Copy, Debug, PartialEq, Eq, Structural)]
pub struct Settings {
    pub close_action: CloseAction,
    /// Hide the window to the tray when minimised.
    pub minimize_to_tray: bool,
    /// Keep rendering while the window is hidden.
    pub run_in_background: bool,
    /// Write rate cap. The device clamps this to its own ceiling, so a value
    /// from an older or hand-edited file can only ever make things gentler.
    pub max_fps: u32,
}

impl Default for Settings {
    fn default() -> (s: Self)
        ensures
            s == (Settings {
                close_action: CloseAction::Ask,
                minimize_to_tray: true,
                run_in_background: true,
                max_fps: MAX_FPS,
            }),
    {
        Settings { close_action: CloseAction::Ask, minimize_to_tray: true, run_in_background: true, max_fps: MAX_FPS }
    }
}

/// What the user asked for from the tray.
#[derive(Clone, Copy, Debug, PartialEq, Eq, Structural)]
pub enum TrayAction {
    /// Restore and focus the window.
    Show,
    /// Start or stop the lighting loop.
    TogglePlay,
    /// Quit for real.
    Quit,
}

/// Whether the engine is driving a board.
#[derive(Debug)]
pub enum DeviceStatus {
    Connected {
        name: String,
        path: String,
        id: DeviceId,
        /// False when nothing has confirmed this device: lighting works but a
        /// mode change is refused.
        can_change_mode: bool,
    },
    /// The user pinned a device that is not plugged in. Not a failure: the
    /// app is doing exactly what it was told.
    Waiting { pinned: DeviceId, label: String },
    Disconnected(String),
}

/// One row in the device picker.
#[derive(Debug)]
pub struct DeviceEntry {
    pub id: DeviceId,
    pub label: String,
    pub link: Link,
    pub confirmed: bool,
    /// False for a pinned device that has gone away. The row stays so the pin
    /// is visible, rather than silently vanishing from the list.
    pub present: bool,
}

/// A picker row as plain values.
pub open spec fn entry_view(e: DeviceEntry) -> (DeviceId, Seq<char>, Link, bool, bool) {
    (e.id, e.label@, e.link, e.confirmed, e.present)
}

/// The picker's rows: one per candidate, in order; and if a device is pinned
/// that no candidate is, a row for it marked absent.
pub open spec fn spec_device_entries(cs: Seq<DeviceCandidate>, pinned: Option<DeviceId>) -> Seq<(DeviceId, Seq<char>, Link, bool, bool)> {
    let rows = cs.map_values(|c: DeviceCandidate| (c.id, candidate_label(c), c.link, c.confirmed, true));
    match pinned {
        Some(id) => if exists|i: int| 0 <= i < cs.len() && (#[trigger] cs[i]).id == id {
            rows
        } else {
            rows.push((id, id_text(id), Link::Dongle, false, false))
        },
        None => rows,
    }
}

/// Build the picker's rows.
///
/// A pinned device that is not plugged in keeps its row, marked absent: a
/// pin that silently disappears from the list looks like the app forgetting
/// it.
pub fn device_entries(candidates: &[DeviceCandidate], pinned: Option<DeviceId>) -> (r: Vec<DeviceEntry>)
    ensures
        r@.map_values(|e: DeviceEntry| entry_view(e)) == spec_device_entries(candidates@, pinned),
{
    let mut r: Vec<DeviceEntry> = Vec::new();
    let ghost rows = candidates@.map_values(
        |c: DeviceCandidate| (c.id, candidate_label(c), c.link, c.confirmed, true),
    );
    let mut i: usize = 0;
    while i < candidates.len()
        invariant
            i <= candidates@.len(),
            rows == candidates@.map_values(
                |c: DeviceCandidate| (c.id, candidate_label(c), c.link, c.confirmed, true),
            ),
            r@.map_values(|e: DeviceEntry| entry_view(e)) == rows.take(i as int),
        decreases candidates@.len() - i,
    {
        let c = &candidates[i];
        let e = DeviceEntry { id: c.id, label: c.label(), link: c.link, confirmed: c.confirmed, present: true };
        assert(entry_view(e) == rows[i as int]);
        let ghost before = r@.map_values(|e: DeviceEntry| entry_view(e));
        r.push(e);
        assert(r@.map_values(|e: DeviceEntry| entry_view(e)) =~= before.push(entry_view(e)));
        assert(rows.take(i + 1) =~= rows.take(i as int).push(rows[i as int]));
        i = i + 1;
        assert(r@.map_values(|e: DeviceEntry| entry_view(e)) =~= rows.take(i as int));
    }
    assert(rows.take(i as int) =~= rows);
    if let Some(id) = pinned {
        let mut found = false;
        let mut j: usize = 0;
        while j < candidates.len()
            invariant
                j <= candidates@.len(),
                !found ==> forall|k: int| 0 <= k < j ==> (#[trigger] candidates@[k]).id != id,
                found ==> exists|k: int| 0 <= k < candidates@.len() && (#[trigger] candidates@[k]).id == id,
            decreases candidates@.len() - j,
        {
            if candidates[j].id == id {
                found = true;
            }
            j = j + 1;
        }
        if !found {
            let ghost before = r@.map_values(|e: DeviceEntry| entry_view(e));
            let e = DeviceEntry { id, label: id.to_text(), link: Link::Dongle, confirmed: false, present: false };
            r.push(e);
            assert(r@.map_values(|e: DeviceEntry| entry_view(e)) =~= before.push(
                (id, id_text(id), Link::Dongle, false, false),
            ));
        }
    }
    r
}

/// The label to wait under for a pinned device: its row's, if the picker has
/// one, else its id.
pub open spec fn spec_waiting_label(rows: Seq<DeviceEntry>, id: DeviceId) -> Seq<char>
    decreases rows.len(),
{
    if rows.len() == 0 {
        id_text(id)
    } else if rows[0].id == id {
        rows[0].label@
    } else {
        spec_waiting_label(rows.drop_first(), id)
    }
}

pub fn waiting_label(rows: &[DeviceEntry], id: DeviceId) -> (s: String)
    ensures
        s@ == spec_waiting_label(rows@, id),
{
    let mut i: usize = 0;
    assert(rows@.skip(0) =~= rows@);
    while i < rows.len()
        invariant
            i <= rows@.len(),
            spec_waiting_label(rows@, id) == spec_waiting_label(rows@.skip(i as int), id),
        decreases rows@.len() - i,
    {
        proof {
            assert(rows@.skip(i as int).drop_first() =~= rows@.skip(i + 1));
            assert(rows@.skip(i as int)[0] == rows@[i as int]);
        }
        if rows[i].id == id {
            return rows[i].label.clone();
        }
        i = i + 1;
    }
    id.to_text()
}

} // verus!
