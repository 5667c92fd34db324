//! The composition editor's decisions: undo history, painting a keyframe's
//! colours, and the edits to the layer stack and a layer's keyframes that
//! move, add or remove entries and keep the selection on something real.
//!
//! Layers and keyframes carry floating-point times and opacities, so the
//! editor keeps them; what is decided here is which entry goes where and
//! which one is selected afterwards.

use vstd::prelude::*;

use crate::color::Rgb;
use crate::effects::{hex_text, HexColor};

verus! {

/// How many edits the editor can undo.
pub const UNDO_LIMIT: usize = 80;

/// The editor's undo and redo history, of whatever state it edits: states
/// before each edit, newest last, and states undone, newest last.
pub struct History<T> {
    undo: Vec<T>,
    redo: Vec<T>,
}

/// `s` with `x` on top, the oldest entry dropped past the limit.
pub open spec fn pushed_capped<T>(s: Seq<T>, x: T) -> Seq<T> {
    if s.len() + 1 > UNDO_LIMIT {
        s.push(x).drop_first()
    } else {
        s.push(x)
    }
}

/// Undo: the newest state before an edit comes back, and the state it
/// replaces can be redone. Nothing changes with nothing to undo.
pub open spec fn spec_undo<T>(undo: Seq<T>, redo: Seq<T>, cur: T) -> (Seq<T>, Seq<T>, T) {
    if undo.len() == 0 {
        (undo, redo, cur)
    } else {
        (undo.drop_last(), redo.push(cur), undo.last())
    }
}

/// Redo: the newest undone state comes back, and the state it replaces can
/// be undone again. Nothing changes with nothing to redo.
pub open spec fn spec_redo<T>(undo: Seq<T>, redo: Seq<T>, cur: T) -> (Seq<T>, Seq<T>, T) {
    if redo.len() == 0 {
        (undo, redo, cur)
    } else {
        (undo.push(cur), redo.drop_last(), redo.last())
    }
}

impl<T> History<T> {
    pub closed spec fn undo_stack(&self) -> Seq<T> {
        self.undo@
    }

    pub closed spec fn redo_stack(&self) -> Seq<T> {
        self.redo@
    }

    /// An empty history.
    pub fn new() -> (h: Self)
        ensures
            h.undo_stack() == Seq::<T>::empty(),
            h.redo_stack() == Seq::<T>::empty(),
    {
        History { undo: Vec::new(), redo: Vec::new() }
    }

    pub fn can_undo(&self) -> (b: bool)
        ensures
            b == (self.undo_stack().len() > 0),
    {
        self.undo.len() > 0
    }

    pub fn can_redo(&self) -> (b: bool)
        ensures
            b == (self.redo_stack().len() > 0),
    {
        self.redo.len() > 0
    }

    /// Record the state before an edit. The oldest entry goes past the
    /// limit, and a new edit forgets what was undone.
    pub fn snapshot(&mut self, state: T)
        ensures
            final(self).undo_stack() == pushed_capped(old(self).undo_stack(), state),
            final(self).redo_stack() == Seq::<T>::empty(),
    {
        self.undo.push(state);
        if self.undo.len() > UNDO_LIMIT {
            self.undo.remove(0);
            assert(self.undo@ =~= old(self).undo@.push(state).drop_first());
        }
        self.redo = Vec::new();
    }

    /// Undo the last edit of `cur`. Returns whether there was one.
    pub fn undo(&mut self, cur: &mut T) -> (changed: bool)
        ensures
            changed == (old(self).undo_stack().len() > 0),
            (final(self).undo_stack(), final(self).redo_stack(), *final(cur)) == spec_undo(
                old(self).undo_stack(),
                old(self).redo_stack(),
                *old(cur),
            ),
    {
        match self.undo.pop() {
            Some(prev) => {
                let mut prev = prev;
                std::mem::swap(cur, &mut prev);
                self.redo.push(prev);
                true
            },
            None => false,
        }
    }

    /// Redo the last undone edit of `cur`. Returns whether there was one.
    pub fn redo(&mut self, cur: &mut T) -> (changed: bool)
        ensures
            changed == (old(self).redo_stack().len() > 0),
            (final(self).undo_stack(), final(self).redo_stack(), *final(cur)) == spec_redo(
                old(self).undo_stack(),
                old(self).redo_stack(),
                *old(cur),
            ),
    {
        match self.redo.pop() {
            Some(next) => {
                let mut next = next;
                std::mem::swap(cur, &mut next);
                self.undo.push(next);
                true
            },
            None => false,
        }
    }
}

/// Undo then redo puts everything back as it was, and so does redo then
/// undo; and undoing right after a snapshot brings back the state recorded.
pub proof fn lemma_undo_redo_round_trip<T>(undo: Seq<T>, redo: Seq<T>, cur: T, edited: T)
    ensures
        undo.len() > 0 ==> {
            let a = spec_undo(undo, redo, cur);
            spec_redo(a.0, a.1, a.2) == (undo, redo, cur)
        },
        redo.len() > 0 ==> {
            let b = spec_redo(undo, redo, cur);
            spec_undo(b.0, b.1, b.2) == (undo, redo, cur)
        },
        spec_undo(pushed_capped(undo, cur), Seq::<T>::empty(), edited).2 == cur,
{
    if undo.len() > 0 {
        assert(undo.drop_last().push(undo.last()) =~= undo);
        assert(redo.push(cur).drop_last() =~= redo);
    }
    if redo.len() > 0 {
        assert(redo.drop_last().push(redo.last()) =~= redo);
        assert(undo.push(cur).drop_last() =~= undo);
    }
}

/// The history never holds more than the limit of edits to undo.
pub proof fn lemma_snapshots_stay_within_the_limit<T>(undo: Seq<T>, x: T)
    requires
        undo.len() <= UNDO_LIMIT,
    ensures
        pushed_capped(undo, x).len() <= UNDO_LIMIT,
        pushed_capped(undo, x).last() == x,
{
}


/// The colours of a keyframe as text.
pub open spec fn hex_views(v: Seq<HexColor>) -> Seq<Seq<char>> {
    v.map_values(|h: HexColor| h.0@)
}

/// Paint one key of a keyframe. A key past the keyframe's end is left
/// alone.
pub fn paint_key(colors: &mut Vec<HexColor>, led: usize, c: Rgb)
    ensures
        hex_views(final(colors)@) == (if led < old(colors)@.len() {
            hex_views(old(colors)@).update(led as int, hex_text(c))
        } else {
            hex_views(old(colors)@)
        }),
{
    if led < colors.len() {
        let ghost before = colors@;
        colors.set(led, HexColor::from_rgb(c));
        assert(hex_views(colors@) =~= hex_views(before).update(led as int, hex_text(c)));
    }
}

/// Paint every key of a keyframe the same colour.
pub fn fill_keys(colors: &mut Vec<HexColor>, c: Rgb)
    ensures
        hex_views(final(colors)@) == Seq::new(old(colors)@.len(), |i: int| hex_text(c)),
{
    let n = colors.len();
    let mut i: usize = 0;
    while i < n
        invariant
            i <= n,
            n == colors@.len(),
            forall|j: int| 0 <= j < i ==> (#[trigger] colors@[j]).0@ == hex_text(c),
        decreases n - i,
    {
        colors.set(i, HexColor::from_rgb(c));
        i = i + 1;
    }
    assert(hex_views(colors@) =~= Seq::new(n as nat, |i: int| hex_text(c)));
}

/// An index kept on an entry of a list of `len`: past the end it moves to
/// the last entry, or to 0 for an empty list.
pub open spec fn clamped(i: int, len: int) -> int {
    if len == 0 {
        0
    } else if i < len {
        i
    } else {
        len - 1
    }
}

fn clamp_index(i: usize, len: usize) -> (r: usize)
    ensures
        r == clamped(i as int, len as int),
{
    if len == 0 {
        0
    } else if i < len {
        i
    } else {
        len - 1
    }
}

/// Where the layer at `i` is moved to, one place up or down the stack, if
/// that is still on the stack.
pub open spec fn move_target(i: int, up: bool, len: int) -> Option<int> {
    if up {
        if i + 1 < len {
            Some(i + 1)
        } else {
            None
        }
    } else if i > 0 {
        Some(i - 1)
    } else {
        None
    }
}

/// Move the layer at `i` one place toward the top of the stack (`up`) or
/// the bottom, swapping it with its neighbour; the active layer follows its
/// layer. Returns the new active index, or `None` when the layer is already
/// at that end and nothing moves.
pub fn move_layer<L>(layers: &mut Vec<L>, active: usize, i: usize, up: bool) -> (r: Option<usize>)
    requires
        i < old(layers)@.len(),
    ensures
        match move_target(i as int, up, old(layers)@.len() as int) {
            None => r is None && final(layers)@ == old(layers)@,
            Some(j) => {
                &&& final(layers)@ == old(layers)@.update(i as int, old(layers)@[j]).update(j, old(layers)@[i as int])
                &&& r == Some((if active == i {
                    j
                } else if active == j {
                    i as int
                } else {
                    active as int
                }) as usize)
            },
        },
{
    let j = if up {
        if i < layers.len() - 1 {
            i + 1
        } else {
            return None;
        }
    } else if i > 0 {
        i - 1
    } else {
        return None;
    };
    let ghost before = layers@;
    let (lo, hi) = if i < j {
        (i, j)
    } else {
        (j, i)
    };
    let upper = layers.remove(hi);
    let lower = layers.remove(lo);
    layers.insert(lo, upper);
    layers.insert(hi, lower);
    assert(layers@ =~= before.update(i as int, before[j as int]).update(j as int, before[i as int]));
    if active == i {
        Some(j)
    } else if active == j {
        Some(i)
    } else {
        Some(active)
    }
}

/// Delete the active layer, unless it is the only one: the active index then
/// stays on a layer. Returns the new active index, or `None` when the stack
/// has one layer or none and nothing changes.
pub fn delete_layer<L>(layers: &mut Vec<L>, active: usize) -> (r: Option<usize>)
    requires
        old(layers)@.len() <= 1 || active < old(layers)@.len(),
    ensures
        old(layers)@.len() <= 1 ==> r is None && final(layers)@ == old(layers)@,
        old(layers)@.len() > 1 ==> {
            &&& final(layers)@ == old(layers)@.remove(active as int)
            &&& r == Some(clamped(active as int, final(layers)@.len() as int) as usize)
        },
{
    if layers.len() <= 1 {
        return None;
    }
    layers.remove(active);
    Some(clamp_index(active, layers.len()))
}

/// Delete the selected keyframe, unless it is the layer's last: a layer
/// needs at least one. The selection then stays on a keyframe. Returns the
/// new selection, or `None` when the deletion is refused and nothing
/// changes.
pub fn delete_keyframe<K>(keyframes: &mut Vec<K>, selected: usize) -> (r: Option<usize>)
    requires
        old(keyframes)@.len() <= 1 || selected < old(keyframes)@.len(),
    ensures
        old(keyframes)@.len() <= 1 ==> r is None && final(keyframes)@ == old(keyframes)@,
        old(keyframes)@.len() > 1 ==> {
            &&& final(keyframes)@ == old(keyframes)@.remove(selected as int)
            &&& r == Some(clamped(selected as int, final(keyframes)@.len() as int) as usize)
        },
{
    if keyframes.len() <= 1 {
        return None;
    }
    keyframes.remove(selected);
    Some(clamp_index(selected, keyframes.len()))
}

/// Insert a new keyframe right after the selected one, and select it.
pub fn insert_keyframe_after<K>(keyframes: &mut Vec<K>, selected: usize, k: K) -> (r: usize)
    requires
        selected < old(keyframes)@.len(),
    ensures
        final(keyframes)@ == old(keyframes)@.insert(selected + 1, k),
        r == selected + 1,
{
    let n = keyframes.len();
    assert(selected < n);
    keyframes.insert(selected + 1, k);
    selected + 1
}

/// Moving a layer one way and then back restores the stack and the active
/// layer.
pub proof fn lemma_move_layer_back<L>(layers: Seq<L>, active: int, i: int, up: bool)
    requires
        0 <= i < layers.len(),
        move_target(i, up, layers.len() as int) is Some,
    ensures
        ({
            let j = move_target(i, up, layers.len() as int).unwrap();
            let moved = layers.update(i, layers[j]).update(j, layers[i]);
            let a = if active == i {
                j
            } else if active == j {
                i
            } else {
                active
            };
            &&& move_target(j, !up, layers.len() as int) == Some(i)
            &&& moved.update(j, moved[i]).update(i, moved[j]) == layers
            &&& (if a == j {
                i
            } else if a == i {
                j
            } else {
                a
            }) == active
        }),
{
    let j = move_target(i, up, layers.len() as int).unwrap();
    let moved = layers.update(i, layers[j]).update(j, layers[i]);
    assert(moved.update(j, moved[i]).update(i, moved[j]) =~= layers);
}

} // verus!
