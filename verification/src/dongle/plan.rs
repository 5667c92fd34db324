//! Grouping a frame into colour runs for the receiver's lighting command.
//!
//! A message costs 4 bytes per distinct colour plus one per lit key, so a
//! frame is sent as one group per colour, listing every key of that colour.
//! Dark keys are simply omitted, which is free: not mentioning a key is
//! exactly how the protocol turns it off. Largest groups come first, so if a
//! frame ever overflows a message, the most visible part of it survives.

use vstd::prelude::*;

use crate::color::Rgb;
use crate::device::{color_at, Frame, KeyPos};
use crate::dongle::protocol::{fits_in, gv, gvs, spec_sent, Group, MIN_GROUP};

verus! {

/// Colours in a fixed order: by red, then green, then blue.
pub open spec fn rgb_key(c: Rgb) -> int {
    c.r * 65536 + c.g * 256 + c.b
}

/// The order groups go out in: more keys first; among equal sizes, the lower
/// colour first.
pub open spec fn ranks_before(a: (Rgb, Seq<u8>), b: (Rgb, Seq<u8>)) -> bool {
    a.1.len() > b.1.len() || (a.1.len() == b.1.len() && rgb_key(a.0) < rgb_key(b.0))
}

/// The lit keys of a frame, in layout order: each key's colour and LED.
/// Keys whose LED index does not fit the protocol's one-byte field are left
/// out, as are dark keys.
pub open spec fn lit_keys(layout: Seq<KeyPos>, q: Seq<Rgb>) -> Seq<(Rgb, u8)>
    decreases layout.len(),
{
    if layout.len() == 0 {
        Seq::empty()
    } else {
        let rest = lit_keys(layout.drop_last(), q);
        let k = layout.last();
        let c = color_at(q, k.led as int);
        if k.led <= 255 && !c.spec_is_black() {
            rest.push((c, k.led as u8))
        } else {
            rest
        }
    }
}

/// The LEDs of the keys that have colour `c`, in order.
pub open spec fn leds_of(keys: Seq<(Rgb, u8)>, c: Rgb) -> Seq<u8>
    decreases keys.len(),
{
    if keys.len() == 0 {
        Seq::empty()
    } else {
        let rest = leds_of(keys.drop_last(), c);
        if keys.last().0 == c {
            rest.push(keys.last().1)
        } else {
            rest
        }
    }
}

/// Each group lists exactly the keys of its colour, and is not empty.
pub open spec fn groups_exact(keys: Seq<(Rgb, u8)>, gs: Seq<(Rgb, Seq<u8>)>) -> bool {
    forall|i: int| 0 <= i < gs.len() ==> (#[trigger] gs[i]).1 == leds_of(keys, gs[i].0) && gs[i].1.len() > 0
}

/// Some group has colour `c`.
pub open spec fn has_colour(gs: Seq<(Rgb, Seq<u8>)>, c: Rgb) -> bool {
    exists|i: int| 0 <= i < gs.len() && (#[trigger] gs[i]).0 == c
}

/// Every colour among the keys has a group.
pub open spec fn groups_cover(keys: Seq<(Rgb, u8)>, gs: Seq<(Rgb, Seq<u8>)>) -> bool {
    forall|m: int| 0 <= m < keys.len() ==> has_colour(gs, (#[trigger] keys[m]).0)
}

/// Groups in sending order: strictly, so no colour appears twice.
pub open spec fn groups_sorted(gs: Seq<(Rgb, Seq<u8>)>) -> bool {
    forall|i: int, j: int| 0 <= i < j < gs.len() ==> ranks_before(#[trigger] gs[i], #[trigger] gs[j])
}

/// What `plan` returns for a set of lit keys: one group per colour, exactly
/// its keys, largest first.
pub open spec fn is_plan(keys: Seq<(Rgb, u8)>, gs: Seq<(Rgb, Seq<u8>)>) -> bool {
    &&& groups_exact(keys, gs)
    &&& groups_cover(keys, gs)
    &&& groups_sorted(gs)
}

proof fn lemma_leds_of_push(s: Seq<(Rgb, u8)>, x: (Rgb, u8), c: Rgb)
    ensures
        leds_of(s.push(x), c) == (if x.0 == c {
            leds_of(s, c).push(x.1)
        } else {
            leds_of(s, c)
        }),
{
    assert(s.push(x).drop_last() =~= s);
}

proof fn lemma_lit_keys_push(layout: Seq<KeyPos>, k: KeyPos, q: Seq<Rgb>)
    ensures
        lit_keys(layout.push(k), q) == ({
            let c = color_at(q, k.led as int);
            if k.led <= 255 && !c.spec_is_black() {
                lit_keys(layout, q).push((c, k.led as u8))
            } else {
                lit_keys(layout, q)
            }
        }),
{
    assert(layout.push(k).drop_last() =~= layout);
}

/// The lit keys of a frame, in layout order.
pub fn lit_key_list(layout: &[KeyPos], q: &Frame) -> (keys: Vec<(Rgb, u8)>)
    ensures
        keys@ == lit_keys(layout@, q@),
{
    let mut keys: Vec<(Rgb, u8)> = Vec::new();
    let mut i: usize = 0;
    while i < layout.len()
        invariant
            i <= layout@.len(),
            keys@ == lit_keys(layout@.take(i as int), q@),
        decreases layout@.len() - i,
    {
        let k = layout[i];
        proof {
            assert(layout@.take(i + 1) =~= layout@.take(i as int).push(k));
            lemma_lit_keys_push(layout@.take(i as int), k, q@);
        }
        if k.led <= 255 {
            let c = q.get(k.led);
            if !c.is_black() {
                keys.push((c, k.led as u8));
            }
        }
        i = i + 1;
    }
    assert(layout@.take(i as int) =~= layout@);
    keys
}

/// Colours pairwise different.
pub open spec fn colours_distinct(gs: Seq<(Rgb, Seq<u8>)>) -> bool {
    forall|i: int, j: int| 0 <= i < j < gs.len() ==> (#[trigger] gs[i]).0 != (#[trigger] gs[j]).0
}

proof fn lemma_leds_of_nonempty(keys: Seq<(Rgb, u8)>, c: Rgb)
    requires
        leds_of(keys, c).len() > 0,
    ensures
        exists|m: int| 0 <= m < keys.len() && keys[m].0 == c,
    decreases keys.len(),
{
    let rest = keys.drop_last();
    if keys.last().0 == c {
        assert(keys[keys.len() - 1].0 == c);
    } else {
        lemma_leds_of_nonempty(rest, c);
        let m = choose|m: int| 0 <= m < rest.len() && rest[m].0 == c;
        assert(keys[m] == rest[m]);
    }
}

/// A key of a colour that already has a group joins that group.
proof fn lemma_join_group(pre: Seq<(Rgb, u8)>, x: (Rgb, u8), old: Seq<(Rgb, Seq<u8>)>, g: int)
    requires
        groups_exact(pre, old),
        groups_cover(pre, old),
        colours_distinct(old),
        0 <= g < old.len(),
        old[g].0 == x.0,
    ensures
        groups_exact(pre.push(x), old.update(g, (x.0, old[g].1.push(x.1)))),
        groups_cover(pre.push(x), old.update(g, (x.0, old[g].1.push(x.1)))),
        colours_distinct(old.update(g, (x.0, old[g].1.push(x.1)))),
{
    let post = pre.push(x);
    let now = old.update(g, (x.0, old[g].1.push(x.1)));
    assert forall|i: int| 0 <= i < now.len() implies (#[trigger] now[i]).1 == leds_of(post, now[i].0) && now[i].1.len() > 0 by {
        lemma_leds_of_push(pre, x, now[i].0);
        assert(old[i].1 == leds_of(pre, old[i].0));
        if i != g {
            assert(now[i] == old[i]);
            assert(old[i].0 != old[g].0);
        }
    }
    assert forall|m: int| 0 <= m < post.len() implies has_colour(now, (#[trigger] post[m]).0) by {
        if m < pre.len() {
            assert(post[m] == pre[m]);
            assert(has_colour(old, pre[m].0));
            let i = choose|i: int| 0 <= i < old.len() && (#[trigger] old[i]).0 == pre[m].0;
            assert(now[i].0 == old[i].0);
        } else {
            assert(now[g].0 == post[m].0);
        }
    }
    assert forall|i: int, j: int| 0 <= i < j < now.len() implies (#[trigger] now[i]).0 != (#[trigger] now[j]).0 by {
        assert(now[i].0 == old[i].0);
        assert(now[j].0 == old[j].0);
    }
}

/// A key of a colour with no group yet starts a new one.
proof fn lemma_new_group(pre: Seq<(Rgb, u8)>, x: (Rgb, u8), old: Seq<(Rgb, Seq<u8>)>)
    requires
        groups_exact(pre, old),
        groups_cover(pre, old),
        colours_distinct(old),
        forall|j: int| 0 <= j < old.len() ==> (#[trigger] old[j]).0 != x.0,
    ensures
        groups_exact(pre.push(x), old.push((x.0, seq![x.1]))),
        groups_cover(pre.push(x), old.push((x.0, seq![x.1]))),
        colours_distinct(old.push((x.0, seq![x.1]))),
{
    let post = pre.push(x);
    let now = old.push((x.0, seq![x.1]));
    assert(leds_of(pre, x.0) =~= Seq::<u8>::empty()) by {
        if leds_of(pre, x.0).len() > 0 {
            lemma_leds_of_nonempty(pre, x.0);
            let m = choose|m: int| 0 <= m < pre.len() && pre[m].0 == x.0;
            assert(has_colour(old, pre[m].0));
            let i = choose|i: int| 0 <= i < old.len() && (#[trigger] old[i]).0 == pre[m].0;
            assert(old[i].0 != x.0);
        }
    }
    assert forall|i: int| 0 <= i < now.len() implies (#[trigger] now[i]).1 == leds_of(post, now[i].0) && now[i].1.len() > 0 by {
        lemma_leds_of_push(pre, x, now[i].0);
        if i < old.len() {
            assert(now[i] == old[i]);
            assert(old[i].0 != x.0);
        } else {
            assert(seq![x.1] =~= Seq::<u8>::empty().push(x.1));
        }
    }
    assert forall|m: int| 0 <= m < post.len() implies has_colour(now, (#[trigger] post[m]).0) by {
        if m < pre.len() {
            assert(post[m] == pre[m]);
            assert(has_colour(old, pre[m].0));
            let i = choose|i: int| 0 <= i < old.len() && (#[trigger] old[i]).0 == pre[m].0;
            assert(now[i].0 == old[i].0);
        } else {
            assert(now[old.len() as int].0 == post[m].0);
        }
    }
    assert forall|i: int, j: int| 0 <= i < j < now.len() implies (#[trigger] now[i]).0 != (#[trigger] now[j]).0 by {
        if j < old.len() {
            assert(now[i].0 == old[i].0);
            assert(now[j].0 == old[j].0);
        } else {
            assert(now[i] == old[i]);
        }
    }
}

/// Group the keys by colour, in order of first appearance.
fn group_by_colour(keys: &Vec<(Rgb, u8)>) -> (gs: Vec<Group>)
    ensures
        groups_exact(keys@, gvs(gs@)),
        groups_cover(keys@, gvs(gs@)),
        colours_distinct(gvs(gs@)),
{
    let mut gs: Vec<Group> = Vec::new();
    let mut m: usize = 0;
    proof {
        assert(gvs(gs@) =~= Seq::<(Rgb, Seq<u8>)>::empty());
    }
    while m < keys.len()
        invariant
            m <= keys@.len(),
            groups_exact(keys@.take(m as int), gvs(gs@)),
            groups_cover(keys@.take(m as int), gvs(gs@)),
            colours_distinct(gvs(gs@)),
        decreases keys@.len() - m,
    {
        let (c, led) = keys[m];
        let ghost pre = keys@.take(m as int);
        let ghost old_gs = gvs(gs@);
        proof {
            assert(keys@.take(m + 1) =~= pre.push((c, led)));
        }
        let mut g: usize = 0;
        while g < gs.len() && gs[g].color != c
            invariant
                g <= gs@.len(),
                forall|j: int| 0 <= j < g ==> gs@[j].color != c,
            decreases gs@.len() - g,
        {
            g = g + 1;
        }
        if g < gs.len() {
            let mut leds = gs[g].leds.clone();
            assert(leds@ =~= gs@[g as int].leds@);
            leds.push(led);
            let ghost before_set = gs@;
            gs.set(g, Group { color: c, leds });
            proof {
                assert(old_gs[g as int] == gv(before_set[g as int]));
                lemma_join_group(pre, (c, led), old_gs, g as int);
                assert(gvs(gs@) =~= old_gs.update(g as int, (c, old_gs[g as int].1.push(led))));
            }
        } else {
            let mut leds: Vec<u8> = Vec::new();
            leds.push(led);
            let ghost before_push = gs@;
            gs.push(Group { color: c, leds });
            proof {
                assert forall|j: int| 0 <= j < old_gs.len() implies (#[trigger] old_gs[j]).0 != c by {
                    assert(old_gs[j] == gv(before_push[j]));
                }
                lemma_new_group(pre, (c, led), old_gs);
                assert(leds@ =~= seq![led]);
                assert(gvs(gs@) =~= old_gs.push((c, seq![led])));
            }
        }
        m = m + 1;
    }
    assert(keys@.take(m as int) =~= keys@);
    gs
}

fn before(a: &Group, b: &Group) -> (r: bool)
    ensures
        r == ranks_before(gv(*a), gv(*b)),
{
    let la = a.leds.len();
    let lb = b.leds.len();
    la > lb || (la == lb && (a.color.r < b.color.r || (a.color.r == b.color.r && (a.color.g
        < b.color.g || (a.color.g == b.color.g && a.color.b < b.color.b)))))
}

/// Inserting a group where the scan for its place stopped keeps the order.
proof fn lemma_sorted_insert(o: Seq<(Rgb, Seq<u8>)>, pos: int, x: (Rgb, Seq<u8>))
    requires
        groups_sorted(o),
        0 <= pos <= o.len(),
        forall|p: int| 0 <= p < pos ==> !ranks_before(x, #[trigger] o[p]),
        forall|p: int| 0 <= p < o.len() ==> (#[trigger] o[p]).0 != x.0,
        pos < o.len() ==> ranks_before(x, o[pos]),
    ensures
        groups_sorted(o.insert(pos, x)),
{
    let n = o.insert(pos, x);
    assert forall|p: int| 0 <= p < pos implies ranks_before(#[trigger] o[p], x) by {
        assert(!ranks_before(x, o[p]));
        assert(o[p].0 != x.0);
    }
    assert forall|a: int, b: int| 0 <= a < b < n.len() implies ranks_before(#[trigger] n[a], #[trigger] n[b]) by {
        if a < pos && b > pos {
            assert(n[a] == o[a]);
            assert(n[b] == o[b - 1]);
            assert(ranks_before(o[a], x));
            if b - 1 > pos {
                assert(ranks_before(o[pos], o[b - 1]));
            }
        } else if a > pos {
            assert(n[a] == o[a - 1]);
            assert(n[b] == o[b - 1]);
        } else if b < pos {
            assert(n[a] == o[a]);
            assert(n[b] == o[b]);
        } else if a == pos {
            assert(n[b] == o[b - 1]);
            if b - 1 > pos {
                assert(ranks_before(o[pos], o[b - 1]));
            }
        } else {
            assert(n[a] == o[a]);
        }
    }
}

/// Put exact, distinct-coloured groups into sending order.
fn sort_groups(keys: Ghost<Seq<(Rgb, u8)>>, gs: &Vec<Group>) -> (out: Vec<Group>)
    requires
        colours_distinct(gvs(gs@)),
        groups_exact(keys@, gvs(gs@)),
    ensures
        groups_sorted(gvs(out@)),
        groups_exact(keys@, gvs(out@)),
        forall|j: int| 0 <= j < gs@.len() ==> has_colour(gvs(out@), (#[trigger] gvs(gs@)[j]).0),
{
    let ghost src = gvs(gs@);
    let mut out: Vec<Group> = Vec::new();
    let mut i: usize = 0;
    proof {
        assert(gvs(out@) =~= Seq::<(Rgb, Seq<u8>)>::empty());
    }
    while i < gs.len()
        invariant
            i <= gs@.len(),
            src == gvs(gs@),
            colours_distinct(src),
            groups_exact(keys@, src),
            groups_sorted(gvs(out@)),
            groups_exact(keys@, gvs(out@)),
            forall|p: int, j: int| 0 <= p < out@.len() && i <= j < src.len() ==> (#[trigger] gvs(out@)[p]).0 != (#[trigger] src[j]).0,
            forall|j: int| 0 <= j < i ==> has_colour(gvs(out@), (#[trigger] src[j]).0),
        decreases gs@.len() - i,
    {
        let g = gs[i].clone();
        assert(gv(g) == src[i as int]);
        let mut pos: usize = 0;
        while pos < out.len() && !before(&g, &out[pos])
            invariant
                pos <= out@.len(),
                forall|p: int| 0 <= p < pos ==> !ranks_before(gv(g), #[trigger] gvs(out@)[p]),
            decreases out@.len() - pos,
        {
            pos = pos + 1;
        }
        let ghost o = gvs(out@);
        proof {
            assert forall|p: int| 0 <= p < o.len() implies (#[trigger] o[p]).0 != gv(g).0 by {
                assert(o[p].0 != src[i as int].0);
            }
            lemma_sorted_insert(o, pos as int, gv(g));
        }
        out.insert(pos, g);
        proof {
            let n = gvs(out@);
            assert(n =~= o.insert(pos as int, src[i as int]));
            assert forall|p: int| 0 <= p < n.len() implies (#[trigger] n[p]).1 == leds_of(keys@, n[p].0) && n[p].1.len() > 0 by {
                if p < pos {
                    assert(n[p] == o[p]);
                } else if p > pos {
                    assert(n[p] == o[p - 1]);
                } else {
                    assert(n[p] == src[i as int]);
                }
            }
            assert forall|p: int, j: int| 0 <= p < n.len() && i + 1 <= j < src.len() implies (#[trigger] n[p]).0 != (#[trigger] src[j]).0 by {
                if p < pos {
                    assert(n[p] == o[p]);
                } else if p > pos {
                    assert(n[p] == o[p - 1]);
                } else {
                    assert(n[p] == src[i as int]);
                }
            }
            assert forall|j: int| 0 <= j < i + 1 implies has_colour(n, (#[trigger] src[j]).0) by {
                if j < i {
                    assert(has_colour(o, src[j].0));
                    let p = choose|p: int| 0 <= p < o.len() && (#[trigger] o[p]).0 == src[j].0;
                    if p < pos {
                        assert(n[p] == o[p]);
                    } else {
                        assert(n[p + 1] == o[p]);
                    }
                } else {
                    assert(n[pos as int] == src[i as int]);
                }
            }
        }
        i = i + 1;
    }
    out
}

/// Every lit key on the board, grouped by colour, largest group first.
///
/// `q` is the frame as it will be shown, already snapped to the colours the
/// link carries. Each group lists, in layout order, every laid-out key whose
/// LED fits the one-byte index field and that shows that colour; dark keys
/// are left out. Groups go out by size, most keys first, and equal sizes by
/// colour.
pub fn plan(layout: &[KeyPos], q: &Frame) -> (gs: Vec<Group>)
    ensures
        is_plan(lit_keys(layout@, q@), gvs(gs@)),
{
    let keys = lit_key_list(layout, q);
    let grouped = group_by_colour(&keys);
    let out = sort_groups(Ghost(keys@), &grouped);
    proof {
        let k = keys@;
        let a = gvs(grouped@);
        let o = gvs(out@);
        assert forall|m: int| 0 <= m < k.len() implies has_colour(o, (#[trigger] k[m]).0) by {
            assert(has_colour(a, k[m].0));
            let j = choose|j: int| 0 <= j < a.len() && (#[trigger] a[j]).0 == k[m].0;
            assert(has_colour(o, a[j].0));
        }
    }
    out
}

/// The LEDs a run of groups lights, counted.
pub open spec fn total_leds(gs: Seq<(Rgb, Seq<u8>)>) -> int
    decreases gs.len(),
{
    if gs.len() == 0 {
        0
    } else {
        total_leds(gs.drop_last()) + gs.last().1.len()
    }
}

/// How many keys have a colour among the first `n` groups' colours.
spec fn keys_in_colours(keys: Seq<(Rgb, u8)>, gs: Seq<(Rgb, Seq<u8>)>, n: int) -> int
    decreases n,
{
    if n <= 0 {
        0
    } else {
        keys_in_colours(keys, gs, n - 1) + leds_of(keys, gs[n - 1].0).len()
    }
}

proof fn lemma_total_is_keys_in_colours(keys: Seq<(Rgb, u8)>, gs: Seq<(Rgb, Seq<u8>)>, n: int)
    requires
        0 <= n <= gs.len(),
        groups_exact(keys, gs),
    ensures
        total_leds(gs.take(n)) == keys_in_colours(keys, gs, n),
    decreases n,
{
    if n > 0 {
        lemma_total_is_keys_in_colours(keys, gs, n - 1);
        assert(gs.take(n).drop_last() =~= gs.take(n - 1));
        assert(gs.take(n).last() == gs[n - 1]);
    }
}

/// Adding a key adds one to the count of exactly the colour it has.
proof fn lemma_keys_in_colours_push(keys: Seq<(Rgb, u8)>, x: (Rgb, u8), gs: Seq<(Rgb, Seq<u8>)>, n: int)
    requires
        0 <= n <= gs.len(),
        colours_distinct(gs),
    ensures
        keys_in_colours(keys.push(x), gs, n) == keys_in_colours(keys, gs, n) + (if exists|i: int|
            0 <= i < n && (#[trigger] gs[i]).0 == x.0 {
            1int
        } else {
            0
        }),
    decreases n,
{
    if n > 0 {
        lemma_keys_in_colours_push(keys, x, gs, n - 1);
        lemma_leds_of_push(keys, x, gs[n - 1].0);
        if gs[n - 1].0 == x.0 {
            assert forall|i: int| 0 <= i < n - 1 implies (#[trigger] gs[i]).0 != x.0 by {
                assert(gs[i].0 != gs[n - 1].0);
            }
        } else {
            if exists|i: int| 0 <= i < n && (#[trigger] gs[i]).0 == x.0 {
                let i = choose|i: int| 0 <= i < n && (#[trigger] gs[i]).0 == x.0;
                assert(i < n - 1);
            }
        }
    }
}

proof fn lemma_keys_in_colours_covered(keys: Seq<(Rgb, u8)>, gs: Seq<(Rgb, Seq<u8>)>)
    requires
        colours_distinct(gs),
        forall|m: int| 0 <= m < keys.len() ==> has_colour(gs, (#[trigger] keys[m]).0),
    ensures
        keys_in_colours(keys, gs, gs.len() as int) == keys.len(),
    decreases keys.len(),
{
    if keys.len() == 0 {
        assert forall|n: int| 0 <= n <= gs.len() implies keys_in_colours(keys, gs, n) == 0 by {
            lemma_keys_in_colours_empty(keys, gs, n);
        }
    } else {
        let pre = keys.drop_last();
        let x = keys.last();
        assert forall|m: int| 0 <= m < pre.len() implies has_colour(gs, (#[trigger] pre[m]).0) by {
            assert(pre[m] == keys[m]);
        }
        lemma_keys_in_colours_covered(pre, gs);
        assert(keys == pre.push(x));
        lemma_keys_in_colours_push(pre, x, gs, gs.len() as int);
        assert(has_colour(gs, keys[keys.len() - 1].0));
    }
}

proof fn lemma_keys_in_colours_empty(keys: Seq<(Rgb, u8)>, gs: Seq<(Rgb, Seq<u8>)>, n: int)
    requires
        keys.len() == 0,
        0 <= n <= gs.len(),
    ensures
        keys_in_colours(keys, gs, n) == 0,
    decreases n,
{
    if n > 0 {
        lemma_keys_in_colours_empty(keys, gs, n - 1);
    }
}

/// A plan sends every lit key exactly once: the groups, each exactly the
/// keys of its colour, together hold as many LEDs as there are lit keys.
pub proof fn lemma_plan_sends_every_key_once(keys: Seq<(Rgb, u8)>, gs: Seq<(Rgb, Seq<u8>)>)
    requires
        is_plan(keys, gs),
    ensures
        total_leds(gs) == keys.len(),
        forall|m: int| 0 <= m < keys.len() ==> exists|i: int| 0 <= i < gs.len() && (#[trigger] gs[i]).0 == (#[trigger] keys[m]).0 && gs[i].1 == leds_of(keys, keys[m].0),
{
    assert forall|i: int, j: int| 0 <= i < j < gs.len() implies (#[trigger] gs[i]).0 != (#[trigger] gs[j]).0 by {
        assert(ranks_before(gs[i], gs[j]));
        if gs[i].0 == gs[j].0 {
            assert(gs[i].1 == leds_of(keys, gs[i].0));
            assert(gs[j].1 == leds_of(keys, gs[j].0));
        }
    }
    lemma_total_is_keys_in_colours(keys, gs, gs.len() as int);
    assert(gs.take(gs.len() as int) =~= gs);
    lemma_keys_in_colours_covered(keys, gs);
    assert forall|m: int| 0 <= m < keys.len() implies exists|i: int| 0 <= i < gs.len() && (#[trigger] gs[i]).0 == (#[trigger] keys[m]).0 && gs[i].1 == leds_of(keys, keys[m].0) by {
        assert(has_colour(gs, keys[m].0));
    }
}

/// There are no more lit keys than keys.
pub proof fn lemma_lit_keys_len(layout: Seq<KeyPos>, q: Seq<Rgb>)
    ensures
        lit_keys(layout, q).len() <= layout.len(),
    decreases layout.len(),
{
    if layout.len() > 0 {
        lemma_lit_keys_len(layout.drop_last(), q);
    }
}

proof fn lemma_total_first(gs: Seq<(Rgb, Seq<u8>)>)
    requires
        gs.len() > 0,
    ensures
        total_leds(gs) == gs[0].1.len() + total_leds(gs.drop_first()),
    decreases gs.len(),
{
    let dl = gs.drop_last();
    let df = gs.drop_first();
    if gs.len() > 1 {
        lemma_total_first(dl);
        assert(dl.drop_first() =~= df.drop_last());
        assert(df.last() == gs.last());
        assert(dl[0] == gs[0]);
        assert(total_leds(df) == total_leds(df.drop_last()) + df.last().1.len());
        assert(total_leds(gs) == total_leds(dl) + gs.last().1.len());
    } else {
        assert(df.len() == 0);
        assert(dl.len() == 0);
        assert(total_leds(gs) == total_leds(dl) + gs.last().1.len());
        assert(gs.last() == gs[0]);
    }
}

proof fn lemma_total_nonneg(gs: Seq<(Rgb, Seq<u8>)>)
    ensures
        total_leds(gs) >= 0,
    decreases gs.len(),
{
    if gs.len() > 0 {
        lemma_total_nonneg(gs.drop_last());
    }
}

/// Packing groups into a message never sends more LEDs than the groups hold.
pub proof fn lemma_sent_total_le(gs: Seq<(Rgb, Seq<u8>)>, budget: int, used: int)
    ensures
        total_leds(spec_sent(gs, budget, used)) <= total_leds(gs),
    decreases gs.len(),
{
    lemma_total_nonneg(gs);
    if gs.len() > 0 {
        lemma_total_first(gs);
        lemma_total_nonneg(gs.drop_first());
        if gs[0].1.len() == 0 {
            lemma_sent_total_le(gs.drop_first(), budget, used);
        } else {
            let room = if budget > used { budget - used } else { 0 };
            if room >= MIN_GROUP {
                let fits = fits_in(room, gs[0].1.len() as int);
                let g = (gs[0].0, gs[0].1.take(fits));
                if fits < gs[0].1.len() {
                    assert(spec_sent(gs, budget, used) == seq![g]);
                    lemma_total_first(seq![g]);
                    assert(seq![g].drop_first().len() == 0);
                } else {
                    let rest = spec_sent(gs.drop_first(), budget, used + 4 + fits);
                    lemma_sent_total_le(gs.drop_first(), budget, used + 4 + fits);
                    let whole = seq![g] + rest;
                    lemma_total_first(whole);
                    assert(whole.drop_first() =~= rest);
                    assert(whole[0] == g);
                }
            }
        }
    }
}

} // verus!
