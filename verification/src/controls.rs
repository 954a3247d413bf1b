use vstd::prelude::*;

use crate::parse::{
    decimal_text, is_digit, lemma_decimal_text_value, lemma_parse_i64_signed_text,
    lemma_parse_usize_decimal_text, parse_i64_in, parse_usize_in, signed_text, spec_parse_i64,
    spec_parse_usize,
};

verus! {

/// The view settings that the control panel drives: rotation about each axis,
/// camera position, how many windows are drawn, where the first window starts,
/// and the field of view.
pub struct Controls {
    pub rotx: i64,
    pub roty: i64,
    pub rotz: i64,
    pub posx: i64,
    pub posy: i64,
    pub posz: i64,
    pub buf: i64,
    pub ind: i64,
    pub fov: i64,
}

/// Takes the nine slider values of the control panel into the view settings.
/// Slots 0 to 5 are the rotations and positions, slot 6 the window count
/// ("vertices to render", in hundreds), slot 7 the start index and slot 8 the
/// field of view.
pub fn update(incoming: [i64; 9]) -> (c: Controls)
    ensures
        c.rotx == incoming@[0],
        c.roty == incoming@[1],
        c.rotz == incoming@[2],
        c.posx == incoming@[3],
        c.posy == incoming@[4],
        c.posz == incoming@[5],
        c.buf == incoming@[6],
        c.ind == incoming@[7],
        c.fov == incoming@[8],
{
    Controls {
        rotx: incoming[0],
        roty: incoming[1],
        rotz: incoming[2],
        posx: incoming[3],
        posy: incoming[4],
        posz: incoming[5],
        buf: incoming[6],
        ind: incoming[7],
        fov: incoming[8],
    }
}

/// Position of the last `'|'` in `s`, if there is one.
pub open spec fn last_bar(s: Seq<u8>) -> Option<int>
    decreases s.len(),
{
    if s.len() == 0 {
        None
    } else if s.last() == 124u8 {
        Some(s.len() - 1)
    } else {
        last_bar(s.drop_last())
    }
}

/// A control message `index|value`, split at its last `'|'`: the text before
/// it read as a slot index, the text after it as the new value.
pub open spec fn spec_gettuple(s: Seq<u8>) -> Option<(usize, i64)> {
    match last_bar(s) {
        Some(p) => match (spec_parse_usize(s.take(p)), spec_parse_i64(s.skip(p + 1))) {
            (Some(index), Some(value)) => Some((index, value)),
            _ => None,
        },
        None => None,
    }
}

/// Finds the last `'|'` in `s`.
fn find_last_bar(s: &[u8]) -> (r: Option<usize>)
    ensures
        r matches Some(p) ==> last_bar(s@) == Some(p as int) && p < s@.len(),
        r is None ==> last_bar(s@) is None,
{
    let mut i: usize = s.len();
    assert(s@.take(i as int) =~= s@);
    while i > 0
        invariant
            i <= s@.len(),
            last_bar(s@) == last_bar(s@.take(i as int)),
        decreases i,
    {
        assert(s@.take(i as int).drop_last() =~= s@.take(i - 1));
        if s[i - 1] == 124u8 {
            return Some(i - 1);
        }
        i = i - 1;
    }
    None
}

/// Reads a control message `index|value`: the slot index before the last
/// `'|'` and the value after it. `None` where there is no `'|'` or either
/// part is not a number of its type: these are the messages on which the
/// control panel's handler fails (it panics on them), so a caller that meets
/// `None` is to stop as that handler does.
pub fn gettuple(msg: &[u8]) -> (r: Option<(usize, i64)>)
    ensures
        r == spec_gettuple(msg@),
{
    let len: usize = msg.len();
    match find_last_bar(msg) {
        Some(p) => {
            assert(msg@.take(p as int) =~= msg@.subrange(0, p as int));
            assert(msg@.skip(p + 1) =~= msg@.subrange(p + 1, msg@.len() as int));
            let index = parse_usize_in(msg, 0, p);
            let value = parse_i64_in(msg, p + 1, len);
            match (index, value) {
                (Some(i), Some(v)) => Some((i, v)),
                _ => None,
            }
        },
        None => None,
    }
}

/// Applies a control message to the nine slider values: the slot that it
/// names takes its value, every other slot keeps its own. `None` where the
/// message does not read (see `gettuple`) or names no slot (an index of 9 or
/// more). `None` stands for the control panel handler's failure on such a
/// message (it panics, the panel's own `open` and `exit` buttons included):
/// no values are to be passed on for it.
pub fn apply_message(values: [i64; 9], msg: &[u8]) -> (r: Option<[i64; 9]>)
    ensures
        r is Some <==> (spec_gettuple(msg@) matches Some((i, v)) && i < 9),
        spec_gettuple(msg@) matches Some((i, v)) ==> (r matches Some(a) ==> a@ == values@.update(
            i as int,
            v,
        )),
{
    match gettuple(msg) {
        Some((i, v)) => {
            if i < 9 {
                let mut a = values;
                a[i] = v;
                assert(a@ =~= values@.update(i as int, v));
                Some(a)
            } else {
                None
            }
        },
        None => None,
    }
}


/// The message that the control panel sends to set slot `index` to `value`:
/// both in decimal, joined by `'|'`.
pub open spec fn control_message(index: usize, value: i64) -> Seq<u8> {
    decimal_text(index as nat) + seq![124u8] + signed_text(value as int)
}

/// Bytes after the last `'|'` that hold no `'|'` do not move it.
proof fn lemma_last_bar_barless_tail(s: Seq<u8>, b: Seq<u8>)
    requires
        forall|i: int| 0 <= i < b.len() ==> b[i] != 124u8,
    ensures
        last_bar(s + b) == last_bar(s),
    decreases b.len(),
{
    if b.len() == 0 {
        assert(s + b =~= s);
    } else {
        lemma_last_bar_barless_tail(s, b.drop_last());
        assert((s + b).drop_last() =~= s + b.drop_last());
    }
}

/// The control panel's message for a slot and a value reads back as exactly
/// that slot and that value.
pub proof fn lemma_control_message_round_trip(index: usize, value: i64)
    ensures
        spec_gettuple(control_message(index, value)) == Some((index, value)),
{
    let a = decimal_text(index as nat);
    let t = signed_text(value as int);
    let m = control_message(index, value);
    lemma_decimal_text_value(index as nat);
    lemma_parse_usize_decimal_text(index);
    lemma_parse_i64_signed_text(value);
    if value < 0 {
        lemma_decimal_text_value((-value) as nat);
        assert forall|i: int| 0 <= i < t.len() implies t[i] != 124u8 by {
            if i > 0 {
                assert(t[i] == decimal_text((-value) as nat)[i - 1]);
                assert(is_digit(decimal_text((-value) as nat)[i - 1]));
            }
        }
    } else {
        lemma_decimal_text_value(value as nat);
        assert forall|i: int| 0 <= i < t.len() implies t[i] != 124u8 by {
            assert(is_digit(t[i]));
        }
    }
    let head = a + seq![124u8];
    assert(m =~= head + t);
    lemma_last_bar_barless_tail(head, t);
    assert(head.drop_last() =~= a);
    assert(last_bar(m) == Some(a.len() as int));
    assert(m.take(a.len() as int) =~= a);
    assert(m.skip(a.len() as int + 1) =~= t);
}


/// A message is split at its last `'|'`: whatever comes before it, when the
/// text after it holds no `'|'`, the index is read from the text before and
/// the value from the text after; the message reads only when both do.
pub proof fn lemma_gettuple_split(a: Seq<u8>, b: Seq<u8>)
    requires
        forall|i: int| 0 <= i < b.len() ==> b[i] != 124u8,
    ensures
        spec_gettuple(a + seq![124u8] + b) == (match (spec_parse_usize(a), spec_parse_i64(b)) {
            (Some(index), Some(value)) => Some((index, value)),
            _ => None,
        }),
{
    let head = a + seq![124u8];
    let m = a + seq![124u8] + b;
    lemma_last_bar_barless_tail(head, b);
    assert(head.drop_last() =~= a);
    assert(last_bar(m) == Some(a.len() as int));
    assert(m.take(a.len() as int) =~= a);
    assert(m.skip(a.len() as int + 1) =~= b);
}

/// A message without any `'|'` does not read.
pub proof fn lemma_gettuple_needs_bar(s: Seq<u8>)
    requires
        forall|i: int| 0 <= i < s.len() ==> s[i] != 124u8,
    ensures
        spec_gettuple(s) is None,
{
    lemma_last_bar_barless_tail(Seq::<u8>::empty(), s);
    assert(Seq::<u8>::empty() + s =~= s);
}

} // verus!
