//! Window label identity. The window id namespaces a window's tab labels (labels are app-global,
//! so two windows sharing a repo would otherwise collide). It is derived from the title via the
//! frozen FNV-1a hash, so it is stable across runs and toolchains.

use vstd::prelude::*;
use crate::hash::{fnv1a_64, spec_fnv1a_64};
use crate::text::{hex16, hex_fixed, push_hex, push_str, string_of, chars_of};

verus! {

/// The window id of a window titled `title`: `w` followed by the 16 lowercase hex digits of the
/// FNV-1a hash of the title's UTF-8 bytes.
pub open spec fn spec_window_id(title: Seq<char>) -> Seq<char> {
    seq!['w'] + hex16(spec_fnv1a_64(vstd::utf8::encode_utf8(title)))
}

/// `window_id:within`.
pub open spec fn spec_namespaced(window_id: Seq<char>, within: Seq<char>) -> Seq<char> {
    window_id + seq![':'] + within
}

/// Index of the first `:` in `s`, or `s.len()` when there is none.
pub open spec fn first_colon(s: Seq<char>) -> nat
    decreases s.len(),
{
    if s.len() == 0 {
        0
    } else if s[0] == ':' {
        0
    } else {
        1 + first_colon(s.drop_first())
    }
}

/// The window a label belongs to: everything before its first `:` (the whole label when it has
/// none) — `label.split(':').next()`.
pub open spec fn spec_window_of(label: Seq<char>) -> Seq<char> {
    label.take(first_colon(label) as int)
}

/// Whether `c` is a lowercase hex digit.
pub open spec fn is_lower_hex(c: char) -> bool {
    ('0' <= c && c <= '9') || ('a' <= c && c <= 'f')
}

/// `hex_fixed` yields exactly `width` lowercase hex digits.
pub proof fn lemma_hex_fixed_shape(x: nat, width: nat)
    ensures
        hex_fixed(x, width).len() == width,
        forall|i: int| 0 <= i < width ==> is_lower_hex(#[trigger] hex_fixed(x, width)[i]),
    decreases width,
{
    if width > 0 {
        lemma_hex_fixed_shape(x / 16, (width - 1) as nat);
        let d = x % 16;
        assert(crate::text::HEX_LOWER@ == seq![
            '0', '1', '2', '3', '4', '5', '6', '7', '8', '9', 'a', 'b', 'c', 'd', 'e', 'f',
        ]);
        assert(is_lower_hex(crate::text::HEX_LOWER@[d as int]));
    }
}

/// A label-safe window id from the window title: `w` plus 16 lowercase hex digits, so `:` can
/// join it to a within-window label. Deterministic: the same title always gives the same id.
pub fn window_id(title: &str) -> (id: String)
    ensures
        id@ == spec_window_id(title@),
        id@.len() == 17,
        id@[0] == 'w',
        forall|i: int| 1 <= i < 17 ==> is_lower_hex(#[trigger] id@[i]),
{
    let bytes = title.as_bytes();
    let h = fnv1a_64(bytes);
    let mut v: Vec<char> = Vec::new();
    v.push('w');
    push_hex(&mut v, h, 16);
    proof {
        lemma_hex_fixed_shape(h as nat, 16);
        assert(v@ =~= spec_window_id(title@));
        assert forall|i: int| 1 <= i < 17 implies is_lower_hex(#[trigger] v@[i]) by {
            assert(v@[i] == hex16(h)[i - 1]);
        }
    }
    string_of(&v)
}

/// Namespace a within-window label (such as `chrome` or `tab-<hash>`) under a window id.
pub fn namespaced(window_id: &str, within: &str) -> (label: String)
    ensures
        label@ == spec_namespaced(window_id@, within@),
{
    let mut v: Vec<char> = Vec::new();
    push_str(&mut v, window_id);
    v.push(':');
    push_str(&mut v, within);
    string_of(&v)
}

/// The token naming a popped-out tab's detached window. A content-webview label is already
/// `{window_id}:tab-<hash>` — unique across windows and label-safe — so it is the token itself.
pub fn detach_window_token(tab_label: &str) -> (token: String)
    ensures
        token@ == tab_label@,
{
    tab_label.to_owned()
}

/// The window id a label is namespaced under: everything before its first `:`.
pub fn window_of(label: &str) -> (window: String)
    ensures
        window@ == spec_window_of(label@),
{
    let cs = chars_of(label);
    let mut i: usize = 0;
    assert(label@.subrange(0, label@.len() as int) =~= label@);
    while i < cs.len() && cs[i] != ':'
        invariant
            cs@ == label@,
            i <= cs@.len(),
            first_colon(label@) == i + first_colon(label@.subrange(i as int, label@.len() as int)),
        decreases cs@.len() - i,
    {
        assert(label@.subrange(i as int, label@.len() as int).drop_first() =~= label@.subrange(
            i + 1,
            label@.len() as int,
        ));
        i += 1;
    }
    assert(first_colon(label@.subrange(i as int, label@.len() as int)) == 0);
    let mut w: Vec<char> = Vec::new();
    let mut j: usize = 0;
    while j < i
        invariant
            cs@ == label@,
            j <= i <= cs@.len(),
            first_colon(label@) == i,
            w@ == label@.take(j as int),
        decreases i - j,
    {
        w.push(cs[j]);
        assert(label@.take(j + 1) =~= label@.take(j as int).push(label@[j as int]));
        j += 1;
    }
    string_of(&w)
}

/// A label made by `namespaced` belongs to the window it was namespaced under, whenever that
/// window id has no `:` of its own (which holds of every id `window_id` makes).
pub proof fn lemma_window_of_namespaced(window_id: Seq<char>, within: Seq<char>)
    requires
        forall|i: int| 0 <= i < window_id.len() ==> window_id[i] != ':',
    ensures
        first_colon(spec_namespaced(window_id, within)) == window_id.len(),
        spec_window_of(spec_namespaced(window_id, within)) == window_id,
    decreases window_id.len(),
{
    let l = spec_namespaced(window_id, within);
    if window_id.len() == 0 {
        assert(l[0] == ':');
    } else {
        let rest = window_id.drop_first();
        assert(l.drop_first() =~= spec_namespaced(rest, within));
        lemma_window_of_namespaced(rest, within);
        assert(l[0] == window_id[0]);
    }
    assert(l.take(window_id.len() as int) =~= window_id);
}

/// Window ids contain no `:`, so a tab label namespaced under one maps back to it.
pub proof fn lemma_window_id_has_no_colon(title: Seq<char>)
    ensures
        forall|i: int| 0 <= i < spec_window_id(title).len() ==> spec_window_id(title)[i] != ':',
{
    let h = spec_fnv1a_64(vstd::utf8::encode_utf8(title));
    lemma_hex_fixed_shape(h as nat, 16);
    assert forall|i: int| 0 <= i < spec_window_id(title).len() implies spec_window_id(title)[i]
        != ':' by {
        if i > 0 {
            assert(spec_window_id(title)[i] == hex16(h)[i - 1]);
            assert(is_lower_hex(hex16(h)[i - 1]));
        }
    }
}

} // verus!
