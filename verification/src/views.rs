//! Resolving a window's tabs into the ordered rows the sidebar shows, each with a stable label.
//!
//! A tab's label is derived from its repo's canonicalized dir, not from its title or position:
//! `{window_id}:tab-{fnv1a(dir) as 16 hex digits}`, with `-1`, `-2`, … appended to the second,
//! third, … tab of the window whose dir yields the same label. Retitling, reordering or inserting
//! tabs therefore never remaps an existing tab's webview. Canonicalizing a dir touches the
//! filesystem, so the canonical bytes of each tab's dir (`keys`) come in from the caller.

use vstd::prelude::*;
use crate::config::{Group, OpenOnLaunch, Tab, WindowConfig};
use crate::hash::{fnv1a_64, spec_fnv1a_64};
use crate::identity::{
    lemma_hex_fixed_shape, lemma_window_id_has_no_colon, lemma_window_of_namespaced, namespaced,
    spec_namespaced, spec_window_id, spec_window_of, window_id,
};
use crate::text::{
    chars_eq, chars_of, copy_opt_string, copy_strings, decimal, hex16, lemma_decimal_injective,
    lemma_decimal_len, push_decimal, push_hex, string_of,
};

verus! {

/// One resolved sidebar row.
#[derive(Debug, Clone, PartialEq)]
pub struct TabView {
    pub label: String,
    /// The group this tab renders under, or `None` for a loose (ungrouped) tab.
    pub group: Option<String>,
    pub title: String,
    pub dir: String,
    pub load_on_open: bool,
    /// A project-tree (root)-discovered row; `false` for every curated tab.
    pub tree: bool,
    /// Folder segments between the root dir and this project (empty for curated tabs).
    pub tree_path: Vec<String>,
}

impl TabView {
    /// An owned copy.
    pub fn copy(&self) -> (r: TabView)
        ensures
            r.label == self.label,
            r.group == self.group,
            r.title == self.title,
            r.dir == self.dir,
            r.load_on_open == self.load_on_open,
            r.tree == self.tree,
            r.tree_path@ == self.tree_path@,
    {
        TabView {
            label: self.label.clone(),
            group: copy_opt_string(&self.group),
            title: self.title.clone(),
            dir: self.dir.clone(),
            load_on_open: self.load_on_open,
            tree: self.tree,
            tree_path: copy_strings(&self.tree_path),
        }
    }
}

/// The within-window label of a dir whose canonical path has the bytes `key`.
pub open spec fn spec_dir_label(key: Seq<u8>) -> Seq<char> {
    seq!['t', 'a', 'b', '-'] + hex16(spec_fnv1a_64(key))
}

/// Stable within-window tab label from a dir's canonical path bytes: `tab-` and the 16 hex
/// digits of their FNV-1a hash. Position- and title-independent.
pub fn dir_label(key: &[u8]) -> (label: String)
    ensures
        label@ == spec_dir_label(key@),
{
    let h = fnv1a_64(key);
    let mut v: Vec<char> = Vec::new();
    v.push('t');
    v.push('a');
    v.push('b');
    v.push('-');
    push_hex(&mut v, h, 16);
    string_of(&v)
}

/// A window's loose tabs, each with no group.
pub open spec fn loose_entries(w: WindowConfig) -> Seq<(Tab, Option<String>)> {
    Seq::new(w.tabs@.len(), |i: int| (w.tabs@[i], None::<String>))
}

/// A group's tabs, each with the group's name.
pub open spec fn group_entries(g: Group) -> Seq<(Tab, Option<String>)> {
    Seq::new(g.tabs@.len(), |j: int| (g.tabs@[j], Some(g.name)))
}

/// The tabs of a run of groups, in order.
pub open spec fn groups_entries(gs: Seq<Group>) -> Seq<(Tab, Option<String>)>
    decreases gs.len(),
{
    if gs.len() == 0 {
        Seq::empty()
    } else {
        groups_entries(gs.drop_last()) + group_entries(gs.last())
    }
}

/// A window's tabs in render order — loose tabs first, then each group's — with their group.
pub open spec fn tab_entries(w: WindowConfig) -> Seq<(Tab, Option<String>)> {
    loose_entries(w) + groups_entries(w.groups@)
}

/// How many times `b` occurs in `s`.
pub open spec fn occurrences(s: Seq<Seq<char>>, b: Seq<char>) -> nat
    decreases s.len(),
{
    if s.len() == 0 {
        0
    } else {
        occurrences(s.drop_last(), b) + if s.last() == b {
            1nat
        } else {
            0nat
        }
    }
}

/// The dir labels of the tabs whose canonical path bytes are `keys`.
pub open spec fn entry_bases(keys: Seq<Vec<u8>>) -> Seq<Seq<char>> {
    keys.map_values(|k: Vec<u8>| spec_dir_label(k@))
}

/// The within-window label of the `i`th of the tabs whose dir labels are `bases`: its dir
/// label, suffixed `-n` when `n > 0` earlier tabs share that dir label.
pub open spec fn within_label(bases: Seq<Seq<char>>, i: int) -> Seq<char> {
    let n = occurrences(bases.take(i), bases[i]);
    if n == 0 {
        bases[i]
    } else {
        bases[i] + seq!['-'] + decimal(n)
    }
}

/// The label of window `w`'s `i`th tab, given its tabs' canonical path bytes.
pub open spec fn spec_tab_label(w: WindowConfig, keys: Seq<Vec<u8>>, i: int) -> Seq<char> {
    spec_namespaced(spec_window_id(w.title@), within_label(entry_bases(keys), i))
}

/// `v` is the resolved row for window `w`'s `i`th tab.
pub open spec fn is_curated_view(v: TabView, w: WindowConfig, keys: Seq<Vec<u8>>, i: int) -> bool {
    let e = tab_entries(w)[i];
    &&& v.label@ == spec_tab_label(w, keys, i)
    &&& v.group == e.1
    &&& v.title == e.0.title
    &&& v.dir == e.0.dir
    &&& v.load_on_open == e.0.load_on_open
    &&& !v.tree
    &&& v.tree_path@.len() == 0
}

/// The views of a list of char vectors.
pub open spec fn char_seqs(v: Seq<Vec<char>>) -> Seq<Seq<char>> {
    v.map_values(|c: Vec<char>| c@)
}

/// How many of the first `k` of `bases` equal `b`.
fn count_occurrences(bases: &Vec<Vec<char>>, k: usize, b: &Vec<char>) -> (n: usize)
    requires
        k <= bases@.len(),
    ensures
        n == occurrences(char_seqs(bases@).take(k as int), b@),
        n <= k,
{
    let mut j: usize = 0;
    let mut n: usize = 0;
    assert(char_seqs(bases@).take(0) =~= Seq::<Seq<char>>::empty());
    while j < k
        invariant
            k <= bases@.len(),
            j <= k,
            n <= j,
            n == occurrences(char_seqs(bases@).take(j as int), b@),
        decreases k - j,
    {
        assert(char_seqs(bases@).take(j + 1).drop_last() =~= char_seqs(bases@).take(j as int));
        if chars_eq(&bases[j], b) {
            n += 1;
        }
        j += 1;
    }
    n
}

/// The tabs of `g`, each paired with the group's name, appended to `out`.
fn push_group_entries(out: &mut Vec<(Tab, Option<String>)>, g: &Group)
    ensures
        final(out)@ == old(out)@ + group_entries(*g),
{
    let mut j: usize = 0;
    while j < g.tabs.len()
        invariant
            j <= g.tabs@.len(),
            out@ == old(out)@ + group_entries(*g).take(j as int),
        decreases g.tabs@.len() - j,
    {
        out.push((g.tabs[j].copy(), Some(g.name.clone())));
        assert(group_entries(*g).take(j + 1) =~= group_entries(*g).take(j as int).push(
            (g.tabs@[j as int], Some(g.name)),
        ));
        j += 1;
    }
    assert(group_entries(*g).take(j as int) =~= group_entries(*g));
}

impl WindowConfig {
    /// This window's tabs in render order (loose first, then each group), with their group.
    pub fn entries(&self) -> (es: Vec<(Tab, Option<String>)>)
        ensures
            es@ == tab_entries(*self),
    {
        let mut es: Vec<(Tab, Option<String>)> = Vec::new();
        let mut i: usize = 0;
        while i < self.tabs.len()
            invariant
                i <= self.tabs@.len(),
                es@ == loose_entries(*self).take(i as int),
            decreases self.tabs@.len() - i,
        {
            es.push((self.tabs[i].copy(), None));
            assert(loose_entries(*self).take(i + 1) =~= loose_entries(*self).take(i as int).push(
                (self.tabs@[i as int], None::<String>),
            ));
            i += 1;
        }
        assert(loose_entries(*self).take(i as int) =~= loose_entries(*self));
        let mut g: usize = 0;
        assert(self.groups@.take(0) =~= Seq::<Group>::empty());
        while g < self.groups.len()
            invariant
                g <= self.groups@.len(),
                es@ == loose_entries(*self) + groups_entries(self.groups@.take(g as int)),
            decreases self.groups@.len() - g,
        {
            push_group_entries(&mut es, &self.groups[g]);
            assert(self.groups@.take(g + 1).drop_last() =~= self.groups@.take(g as int));
            assert(es@ =~= loose_entries(*self) + groups_entries(self.groups@.take(g + 1)));
            g += 1;
        }
        assert(self.groups@.take(g as int) =~= self.groups@);
        es
    }

    /// The dirs of this window's tabs, in render order — the dirs whose canonical path bytes
    /// [`tab_views`](Self::tab_views) needs, in the order it needs them.
    pub fn tab_dirs(&self) -> (dirs: Vec<String>)
        ensures
            dirs@.len() == tab_entries(*self).len(),
            forall|i: int| 0 <= i < dirs@.len() ==> dirs@[i] == tab_entries(*self)[i].0.dir,
    {
        let es = self.entries();
        let mut dirs: Vec<String> = Vec::new();
        let mut i: usize = 0;
        while i < es.len()
            invariant
                es@ == tab_entries(*self),
                i <= es@.len(),
                dirs@.len() == i,
                forall|k: int| 0 <= k < i ==> dirs@[k] == es@[k].0.dir,
            decreases es@.len() - i,
        {
            dirs.push(es[i].0.dir.clone());
            i += 1;
        }
        dirs
    }

    /// Flatten this window's loose tabs and groups into ordered rows with stable labels (file
    /// order: loose tabs first as a headerless section, then each group). `keys[i]` holds the
    /// canonical path bytes of the `i`th tab's dir, in the order of [`tab_dirs`](Self::tab_dirs).
    /// No two rows of a window share a label, even when their dirs are the same.
    pub fn tab_views(&self, keys: &Vec<Vec<u8>>) -> (views: Vec<TabView>)
        requires
            keys@.len() == tab_entries(*self).len(),
        ensures
            views@.len() == tab_entries(*self).len(),
            forall|i: int| 0 <= i < views@.len() ==> is_curated_view(#[trigger] views@[i], *self, keys@, i),
            forall|i: int, j: int|
                0 <= i < views@.len() && 0 <= j < views@.len() && i != j ==> (#[trigger] views@[i]).label@
                    != (#[trigger] views@[j]).label@,
    {
        let wid = window_id(self.title.as_str());
        let es = self.entries();
        let mut views: Vec<TabView> = Vec::new();
        let mut bases: Vec<Vec<char>> = Vec::new();
        let mut i: usize = 0;
        while i < es.len()
            invariant
                es@ == tab_entries(*self),
                keys@.len() == es@.len(),
                wid@ == spec_window_id(self.title@),
                i <= es@.len(),
                views@.len() == i,
                bases@.len() == i,
                char_seqs(bases@) == entry_bases(keys@).take(i as int),
                forall|k: int| 0 <= k < i ==> is_curated_view(#[trigger] views@[k], *self, keys@, k),
            decreases es@.len() - i,
        {
            let base = dir_label(keys[i].as_slice());
            let bc = chars_of(base.as_str());
            let n = count_occurrences(&bases, i, &bc);
            let mut within = bc.clone();
            assert(within@ == bc@);
            if n > 0 {
                within.push('-');
                push_decimal(&mut within, n as u64);
            }
            proof {
                assert(entry_bases(keys@)[i as int] == bc@);
                assert(entry_bases(keys@).take(i as int) == char_seqs(bases@).take(i as int));
                assert(within@ =~= within_label(entry_bases(keys@), i as int));
            }
            let label = namespaced(wid.as_str(), string_of(&within).as_str());
            let e = &es[i];
            views.push(
                TabView {
                    label,
                    group: copy_opt_string(&e.1),
                    title: e.0.title.clone(),
                    dir: e.0.dir.clone(),
                    load_on_open: e.0.load_on_open,
                    tree: false,
                    tree_path: Vec::new(),
                },
            );
            let ghost old_bases = bases@;
            bases.push(bc);
            proof {
                assert(char_seqs(bases@) =~= char_seqs(old_bases).push(bc@));
                assert(entry_bases(keys@).take(i + 1) =~= entry_bases(keys@).take(i as int).push(
                    entry_bases(keys@)[i as int],
                ));
            }
            i += 1;
        }
        proof {
            assert forall|a: int, b: int|
                0 <= a < views@.len() && 0 <= b < views@.len() && a != b implies (#[trigger] views@[a]).label@
                    != (#[trigger] views@[b]).label@ by {
                assert(is_curated_view(views@[a], *self, keys@, a));
                assert(is_curated_view(views@[b], *self, keys@, b));
                lemma_tab_labels_distinct(*self, keys@, a, b);
            }
        }
        views
    }

    /// Label of the tab to make active on launch. Default (`false`/unset): the first
    /// `load_on_open` tab, else `None` (blank). `true`: the first tab even if cold. A title: the
    /// first tab with that title, else the first tab.
    pub fn startup_label(&self, keys: &Vec<Vec<u8>>) -> (label: Option<String>)
        requires
            keys@.len() == tab_entries(*self).len(),
        ensures
            match startup_index(*self) {
                Some(i) => label matches Some(l) && l@ == spec_tab_label(*self, keys@, i as int),
                None => label is None,
            },
    {
        let views = self.tab_views(keys);
        let ghost es = tab_entries(*self);
        match &self.open_on_launch {
            OpenOnLaunch::Toggle(false) => {
                let mut i: usize = 0;
                while i < views.len()
                    invariant
                        self.open_on_launch == OpenOnLaunch::Toggle(false),
                        es == tab_entries(*self),
                        views@.len() == es.len(),
                        forall|k: int| 0 <= k < views@.len() ==> is_curated_view(#[trigger] views@[k], *self, keys@, k),
                        i <= views@.len(),
                        forall|k: int| 0 <= k < i ==> !(#[trigger] es[k]).0.load_on_open,
                    decreases views@.len() - i,
                {
                    assert(is_curated_view(views@[i as int], *self, keys@, i as int));
                    if views[i].load_on_open {
                        proof {
                            let flags = loaded_flags(es);
                            assert(views@[i as int].load_on_open == es[i as int].0.load_on_open);
                            assert(flags[i as int] == es[i as int].0.load_on_open);
                            assert(flags[i as int]);
                            assert forall|k: int| 0 <= k < i implies !flags[k] by {
                                assert(!es[k].0.load_on_open);
                            }
                            lemma_first_index_is(flags, i as int);
                        }
                        return Some(views[i].label.clone());
                    }
                    i += 1;
                }
                proof {
                    let flags = loaded_flags(es);
                    assert forall|k: int| 0 <= k < flags.len() implies !flags[k] by {
                        assert(!es[k].0.load_on_open);
                    }
                    lemma_first_index_none(flags);
                }
                None
            },
            OpenOnLaunch::Toggle(true) => {
                if views.len() > 0 {
                    assert(is_curated_view(views@[0], *self, keys@, 0));
                    Some(views[0].label.clone())
                } else {
                    None
                }
            },
            OpenOnLaunch::Tab(title) => {
                let mut i: usize = 0;
                while i < views.len()
                    invariant
                        self.open_on_launch == OpenOnLaunch::Tab(*title),
                        es == tab_entries(*self),
                        views@.len() == es.len(),
                        forall|k: int| 0 <= k < views@.len() ==> is_curated_view(#[trigger] views@[k], *self, keys@, k),
                        i <= views@.len(),
                        forall|k: int| 0 <= k < i ==> (#[trigger] es[k]).0.title@ != title@,
                    decreases views@.len() - i,
                {
                    assert(is_curated_view(views@[i as int], *self, keys@, i as int));
                    if views[i].title == *title {
                        proof {
                            let flags = titled_flags(es, title@);
                            assert(views@[i as int].title == es[i as int].0.title);
                            assert(flags[i as int] == (es[i as int].0.title@ == title@));
                            assert(flags[i as int]);
                            assert forall|k: int| 0 <= k < i implies !flags[k] by {
                                assert(es[k].0.title@ != title@);
                            }
                            lemma_first_index_is(flags, i as int);
                        }
                        return Some(views[i].label.clone());
                    }
                    i += 1;
                }
                proof {
                    let flags = titled_flags(es, title@);
                    assert forall|k: int| 0 <= k < flags.len() implies !flags[k] by {
                        assert(es[k].0.title@ != title@);
                    }
                    lemma_first_index_none(flags);
                }
                if views.len() > 0 {
                    assert(is_curated_view(views@[0], *self, keys@, 0));
                    Some(views[0].label.clone())
                } else {
                    None
                }
            },
        }
    }
}

/// The index of the first `true` in `flags`, if any.
pub open spec fn first_index(flags: Seq<bool>) -> Option<nat>
    decreases flags.len(),
{
    if flags.len() == 0 {
        None
    } else if flags[0] {
        Some(0)
    } else {
        match first_index(flags.drop_first()) {
            Some(k) => Some(k + 1),
            None => None,
        }
    }
}

/// Which of the entries start loaded.
pub open spec fn loaded_flags(es: Seq<(Tab, Option<String>)>) -> Seq<bool> {
    Seq::new(es.len(), |i: int| es[i].0.load_on_open)
}

/// Which of the entries are titled `t`.
pub open spec fn titled_flags(es: Seq<(Tab, Option<String>)>, t: Seq<char>) -> Seq<bool> {
    Seq::new(es.len(), |i: int| es[i].0.title@ == t)
}

/// The index of the tab a window opens on launch, per its `open_on_launch`.
pub open spec fn startup_index(w: WindowConfig) -> Option<nat> {
    let es = tab_entries(w);
    match w.open_on_launch {
        OpenOnLaunch::Toggle(false) => first_index(loaded_flags(es)),
        OpenOnLaunch::Toggle(true) => if es.len() > 0 {
            Some(0)
        } else {
            None
        },
        OpenOnLaunch::Tab(t) => match first_index(titled_flags(es, t@)) {
            Some(i) => Some(i),
            None => if es.len() > 0 {
                Some(0)
            } else {
                None
            },
        },
    }
}

/// `first_index` finds `i` when `i` is true and nothing before it is.
pub proof fn lemma_first_index_is(flags: Seq<bool>, i: int)
    requires
        0 <= i < flags.len(),
        flags[i],
        forall|k: int| 0 <= k < i ==> !flags[k],
    ensures
        first_index(flags) == Some(i as nat),
    decreases i,
{
    if i > 0 {
        lemma_first_index_is(flags.drop_first(), i - 1);
    }
}

/// `first_index` finds nothing when no flag is set.
pub proof fn lemma_first_index_none(flags: Seq<bool>)
    requires
        forall|k: int| 0 <= k < flags.len() ==> !flags[k],
    ensures
        first_index(flags) is None,
    decreases flags.len(),
{
    if flags.len() > 0 {
        lemma_first_index_none(flags.drop_first());
    }
}

/// Counting in a longer prefix counts at least as much, plus one for each extra match.
pub proof fn lemma_occurrences_grow(s: Seq<Seq<char>>, i: int, j: int)
    requires
        0 <= i < j <= s.len(),
    ensures
        occurrences(s.take(j), s[i]) >= occurrences(s.take(i), s[i]) + 1,
    decreases j - i,
{
    let b = s[i];
    assert(s.take(j).drop_last() =~= s.take(j - 1));
    if j == i + 1 {
        assert(s.take(j).last() == b);
    } else {
        lemma_occurrences_grow(s, i, j - 1);
    }
}

/// No two of a window's tabs get the same within-window label: distinct dir labels keep them
/// apart in their first 20 characters, and equal dir labels get distinct `-n` suffixes.
pub proof fn lemma_within_labels_distinct(bases: Seq<Seq<char>>, i: int, j: int)
    requires
        0 <= i < j < bases.len(),
        forall|k: int| 0 <= k < bases.len() ==> (#[trigger] bases[k]).len() == 20,
    ensures
        within_label(bases, i) != within_label(bases, j),
{
    let wi = within_label(bases, i);
    let wj = within_label(bases, j);
    let ni = occurrences(bases.take(i), bases[i]);
    let nj = occurrences(bases.take(j), bases[j]);
    assert(wi.take(20) =~= bases[i]);
    assert(wj.take(20) =~= bases[j]);
    if bases[i] == bases[j] {
        lemma_occurrences_grow(bases, i, j);
        assert(nj >= ni + 1);
        lemma_decimal_len(ni);
        lemma_decimal_len(nj);
        if ni == 0 {
            assert(wi.len() == 20);
            assert(wj.len() > 20);
        } else if wi == wj {
            assert(wi.skip(21) =~= decimal(ni));
            assert(wj.skip(21) =~= decimal(nj));
            lemma_decimal_injective(ni, nj);
        }
    }
}

/// A window's tabs all get distinct labels.
pub proof fn lemma_tab_labels_distinct(w: WindowConfig, keys: Seq<Vec<u8>>, a: int, b: int)
    requires
        0 <= a < keys.len(),
        0 <= b < keys.len(),
        a != b,
    ensures
        spec_tab_label(w, keys, a) != spec_tab_label(w, keys, b),
{
    let bases = entry_bases(keys);
    assert forall|k: int| 0 <= k < bases.len() implies (#[trigger] bases[k]).len() == 20 by {
        crate::identity::lemma_hex_fixed_shape(spec_fnv1a_64(keys[k]@) as nat, 16);
    }
    if a < b {
        lemma_within_labels_distinct(bases, a, b);
    } else {
        lemma_within_labels_distinct(bases, b, a);
    }
    let wid = spec_window_id(w.title@);
    let la = spec_tab_label(w, keys, a);
    let lb = spec_tab_label(w, keys, b);
    if la == lb {
        assert(la.skip(wid.len() as int + 1) =~= within_label(bases, a));
        assert(lb.skip(wid.len() as int + 1) =~= within_label(bases, b));
    }
}

/// A project found under one of a window's project-tree roots.
#[derive(Debug, Clone, PartialEq)]
pub struct DiscoveredProject {
    /// The project's dir.
    pub path: String,
    /// Folder segments between the root dir and this project.
    pub tree_path: Vec<String>,
    /// The section (root name) it renders under.
    pub section: String,
}

/// Where the last `/`-separated segment of `p` starts: just after its last `/`, or 0.
pub open spec fn seg_start(p: Seq<char>) -> nat
    decreases p.len(),
{
    if p.len() == 0 {
        0
    } else if p.last() == '/' {
        p.len()
    } else {
        seg_start(p.drop_last())
    }
}

/// `Path::file_name` on Unix: the final component of a path, if it is a name. Trailing `/`s and
/// `.` segments are skipped; a path that is only `/`s, `.` or ends in `..` has none.
pub open spec fn spec_file_name(p: Seq<char>) -> Option<Seq<char>>
    decreases p.len(),
{
    if p.len() == 0 {
        None
    } else if p.last() == '/' {
        spec_file_name(p.drop_last())
    } else {
        let seg = p.skip(seg_start(p) as int);
        if seg == seq!['.'] {
            if seg_start(p) == 0 {
                None
            } else {
                spec_file_name(p.drop_last())
            }
        } else if seg == seq!['.', '.'] {
            None
        } else {
            Some(seg)
        }
    }
}

/// The final component of `path`, as `Path::new(path).file_name()` gives it.
pub(crate) fn path_file_name(path: &str) -> (r: Option<String>)
    ensures
        match r {
            Some(n) => spec_file_name(path@) == Some(n@),
            None => spec_file_name(path@) is None,
        },
{
    let cs = chars_of(path);
    let mut e: usize = cs.len();
    assert(cs@.take(e as int) =~= cs@);
    loop
        invariant
            cs@ == path@,
            e <= cs@.len(),
            spec_file_name(cs@.take(e as int)) == spec_file_name(path@),
        decreases e,
    {
        if e == 0 {
            return None;
        }
        let ghost p = cs@.take(e as int);
        assert(p.drop_last() =~= cs@.take(e - 1));
        if cs[e - 1] == '/' {
            e = e - 1;
        } else {
            let mut st: usize = e - 1;
            assert(cs@.take(st as int) =~= p.drop_last());
            while st > 0 && cs[st - 1] != '/'
                invariant
                    cs@ == path@,
                    st < e <= cs@.len(),
                    p == cs@.take(e as int),
                    seg_start(p) == seg_start(cs@.take(st as int)),
                decreases st,
            {
                assert(cs@.take(st as int).drop_last() =~= cs@.take(st - 1));
                st = st - 1;
            }
            assert(seg_start(p) == st);
            let ghost seg = p.skip(st as int);
            assert(seg =~= cs@.subrange(st as int, e as int));
            if e - st == 1 && cs[st] == '.' {
                assert(seg =~= seq!['.']);
                if st == 0 {
                    return None;
                }
                e = e - 1;
            } else if e - st == 2 && cs[st] == '.' && cs[st + 1] == '.' {
                assert(seg =~= seq!['.', '.']);
                return None;
            } else {
                assert(seg != seq!['.']) by {
                    if e - st == 1 {
                        assert(seg[0] == cs@[st as int]);
                    }
                }
                assert(seg != seq!['.', '.']) by {
                    if e - st == 2 {
                        assert(seg[0] == cs@[st as int] && seg[1] == cs@[st + 1]);
                    }
                }
                let mut out: Vec<char> = Vec::new();
                let mut k: usize = st;
                while k < e
                    invariant
                        cs@ == path@,
                        st <= k <= e <= cs@.len(),
                        out@ == cs@.subrange(st as int, k as int),
                    decreases e - k,
                {
                    out.push(cs[k]);
                    assert(cs@.subrange(st as int, k + 1) =~= cs@.subrange(st as int, k as int).push(cs@[k as int]));
                    k += 1;
                }
                return Some(string_of(&out));
            }
        }
    }
}

/// Whether `x` is one of `seen`.
fn contains_chars(seen: &Vec<Vec<char>>, x: &Vec<char>) -> (r: bool)
    ensures
        r == char_seqs(seen@).contains(x@),
{
    let mut i: usize = 0;
    while i < seen.len()
        invariant
            i <= seen@.len(),
            forall|k: int| 0 <= k < i ==> seen@[k]@ != x@,
        decreases seen@.len() - i,
    {
        if chars_eq(&seen[i], x) {
            assert(char_seqs(seen@)[i as int] == x@);
            return true;
        }
        i += 1;
    }
    assert(!char_seqs(seen@).contains(x@)) by {
        if char_seqs(seen@).contains(x@) {
            let k = choose|k: int| 0 <= k < seen@.len() && char_seqs(seen@)[k] == x@;
            assert(seen@[k]@ == x@);
        }
    }
    false
}

/// The label discovered project `j` would get in window `w`: its dir label, unsuffixed.
pub open spec fn disc_label(w: WindowConfig, dkeys: Seq<Vec<u8>>, j: int) -> Seq<char> {
    spec_namespaced(spec_window_id(w.title@), spec_dir_label(dkeys[j]@))
}

/// Discovered project `j` becomes a row: no curated tab of the window has its label (a curated
/// tab at the same repo shadows it) and no earlier discovered project has it (first wins).
pub open spec fn disc_accepted(w: WindowConfig, keys: Seq<Vec<u8>>, dkeys: Seq<Vec<u8>>, j: int) -> bool {
    &&& forall|i: int| 0 <= i < keys.len() ==> spec_tab_label(w, keys, i) != disc_label(w, dkeys, j)
    &&& forall|k: int| 0 <= k < j ==> disc_label(w, dkeys, k) != disc_label(w, dkeys, j)
}

/// The indices of the first `n` discovered projects that become rows, in order.
pub open spec fn accepted_upto(w: WindowConfig, keys: Seq<Vec<u8>>, dkeys: Seq<Vec<u8>>, n: nat) -> Seq<int>
    decreases n,
{
    if n == 0 {
        Seq::empty()
    } else {
        accepted_upto(w, keys, dkeys, (n - 1) as nat) + if disc_accepted(w, keys, dkeys, n - 1) {
            seq![n - 1]
        } else {
            Seq::empty()
        }
    }
}

/// `v` is the row for discovered project `p` with label `label`: titled by the dir's final
/// component (the whole path when it has none), grouped under the project's section.
pub open spec fn is_discovered_view(v: TabView, p: DiscoveredProject, label: Seq<char>) -> bool {
    &&& v.label@ == label
    &&& v.group == Some(p.section)
    &&& v.title@ == match spec_file_name(p.path@) {
        Some(n) => n,
        None => p.path@,
    }
    &&& v.dir == p.path
    &&& !v.load_on_open
    &&& v.tree
    &&& v.tree_path@ == p.tree_path@
}

/// The labels of window `w`'s curated tabs, in order.
pub open spec fn curated_labels(w: WindowConfig, keys: Seq<Vec<u8>>) -> Seq<Seq<char>> {
    Seq::new(keys.len(), |i: int| spec_tab_label(w, keys, i))
}

/// The labels of the first `n` discovered projects that became rows, in order.
pub open spec fn accepted_labels(w: WindowConfig, keys: Seq<Vec<u8>>, dkeys: Seq<Vec<u8>>, n: nat) -> Seq<Seq<char>> {
    accepted_upto(w, keys, dkeys, n).map_values(|a: int| disc_label(w, dkeys, a))
}

/// Every index `accepted_upto(n)` lists is below `n`.
pub proof fn lemma_accepted_bounds(w: WindowConfig, keys: Seq<Vec<u8>>, dkeys: Seq<Vec<u8>>, n: nat)
    ensures
        forall|r: int| 0 <= r < accepted_upto(w, keys, dkeys, n).len() ==> 0 <= #[trigger] accepted_upto(w, keys, dkeys, n)[r] < n,
    decreases n,
{
    if n > 0 {
        lemma_accepted_bounds(w, keys, dkeys, (n - 1) as nat);
        let prev = accepted_upto(w, keys, dkeys, (n - 1) as nat);
        let all = accepted_upto(w, keys, dkeys, n);
        assert forall|r: int| 0 <= r < all.len() implies 0 <= #[trigger] all[r] < n by {
            if r < prev.len() {
                assert(all[r] == prev[r]);
            } else {
                assert(all[r] == n - 1);
            }
        }
    }
}

/// After the first `n` discovered projects, every one of their labels has been seen: it is a
/// curated label or the label of a project that became a row.
pub proof fn lemma_earlier_labels_seen(w: WindowConfig, keys: Seq<Vec<u8>>, dkeys: Seq<Vec<u8>>, n: nat)
    ensures
        forall|k: int| 0 <= k < n ==> (curated_labels(w, keys) + accepted_labels(w, keys, dkeys, n)).contains(
            #[trigger] disc_label(w, dkeys, k),
        ),
    decreases n,
{
    if n > 0 {
        let m = (n - 1) as nat;
        lemma_earlier_labels_seen(w, keys, dkeys, m);
        let before = curated_labels(w, keys) + accepted_labels(w, keys, dkeys, m);
        let after = curated_labels(w, keys) + accepted_labels(w, keys, dkeys, n);
        assert forall|x: Seq<char>| before.contains(x) implies after.contains(x) by {
            let i = choose|i: int| 0 <= i < before.len() && before[i] == x;
            assert(after[i] == before[i]);
        }
        let lm = disc_label(w, dkeys, m as int);
        if disc_accepted(w, keys, dkeys, m as int) {
            assert(after[after.len() - 1] == lm);
        } else {
            if exists|i: int| 0 <= i < keys.len() && spec_tab_label(w, keys, i) == lm {
                let i = choose|i: int| 0 <= i < keys.len() && spec_tab_label(w, keys, i) == lm;
                assert(after[i] == lm);
            } else {
                let k = choose|k: int| 0 <= k < m && disc_label(w, dkeys, k) == lm;
                assert(before.contains(disc_label(w, dkeys, k)));
            }
        }
    }
}

/// A discovered project is seen already exactly when it does not become a row.
pub proof fn lemma_seen_iff_rejected(w: WindowConfig, keys: Seq<Vec<u8>>, dkeys: Seq<Vec<u8>>, j: nat)
    ensures
        (curated_labels(w, keys) + accepted_labels(w, keys, dkeys, j)).contains(disc_label(w, dkeys, j as int))
            <==> !disc_accepted(w, keys, dkeys, j as int),
{
    let seen = curated_labels(w, keys) + accepted_labels(w, keys, dkeys, j);
    let lj = disc_label(w, dkeys, j as int);
    lemma_earlier_labels_seen(w, keys, dkeys, j);
    lemma_accepted_bounds(w, keys, dkeys, j);
    if !disc_accepted(w, keys, dkeys, j as int) {
        if exists|i: int| 0 <= i < keys.len() && spec_tab_label(w, keys, i) == lj {
            let i = choose|i: int| 0 <= i < keys.len() && spec_tab_label(w, keys, i) == lj;
            assert(seen[i] == lj);
        } else {
            let k = choose|k: int| 0 <= k < j && disc_label(w, dkeys, k) == lj;
            assert(seen.contains(disc_label(w, dkeys, k)));
        }
    } else {
        if seen.contains(lj) {
            let m = choose|m: int| 0 <= m < seen.len() && seen[m] == lj;
            if m < keys.len() {
                assert(spec_tab_label(w, keys, m) == lj);
            } else {
                let r = m - keys.len();
                let a = accepted_upto(w, keys, dkeys, j)[r];
                assert(disc_label(w, dkeys, a) == lj);
                assert(0 <= a < j);
            }
        }
    }
}

impl WindowConfig {
    /// Curated tab rows, then this window's discovered projects as tree rows. A discovered
    /// project whose label already appears is dropped — a curated tab at the same repo shadows
    /// it, and a repo reachable via two roots lands once (first wins). `keys` are the curated
    /// tabs' canonical dir bytes (as for [`tab_views`](Self::tab_views)); `discovered_keys[j]`
    /// are those of `discovered[j].path`.
    pub fn tab_views_with_discovered(
        &self,
        keys: &Vec<Vec<u8>>,
        discovered: &Vec<DiscoveredProject>,
        discovered_keys: &Vec<Vec<u8>>,
    ) -> (views: Vec<TabView>)
        requires
            keys@.len() == tab_entries(*self).len(),
            discovered_keys@.len() == discovered@.len(),
        ensures
            ({
                let cur = tab_entries(*self).len();
                let acc = accepted_upto(*self, keys@, discovered_keys@, discovered@.len());
                &&& views@.len() == cur + acc.len()
                &&& forall|i: int| 0 <= i < cur ==> is_curated_view(#[trigger] views@[i], *self, keys@, i)
                &&& forall|r: int|
                    0 <= r < acc.len() ==> is_discovered_view(
                        #[trigger] views@[cur + r],
                        discovered@[acc[r]],
                        disc_label(*self, discovered_keys@, acc[r]),
                    )
            }),
    {
        let wid = window_id(self.title.as_str());
        let mut views = self.tab_views(keys);
        let cur = views.len();
        let mut seen: Vec<Vec<char>> = Vec::new();
        let mut i: usize = 0;
        while i < cur
            invariant
                cur == views@.len(),
                cur == keys@.len(),
                forall|k: int| 0 <= k < cur ==> is_curated_view(#[trigger] views@[k], *self, keys@, k),
                i <= cur,
                char_seqs(seen@) == curated_labels(*self, keys@).take(i as int),
            decreases cur - i,
        {
            let ghost old_seen = seen@;
            seen.push(chars_of(views[i].label.as_str()));
            proof {
                assert(is_curated_view(views@[i as int], *self, keys@, i as int));
                assert(char_seqs(seen@) =~= char_seqs(old_seen).push(views@[i as int].label@));
                assert(curated_labels(*self, keys@).take(i + 1) =~= curated_labels(*self, keys@).take(i as int).push(
                    spec_tab_label(*self, keys@, i as int),
                ));
            }
            i += 1;
        }
        proof {
            assert(curated_labels(*self, keys@).take(i as int) =~= curated_labels(*self, keys@));
            assert(accepted_labels(*self, keys@, discovered_keys@, 0) =~= Seq::<Seq<char>>::empty());
            assert(char_seqs(seen@) =~= curated_labels(*self, keys@) + accepted_labels(*self, keys@, discovered_keys@, 0));
        }
        let ghost curated = views@;
        let mut j: usize = 0;
        while j < discovered.len()
            invariant
                discovered_keys@.len() == discovered@.len(),
                wid@ == spec_window_id(self.title@),
                cur == keys@.len(),
                cur == tab_entries(*self).len(),
                curated.len() == cur,
                forall|k: int| 0 <= k < cur ==> is_curated_view(#[trigger] curated[k], *self, keys@, k),
                j <= discovered@.len(),
                views@.len() == cur + accepted_upto(*self, keys@, discovered_keys@, j as nat).len(),
                forall|k: int| 0 <= k < cur ==> #[trigger] views@[k] == curated[k],
                forall|r: int|
                    0 <= r < accepted_upto(*self, keys@, discovered_keys@, j as nat).len() ==> is_discovered_view(
                        #[trigger] views@[cur + r],
                        discovered@[accepted_upto(*self, keys@, discovered_keys@, j as nat)[r]],
                        disc_label(*self, discovered_keys@, accepted_upto(*self, keys@, discovered_keys@, j as nat)[r]),
                    ),
                char_seqs(seen@) == curated_labels(*self, keys@) + accepted_labels(*self, keys@, discovered_keys@, j as nat),
            decreases discovered@.len() - j,
        {
            let p = &discovered[j];
            let base = dir_label(discovered_keys[j].as_slice());
            let label = namespaced(wid.as_str(), base.as_str());
            let lc = chars_of(label.as_str());
            let ghost lj = disc_label(*self, discovered_keys@, j as int);
            let ghost acc_before = accepted_upto(*self, keys@, discovered_keys@, j as nat);
            proof { lemma_seen_iff_rejected(*self, keys@, discovered_keys@, j as nat); }
            if contains_chars(&seen, &lc) {
                assert(accepted_upto(*self, keys@, discovered_keys@, (j + 1) as nat) =~= acc_before);
                assert(accepted_labels(*self, keys@, discovered_keys@, (j + 1) as nat) =~= accepted_labels(*self, keys@, discovered_keys@, j as nat));
            } else {
                let title = match path_file_name(p.path.as_str()) {
                    Some(n) => n,
                    None => p.path.clone(),
                };
                let ghost old_views = views@;
                views.push(
                    TabView {
                        label,
                        group: Some(p.section.clone()),
                        title,
                        dir: p.path.clone(),
                        load_on_open: false,
                        tree: true,
                        tree_path: copy_strings(&p.tree_path),
                    },
                );
                let ghost old_seen = seen@;
                seen.push(lc);
                proof {
                    let acc = accepted_upto(*self, keys@, discovered_keys@, (j + 1) as nat);
                    assert(acc =~= acc_before.push(j as int));
                    assert(accepted_labels(*self, keys@, discovered_keys@, (j + 1) as nat) =~= accepted_labels(*self, keys@, discovered_keys@, j as nat).push(lj));
                    assert(char_seqs(seen@) =~= char_seqs(old_seen).push(lj));
                    assert forall|r: int| 0 <= r < acc.len() implies is_discovered_view(
                        #[trigger] views@[cur + r],
                        discovered@[acc[r]],
                        disc_label(*self, discovered_keys@, acc[r]),
                    ) by {
                        if r < acc_before.len() {
                            assert(views@[cur + r] == old_views[cur + r]);
                        }
                    }
                }
            }
            j += 1;
        }
        views
    }
}

/// A tab's label depends on its window's title and the tabs' canonical dir bytes only: retitling
/// a tab (or any other tab), or respelling a dir so it canonicalizes to the same path (`/tmp` and
/// `/tmp/.`), never changes a label.
pub proof fn law_label_ignores_tab_titles(w1: WindowConfig, w2: WindowConfig, keys: Seq<Vec<u8>>, i: int)
    requires
        w1.title@ == w2.title@,
    ensures
        spec_tab_label(w1, keys, i) == spec_tab_label(w2, keys, i),
{
}

/// Counting over a concatenation adds the counts.
pub proof fn lemma_occurrences_concat(s: Seq<Seq<char>>, t: Seq<Seq<char>>, b: Seq<char>)
    ensures
        occurrences(s + t, b) == occurrences(s, b) + occurrences(t, b),
    decreases t.len(),
{
    if t.len() == 0 {
        assert(s + t =~= s);
    } else {
        assert((s + t).drop_last() =~= s + t.drop_last());
        lemma_occurrences_concat(s, t.drop_last(), b);
    }
}

/// Inserting a tab before or after another one, with a dir whose label differs from that tab's,
/// leaves that tab's label unchanged: labels are not positional.
pub proof fn law_label_stable_under_insertion(
    w1: WindowConfig,
    w2: WindowConfig,
    keys: Seq<Vec<u8>>,
    p: int,
    k: Vec<u8>,
    i: int,
)
    requires
        w1.title@ == w2.title@,
        0 <= p <= keys.len(),
        0 <= i < keys.len(),
        spec_dir_label(k@) != spec_dir_label(keys[i]@),
    ensures
        spec_tab_label(w2, keys.insert(p, k), if i < p { i } else { i + 1 }) == spec_tab_label(w1, keys, i),
{
    let b = entry_bases(keys);
    let b2 = entry_bases(keys.insert(p, k));
    let x = spec_dir_label(k@);
    assert(b2 =~= b.insert(p, x));
    let j = if i < p { i } else { i + 1 };
    assert(b2[j] == b[i]);
    if i < p {
        assert(b2.take(j) =~= b.take(i));
    } else {
        assert(b2.take(j) =~= b.take(p) + seq![x] + b.subrange(p, i));
        assert(b.take(i) =~= b.take(p) + b.subrange(p, i));
        lemma_occurrences_concat(b.take(p) + seq![x], b.subrange(p, i), b[i]);
        lemma_occurrences_concat(b.take(p), seq![x], b[i]);
        lemma_occurrences_concat(b.take(p), b.subrange(p, i), b[i]);
        assert(seq![x].drop_last() =~= Seq::<Seq<char>>::empty());
        assert(occurrences(Seq::<Seq<char>>::empty(), b[i]) == 0);
        assert(seq![x].last() == x);
        assert(occurrences(seq![x], b[i]) == occurrences(seq![x].drop_last(), b[i]) + 0);
        assert(occurrences(seq![x], b[i]) == 0);
    }
    assert(within_label(b2, j) == within_label(b, i));
}


/// Every tab label lives under its window: it starts with the window id, `:` and `tab-`, and the
/// window it names is that window's id.
pub proof fn law_labels_under_their_window(w: WindowConfig, keys: Seq<Vec<u8>>, i: int)
    requires
        0 <= i < keys.len(),
    ensures
        spec_tab_label(w, keys, i).take(22) == spec_window_id(w.title@) + seq![':', 't', 'a', 'b', '-'],
        spec_window_of(spec_tab_label(w, keys, i)) == spec_window_id(w.title@),
{
    let wid = spec_window_id(w.title@);
    let bases = entry_bases(keys);
    let within = within_label(bases, i);
    lemma_hex_fixed_shape(spec_fnv1a_64(vstd::utf8::encode_utf8(w.title@)) as nat, 16);
    assert(wid.len() == 17);
    lemma_window_id_has_no_colon(w.title@);
    lemma_window_of_namespaced(wid, within);
    assert(bases[i] == spec_dir_label(keys[i]@));
    assert(within.take(4) =~= seq!['t', 'a', 'b', '-']);
    assert(spec_tab_label(w, keys, i).take(22) =~= wid + seq![':', 't', 'a', 'b', '-']);
}


/// How many tabs the groups before group `g` hold.
pub open spec fn tabs_before(gs: Seq<Group>, g: int) -> nat
    decreases g,
{
    if g <= 0 {
        0
    } else {
        tabs_before(gs, g - 1) + gs[g - 1].tabs@.len()
    }
}

proof fn lemma_tabs_before_prefix(gs: Seq<Group>, g: int)
    requires
        0 <= g < gs.len(),
    ensures
        tabs_before(gs.drop_last(), g) == tabs_before(gs, g),
    decreases g,
{
    if g > 0 {
        lemma_tabs_before_prefix(gs, g - 1);
    }
}

proof fn lemma_groups_entries(gs: Seq<Group>)
    ensures
        groups_entries(gs).len() == tabs_before(gs, gs.len() as int),
        forall|g: int, t: int| 0 <= g < gs.len() && 0 <= t < gs[g].tabs@.len() ==> #[trigger] groups_entries(gs)[
            tabs_before(gs, g) + t] == (#[trigger] gs[g].tabs@[t], Some(gs[g].name)),
    decreases gs.len(),
{
    if gs.len() > 0 {
        let d = gs.drop_last();
        lemma_groups_entries(d);
        let last = (gs.len() - 1) as int;
        lemma_tabs_before_prefix(gs, last);
        assert(group_entries(gs[last]).len() == gs[last].tabs@.len());
        assert forall|g: int, t: int| 0 <= g < gs.len() && 0 <= t < gs[g].tabs@.len() implies #[trigger] groups_entries(gs)[
            tabs_before(gs, g) + t] == (#[trigger] gs[g].tabs@[t], Some(gs[g].name)) by {
            if g < last {
                lemma_tabs_before_prefix(gs, g);
                lemma_tabs_before_prefix(gs, g + 1);
                assert(d[g] == gs[g]);
                assert(tabs_before(d, g) + t < tabs_before(d, g + 1));
                lemma_tabs_before_mono(d, g + 1, d.len() as int);
                assert(groups_entries(d)[tabs_before(d, g) + t] == (d[g].tabs@[t], Some(d[g].name)));
            } else {
                lemma_tabs_before_prefix(gs, g);
                assert(groups_entries(d).len() == tabs_before(gs, g));
            }
        }
    }
}

proof fn lemma_tabs_before_mono(gs: Seq<Group>, a: int, b: int)
    requires
        0 <= a <= b <= gs.len(),
    ensures
        tabs_before(gs, a) <= tabs_before(gs, b),
    decreases b - a,
{
    if a < b {
        lemma_tabs_before_mono(gs, a, b - 1);
    }
}

/// A window's rows come in file order: row `i` is loose tab `i` (with no group) for every loose
/// tab, then each group's tabs follow in group order and tab order, under the group's name, and
/// there are no other rows.
pub proof fn law_rows_follow_file_order(w: WindowConfig)
    ensures
        tab_entries(w).len() == w.tabs@.len() + tabs_before(w.groups@, w.groups@.len() as int),
        forall|i: int| 0 <= i < w.tabs@.len() ==> #[trigger] tab_entries(w)[i] == (w.tabs@[i], None::<String>),
        forall|g: int, t: int| 0 <= g < w.groups@.len() && 0 <= t < w.groups@[g].tabs@.len() ==> #[trigger] tab_entries(w)[
            w.tabs@.len() + tabs_before(w.groups@, g) + t] == (
            #[trigger] w.groups@[g].tabs@[t],
            Some(w.groups@[g].name),
        ),
{
    lemma_groups_entries(w.groups@);
    let l = loose_entries(w);
    let ge = groups_entries(w.groups@);
    assert forall|i: int| 0 <= i < w.tabs@.len() implies #[trigger] tab_entries(w)[i] == (w.tabs@[i], None::<String>) by {
        assert(tab_entries(w)[i] == l[i]);
    }
    assert forall|g: int, t: int| 0 <= g < w.groups@.len() && 0 <= t < w.groups@[g].tabs@.len() implies #[trigger] tab_entries(w)[
        w.tabs@.len() + tabs_before(w.groups@, g) + t] == (
        #[trigger] w.groups@[g].tabs@[t],
        Some(w.groups@[g].name),
    ) by {
        assert(ge[tabs_before(w.groups@, g) + t] == (w.groups@[g].tabs@[t], Some(w.groups@[g].name)));
        lemma_tabs_before_mono(w.groups@, g + 1, w.groups@.len() as int);
    }
}


/// `first_index` finds the earliest true flag.
proof fn lemma_first_index_some(flags: Seq<bool>)
    ensures
        match first_index(flags) {
            Some(i) => i < flags.len() && flags[i as int] && forall|k: int| 0 <= k < i ==> !flags[k],
            None => forall|k: int| 0 <= k < flags.len() ==> !flags[k],
        },
    decreases flags.len(),
{
    if flags.len() > 0 && !flags[0] {
        let rest = flags.drop_first();
        lemma_first_index_some(rest);
        assert forall|k: int| 1 <= k < flags.len() implies flags[k] == rest[k - 1] by {}
        match first_index(rest) {
            Some(j) => {
                assert forall|k: int| 0 <= k < j + 1 implies !flags[k] by {
                    if k > 0 {
                        assert(!rest[k - 1]);
                    }
                }
            },
            None => {
                assert forall|k: int| 0 <= k < flags.len() implies !flags[k] by {
                    if k > 0 {
                        assert(!rest[k - 1]);
                    }
                }
            },
        }
    }
}

/// The row a window opens on launch. Unset (`false`): the first row whose tab is `load_on_open`,
/// none when no tab is. `true`: the first row, if any. A title: the first row with that title,
/// else the first row, if any.
pub proof fn law_startup_row(w: WindowConfig)
    ensures
        ({
            let es = tab_entries(w);
            match w.open_on_launch {
                OpenOnLaunch::Toggle(false) => match startup_index(w) {
                    Some(i) => i < es.len() && es[i as int].0.load_on_open && forall|k: int|
                        0 <= k < i ==> !(#[trigger] es[k]).0.load_on_open,
                    None => forall|k: int| 0 <= k < es.len() ==> !(#[trigger] es[k]).0.load_on_open,
                },
                OpenOnLaunch::Toggle(true) => startup_index(w) == if es.len() > 0 {
                    Some(0nat)
                } else {
                    None
                },
                OpenOnLaunch::Tab(t) => match startup_index(w) {
                    Some(i) => i < es.len() && ((es[i as int].0.title@ == t@ && forall|k: int|
                        0 <= k < i ==> (#[trigger] es[k]).0.title@ != t@) || (i == 0 && forall|k: int|
                        0 <= k < es.len() ==> (#[trigger] es[k]).0.title@ != t@)),
                    None => es.len() == 0,
                },
            }
        }),
{
    let es = tab_entries(w);
    match w.open_on_launch {
        OpenOnLaunch::Toggle(false) => {
            let f = loaded_flags(es);
            lemma_first_index_some(f);
            assert forall|k: int| 0 <= k < es.len() implies f[k] == (#[trigger] es[k]).0.load_on_open by {}
        },
        OpenOnLaunch::Toggle(true) => {},
        OpenOnLaunch::Tab(t) => {
            let f = titled_flags(es, t@);
            lemma_first_index_some(f);
            assert forall|k: int| 0 <= k < es.len() implies f[k] == ((#[trigger] es[k]).0.title@ == t@) by {}
        },
    }
}

} // verus!
