//! The app's tab state: the last-good resolved rows, which row is active in each window, each
//! window's accent colour, the whole-app chrome settings, and which tabs are popped out into
//! their own detached windows. Also the sidebar rows built from it, and the neighbour promoted
//! when the active tab goes away.

use vstd::prelude::*;
use crate::config::Density;
use crate::identity::{spec_window_of, window_of};
use crate::keyed::{Duplicate, StrMap};
use crate::text::{chars_of, copy_opt_string, copy_strings, push_str, str_eq, string_of};
use crate::servers::Servers;
use crate::views::{first_index, lemma_first_index_is, lemma_first_index_none, TabView};

verus! {

/// A tab popped out into its own detached window: the window it came from, its label, and the
/// port its still-running server listens on.
#[derive(Debug, Clone, PartialEq)]
pub struct LectorDetached {
    pub origin_wid: String,
    pub tab_label: String,
    pub port: u16,
}

impl DeepView for LectorDetached {
    type V = (Seq<char>, Seq<char>, u16);

    open spec fn deep_view(&self) -> (Seq<char>, Seq<char>, u16) {
        (self.origin_wid@, self.tab_label@, self.port)
    }
}

impl Duplicate for LectorDetached {
    fn duplicate(&self) -> (r: LectorDetached) {
        LectorDetached {
            origin_wid: self.origin_wid.clone(),
            tab_label: self.tab_label.clone(),
            port: self.port,
        }
    }
}

/// The invoking window's identity for the chrome banner, plus the whole-app chrome settings.
#[derive(Debug, Clone, PartialEq)]
pub struct Identity {
    pub title: String,
    pub colour: Option<String>,
    pub density: Density,
    pub sidebar_drag: bool,
    pub auto_update: bool,
}

/// One sidebar row as the chrome consumes it.
#[derive(Debug, Clone, PartialEq)]
pub struct TabPayload {
    pub label: String,
    pub title: String,
    pub group: Option<String>,
    /// True iff this repo's server is registered and still answering.
    pub loaded: bool,
    pub active: bool,
    /// Popped out into its own detached window.
    pub detached: bool,
    /// A project-tree (root)-discovered row.
    pub tree: bool,
    pub tree_path: Vec<String>,
}

/// Two rows carry the same data.
pub open spec fn same_view(a: TabView, b: TabView) -> bool {
    &&& a.label == b.label
    &&& a.group == b.group
    &&& a.title == b.title
    &&& a.dir == b.dir
    &&& a.load_on_open == b.load_on_open
    &&& a.tree == b.tree
    &&& a.tree_path@ == b.tree_path@
}

/// Which of the rows have the label `l`.
pub open spec fn label_flags(vs: Seq<TabView>, l: Seq<char>) -> Seq<bool> {
    Seq::new(vs.len(), |i: int| vs[i].label@ == l)
}

/// `label` is namespaced under window `w`: it starts with `w` followed by `:`.
pub open spec fn in_window(label: Seq<char>, w: Seq<char>) -> bool {
    &&& label.len() > w.len()
    &&& label.take(w.len() as int) == w
    &&& label[w.len() as int] == ':'
}

/// The rows of window `w`, in their original order.
pub open spec fn window_views(vs: Seq<TabView>, w: Seq<char>) -> Seq<TabView>
    decreases vs.len(),
{
    if vs.len() == 0 {
        Seq::empty()
    } else {
        window_views(vs.drop_last(), w) + if in_window(vs.last().label@, w) {
            seq![vs.last()]
        } else {
            Seq::empty()
        }
    }
}

/// Whether `s` is `w` followed by `:` and more.
fn in_window_exec(s: &Vec<char>, w: &Vec<char>) -> (r: bool)
    ensures
        r == in_window(s@, w@),
{
    if s.len() <= w.len() {
        return false;
    }
    let mut i: usize = 0;
    while i < w.len()
        invariant
            s@.len() > w@.len(),
            i <= w@.len(),
            forall|k: int| 0 <= k < i ==> s@[k] == w@[k],
        decreases w@.len() - i,
    {
        if s[i] != w[i] {
            assert(s@.take(w@.len() as int)[i as int] != w@[i as int]);
            return false;
        }
        i += 1;
    }
    assert(s@.take(w@.len() as int) =~= w@);
    s[w.len()] == ':'
}

/// The app's tab state. The server registry lives beside it, with whoever runs the servers.
pub struct AppState {
    views: Vec<TabView>,
    active: StrMap<String>,
    colours: StrMap<Option<String>>,
    density: Density,
    sidebar_drag: bool,
    auto_update: bool,
    detached: StrMap<LectorDetached>,
}

impl AppState {
    /// The bookkeeping maps each keep distinct keys.
    pub closed spec fn wf(&self) -> bool {
        &&& self.active.wf()
        &&& self.colours.wf()
        &&& self.detached.wf()
    }

    /// The last-good resolved rows, in `tab_views` order.
    pub closed spec fn views_seq(&self) -> Seq<TabView> {
        self.views@
    }

    /// The active tab per window id.
    pub closed spec fn active_map(&self) -> Map<Seq<char>, Seq<char>> {
        self.active.model()
    }

    /// Each window's optional accent colour, per window id.
    pub closed spec fn colour_map(&self) -> Map<Seq<char>, Option<Seq<char>>> {
        self.colours.model()
    }

    /// The popped-out tabs, per detached window label: origin window, tab label, port.
    pub closed spec fn detached_map(&self) -> Map<Seq<char>, (Seq<char>, Seq<char>, u16)> {
        self.detached.model()
    }

    /// The whole-app chrome density.
    pub closed spec fn spec_density(&self) -> Density {
        self.density
    }

    /// The whole-app `sidebar_drag` setting.
    pub closed spec fn spec_sidebar_drag(&self) -> bool {
        self.sidebar_drag
    }

    /// The whole-app `auto_update` setting.
    pub closed spec fn spec_auto_update(&self) -> bool {
        self.auto_update
    }

    /// The popped-out tabs' labels, in the order they were popped out.
    pub closed spec fn detached_labels_seq(&self) -> Seq<Seq<char>> {
        self.detached.entries().map_values(|e: (String, LectorDetached)| e.1.tab_label@)
    }

    /// Some popped-out tab has the label `l`.
    pub open spec fn is_detached_label(&self, l: Seq<char>) -> bool {
        exists|k: Seq<char>| #[trigger] self.detached_map().contains_key(k) && self.detached_map()[k].1 == l
    }

    /// Everything but the active map is as in `other`.
    pub open spec fn same_except_active(&self, other: &AppState) -> bool {
        &&& self.views_seq() == other.views_seq()
        &&& self.colour_map() == other.colour_map()
        &&& self.detached_map() == other.detached_map()
        &&& self.spec_density() == other.spec_density()
        &&& self.spec_sidebar_drag() == other.spec_sidebar_drag()
        &&& self.spec_auto_update() == other.spec_auto_update()
    }

    /// Fresh state: no rows, nothing active, no colours, nothing popped out, comfortable
    /// density, `sidebar_drag` and `auto_update` on.
    pub fn new() -> (s: AppState)
        ensures
            s.wf(),
            s.views_seq().len() == 0,
            s.active_map() == Map::<Seq<char>, Seq<char>>::empty(),
            s.colour_map() == Map::<Seq<char>, Option<Seq<char>>>::empty(),
            s.detached_map() == Map::<Seq<char>, (Seq<char>, Seq<char>, u16)>::empty(),
            s.spec_density() == Density::Comfortable,
            s.spec_sidebar_drag(),
            s.spec_auto_update(),
    {
        AppState {
            views: Vec::new(),
            active: StrMap::new(),
            colours: StrMap::new(),
            density: Density::Comfortable,
            sidebar_drag: true,
            auto_update: true,
            detached: StrMap::new(),
        }
    }

    /// The first row labelled `label`, if any.
    pub fn view(&self, label: &str) -> (r: Option<TabView>)
        ensures
            match first_index(label_flags(self.views_seq(), label@)) {
                Some(i) => r is Some && same_view(r->0, self.views_seq()[i as int]),
                None => r is None,
            },
    {
        let ghost flags = label_flags(self.views@, label@);
        let mut i: usize = 0;
        while i < self.views.len()
            invariant
                flags == label_flags(self.views@, label@),
                i <= self.views@.len(),
                forall|k: int| 0 <= k < i ==> !flags[k],
            decreases self.views@.len() - i,
        {
            if str_eq(self.views[i].label.as_str(), label) {
                proof { lemma_first_index_is(flags, i as int); }
                return Some(self.views[i].copy());
            }
            i += 1;
        }
        proof { lemma_first_index_none(flags); }
        None
    }

    /// Replace the rows wholesale (a clean config reload).
    pub fn set_views(&mut self, views: Vec<TabView>)
        requires
            old(self).wf(),
        ensures
            final(self).wf(),
            final(self).views_seq() == views@,
            final(self).active_map() == old(self).active_map(),
            final(self).colour_map() == old(self).colour_map(),
            final(self).detached_map() == old(self).detached_map(),
            final(self).spec_density() == old(self).spec_density(),
            final(self).spec_sidebar_drag() == old(self).spec_sidebar_drag(),
            final(self).spec_auto_update() == old(self).spec_auto_update(),
    {
        self.views = views;
    }

    /// This window's rows, in the order they were resolved: the rows whose label is namespaced
    /// under `window_id`.
    pub fn views_for_window(&self, window_id: &str) -> (r: Vec<TabView>)
        ensures
            r@.len() == window_views(self.views_seq(), window_id@).len(),
            forall|i: int| 0 <= i < r@.len() ==> same_view(
                #[trigger] r@[i],
                window_views(self.views_seq(), window_id@)[i],
            ),
    {
        let w = chars_of(window_id);
        let mut r: Vec<TabView> = Vec::new();
        let mut i: usize = 0;
        assert(self.views@.take(0) =~= Seq::<TabView>::empty());
        while i < self.views.len()
            invariant
                w@ == window_id@,
                i <= self.views@.len(),
                r@.len() == window_views(self.views@.take(i as int), w@).len(),
                forall|k: int| 0 <= k < r@.len() ==> same_view(
                    #[trigger] r@[k],
                    window_views(self.views@.take(i as int), w@)[k],
                ),
            decreases self.views@.len() - i,
        {
            let ghost before = window_views(self.views@.take(i as int), w@);
            assert(self.views@.take(i + 1).drop_last() =~= self.views@.take(i as int));
            let lc = chars_of(self.views[i].label.as_str());
            if in_window_exec(&lc, &w) {
                let ghost old_r = r@;
                r.push(self.views[i].copy());
                proof {
                    let after = window_views(self.views@.take(i + 1), w@);
                    assert(after =~= before.push(self.views@[i as int]));
                    assert forall|k: int| 0 <= k < r@.len() implies same_view(#[trigger] r@[k], after[k]) by {
                        if k < old_r.len() {
                            assert(r@[k] == old_r[k]);
                        }
                    }
                }
            } else {
                assert(window_views(self.views@.take(i + 1), w@) =~= before);
            }
            i += 1;
        }
        assert(self.views@.take(i as int) =~= self.views@);
        r
    }

    /// Make `label` its window's active tab (the window is the label's namespace).
    pub fn set_active(&mut self, label: &str)
        requires
            old(self).wf(),
        ensures
            final(self).wf(),
            final(self).active_map() == old(self).active_map().insert(spec_window_of(label@), label@),
            final(self).same_except_active(old(self)),
    {
        let w = window_of(label);
        self.active.insert(w, label.to_owned());
    }

    /// The active tab of window `window_id`, if any.
    pub fn active_for(&self, window_id: &str) -> (r: Option<String>)
        requires
            self.wf(),
        ensures
            match r {
                Some(l) => self.active_map().contains_key(window_id@) && self.active_map()[window_id@]
                    == l@,
                None => !self.active_map().contains_key(window_id@),
            },
    {
        match self.active.get(window_id) {
            Some(l) => Some(l.duplicate()),
            None => None,
        }
    }

    /// Whether `label` is its window's active tab.
    pub fn is_active(&self, label: &str) -> (r: bool)
        requires
            self.wf(),
        ensures
            r == (self.active_map().contains_key(spec_window_of(label@)) && self.active_map()[spec_window_of(
                label@,
            )] == label@),
    {
        let w = window_of(label);
        match self.active.get(w.as_str()) {
            Some(l) => str_eq(l.as_str(), label),
            None => false,
        }
    }

    /// Clear this window's active tab iff it currently is `label`. Unloading a tab that isn't
    /// showing leaves the one that is alone.
    pub fn clear_active_if(&mut self, label: &str)
        requires
            old(self).wf(),
        ensures
            final(self).wf(),
            final(self).active_map() == if old(self).active_map().contains_key(spec_window_of(label@))
                && old(self).active_map()[spec_window_of(label@)] == label@ {
                old(self).active_map().remove(spec_window_of(label@))
            } else {
                old(self).active_map()
            },
            final(self).same_except_active(old(self)),
    {
        let w = window_of(label);
        let hit = match self.active.get(w.as_str()) {
            Some(l) => str_eq(l.as_str(), label),
            None => false,
        };
        if hit {
            self.active.remove(w.as_str());
        }
    }

    /// Unload tab `label`: unregister its server from `servers` (returning the handle that stops
    /// it), and if it was its window's active tab, leave that window with none.
    pub fn unload<H>(&mut self, servers: &mut Servers<H>, label: &str) -> (handle: Option<H>)
        requires
            old(self).wf(),
            old(servers).wf(),
        ensures
            final(self).wf(),
            final(servers).wf(),
            final(servers).registry() == old(servers).registry().remove(label@),
            handle == (if old(servers).registry().contains_key(label@) {
                old(servers).registry()[label@].1
            } else {
                None::<H>
            }),
            final(self).active_map() == if old(self).active_map().contains_key(spec_window_of(label@))
                && old(self).active_map()[spec_window_of(label@)] == label@ {
                old(self).active_map().remove(spec_window_of(label@))
            } else {
                old(self).active_map()
            },
            final(self).same_except_active(old(self)),
    {
        let handle = servers.stop(label);
        self.clear_active_if(label);
        handle
    }

    /// Set window `window_id`'s accent colour.
    pub fn set_colour(&mut self, window_id: &str, colour: Option<String>)
        requires
            old(self).wf(),
        ensures
            final(self).wf(),
            final(self).colour_map() == old(self).colour_map().insert(window_id@, colour.deep_view()),
            final(self).views_seq() == old(self).views_seq(),
            final(self).active_map() == old(self).active_map(),
            final(self).detached_map() == old(self).detached_map(),
            final(self).spec_density() == old(self).spec_density(),
            final(self).spec_sidebar_drag() == old(self).spec_sidebar_drag(),
            final(self).spec_auto_update() == old(self).spec_auto_update(),
    {
        self.colours.insert(window_id.to_owned(), colour);
    }

    /// Window `window_id`'s accent colour: `None` when it has none or was never set.
    pub fn colour_for(&self, window_id: &str) -> (r: Option<String>)
        requires
            self.wf(),
        ensures
            r.deep_view() == if self.colour_map().contains_key(window_id@) {
                self.colour_map()[window_id@]
            } else {
                None
            },
    {
        match self.colours.get(window_id) {
            Some(c) => c.duplicate(),
            None => None,
        }
    }

    /// Install the whole-app chrome settings.
    pub fn set_global(&mut self, density: Density, sidebar_drag: bool, auto_update: bool)
        requires
            old(self).wf(),
        ensures
            final(self).wf(),
            final(self).spec_density() == density,
            final(self).spec_sidebar_drag() == sidebar_drag,
            final(self).spec_auto_update() == auto_update,
            final(self).views_seq() == old(self).views_seq(),
            final(self).active_map() == old(self).active_map(),
            final(self).colour_map() == old(self).colour_map(),
            final(self).detached_map() == old(self).detached_map(),
    {
        self.density = density;
        self.sidebar_drag = sidebar_drag;
        self.auto_update = auto_update;
    }

    /// The whole-app chrome density.
    pub fn density(&self) -> (d: Density)
        ensures
            d == self.spec_density(),
    {
        self.density
    }

    /// The whole-app `sidebar_drag` setting.
    pub fn sidebar_drag(&self) -> (b: bool)
        ensures
            b == self.spec_sidebar_drag(),
    {
        self.sidebar_drag
    }

    /// The whole-app `auto_update` setting.
    pub fn auto_update(&self) -> (b: bool)
        ensures
            b == self.spec_auto_update(),
    {
        self.auto_update
    }

    /// The banner identity of window `window_id` titled `title`: its colour and the whole-app
    /// chrome settings.
    pub fn identity(&self, window_id: &str, title: String) -> (id: Identity)
        requires
            self.wf(),
        ensures
            id.title == title,
            id.colour.deep_view() == if self.colour_map().contains_key(window_id@) {
                self.colour_map()[window_id@]
            } else {
                None
            },
            id.density == self.spec_density(),
            id.sidebar_drag == self.spec_sidebar_drag(),
            id.auto_update == self.spec_auto_update(),
    {
        Identity {
            title,
            colour: self.colour_for(window_id),
            density: self.density,
            sidebar_drag: self.sidebar_drag,
            auto_update: self.auto_update,
        }
    }

    /// Record that tab `d.tab_label` is popped out into the detached window `detached_label`.
    pub fn insert_detached(&mut self, detached_label: String, d: LectorDetached)
        requires
            old(self).wf(),
        ensures
            final(self).wf(),
            final(self).detached_map() == old(self).detached_map().insert(detached_label@, d.deep_view()),
            final(self).views_seq() == old(self).views_seq(),
            final(self).active_map() == old(self).active_map(),
            final(self).colour_map() == old(self).colour_map(),
            final(self).spec_density() == old(self).spec_density(),
            final(self).spec_sidebar_drag() == old(self).spec_sidebar_drag(),
            final(self).spec_auto_update() == old(self).spec_auto_update(),
    {
        self.detached.insert(detached_label, d);
    }

    /// The popped-out tab in detached window `detached_label`, if any, left in place.
    pub fn peek_detached(&self, detached_label: &str) -> (r: Option<LectorDetached>)
        requires
            self.wf(),
        ensures
            match r {
                Some(d) => self.detached_map().contains_key(detached_label@)
                    && self.detached_map()[detached_label@] == d.deep_view(),
                None => !self.detached_map().contains_key(detached_label@),
            },
    {
        match self.detached.get(detached_label) {
            Some(d) => Some(d.duplicate()),
            None => None,
        }
    }

    /// Take the popped-out tab in detached window `detached_label` off the books (its window
    /// closed), returning it.
    pub fn take_detached(&mut self, detached_label: &str) -> (r: Option<LectorDetached>)
        requires
            old(self).wf(),
        ensures
            final(self).wf(),
            final(self).detached_map() == old(self).detached_map().remove(detached_label@),
            match r {
                Some(d) => old(self).detached_map().contains_key(detached_label@)
                    && old(self).detached_map()[detached_label@] == d.deep_view(),
                None => !old(self).detached_map().contains_key(detached_label@),
            },
            final(self).views_seq() == old(self).views_seq(),
            final(self).active_map() == old(self).active_map(),
            final(self).colour_map() == old(self).colour_map(),
            final(self).spec_density() == old(self).spec_density(),
            final(self).spec_sidebar_drag() == old(self).spec_sidebar_drag(),
            final(self).spec_auto_update() == old(self).spec_auto_update(),
    {
        self.detached.remove(detached_label)
    }

    /// Whether any tab is popped out.
    pub fn has_detached(&self) -> (r: bool)
        requires
            self.wf(),
        ensures
            r == exists|k: Seq<char>| #[trigger] self.detached_map().contains_key(k),
    {
        proof { self.detached.lemma_model(); }
        if self.detached.len() > 0 {
            proof {
                let k = self.detached.entries()[0].0@;
                assert(self.detached_map().contains_key(k));
            }
            true
        } else {
            false
        }
    }

    /// Every tab label currently popped out into its own window, across every window.
    pub fn detached_tab_labels(&self) -> (r: Vec<String>)
        requires
            self.wf(),
        ensures
            strings_view(r@) == self.detached_labels_seq(),
            forall|l: Seq<char>| (exists|i: int| 0 <= i < r@.len() && (#[trigger] r@[i])@ == l) <==> self.is_detached_label(l),
    {
        proof { self.detached.lemma_model(); }
        let mut r: Vec<String> = Vec::new();
        let mut i: usize = 0;
        while i < self.detached.len()
            invariant
                self.wf(),
                i <= self.detached.entries().len(),
                r@.len() == i,
                forall|k: int| 0 <= k < i ==> (#[trigger] r@[k])@ == self.detached.entries()[k].1.tab_label@,
            decreases self.detached.entries().len() - i,
        {
            r.push(self.detached.value_at(i).tab_label.clone());
            i += 1;
        }
        proof {
            self.detached.lemma_model();
            assert forall|l: Seq<char>| (exists|i: int| 0 <= i < r@.len() && (#[trigger] r@[i])@ == l) <==> self.is_detached_label(l) by {
                if exists|i: int| 0 <= i < r@.len() && (#[trigger] r@[i])@ == l {
                    let i = choose|i: int| 0 <= i < r@.len() && (#[trigger] r@[i])@ == l;
                    let k = self.detached.entries()[i].0@;
                    assert(self.detached_map().contains_key(k));
                    assert(self.detached_map()[k] == self.detached.entries()[i].1.deep_view());
                }
                if self.is_detached_label(l) {
                    let k = choose|k: Seq<char>| #[trigger] self.detached_map().contains_key(k) && self.detached_map()[k].1 == l;
                    let i = choose|i: int| 0 <= i < self.detached.entries().len() && self.detached.entries()[i].0@ == k;
                    assert(self.detached_map()[self.detached.entries()[i].0@] == self.detached.entries()[i].1.deep_view());
                    assert(r@[i]@ == l);
                }
            }
            assert(strings_view(r@) =~= self.detached_labels_seq());
        }
        r
    }

    /// Whether tab `label` is popped out.
    pub fn is_detached_tab(&self, label: &str) -> (r: bool)
        requires
            self.wf(),
        ensures
            r == self.is_detached_label(label@),
    {
        match self.detached_window_for(label) {
            Some(_) => true,
            None => false,
        }
    }

    /// The detached window hosting tab `tab_label`, if it is popped out.
    pub fn detached_window_for(&self, tab_label: &str) -> (r: Option<String>)
        requires
            self.wf(),
        ensures
            match r {
                Some(k) => self.detached_map().contains_key(k@) && self.detached_map()[k@].1 == tab_label@,
                None => !self.is_detached_label(tab_label@),
            },
    {
        proof { self.detached.lemma_model(); }
        let mut i: usize = 0;
        while i < self.detached.len()
            invariant
                self.wf(),
                i <= self.detached.entries().len(),
                forall|k: int| 0 <= k < i ==> self.detached.entries()[k].1.tab_label@ != tab_label@,
            decreases self.detached.entries().len() - i,
        {
            if str_eq(self.detached.value_at(i).tab_label.as_str(), tab_label) {
                proof {
                    self.detached.lemma_model();
                    assert(self.detached_map()[self.detached.entries()[i as int].0@] == self.detached.entries()[i as int].1.deep_view());
                }
                return Some(self.detached.key_at(i).clone());
            }
            i += 1;
        }
        proof {
            self.detached.lemma_model();
            if self.is_detached_label(tab_label@) {
                let k = choose|k: Seq<char>| #[trigger] self.detached_map().contains_key(k) && self.detached_map()[k].1 == tab_label@;
                let j = choose|j: int| 0 <= j < self.detached.entries().len() && self.detached.entries()[j].0@ == k;
                assert(self.detached_map()[self.detached.entries()[j].0@] == self.detached.entries()[j].1.deep_view());
            }
        }
        None
    }
}

/// `|a - b|`.
pub open spec fn dist(a: int, b: int) -> int {
    if a >= b {
        a - b
    } else {
        b - a
    }
}

/// Row `n` is a live row other than `idx`.
pub open spec fn is_live_neighbour(live: Seq<bool>, idx: int, n: int) -> bool {
    0 <= n < live.len() && n != idx && live[n]
}

/// `n` is at least as near to `idx` as `m`, ties going to the left.
pub open spec fn nearer(idx: int, n: int, m: int) -> bool {
    dist(idx, n) < dist(idx, m) || (dist(idx, n) == dist(idx, m) && n <= m)
}

/// `n` is the nearest live row to `idx` other than `idx` itself (the left one on a tie).
pub open spec fn is_nearest_live(live: Seq<bool>, idx: int, n: int) -> bool {
    &&& is_live_neighbour(live, idx, n)
    &&& forall|m: int| #[trigger] is_live_neighbour(live, idx, m) ==> nearer(idx, n, m)
}

/// The nearest live row to `idx` other than itself, if there is a live one.
pub open spec fn nearest_live(live: Seq<bool>, idx: int) -> Option<int> {
    if exists|n: int| is_nearest_live(live, idx, n) {
        Some(choose|n: int| is_nearest_live(live, idx, n))
    } else {
        None
    }
}

/// There is at most one nearest live row.
pub proof fn lemma_nearest_unique(live: Seq<bool>, idx: int, a: int, b: int)
    requires
        is_nearest_live(live, idx, a),
        is_nearest_live(live, idx, b),
    ensures
        a == b,
{
    assert(is_live_neighbour(live, idx, a));
    assert(is_live_neighbour(live, idx, b));
    assert(nearer(idx, a, b));
    assert(nearer(idx, b, a));
}

/// The row vacated by an unload or a pop-out is never its own neighbour, even when its server
/// is still live.
pub proof fn lemma_never_self_promotes(live: Seq<bool>, idx: int)
    ensures
        nearest_live(live, idx) != Some(idx),
{
    if nearest_live(live, idx) == Some(idx) {
        let n = choose|n: int| is_nearest_live(live, idx, n);
        assert(is_nearest_live(live, idx, n));
    }
}

/// When any row other than `idx` is live, a nearest one exists: the empty background shows only
/// when the vacated row was the last live one.
pub proof fn lemma_nearest_exists(live: Seq<bool>, idx: int, n: int)
    requires
        is_live_neighbour(live, idx, n),
    ensures
        nearest_live(live, idx) is Some,
{
    // The leftmost row at the smallest distance is nearest.
    let best = choose|b: int| is_live_neighbour(live, idx, b) && forall|m: int|
        #[trigger] is_live_neighbour(live, idx, m) ==> nearer(idx, b, m);
    if !exists|b: int| is_live_neighbour(live, idx, b) && forall|m: int|
        #[trigger] is_live_neighbour(live, idx, m) ==> nearer(idx, b, m) {
        lemma_some_nearest(live, idx, n, 0);
    }
    assert(is_nearest_live(live, idx, best));
}

/// Scanning from `lo`, some live row is nearest when a live row at or after `lo` exists, or an
/// earlier candidate `n` is nearest among rows before `lo`.
proof fn lemma_some_nearest(live: Seq<bool>, idx: int, n: int, lo: int)
    requires
        is_live_neighbour(live, idx, n),
        0 <= lo <= n,
        forall|m: int| 0 <= m < lo && #[trigger] is_live_neighbour(live, idx, m) ==> nearer(idx, n, m),
    ensures
        exists|b: int| is_live_neighbour(live, idx, b) && forall|m: int|
            #[trigger] is_live_neighbour(live, idx, m) ==> nearer(idx, b, m),
    decreases live.len() - lo,
{
    if lo >= live.len() {
        assert forall|m: int| #[trigger] is_live_neighbour(live, idx, m) implies nearer(idx, n, m) by {
            assert(m < lo);
        }
    } else if is_live_neighbour(live, idx, lo) && !nearer(idx, n, lo) {
        assert forall|m: int| 0 <= m < lo + 1 && #[trigger] is_live_neighbour(live, idx, m) implies nearer(idx, lo, m) by {
            if m < lo {
                assert(nearer(idx, n, m));
            }
        }
        lemma_some_nearest_from(live, idx, lo, lo + 1);
    } else {
        if lo + 1 <= n {
            lemma_some_nearest(live, idx, n, lo + 1);
        } else {
            lemma_some_nearest_from(live, idx, n, lo + 1);
        }
    }
}

/// As `lemma_some_nearest`, once the candidate lies before the scan position.
proof fn lemma_some_nearest_from(live: Seq<bool>, idx: int, n: int, lo: int)
    requires
        is_live_neighbour(live, idx, n),
        0 <= n < lo,
        forall|m: int| 0 <= m < lo && #[trigger] is_live_neighbour(live, idx, m) ==> nearer(idx, n, m),
    ensures
        exists|b: int| is_live_neighbour(live, idx, b) && forall|m: int|
            #[trigger] is_live_neighbour(live, idx, m) ==> nearer(idx, b, m),
    decreases live.len() - lo,
{
    if lo >= live.len() {
        assert forall|m: int| #[trigger] is_live_neighbour(live, idx, m) implies nearer(idx, n, m) by {
            assert(m < lo);
        }
    } else if is_live_neighbour(live, idx, lo) && !nearer(idx, n, lo) {
        assert forall|m: int| 0 <= m < lo + 1 && #[trigger] is_live_neighbour(live, idx, m) implies nearer(idx, lo, m) by {
            if m < lo {
                assert(nearer(idx, n, m));
            }
        }
        lemma_some_nearest_from(live, idx, lo, lo + 1);
    } else {
        lemma_some_nearest_from(live, idx, n, lo + 1);
    }
}

/// The nearest live row to `idx` other than `idx` itself, preferring the left one on a tie;
/// `None` when no other row is live.
pub fn pick_live_neighbour(idx: usize, live: &Vec<bool>) -> (r: Option<usize>)
    ensures
        match nearest_live(live@, idx as int) {
            Some(n) => r == Some(n as usize),
            None => r is None,
        },
{
    let mut best: Option<usize> = None;
    let mut m: usize = 0;
    while m < live.len()
        invariant
            m <= live@.len(),
            match best {
                Some(b) => b < m && is_live_neighbour(live@, idx as int, b as int) && forall|k: int|
                    0 <= k < m && #[trigger] is_live_neighbour(live@, idx as int, k) ==> nearer(
                        idx as int,
                        b as int,
                        k,
                    ),
                None => forall|k: int| 0 <= k < m ==> !#[trigger] is_live_neighbour(live@, idx as int, k),
            },
        decreases live@.len() - m,
    {
        if m != idx && live[m] {
            let dm = if idx >= m { idx - m } else { m - idx };
            match best {
                Some(b) => {
                    let db = if idx >= b { idx - b } else { b - idx };
                    if dm < db {
                        best = Some(m);
                    }
                },
                None => {
                    best = Some(m);
                },
            }
        }
        m += 1;
    }
    match best {
        Some(b) => {
            proof {
                assert forall|k: int| #[trigger] is_live_neighbour(live@, idx as int, k) implies nearer(idx as int, b as int, k) by {}
                assert(is_nearest_live(live@, idx as int, b as int));
                let c = choose|n: int| is_nearest_live(live@, idx as int, n);
                lemma_nearest_unique(live@, idx as int, b as int, c);
            }
            Some(b)
        },
        None => {
            assert(!exists|n: int| is_nearest_live(live@, idx as int, n));
            None
        },
    }
}

/// The label to promote after `unloaded` leaves the window, given the window's rows in render
/// order and whether each row's server is up (`live[i]` for row `i`): the nearest live row other
/// than the vacated one, the left one on a tie; `None` (the empty background) when no other row is
/// live or `unloaded` is not among the rows.
pub fn neighbour_label(views: &Vec<TabView>, unloaded: &str, live: &Vec<bool>) -> (r: Option<String>)
    requires
        live@.len() <= views@.len(),
    ensures
        match first_index(label_flags(views@, unloaded@)) {
            Some(i) => match nearest_live(live@, i as int) {
                Some(n) => r is Some && r->0@ == views@[n].label@,
                None => r is None,
            },
            None => r is None,
        },
{
    let ghost flags = label_flags(views@, unloaded@);
    let mut i: usize = 0;
    while i < views.len()
        invariant
            flags == label_flags(views@, unloaded@),
            live@.len() <= views@.len(),
            i <= views@.len(),
            forall|k: int| 0 <= k < i ==> !flags[k],
        decreases views@.len() - i,
    {
        if str_eq(views[i].label.as_str(), unloaded) {
            proof { lemma_first_index_is(flags, i as int); }
            return match pick_live_neighbour(i, live) {
                Some(n) => Some(views[n].label.clone()),
                None => None,
            };
        }
        i += 1;
    }
    proof { lemma_first_index_none(flags); }
    None
}

/// Whether some string in `v` is `s`.
pub fn contains_str(v: &Vec<String>, s: &str) -> (r: bool)
    ensures
        r == exists|i: int| 0 <= i < v@.len() && (#[trigger] v@[i])@ == s@,
{
    let mut i: usize = 0;
    while i < v.len()
        invariant
            i <= v@.len(),
            forall|k: int| 0 <= k < i ==> (#[trigger] v@[k])@ != s@,
        decreases v@.len() - i,
    {
        if str_eq(v[i].as_str(), s) {
            return true;
        }
        i += 1;
    }
    false
}

/// `p` is the sidebar row for `v`, given whether its server is up, the window's active label
/// and the popped-out labels.
pub open spec fn payload_matches(
    p: TabPayload,
    v: TabView,
    live: bool,
    active: Option<Seq<char>>,
    detached: Seq<String>,
) -> bool {
    &&& p.label == v.label
    &&& p.title == v.title
    &&& p.group == v.group
    &&& p.loaded == live
    &&& p.active == (active == Some(v.label@))
    &&& p.detached == exists|i: int| 0 <= i < detached.len() && (#[trigger] detached[i])@ == v.label@
    &&& p.tree == v.tree
    &&& p.tree_path@ == v.tree_path@
}

/// Project the resolved rows into sidebar rows. `views` must already be in render order;
/// `live[i]` says whether row `i`'s server is registered and still answering — never the
/// config's `load_on_open`; `active` is the window's active label; `detached` the labels
/// currently popped out.
pub fn tab_dtos(
    views: &Vec<TabView>,
    live: &Vec<bool>,
    active: Option<&str>,
    detached: &Vec<String>,
) -> (rows: Vec<TabPayload>)
    requires
        live@.len() == views@.len(),
    ensures
        rows@.len() == views@.len(),
        forall|i: int| 0 <= i < rows@.len() ==> payload_matches(
            #[trigger] rows@[i],
            views@[i],
            live@[i],
            match active {
                Some(a) => Some(a@),
                None => None,
            },
            detached@,
        ),
{
    let mut rows: Vec<TabPayload> = Vec::new();
    let mut i: usize = 0;
    while i < views.len()
        invariant
            live@.len() == views@.len(),
            i <= views@.len(),
            rows@.len() == i,
            forall|k: int| 0 <= k < i ==> payload_matches(
                #[trigger] rows@[k],
                views@[k],
                live@[k],
                match active {
                    Some(a) => Some(a@),
                    None => None,
                },
                detached@,
            ),
        decreases views@.len() - i,
    {
        let v = &views[i];
        let is_active = match active {
            Some(a) => str_eq(a, v.label.as_str()),
            None => false,
        };
        rows.push(
            TabPayload {
                label: v.label.clone(),
                title: v.title.clone(),
                group: copy_opt_string(&v.group),
                loaded: live[i],
                active: is_active,
                detached: contains_str(detached, v.label.as_str()),
                tree: v.tree,
                tree_path: copy_strings(&v.tree_path),
            },
        );
        i += 1;
    }
    rows
}

/// What unloading a tab did to the state.
#[derive(Debug, Clone, Copy, PartialEq, Eq, Structural)]
pub enum UnloadPlan {
    /// The tab is popped out: nothing is torn down.
    Ignored,
    /// The tab was unloaded; `was_active` says whether it was its window's active tab (and so
    /// whether a neighbour should be promoted).
    Unloaded { was_active: bool },
}

/// What closing a popped-out tab's detached window comes to.
#[derive(Debug, Clone, PartialEq)]
pub enum Redock {
    /// The detached window was already redocked (a second close): nothing to do.
    Done,
    /// The tab's row vanished from the config while it was out: it ends, and nothing wants its
    /// server any more.
    Ended { tab_label: String },
    /// The tab returns to its origin window, on the same port, as that window's active tab.
    Returned { origin_wid: String, tab_label: String, port: u16 },
}

impl AppState {
    /// Take the tab of the closed detached window `detached_label` off the books and decide its
    /// fate: nothing if it was already taken; it ends if no row has its label any more; otherwise
    /// it becomes its window's active tab again.
    pub fn finish_redock(&mut self, detached_label: &str) -> (r: Redock)
        requires
            old(self).wf(),
        ensures
            final(self).wf(),
            final(self).detached_map() == old(self).detached_map().remove(detached_label@),
            final(self).views_seq() == old(self).views_seq(),
            final(self).colour_map() == old(self).colour_map(),
            final(self).spec_density() == old(self).spec_density(),
            final(self).spec_sidebar_drag() == old(self).spec_sidebar_drag(),
            final(self).spec_auto_update() == old(self).spec_auto_update(),
            !old(self).detached_map().contains_key(detached_label@) ==> r is Done
                && final(self).active_map() == old(self).active_map(),
            old(self).detached_map().contains_key(detached_label@) ==> ({
                let d = old(self).detached_map()[detached_label@];
                if first_index(label_flags(old(self).views_seq(), d.1)) is None {
                    &&& r matches Redock::Ended { tab_label } && tab_label@ == d.1
                    &&& final(self).active_map() == old(self).active_map()
                } else {
                    &&& r matches Redock::Returned { origin_wid, tab_label, port } && origin_wid@ == d.0
                        && tab_label@ == d.1 && port == d.2
                    &&& final(self).active_map() == old(self).active_map().insert(spec_window_of(d.1), d.1)
                }
            }),
    {
        match self.take_detached(detached_label) {
            None => Redock::Done,
            Some(d) => {
                match self.view(d.tab_label.as_str()) {
                    None => Redock::Ended { tab_label: d.tab_label },
                    Some(_) => {
                        self.set_active(d.tab_label.as_str());
                        Redock::Returned { origin_wid: d.origin_wid, tab_label: d.tab_label, port: d.port }
                    },
                }
            },
        }
    }
}

/// `label` is its window's active tab in `active`.
pub open spec fn was_active_in(active: Map<Seq<char>, Seq<char>>, label: Seq<char>) -> bool {
    active.contains_key(spec_window_of(label)) && active[spec_window_of(label)] == label
}

/// `active` with `label`'s window cleared if `label` is its active tab.
pub open spec fn cleared_active(active: Map<Seq<char>, Seq<char>>, label: Seq<char>) -> Map<Seq<char>, Seq<char>> {
    if was_active_in(active, label) {
        active.remove(spec_window_of(label))
    } else {
        active
    }
}

/// The message for popping out a tab that already is.
pub open spec fn already_popped_message(label: Seq<char>) -> Seq<char> {
    label + " is already popped out"@
}

/// The message for a label no row has.
pub open spec fn no_such_tab_message(label: Seq<char>) -> Seq<char> {
    "no such tab: "@ + label
}

impl AppState {
    /// The row to select for `label`, or the message the chrome shows when there is none.
    pub fn select_target(&self, label: &str) -> (r: Result<TabView, String>)
        ensures
            match first_index(label_flags(self.views_seq(), label@)) {
                Some(i) => r is Ok && same_view(r->Ok_0, self.views_seq()[i as int]),
                None => r is Err && r->Err_0@ == no_such_tab_message(label@),
            },
    {
        match self.view(label) {
            Some(v) => Ok(v),
            None => {
                let mut m: Vec<char> = Vec::new();
                push_str(&mut m, "no such tab: ");
                push_str(&mut m, label);
                Err(string_of(&m))
            },
        }
    }

    /// Unloading tab `label` from the sidebar: a popped-out tab is left alone, server and all (its
    /// detached window still shows it); otherwise it is unloaded as by [`AppState::unload`],
    /// reporting whether it was its window's active tab, with the handle that stops its server.
    pub fn begin_unload<H>(&mut self, servers: &mut Servers<H>, label: &str) -> (r: (UnloadPlan, Option<H>))
        requires
            old(self).wf(),
            old(servers).wf(),
        ensures
            final(self).wf(),
            final(servers).wf(),
            final(self).same_except_active(old(self)),
            old(self).is_detached_label(label@) ==> (r.0 == UnloadPlan::Ignored && r.1 is None
                && final(self).active_map() == old(self).active_map()
                && final(servers).registry() == old(servers).registry()),
            !old(self).is_detached_label(label@) ==> (r.0 == (UnloadPlan::Unloaded {
                was_active: was_active_in(old(self).active_map(), label@),
            }) && final(self).active_map() == cleared_active(old(self).active_map(), label@)
                && final(servers).registry() == old(servers).registry().remove(label@)
                && r.1 == (if old(servers).registry().contains_key(label@) {
                    old(servers).registry()[label@].1
                } else {
                    None::<H>
                })),
    {
        if self.is_detached_tab(label) {
            return (UnloadPlan::Ignored, None);
        }
        let was_active = self.is_active(label);
        let handle = self.unload(servers, label);
        (UnloadPlan::Unloaded { was_active }, handle)
    }

    /// Check that tab `label` can be popped out: not already popped out, and a known row.
    pub fn pop_out_target(&self, label: &str) -> (r: Result<TabView, String>)
        requires
            self.wf(),
        ensures
            self.is_detached_label(label@) ==> r is Err && r->Err_0@ == already_popped_message(label@),
            !self.is_detached_label(label@) ==> match first_index(label_flags(self.views_seq(), label@)) {
                Some(i) => r is Ok && same_view(r->Ok_0, self.views_seq()[i as int]),
                None => r is Err && r->Err_0@ == no_such_tab_message(label@),
            },
    {
        if self.is_detached_tab(label) {
            let mut m: Vec<char> = Vec::new();
            push_str(&mut m, label);
            push_str(&mut m, " is already popped out");
            return Err(string_of(&m));
        }
        self.select_target(label)
    }

    /// Clear `label` as its window's active tab (it is leaving the window), reporting whether it
    /// was active.
    pub fn release_active(&mut self, label: &str) -> (was_active: bool)
        requires
            old(self).wf(),
        ensures
            final(self).wf(),
            was_active == (old(self).active_map().contains_key(spec_window_of(label@))
                && old(self).active_map()[spec_window_of(label@)] == label@),
            final(self).active_map() == if was_active {
                old(self).active_map().remove(spec_window_of(label@))
            } else {
                old(self).active_map()
            },
            final(self).same_except_active(old(self)),
    {
        let was_active = self.is_active(label);
        self.clear_active_if(label);
        was_active
    }

    /// The labels whose servers must survive a reconcile: every current row's, plus every
    /// popped-out tab's (its detached window still shows it, even if its config entry vanished).
    pub fn retained_labels(&self) -> (keep: Vec<String>)
        requires
            self.wf(),
        ensures
            strings_view(keep@) == view_labels(self.views_seq()) + self.detached_labels_seq(),
    {
        let mut keep: Vec<String> = Vec::new();
        let mut i: usize = 0;
        while i < self.views.len()
            invariant
                i <= self.views@.len(),
                strings_view(keep@) == view_labels(self.views@).take(i as int),
            decreases self.views@.len() - i,
        {
            let ghost before = keep@;
            keep.push(self.views[i].label.clone());
            assert(strings_view(keep@) =~= strings_view(before).push(self.views@[i as int].label@));
            assert(view_labels(self.views@).take(i + 1) =~= view_labels(self.views@).take(i as int).push(self.views@[i as int].label@));
            i += 1;
        }
        assert(view_labels(self.views@).take(i as int) =~= view_labels(self.views@));
        let extra = self.detached_tab_labels();
        let ghost base = strings_view(keep@);
        let mut j: usize = 0;
        while j < extra.len()
            invariant
                j <= extra@.len(),
                strings_view(keep@) == base + strings_view(extra@).take(j as int),
            decreases extra@.len() - j,
        {
            let ghost before = keep@;
            keep.push(extra[j].clone());
            assert(strings_view(keep@) =~= strings_view(before).push(extra@[j as int]@));
            assert(strings_view(extra@).take(j + 1) =~= strings_view(extra@).take(j as int).push(extra@[j as int]@));
            j += 1;
        }
        assert(strings_view(extra@).take(j as int) =~= strings_view(extra@));
        keep
    }
}

/// The views of a list of strings.
pub open spec fn strings_view(v: Seq<String>) -> Seq<Seq<char>> {
    v.map_values(|s: String| s@)
}

/// The labels of a list of rows.
pub open spec fn view_labels(vs: Seq<TabView>) -> Seq<Seq<char>> {
    vs.map_values(|v: TabView| v.label@)
}

/// Indices of the first `n` rows that are `load_on_open` and not already live, in order.
pub open spec fn eager_upto(views: Seq<TabView>, live: Seq<bool>, n: nat) -> Seq<usize>
    decreases n,
{
    if n == 0 {
        Seq::empty()
    } else {
        eager_upto(views, live, (n - 1) as nat) + if views[n - 1].load_on_open && !live[n - 1] {
            seq![(n - 1) as usize]
        } else {
            Seq::empty()
        }
    }
}

/// The rows to start at launch or after a reload: each `load_on_open` row whose server is not
/// already up (`live[i]`), in order. An already-live row is never restarted.
pub fn eager_starts(views: &Vec<TabView>, live: &Vec<bool>) -> (idx: Vec<usize>)
    requires
        live@.len() == views@.len(),
    ensures
        idx@ == eager_upto(views@, live@, views@.len()),
{
    let mut idx: Vec<usize> = Vec::new();
    let mut i: usize = 0;
    while i < views.len()
        invariant
            live@.len() == views@.len(),
            i <= views@.len(),
            idx@ == eager_upto(views@, live@, i as nat),
        decreases views@.len() - i,
    {
        if views[i].load_on_open && !live[i] {
            idx.push(i);
        }
        assert(idx@ =~= eager_upto(views@, live@, (i + 1) as nat));
        i += 1;
    }
    idx
}


/// The rows reconcile starts are exactly the `load_on_open` rows whose server is not already up,
/// each once, in ascending order: none is skipped and no other row (live or lazy) is started.
pub proof fn law_eager_starts_every_cold_eager_row(views: Seq<TabView>, live: Seq<bool>)
    requires
        live.len() == views.len(),
        views.len() <= usize::MAX,
    ensures
        ({
            let idx = eager_upto(views, live, views.len());
            &&& forall|a: int, b: int| 0 <= a < b < idx.len() ==> idx[a] < idx[b]
            &&& forall|a: int| 0 <= a < idx.len() ==> {
                &&& (#[trigger] idx[a]) < views.len()
                &&& views[idx[a] as int].load_on_open
                &&& !live[idx[a] as int]
            }
            &&& forall|i: int| 0 <= i < views.len() && views[i].load_on_open && !live[i] ==> idx.contains(
                i as usize,
            )
        }),
{
    lemma_eager_upto(views, live, views.len());
}

proof fn lemma_eager_upto(views: Seq<TabView>, live: Seq<bool>, n: nat)
    requires
        live.len() == views.len(),
        n <= views.len(),
        views.len() <= usize::MAX,
    ensures
        ({
            let idx = eager_upto(views, live, n);
            &&& forall|a: int, b: int| 0 <= a < b < idx.len() ==> idx[a] < idx[b]
            &&& forall|a: int| 0 <= a < idx.len() ==> {
                &&& (#[trigger] idx[a]) < n
                &&& views[idx[a] as int].load_on_open
                &&& !live[idx[a] as int]
            }
            &&& forall|i: int| 0 <= i < n && views[i].load_on_open && !live[i] ==> idx.contains(i as usize)
        }),
    decreases n,
{
    if n > 0 {
        lemma_eager_upto(views, live, (n - 1) as nat);
        let prev = eager_upto(views, live, (n - 1) as nat);
        let idx = eager_upto(views, live, n);
        let m = (n - 1) as int;
        if views[m].load_on_open && !live[m] {
            assert(idx == prev + seq![m as usize]);
            assert(idx[prev.len() as int] == m as usize);
            assert forall|a: int| 0 <= a < prev.len() implies idx[a] == prev[a] by {}
            assert forall|a: int, b: int| 0 <= a < b < idx.len() implies idx[a] < idx[b] by {
                assert(idx[a] == prev[a]);
                assert(prev[a] < n - 1);
                if b < prev.len() {
                    assert(idx[b] == prev[b]);
                } else {
                    assert(b == prev.len());
                    assert(idx[b] == m as usize);
                }
            }
            assert forall|a: int| 0 <= a < idx.len() implies {
                &&& (#[trigger] idx[a]) < n
                &&& views[idx[a] as int].load_on_open
                &&& !live[idx[a] as int]
            } by {
                if a < prev.len() {
                    assert(idx[a] == prev[a]);
                    assert(prev[a] < n - 1);
                    assert(views[prev[a] as int].load_on_open);
                } else {
                    assert(idx[a] == m as usize);
                }
            }
            assert forall|i: int| 0 <= i < n && views[i].load_on_open && !live[i] implies idx.contains(i as usize) by {
                if i < m {
                    let a = choose|a: int| 0 <= a < prev.len() && prev[a] == i as usize;
                    assert(idx[a] == prev[a]);
                } else {
                    assert(idx[prev.len() as int] == i as usize);
                }
            }
        } else {
            assert(idx =~= prev);
            assert forall|i: int| 0 <= i < n && views[i].load_on_open && !live[i] implies idx.contains(i as usize) by {
                assert(i < m);
            }
        }
    }
}

} // verus!
