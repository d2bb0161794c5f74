//! The registry of live site servers, keyed by tab label. A label absent from the registry is a
//! cold tab; a present one owns a server on a loopback port. The registry never starts or stops a
//! server itself: it records ports and hands back the handles that the caller must shut down, so
//! that a shutdown (which joins threads) never runs while the registry is locked.

use vstd::prelude::*;
use crate::keyed::{keys_unique, StrMap};
use crate::state::{contains_str, strings_view};

verus! {

/// One live site: its port, and the handle that stops it (absent for an entry whose server is
/// already gone).
pub struct SiteServer<H> {
    pub port: u16,
    pub handle: Option<H>,
}

impl<H> DeepView for SiteServer<H> {
    type V = (u16, Option<H>);

    open spec fn deep_view(&self) -> (u16, Option<H>) {
        (self.port, self.handle)
    }
}

/// The keys of an entry list, in order.
pub open spec fn entry_keys<H>(s: Seq<(String, SiteServer<H>)>) -> Seq<Seq<char>> {
    s.map_values(|e: (String, SiteServer<H>)| e.0@)
}

/// The handles of the entries whose key is not in `keep`, in order.
pub open spec fn released<H>(s: Seq<(String, SiteServer<H>)>, keep: Seq<Seq<char>>) -> Seq<H>
    decreases s.len(),
{
    if s.len() == 0 {
        Seq::empty()
    } else {
        released(s.drop_last(), keep) + if !keep.contains(s.last().0@) && s.last().1.handle is Some {
            seq![s.last().1.handle->0]
        } else {
            Seq::empty()
        }
    }
}

/// The keys of the first `n` entries whose flag in `answering` is set, in order.
pub open spec fn answered<H>(s: Seq<(String, SiteServer<H>)>, answering: Seq<bool>, n: nat) -> Seq<Seq<char>>
    decreases n,
{
    if n == 0 {
        Seq::empty()
    } else {
        answered(s, answering, (n - 1) as nat) + if answering[n - 1] {
            seq![s[n - 1].0@]
        } else {
            Seq::empty()
        }
    }
}

/// The set of strings a list holds.
pub open spec fn listed(keep: Seq<Seq<char>>) -> Set<Seq<char>> {
    Set::new(|k: Seq<char>| keep.contains(k))
}

/// Registering a server for a cold label and then stopping that label hands back the handle it
/// was registered with and leaves the registry exactly as it was: start/stop cycles leak nothing.
pub proof fn law_stop_undoes_register<H>(
    before: Map<Seq<char>, (u16, Option<H>)>,
    label: Seq<char>,
    port: u16,
    handle: H,
)
    requires
        !before.contains_key(label),
    ensures
        ({
            let registered = before.insert(label, (port, Some(handle)));
            &&& registered[label].0 == port
            &&& registered[label].1 == Some(handle)
            &&& registered.remove(label) == before
        }),
{
    assert(before.insert(label, (port, Some(handle))).remove(label) =~= before);
}

/// The registry of live servers.
pub struct Servers<H> {
    live: StrMap<SiteServer<H>>,
}

impl<H> Servers<H> {
    /// Labels are distinct.
    pub closed spec fn wf(&self) -> bool {
        self.live.wf()
    }

    /// Each live label mapped to its port and handle.
    pub closed spec fn registry(&self) -> Map<Seq<char>, (u16, Option<H>)> {
        self.live.model()
    }

    /// The entries in registration order.
    pub closed spec fn entries(&self) -> Seq<(String, SiteServer<H>)> {
        self.live.entries()
    }

    /// The registry is exactly the entries' labels mapped to their ports and handles.
    pub proof fn lemma_registry(&self)
        requires
            self.wf(),
        ensures
            keys_unique(self.entries()),
            forall|k: Seq<char>| #[trigger] self.registry().contains_key(k) <==> entry_keys(self.entries()).contains(k),
            forall|i: int| 0 <= i < self.entries().len() ==> #[trigger] self.registry()[self.entries()[i].0@]
                == self.entries()[i].1.deep_view(),
    {
        self.live.lemma_model();
        let ks = entry_keys(self.entries());
        assert forall|k: Seq<char>| #[trigger] self.registry().contains_key(k) <==> ks.contains(k) by {
            if self.registry().contains_key(k) {
                let i = choose|i: int| 0 <= i < self.entries().len() && self.entries()[i].0@ == k;
                assert(ks[i] == k);
            }
            if ks.contains(k) {
                let i = choose|i: int| 0 <= i < ks.len() && ks[i] == k;
                assert(self.entries()[i].0@ == k);
            }
        }
    }

    /// An empty registry: every tab cold.
    pub fn new() -> (s: Self)
        ensures
            s.wf(),
            s.registry() == Map::<Seq<char>, (u16, Option<H>)>::empty(),
    {
        Servers { live: StrMap::new() }
    }

    /// The port of `label`'s server, if it is live.
    pub fn port(&self, label: &str) -> (r: Option<u16>)
        requires
            self.wf(),
        ensures
            r == (if self.registry().contains_key(label@) {
                Some(self.registry()[label@].0)
            } else {
                None::<u16>
            }),
    {
        match self.live.get(label) {
            Some(s) => Some(s.port),
            None => None,
        }
    }

    /// Whether `label` is registered (with no probe of its port).
    pub fn is_live(&self, label: &str) -> (r: bool)
        requires
            self.wf(),
        ensures
            r == self.registry().contains_key(label@),
    {
        self.live.get(label).is_some()
    }

    /// Record a freshly started server for `label`. If another start already registered the label,
    /// the registry is left as it is and the winner's port comes back in `Err`, with the new
    /// handle, which the caller shuts down; otherwise the server is registered and its port
    /// returned.
    pub fn register(&mut self, label: &str, port: u16, handle: H) -> (r: Result<u16, (u16, H)>)
        requires
            old(self).wf(),
        ensures
            final(self).wf(),
            match r {
                Ok(p) => {
                    &&& !old(self).registry().contains_key(label@)
                    &&& p == port
                    &&& final(self).registry() == old(self).registry().insert(label@, (port, Some(handle)))
                },
                Err((winner, loser)) => {
                    &&& old(self).registry().contains_key(label@)
                    &&& winner == old(self).registry()[label@].0
                    &&& loser == handle
                    &&& final(self).registry() == old(self).registry()
                },
            },
    {
        match self.live.get(label) {
            Some(s) => Err((s.port, handle)),
            None => {
                self.live.insert(label.to_string(), SiteServer { port, handle: Some(handle) });
                Ok(port)
            },
        }
    }

    /// Unregister `label`, returning its handle to shut down, if it had one.
    pub fn stop(&mut self, label: &str) -> (r: Option<H>)
        requires
            old(self).wf(),
        ensures
            final(self).wf(),
            final(self).registry() == old(self).registry().remove(label@),
            r == (if old(self).registry().contains_key(label@) {
                old(self).registry()[label@].1
            } else {
                None::<H>
            }),
    {
        match self.live.remove(label) {
            Some(s) => s.handle,
            None => None,
        }
    }

    /// The live labels, in registration order.
    pub fn labels(&self) -> (r: Vec<String>)
        ensures
            strings_view(r@) == entry_keys(self.entries()),
    {
        let mut r: Vec<String> = Vec::new();
        let mut i: usize = 0;
        while i < self.live.len()
            invariant
                i <= self.entries().len(),
                strings_view(r@) == entry_keys(self.entries()).take(i as int),
            decreases self.entries().len() - i,
        {
            let ghost before = r@;
            r.push(self.live.key_at(i).clone());
            assert(strings_view(r@) =~= strings_view(before).push(self.entries()[i as int].0@));
            assert(entry_keys(self.entries()).take(i + 1) =~= entry_keys(self.entries()).take(i as int).push(
                self.entries()[i as int].0@,
            ));
            i += 1;
        }
        assert(entry_keys(self.entries()).take(i as int) =~= entry_keys(self.entries()));
        r
    }

    /// Unregister every label not in `keep`, returning the handles to shut down, in registration
    /// order.
    pub fn retain(&mut self, keep: &Vec<String>) -> (dropped: Vec<H>)
        requires
            old(self).wf(),
        ensures
            final(self).wf(),
            final(self).registry() == old(self).registry().restrict(listed(strings_view(keep@))),
            dropped@ == released(old(self).entries(), strings_view(keep@)),
    {
        let ghost old_reg = self.registry();
        let ghost old_entries = self.entries();
        let ghost ks = strings_view(keep@);
        proof { self.lemma_registry(); }
        let labels = self.labels();
        assert(strings_view(labels@).len() == labels@.len());
        let mut dropped: Vec<H> = Vec::new();
        let ghost mut gone: Set<Seq<char>> = Set::empty();
        let mut j: usize = 0;
        while j < labels.len()
            invariant
                self.wf(),
                strings_view(labels@) == entry_keys(old_entries),
                old_entries.len() == labels@.len(),
                j <= labels@.len(),
                ks == strings_view(keep@),
                gone == Set::new(|k: Seq<char>| exists|a: int| 0 <= a < j && labels@[a]@ == k && !ks.contains(k)),
                self.registry() == old_reg.remove_keys(gone),
                dropped@ == released(old_entries.take(j as int), ks),
                forall|k: Seq<char>| #[trigger] old_reg.contains_key(k) <==> entry_keys(old_entries).contains(k),
                forall|i: int| 0 <= i < old_entries.len() ==> #[trigger] old_reg[old_entries[i].0@]
                    == old_entries[i].1.deep_view(),
                forall|a: int, b: int| 0 <= a < b < old_entries.len() ==> (#[trigger] old_entries[a]).0@
                    != (#[trigger] old_entries[b]).0@,
            decreases labels@.len() - j,
        {
            let ghost k = labels@[j as int]@;
            assert(k == entry_keys(old_entries)[j as int]);
            assert(k == old_entries[j as int].0@);
            assert(!gone.contains(k)) by {
                if gone.contains(k) {
                    let a = choose|a: int| 0 <= a < j && labels@[a]@ == k && !ks.contains(k);
                    assert(strings_view(labels@)[a] == labels@[a]@);
                    assert(old_entries[a].0@ == entry_keys(old_entries)[a]);
                }
            }
            assert(old_reg.contains_key(k)) by {
                assert(entry_keys(old_entries)[j as int] == k);
            }
            let ghost before = dropped@;
            let kept = contains_str(keep, labels[j].as_str());
            assert(kept == ks.contains(k)) by {
                if kept {
                    let i = choose|i: int| 0 <= i < keep@.len() && (#[trigger] keep@[i])@ == labels@[j as int]@;
                    assert(ks[i] == k);
                }
                if ks.contains(k) {
                    let i = choose|i: int| 0 <= i < ks.len() && ks[i] == k;
                    assert(keep@[i]@ == k);
                }
            }
            if !kept {
                let removed = self.stop(labels[j].as_str());
                assert(removed == old_entries[j as int].1.handle);
                match removed {
                    Some(h) => { dropped.push(h); },
                    None => {},
                }
                proof {
                    let g2 = gone.insert(k);
                    assert(g2 =~= Set::new(|x: Seq<char>| exists|a: int| 0 <= a < j + 1 && labels@[a]@ == x && !ks.contains(x))) by {
                        assert forall|x: Seq<char>| g2.contains(x) <==> exists|a: int| 0 <= a < j + 1 && labels@[a]@ == x && !ks.contains(x) by {
                            if x == k {
                                assert(labels@[j as int]@ == x);
                            }
                            if exists|a: int| 0 <= a < j + 1 && labels@[a]@ == x && !ks.contains(x) {
                                let a = choose|a: int| 0 <= a < j + 1 && labels@[a]@ == x && !ks.contains(x);
                                if a < j {
                                    assert(gone.contains(x));
                                }
                            }
                        }
                    }
                    assert(old_reg.remove_keys(gone).remove(k) =~= old_reg.remove_keys(g2));
                    gone = g2;
                }
            } else {
                proof {
                    assert(gone =~= Set::new(|x: Seq<char>| exists|a: int| 0 <= a < j + 1 && labels@[a]@ == x && !ks.contains(x))) by {
                        assert forall|x: Seq<char>| gone.contains(x) <==> exists|a: int| 0 <= a < j + 1 && labels@[a]@ == x && !ks.contains(x) by {
                            if exists|a: int| 0 <= a < j + 1 && labels@[a]@ == x && !ks.contains(x) {
                                let a = choose|a: int| 0 <= a < j + 1 && labels@[a]@ == x && !ks.contains(x);
                                if a == j {
                                    assert(x == k);
                                } else {
                                    assert(gone.contains(x));
                                }
                            }
                        }
                    }
                }
            }
            assert(old_entries.take(j + 1).drop_last() =~= old_entries.take(j as int));
            assert(old_entries.take(j + 1).last() == old_entries[j as int]);
            assert(dropped@ =~= released(old_entries.take(j + 1), ks));
            j += 1;
        }
        assert(old_entries.take(j as int) =~= old_entries);
        assert(self.registry() =~= old_reg.restrict(listed(ks))) by {
            assert forall|k: Seq<char>| gone.contains(k) <==> old_reg.contains_key(k) && !ks.contains(k) by {
                if gone.contains(k) {
                    let a = choose|a: int| 0 <= a < j && labels@[a]@ == k && !ks.contains(k);
                    assert(strings_view(labels@)[a] == k);
                    assert(entry_keys(old_entries).contains(k));
                }
                if old_reg.contains_key(k) && !ks.contains(k) {
                    let a = choose|a: int| 0 <= a < entry_keys(old_entries).len() && entry_keys(old_entries)[a] == k;
                    assert(strings_view(labels@)[a] == labels@[a]@);
                }
            }
        }
        dropped
    }

    /// Unregister everything, returning every handle to shut down, in registration order.
    pub fn shutdown_all(&mut self) -> (dropped: Vec<H>)
        requires
            old(self).wf(),
        ensures
            final(self).wf(),
            final(self).registry() == Map::<Seq<char>, (u16, Option<H>)>::empty(),
            dropped@ == released(old(self).entries(), Seq::empty()),
    {
        let none: Vec<String> = Vec::new();
        let dropped = self.retain(&none);
        assert(strings_view(none@) =~= Seq::<Seq<char>>::empty());
        assert(self.registry() =~= Map::<Seq<char>, (u16, Option<H>)>::empty());
        dropped
    }

    /// Drop every label whose server no longer answers: `answering[i]` says whether the server of
    /// the `i`-th label of [`Servers::labels`] still answers on its port. Returns the handles to
    /// shut down.
    pub fn reap(&mut self, answering: &Vec<bool>) -> (dropped: Vec<H>)
        requires
            old(self).wf(),
            answering@.len() == old(self).entries().len(),
        ensures
            final(self).wf(),
            final(self).registry() == old(self).registry().restrict(
                listed(answered(old(self).entries(), answering@, answering@.len() as nat)),
            ),
            dropped@ == released(
                old(self).entries(),
                answered(old(self).entries(), answering@, answering@.len() as nat),
            ),
    {
        let labels = self.labels();
        let ghost es = self.entries();
        assert(strings_view(labels@).len() == labels@.len());
        let mut keep: Vec<String> = Vec::new();
        let mut i: usize = 0;
        while i < labels.len()
            invariant
                strings_view(labels@) == entry_keys(es),
                answering@.len() == es.len(),
                labels@.len() == es.len(),
                i <= labels@.len(),
                strings_view(keep@) == answered(es, answering@, i as nat),
            decreases labels@.len() - i,
        {
            if answering[i] {
                let ghost before = keep@;
                keep.push(labels[i].clone());
                assert(strings_view(keep@) =~= strings_view(before).push(labels@[i as int]@));
                assert(labels@[i as int]@ == strings_view(labels@)[i as int]);
            }
            assert(strings_view(keep@) =~= answered(es, answering@, (i + 1) as nat));
            i += 1;
        }
        self.retain(&keep)
    }
}

} // verus!
