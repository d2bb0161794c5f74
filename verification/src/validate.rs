//! Config validation. A parsed config is checked window by window: the window's own fields, then
//! every tab (loose tabs first, then each group's header and tabs, in file order), then every
//! project-tree root. The first failing check rejects the whole config; otherwise the non-fatal
//! warnings (a `dir` repeated within a window, a `dir` that is missing or not a directory, a root
//! dir that is missing) are returned in the order they were found.
//!
//! What validation needs from the filesystem (whether each dir is a directory) and from the
//! root resolver (each root's resolved name and dir, or why it does not resolve) comes in as
//! [`WindowFacts`], one per window, so the checks themselves hold for every answer.

use vstd::prelude::*;
use crate::config::{
    is_hex_colour, is_hex_colour_spec, tab_field_error, Config, ConfigError, Group,
    Tab, Warning, WindowConfig,
};
use crate::text::{
    chars_eq, chars_of, is_blank, push_str, str_eq, str_is_blank, string_of, trim, trimmed_chars,
};

verus! {

/// A project-tree root after resolution: its section name, its tilde-expanded dir, its depth.
#[derive(Debug, Clone, PartialEq)]
pub struct ResolvedRoot {
    pub name: String,
    pub dir: String,
    pub depth: u32,
}

/// Why a project-tree root does not resolve.
#[derive(Debug, Clone, Copy, PartialEq, Eq, Structural)]
pub enum RootError {
    EmptyDir,
    EmptyName,
    ZeroDepth(u32),
}

/// One root's resolution and whether its resolved dir is a directory.
#[derive(Debug, PartialEq)]
pub struct RootCheck {
    pub resolved: Result<ResolvedRoot, RootError>,
    pub dir_exists: bool,
}

/// What validation learns from outside the config for one window: for each loose tab, for each
/// grouped tab (per group), whether its tilde-expanded `dir` is a directory; and each root's
/// resolution, in config order.
#[derive(Debug, PartialEq)]
pub struct WindowFacts {
    pub loose: Vec<bool>,
    pub groups: Vec<Vec<bool>>,
    pub roots: Vec<RootCheck>,
}

/// The facts line up with the config: one entry per window, tab, group and root.
pub open spec fn facts_fit(cfg: Config, facts: Seq<WindowFacts>) -> bool {
    &&& facts.len() == cfg.windows@.len()
    &&& forall|i: int| 0 <= i < facts.len() ==> #[trigger] window_facts_fit(cfg.windows@[i], facts[i])
}

/// The facts for one window line up with it.
pub open spec fn window_facts_fit(w: WindowConfig, f: WindowFacts) -> bool {
    &&& f.loose@.len() == w.tabs@.len()
    &&& f.groups@.len() == w.groups@.len()
    &&& forall|k: int| 0 <= k < f.groups@.len() ==> (#[trigger] f.groups@[k])@.len() == w.groups@[k].tabs@.len()
    &&& f.roots@.len() == w.roots@.len()
}

/// One check in a window's sequence of checks.
#[derive(Debug)]
pub enum CheckStep {
    Tab { title: String, dir: String, dir_exists: bool },
    GroupName { name: String },
    Root { check: RootCheck },
}

/// The check for one tab.
pub open spec fn tab_step(t: Tab, dir_exists: bool) -> CheckStep {
    CheckStep::Tab { title: t.title, dir: t.dir, dir_exists }
}

/// The checks for a run of tabs.
pub open spec fn tabs_steps(ts: Seq<Tab>, ex: Seq<bool>) -> Seq<CheckStep> {
    Seq::new(ts.len(), |i: int| tab_step(ts[i], ex[i]))
}

/// The checks for a run of groups: each group's name, then its tabs.
pub open spec fn groups_steps(gs: Seq<Group>, ex: Seq<Vec<bool>>) -> Seq<CheckStep>
    decreases gs.len(),
{
    if gs.len() == 0 {
        Seq::empty()
    } else {
        groups_steps(gs.drop_last(), ex.drop_last()) + seq![
            CheckStep::GroupName { name: gs.last().name },
        ] + tabs_steps(gs.last().tabs@, ex.last()@)
    }
}

/// The checks for a window's roots.
pub open spec fn roots_steps(rs: Seq<RootCheck>) -> Seq<CheckStep> {
    Seq::new(rs.len(), |i: int| CheckStep::Root { check: rs[i] })
}

/// A window's checks in order: loose tabs, then each group (name, then tabs), then roots.
pub open spec fn window_steps(w: WindowConfig, f: WindowFacts) -> Seq<CheckStep> {
    tabs_steps(w.tabs@, f.loose@) + groups_steps(w.groups@, f.groups@) + roots_steps(f.roots@)
}

/// `s` is a tab check whose trimmed title is `t`.
pub open spec fn is_tab_titled(s: CheckStep, t: Seq<char>) -> bool {
    match s {
        CheckStep::Tab { title, .. } => trim(title@) == t,
        _ => false,
    }
}

/// `s` is a group check whose trimmed name is `n`.
pub open spec fn is_group_named(s: CheckStep, n: Seq<char>) -> bool {
    match s {
        CheckStep::GroupName { name } => trim(name@) == n,
        _ => false,
    }
}

/// `s` names the section `n`: a group (by trimmed name) or a resolved root (by its name).
pub open spec fn is_section_named(s: CheckStep, n: Seq<char>) -> bool {
    match s {
        CheckStep::GroupName { name } => trim(name@) == n,
        CheckStep::Root { check } => match check.resolved {
            Ok(rd) => rd.name@ == n,
            Err(_) => false,
        },
        _ => false,
    }
}

/// How many tab checks in `prefix` have exactly the dir `d`.
pub open spec fn dir_count(prefix: Seq<CheckStep>, d: Seq<char>) -> nat
    decreases prefix.len(),
{
    if prefix.len() == 0 {
        0
    } else {
        dir_count(prefix.drop_last(), d) + match prefix.last() {
            CheckStep::Tab { dir, .. } => if dir@ == d {
                1nat
            } else {
                0nat
            },
            _ => 0nat,
        }
    }
}

/// The error check `s` raises after the checks in `prefix` passed, in window `window`.
/// A tab: a blank title or dir, or a trimmed title an earlier tab of the window already has.
/// A group: a blank name, or a trimmed name an earlier group already has. A root: a root that
/// does not resolve, or a name an earlier group or root already has.
pub open spec fn step_error(prefix: Seq<CheckStep>, s: CheckStep, window: String) -> Option<
    ConfigError,
> {
    match s {
        CheckStep::Tab { title, dir, .. } => match tab_field_error(title@, dir@) {
            Some(e) => Some(e),
            None => if exists|j: int|
                0 <= j < prefix.len() && #[trigger] is_tab_titled(prefix[j], trim(title@)) {
                Some(ConfigError::DuplicateTabTitle { window, title })
            } else {
                None
            },
        },
        CheckStep::GroupName { name } => if is_blank(name@) {
            Some(ConfigError::EmptyField("name"))
        } else if exists|j: int|
            0 <= j < prefix.len() && #[trigger] is_group_named(prefix[j], trim(name@)) {
            Some(ConfigError::DuplicateGroupName { window, name })
        } else {
            None
        },
        CheckStep::Root { check } => match check.resolved {
            Err(RootError::EmptyDir) => Some(ConfigError::EmptyRootDir { window }),
            Err(RootError::EmptyName) => Some(ConfigError::EmptyRootName { window }),
            Err(RootError::ZeroDepth(d)) => Some(ConfigError::InvalidRootDepth { window, depth: d }),
            Ok(rd) => if exists|j: int|
                0 <= j < prefix.len() && #[trigger] is_section_named(prefix[j], rd.name@) {
                Some(ConfigError::DuplicateSection { window, name: rd.name })
            } else {
                None
            },
        },
    }
}

/// The warnings check `s` adds after the checks in `prefix`: a tab whose dir is on its second
/// occurrence in the window warns once as a duplicate, and a tab whose dir is not a directory
/// warns as missing; a resolved root whose dir is not a directory warns as missing.
pub open spec fn step_warnings(prefix: Seq<CheckStep>, s: CheckStep, window: Seq<char>) -> Seq<
    (Seq<char>, Seq<char>),
> {
    match s {
        CheckStep::Tab { dir, dir_exists, .. } => (if dir_count(prefix, dir@) == 1 {
            seq![(window, "duplicate dir: "@ + dir@)]
        } else {
            Seq::empty()
        }) + (if !dir_exists {
            seq![(window, "dir missing or not a directory: "@ + dir@)]
        } else {
            Seq::empty()
        }),
        CheckStep::GroupName { .. } => Seq::empty(),
        CheckStep::Root { check } => match check.resolved {
            Ok(rd) => if !check.dir_exists {
                seq![(window, "root dir missing or not a directory: "@ + rd.dir@)]
            } else {
                Seq::empty()
            },
            Err(_) => Seq::empty(),
        },
    }
}

/// The outcome of the first `k` checks of `steps` in window `window`: the first error, else the
/// warnings so far.
pub open spec fn steps_outcome(steps: Seq<CheckStep>, window: String, k: nat) -> Result<
    Seq<(Seq<char>, Seq<char>)>,
    ConfigError,
>
    decreases k,
{
    if k == 0 {
        Ok(Seq::empty())
    } else {
        match steps_outcome(steps, window, (k - 1) as nat) {
            Err(e) => Err(e),
            Ok(ws) => match step_error(steps.take(k - 1), steps[k - 1], window) {
                Some(e) => Err(e),
                None => Ok(ws + step_warnings(steps.take(k - 1), steps[k - 1], window@)),
            },
        }
    }
}

/// The error a window's own fields raise, given the windows before it: a blank title, a title an
/// earlier window already has, a zero width or height, or a colour that is not `#rgb`/`#rrggbb`.
pub open spec fn header_error(w: WindowConfig, earlier: Seq<WindowConfig>) -> Option<ConfigError> {
    if is_blank(w.title@) {
        Some(ConfigError::EmptyField("title"))
    } else if exists|j: int| 0 <= j < earlier.len() && (#[trigger] earlier[j]).title@ == w.title@ {
        Some(ConfigError::DuplicateWindowTitle(w.title))
    } else if w.width == 0 || w.height == 0 {
        Some(ConfigError::InvalidWindowSize { width: w.width, height: w.height })
    } else {
        match w.colour {
            Some(c) => if !is_hex_colour_spec(c@) {
                Some(ConfigError::InvalidColour { title: w.title, colour: c })
            } else {
                None
            },
            None => None,
        }
    }
}

/// One window's outcome: its own fields, then its checks.
pub open spec fn window_outcome(w: WindowConfig, f: WindowFacts, earlier: Seq<WindowConfig>) -> Result<
    Seq<(Seq<char>, Seq<char>)>,
    ConfigError,
> {
    match header_error(w, earlier) {
        Some(e) => Err(e),
        None => {
            let steps = window_steps(w, f);
            steps_outcome(steps, w.title, steps.len())
        },
    }
}

/// The outcome of the first `k` windows: the first error, else all their warnings in order.
pub open spec fn windows_outcome(ws: Seq<WindowConfig>, fs: Seq<WindowFacts>, k: nat) -> Result<
    Seq<(Seq<char>, Seq<char>)>,
    ConfigError,
>
    decreases k,
{
    if k == 0 {
        Ok(Seq::empty())
    } else {
        match windows_outcome(ws, fs, (k - 1) as nat) {
            Err(e) => Err(e),
            Ok(acc) => match window_outcome(ws[k - 1], fs[k - 1], ws.take(k - 1)) {
                Err(e) => Err(e),
                Ok(w) => Ok(acc + w),
            },
        }
    }
}

/// The outcome of validating `cfg` with `facts`.
pub open spec fn config_outcome(cfg: Config, facts: Seq<WindowFacts>) -> Result<
    Seq<(Seq<char>, Seq<char>)>,
    ConfigError,
> {
    windows_outcome(cfg.windows@, facts, cfg.windows@.len())
}

/// The views of a list of warnings.
pub open spec fn warnings_view(ws: Seq<Warning>) -> Seq<(Seq<char>, Seq<char>)> {
    ws.map_values(|w: Warning| w@)
}

fn copy_root_check(c: &RootCheck) -> (r: RootCheck)
    ensures
        r == *c,
{
    let resolved = match &c.resolved {
        Ok(rd) => Ok(ResolvedRoot { name: rd.name.clone(), dir: rd.dir.clone(), depth: rd.depth }),
        Err(e) => Err(*e),
    };
    RootCheck { resolved, dir_exists: c.dir_exists }
}

/// Append the checks for `ts` (with their dir facts) to `steps`.
fn push_tab_steps(steps: &mut Vec<CheckStep>, ts: &Vec<Tab>, ex: &Vec<bool>)
    requires
        ex@.len() == ts@.len(),
    ensures
        final(steps)@ == old(steps)@ + tabs_steps(ts@, ex@),
{
    let mut i: usize = 0;
    while i < ts.len()
        invariant
            ex@.len() == ts@.len(),
            i <= ts@.len(),
            steps@ == old(steps)@ + tabs_steps(ts@, ex@).take(i as int),
        decreases ts@.len() - i,
    {
        let t = &ts[i];
        steps.push(CheckStep::Tab { title: t.title.clone(), dir: t.dir.clone(), dir_exists: ex[i] });
        assert(tabs_steps(ts@, ex@).take(i + 1) =~= tabs_steps(ts@, ex@).take(i as int).push(
            tab_step(ts@[i as int], ex@[i as int]),
        ));
        i += 1;
    }
    assert(tabs_steps(ts@, ex@).take(i as int) =~= tabs_steps(ts@, ex@));
}

/// The checks for window `w` with facts `f`, in order.
pub fn window_check_steps(w: &WindowConfig, f: &WindowFacts) -> (steps: Vec<CheckStep>)
    requires
        window_facts_fit(*w, *f),
    ensures
        steps@ == window_steps(*w, *f),
{
    let mut steps: Vec<CheckStep> = Vec::new();
    push_tab_steps(&mut steps, &w.tabs, &f.loose);
    assert(steps@ =~= tabs_steps(w.tabs@, f.loose@));
    let mut g: usize = 0;
    while g < w.groups.len()
        invariant
            window_facts_fit(*w, *f),
            g <= w.groups@.len(),
            steps@ == tabs_steps(w.tabs@, f.loose@) + groups_steps(
                w.groups@.take(g as int),
                f.groups@.take(g as int),
            ),
        decreases w.groups@.len() - g,
    {
        let grp = &w.groups[g];
        steps.push(CheckStep::GroupName { name: grp.name.clone() });
        assert(f.groups@[g as int]@.len() == w.groups@[g as int].tabs@.len());
        push_tab_steps(&mut steps, &grp.tabs, &f.groups[g]);
        let ghost gs = w.groups@.take(g + 1);
        let ghost es = f.groups@.take(g + 1);
        assert(gs.drop_last() =~= w.groups@.take(g as int));
        assert(es.drop_last() =~= f.groups@.take(g as int));
        assert(steps@ =~= tabs_steps(w.tabs@, f.loose@) + groups_steps(gs, es));
        g += 1;
    }
    assert(w.groups@.take(g as int) =~= w.groups@);
    assert(f.groups@.take(g as int) =~= f.groups@);
    let mut r: usize = 0;
    let ghost base = steps@;
    while r < f.roots.len()
        invariant
            r <= f.roots@.len(),
            steps@ == base + roots_steps(f.roots@).take(r as int),
        decreases f.roots@.len() - r,
    {
        steps.push(CheckStep::Root { check: copy_root_check(&f.roots[r]) });
        assert(roots_steps(f.roots@).take(r + 1) =~= roots_steps(f.roots@).take(r as int).push(
            CheckStep::Root { check: f.roots@[r as int] },
        ));
        r += 1;
    }
    assert(roots_steps(f.roots@).take(r as int) =~= roots_steps(f.roots@));
    steps
}

/// Whether an earlier check (before index `k`) is a tab whose trimmed title is `t`.
fn earlier_tab_titled(steps: &Vec<CheckStep>, k: usize, t: &Vec<char>) -> (found: bool)
    requires
        k <= steps@.len(),
    ensures
        found == exists|j: int| 0 <= j < k && #[trigger] is_tab_titled(steps@[j], t@),
{
    let mut j: usize = 0;
    while j < k
        invariant
            k <= steps@.len(),
            j <= k,
            forall|jj: int| 0 <= jj < j ==> !#[trigger] is_tab_titled(steps@[jj], t@),
        decreases k - j,
    {
        match &steps[j] {
            CheckStep::Tab { title, .. } => {
                let tt = trimmed_chars(title.as_str());
                if chars_eq(&tt, t) {
                    assert(is_tab_titled(steps@[j as int], t@));
                    return true;
                }
            },
            _ => {},
        }
        j += 1;
    }
    false
}

/// Whether an earlier check (before index `k`) is a group whose trimmed name is `n`.
fn earlier_group_named(steps: &Vec<CheckStep>, k: usize, n: &Vec<char>) -> (found: bool)
    requires
        k <= steps@.len(),
    ensures
        found == exists|j: int| 0 <= j < k && #[trigger] is_group_named(steps@[j], n@),
{
    let mut j: usize = 0;
    while j < k
        invariant
            k <= steps@.len(),
            j <= k,
            forall|jj: int| 0 <= jj < j ==> !#[trigger] is_group_named(steps@[jj], n@),
        decreases k - j,
    {
        match &steps[j] {
            CheckStep::GroupName { name } => {
                let tn = trimmed_chars(name.as_str());
                if chars_eq(&tn, n) {
                    assert(is_group_named(steps@[j as int], n@));
                    return true;
                }
            },
            _ => {},
        }
        j += 1;
    }
    false
}

/// Whether an earlier check (before index `k`) names the section `n`.
fn earlier_section_named(steps: &Vec<CheckStep>, k: usize, n: &Vec<char>) -> (found: bool)
    requires
        k <= steps@.len(),
    ensures
        found == exists|j: int| 0 <= j < k && #[trigger] is_section_named(steps@[j], n@),
{
    let mut j: usize = 0;
    while j < k
        invariant
            k <= steps@.len(),
            j <= k,
            forall|jj: int| 0 <= jj < j ==> !#[trigger] is_section_named(steps@[jj], n@),
        decreases k - j,
    {
        match &steps[j] {
            CheckStep::GroupName { name } => {
                let tn = trimmed_chars(name.as_str());
                if chars_eq(&tn, n) {
                    assert(is_section_named(steps@[j as int], n@));
                    return true;
                }
            },
            CheckStep::Root { check } => {
                match &check.resolved {
                    Ok(rd) => {
                        let rn = chars_of(rd.name.as_str());
                        if chars_eq(&rn, n) {
                            assert(is_section_named(steps@[j as int], n@));
                            return true;
                        }
                    },
                    Err(_) => {},
                }
            },
            _ => {},
        }
        j += 1;
    }
    false
}

/// How many checks before index `k` are tabs with exactly the dir `d`.
fn count_dirs(steps: &Vec<CheckStep>, k: usize, d: &Vec<char>) -> (n: usize)
    requires
        k <= steps@.len(),
    ensures
        n == dir_count(steps@.take(k as int), d@),
{
    let mut j: usize = 0;
    let mut n: usize = 0;
    assert(steps@.take(0) =~= Seq::<CheckStep>::empty());
    while j < k
        invariant
            k <= steps@.len(),
            j <= k,
            n == dir_count(steps@.take(j as int), d@),
            n <= j,
        decreases k - j,
    {
        assert(steps@.take(j + 1).drop_last() =~= steps@.take(j as int));
        match &steps[j] {
            CheckStep::Tab { dir, .. } => {
                let dc = chars_of(dir.as_str());
                if chars_eq(&dc, d) {
                    n += 1;
                }
            },
            _ => {},
        }
        j += 1;
    }
    n
}

/// The error check `k` raises, given that the checks before it passed.
fn check_step_error(steps: &Vec<CheckStep>, k: usize, window: &String) -> (r: Option<ConfigError>)
    requires
        k < steps@.len(),
    ensures
        r == step_error(steps@.take(k as int), steps@[k as int], *window),
{
    let ghost prefix = steps@.take(k as int);
    assert forall|j: int| 0 <= j < k implies prefix[j] == steps@[j] by {}
    match &steps[k] {
        CheckStep::Tab { title, dir, .. } => {
            if str_is_blank(title.as_str()) {
                return Some(ConfigError::EmptyField("title"));
            }
            if str_is_blank(dir.as_str()) {
                return Some(ConfigError::EmptyField("dir"));
            }
            let tt = trimmed_chars(title.as_str());
            if earlier_tab_titled(steps, k, &tt) {
                proof {
                    let j = choose|j: int| 0 <= j < k && #[trigger] is_tab_titled(steps@[j], tt@);
                    assert(prefix[j] == steps@[j]);
                }
                return Some(ConfigError::DuplicateTabTitle { window: window.clone(), title: title.clone() });
            }
            proof {
                assert(!exists|j: int| 0 <= j < prefix.len() && #[trigger] is_tab_titled(prefix[j], trim(title@)));
            }
            None
        },
        CheckStep::GroupName { name } => {
            if str_is_blank(name.as_str()) {
                return Some(ConfigError::EmptyField("name"));
            }
            let tn = trimmed_chars(name.as_str());
            if earlier_group_named(steps, k, &tn) {
                proof {
                    let j = choose|j: int| 0 <= j < k && #[trigger] is_group_named(steps@[j], tn@);
                    assert(prefix[j] == steps@[j]);
                }
                return Some(ConfigError::DuplicateGroupName { window: window.clone(), name: name.clone() });
            }
            proof {
                assert(!exists|j: int| 0 <= j < prefix.len() && #[trigger] is_group_named(prefix[j], trim(name@)));
            }
            None
        },
        CheckStep::Root { check } => {
            match &check.resolved {
                Err(RootError::EmptyDir) => Some(ConfigError::EmptyRootDir { window: window.clone() }),
                Err(RootError::EmptyName) => Some(ConfigError::EmptyRootName { window: window.clone() }),
                Err(RootError::ZeroDepth(d)) => Some(ConfigError::InvalidRootDepth { window: window.clone(), depth: *d }),
                Ok(rd) => {
                    let rn = chars_of(rd.name.as_str());
                    if earlier_section_named(steps, k, &rn) {
                        proof {
                            let j = choose|j: int| 0 <= j < k && #[trigger] is_section_named(steps@[j], rn@);
                            assert(prefix[j] == steps@[j]);
                        }
                        return Some(ConfigError::DuplicateSection { window: window.clone(), name: rd.name.clone() });
                    }
                    proof {
                        assert(!exists|j: int| 0 <= j < prefix.len() && #[trigger] is_section_named(prefix[j], rd.name@));
                    }
                    None
                },
            }
        },
    }
}

/// A warning for `window` with the message `prefix` followed by `subject`.
fn make_warning(window: &String, prefix: &str, subject: &str) -> (w: Warning)
    ensures
        w@ == (window@, prefix@ + subject@),
{
    let mut v: Vec<char> = Vec::new();
    push_str(&mut v, prefix);
    push_str(&mut v, subject);
    Warning { window: window.clone(), message: string_of(&v) }
}

/// Append the warnings check `k` adds to `out`.
fn push_step_warnings(out: &mut Vec<Warning>, steps: &Vec<CheckStep>, k: usize, window: &String)
    requires
        k < steps@.len(),
    ensures
        warnings_view(final(out)@) == warnings_view(old(out)@) + step_warnings(
            steps@.take(k as int),
            steps@[k as int],
            window@,
        ),
{
    let ghost before = warnings_view(out@);
    match &steps[k] {
        CheckStep::Tab { dir, dir_exists, .. } => {
            let dc = chars_of(dir.as_str());
            let n = count_dirs(steps, k, &dc);
            if n == 1 {
                out.push(make_warning(window, "duplicate dir: ", dir.as_str()));
            }
            let ghost mid = warnings_view(out@);
            assert(mid =~= before + (if dir_count(steps@.take(k as int), dir@) == 1 {
                seq![(window@, "duplicate dir: "@ + dir@)]
            } else {
                Seq::empty()
            }));
            if !*dir_exists {
                out.push(make_warning(window, "dir missing or not a directory: ", dir.as_str()));
            }
            assert(warnings_view(out@) =~= mid + (if !*dir_exists {
                seq![(window@, "dir missing or not a directory: "@ + dir@)]
            } else {
                Seq::empty()
            }));
        },
        CheckStep::GroupName { .. } => {
            assert(warnings_view(out@) =~= before + Seq::empty());
        },
        CheckStep::Root { check } => {
            match &check.resolved {
                Ok(rd) => {
                    if !check.dir_exists {
                        out.push(make_warning(window, "root dir missing or not a directory: ", rd.dir.as_str()));
                    }
                },
                Err(_) => {},
            }
            assert(warnings_view(out@) =~= before + step_warnings(
                steps@.take(k as int),
                steps@[k as int],
                window@,
            ));
        },
    }
}

/// Run a window's checks in order: the first error, else the window's warnings.
fn run_steps(steps: &Vec<CheckStep>, window: &String) -> (r: Result<Vec<Warning>, ConfigError>)
    ensures
        match r {
            Ok(ws) => steps_outcome(steps@, *window, steps@.len()) == Ok::<
                Seq<(Seq<char>, Seq<char>)>,
                ConfigError,
            >(warnings_view(ws@)),
            Err(e) => steps_outcome(steps@, *window, steps@.len()) == Err::<
                Seq<(Seq<char>, Seq<char>)>,
                ConfigError,
            >(e),
        },
{
    let mut out: Vec<Warning> = Vec::new();
    let mut k: usize = 0;
    assert(warnings_view(out@) =~= Seq::empty());
    while k < steps.len()
        invariant
            k <= steps@.len(),
            steps_outcome(steps@, *window, k as nat) == Ok::<
                Seq<(Seq<char>, Seq<char>)>,
                ConfigError,
            >(warnings_view(out@)),
        decreases steps@.len() - k,
    {
        match check_step_error(steps, k, window) {
            Some(e) => {
                assert(steps_outcome(steps@, *window, (k + 1) as nat) == Err::<
                    Seq<(Seq<char>, Seq<char>)>,
                    ConfigError,
                >(e));
                proof { lemma_steps_outcome_err_sticks(steps@, *window, (k + 1) as nat, steps@.len()); }
                return Err(e);
            },
            None => {
                push_step_warnings(&mut out, steps, k, window);
            },
        }
        k += 1;
    }
    Ok(out)
}

/// Once the checks fail, checking more of them keeps the same error.
pub proof fn lemma_steps_outcome_err_sticks(steps: Seq<CheckStep>, window: String, k: nat, m: nat)
    requires
        k <= m,
        steps_outcome(steps, window, k) is Err,
    ensures
        steps_outcome(steps, window, m) == steps_outcome(steps, window, k),
    decreases m - k,
{
    if k < m {
        lemma_steps_outcome_err_sticks(steps, window, k, (m - 1) as nat);
    }
}

/// Once the windows fail, checking more of them keeps the same error.
pub proof fn lemma_windows_outcome_err_sticks(
    ws: Seq<WindowConfig>,
    fs: Seq<WindowFacts>,
    k: nat,
    m: nat,
)
    requires
        k <= m,
        windows_outcome(ws, fs, k) is Err,
    ensures
        windows_outcome(ws, fs, m) == windows_outcome(ws, fs, k),
    decreases m - k,
{
    if k < m {
        lemma_windows_outcome_err_sticks(ws, fs, k, (m - 1) as nat);
    }
}

/// Whether a window before index `i` has exactly the title `t`.
fn earlier_window_titled(ws: &Vec<WindowConfig>, i: usize, t: &String) -> (found: bool)
    requires
        i <= ws@.len(),
    ensures
        found == exists|j: int| 0 <= j < i && (#[trigger] ws@[j]).title@ == t@,
{
    let mut j: usize = 0;
    while j < i
        invariant
            i <= ws@.len(),
            j <= i,
            forall|jj: int| 0 <= jj < j ==> (#[trigger] ws@[jj]).title@ != t@,
        decreases i - j,
    {
        if str_eq(ws[j].title.as_str(), t.as_str()) {
            return true;
        }
        j += 1;
    }
    false
}

/// The error window `i`'s own fields raise.
fn check_window_header(ws: &Vec<WindowConfig>, i: usize) -> (r: Option<ConfigError>)
    requires
        i < ws@.len(),
    ensures
        r == header_error(ws@[i as int], ws@.take(i as int)),
{
    let w = &ws[i];
    let ghost earlier = ws@.take(i as int);
    if str_is_blank(w.title.as_str()) {
        return Some(ConfigError::EmptyField("title"));
    }
    let dup = earlier_window_titled(ws, i, &w.title);
    assert(dup == exists|j: int| 0 <= j < earlier.len() && (#[trigger] earlier[j]).title@ == w.title@) by {
        assert forall|j: int| 0 <= j < earlier.len() implies earlier[j] == ws@[j] by {}
        if dup {
            let j = choose|j: int| 0 <= j < i && (#[trigger] ws@[j]).title@ == w.title@;
            assert(earlier[j].title@ == w.title@);
        }
    }
    if dup {
        return Some(ConfigError::DuplicateWindowTitle(w.title.clone()));
    }
    if w.width == 0 || w.height == 0 {
        return Some(ConfigError::InvalidWindowSize { width: w.width, height: w.height });
    }
    match &w.colour {
        Some(c) => {
            if !is_hex_colour(c.as_str()) {
                return Some(ConfigError::InvalidColour { title: w.title.clone(), colour: c.clone() });
            }
            None
        },
        None => None,
    }
}

/// Validate a parsed config against what the filesystem and the root resolver said (`facts`).
/// The first failing check — in window order, and within a window: its title, size and colour,
/// then its tabs and groups in file order, then its roots — rejects the config with that error.
/// Otherwise the config is accepted with every warning, in the order found. A missing or
/// non-directory `dir` only ever warns.
pub fn validate(cfg: &Config, facts: &Vec<WindowFacts>) -> (r: Result<Vec<Warning>, ConfigError>)
    requires
        facts_fit(*cfg, facts@),
    ensures
        match r {
            Ok(ws) => config_outcome(*cfg, facts@) == Ok::<
                Seq<(Seq<char>, Seq<char>)>,
                ConfigError,
            >(warnings_view(ws@)),
            Err(e) => config_outcome(*cfg, facts@) == Err::<
                Seq<(Seq<char>, Seq<char>)>,
                ConfigError,
            >(e),
        },
{
    let mut warnings: Vec<Warning> = Vec::new();
    let n = cfg.windows.len();
    let mut i: usize = 0;
    assert(warnings_view(warnings@) =~= Seq::empty());
    while i < n
        invariant
            n == cfg.windows@.len(),
            facts_fit(*cfg, facts@),
            i <= n,
            windows_outcome(cfg.windows@, facts@, i as nat) == Ok::<
                Seq<(Seq<char>, Seq<char>)>,
                ConfigError,
            >(warnings_view(warnings@)),
        decreases n - i,
    {
        let w = &cfg.windows[i];
        assert(window_facts_fit(cfg.windows@[i as int], facts@[i as int]));
        match check_window_header(&cfg.windows, i) {
            Some(e) => {
                proof { lemma_windows_outcome_err_sticks(cfg.windows@, facts@, (i + 1) as nat, n as nat); }
                return Err(e);
            },
            None => {},
        }
        let steps = window_check_steps(w, &facts[i]);
        match run_steps(&steps, &w.title) {
            Err(e) => {
                proof { lemma_windows_outcome_err_sticks(cfg.windows@, facts@, (i + 1) as nat, n as nat); }
                return Err(e);
            },
            Ok(ws) => {
                let ghost before = warnings_view(warnings@);
                let mut j: usize = 0;
                while j < ws.len()
                    invariant
                        j <= ws@.len(),
                        warnings_view(warnings@) == before + warnings_view(ws@.take(j as int)),
                    decreases ws@.len() - j,
                {
                    let wj = &ws[j];
                    let ghost prev = warnings@;
                    warnings.push(Warning { window: wj.window.clone(), message: wj.message.clone() });
                    assert(warnings_view(ws@.take(j + 1)) =~= warnings_view(ws@.take(j as int)).push(ws@[j as int]@));
                    assert(warnings@ =~= prev.push(warnings@[prev.len() as int]));
                    assert(warnings_view(warnings@) =~= warnings_view(prev).push(ws@[j as int]@));
                    assert(warnings_view(warnings@) =~= before + warnings_view(ws@.take(j + 1)));
                    j += 1;
                }
                assert(ws@.take(j as int) =~= ws@);
            },
        }
        i += 1;
    }
    Ok(warnings)
}

/// Two checks are the same but for what the filesystem said about their dir.
pub open spec fn alike(a: CheckStep, b: CheckStep) -> bool {
    match a {
        CheckStep::Tab { title: t1, dir: d1, .. } => match b {
            CheckStep::Tab { title: t2, dir: d2, .. } => t1 == t2 && d1 == d2,
            _ => false,
        },
        CheckStep::GroupName { name: n1 } => match b {
            CheckStep::GroupName { name: n2 } => n1 == n2,
            _ => false,
        },
        CheckStep::Root { check: c1 } => match b {
            CheckStep::Root { check: c2 } => same_root_verdict(c1.resolved, c2.resolved),
            _ => false,
        },
    }
}

/// Two check sequences are pairwise alike.
pub open spec fn steps_alike(a: Seq<CheckStep>, b: Seq<CheckStep>) -> bool {
    a.len() == b.len() && forall|i: int| 0 <= i < a.len() ==> alike(#[trigger] a[i], b[i])
}

/// Two resolutions of one root agree on everything validation can reject it for: the same error,
/// or both resolved under the same name (their dirs may differ, say under another home dir).
pub open spec fn same_root_verdict(a: Result<ResolvedRoot, RootError>, b: Result<ResolvedRoot, RootError>) -> bool {
    match a {
        Err(e) => b == Err::<ResolvedRoot, RootError>(e),
        Ok(r1) => b is Ok && b->Ok_0.name == r1.name,
    }
}

/// Two sets of facts agree on each root's error or name (they may disagree on which dirs exist
/// and on where resolved roots point).
pub open spec fn same_resolutions(f1: Seq<WindowFacts>, f2: Seq<WindowFacts>) -> bool {
    &&& f1.len() == f2.len()
    &&& forall|i: int| 0 <= i < f1.len() ==> #[trigger] window_resolutions_agree(f1[i], f2[i])
}

/// Two facts for one window agree on each root's error or name.
pub open spec fn window_resolutions_agree(a: WindowFacts, b: WindowFacts) -> bool {
    &&& a.roots@.len() == b.roots@.len()
    &&& forall|r: int| 0 <= r < a.roots@.len() ==> same_root_verdict(
        (#[trigger] a.roots@[r]).resolved,
        b.roots@[r].resolved,
    )
}

proof fn lemma_step_error_alike(a: Seq<CheckStep>, b: Seq<CheckStep>, k: int, window: String)
    requires
        steps_alike(a, b),
        0 <= k < a.len(),
    ensures
        step_error(a.take(k), a[k], window) == step_error(b.take(k), b[k], window),
{
    let pa = a.take(k);
    let pb = b.take(k);
    assert(alike(a[k], b[k]));
    assert forall|j: int| 0 <= j < k implies alike(#[trigger] pa[j], pb[j]) by {
        assert(alike(a[j], b[j]));
    }
    assert forall|j: int, t: Seq<char>| 0 <= j < k implies (#[trigger] is_tab_titled(pa[j], t) == is_tab_titled(pb[j], t)
        && is_group_named(pa[j], t) == is_group_named(pb[j], t) && is_section_named(pa[j], t) == is_section_named(pb[j], t)) by {
        assert(alike(pa[j], pb[j]));
    }
    match a[k] {
        CheckStep::Tab { title, .. } => {
            let t = trim(title@);
            assert((exists|j: int| 0 <= j < pa.len() && #[trigger] is_tab_titled(pa[j], t)) == (exists|j: int|
                0 <= j < pb.len() && #[trigger] is_tab_titled(pb[j], t))) by {
                if exists|j: int| 0 <= j < pa.len() && #[trigger] is_tab_titled(pa[j], t) {
                    let j = choose|j: int| 0 <= j < pa.len() && #[trigger] is_tab_titled(pa[j], t);
                    assert(is_tab_titled(pb[j], t));
                }
                if exists|j: int| 0 <= j < pb.len() && #[trigger] is_tab_titled(pb[j], t) {
                    let j = choose|j: int| 0 <= j < pb.len() && #[trigger] is_tab_titled(pb[j], t);
                    assert(is_tab_titled(pa[j], t));
                }
            }
        },
        CheckStep::GroupName { name } => {
            let t = trim(name@);
            assert((exists|j: int| 0 <= j < pa.len() && #[trigger] is_group_named(pa[j], t)) == (exists|j: int|
                0 <= j < pb.len() && #[trigger] is_group_named(pb[j], t))) by {
                if exists|j: int| 0 <= j < pa.len() && #[trigger] is_group_named(pa[j], t) {
                    let j = choose|j: int| 0 <= j < pa.len() && #[trigger] is_group_named(pa[j], t);
                    assert(is_group_named(pb[j], t));
                }
                if exists|j: int| 0 <= j < pb.len() && #[trigger] is_group_named(pb[j], t) {
                    let j = choose|j: int| 0 <= j < pb.len() && #[trigger] is_group_named(pb[j], t);
                    assert(is_group_named(pa[j], t));
                }
            }
        },
        CheckStep::Root { check } => {
            match check.resolved {
                Ok(rd) => {
                    let t = rd.name@;
                    assert((exists|j: int| 0 <= j < pa.len() && #[trigger] is_section_named(pa[j], t)) == (exists|j: int|
                        0 <= j < pb.len() && #[trigger] is_section_named(pb[j], t))) by {
                        if exists|j: int| 0 <= j < pa.len() && #[trigger] is_section_named(pa[j], t) {
                            let j = choose|j: int| 0 <= j < pa.len() && #[trigger] is_section_named(pa[j], t);
                            assert(is_section_named(pb[j], t));
                        }
                        if exists|j: int| 0 <= j < pb.len() && #[trigger] is_section_named(pb[j], t) {
                            let j = choose|j: int| 0 <= j < pb.len() && #[trigger] is_section_named(pb[j], t);
                            assert(is_section_named(pa[j], t));
                        }
                    }
                },
                Err(_) => {},
            }
        },
    }
}

proof fn lemma_steps_outcome_alike(a: Seq<CheckStep>, b: Seq<CheckStep>, window: String, k: nat)
    requires
        steps_alike(a, b),
        k <= a.len(),
    ensures
        steps_outcome(a, window, k) is Err <==> steps_outcome(b, window, k) is Err,
        steps_outcome(a, window, k) is Err ==> steps_outcome(a, window, k) == steps_outcome(b, window, k),
    decreases k,
{
    if k > 0 {
        lemma_steps_outcome_alike(a, b, window, (k - 1) as nat);
        lemma_step_error_alike(a, b, k - 1, window);
    }
}

proof fn lemma_tabs_steps_alike(ts: Seq<Tab>, e1: Seq<bool>, e2: Seq<bool>)
    requires
        e1.len() == ts.len(),
        e2.len() == ts.len(),
    ensures
        steps_alike(tabs_steps(ts, e1), tabs_steps(ts, e2)),
{
    assert forall|i: int| 0 <= i < tabs_steps(ts, e1).len() implies alike(#[trigger] tabs_steps(ts, e1)[i], tabs_steps(ts, e2)[i]) by {}
}

proof fn lemma_alike_concat(a1: Seq<CheckStep>, b1: Seq<CheckStep>, a2: Seq<CheckStep>, b2: Seq<CheckStep>)
    requires
        steps_alike(a1, b1),
        steps_alike(a2, b2),
    ensures
        steps_alike(a1 + a2, b1 + b2),
{
    assert forall|i: int| 0 <= i < (a1 + a2).len() implies alike(#[trigger] (a1 + a2)[i], (b1 + b2)[i]) by {
        if i < a1.len() {
            assert(alike(a1[i], b1[i]));
        } else {
            assert(alike(a2[i - a1.len()], b2[i - a1.len()]));
        }
    }
}

proof fn lemma_groups_steps_alike(gs: Seq<Group>, e1: Seq<Vec<bool>>, e2: Seq<Vec<bool>>)
    requires
        e1.len() == gs.len(),
        e2.len() == gs.len(),
        forall|k: int| 0 <= k < gs.len() ==> (#[trigger] e1[k])@.len() == gs[k].tabs@.len() && e2[k]@.len()
            == gs[k].tabs@.len(),
    ensures
        steps_alike(groups_steps(gs, e1), groups_steps(gs, e2)),
    decreases gs.len(),
{
    if gs.len() > 0 {
        let k = gs.len() - 1;
        assert(e1.last()@.len() == gs.last().tabs@.len());
        assert(e2[k]@.len() == gs[k].tabs@.len());
        lemma_groups_steps_alike(gs.drop_last(), e1.drop_last(), e2.drop_last());
        let head = seq![CheckStep::GroupName { name: gs.last().name }];
        assert(steps_alike(head, head)) by {
            assert(alike(head[0], head[0]));
        }
        lemma_alike_concat(groups_steps(gs.drop_last(), e1.drop_last()), groups_steps(gs.drop_last(), e2.drop_last()), head, head);
        lemma_tabs_steps_alike(gs.last().tabs@, e1.last()@, e2.last()@);
        lemma_alike_concat(
            groups_steps(gs.drop_last(), e1.drop_last()) + head,
            groups_steps(gs.drop_last(), e2.drop_last()) + head,
            tabs_steps(gs.last().tabs@, e1.last()@),
            tabs_steps(gs.last().tabs@, e2.last()@),
        );
    }
}

proof fn lemma_window_steps_alike(w: WindowConfig, f1: WindowFacts, f2: WindowFacts)
    requires
        window_facts_fit(w, f1),
        window_facts_fit(w, f2),
        window_resolutions_agree(f1, f2),
    ensures
        steps_alike(window_steps(w, f1), window_steps(w, f2)),
{
    lemma_tabs_steps_alike(w.tabs@, f1.loose@, f2.loose@);
    assert forall|k: int| 0 <= k < w.groups@.len() implies (#[trigger] f1.groups@[k])@.len() == w.groups@[k].tabs@.len()
        && f2.groups@[k]@.len() == w.groups@[k].tabs@.len() by {
        assert(f1.groups@[k]@.len() == w.groups@[k].tabs@.len());
        assert(f2.groups@[k]@.len() == w.groups@[k].tabs@.len());
    }
    lemma_groups_steps_alike(w.groups@, f1.groups@, f2.groups@);
    let r1 = roots_steps(f1.roots@);
    let r2 = roots_steps(f2.roots@);
    assert(steps_alike(r1, r2)) by {
        assert forall|i: int| 0 <= i < r1.len() implies alike(#[trigger] r1[i], r2[i]) by {
            assert(same_root_verdict(f1.roots@[i].resolved, f2.roots@[i].resolved));
        }
    }
    lemma_alike_concat(tabs_steps(w.tabs@, f1.loose@), tabs_steps(w.tabs@, f2.loose@), groups_steps(w.groups@, f1.groups@), groups_steps(w.groups@, f2.groups@));
    lemma_alike_concat(
        tabs_steps(w.tabs@, f1.loose@) + groups_steps(w.groups@, f1.groups@),
        tabs_steps(w.tabs@, f2.loose@) + groups_steps(w.groups@, f2.groups@),
        r1,
        r2,
    );
}

proof fn lemma_windows_outcome_alike(cfg: Config, f1: Seq<WindowFacts>, f2: Seq<WindowFacts>, k: nat)
    requires
        facts_fit(cfg, f1),
        facts_fit(cfg, f2),
        same_resolutions(f1, f2),
        k <= cfg.windows@.len(),
    ensures
        windows_outcome(cfg.windows@, f1, k) is Err <==> windows_outcome(cfg.windows@, f2, k) is Err,
        windows_outcome(cfg.windows@, f1, k) is Err ==> windows_outcome(cfg.windows@, f1, k) == windows_outcome(
            cfg.windows@,
            f2,
            k,
        ),
    decreases k,
{
    if k > 0 {
        let i = k - 1;
        lemma_windows_outcome_alike(cfg, f1, f2, (k - 1) as nat);
        let w = cfg.windows@[i];
        assert(window_facts_fit(w, f1[i]));
        assert(window_facts_fit(w, f2[i]));
        assert(window_resolutions_agree(f1[i], f2[i]));
        lemma_window_steps_alike(w, f1[i], f2[i]);
        let s1 = window_steps(w, f1[i]);
        let s2 = window_steps(w, f2[i]);
        lemma_steps_outcome_alike(s1, s2, w.title, s1.len());
    }
}

/// A dir that is missing or not a directory never rejects a config: whatever the filesystem says
/// about tab and root dirs, and wherever the roots resolve to (another home dir, say), as long as
/// each root resolves under the same name or fails with the same error, the same configs are
/// rejected, with the same error; only the warnings differ. (An un-cloned repo must not fail a
/// reload and strand every other tab on the last-good config.)
pub proof fn law_missing_dirs_only_warn(cfg: Config, f1: Seq<WindowFacts>, f2: Seq<WindowFacts>)
    requires
        facts_fit(cfg, f1),
        facts_fit(cfg, f2),
        same_resolutions(f1, f2),
    ensures
        config_outcome(cfg, f1) is Err <==> config_outcome(cfg, f2) is Err,
        config_outcome(cfg, f1) is Err ==> config_outcome(cfg, f1) == config_outcome(cfg, f2),
{
    lemma_windows_outcome_alike(cfg, f1, f2, cfg.windows@.len());
}


/// Check `j` of `steps` passes: a tab has a non-blank title and dir and a trimmed title no earlier
/// tab has; a group has a non-blank name no earlier group has (trimmed); a root resolves, under a
/// name no earlier group or root has.
pub open spec fn step_passes(steps: Seq<CheckStep>, j: int) -> bool {
    match steps[j] {
        CheckStep::Tab { title, dir, .. } => {
            &&& !is_blank(title@)
            &&& !is_blank(dir@)
            &&& forall|k: int| 0 <= k < j ==> !is_tab_titled(#[trigger] steps[k], trim(title@))
        },
        CheckStep::GroupName { name } => {
            &&& !is_blank(name@)
            &&& forall|k: int| 0 <= k < j ==> !is_group_named(#[trigger] steps[k], trim(name@))
        },
        CheckStep::Root { check } => match check.resolved {
            Ok(rd) => forall|k: int| 0 <= k < j ==> !is_section_named(#[trigger] steps[k], rd.name@),
            Err(_) => false,
        },
    }
}

/// Window `i`'s own fields pass: a non-blank title no earlier window has, a positive width and
/// height, and no colour or a `#rgb`/`#rrggbb` one.
pub open spec fn header_passes(ws: Seq<WindowConfig>, i: int) -> bool {
    let w = ws[i];
    &&& !is_blank(w.title@)
    &&& forall|j: int| 0 <= j < i ==> (#[trigger] ws[j]).title@ != w.title@
    &&& w.width > 0
    &&& w.height > 0
    &&& match w.colour {
        Some(c) => is_hex_colour_spec(c@),
        None => true,
    }
}

/// Every check of every window passes.
pub open spec fn config_passes(cfg: Config, facts: Seq<WindowFacts>) -> bool {
    forall|i: int| 0 <= i < cfg.windows@.len() ==> {
        &&& #[trigger] header_passes(cfg.windows@, i)
        &&& forall|j: int| 0 <= j < window_steps(cfg.windows@[i], facts[i]).len() ==> #[trigger] step_passes(
            window_steps(cfg.windows@[i], facts[i]),
            j,
        )
    }
}

proof fn lemma_step_passes(steps: Seq<CheckStep>, j: int, window: String)
    requires
        0 <= j < steps.len(),
    ensures
        step_error(steps.take(j), steps[j], window) is None <==> step_passes(steps, j),
{
    let prefix = steps.take(j);
    assert forall|k: int| 0 <= k < j implies prefix[k] == #[trigger] steps[k] by {}
    match steps[j] {
        CheckStep::Tab { title, dir, .. } => {
            if exists|k: int| 0 <= k < prefix.len() && #[trigger] is_tab_titled(prefix[k], trim(title@)) {
                let k = choose|k: int| 0 <= k < prefix.len() && #[trigger] is_tab_titled(prefix[k], trim(title@));
                assert(is_tab_titled(steps[k], trim(title@)));
            }
        },
        CheckStep::GroupName { name } => {
            if exists|k: int| 0 <= k < prefix.len() && #[trigger] is_group_named(prefix[k], trim(name@)) {
                let k = choose|k: int| 0 <= k < prefix.len() && #[trigger] is_group_named(prefix[k], trim(name@));
                assert(is_group_named(steps[k], trim(name@)));
            }
        },
        CheckStep::Root { check } => {
            match check.resolved {
                Ok(rd) => {
                    if exists|k: int| 0 <= k < prefix.len() && #[trigger] is_section_named(prefix[k], rd.name@) {
                        let k = choose|k: int| 0 <= k < prefix.len() && #[trigger] is_section_named(prefix[k], rd.name@);
                        assert(is_section_named(steps[k], rd.name@));
                    }
                },
                Err(_) => {},
            }
        },
    }
}

proof fn lemma_steps_ok(steps: Seq<CheckStep>, window: String, k: nat)
    requires
        k <= steps.len(),
    ensures
        steps_outcome(steps, window, k) is Ok <==> forall|j: int| 0 <= j < k ==> #[trigger] step_passes(steps, j),
    decreases k,
{
    if k > 0 {
        lemma_steps_ok(steps, window, (k - 1) as nat);
        lemma_step_passes(steps, k - 1, window);
        if steps_outcome(steps, window, k) is Ok {
            assert forall|j: int| 0 <= j < k implies #[trigger] step_passes(steps, j) by {
                if j < k - 1 {
                    assert(step_passes(steps, j));
                }
            }
        }
    }
}

proof fn lemma_windows_ok(ws: Seq<WindowConfig>, fs: Seq<WindowFacts>, k: nat)
    requires
        k <= ws.len(),
        k <= fs.len(),
    ensures
        windows_outcome(ws, fs, k) is Ok <==> forall|i: int| 0 <= i < k ==> (#[trigger] window_outcome(
            ws[i],
            fs[i],
            ws.take(i),
        )) is Ok,
    decreases k,
{
    if k > 0 {
        lemma_windows_ok(ws, fs, (k - 1) as nat);
        if windows_outcome(ws, fs, k) is Ok {
            assert forall|i: int| 0 <= i < k implies (#[trigger] window_outcome(ws[i], fs[i], ws.take(i))) is Ok by {
                if i < k - 1 {
                    assert(window_outcome(ws[i], fs[i], ws.take(i)) is Ok);
                }
            }
        }
    }
}

/// A config is accepted exactly when every check passes: each window has a non-blank title no
/// earlier window has, a positive size and a valid colour (or none), and within each window,
/// tabs (loose, then each group's, in file order) have non-blank titles and dirs and distinct
/// trimmed titles, groups have non-blank, distinct trimmed names, and roots resolve under names
/// no group or earlier root has. Missing dirs play no part.
pub proof fn law_accepted_iff_every_check_passes(cfg: Config, facts: Seq<WindowFacts>)
    requires
        facts_fit(cfg, facts),
    ensures
        config_outcome(cfg, facts) is Ok <==> config_passes(cfg, facts),
{
    let ws = cfg.windows@;
    lemma_windows_ok(ws, facts, ws.len());
    assert forall|i: int| 0 <= i < ws.len() implies (#[trigger] window_outcome(ws[i], facts[i], ws.take(i))) is Ok
        <==> (header_passes(ws, i) && forall|j: int| 0 <= j < window_steps(ws[i], facts[i]).len()
            ==> #[trigger] step_passes(window_steps(ws[i], facts[i]), j)) by {
        let earlier = ws.take(i);
        assert forall|j: int| 0 <= j < i implies earlier[j] == #[trigger] ws[j] by {}
        if exists|j: int| 0 <= j < earlier.len() && (#[trigger] earlier[j]).title@ == ws[i].title@ {
            let j = choose|j: int| 0 <= j < earlier.len() && (#[trigger] earlier[j]).title@ == ws[i].title@;
            assert(ws[j].title@ == ws[i].title@);
        }
        assert(header_error(ws[i], earlier) is None <==> header_passes(ws, i));
        let steps = window_steps(ws[i], facts[i]);
        lemma_steps_ok(steps, ws[i].title, steps.len());
    }
    if config_outcome(cfg, facts) is Ok {
        assert forall|i: int| 0 <= i < ws.len() implies #[trigger] header_passes(ws, i) && forall|j: int|
            0 <= j < window_steps(ws[i], facts[i]).len() ==> #[trigger] step_passes(window_steps(ws[i], facts[i]), j) by {
            assert(window_outcome(ws[i], facts[i], ws.take(i)) is Ok);
        }
    }
    if config_passes(cfg, facts) {
        assert forall|i: int| 0 <= i < ws.len() implies (#[trigger] window_outcome(ws[i], facts[i], ws.take(i))) is Ok by {
            assert(header_passes(ws, i));
        }
    }
}


/// `s` is a tab check whose dir is exactly `d`.
pub open spec fn is_tab_with_dir(s: CheckStep, d: Seq<char>) -> bool {
    match s {
        CheckStep::Tab { dir, .. } => dir@ == d,
        _ => false,
    }
}

/// How many of the checks `s` are tabs with dir `d`.
pub open spec fn tabs_with_dir(s: Seq<CheckStep>, d: Seq<char>) -> nat
    decreases s.len(),
{
    if s.len() == 0 {
        0
    } else {
        (if is_tab_with_dir(s[0], d) {
            1nat
        } else {
            0nat
        }) + tabs_with_dir(s.drop_first(), d)
    }
}

/// How many times `x` occurs in `ws`.
pub open spec fn count_of(ws: Seq<(Seq<char>, Seq<char>)>, x: (Seq<char>, Seq<char>)) -> nat
    decreases ws.len(),
{
    if ws.len() == 0 {
        0
    } else {
        count_of(ws.drop_last(), x) + if ws.last() == x {
            1nat
        } else {
            0nat
        }
    }
}

/// The duplicate-dir warning for dir `d` in window `window`.
pub open spec fn duplicate_dir_warning(window: Seq<char>, d: Seq<char>) -> (Seq<char>, Seq<char>) {
    (window, "duplicate dir: "@ + d)
}

proof fn lemma_count_of_concat(a: Seq<(Seq<char>, Seq<char>)>, b: Seq<(Seq<char>, Seq<char>)>, x: (Seq<char>, Seq<char>))
    ensures
        count_of(a + b, x) == count_of(a, x) + count_of(b, x),
    decreases b.len(),
{
    if b.len() == 0 {
        assert(a + b =~= a);
    } else {
        assert((a + b).drop_last() =~= a + b.drop_last());
        lemma_count_of_concat(a, b.drop_last(), x);
    }
}

proof fn lemma_tabs_with_dir_push(s: Seq<CheckStep>, x: CheckStep, d: Seq<char>)
    ensures
        tabs_with_dir(s.push(x), d) == tabs_with_dir(s, d) + if is_tab_with_dir(x, d) {
            1nat
        } else {
            0nat
        },
    decreases s.len(),
{
    let p = s.push(x);
    if s.len() == 0 {
        assert(p.drop_first() =~= Seq::<CheckStep>::empty());
        assert(tabs_with_dir(p.drop_first(), d) == 0);
        assert(p[0] == x);
        assert(tabs_with_dir(s, d) == 0);
    } else {
        assert(p.drop_first() =~= s.drop_first().push(x));
        assert(p[0] == s[0]);
        lemma_tabs_with_dir_push(s.drop_first(), x, d);
        assert(tabs_with_dir(p, d) == (if is_tab_with_dir(s[0], d) { 1nat } else { 0nat }) + tabs_with_dir(p.drop_first(), d));
    }
}

proof fn lemma_dir_count_is_tabs_with_dir(s: Seq<CheckStep>, d: Seq<char>)
    ensures
        dir_count(s, d) == tabs_with_dir(s, d),
    decreases s.len(),
{
    if s.len() > 0 {
        lemma_dir_count_is_tabs_with_dir(s.drop_last(), d);
        lemma_tabs_with_dir_push(s.drop_last(), s.last(), d);
        assert(s.drop_last().push(s.last()) =~= s);
    }
}

/// A tab check warns its dir as a duplicate exactly when one earlier tab of its window has that
/// dir: the warning is raised at the dir's second occurrence, and only there.
pub proof fn law_duplicate_dir_warns_at_second_occurrence(
    prefix: Seq<CheckStep>,
    title: String,
    dir: String,
    dir_exists: bool,
    window: Seq<char>,
)
    ensures
        step_warnings(prefix, CheckStep::Tab { title, dir, dir_exists }, window).contains(
            duplicate_dir_warning(window, dir@),
        ) <==> tabs_with_dir(prefix, dir@) == 1,
        count_of(
            step_warnings(prefix, CheckStep::Tab { title, dir, dir_exists }, window),
            duplicate_dir_warning(window, dir@),
        ) == if tabs_with_dir(prefix, dir@) == 1 {
            1nat
        } else {
            0nat
        },
{
    lemma_step_dup_count(prefix, CheckStep::Tab { title, dir, dir_exists }, window, dir@);
    let ws = step_warnings(prefix, CheckStep::Tab { title, dir, dir_exists }, window);
    let x = duplicate_dir_warning(window, dir@);
    if ws.contains(x) {
        let i = choose|i: int| 0 <= i < ws.len() && ws[i] == x;
        lemma_count_positive(ws, x, i);
    }
    if tabs_with_dir(prefix, dir@) == 1 {
        lemma_dir_count_is_tabs_with_dir(prefix, dir@);
        assert(ws[0] == x);
    }
}

proof fn lemma_count_positive(ws: Seq<(Seq<char>, Seq<char>)>, x: (Seq<char>, Seq<char>), i: int)
    requires
        0 <= i < ws.len(),
        ws[i] == x,
    ensures
        count_of(ws, x) > 0,
    decreases ws.len(),
{
    if i < ws.len() - 1 {
        assert(ws.drop_last()[i] == x);
        lemma_count_positive(ws.drop_last(), x, i);
    }
}

/// How many duplicate-dir warnings for `d` one check adds: one for a tab with dir `d` that has
/// exactly one earlier tab with that dir, none otherwise.
proof fn lemma_step_dup_count(prefix: Seq<CheckStep>, s: CheckStep, window: Seq<char>, d: Seq<char>)
    ensures
        count_of(step_warnings(prefix, s, window), duplicate_dir_warning(window, d)) == if is_tab_with_dir(s, d)
            && tabs_with_dir(prefix, d) == 1 {
            1nat
        } else {
            0nat
        },
{
    reveal_strlit("duplicate dir: ");
    reveal_strlit("dir missing or not a directory: ");
    reveal_strlit("root dir missing or not a directory: ");
    let x = duplicate_dir_warning(window, d);
    lemma_dir_count_is_tabs_with_dir(prefix, d);
    match s {
        CheckStep::Tab { dir, dir_exists, .. } => {
            lemma_dir_count_is_tabs_with_dir(prefix, dir@);
            let a = if dir_count(prefix, dir@) == 1 {
                seq![(window, "duplicate dir: "@ + dir@)]
            } else {
                Seq::empty()
            };
            let b = if !dir_exists {
                seq![(window, "dir missing or not a directory: "@ + dir@)]
            } else {
                Seq::empty()
            };
            lemma_count_of_concat(a, b, x);
            if a.len() == 1 {
                assert(a.drop_last() =~= Seq::<(Seq<char>, Seq<char>)>::empty());
                assert(count_of(a.drop_last(), x) == 0);
                assert(a.last() == a[0]);
                if dir@ == d {
                    assert(a[0] == x);
                    assert(count_of(a, x) == 1);
                } else {
                    if a[0] == x {
                        assert(("duplicate dir: "@ + dir@).skip(15) =~= dir@);
                        assert(("duplicate dir: "@ + d).skip(15) =~= d);
                    }
                    assert(count_of(a, x) == 0);
                }
            } else {
                assert(count_of(a, x) == 0);
            }
            if b.len() == 1 {
                assert(b.drop_last() =~= Seq::<(Seq<char>, Seq<char>)>::empty());
                assert(count_of(b.drop_last(), x) == 0);
                assert(b.last() == b[0]);
                assert(b[0].1[1] != x.1[1]);
                assert(count_of(b, x) == 0);
            } else {
                assert(count_of(b, x) == 0);
            }
        },
        CheckStep::GroupName { .. } => {},
        CheckStep::Root { check } => {
            let ws = step_warnings(prefix, s, window);
            if ws.len() == 1 {
                assert(ws.drop_last() =~= Seq::<(Seq<char>, Seq<char>)>::empty());
                assert(count_of(ws.drop_last(), x) == 0);
                assert(ws.last() == ws[0]);
                assert(ws[0].1[0] != x.1[0]);
            }
        },
    }
}

/// Within a window the config accepts, each dir that two or more of its tabs share is warned
/// as a duplicate exactly once, and a dir held by one tab never is.
pub proof fn law_duplicate_dir_warned_once_per_window(w: WindowConfig, f: WindowFacts, earlier: Seq<WindowConfig>, d: Seq<char>)
    requires
        window_outcome(w, f, earlier) is Ok,
    ensures
        count_of(window_outcome(w, f, earlier)->Ok_0, duplicate_dir_warning(w.title@, d)) == if tabs_with_dir(
            window_steps(w, f),
            d,
        ) >= 2 {
            1nat
        } else {
            0nat
        },
{
    let steps = window_steps(w, f);
    lemma_steps_dup_count(steps, w.title, steps.len(), d);
    assert(steps.take(steps.len() as int) =~= steps);
}

proof fn lemma_steps_dup_count(steps: Seq<CheckStep>, window: String, k: nat, d: Seq<char>)
    requires
        k <= steps.len(),
        steps_outcome(steps, window, k) is Ok,
    ensures
        count_of(steps_outcome(steps, window, k)->Ok_0, duplicate_dir_warning(window@, d)) == if tabs_with_dir(
            steps.take(k as int),
            d,
        ) >= 2 {
            1nat
        } else {
            0nat
        },
    decreases k,
{
    let x = duplicate_dir_warning(window@, d);
    if k == 0 {
        assert(steps.take(0) =~= Seq::<CheckStep>::empty());
    } else {
        lemma_steps_dup_count(steps, window, (k - 1) as nat, d);
        let prefix = steps.take(k - 1);
        let prev = steps_outcome(steps, window, (k - 1) as nat)->Ok_0;
        let sw = step_warnings(prefix, steps[k - 1], window@);
        assert(steps_outcome(steps, window, k)->Ok_0 == prev + sw);
        lemma_count_of_concat(prev, sw, x);
        lemma_step_dup_count(prefix, steps[k - 1], window@, d);
        assert(prefix.push(steps[k - 1]) =~= steps.take(k as int));
        lemma_tabs_with_dir_push(prefix, steps[k - 1], d);
    }
}

} // verus!
