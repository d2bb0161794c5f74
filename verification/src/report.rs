//! The text the app prints about a config: warnings as they are logged on load, and the
//! `lector validate` report (the resolved window/tab tree, then warnings or the error).

use vstd::prelude::*;
use crate::config::{error_message, Config, ConfigError, Warning, WindowConfig};
use crate::text::{debug_quoted, debug_str, decimal, push_decimal, push_str, string_of};
use crate::views::TabView;

verus! {

/// `true` or `false`.
pub open spec fn bool_text(b: bool) -> Seq<char> {
    if b {
        "true"@
    } else {
        "false"@
    }
}

/// How a warning is logged when a config loads: `config warning [{window}]: {message}`.
pub open spec fn log_line(w: (Seq<char>, Seq<char>)) -> Seq<char> {
    "config warning ["@ + w.0 + "]: "@ + w.1
}

/// How `lector validate` prints a warning: `warning [{window}]: {message}`.
pub open spec fn cli_warning_line(w: (Seq<char>, Seq<char>)) -> Seq<char> {
    "warning ["@ + w.0 + "]: "@ + w.1
}

/// The report's first line: `ok: {path} ({n} window(s))`.
pub open spec fn summary_line(path: Seq<char>, n: nat) -> Seq<char> {
    "ok: "@ + path + " ("@ + decimal(n) + " window(s))"@
}

/// The report's line for a window, given the `{:?}` rendering of its title.
pub open spec fn window_line_with(quoted_title: Seq<char>) -> Seq<char> {
    "  window "@ + quoted_title
}

/// The report's line for a window: `  window {title:?}`.
pub open spec fn window_line(title: Seq<char>) -> Seq<char> {
    window_line_with(debug_quoted(title))
}

/// The report's line for a tab row, given the `{:?}` renderings of its title and of its group
/// (if any): its title, dir and `load_on_open`, then its group.
pub open spec fn tab_line_with(v: TabView, quoted_title: Seq<char>, quoted_group: Option<Seq<char>>) -> Seq<char> {
    "    tab "@ + quoted_title + " dir="@ + v.dir@ + " load_on_open="@ + bool_text(v.load_on_open)
        + match quoted_group {
        Some(g) => " group="@ + g,
        None => Seq::empty(),
    }
}

/// The report's line for a tab row: its title, dir and `load_on_open`, then its group if any.
pub open spec fn tab_line(v: TabView) -> Seq<char> {
    tab_line_with(
        v,
        debug_quoted(v.title@),
        match v.group {
            Some(g) => Some(debug_quoted(g@)),
            None => None,
        },
    )
}

/// The lines for one window: its line, then one per row.
pub open spec fn window_lines(w: WindowConfig, views: Seq<TabView>) -> Seq<Seq<char>> {
    seq![window_line(w.title@)] + views.map_values(|v: TabView| tab_line(v))
}

/// The lines for the first `n` windows, in order.
pub open spec fn windows_lines(ws: Seq<WindowConfig>, views: Seq<Vec<TabView>>, n: nat) -> Seq<Seq<char>>
    decreases n,
{
    if n == 0 {
        Seq::empty()
    } else {
        windows_lines(ws, views, (n - 1) as nat) + window_lines(ws[n - 1], views[n - 1]@)
    }
}

/// The line a warning is logged as when a config loads.
pub fn warning_log_line(w: &Warning) -> (line: String)
    ensures
        line@ == log_line(w@),
{
    let mut v: Vec<char> = Vec::new();
    push_str(&mut v, "config warning [");
    push_str(&mut v, w.window.as_str());
    push_str(&mut v, "]: ");
    push_str(&mut v, w.message.as_str());
    string_of(&v)
}

/// The line `lector validate` prints for a warning.
pub fn warning_cli_line(w: &Warning) -> (line: String)
    ensures
        line@ == cli_warning_line(w@),
{
    let mut v: Vec<char> = Vec::new();
    push_str(&mut v, "warning [");
    push_str(&mut v, w.window.as_str());
    push_str(&mut v, "]: ");
    push_str(&mut v, w.message.as_str());
    string_of(&v)
}

/// The line `lector validate` prints for a rejected config: `error: {message}`.
pub fn error_cli_line(e: &ConfigError) -> (line: String)
    ensures
        line@ == "error: "@ + error_message(*e),
{
    let mut v: Vec<char> = Vec::new();
    push_str(&mut v, "error: ");
    push_str(&mut v, e.message().as_str());
    string_of(&v)
}

/// The report's line for a window, given the `{:?}` rendering of its title.
pub fn window_line_text(quoted_title: &str) -> (line: String)
    ensures
        line@ == window_line_with(quoted_title@),
{
    let mut v: Vec<char> = Vec::new();
    push_str(&mut v, "  window ");
    push_str(&mut v, quoted_title);
    string_of(&v)
}

/// The report's line for row `t`, given the `{:?}` renderings of its title and of its group.
pub fn tab_line_text(t: &TabView, quoted_title: &str, quoted_group: Option<&str>) -> (line: String)
    ensures
        line@ == tab_line_with(
            *t,
            quoted_title@,
            match quoted_group {
                Some(g) => Some(g@),
                None => None,
            },
        ),
{
    let mut v: Vec<char> = Vec::new();
    push_str(&mut v, "    tab ");
    push_str(&mut v, quoted_title);
    push_str(&mut v, " dir=");
    push_str(&mut v, t.dir.as_str());
    push_str(&mut v, " load_on_open=");
    if t.load_on_open {
        push_str(&mut v, "true");
    } else {
        push_str(&mut v, "false");
    }
    match quoted_group {
        Some(g) => {
            push_str(&mut v, " group=");
            push_str(&mut v, g);
        },
        None => {},
    }
    string_of(&v)
}

/// Append the line for row `t` to `out`.
fn push_tab_line(out: &mut Vec<String>, t: &TabView)
    ensures
        final(out)@.len() == old(out)@.len() + 1,
        forall|i: int| 0 <= i < old(out)@.len() ==> final(out)@[i] == old(out)@[i],
        final(out)@[old(out)@.len() as int]@ == tab_line(*t),
{
    let qt = debug_str(t.title.as_str());
    let line = match &t.group {
        Some(g) => {
            let qg = debug_str(g.as_str());
            tab_line_text(t, qt.as_str(), Some(qg.as_str()))
        },
        None => tab_line_text(t, qt.as_str(), None),
    };
    out.push(line);
}

/// The views of a list of strings.
pub open spec fn lines_view(v: Seq<String>) -> Seq<Seq<char>> {
    v.map_values(|s: String| s@)
}

/// The `lector validate` report for an accepted config loaded from `path`: a summary line, then
/// each window's line followed by one line per row (`views[i]` holding window `i`'s rows).
pub fn validate_report(path: &str, cfg: &Config, views: &Vec<Vec<TabView>>) -> (lines: Vec<String>)
    requires
        views@.len() == cfg.windows@.len(),
    ensures
        lines_view(lines@) == seq![summary_line(path@, cfg.windows@.len())] + windows_lines(
            cfg.windows@,
            views@,
            cfg.windows@.len(),
        ),
{
    let mut lines: Vec<String> = Vec::new();
    let mut v: Vec<char> = Vec::new();
    push_str(&mut v, "ok: ");
    push_str(&mut v, path);
    push_str(&mut v, " (");
    push_decimal(&mut v, cfg.windows.len() as u64);
    push_str(&mut v, " window(s))");
    lines.push(string_of(&v));
    let ghost head = seq![summary_line(path@, cfg.windows@.len())];
    assert(lines_view(lines@) =~= head);
    let mut i: usize = 0;
    while i < cfg.windows.len()
        invariant
            views@.len() == cfg.windows@.len(),
            i <= cfg.windows@.len(),
            lines_view(lines@) == head + windows_lines(cfg.windows@, views@, i as nat),
        decreases cfg.windows@.len() - i,
    {
        let ghost before = lines_view(lines@);
        let qt = debug_str(cfg.windows[i].title.as_str());
        lines.push(window_line_text(qt.as_str()));
        assert(lines_view(lines@) =~= before.push(window_line(cfg.windows@[i as int].title@)));
        let vs = &views[i];
        let mut j: usize = 0;
        while j < vs.len()
            invariant
                j <= vs@.len(),
                lines_view(lines@) == before + seq![window_line(cfg.windows@[i as int].title@)]
                    + vs@.take(j as int).map_values(|t: TabView| tab_line(t)),
            decreases vs@.len() - j,
        {
            let ghost prev = lines@;
            push_tab_line(&mut lines, &vs[j]);
            assert(lines@ =~= prev.push(lines@[prev.len() as int]));
            assert(vs@.take(j + 1).map_values(|t: TabView| tab_line(t)) =~= vs@.take(j as int).map_values(
                |t: TabView| tab_line(t),
            ).push(tab_line(vs@[j as int])));
            assert(lines_view(lines@) =~= lines_view(prev).push(tab_line(vs@[j as int])));
            j += 1;
        }
        assert(vs@.take(j as int) =~= vs@);
        assert(lines_view(lines@) =~= head + windows_lines(cfg.windows@, views@, (i + 1) as nat));
        i += 1;
    }
    lines
}


/// How many report lines the windows before window `i` take: one for each window, plus one per
/// row.
pub open spec fn lines_before(views: Seq<Vec<TabView>>, i: int) -> nat
    decreases i,
{
    if i <= 0 {
        0
    } else {
        lines_before(views, i - 1) + 1 + views[i - 1]@.len()
    }
}

proof fn lemma_lines_before_mono(views: Seq<Vec<TabView>>, a: int, b: int)
    requires
        0 <= a <= b,
    ensures
        lines_before(views, a) + (b - a) <= lines_before(views, b),
    decreases b - a,
{
    if a < b {
        lemma_lines_before_mono(views, a, b - 1);
    }
}

/// The report's window section lists each window once, in order: window `i`'s line sits at
/// `lines_before(views, i)`, followed directly by the lines of window `i`'s own rows (`views[i]`),
/// in order, and nothing else.
pub proof fn law_report_lists_each_windows_own_rows(ws: Seq<WindowConfig>, views: Seq<Vec<TabView>>, n: nat)
    requires
        n <= ws.len(),
        n <= views.len(),
    ensures
        windows_lines(ws, views, n).len() == lines_before(views, n as int),
        forall|i: int| 0 <= i < n ==> #[trigger] windows_lines(ws, views, n)[lines_before(views, i) as int]
            == window_line(ws[i].title@),
        forall|i: int, t: int| 0 <= i < n && 0 <= t < views[i]@.len() ==> #[trigger] windows_lines(ws, views, n)[
            lines_before(views, i) + 1 + t] == tab_line(#[trigger] views[i]@[t]),
    decreases n,
{
    if n > 0 {
        law_report_lists_each_windows_own_rows(ws, views, (n - 1) as nat);
        let prev = windows_lines(ws, views, (n - 1) as nat);
        let cur = windows_lines(ws, views, n);
        let m = (n - 1) as int;
        let wl = window_lines(ws[m], views[m]@);
        assert(cur == prev + wl);
        assert(wl.len() == 1 + views[m]@.len());
        assert forall|i: int| 0 <= i < n implies #[trigger] cur[lines_before(views, i) as int] == window_line(ws[i].title@) by {
            if i < m {
                lemma_lines_before_mono(views, i + 1, m);
                assert(cur[lines_before(views, i) as int] == prev[lines_before(views, i) as int]);
            } else {
                assert(cur[lines_before(views, i) as int] == wl[0]);
            }
        }
        assert forall|i: int, t: int| 0 <= i < n && 0 <= t < views[i]@.len() implies #[trigger] cur[
            lines_before(views, i) + 1 + t] == tab_line(#[trigger] views[i]@[t]) by {
            if i < m {
                lemma_lines_before_mono(views, i + 1, m);
                assert(cur[lines_before(views, i) + 1 + t] == prev[lines_before(views, i) + 1 + t]);
            } else {
                assert(cur[lines_before(views, i) + 1 + t] == wl[1 + t]);
            }
        }
    }
}

} // verus!
