//! The layout of the tray menu and the status dot drawn beside service links.

use vstd::prelude::*;
use crate::config::{AppConfig, ProgramConfigView};
use crate::event::MenuAction;
use crate::process::ProcessManager;

verus! {

/// The abstract value of a menu entry.
pub enum MenuEntryView {
    ServiceLink { name: Seq<char>, url: Seq<char>, running: bool },
    Separator,
    Autostart { enabled: bool },
    OpenConfig,
    Exit,
}

/// One entry of the tray menu.
#[derive(Debug)]
pub enum MenuEntry {
    /// Opens the service page `url` of program `name`, with a dot showing
    /// whether the program runs.
    ServiceLink { name: String, url: String, running: bool },
    Separator,
    /// Toggles autostart; checked when `enabled`.
    Autostart { enabled: bool },
    OpenConfig,
    Exit,
}

impl View for MenuEntry {
    type V = MenuEntryView;

    open spec fn view(&self) -> MenuEntryView {
        match self {
            MenuEntry::ServiceLink { name, url, running } => MenuEntryView::ServiceLink {
                name: name@,
                url: url@,
                running: *running,
            },
            MenuEntry::Separator => MenuEntryView::Separator,
            MenuEntry::Autostart { enabled } => MenuEntryView::Autostart { enabled: *enabled },
            MenuEntry::OpenConfig => MenuEntryView::OpenConfig,
            MenuEntry::Exit => MenuEntryView::Exit,
        }
    }
}

/// One link per program that has a service page, in configuration order.
pub open spec fn spec_service_links(ps: Seq<ProgramConfigView>, running: Set<Seq<char>>) -> Seq<MenuEntryView>
    decreases ps.len(),
{
    if ps.len() == 0 {
        Seq::empty()
    } else {
        let prev = spec_service_links(ps.drop_last(), running);
        let p = ps.last();
        match p.service_url {
            Some(url) => prev.push(
                MenuEntryView::ServiceLink { name: p.name, url, running: running.contains(p.name) },
            ),
            None => prev,
        }
    }
}

/// The menu: the service links, a separator, the autostart toggle, the entry
/// that opens the configuration, and the exit entry.
pub open spec fn spec_menu(ps: Seq<ProgramConfigView>, autostart: bool, running: Set<Seq<char>>) -> Seq<MenuEntryView> {
    spec_service_links(ps, running) + seq![
        MenuEntryView::Separator,
        MenuEntryView::Autostart { enabled: autostart },
        MenuEntryView::OpenConfig,
        MenuEntryView::Exit,
    ]
}

pub open spec fn entries_view(s: Seq<MenuEntry>) -> Seq<MenuEntryView> {
    s.map_values(|e: MenuEntry| e@)
}

/// The entries of the tray menu for `config`, with each link marked running
/// or not according to `processes`.
pub fn menu_entries<H>(config: &AppConfig, processes: &ProcessManager<H>) -> (r: Vec<MenuEntry>)
    ensures
        entries_view(r@) == spec_menu(config@.programs, config@.autostart, processes@.dom()),
{
    let ghost ps = config@.programs;
    let ghost running = processes@.dom();
    let mut r: Vec<MenuEntry> = Vec::new();
    let n = config.programs.len();
    let mut i: usize = 0;
    assert(entries_view(r@) =~= spec_service_links(ps.take(0), running));
    while i < n
        invariant
            n == config.programs@.len() == ps.len(),
            ps == config@.programs,
            running == processes@.dom(),
            i <= n,
            entries_view(r@) == spec_service_links(ps.take(i as int), running),
        decreases n - i,
    {
        let p = &config.programs[i];
        assert(ps[i as int] == p@);
        assert(ps.take(i + 1).drop_last() =~= ps.take(i as int));
        let ghost prev = r@;
        match &p.service_url {
            Some(url) => {
                let running_now = processes.is_running(p.name.as_str());
                r.push(MenuEntry::ServiceLink { name: p.name.clone(), url: url.clone(), running: running_now });
                assert(entries_view(r@) =~= entries_view(prev).push(r@.last()@));
            },
            None => {},
        }
        i = i + 1;
    }
    assert(ps.take(n as int) =~= ps);
    let ghost links = r@;
    r.push(MenuEntry::Separator);
    r.push(MenuEntry::Autostart { enabled: config.autostart });
    r.push(MenuEntry::OpenConfig);
    r.push(MenuEntry::Exit);
    assert(entries_view(r@) =~= spec_menu(ps, config@.autostart, running));
    r
}

/// Every service link is that of a configured program with a service page,
/// carries its name and page, and shows it running exactly when a process of
/// that name runs; each such program gets a link, in configuration order.
pub proof fn lemma_service_links(ps: Seq<ProgramConfigView>, running: Set<Seq<char>>)
    ensures
        ({
            let links = spec_service_links(ps, running);
            &&& links.len() <= ps.len()
            &&& forall|j: int| 0 <= j < links.len() ==> #[trigger] links[j] is ServiceLink
            &&& forall|j: int| #![trigger links[j]] 0 <= j < links.len() ==> exists|i: int| #![trigger ps[i]] 0 <= i < ps.len()
                && ps[i].service_url == Some(links[j]->url)
                && ps[i].name == links[j]->name
                && links[j]->running == running.contains(ps[i].name)
            &&& links.len() == ps.filter(|p: ProgramConfigView| p.service_url is Some).len()
        }),
    decreases ps.len(),
{
    if ps.len() > 0 {
        let q = ps.drop_last();
        lemma_service_links(q, running);
        let prev = spec_service_links(q, running);
        let links = spec_service_links(ps, running);
        let f = |p: ProgramConfigView| p.service_url is Some;
        assert(ps =~= q.push(ps.last()));
        q.lemma_filter_push(ps.last(), f);
        assert forall|j: int| #![trigger links[j]] 0 <= j < links.len() implies exists|i: int| #![trigger ps[i]] 0 <= i < ps.len()
            && ps[i].service_url == Some(links[j]->url)
            && ps[i].name == links[j]->name
            && links[j]->running == running.contains(ps[i].name) by {
            if j < prev.len() {
                assert(links[j] == prev[j]);
                let i = choose|i: int| 0 <= i < q.len()
                    && q[i].service_url == Some(prev[j]->url)
                    && q[i].name == prev[j]->name
                    && prev[j]->running == running.contains(q[i].name);
                assert(ps[i] == q[i]);
            } else {
                assert(ps[ps.len() - 1] == ps.last());
            }
        }
    }
}

/// The service links hold no autostart entry.
proof fn lemma_links_lack_autostart(ps: Seq<ProgramConfigView>, running: Set<Seq<char>>)
    ensures
        forall|j: int| 0 <= j < spec_service_links(ps, running).len()
            ==> !(#[trigger] spec_service_links(ps, running)[j] is Autostart),
    decreases ps.len(),
{
    if ps.len() > 0 {
        lemma_links_lack_autostart(ps.drop_last(), running);
    }
}

/// The menu holds exactly one autostart entry, third from the end, and it is
/// checked exactly when autostart is on.
pub proof fn lemma_menu_autostart_entry(ps: Seq<ProgramConfigView>, autostart: bool, running: Set<Seq<char>>)
    ensures
        ({
            let m = spec_menu(ps, autostart, running);
            &&& m.len() >= 4
            &&& m[m.len() - 3] == MenuEntryView::Autostart { enabled: autostart }
            &&& forall|j: int| 0 <= j < m.len() && (#[trigger] m[j] is Autostart) ==> j == m.len() - 3
            &&& forall|j: int| 0 <= j < m.len() && (#[trigger] m[j] is Autostart) ==> m[j]->enabled == autostart
        }),
{
    let links = spec_service_links(ps, running);
    let m = spec_menu(ps, autostart, running);
    lemma_links_lack_autostart(ps, running);
    assert forall|j: int| 0 <= j < m.len() && (#[trigger] m[j] is Autostart) implies j == m.len() - 3 by {
        if j < links.len() {
            assert(m[j] == links[j]);
        }
    }
}

impl MenuEntry {
    /// What clicking the entry does: a link opens its page, the autostart
    /// entry toggles autostart, the configuration entry opens the
    /// configuration, the exit entry exits; a separator does nothing.
    pub fn action(&self) -> (r: Option<MenuAction>)
        ensures
            match self {
                MenuEntry::ServiceLink { url, .. } => r == Some(MenuAction::OpenUrl(*url)),
                MenuEntry::Separator => r is None,
                MenuEntry::Autostart { .. } => r == Some(MenuAction::ToggleAutostart),
                MenuEntry::OpenConfig => r == Some(MenuAction::OpenConfig),
                MenuEntry::Exit => r == Some(MenuAction::Exit),
            },
    {
        match self {
            MenuEntry::ServiceLink { url, .. } => Some(MenuAction::OpenUrl(url.clone())),
            MenuEntry::Separator => None,
            MenuEntry::Autostart { .. } => Some(MenuAction::ToggleAutostart),
            MenuEntry::OpenConfig => Some(MenuAction::OpenConfig),
            MenuEntry::Exit => Some(MenuAction::Exit),
        }
    }
}

/// `✓ `, the mark put before the autostart label when autostart is on.
pub open spec fn check_mark() -> Seq<char> {
    seq!['\u{2713}', ' ']
}

/// The autostart entry's label: `label`, marked `✓ ` when autostart is on.
pub fn autostart_label(enabled: bool, label: &str) -> (r: String)
    ensures
        r@ == if enabled { check_mark() + label@ } else { label@ },
{
    if enabled {
        proof {
            reveal_strlit("\u{2713} ");
            assert("\u{2713} "@ =~= check_mark());
        }
        let mut r = "\u{2713} ".to_string();
        r.append(label);
        r
    } else {
        label.to_string()
    }
}

/// Width and height of the status dot icon, in pixels.
pub const STATUS_ICON_SIZE: u32 = 12;

/// The dot covers the pixels whose centre lies within 4 pixels of the point
/// (5.5, 5.5); doubled, (2x - 11)² + (2y - 11)² <= 64.
pub open spec fn in_status_dot(x: int, y: int) -> bool {
    (2 * x - 11) * (2 * x - 11) + (2 * y - 11) * (2 * y - 11) <= 64
}

/// Channel `c` of the dot colour: green (34, 197, 94) when running, red
/// (239, 68, 68) otherwise, opaque.
pub open spec fn status_color(running: bool, c: int) -> u8 {
    if c == 3 {
        255
    } else if running {
        if c == 0 { 34 } else if c == 1 { 197 } else { 94 }
    } else {
        if c == 0 { 239 } else { 68 }
    }
}

/// Channel `c` of pixel (`x`, `y`): the dot colour inside the dot, else 0.
pub open spec fn status_icon_byte(running: bool, x: int, y: int, c: int) -> u8 {
    if in_status_dot(x, y) {
        status_color(running, c)
    } else {
        0
    }
}

fn dot_contains(x: u32, y: u32) -> (r: bool)
    requires
        x < 12,
        y < 12,
    ensures
        r == in_status_dot(x as int, y as int),
{
    let dx: i32 = 2 * (x as i32) - 11;
    let dy: i32 = 2 * (y as i32) - 11;
    assert(dx * dx <= 121) by (nonlinear_arith)
        requires
            -11 <= dx <= 11,
    ;
    assert(dy * dy <= 121) by (nonlinear_arith)
        requires
            -11 <= dy <= 11,
    ;
    assert(0 <= dx * dx && 0 <= dy * dy) by (nonlinear_arith);
    dx * dx + dy * dy <= 64
}

/// The RGBA pixels, row by row, of the 12 by 12 status dot.
pub fn status_icon_rgba(running: bool) -> (r: Vec<u8>)
    ensures
        r@.len() == 576,
        forall|x: int, y: int, c: int|
            0 <= x < 12 && 0 <= y < 12 && 0 <= c < 4 ==> #[trigger] r@[48 * y + 4 * x + c]
                == status_icon_byte(running, x, y, c),
{
    let mut r: Vec<u8> = Vec::new();
    let mut y: u32 = 0;
    while y < STATUS_ICON_SIZE
        invariant
            y <= 12,
            r@.len() == 48 * y,
            forall|x2: int, y2: int, c: int|
                0 <= x2 < 12 && 0 <= y2 < y && 0 <= c < 4 ==> #[trigger] r@[48 * y2 + 4 * x2 + c]
                    == status_icon_byte(running, x2, y2, c),
        decreases 12 - y,
    {
        let mut x: u32 = 0;
        while x < STATUS_ICON_SIZE
            invariant
                y < 12,
                x <= 12,
                r@.len() == 48 * y + 4 * x,
                forall|x2: int, y2: int, c: int|
                    0 <= x2 < 12 && 0 <= y2 < 12 && 0 <= c < 4 && (y2 < y || (y2 == y && x2 < x))
                        ==> #[trigger] r@[48 * y2 + 4 * x2 + c] == status_icon_byte(running, x2, y2, c),
            decreases 12 - x,
        {
            let inside = dot_contains(x, y);
            let ghost before = r@;
            if inside {
                if running {
                    r.push(34);
                    r.push(197);
                    r.push(94);
                } else {
                    r.push(239);
                    r.push(68);
                    r.push(68);
                }
                r.push(255);
            } else {
                r.push(0);
                r.push(0);
                r.push(0);
                r.push(0);
            }
            assert forall|x2: int, y2: int, c: int|
                0 <= x2 < 12 && 0 <= y2 < 12 && 0 <= c < 4 && (y2 < y || (y2 == y && x2 < x + 1))
                    implies #[trigger] r@[48 * y2 + 4 * x2 + c] == status_icon_byte(running, x2, y2, c) by {
                if y2 == y && x2 == x {
                    assert(r@[48 * y2 + 4 * x2 + c] == r@[before.len() + c]);
                } else {
                    assert(48 * y2 + 4 * x2 + c < before.len());
                    assert(r@[48 * y2 + 4 * x2 + c] == before[48 * y2 + 4 * x2 + c]);
                }
            }
            x = x + 1;
        }
        y = y + 1;
    }
    r
}

} // verus!
