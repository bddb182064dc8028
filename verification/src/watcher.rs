//! Watching: where a watched path lies, the debouncing of change bursts into
//! single restart requests, which watchers the configuration asks for, and
//! what a configuration reload produces.

use vstd::prelude::*;
use crate::config::{
    AppConfig, ProgramConfig, ProgramConfigView, programs_view, spec_expand_tilde, expand_tilde,
    opt_str_view,
};
use crate::event::CustomEvent;
use crate::paths::{
    PathStyle, spec_is_absolute, spec_push_path, is_absolute, push_path, lemma_push_path_ends_with,
};
use crate::table::{
    entry_names, entries_map, restrict_by, filtered_between, lemma_entries_map_at,
    lemma_entries_map_dom, lemma_entries_push, lemma_entries_remove, lemma_entries_names_contains,
    lemma_filter_start, lemma_filter_step, lemma_filter_done,
};
use crate::text::{str_eq, strings_eq, copy_strings};

verus! {

/// A watch path with `~` expanded, taken relative to `base_dir` unless absolute.
pub open spec fn spec_resolve_watch_path(style: PathStyle, path: Seq<char>, base_dir: Seq<char>, home: Option<Seq<char>>) -> Seq<char> {
    let p = spec_expand_tilde(style, path, home);
    if spec_is_absolute(style, p) {
        p
    } else {
        spec_push_path(style, base_dir, p)
    }
}

/// A watch path that is absolute once `~` is expanded is used as it is;
/// any other is found under `base_dir`: the result always ends with the
/// expanded path.
pub proof fn lemma_resolve_watch_path(style: PathStyle, path: Seq<char>, base_dir: Seq<char>, home: Option<Seq<char>>)
    ensures
        spec_is_absolute(style, spec_expand_tilde(style, path, home)) ==> spec_resolve_watch_path(
            style,
            path,
            base_dir,
            home,
        ) == spec_expand_tilde(style, path, home),
        ({
            let p = spec_expand_tilde(style, path, home);
            let r = spec_resolve_watch_path(style, path, base_dir, home);
            r.len() >= p.len() && r.subrange(r.len() - p.len(), r.len() as int) == p
        }),
{
    let p = spec_expand_tilde(style, path, home);
    let r = spec_resolve_watch_path(style, path, base_dir, home);
    lemma_push_path_ends_with(style, base_dir, p);
    assert(r.subrange(r.len() - p.len(), r.len() as int) =~= p);
}

/// Resolves a watch path against `base_dir` if relative.
pub fn resolve_watch_path(style: PathStyle, path_str: &str, base_dir: &str, home: Option<&str>) -> (r: String)
    ensures
        r@ == spec_resolve_watch_path(style, path_str@, base_dir@, opt_str_view(home)),
{
    let path = expand_tilde(style, path_str, home);
    if is_absolute(style, path.as_str()) {
        path
    } else {
        push_path(style, base_dir, path.as_str())
    }
}

/// Quiet period after the last change before a restart is requested, in milliseconds.
pub const DEBOUNCE_MS: u64 = 300;

/// How long to wait for a change when nothing is pending, in milliseconds.
pub const IDLE_WAIT_MS: u64 = 100;

/// A change seen at `t` is due at `now` once the quiet period has passed.
pub open spec fn is_due(t: u64, now: u64) -> bool {
    now >= t + DEBOUNCE_MS
}

pub open spec fn not_due(now: u64) -> spec_fn(Seq<char>, u64) -> bool {
    |k: Seq<char>, t: u64| !is_due(t, now)
}

/// The names whose last change is due at `now`.
pub open spec fn debounce_fired(m: Map<Seq<char>, u64>, now: u64) -> Set<Seq<char>> {
    Set::new(|k: Seq<char>| m.contains_key(k) && is_due(m[k], now))
}

/// The pending changes that are not yet due at `now`.
pub open spec fn debounce_remaining(m: Map<Seq<char>, u64>, now: u64) -> Map<Seq<char>, u64> {
    restrict_by(m, not_due(now))
}

/// Time from `now` until a change seen at `t` is due, or 0 when it is.
pub open spec fn wait_for(t: u64, now: u64) -> int {
    if t + DEBOUNCE_MS > now {
        t + DEBOUNCE_MS - now
    } else {
        0
    }
}

/// Pending changes, by program name, each with the time (in milliseconds) of
/// the last change seen.
pub struct Debouncer {
    pending: Vec<(String, u64)>,
}

impl View for Debouncer {
    type V = Map<Seq<char>, u64>;

    closed spec fn view(&self) -> Map<Seq<char>, u64> {
        entries_map(self.pending@)
    }
}

/// Times at which a change can be recorded without its due time overflowing.
pub open spec fn recordable(t: u64) -> bool {
    t + DEBOUNCE_MS <= u64::MAX
}

impl Debouncer {
    #[verifier::type_invariant]
    spec fn well_formed(self) -> bool {
        &&& entry_names(self.pending@).no_duplicates()
        &&& forall|i: int| 0 <= i < self.pending@.len() ==> recordable(#[trigger] self.pending@[i].1)
    }

    /// Nothing pending.
    pub fn new() -> (r: Self)
        ensures
            r@ == Map::<Seq<char>, u64>::empty(),
    {
        let r = Debouncer { pending: Vec::new() };
        assert(entries_map(r.pending@) =~= Map::<Seq<char>, u64>::empty());
        r
    }

    fn find(&self, name: &str) -> (r: Option<usize>)
        ensures
            match r {
                Some(i) => i < self.pending@.len() && self.pending@[i as int].0@ == name@,
                None => !self@.contains_key(name@),
            },
    {
        let n = self.pending.len();
        let mut i: usize = 0;
        while i < n
            invariant
                n == self.pending@.len(),
                i <= n,
                forall|j: int| 0 <= j < i ==> self.pending@[j].0@ != name@,
            decreases n - i,
        {
            if str_eq(self.pending[i].0.as_str(), name) {
                return Some(i);
            }
            i = i + 1;
        }
        proof {
            lemma_entries_map_dom(self.pending@, name@);
        }
        None
    }

    /// How long to wait for the next change: until the earliest pending change
    /// is due (0 if one already is), or the idle wait when nothing is pending.
    pub fn timeout(&self, now: u64) -> (r: u64)
        ensures
            !(exists|k: Seq<char>| #[trigger] self@.contains_key(k)) ==> r == IDLE_WAIT_MS,
            (exists|k: Seq<char>| #[trigger] self@.contains_key(k)) ==> (exists|k: Seq<char>|
                #[trigger] self@.contains_key(k) && r == wait_for(self@[k], now)),
            forall|k: Seq<char>| #[trigger] self@.contains_key(k) ==> r <= wait_for(self@[k], now),
    {
        proof {
            use_type_invariant(self);
        }
        let n = self.pending.len();
        if n == 0 {
            proof {
                assert forall|k: Seq<char>| !(#[trigger] self@.contains_key(k)) by {
                    lemma_entries_map_dom(self.pending@, k);
                }
            }
            return IDLE_WAIT_MS;
        }
        let mut best: u64 = 0;
        let mut i: usize = 0;
        while i < n
            invariant
                n == self.pending@.len(),
                n > 0,
                i <= n,
                entry_names(self.pending@).no_duplicates(),
                forall|j: int| 0 <= j < self.pending@.len() ==> recordable(#[trigger] self.pending@[j].1),
                i > 0 ==> exists|j: int| 0 <= j < i && best == wait_for(self.pending@[j].1, now),
                forall|j: int| 0 <= j < i ==> best <= wait_for(#[trigger] self.pending@[j].1, now),
            decreases n - i,
        {
            let t = self.pending[i].1;
            assert(recordable(self.pending@[i as int].1));
            let due = t + DEBOUNCE_MS;
            let w: u64 = if due > now { due - now } else { 0 };
            if i == 0 || w < best {
                best = w;
            }
            i = i + 1;
        }
        proof {
            let j = choose|j: int| 0 <= j < n && best == wait_for(self.pending@[j].1, now);
            lemma_entries_map_at(self.pending@, j);
            let kj = self.pending@[j].0@;
            assert(self@.contains_key(kj) && best == wait_for(self@[kj], now));
            assert forall|k: Seq<char>| #[trigger] self@.contains_key(k) implies best <= wait_for(self@[k], now) by {
                lemma_entries_map_dom(self.pending@, k);
                let i2 = choose|i2: int| 0 <= i2 < self.pending@.len() && self.pending@[i2].0@ == k;
                lemma_entries_map_at(self.pending@, i2);
            }
        }
        best
    }

    /// Records a change of `name` seen at `now`, replacing any earlier time.
    pub fn record(&mut self, name: String, now: u64)
        requires
            recordable(now),
        ensures
            final(self)@ == old(self)@.insert(name@, now),
    {
        proof {
            use_type_invariant(&*self);
        }
        let mut pending: Vec<(String, u64)> = Vec::new();
        let found = self.find(name.as_str());
        std::mem::swap(&mut pending, &mut self.pending);
        let ghost before = pending@;
        match found {
            Some(i) => {
                proof {
                    lemma_entries_remove(before, i as int);
                }
                pending.remove(i);
                assert(entry_names(pending@).contains(name@) == entries_map(pending@).contains_key(name@));
            },
            None => {
                proof {
                    lemma_entries_names_contains(before, name@);
                }
            },
        }
        let ghost mid = pending@;
        proof {
            lemma_entries_names_contains(mid, name@);
            lemma_entries_push(mid, (name, now));
            assert(entries_map(mid).insert(name@, now) =~= entries_map(before).insert(name@, now));
            assert forall|j: int| 0 <= j < mid.len() implies recordable(#[trigger] mid[j].1) by {
                match found {
                    Some(i) => {
                        if j < i {
                            assert(mid[j] == before[j]);
                        } else {
                            assert(mid[j] == before[j + 1]);
                        }
                    },
                    None => {},
                }
            }
        }
        pending.push((name, now));
        self.pending = pending;
    }

    /// Takes out the names whose last change is due at `now`, each once; the
    /// changes not yet due stay pending.
    pub fn take_due(&mut self, now: u64) -> (r: Vec<String>)
        ensures
            r.deep_view().no_duplicates(),
            r.deep_view().to_set() == debounce_fired(old(self)@, now),
            final(self)@ == debounce_remaining(old(self)@, now),
    {
        proof {
            use_type_invariant(&*self);
        }
        let mut rest: Vec<(String, u64)> = Vec::new();
        std::mem::swap(&mut rest, &mut self.pending);
        let ghost s = rest@;
        let ghost keep = not_due(now);
        let n = rest.len();
        let mut kept: Vec<(String, u64)> = Vec::new();
        let mut fired: Vec<String> = Vec::new();
        proof {
            lemma_filter_start(s, kept@, n as int, keep);
        }
        while rest.len() > 0
            invariant
                s == old(self).pending@,
                keep == not_due(now),
                n == s.len(),
                rest.len() <= n,
                rest@ == s.take(rest.len() as int),
                entry_names(s).no_duplicates(),
                forall|j: int| 0 <= j < s.len() ==> recordable(#[trigger] s[j].1),
                forall|j: int| 0 <= j < kept@.len() ==> recordable(#[trigger] kept@[j].1),
                filtered_between(s, kept@, rest.len() as int, n as int, keep),
                fired.deep_view().no_duplicates(),
                forall|k: Seq<char>|
                    #[trigger] fired.deep_view().contains(k) <==> exists|j: int|
                        rest.len() <= j < n && s[j].0@ == k && is_due(s[j].1, now),
            decreases rest.len(),
        {
            let lo = rest.len();
            let ghost e = s[lo - 1];
            assert(rest@.last() == e);
            proof {
                lemma_filter_step(s, kept@, lo as int, n as int, keep);
                assert(entry_names(s)[lo - 1] == e.0@);
                assert forall|j: int| lo <= j < n implies s[j].0@ != e.0@ by {
                    assert(entry_names(s)[j] == s[j].0@);
                }
            }
            let (name, t) = rest.pop().unwrap();
            assert(name == e.0 && t == e.1);
            assert(keep(e.0@, e.1) == !is_due(t, now));
            assert(rest@ =~= s.take(lo - 1));
            let ghost prev_fired = fired.deep_view();
            if now >= t + DEBOUNCE_MS {
                fired.push(name);
                proof {
                    assert(fired.deep_view() =~= prev_fired.push(e.0@));
                    assert(!prev_fired.contains(e.0@));
                    assert forall|a: int, b: int|
                        0 <= a < fired.deep_view().len() && 0 <= b < fired.deep_view().len() && a != b
                        implies fired.deep_view()[a] != fired.deep_view()[b] by {
                        if a == prev_fired.len() {
                            assert(prev_fired.contains(prev_fired[b]));
                        } else if b == prev_fired.len() {
                            assert(prev_fired.contains(prev_fired[a]));
                        }
                    }
                    assert forall|k: Seq<char>|
                        #[trigger] fired.deep_view().contains(k) <==> exists|j: int|
                            lo - 1 <= j < n && s[j].0@ == k && is_due(s[j].1, now) by {
                        if fired.deep_view().contains(k) {
                            let a = choose|a: int| 0 <= a < fired.deep_view().len() && fired.deep_view()[a] == k;
                            if a < prev_fired.len() {
                                assert(prev_fired.contains(k));
                            } else {
                                assert(lo - 1 <= lo - 1 < n && s[lo - 1].0@ == k && is_due(s[lo - 1].1, now));
                            }
                        }
                        if exists|j: int| lo - 1 <= j < n && s[j].0@ == k && is_due(s[j].1, now) {
                            let j = choose|j: int| lo - 1 <= j < n && s[j].0@ == k && is_due(s[j].1, now);
                            if j == lo - 1 {
                                assert(fired.deep_view()[prev_fired.len() as int] == k);
                            } else {
                                assert(prev_fired.contains(k));
                                let a = choose|a: int| 0 <= a < prev_fired.len() && prev_fired[a] == k;
                                assert(fired.deep_view()[a] == k);
                            }
                        }
                    }
                }
            } else {
                kept.push((name, t));
                assert(kept@.last() == e);
                proof {
                    assert forall|k: Seq<char>|
                        #[trigger] fired.deep_view().contains(k) <==> exists|j: int|
                            lo - 1 <= j < n && s[j].0@ == k && is_due(s[j].1, now) by {
                        if exists|j: int| lo - 1 <= j < n && s[j].0@ == k && is_due(s[j].1, now) {
                            let j = choose|j: int| lo - 1 <= j < n && s[j].0@ == k && is_due(s[j].1, now);
                            assert(j != lo - 1);
                        }
                    }
                }
            }
        }
        proof {
            lemma_filter_done(s, kept@, keep);
            assert forall|k: Seq<char>|
                fired.deep_view().to_set().contains(k) == debounce_fired(entries_map(s), now).contains(k) by {
                lemma_entries_map_dom(s, k);
                if fired.deep_view().contains(k) {
                    let j = choose|j: int| 0 <= j < n && s[j].0@ == k && is_due(s[j].1, now);
                    lemma_entries_map_at(s, j);
                }
                if debounce_fired(entries_map(s), now).contains(k) {
                    let j = choose|j: int| 0 <= j < s.len() && s[j].0@ == k;
                    lemma_entries_map_at(s, j);
                    assert(0 <= j < n && s[j].0@ == k && is_due(s[j].1, now));
                }
            }
            assert(fired.deep_view().to_set() =~= debounce_fired(entries_map(s), now));
        }
        self.pending = kept;
        fired
    }
}

/// The watches a list of programs asks for: each program with a non-empty
/// list of watch paths, by name, the later of two same-named programs winning.
pub open spec fn spec_desired_watches(ps: Seq<ProgramConfigView>) -> Map<Seq<char>, Seq<Seq<char>>>
    decreases ps.len(),
{
    if ps.len() == 0 {
        Map::empty()
    } else {
        let prev = spec_desired_watches(ps.drop_last());
        let p = ps.last();
        match p.watch_paths {
            Some(w) => if w.len() > 0 {
                prev.insert(p.name, w)
            } else {
                prev
            },
            None => prev,
        }
    }
}

/// A map of path lists that holds what `d` holds.
pub open spec fn watches_match(m: Map<Seq<char>, Vec<String>>, d: Map<Seq<char>, Seq<Seq<char>>>) -> bool {
    &&& m.dom() == d.dom()
    &&& forall|k: Seq<char>| #[trigger] m.contains_key(k) ==> m[k].deep_view() == d[k]
}

fn find_entry<V>(s: &Vec<(String, V)>, name: &str) -> (r: Option<usize>)
    ensures
        match r {
            Some(i) => i < s@.len() && s@[i as int].0@ == name@,
            None => !entries_map(s@).contains_key(name@),
        },
{
    let n = s.len();
    let mut i: usize = 0;
    while i < n
        invariant
            n == s@.len(),
            i <= n,
            forall|j: int| 0 <= j < i ==> s@[j].0@ != name@,
        decreases n - i,
    {
        if str_eq(s[i].0.as_str(), name) {
            return Some(i);
        }
        i = i + 1;
    }
    proof {
        lemma_entries_map_dom(s@, name@);
    }
    None
}

/// The watches the programs ask for, one entry per program name.
pub fn desired_watches(programs: &Vec<ProgramConfig>) -> (r: Vec<(String, Vec<String>)>)
    ensures
        entry_names(r@).no_duplicates(),
        watches_match(entries_map(r@), spec_desired_watches(programs_view(programs@))),
{
    let ghost ps = programs_view(programs@);
    let mut r: Vec<(String, Vec<String>)> = Vec::new();
    let n = programs.len();
    let mut i: usize = 0;
    assert(ps.take(0) =~= Seq::<ProgramConfigView>::empty());
    assert(entries_map(r@) =~= Map::<Seq<char>, Vec<String>>::empty());
    while i < n
        invariant
            n == programs@.len() == ps.len(),
            ps == programs_view(programs@),
            i <= n,
            entry_names(r@).no_duplicates(),
            watches_match(entries_map(r@), spec_desired_watches(ps.take(i as int))),
        decreases n - i,
    {
        let p = &programs[i];
        assert(ps[i as int] == p@);
        assert(ps.take(i + 1).drop_last() =~= ps.take(i as int));
        assert(ps.take(i + 1).last() == p@);
        match &p.watch_paths {
            Some(w) => {
                if w.len() > 0 {
                    assert(w.deep_view().len() == w@.len());
                    let found = find_entry(&r, p.name.as_str());
                    let ghost before = r@;
                    match found {
                        Some(j) => {
                            proof {
                                lemma_entries_remove(before, j as int);
                            }
                            r.remove(j);
                        },
                        None => {},
                    }
                    let ghost mid = r@;
                    proof {
                        lemma_entries_names_contains(mid, p.name@);
                    }
                    let copied = copy_strings(w);
                    proof {
                        lemma_entries_push(mid, (p.name, copied));
                    }
                    r.push((p.name.clone(), copied));
                    proof {
                        let d = spec_desired_watches(ps.take(i + 1));
                        assert(d == spec_desired_watches(ps.take(i as int)).insert(p.name@, w.deep_view()));
                        assert(entries_map(r@) == entries_map(mid).insert(p.name@, copied));
                        assert(entries_map(r@).dom() =~= d.dom());
                    }
                } else {
                    assert(w.deep_view().len() == 0);
                }
            },
            None => {},
        }
        i = i + 1;
    }
    assert(ps.take(n as int) =~= ps);
    r
}

/// A watcher is kept when the configuration asks for exactly its paths.
pub open spec fn watch_kept<W>(d: Map<Seq<char>, Seq<Seq<char>>>) -> spec_fn(Seq<char>, (Vec<String>, W)) -> bool {
    |k: Seq<char>, v: (Vec<String>, W)| d.contains_key(k) && d[k] == v.0.deep_view()
}

pub open spec fn not_in<W>(t: Map<Seq<char>, (Vec<String>, W)>) -> spec_fn(Seq<char>, Vec<String>) -> bool {
    |k: Seq<char>, v: Vec<String>| !t.contains_key(k)
}

/// The active watchers, by program name, each with its watched paths and the
/// watcher `W` itself.
pub struct WatchTable<W> {
    entries: Vec<(String, (Vec<String>, W))>,
}

impl<W> View for WatchTable<W> {
    type V = Map<Seq<char>, (Vec<String>, W)>;

    closed spec fn view(&self) -> Map<Seq<char>, (Vec<String>, W)> {
        entries_map(self.entries@)
    }
}

impl<W> WatchTable<W> {
    #[verifier::type_invariant]
    spec fn names_distinct(self) -> bool {
        entry_names(self.entries@).no_duplicates()
    }

    /// No watchers.
    pub fn new() -> (r: Self)
        ensures
            r@ == Map::<Seq<char>, (Vec<String>, W)>::empty(),
    {
        let r = WatchTable { entries: Vec::new() };
        assert(entries_map(r.entries@) =~= Map::<Seq<char>, (Vec<String>, W)>::empty());
        r
    }

    /// Whether a watcher for `name` is active.
    pub fn contains(&self, name: &str) -> (r: bool)
        ensures
            r == self@.contains_key(name@),
    {
        proof {
            use_type_invariant(self);
        }
        match find_entry(&self.entries, name) {
            Some(i) => {
                proof {
                    lemma_entries_map_at(self.entries@, i as int);
                }
                true
            },
            None => false,
        }
    }

    /// Brings the table in line with `programs`: drops each watcher whose
    /// program no longer asks for exactly its paths, and returns the watches
    /// asked for that have no watcher now, for the caller to create.
    pub fn update(&mut self, programs: &Vec<ProgramConfig>) -> (r: Vec<(String, Vec<String>)>)
        ensures
            final(self)@ == restrict_by(old(self)@, watch_kept(spec_desired_watches(programs_view(programs@)))),
            entry_names(r@).no_duplicates(),
            forall|k: Seq<char>| #[trigger]
                entries_map(r@).contains_key(k) <==> spec_desired_watches(programs_view(programs@)).contains_key(k)
                    && !final(self)@.contains_key(k),
            forall|k: Seq<char>| #[trigger]
                entries_map(r@).contains_key(k) ==> entries_map(r@)[k].deep_view()
                    == spec_desired_watches(programs_view(programs@))[k],
    {
        proof {
            use_type_invariant(&*self);
        }
        let ghost d = spec_desired_watches(programs_view(programs@));
        let mut desired = desired_watches(programs);
        let ghost dv = desired@;
        // Keep the watchers whose paths are still asked for.
        let mut rest: Vec<(String, (Vec<String>, W))> = Vec::new();
        std::mem::swap(&mut rest, &mut self.entries);
        let ghost s = rest@;
        let ghost keep = watch_kept::<W>(d);
        let n = rest.len();
        let mut kept: Vec<(String, (Vec<String>, W))> = Vec::new();
        proof {
            lemma_filter_start(s, kept@, n as int, keep);
        }
        while rest.len() > 0
            invariant
                s == old(self).entries@,
                keep == watch_kept::<W>(d),
                n == s.len(),
                rest.len() <= n,
                rest@ == s.take(rest.len() as int),
                entry_names(s).no_duplicates(),
                desired@ == dv,
                entry_names(dv).no_duplicates(),
                watches_match(entries_map(dv), d),
                filtered_between(s, kept@, rest.len() as int, n as int, keep),
            decreases rest.len(),
        {
            let lo = rest.len();
            let ghost e = s[lo - 1];
            assert(rest@.last() == e);
            proof {
                lemma_filter_step(s, kept@, lo as int, n as int, keep);
            }
            let (name, entry) = rest.pop().unwrap();
            assert(name == e.0 && entry == e.1);
            assert(rest@ =~= s.take(lo - 1));
            let keep_it = match find_entry(&desired, name.as_str()) {
                Some(j) => {
                    proof {
                        lemma_entries_map_at(dv, j as int);
                    }
                    strings_eq(&desired[j].1, &entry.0)
                },
                None => false,
            };
            assert(keep_it == keep(e.0@, e.1));
            if keep_it {
                kept.push((name, entry));
                assert(kept@.last() == e);
            }
        }
        proof {
            lemma_filter_done(s, kept@, keep);
        }
        self.entries = kept;
        let ghost t = entries_map(self.entries@);
        // The asked-for watches without a watcher.
        let ghost keep2 = not_in::<W>(t);
        let m = desired.len();
        let mut missing: Vec<(String, Vec<String>)> = Vec::new();
        proof {
            lemma_filter_start(dv, missing@, m as int, keep2);
        }
        while desired.len() > 0
            invariant
                keep2 == not_in::<W>(t),
                t == self@,
                m == dv.len(),
                desired.len() <= m,
                desired@ == dv.take(desired.len() as int),
                entry_names(dv).no_duplicates(),
                filtered_between(dv, missing@, desired.len() as int, m as int, keep2),
            decreases desired.len(),
        {
            let lo = desired.len();
            let ghost e = dv[lo - 1];
            assert(desired@.last() == e);
            proof {
                lemma_filter_step(dv, missing@, lo as int, m as int, keep2);
            }
            let (name, paths) = desired.pop().unwrap();
            assert(name == e.0 && paths == e.1);
            assert(desired@ =~= dv.take(lo - 1));
            let present = self.contains(name.as_str());
            assert(present == !keep2(e.0@, e.1));
            if !present {
                missing.push((name, paths));
                assert(missing@.last() == e);
            }
        }
        proof {
            lemma_filter_done(dv, missing@, keep2);
        }
        missing
    }

    /// Adds the watcher of `name`, watching `paths`; refused, handing both
    /// back, when `name` already has one.
    pub fn insert(&mut self, name: String, paths: Vec<String>, watcher: W) -> (r: Result<(), (Vec<String>, W)>)
        ensures
            match r {
                Ok(()) => !old(self)@.contains_key(name@) && final(self)@ == old(self)@.insert(
                    name@,
                    (paths, watcher),
                ),
                Err(back) => old(self)@.contains_key(name@) && back == (paths, watcher) && final(self)@
                    == old(self)@,
            },
    {
        proof {
            use_type_invariant(&*self);
        }
        if self.contains(name.as_str()) {
            return Err((paths, watcher));
        }
        proof {
            lemma_entries_names_contains(self.entries@, name@);
            lemma_entries_push(self.entries@, (name, (paths, watcher)));
        }
        let mut entries: Vec<(String, (Vec<String>, W))> = Vec::new();
        std::mem::swap(&mut entries, &mut self.entries);
        entries.push((name, (paths, watcher)));
        self.entries = entries;
        Ok(())
    }
}

/// Watches the configuration file.
pub struct ConfigWatcher;

impl ConfigWatcher {
    /// Whether a change in the configuration file's directory concerns the
    /// configuration file: one of the changed files has its name.
    pub fn concerns_config(changed_file_names: &Vec<String>, config_file_name: &str) -> (r: bool)
        ensures
            r == exists|i: int| 0 <= i < changed_file_names@.len() && #[trigger] changed_file_names@[i]@ == config_file_name@,
    {
        let n = changed_file_names.len();
        let mut i: usize = 0;
        while i < n
            invariant
                n == changed_file_names@.len(),
                i <= n,
                forall|j: int| 0 <= j < i ==> changed_file_names@[j]@ != config_file_name@,
            decreases n - i,
        {
            if str_eq(changed_file_names[i].as_str(), config_file_name) {
                return true;
            }
            i = i + 1;
        }
        false
    }

    /// What a change of the configuration file leads to: when the file was
    /// reloaded, the reloaded configuration becomes the current one and the
    /// previous one is announced in a `ConfigUpdated` event; when reloading
    /// failed, nothing.
    pub fn on_reload(previous: AppConfig, reloaded: Option<AppConfig>) -> (r: Option<(AppConfig, CustomEvent)>)
        ensures
            match reloaded {
                Some(c) => r == Some((c, CustomEvent::ConfigUpdated(previous))),
                None => r is None,
            },
    {
        match reloaded {
            Some(c) => Some((c, CustomEvent::ConfigUpdated(previous))),
            None => None,
        }
    }
}

/// A change is not reported before the quiet period after it has passed: it
/// stays pending with its time.
pub proof fn lemma_quiet_period(m: Map<Seq<char>, u64>, name: Seq<char>, t: u64, now: u64)
    requires
        now < t + DEBOUNCE_MS,
    ensures
        !debounce_fired(m.insert(name, t), now).contains(name),
        debounce_remaining(m.insert(name, t), now).contains_key(name),
        debounce_remaining(m.insert(name, t), now)[name] == t,
{
}

/// Of a burst of changes to one program only the last counts: a later change
/// restarts the quiet period.
pub proof fn lemma_burst_restarts_period(m: Map<Seq<char>, u64>, name: Seq<char>, t1: u64, t2: u64)
    ensures
        m.insert(name, t1).insert(name, t2) == m.insert(name, t2),
{
    assert(m.insert(name, t1).insert(name, t2) =~= m.insert(name, t2));
}

/// Once the quiet period has passed, the change is reported, and it is not
/// reported again until a new change is recorded.
pub proof fn lemma_reported_once(m: Map<Seq<char>, u64>, name: Seq<char>, t: u64, now: u64, later: u64)
    requires
        now >= t + DEBOUNCE_MS,
    ensures
        debounce_fired(m.insert(name, t), now).contains(name),
        !debounce_remaining(m.insert(name, t), now).contains_key(name),
        !debounce_fired(debounce_remaining(m.insert(name, t), now), later).contains(name),
{
}

/// Taking out what is due and what remains splits the pending changes.
pub proof fn lemma_fired_and_remaining_split(m: Map<Seq<char>, u64>, now: u64, k: Seq<char>)
    ensures
        m.contains_key(k) <==> (debounce_fired(m, now).contains(k) || debounce_remaining(m, now).contains_key(k)),
        !(debounce_fired(m, now).contains(k) && debounce_remaining(m, now).contains_key(k)),
{
}

/// After an update the remaining watchers watch exactly the paths asked for.
pub proof fn lemma_kept_watchers_match<W>(t: Map<Seq<char>, (Vec<String>, W)>, d: Map<Seq<char>, Seq<Seq<char>>>, k: Seq<char>)
    requires
        restrict_by(t, watch_kept::<W>(d)).contains_key(k),
    ensures
        d.contains_key(k),
        restrict_by(t, watch_kept::<W>(d))[k].0.deep_view() == d[k],
{
}

/// A table that already matches what is asked for is left as it is.
pub proof fn lemma_update_keeps_matching_table<W>(t: Map<Seq<char>, (Vec<String>, W)>, d: Map<Seq<char>, Seq<Seq<char>>>)
    requires
        t.dom() == d.dom(),
        forall|k: Seq<char>| #[trigger] t.contains_key(k) ==> t[k].0.deep_view() == d[k],
    ensures
        restrict_by(t, watch_kept::<W>(d)) == t,
{
    assert(restrict_by(t, watch_kept::<W>(d)) =~= t);
}

/// A change is reported exactly when the quiet period since the latest change
/// of that program has passed.
pub proof fn lemma_fires_iff_quiet(m: Map<Seq<char>, u64>, name: Seq<char>, t: u64, now: u64)
    ensures
        debounce_fired(m.insert(name, t), now).contains(name) <==> now >= t + DEBOUNCE_MS,
{
}

/// Updating, adding watchers for some of the watches reported missing (with
/// the paths asked for), and updating again with the same programs keeps
/// every watcher.
pub proof fn lemma_update_stable_after_inserts<W>(
    t0: Map<Seq<char>, (Vec<String>, W)>,
    d: Map<Seq<char>, Seq<Seq<char>>>,
    added: Map<Seq<char>, (Vec<String>, W)>,
)
    requires
        forall|k: Seq<char>| #[trigger] added.contains_key(k) ==> d.contains_key(k)
            && !restrict_by(t0, watch_kept::<W>(d)).contains_key(k) && added[k].0.deep_view() == d[k],
    ensures
        ({
            let t2 = restrict_by(t0, watch_kept::<W>(d)).union_prefer_right(added);
            restrict_by(t2, watch_kept::<W>(d)) == t2
        }),
{
    let t1 = restrict_by(t0, watch_kept::<W>(d));
    let t2 = t1.union_prefer_right(added);
    assert forall|k: Seq<char>| #[trigger] t2.contains_key(k) implies watch_kept::<W>(d)(k, t2[k]) by {
        if added.contains_key(k) {
        } else {
            assert(t1.contains_key(k));
        }
    }
    assert(restrict_by(t2, watch_kept::<W>(d)) =~= t2);
}

} // verus!
