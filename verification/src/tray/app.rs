//! What the tray does when the configuration changes, when a program is to be
//! restarted, and when a menu item is clicked.

use vstd::prelude::*;
use crate::config::{
    AppConfig, AppConfigView, ProgramConfig, ProgramConfigView, programs_view,
    spec_effective_working_dir,
};
use crate::event::MenuAction;
use crate::process::ProcessManager;
use crate::table::entry_names;
use crate::text::{spec_index_from, lemma_index_from, str_eq};

verus! {

/// The names of the programs, in order.
pub open spec fn program_names(ps: Seq<ProgramConfigView>) -> Seq<Seq<char>> {
    ps.map_values(|p: ProgramConfigView| p.name)
}

/// Position of the first program called `name`, or `ps.len()` if none.
pub open spec fn spec_find_program(ps: Seq<ProgramConfigView>, name: Seq<char>) -> nat {
    spec_index_from(program_names(ps), name, 0)
}

/// The positions below `n` that satisfy `pred`, in increasing order.
pub open spec fn indices_where(n: nat, pred: spec_fn(int) -> bool) -> Seq<int>
    decreases n,
{
    if n == 0 {
        Seq::empty()
    } else {
        let s = indices_where((n - 1) as nat, pred);
        if pred(n - 1) {
            s.push(n - 1)
        } else {
            s
        }
    }
}

/// The program at `i` of the new configuration has a name the old one lacks.
pub open spec fn is_new_program(old: AppConfigView, new: AppConfigView, i: int) -> bool {
    !program_names(old.programs).contains(new.programs[i].name)
}

/// The program at `i` of the new configuration differs from the first old
/// program of the same name, in a field or in its effective working directory.
pub open spec fn is_changed_program(old: AppConfigView, new: AppConfigView, i: int) -> bool {
    let np = new.programs[i];
    let k = spec_find_program(old.programs, np.name) as int;
    &&& k < old.programs.len()
    &&& !(old.programs[k] == np && spec_effective_working_dir(old.programs[k], old.working_dir)
        == spec_effective_working_dir(np, new.working_dir))
}

pub open spec fn new_program_pred(old: AppConfigView, new: AppConfigView) -> spec_fn(int) -> bool {
    |i: int| is_new_program(old, new, i)
}

pub open spec fn changed_program_pred(old: AppConfigView, new: AppConfigView) -> spec_fn(int) -> bool {
    |i: int| is_changed_program(old, new, i)
}

pub open spec fn as_ints(s: Seq<usize>) -> Seq<int> {
    s.map_values(|i: usize| i as int)
}

/// `stop` holds the names among the first `i` old names that the new names lack.
pub open spec fn stop_names_so_far(
    stop: Seq<Seq<char>>,
    old_names: Seq<Seq<char>>,
    new_names: Seq<Seq<char>>,
    i: int,
) -> bool {
    forall|k: Seq<char>|
        stop.contains(k) <==> (exists|j: int| 0 <= j < i && old_names[j] == k) && !new_names.contains(k)
}

/// The process changes that follow a configuration change: the names to stop,
/// then the positions (in the new configuration) of the programs to start,
/// then those to restart.
#[derive(Debug)]
pub struct UpdatePlan {
    pub stop: Vec<String>,
    pub start: Vec<usize>,
    pub restart: Vec<usize>,
}

/// Position of the first program called `name`.
pub fn find_program(ps: &Vec<ProgramConfig>, name: &str) -> (r: usize)
    ensures
        r == spec_find_program(programs_view(ps@), name@),
{
    let ghost names = program_names(programs_view(ps@));
    proof {
        lemma_index_from(names, name@, 0);
    }
    let n = ps.len();
    let mut i: usize = 0;
    while i < n
        invariant
            n == ps@.len() == names.len(),
            names == program_names(programs_view(ps@)),
            i <= n,
            spec_index_from(names, name@, i as nat) == spec_index_from(names, name@, 0),
        decreases n - i,
    {
        assert(names[i as int] == ps@[i as int].name@);
        if str_eq(ps[i].name.as_str(), name) {
            return i;
        }
        i = i + 1;
    }
    i
}

/// Plans the process changes from `old` to `new`: stop each program whose name
/// is gone; start each program whose name is new; restart each program whose
/// entry or effective working directory changed.
pub fn plan_process_updates(old: &AppConfig, new: &AppConfig) -> (r: UpdatePlan)
    ensures
        r.stop.deep_view().no_duplicates(),
        r.stop.deep_view().to_set() == program_names(old@.programs).to_set().difference(
            program_names(new@.programs).to_set(),
        ),
        as_ints(r.start@) == indices_where(new@.programs.len(), new_program_pred(old@, new@)),
        as_ints(r.restart@) == indices_where(new@.programs.len(), changed_program_pred(old@, new@)),
{
    let ghost old_names = program_names(old@.programs);
    let ghost new_names = program_names(new@.programs);
    let on = old.programs.len();
    let nn = new.programs.len();
    // Names to stop, each at its first occurrence in the old configuration.
    let mut stop: Vec<String> = Vec::new();
    let mut i: usize = 0;
    while i < on
        invariant
            on == old.programs@.len() == old_names.len(),
            nn == new.programs@.len() == new_names.len(),
            old_names == program_names(old@.programs),
            new_names == program_names(new@.programs),
            i <= on,
            stop.deep_view().no_duplicates(),
            stop_names_so_far(stop.deep_view(), old_names, new_names, i as int),
        decreases on - i,
    {
        let name = old.programs[i].name.as_str();
        assert(old_names[i as int] == name@);
        let in_new = find_program(&new.programs, name);
        let first = find_program(&old.programs, name);
        proof {
            lemma_index_from(new_names, name@, 0);
            lemma_index_from(old_names, name@, 0);
        }
        let ghost prev = stop.deep_view();
        proof {
            assert(forall|k: Seq<char>|
                prev.contains(k) <==> (exists|j: int| 0 <= j < i && old_names[j] == k)
                    && !new_names.contains(k));
        }
        if in_new == nn && first == i {
            stop.push(old.programs[i].name.clone());
            proof {
                assert(stop.deep_view() =~= prev.push(name@));
                assert(!prev.contains(name@)) by {
                    if prev.contains(name@) {
                        let j = choose|j: int| 0 <= j < i && old_names[j] == name@;
                        assert(old_names[j] != name@);
                    }
                }
                assert(!new_names.contains(name@));
                assert forall|a: int, b: int|
                    0 <= a < stop.deep_view().len() && 0 <= b < stop.deep_view().len() && a != b
                    implies stop.deep_view()[a] != stop.deep_view()[b] by {
                    if a < prev.len() && b < prev.len() {
                    } else if a == prev.len() {
                        assert(prev.contains(prev[b]));
                    } else {
                        assert(prev.contains(prev[a]));
                    }
                }
                assert forall|k: Seq<char>|
                    stop.deep_view().contains(k) <==> (exists|j: int| 0 <= j < i + 1 && old_names[j] == k)
                        && !new_names.contains(k) by {
                    if stop.deep_view().contains(k) {
                        let a = choose|a: int| 0 <= a < stop.deep_view().len() && stop.deep_view()[a] == k;
                        if a < prev.len() {
                            assert(prev[a] == k);
                            assert(prev.contains(k));
                            let j = choose|j: int| 0 <= j < i && old_names[j] == k;
                            assert(0 <= j < i + 1 && old_names[j] == k);
                        } else {
                            assert(k == name@);
                            assert(old_names[i as int] == k);
                        }
                    }
                    if (exists|j: int| 0 <= j < i + 1 && old_names[j] == k) && !new_names.contains(k) {
                        let j = choose|j: int| 0 <= j < i + 1 && old_names[j] == k;
                        if j < i {
                            assert(prev.contains(k));
                            let a = choose|a: int| 0 <= a < prev.len() && prev[a] == k;
                            assert(stop.deep_view()[a] == k);
                        } else {
                            assert(k == name@);
                            assert(stop.deep_view()[prev.len() as int] == k);
                        }
                    }
                }
            }
        } else {
            proof {
                assert(stop.deep_view() == prev);
                assert forall|k: Seq<char>|
                    prev.contains(k) <==> (exists|j: int| 0 <= j < i + 1 && old_names[j] == k)
                        && !new_names.contains(k) by {
                    if prev.contains(k) {
                        let j = choose|j: int| 0 <= j < i && old_names[j] == k;
                        assert(0 <= j < i + 1 && old_names[j] == k);
                    }
                    if (exists|j: int| 0 <= j < i + 1 && old_names[j] == k) && !new_names.contains(k) {
                        let j = choose|j: int| 0 <= j < i + 1 && old_names[j] == k;
                        if j == i {
                            assert(k == name@);
                            if in_new != nn {
                                assert(new_names[in_new as int] == k);
                                assert(new_names.contains(k));
                            }
                            assert(first != i);
                            assert(first < i);
                            assert(old_names[first as int] == k);
                            assert(exists|j2: int| 0 <= j2 < i && old_names[j2] == k);
                        } else {
                            assert(exists|j2: int| 0 <= j2 < i && old_names[j2] == k);
                        }
                    }
                }
            }
        }
        assert(stop_names_so_far(stop.deep_view(), old_names, new_names, i + 1));
        i = i + 1;
    }
    proof {
        assert forall|k: Seq<char>|
            stop.deep_view().to_set().contains(k) == old_names.to_set().difference(new_names.to_set()).contains(
                k,
            ) by {
            assert(stop.deep_view().to_set().contains(k) == stop.deep_view().contains(k));
            assert(old_names.to_set().contains(k) == old_names.contains(k));
            assert(new_names.to_set().contains(k) == new_names.contains(k));
            if old_names.contains(k) {
                let j = choose|j: int| 0 <= j < old_names.len() && old_names[j] == k;
                assert(0 <= j < on);
            }
            if stop.deep_view().contains(k) {
                let j = choose|j: int| 0 <= j < on && old_names[j] == k;
                assert(old_names.contains(k));
            }
        }
        assert(stop.deep_view().to_set() =~= old_names.to_set().difference(new_names.to_set()));
    }
    // Programs to start, then programs to restart.
    let mut start: Vec<usize> = Vec::new();
    let mut restart: Vec<usize> = Vec::new();
    let mut i: usize = 0;
    while i < nn
        invariant
            on == old.programs@.len() == old_names.len(),
            nn == new.programs@.len() == new_names.len(),
            old_names == program_names(old@.programs),
            new_names == program_names(new@.programs),
            i <= nn,
            as_ints(start@) == indices_where(i as nat, new_program_pred(old@, new@)),
            as_ints(restart@) == indices_where(i as nat, changed_program_pred(old@, new@)),
        decreases nn - i,
    {
        let np = &new.programs[i];
        assert(new_names[i as int] == np.name@);
        let k = find_program(&old.programs, np.name.as_str());
        proof {
            lemma_index_from(old_names, np.name@, 0);
        }
        if k == on {
            start.push(i);
            proof {
                assert(is_new_program(old@, new@, i as int));
                assert(!is_changed_program(old@, new@, i as int));
            }
        } else {
            proof {
                assert(old_names.contains(np.name@));
                assert(!is_new_program(old@, new@, i as int));
            }
            let op = &old.programs[k];
            let same = op.same_as(np) && str_eq(
                op.effective_working_dir(old.working_dir.as_str()),
                np.effective_working_dir(new.working_dir.as_str()),
            );
            if !same {
                restart.push(i);
            }
            proof {
                assert(old@.programs[k as int] == op@);
                assert(is_changed_program(old@, new@, i as int) == !same);
            }
        }
        assert(as_ints(start@) =~= indices_where((i + 1) as nat, new_program_pred(old@, new@)));
        assert(as_ints(restart@) =~= indices_where((i + 1) as nat, changed_program_pred(old@, new@)));
        i = i + 1;
    }
    UpdatePlan { stop, start, restart }
}

/// How to restart a program on request.
#[derive(Debug, PartialEq, Eq)]
pub enum RestartPlan {
    /// No program of that name is configured: nothing happens.
    NotConfigured,
    /// The program (at this position) is not running: start it.
    Start(usize),
    /// The program (at this position) is running: stop it, then start it.
    StopThenStart(usize),
}

/// Plans a restart of the program called `name`: the first configured program
/// of that name is stopped first when it runs, then started.
pub fn restart_or_start_program<H>(programs: &Vec<ProgramConfig>, name: &str, processes: &ProcessManager<H>) -> (r: RestartPlan)
    ensures
        ({
            let ps = programs_view(programs@);
            let k = spec_find_program(ps, name@);
            if k >= ps.len() {
                r == RestartPlan::NotConfigured
            } else if processes@.contains_key(name@) {
                r == RestartPlan::StopThenStart(k as usize)
            } else {
                r == RestartPlan::Start(k as usize)
            }
        }),
{
    proof {
        lemma_index_from(program_names(programs_view(programs@)), name@, 0);
    }
    let k = find_program(programs, name);
    if k == programs.len() {
        RestartPlan::NotConfigured
    } else if processes.is_running(name) {
        RestartPlan::StopThenStart(k)
    } else {
        RestartPlan::Start(k)
    }
}

/// The action registered under a menu item id: that of the first entry with
/// the id, or none.
pub fn lookup_action(actions: &Vec<(String, MenuAction)>, id: &str) -> (r: Option<MenuAction>)
    ensures
        ({
            let k = spec_index_from(entry_names(actions@), id@, 0) as int;
            if k < actions@.len() {
                r == Some(actions@[k].1)
            } else {
                r is None
            }
        }),
{
    let ghost names = entry_names(actions@);
    proof {
        lemma_index_from(names, id@, 0);
    }
    let n = actions.len();
    let mut i: usize = 0;
    while i < n
        invariant
            n == actions@.len() == names.len(),
            names == entry_names(actions@),
            i <= n,
            spec_index_from(names, id@, i as nat) == spec_index_from(names, id@, 0),
        decreases n - i,
    {
        assert(names[i as int] == actions@[i as int].0@);
        if str_eq(actions[i].0.as_str(), id) {
            return Some(actions[i].1.clone());
        }
        i = i + 1;
    }
    None
}

/// Flips the autostart flag and hands back the configuration as it was.
pub fn toggle_autostart(config: &mut AppConfig) -> (previous: AppConfig)
    ensures
        previous@ == old(config)@,
        final(config)@ == spec_toggled(old(config)@),
{
    let previous = config.copy();
    config.autostart = !config.autostart;
    previous
}

/// A position is listed exactly when it is below `n` and satisfies `pred`.
pub proof fn lemma_indices_where(n: nat, pred: spec_fn(int) -> bool, i: int)
    ensures
        indices_where(n, pred).contains(i) <==> 0 <= i < n && pred(i),
    decreases n,
{
    if n > 0 {
        lemma_indices_where((n - 1) as nat, pred, i);
        let s = indices_where((n - 1) as nat, pred);
        if pred(n - 1) {
            assert(s.push(n - 1)[s.len() as int] == n - 1);
            if s.contains(i) {
                let j = choose|j: int| 0 <= j < s.len() && s[j] == i;
                assert(s.push(n - 1)[j] == i);
            }
            let t = s.push(n - 1);
            if t.contains(i) && i != n - 1 {
                let j = choose|j: int| 0 <= j < t.len() && t[j] == i;
                assert(j < s.len());
                assert(s[j] == i);
            }
        }
    }
}

/// The names the plan starts: those of the listed positions.
pub open spec fn started_names(new: AppConfigView, starts: Seq<int>) -> Set<Seq<char>> {
    Set::new(|k: Seq<char>| exists|i: int| starts.contains(i) && new.programs[i].name == k)
}

/// Carrying out a plan from a state where exactly the old programs run, with
/// every stop and start succeeding, leaves exactly the new programs running.
pub proof fn lemma_plan_reaches_new_config(old: AppConfigView, new: AppConfigView)
    ensures
        program_names(old.programs).to_set().difference(
            program_names(old.programs).to_set().difference(program_names(new.programs).to_set()),
        ).union(started_names(new, indices_where(new.programs.len(), new_program_pred(old, new))))
            == program_names(new.programs).to_set(),
{
    let on = program_names(old.programs).to_set();
    let nn = program_names(new.programs).to_set();
    let starts = indices_where(new.programs.len(), new_program_pred(old, new));
    let lhs = on.difference(on.difference(nn)).union(started_names(new, starts));
    assert forall|k: Seq<char>| lhs.contains(k) == nn.contains(k) by {
        if nn.contains(k) && !on.contains(k) {
            let i = choose|i: int| 0 <= i < new.programs.len() && program_names(new.programs)[i] == k;
            lemma_indices_where(new.programs.len(), new_program_pred(old, new), i);
            assert(new.programs[i].name == k);
            assert(!program_names(old.programs).contains(k));
            assert(starts.contains(i));
        }
        if started_names(new, starts).contains(k) {
            let i = choose|i: int| starts.contains(i) && new.programs[i].name == k;
            lemma_indices_where(new.programs.len(), new_program_pred(old, new), i);
            assert(program_names(new.programs)[i] == k);
        }
    }
    assert(lhs =~= nn);
}

/// When no position satisfies `pred`, none is listed.
pub proof fn lemma_indices_where_none(n: nat, pred: spec_fn(int) -> bool)
    requires
        forall|i: int| 0 <= i < n ==> !#[trigger] pred(i),
    ensures
        indices_where(n, pred) == Seq::<int>::empty(),
    decreases n,
{
    if n > 0 {
        lemma_indices_where_none((n - 1) as nat, pred);
    }
}

/// Reloading a configuration (with distinct program names) that did not
/// change stops, starts and restarts nothing.
pub proof fn lemma_unchanged_config_plans_nothing(c: AppConfigView)
    requires
        program_names(c.programs).no_duplicates(),
    ensures
        program_names(c.programs).to_set().difference(program_names(c.programs).to_set()) == Set::<
            Seq<char>,
        >::empty(),
        indices_where(c.programs.len(), new_program_pred(c, c)) == Seq::<int>::empty(),
        indices_where(c.programs.len(), changed_program_pred(c, c)) == Seq::<int>::empty(),
{
    let names = program_names(c.programs);
    assert(names.to_set().difference(names.to_set()) =~= Set::<Seq<char>>::empty());
    assert forall|i: int| 0 <= i < c.programs.len() implies !is_new_program(c, c, i) && !is_changed_program(c, c, i) by {
        assert(names[i] == c.programs[i].name);
        lemma_index_from(names, names[i], 0);
        let k = spec_find_program(c.programs, c.programs[i].name) as int;
        assert(k <= i);
        assert(names[k] == names[i]);
        assert(k == i);
    }
    lemma_indices_where_none(c.programs.len(), new_program_pred(c, c));
    lemma_indices_where_none(c.programs.len(), changed_program_pred(c, c));
}

/// The configuration with autostart flipped.
pub open spec fn spec_toggled(c: AppConfigView) -> AppConfigView {
    AppConfigView { autostart: !c.autostart, ..c }
}

/// Toggling autostart twice restores the configuration.
pub proof fn lemma_toggle_twice(c: AppConfigView)
    ensures
        spec_toggled(spec_toggled(c)) == c,
{
}

/// Toggling autostart always flips the flag and leaves every other setting
/// as it was.
pub proof fn lemma_toggle_flips(c: AppConfigView)
    ensures
        spec_toggled(c).autostart == !c.autostart,
        spec_toggled(c).programs == c.programs,
        spec_toggled(c).log_level == c.log_level,
        spec_toggled(c).save_log_file == c.save_log_file,
        spec_toggled(c).working_dir == c.working_dir,
{
}

/// On a reload, a program of the new configuration whose name is already
/// configured is restarted when its entry differs in any field (arguments
/// included) from the first old entry of that name, or when its effective
/// working directory changed, and only then; a program with a new name is
/// started and not restarted.
pub proof fn lemma_changed_program_restarts(old: AppConfigView, new: AppConfigView, i: int)
    requires
        0 <= i < new.programs.len(),
    ensures
        ({
            let np = new.programs[i];
            let k = spec_find_program(old.programs, np.name) as int;
            let restarts = indices_where(new.programs.len(), changed_program_pred(old, new));
            let starts = indices_where(new.programs.len(), new_program_pred(old, new));
            &&& k < old.programs.len() ==> old.programs[k].name == np.name
            &&& k < old.programs.len() && old.programs[k].args != np.args ==> restarts.contains(i)
            &&& k < old.programs.len() && old.programs[k] != np ==> restarts.contains(i)
            &&& k < old.programs.len() && spec_effective_working_dir(old.programs[k], old.working_dir)
                != spec_effective_working_dir(np, new.working_dir) ==> restarts.contains(i)
            &&& k < old.programs.len() && old.programs[k] == np && spec_effective_working_dir(
                old.programs[k],
                old.working_dir,
            ) == spec_effective_working_dir(np, new.working_dir) ==> !restarts.contains(i)
            &&& k >= old.programs.len() ==> starts.contains(i) && !restarts.contains(i)
        }),
{
    let np = new.programs[i];
    let names = program_names(old.programs);
    lemma_index_from(names, np.name, 0);
    let k = spec_find_program(old.programs, np.name) as int;
    lemma_indices_where(new.programs.len(), changed_program_pred(old, new), i);
    lemma_indices_where(new.programs.len(), new_program_pred(old, new), i);
    if k < old.programs.len() {
        assert(names[k] == old.programs[k].name);
    } else {
        if names.contains(np.name) {
            let j = choose|j: int| 0 <= j < names.len() && names[j] == np.name;
        }
    }
}

} // verus!
