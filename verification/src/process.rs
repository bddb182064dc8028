//! Bookkeeping of the supervised processes: which program names are running
//! and the handle of each, and the plan for launching a program.

use vstd::prelude::*;
use crate::config::{
    ProgramConfig, ProgramConfigView, spec_expand_tilde, spec_expand_tilde_arg,
    spec_effective_working_dir, spec_log_path, expand_tilde, expand_tilde_arg, opt_str_view,
};
use crate::paths::PathStyle;
use crate::text::str_eq;
use crate::table::{
    entry_names, entries_map, lemma_entries_map_at, lemma_entries_map_dom, lemma_entries_push,
    lemma_entries_remove,
};

verus! {

/// Why a start or stop request was refused.
#[derive(Debug)]
pub enum ProcessError {
    /// A program of this name is already running.
    AlreadyRunning(String),
    /// No program of this name is running.
    NotRunning(String),
}

/// What to launch for a program: the executable, its working directory,
/// its arguments, and the file that receives its output.
#[derive(Debug)]
pub struct LaunchPlan {
    pub program: String,
    pub working_dir: String,
    pub args: Vec<String>,
    pub log_path: String,
}

/// The arguments of a launch: each configured argument with `~` expanded.
pub open spec fn spec_launch_args(style: PathStyle, p: ProgramConfigView, home: Option<Seq<char>>) -> Seq<Seq<char>> {
    match p.args {
        Some(a) => a.map_values(|x: Seq<char>| spec_expand_tilde_arg(style, x, home)),
        None => Seq::empty(),
    }
}

/// The launch of a program: its path and working directory with `~`
/// expanded, its arguments expanded, and its log file.
pub open spec fn spec_launch_plan_ok(
    style: PathStyle,
    plan: LaunchPlan,
    p: ProgramConfigView,
    global_working_dir: Seq<char>,
    home: Option<Seq<char>>,
    exe_dir: Seq<char>,
) -> bool {
    &&& plan.program@ == spec_expand_tilde(style, p.path, home)
    &&& plan.working_dir@ == spec_expand_tilde(style, spec_effective_working_dir(p, global_working_dir), home)
    &&& plan.args.deep_view() == spec_launch_args(style, p, home)
    &&& plan.log_path@ == spec_log_path(style, p, exe_dir)
}

/// The running programs, by name, each with the handle `H` of its process.
pub struct ProcessManager<H> {
    entries: Vec<(String, H)>,
}

impl<H> View for ProcessManager<H> {
    type V = Map<Seq<char>, H>;

    closed spec fn view(&self) -> Map<Seq<char>, H> {
        entries_map(self.entries@)
    }
}

impl<H> ProcessManager<H> {
    #[verifier::type_invariant]
    spec fn names_distinct(self) -> bool {
        entry_names(self.entries@).no_duplicates()
    }

    /// No program is running.
    pub fn new() -> (r: Self)
        ensures
            r@ == Map::<Seq<char>, H>::empty(),
    {
        let r = ProcessManager { entries: Vec::new() };
        assert(entries_map(r.entries@) =~= Map::<Seq<char>, H>::empty());
        r
    }

    fn find(&self, name: &str) -> (r: Option<usize>)
        ensures
            match r {
                Some(i) => i < self.entries@.len() && self.entries@[i as int].0@ == name@,
                None => !self@.contains_key(name@),
            },
    {
        let n = self.entries.len();
        let mut i: usize = 0;
        while i < n
            invariant
                n == self.entries@.len(),
                i <= n,
                forall|j: int| 0 <= j < i ==> self.entries@[j].0@ != name@,
            decreases n - i,
        {
            if str_eq(self.entries[i].0.as_str(), name) {
                return Some(i);
            }
            i = i + 1;
        }
        proof {
            lemma_entries_map_dom(self.entries@, name@);
        }
        None
    }

    /// Whether a program of this name is running.
    pub fn is_running(&self, name: &str) -> (r: bool)
        ensures
            r == self@.contains_key(name@),
    {
        proof {
            use_type_invariant(self);
        }
        match self.find(name) {
            Some(i) => {
                proof {
                    lemma_entries_map_at(self.entries@, i as int);
                }
                true
            },
            None => false,
        }
    }

    /// The names of the running programs, each once.
    pub fn running_processes(&self) -> (r: Vec<String>)
        ensures
            r.deep_view().no_duplicates(),
            r.deep_view().to_set() == self@.dom(),
    {
        proof {
            use_type_invariant(self);
        }
        let n = self.entries.len();
        let mut r: Vec<String> = Vec::new();
        let mut i: usize = 0;
        while i < n
            invariant
                n == self.entries@.len(),
                i <= n,
                r.len() == i,
                forall|j: int| 0 <= j < i ==> r@[j]@ == self.entries@[j].0@,
            decreases n - i,
        {
            r.push(self.entries[i].0.clone());
            i = i + 1;
        }
        assert(r.deep_view() =~= entry_names(self.entries@));
        assert forall|k: Seq<char>| r.deep_view().to_set().contains(k) == self@.dom().contains(k) by {
            lemma_entries_map_dom(self.entries@, k);
            if exists|j: int| 0 <= j < self.entries@.len() && self.entries@[j].0@ == k {
                let j = choose|j: int| 0 <= j < self.entries@.len() && self.entries@[j].0@ == k;
                assert(r.deep_view()[j] == k);
            }
        }
        assert(r.deep_view().to_set() =~= self@.dom());
        r
    }

    /// Decides whether `config` may be started and, if so, what to launch:
    /// refused when a program of that name is running; otherwise the launch
    /// plan. The caller launches the plan and records the process with
    /// [`ProcessManager::register`].
    pub fn start(
        &self,
        style: PathStyle,
        config: &ProgramConfig,
        global_working_dir: &str,
        home: Option<&str>,
        exe_dir: &str,
    ) -> (r: Result<LaunchPlan, ProcessError>)
        ensures
            match r {
                Ok(plan) => !self@.contains_key(config@.name) && spec_launch_plan_ok(
                    style,
                    plan,
                    config@,
                    global_working_dir@,
                    opt_str_view(home),
                    exe_dir@,
                ),
                Err(e) => self@.contains_key(config@.name) && (e matches ProcessError::AlreadyRunning(n) && n@ == config@.name),
            },
    {
        if self.is_running(config.name.as_str()) {
            return Err(ProcessError::AlreadyRunning(config.name.clone()));
        }
        let program = expand_tilde(style, config.path.as_str(), home);
        let working_dir = expand_tilde(style, config.effective_working_dir(global_working_dir), home);
        let mut args: Vec<String> = Vec::new();
        match &config.args {
            Some(a) => {
                let n = a.len();
                let mut i: usize = 0;
                while i < n
                    invariant
                        n == a.len(),
                        i <= n,
                        args.len() == i,
                        forall|j: int|
                            0 <= j < i ==> args@[j]@ == spec_expand_tilde_arg(
                                style,
                                a@[j]@,
                                opt_str_view(home),
                            ),
                    decreases n - i,
                {
                    args.push(expand_tilde_arg(style, a[i].as_str(), home));
                    i = i + 1;
                }
                assert(args.deep_view() =~= spec_launch_args(style, config@, opt_str_view(home)));
            },
            None => {
                assert(args.deep_view() =~= spec_launch_args(style, config@, opt_str_view(home)));
            },
        }
        let log_path = config.log_path(style, exe_dir);
        Ok(LaunchPlan { program, working_dir, args, log_path })
    }

    /// Records a launched process under `name`; refused, handing the handle
    /// back, when that name is already running.
    pub fn register(&mut self, name: String, handle: H) -> (r: Result<(), H>)
        ensures
            match r {
                Ok(()) => !old(self)@.contains_key(name@) && final(self)@ == old(self)@.insert(
                    name@,
                    handle,
                ),
                Err(h) => old(self)@.contains_key(name@) && h == handle && final(self)@ == old(
                    self,
                )@,
            },
    {
        proof {
            use_type_invariant(&*self);
        }
        if self.find(name.as_str()).is_some() {
            proof {
                lemma_entries_map_dom(self.entries@, name@);
            }
            return Err(handle);
        }
        proof {
            lemma_entries_map_dom(self.entries@, name@);
            if entry_names(self.entries@).contains(name@) {
                let j = entry_names(self.entries@).index_of(name@);
                assert(self.entries@[j].0@ == name@);
            }
            lemma_entries_push(self.entries@, (name, handle));
        }
        let mut entries: Vec<(String, H)> = Vec::new();
        std::mem::swap(&mut entries, &mut self.entries);
        entries.push((name, handle));
        self.entries = entries;
        Ok(())
    }

    /// Takes the process of `name` out of the table, for the caller to stop;
    /// refused when no program of that name is running.
    pub fn stop(&mut self, name: &str) -> (r: Result<H, ProcessError>)
        ensures
            match r {
                Ok(h) => old(self)@.contains_key(name@) && h == old(self)@[name@] && final(self)@
                    == old(self)@.remove(name@),
                Err(e) => !old(self)@.contains_key(name@) && (e matches ProcessError::NotRunning(n) && n@ == name@) && final(self)@ == old(self)@,
            },
    {
        proof {
            use_type_invariant(&*self);
        }
        match self.find(name) {
            Some(i) => {
                proof {
                    lemma_entries_map_at(self.entries@, i as int);
                    lemma_entries_remove(self.entries@, i as int);
                }
                let mut entries: Vec<(String, H)> = Vec::new();
                std::mem::swap(&mut entries, &mut self.entries);
                let (_, h) = entries.remove(i);
                self.entries = entries;
                Ok(h)
            },
            None => Err(ProcessError::NotRunning(name.to_string())),
        }
    }

    /// Takes every process out of the table, for the caller to stop.
    pub fn stop_all(&mut self) -> (r: Vec<(String, H)>)
        ensures
            entry_names(r@).no_duplicates(),
            entries_map(r@) == old(self)@,
            final(self)@ == Map::<Seq<char>, H>::empty(),
    {
        proof {
            use_type_invariant(&*self);
        }
        let mut all: Vec<(String, H)> = Vec::new();
        std::mem::swap(&mut all, &mut self.entries);
        assert(entries_map(self.entries@) =~= Map::<Seq<char>, H>::empty());
        all
    }
}

/// Recording a process under a name that is not running and then stopping
/// that name hands back the same handle and leaves the table as it was.
pub proof fn lemma_register_then_stop<H>(m: Map<Seq<char>, H>, name: Seq<char>, h: H)
    requires
        !m.contains_key(name),
    ensures
        m.insert(name, h).contains_key(name),
        m.insert(name, h)[name] == h,
        m.insert(name, h).remove(name) == m,
{
    assert(m.insert(name, h).remove(name) =~= m);
}

/// Stopping a running program and recording a new process under its name
/// leaves every other program untouched.
pub proof fn lemma_restart_keeps_others<H>(m: Map<Seq<char>, H>, name: Seq<char>, h: H, other: Seq<char>)
    requires
        m.contains_key(name),
        other != name,
    ensures
        m.remove(name).insert(name, h).contains_key(other) == m.contains_key(other),
        m.contains_key(other) ==> m.remove(name).insert(name, h)[other] == m[other],
{
}

} // verus!
