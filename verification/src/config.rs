//! Configuration model: programs to supervise, global settings, and the path
//! rules (`~` expansion, log files, configuration file location).

use vstd::prelude::*;
use vstd::string::*;
use crate::paths::{
    PathStyle, spec_push_path, push_path, chars_of, main_sep, main_sep_str, prefix_len,
    lemma_prefix_len_bound, lemma_push_path_ends_with, is_sep, has_drive,
};
use crate::text::{opt_string_eq, opt_strings_eq, copy_opt_string, copy_opt_strings};

verus! {

/// The abstract value of one program entry.
pub struct ProgramConfigView {
    pub name: Seq<char>,
    pub path: Seq<char>,
    pub args: Option<Seq<Seq<char>>>,
    pub service_url: Option<Seq<char>>,
    pub watch_paths: Option<Seq<Seq<char>>>,
    pub working_dir: Option<Seq<char>>,
}

/// One program that the tray supervises.
#[derive(Debug)]
pub struct ProgramConfig {
    pub name: String,
    pub path: String,
    pub args: Option<Vec<String>>,
    pub service_url: Option<String>,
    pub watch_paths: Option<Vec<String>>,
    pub working_dir: Option<String>,
}

impl View for ProgramConfig {
    type V = ProgramConfigView;

    open spec fn view(&self) -> ProgramConfigView {
        ProgramConfigView {
            name: self.name@,
            path: self.path@,
            args: self.args.deep_view(),
            service_url: self.service_url.deep_view(),
            watch_paths: self.watch_paths.deep_view(),
            working_dir: self.working_dir.deep_view(),
        }
    }
}

/// The abstract value of the application configuration.
pub struct AppConfigView {
    pub programs: Seq<ProgramConfigView>,
    pub autostart: bool,
    pub log_level: Option<Seq<char>>,
    pub save_log_file: bool,
    pub working_dir: Seq<char>,
}

/// The application configuration.
#[derive(Debug)]
pub struct AppConfig {
    pub programs: Vec<ProgramConfig>,
    pub autostart: bool,
    pub log_level: Option<String>,
    pub save_log_file: bool,
    pub working_dir: String,
}

pub open spec fn programs_view(ps: Seq<ProgramConfig>) -> Seq<ProgramConfigView> {
    ps.map_values(|p: ProgramConfig| p@)
}

impl View for AppConfig {
    type V = AppConfigView;

    open spec fn view(&self) -> AppConfigView {
        AppConfigView {
            programs: programs_view(self.programs@),
            autostart: self.autostart,
            log_level: self.log_level.deep_view(),
            save_log_file: self.save_log_file,
            working_dir: self.working_dir@,
        }
    }
}

/// `~`, the working directory used when none is configured.
pub open spec fn tilde() -> Seq<char> {
    seq!['~']
}

/// The default global working directory: the home directory, `~`.
pub fn default_working_dir() -> (r: String)
    ensures
        r@ == tilde(),
{
    proof {
        reveal_strlit("~");
    }
    "~".to_string()
}

/// The default configuration: no programs, autostart off, no log level,
/// no log file, working directory `~`.
pub open spec fn default_app_config() -> AppConfigView {
    AppConfigView {
        programs: Seq::empty(),
        autostart: false,
        log_level: None,
        save_log_file: false,
        working_dir: tilde(),
    }
}

impl Default for AppConfig {
    fn default() -> (r: Self)
        ensures
            r@ == default_app_config(),
    {
        let r = AppConfig {
            programs: Vec::new(),
            autostart: false,
            log_level: None,
            save_log_file: false,
            working_dir: default_working_dir(),
        };
        assert(r@.programs =~= Seq::empty());
        r
    }
}

/// The working directory of a program: its own when set, else the global one.
pub open spec fn spec_effective_working_dir(p: ProgramConfigView, global: Seq<char>) -> Seq<char> {
    match p.working_dir {
        Some(w) => w,
        None => global,
    }
}

impl ProgramConfig {
    /// The program's own working directory when it has one, else `global_working_dir`.
    pub fn effective_working_dir<'a>(&'a self, global_working_dir: &'a str) -> (r: &'a str)
        ensures
            r@ == spec_effective_working_dir(self@, global_working_dir@),
    {
        match &self.working_dir {
            Some(w) => w.as_str(),
            None => global_working_dir,
        }
    }
}

impl ProgramConfig {
    /// A field-by-field copy.
    pub fn copy(&self) -> (r: Self)
        ensures
            r@ == self@,
    {
        ProgramConfig {
            name: self.name.clone(),
            path: self.path.clone(),
            args: copy_opt_strings(&self.args),
            service_url: copy_opt_string(&self.service_url),
            watch_paths: copy_opt_strings(&self.watch_paths),
            working_dir: copy_opt_string(&self.working_dir),
        }
    }

    /// Whether the two entries agree on every field.
    pub fn same_as(&self, other: &ProgramConfig) -> (r: bool)
        ensures
            r == (self@ == other@),
    {
        let name_eq: bool = self.name == other.name;
        let path_eq: bool = self.path == other.path;
        name_eq && path_eq && opt_strings_eq(&self.args, &other.args) && opt_string_eq(
            &self.service_url,
            &other.service_url,
        ) && opt_strings_eq(&self.watch_paths, &other.watch_paths) && opt_string_eq(
            &self.working_dir,
            &other.working_dir,
        )
    }
}

impl Clone for ProgramConfig {
    fn clone(&self) -> (r: Self)
        ensures
            r@ == self@,
    {
        self.copy()
    }
}

impl PartialEq for ProgramConfig {
    fn eq(&self, other: &Self) -> (r: bool) {
        self.same_as(other)
    }
}

impl vstd::std_specs::cmp::PartialEqSpecImpl for ProgramConfig {
    open spec fn obeys_eq_spec() -> bool {
        true
    }

    open spec fn eq_spec(&self, other: &ProgramConfig) -> bool {
        self@ == other@
    }
}

impl AppConfig {
    /// A field-by-field copy.
    pub fn copy(&self) -> (r: Self)
        ensures
            r@ == self@,
    {
        let mut programs: Vec<ProgramConfig> = Vec::new();
        let n = self.programs.len();
        let mut i: usize = 0;
        while i < n
            invariant
                n == self.programs.len(),
                i <= n,
                programs.len() == i,
                forall|j: int| 0 <= j < i ==> programs@[j]@ == self.programs@[j]@,
            decreases n - i,
        {
            programs.push(self.programs[i].copy());
            i = i + 1;
        }
        let r = AppConfig {
            programs,
            autostart: self.autostart,
            log_level: copy_opt_string(&self.log_level),
            save_log_file: self.save_log_file,
            working_dir: self.working_dir.clone(),
        };
        assert(r@.programs =~= self@.programs);
        r
    }
}

impl Clone for AppConfig {
    fn clone(&self) -> (r: Self)
        ensures
            r@ == self@,
    {
        self.copy()
    }
}

/// Separators accepted after a leading `~`: `/` and `\`.
pub open spec fn is_tilde_sep(c: char) -> bool {
    c == '/' || c == '\\'
}

/// Pushes one component. Empty components change nothing, and so does a
/// `.` component unless it is the leading one (`keep_dot`).
pub open spec fn spec_push_piece(style: PathStyle, base: Seq<char>, piece: Seq<char>, keep_dot: bool) -> Seq<char> {
    if piece.len() == 0 || (piece == seq!['.'] && !keep_dot) {
        base
    } else {
        spec_push_path(style, base, piece)
    }
}

/// Pushes, one after the other, the components of `piece + s`, where the
/// components of `s` are separated by `/` or `\`; `leading` says that
/// `piece` is the first component of the text.
pub open spec fn spec_push_pieces(style: PathStyle, base: Seq<char>, piece: Seq<char>, s: Seq<char>, leading: bool) -> Seq<char>
    decreases s.len(),
{
    if s.len() == 0 {
        spec_push_piece(style, base, piece, leading)
    } else if is_tilde_sep(s[0]) {
        spec_push_pieces(style, spec_push_piece(style, base, piece, leading), Seq::empty(), s.drop_first(), false)
    } else {
        spec_push_pieces(style, base, piece.push(s[0]), s.drop_first(), leading)
    }
}

/// `~` alone, or `~` followed by `/` or `\`.
pub open spec fn is_tilde_form(s: Seq<char>) -> bool {
    s == tilde() || (s.len() >= 2 && s[0] == '~' && is_tilde_sep(s[1]))
}

pub open spec fn opt_str_view(o: Option<&str>) -> Option<Seq<char>> {
    match o {
        Some(s) => Some(s@),
        None => None,
    }
}

/// The home directory to expand `~` to: the given one, else `.`.
pub open spec fn home_or_current(home: Option<Seq<char>>) -> Seq<char> {
    match home {
        Some(h) => h,
        None => current_dir(),
    }
}

/// `~` becomes the home directory (`.` when there is none); `~/rest` and
/// `~\rest` become the home directory with the components of `rest` pushed
/// onto it (a `rest` that itself starts at a separator starts over at `/`;
/// empty components and `.` components other than a leading one are dropped);
/// anything else is kept.
pub open spec fn spec_expand_tilde(style: PathStyle, path: Seq<char>, home: Option<Seq<char>>) -> Seq<char> {
    let h = home_or_current(home);
    if path == tilde() {
        h
    } else if is_tilde_form(path) {
        let rest = path.skip(2);
        let base = if rest.len() > 0 && is_tilde_sep(rest[0]) {
            spec_push_path(style, h, seq![main_sep(style)])
        } else {
            h
        };
        spec_push_pieces(style, base, Seq::empty(), rest, true)
    } else {
        path
    }
}

/// Position of the first `c` in `s` at or after `i`, or `s.len()` if none.
pub open spec fn spec_find_from(s: Seq<char>, c: char, i: nat) -> nat
    decreases s.len() - i,
{
    if i >= s.len() {
        s.len()
    } else if s[i as int] == c {
        i
    } else {
        spec_find_from(s, c, i + 1)
    }
}

/// A command argument with `~` expanded: the whole argument when it is a tilde
/// path, else the value of a `flag=value` argument (split at the first `=`)
/// when that value is a tilde path; otherwise the argument unchanged.
pub open spec fn spec_expand_tilde_arg(style: PathStyle, arg: Seq<char>, home: Option<Seq<char>>) -> Seq<char> {
    let k = spec_find_from(arg, '=', 0) as int;
    if is_tilde_form(arg) {
        spec_expand_tilde(style, arg, home)
    } else if k < arg.len() && is_tilde_form(arg.skip(k + 1)) {
        arg.take(k + 1) + spec_expand_tilde(style, arg.skip(k + 1), home)
    } else {
        arg
    }
}

proof fn lemma_find_from_bounds(s: Seq<char>, c: char, i: nat)
    requires
        i <= s.len(),
    ensures
        i <= spec_find_from(s, c, i) <= s.len(),
        spec_find_from(s, c, i) < s.len() ==> s[spec_find_from(s, c, i) as int] == c,
        forall|j: int| i <= j < spec_find_from(s, c, i) ==> s[j] != c,
    decreases s.len() - i,
{
    if i < s.len() && s[i as int] != c {
        lemma_find_from_bounds(s, c, i + 1);
    }
}

fn is_tilde_sep_char(c: char) -> (r: bool)
    ensures
        r == is_tilde_sep(c),
{
    c == '/' || c == '\\'
}

fn push_piece(style: PathStyle, base: String, piece: &str, keep_dot: bool) -> (r: String)
    ensures
        r@ == spec_push_piece(style, base@, piece@, keep_dot),
{
    let n = piece.unicode_len();
    if n == 0 {
        return base;
    }
    if n == 1 && piece.get_char(0) == '.' && !keep_dot {
        assert(piece@ =~= seq!['.']);
        return base;
    }
    assert(!(piece@ == seq!['.'] && !keep_dot)) by {
        if piece@ == seq!['.'] && !keep_dot {
            assert(piece@[0] == '.');
        }
    }
    push_path(style, base.as_str(), piece)
}

/// Pushes the components of `rest` onto `base`.
fn push_components(style: PathStyle, base: String, rest: &str) -> (r: String)
    ensures
        r@ == spec_push_pieces(style, base@, Seq::empty(), rest@, true),
{
    let cs = chars_of(rest);
    let n = cs.len();
    let mut acc = base;
    let mut start: usize = 0;
    let mut i: usize = 0;
    assert(rest@.subrange(0, 0) =~= Seq::<char>::empty());
    assert(rest@.subrange(0, n as int) =~= rest@);
    while i < n
        invariant
            n == cs@.len(),
            cs@ == rest@,
            start <= i <= n,
            spec_push_pieces(
                style,
                acc@,
                rest@.subrange(start as int, i as int),
                rest@.subrange(i as int, n as int),
                start == 0,
            ) == spec_push_pieces(style, base@, Seq::empty(), rest@, true),
        decreases n - i,
    {
        let ghost tail = rest@.subrange(i as int, n as int);
        assert(tail.drop_first() =~= rest@.subrange(i + 1, n as int));
        assert(tail[0] == cs@[i as int]);
        if is_tilde_sep_char(cs[i]) {
            let piece = rest.substring_char(start, i);
            acc = push_piece(style, acc, piece, start == 0);
            start = i + 1;
            assert(rest@.subrange(start as int, (i + 1) as int) =~= Seq::<char>::empty());
        } else {
            assert(rest@.subrange(start as int, i as int).push(cs@[i as int]) =~= rest@.subrange(
                start as int,
                (i + 1) as int,
            ));
        }
        i = i + 1;
    }
    assert(rest@.subrange(n as int, n as int) =~= Seq::<char>::empty());
    let piece = rest.substring_char(start, n);
    push_piece(style, acc, piece, start == 0)
}

/// Expands `~` or `~/...` (and `~\...`) to the given home directory, or to
/// `.` when there is none.
pub fn expand_tilde(style: PathStyle, path_str: &str, home: Option<&str>) -> (r: String)
    ensures
        r@ == spec_expand_tilde(style, path_str@, opt_str_view(home)),
{
    proof {
        reveal_strlit(".");
        assert("."@ =~= current_dir());
    }
    let h: &str = match home {
        Some(h) => h,
        None => ".",
    };
    let n = path_str.unicode_len();
    if n == 1 && path_str.get_char(0) == '~' {
        assert(path_str@ =~= tilde());
        return h.to_string();
    }
    assert(path_str@ != tilde()) by {
        if path_str@ == tilde() {
            assert(path_str@[0] == '~');
        }
    }
    if n >= 2 && path_str.get_char(0) == '~' && is_tilde_sep_char(path_str.get_char(1)) {
        let rest = path_str.substring_char(2, n);
        assert(rest@ =~= path_str@.skip(2));
        let base = if n > 2 && is_tilde_sep_char(path_str.get_char(2)) {
            push_path(style, h, main_sep_str(style))
        } else {
            h.to_string()
        };
        return push_components(style, base, rest);
    }
    path_str.to_string()
}

fn is_tilde_form_str(s: &str) -> (r: bool)
    ensures
        r == is_tilde_form(s@),
{
    let n = s.unicode_len();
    if n == 1 && s.get_char(0) == '~' {
        assert(s@ =~= tilde());
        return true;
    }
    assert(s@ != tilde()) by {
        if s@ == tilde() {
            assert(s@[0] == '~');
        }
    }
    n >= 2 && s.get_char(0) == '~' && is_tilde_sep_char(s.get_char(1))
}

/// Expands `~` within command arguments, supporting standalone paths (`~/...`)
/// and option assignments (`--option=~/...`).
pub fn expand_tilde_arg(style: PathStyle, arg: &str, home: Option<&str>) -> (r: String)
    ensures
        r@ == spec_expand_tilde_arg(style, arg@, opt_str_view(home)),
{
    proof {
        lemma_find_from_bounds(arg@, '=', 0);
    }
    if is_tilde_form_str(arg) {
        return expand_tilde(style, arg, home);
    }
    let n = arg.unicode_len();
    let mut k: usize = 0;
    while k < n && arg.get_char(k) != '='
        invariant
            n == arg@.len(),
            k <= n,
            forall|j: int| 0 <= j < k ==> arg@[j] != '=',
            spec_find_from(arg@, '=', 0) == spec_find_from(arg@, '=', k as nat),
        decreases n - k,
    {
        k = k + 1;
    }
    if k < n {
        let val = arg.substring_char(k + 1, n);
        assert(val@ =~= arg@.skip(k + 1));
        if is_tilde_form_str(val) {
            let flag = arg.substring_char(0, k + 1);
            assert(flag@ =~= arg@.take(k + 1));
            let expanded = expand_tilde(style, val, home);
            let mut r = flag.to_string();
            r.append(expanded.as_str());
            return r;
        }
    }
    arg.to_string()
}

/// `logs`, the directory (next to the executable) holding program logs.
pub open spec fn logs_dir_name() -> Seq<char> {
    seq!['l', 'o', 'g', 's']
}

/// `.log`, the extension of program log files.
pub open spec fn log_extension() -> Seq<char> {
    seq!['.', 'l', 'o', 'g']
}

/// `<exe_dir>/logs/<name>.log`.
pub open spec fn spec_log_path(style: PathStyle, p: ProgramConfigView, exe_dir: Seq<char>) -> Seq<char> {
    spec_push_path(style, spec_push_path(style, exe_dir, logs_dir_name()), p.name + log_extension())
}

impl ProgramConfig {
    /// The file that receives the program's output: `<exe_dir>/logs/<name>.log`.
    pub fn log_path(&self, style: PathStyle, exe_dir: &str) -> (r: String)
        ensures
            r@ == spec_log_path(style, self@, exe_dir@),
    {
        proof {
            reveal_strlit("logs");
            reveal_strlit(".log");
            assert("logs"@ =~= logs_dir_name());
            assert(".log"@ =~= log_extension());
        }
        let dir = push_path(style, exe_dir, "logs");
        let mut file = self.name.clone();
        file.append(".log");
        push_path(style, dir.as_str(), file.as_str())
    }
}

/// `config.json`, the configuration file kept next to the executable.
pub open spec fn portable_config_file_name() -> Seq<char> {
    seq!['c', 'o', 'n', 'f', 'i', 'g', '.', 'j', 's', 'o', 'n']
}

/// `.config`, the per-user configuration directory under the home directory.
pub open spec fn user_config_dir_name() -> Seq<char> {
    seq!['.', 'c', 'o', 'n', 'f', 'i', 'g']
}

/// `servicetray.json`, the per-user configuration file name.
pub open spec fn config_file_name() -> Seq<char> {
    seq!['s', 'e', 'r', 'v', 'i', 'c', 'e', 't', 'r', 'a', 'y', '.', 'j', 's', 'o', 'n']
}

/// `.`, the directory used when there is no home directory.
pub open spec fn current_dir() -> Seq<char> {
    seq!['.']
}

/// The portable configuration file: `<exe_dir>/config.json`.
pub open spec fn spec_portable_config_path(style: PathStyle, exe_dir: Seq<char>) -> Seq<char> {
    spec_push_path(style, exe_dir, portable_config_file_name())
}

/// The configuration file in use: the portable one when it exists, else
/// `<home>/.config/servicetray.json` (with `.` standing for a missing home).
pub open spec fn spec_config_path(style: PathStyle, exe_dir: Seq<char>, home: Option<Seq<char>>, portable_exists: bool) -> Seq<char> {
    if portable_exists {
        spec_portable_config_path(style, exe_dir)
    } else {
        let h = match home {
            Some(h) => h,
            None => current_dir(),
        };
        spec_push_path(style, spec_push_path(style, h, user_config_dir_name()), config_file_name())
    }
}

impl AppConfig {
    /// The portable configuration file next to the executable.
    pub fn portable_config_path(style: PathStyle, exe_dir: &str) -> (r: String)
        ensures
            r@ == spec_portable_config_path(style, exe_dir@),
    {
        proof {
            reveal_strlit("config.json");
            assert("config.json"@ =~= portable_config_file_name());
        }
        push_path(style, exe_dir, "config.json")
    }

    /// Where the configuration lives: the portable file when
    /// `portable_exists`, else `<home>/.config/servicetray.json`.
    pub fn get_config_path(style: PathStyle, exe_dir: &str, home: Option<&str>, portable_exists: bool) -> (r: String)
        ensures
            r@ == spec_config_path(style, exe_dir@, opt_str_view(home), portable_exists),
    {
        if portable_exists {
            return Self::portable_config_path(style, exe_dir);
        }
        proof {
            reveal_strlit(".");
            reveal_strlit(".config");
            reveal_strlit("servicetray.json");
            assert("."@ =~= current_dir());
            assert(".config"@ =~= user_config_dir_name());
            assert("servicetray.json"@ =~= config_file_name());
        }
        let h = match home {
            Some(h) => h,
            None => ".",
        };
        let dir = push_path(style, h, ".config");
        push_path(style, dir.as_str(), "servicetray.json")
    }
}

impl AppConfig {
    /// The configuration read from an existing file: the parsed one, or the
    /// default configuration when the file could not be parsed.
    pub fn loaded_or_default(parsed: Option<AppConfig>) -> (r: AppConfig)
        ensures
            r@ == match parsed {
                Some(c) => c@,
                None => default_app_config(),
            },
    {
        match parsed {
            Some(c) => c,
            None => AppConfig::default(),
        }
    }
}

/// A program's own working directory takes priority over the global one,
/// which applies exactly to programs without their own.
pub proof fn lemma_working_dir_priority(p: ProgramConfigView, global: Seq<char>)
    ensures
        p.working_dir is Some ==> spec_effective_working_dir(p, global) == p.working_dir->0,
        p.working_dir is None ==> spec_effective_working_dir(p, global) == global,
{
}

/// Text without `~` passes through expansion unchanged, as a path and as a
/// command argument.
pub proof fn lemma_expand_plain_unchanged(style: PathStyle, s: Seq<char>, home: Option<Seq<char>>)
    requires
        !s.contains('~'),
    ensures
        spec_expand_tilde(style, s, home) == s,
        spec_expand_tilde_arg(style, s, home) == s,
{
    if s.len() > 0 {
        assert(s[0] != '~');
    }
    assert(s != tilde()) by {
        if s == tilde() {
            assert(s[0] == '~');
        }
    }
    let k = spec_find_from(s, '=', 0) as int;
    lemma_find_from_bounds(s, '=', 0);
    if k < s.len() {
        let v = s.skip(k + 1);
        if v.len() > 0 {
            assert(v[0] == s[k + 1]);
        }
        assert(v != tilde()) by {
            if v == tilde() {
                assert(v[0] == '~');
            }
        }
    }
}

/// Without a home directory, `~` stands for the current directory `.`.
pub proof fn lemma_expand_without_home(style: PathStyle, s: Seq<char>)
    ensures
        spec_expand_tilde(style, s, None) == spec_expand_tilde(style, s, Some(current_dir())),
        spec_expand_tilde_arg(style, s, None) == spec_expand_tilde_arg(style, s, Some(current_dir())),
{
}

/// `c` occurs at most once in `s`.
pub open spec fn at_most_once(s: Seq<char>, c: char) -> bool {
    forall|i: int, j: int| 0 <= i < j < s.len() ==> !(#[trigger] s[i] == c && #[trigger] s[j] == c)
}

proof fn lemma_concat_lacks(x: Seq<char>, y: Seq<char>, c: char)
    requires
        !x.contains(c),
        !y.contains(c),
    ensures
        !(x + y).contains(c),
{
    if (x + y).contains(c) {
        let i = choose|i: int| 0 <= i < (x + y).len() && (x + y)[i] == c;
        if i < x.len() {
            assert(x[i] == c);
        } else {
            assert(y[i - x.len()] == c);
        }
    }
}

proof fn lemma_push_path_lacks(style: PathStyle, b: Seq<char>, p: Seq<char>, c: char)
    requires
        !b.contains(c),
        !p.contains(c),
        c != main_sep(style),
    ensures
        !spec_push_path(style, b, p).contains(c),
{
    let sep = seq![main_sep(style)];
    assert(!sep.contains(c)) by {
        if sep.contains(c) {
            let i = choose|i: int| 0 <= i < 1 && sep[i] == c;
        }
    }
    let k = prefix_len(style, b) as int;
    lemma_prefix_len_bound(style, b);
    assert(!b.take(k).contains(c)) by {
        if b.take(k).contains(c) {
            let i = choose|i: int| 0 <= i < b.take(k).len() && b.take(k)[i] == c;
            assert(b[i] == c);
        }
    }
    lemma_concat_lacks(b.take(k), p, c);
    lemma_concat_lacks(b, p, c);
    lemma_concat_lacks(b, sep, c);
    lemma_concat_lacks(b + sep, p, c);
}

proof fn lemma_push_pieces_lacks(style: PathStyle, b: Seq<char>, piece: Seq<char>, s: Seq<char>, leading: bool, c: char)
    requires
        !b.contains(c),
        !piece.contains(c),
        !s.contains(c),
        c != main_sep(style),
    ensures
        !spec_push_pieces(style, b, piece, s, leading).contains(c),
    decreases s.len(),
{
    lemma_push_path_lacks(style, b, piece, c);
    let b2 = spec_push_piece(style, b, piece, leading);
    if s.len() > 0 {
        assert(!s.drop_first().contains(c)) by {
            if s.drop_first().contains(c) {
                let i = choose|i: int| 0 <= i < s.drop_first().len() && s.drop_first()[i] == c;
                assert(s[i + 1] == c);
            }
        }
        if is_tilde_sep(s[0]) {
            assert(!Seq::<char>::empty().contains(c));
            lemma_push_pieces_lacks(style, b2, Seq::empty(), s.drop_first(), false, c);
        } else {
            assert(s[0] != c) by {
                assert(s.contains(s[0]));
            }
            assert(!piece.push(s[0]).contains(c)) by {
                if piece.push(s[0]).contains(c) {
                    let i = choose|i: int| 0 <= i < piece.push(s[0]).len() && piece.push(s[0])[i] == c;
                    if i < piece.len() {
                        assert(piece[i] == c);
                    }
                }
            }
            lemma_push_pieces_lacks(style, b, piece.push(s[0]), s.drop_first(), leading, c);
        }
    }
}

/// A tilde path with no other `~` expands to text without `~`, when the home
/// directory has none.
proof fn lemma_expansion_lacks_tilde(style: PathStyle, v: Seq<char>, home: Option<Seq<char>>)
    requires
        is_tilde_form(v),
        at_most_once(v, '~'),
        !home_or_current(home).contains('~'),
    ensures
        !spec_expand_tilde(style, v, home).contains('~'),
{
    let h = home_or_current(home);
    if v != tilde() {
        let rest = v.skip(2);
        assert(v[0] == '~');
        assert(!rest.contains('~')) by {
            if rest.contains('~') {
                let i = choose|i: int| 0 <= i < rest.len() && rest[i] == '~';
                assert(v[i + 2] == '~');
                assert(!(v[0] == '~' && v[i + 2] == '~'));
            }
        }
        let sep = seq![main_sep(style)];
        assert(!sep.contains('~')) by {
            if sep.contains('~') {
                let i = choose|i: int| 0 <= i < 1 && sep[i] == '~';
            }
        }
        lemma_push_path_lacks(style, h, sep, '~');
        let base = if rest.len() > 0 && is_tilde_sep(rest[0]) {
            spec_push_path(style, h, sep)
        } else {
            h
        };
        assert(!Seq::<char>::empty().contains('~'));
        lemma_push_pieces_lacks(style, base, Seq::empty(), rest, true, '~');
    }
}

/// Expanding an argument a second time changes nothing, when the argument
/// holds at most one `~` and the home directory (or `.` without one) none.
pub proof fn lemma_expand_tilde_arg_idempotent(style: PathStyle, a: Seq<char>, home: Option<Seq<char>>)
    requires
        at_most_once(a, '~'),
        !home_or_current(home).contains('~'),
    ensures
        spec_expand_tilde_arg(style, spec_expand_tilde_arg(style, a, home), home) == spec_expand_tilde_arg(style, a, home),
{
    let k = spec_find_from(a, '=', 0) as int;
    lemma_find_from_bounds(a, '=', 0);
    if is_tilde_form(a) {
        lemma_expansion_lacks_tilde(style, a, home);
        lemma_expand_plain_unchanged(style, spec_expand_tilde(style, a, home), home);
    } else if k < a.len() && is_tilde_form(a.skip(k + 1)) {
        let v = a.skip(k + 1);
        let f = a.take(k + 1);
        assert(v[0] == '~');
        assert(a[k + 1] == '~');
        assert(at_most_once(v, '~')) by {
            assert forall|i: int, j: int| 0 <= i < j < v.len() implies !(#[trigger] v[i] == '~' && #[trigger] v[j] == '~') by {
                assert(v[i] == a[i + k + 1] && v[j] == a[j + k + 1]);
                assert(!(a[i + k + 1] == '~' && a[j + k + 1] == '~'));
            }
        }
        assert(!f.contains('~')) by {
            if f.contains('~') {
                let i = choose|i: int| 0 <= i < f.len() && f[i] == '~';
                assert(a[i] == '~');
                assert(!(a[i] == '~' && a[k + 1] == '~'));
            }
        }
        lemma_expansion_lacks_tilde(style, v, home);
        lemma_concat_lacks(f, spec_expand_tilde(style, v, home), '~');
        lemma_expand_plain_unchanged(style, f + spec_expand_tilde(style, v, home), home);
    }
}

/// A component that is neither empty nor `.` is always pushed, wherever it
/// stands; `.` is kept only as the leading component.
pub proof fn lemma_push_piece_keeps_components(style: PathStyle, base: Seq<char>, c: Seq<char>, leading: bool)
    ensures
        c.len() > 0 && c != seq!['.'] ==> spec_push_piece(style, base, c, leading) == spec_push_path(style, base, c),
        c == seq!['.'] && leading ==> spec_push_piece(style, base, c, leading) == spec_push_path(style, base, c),
        c.len() == 0 || (c == seq!['.'] && !leading) ==> spec_push_piece(style, base, c, leading) == base,
{
}

/// Text without separators stays one component.
proof fn lemma_pieces_without_sep(style: PathStyle, base: Seq<char>, piece: Seq<char>, s: Seq<char>, leading: bool)
    requires
        forall|j: int| 0 <= j < s.len() ==> !is_tilde_sep(#[trigger] s[j]),
    ensures
        spec_push_pieces(style, base, piece, s, leading) == spec_push_piece(style, base, piece + s, leading),
    decreases s.len(),
{
    if s.len() == 0 {
        assert(piece + s =~= piece);
    } else {
        assert(!is_tilde_sep(s[0]));
        assert forall|j: int| 0 <= j < s.drop_first().len() implies !is_tilde_sep(#[trigger] s.drop_first()[j]) by {
            assert(s.drop_first()[j] == s[j + 1]);
        }
        lemma_pieces_without_sep(style, base, piece.push(s[0]), s.drop_first(), leading);
        assert(piece.push(s[0]) + s.drop_first() =~= piece + s);
    }
}

/// The text up to the first separator is one component, pushed before the rest.
proof fn lemma_pieces_split(style: PathStyle, base: Seq<char>, piece: Seq<char>, a: Seq<char>, s: Seq<char>, leading: bool)
    requires
        forall|j: int| 0 <= j < a.len() ==> !is_tilde_sep(#[trigger] a[j]),
        s.len() > 0,
        is_tilde_sep(s[0]),
    ensures
        spec_push_pieces(style, base, piece, a + s, leading) == spec_push_pieces(
            style,
            spec_push_piece(style, base, piece + a, leading),
            Seq::empty(),
            s.drop_first(),
            false,
        ),
    decreases a.len(),
{
    if a.len() == 0 {
        assert(a + s =~= s);
        assert(piece + a =~= piece);
    } else {
        assert((a + s)[0] == a[0]);
        assert((a + s).drop_first() =~= a.drop_first() + s);
        assert forall|j: int| 0 <= j < a.drop_first().len() implies !is_tilde_sep(#[trigger] a.drop_first()[j]) by {
            assert(a.drop_first()[j] == a[j + 1]);
        }
        lemma_pieces_split(style, base, piece.push(a[0]), a.drop_first(), s, leading);
        assert(piece.push(a[0]) + a.drop_first() =~= piece + a);
    }
}

/// `~/a/b` expands to the home directory joined with `a`, then with `b`, for
/// any names `a` and `b` without separators, `b` neither empty nor `.`:
/// no component is dropped or altered.
pub proof fn lemma_expand_keeps_components(style: PathStyle, h: Seq<char>, a: Seq<char>, b: Seq<char>)
    requires
        a.len() > 0,
        b.len() > 0,
        b != seq!['.'],
        forall|j: int| 0 <= j < a.len() ==> !is_tilde_sep(#[trigger] a[j]),
        forall|j: int| 0 <= j < b.len() ==> !is_tilde_sep(#[trigger] b[j]),
    ensures
        spec_expand_tilde(style, seq!['~', '/'] + a + seq!['/'] + b, Some(h)) == spec_push_path(
            style,
            spec_push_path(style, h, a),
            b,
        ),
{
    let path = seq!['~', '/'] + a + seq!['/'] + b;
    let tail = seq!['/'] + b;
    let rest = path.skip(2);
    assert(rest =~= a + tail);
    assert(path[0] == '~' && path[1] == '/');
    assert(path != tilde());
    assert(rest[0] == a[0]);
    assert(!is_tilde_sep(a[0]));
    assert(tail.drop_first() =~= b);
    lemma_pieces_split(style, h, Seq::empty(), a, tail, true);
    assert(Seq::<char>::empty() + a =~= a);
    let b1 = spec_push_piece(style, h, a, true);
    lemma_pieces_without_sep(style, b1, Seq::empty(), b, false);
    assert(Seq::<char>::empty() + b =~= b);
}

/// `~` expands to the home directory, and `~/a` to the home directory joined
/// with `a`, for any name `a` without separators.
pub proof fn lemma_expand_home_and_one_component(style: PathStyle, h: Seq<char>, a: Seq<char>)
    requires
        a.len() > 0,
        forall|j: int| 0 <= j < a.len() ==> !is_tilde_sep(#[trigger] a[j]),
    ensures
        spec_expand_tilde(style, tilde(), Some(h)) == h,
        spec_expand_tilde(style, seq!['~', '/'] + a, Some(h)) == spec_push_path(style, h, a),
{
    let path = seq!['~', '/'] + a;
    let rest = path.skip(2);
    assert(rest =~= a);
    assert(path[0] == '~' && path[1] == '/');
    assert(path != tilde());
    assert(!is_tilde_sep(rest[0]));
    lemma_pieces_without_sep(style, h, Seq::empty(), a, true);
    assert(Seq::<char>::empty() + a =~= a);
}

/// The log file of a program ends with the whole program name followed by
/// `.log`; for a name without separators, drive or `:`, it lies in the `logs`
/// directory of `exe_dir`: that directory, a separator, then the file name.
pub proof fn lemma_log_path_file_name(style: PathStyle, p: ProgramConfigView, exe_dir: Seq<char>)
    ensures
        ({
            let f = p.name + log_extension();
            let r = spec_log_path(style, p, exe_dir);
            &&& r.len() >= f.len()
            &&& r.subrange(r.len() - f.len(), r.len() as int) == f
        }),
        (forall|j: int| 0 <= j < p.name.len() ==> !is_sep(style, #[trigger] p.name[j]) && p.name[j] != ':')
            ==> spec_log_path(style, p, exe_dir) == spec_push_path(style, exe_dir, logs_dir_name()) + seq![
            main_sep(style),
        ] + p.name + log_extension(),
{
    let f = p.name + log_extension();
    let d = spec_push_path(style, exe_dir, logs_dir_name());
    lemma_push_path_ends_with(style, d, f);
    if forall|j: int| 0 <= j < p.name.len() ==> !is_sep(style, #[trigger] p.name[j]) && p.name[j] != ':' {
        lemma_push_path_ends_with(style, exe_dir, logs_dir_name());
        assert(d.subrange(d.len() - 4, d.len() as int) == logs_dir_name());
        assert(d.last() == d.subrange(d.len() - 4, d.len() as int)[3]);
        assert(d.last() == 's');
        assert forall|j: int| 0 <= j < f.len() implies !is_sep(style, #[trigger] f[j]) && f[j] != ':' by {
            if j < p.name.len() {
                assert(f[j] == p.name[j]);
            } else {
                assert(f[j] == log_extension()[j - p.name.len()]);
            }
        }
        assert(!is_sep(style, f[0]) && !is_sep(style, f[1]) && f[1] != ':');
        assert(!has_drive(f));
        assert(prefix_len(style, f) == 0);
        assert(!has_drive(d) || d.len() != 2);
        assert(d + seq![main_sep(style)] + f =~= d + seq![main_sep(style)] + p.name + log_extension());
    }
}

} // verus!
