//! Windows, the programs that run in them, and the registry of open windows.

use vstd::prelude::*;
use crate::config::{App, Cli, General, Terminal, cmd_marker, expanded, pid_marker, shell_id_marker};
use crate::text::{chars_of, contains, int_decimal, replace_all};
use crate::procinfo::ProcTable;
use crate::matching::{check_literal, literal_compiles, literal_is_match};

verus! {

/// The program behind a window.
pub struct Program {
    pub shell_id: i32,
    pub pid: i32,
    pub cwd: String,
    pub exe: String,
    pub cmdline: String,
}

/// What kind of program a window shows.
pub enum WinType {
    Terminal,
    CliApp(Option<Cli>),
    App(App),
    Plain,
}

/// A window of the window manager.
pub struct Window {
    pub address: String,
    pub at: (i16, i16),
    pub size: (i16, i16),
    pub monitor: i128,
    pub workspace: i32,
    pub class: String,
    pub title: String,
    pub init_class: String,
    pub init_title: String,
    pub pinned: bool,
    pub fullscreen: u8,
    pub floating: bool,
    pub program: Program,
    pub wtype: WinType,
}


fn clone_str(s: &String) -> (r: String)
    ensures
        r == *s,
{
    s.clone()
}

impl Clone for Program {
    fn clone(&self) -> (r: Self)
        ensures
            r == *self,
    {
        Program {
            shell_id: self.shell_id,
            pid: self.pid,
            cwd: clone_str(&self.cwd),
            exe: clone_str(&self.exe),
            cmdline: clone_str(&self.cmdline),
        }
    }
}

impl Clone for WinType {
    fn clone(&self) -> (r: Self)
        ensures
            r == *self,
    {
        match self {
            WinType::Terminal => WinType::Terminal,
            WinType::CliApp(None) => WinType::CliApp(None),
            WinType::CliApp(Some(c)) => WinType::CliApp(Some(c.clone())),
            WinType::App(a) => WinType::App(a.clone()),
            WinType::Plain => WinType::Plain,
        }
    }
}

impl Clone for Window {
    fn clone(&self) -> (r: Self)
        ensures
            r == *self,
    {
        Window {
            address: clone_str(&self.address),
            at: self.at,
            size: self.size,
            monitor: self.monitor,
            workspace: self.workspace,
            class: clone_str(&self.class),
            title: clone_str(&self.title),
            init_class: clone_str(&self.init_class),
            init_title: clone_str(&self.init_title),
            pinned: self.pinned,
            fullscreen: self.fullscreen,
            floating: self.floating,
            program: self.program.clone(),
            wtype: self.wtype.clone(),
        }
    }
}

/// The order of window addresses: lexicographic by character, as `String`
/// orders them.
pub open spec fn addr_lt(a: Seq<char>, b: Seq<char>) -> bool
    decreases a.len(),
{
    if a.len() == 0 {
        b.len() > 0
    } else if b.len() == 0 {
        false
    } else if a[0] != b[0] {
        a[0] < b[0]
    } else {
        addr_lt(a.drop_first(), b.drop_first())
    }
}

/// No address comes before itself.
pub proof fn lemma_addr_lt_irreflexive(a: Seq<char>)
    ensures
        !addr_lt(a, a),
    decreases a.len(),
{
    if a.len() > 0 {
        lemma_addr_lt_irreflexive(a.drop_first());
    }
}

/// The order of addresses is transitive.
pub proof fn lemma_addr_lt_transitive(a: Seq<char>, b: Seq<char>, c: Seq<char>)
    requires
        addr_lt(a, b),
        addr_lt(b, c),
    ensures
        addr_lt(a, c),
    decreases a.len(),
{
    if a.len() > 0 && b.len() > 0 && c.len() > 0 && a[0] == b[0] && b[0] == c[0] {
        lemma_addr_lt_transitive(a.drop_first(), b.drop_first(), c.drop_first());
    }
}

/// Of two different addresses, one comes before the other.
pub proof fn lemma_addr_lt_total(a: Seq<char>, b: Seq<char>)
    requires
        a != b,
    ensures
        addr_lt(a, b) || addr_lt(b, a),
    decreases a.len(),
{
    if a.len() > 0 && b.len() > 0 && a[0] == b[0] {
        if a.drop_first() == b.drop_first() {
            assert(a =~= seq![a[0]] + a.drop_first());
            assert(b =~= seq![b[0]] + b.drop_first());
        }
        lemma_addr_lt_total(a.drop_first(), b.drop_first());
    } else if a.len() == 0 && b.len() == 0 {
        assert(a =~= b);
    }
}

/// Whether address `a` comes before address `b`.
pub fn addr_less(a: &String, b: &String) -> (r: bool)
    ensures
        r == addr_lt(a@, b@),
{
    let x = chars_of(a.as_str());
    let y = chars_of(b.as_str());
    let mut k: usize = 0;
    assert(x@.skip(0) == x@);
    assert(y@.skip(0) == y@);
    while k < x.len() && k < y.len() && x[k] == y[k]
        invariant
            k <= x@.len(),
            k <= y@.len(),
            addr_lt(x@, y@) == addr_lt(x@.skip(k as int), y@.skip(k as int)),
        decreases x@.len() - k,
    {
        assert(x@.skip(k as int).drop_first() == x@.skip(k + 1));
        assert(y@.skip(k as int).drop_first() == y@.skip(k + 1));
        k = k + 1;
    }
    if k == x.len() {
        k < y.len()
    } else if k == y.len() {
        false
    } else {
        x[k] < y[k]
    }
}

/// Each window of `s` comes, by address, strictly before the windows after it.
pub open spec fn sorted_by_address(s: Seq<Window>) -> bool {
    forall|i: int, j: int| 0 <= i < j < s.len() ==> addr_lt(#[trigger] s[i].address@, #[trigger] s[j].address@)
}

/// The windows of `s` by address; a later window replaces an earlier one
/// with the same address.
pub open spec fn addr_map(s: Seq<Window>) -> Map<Seq<char>, Window>
    decreases s.len(),
{
    if s.len() == 0 {
        Map::empty()
    } else {
        addr_map(s.drop_last()).insert(s.last().address@, s.last())
    }
}

/// An address is mapped exactly when some window of `s` has it.
pub proof fn lemma_addr_map_dom(s: Seq<Window>, k: Seq<char>)
    ensures
        addr_map(s).contains_key(k) <==> exists|i: int| 0 <= i < s.len() && #[trigger] s[i].address@ == k,
    decreases s.len(),
{
    if s.len() > 0 {
        let p = s.drop_last();
        lemma_addr_map_dom(p, k);
        if addr_map(p).contains_key(k) {
            let i = choose|i: int| 0 <= i < p.len() && #[trigger] p[i].address@ == k;
            assert(s[i] == p[i]);
        }
        if exists|i: int| 0 <= i < s.len() && #[trigger] s[i].address@ == k {
            let i = choose|i: int| 0 <= i < s.len() && #[trigger] s[i].address@ == k;
            if i < s.len() - 1 {
                assert(p[i] == s[i]);
            }
        }
    }
}

/// The window mapped at an address is the last window of `s` with it.
pub proof fn lemma_addr_map_last(s: Seq<Window>, i: int)
    requires
        0 <= i < s.len(),
        forall|j: int| i < j < s.len() ==> #[trigger] s[j].address@ != s[i].address@,
    ensures
        addr_map(s).contains_key(s[i].address@),
        addr_map(s)[s[i].address@] == s[i],
    decreases s.len(),
{
    if i < s.len() - 1 {
        let p = s.drop_last();
        assert(p[i] == s[i]);
        assert forall|j: int| i < j < p.len() implies #[trigger] p[j].address@ != p[i].address@ by {
            assert(p[j] == s[j]);
        }
        lemma_addr_map_last(p, i);
    }
}

/// In a sequence sorted by address, each window is the one mapped at its address.
pub proof fn lemma_sorted_addr_map(s: Seq<Window>)
    requires
        sorted_by_address(s),
    ensures
        forall|i: int|
            0 <= i < s.len() ==> addr_map(s).contains_key(#[trigger] s[i].address@) && addr_map(
                s,
            )[s[i].address@] == s[i],
        forall|k: Seq<char>|
            addr_map(s).contains_key(k) ==> exists|i: int| 0 <= i < s.len() && #[trigger] s[i].address@ == k,
{
    assert forall|i: int|
        0 <= i < s.len() implies addr_map(s).contains_key(#[trigger] s[i].address@) && addr_map(
            s,
        )[s[i].address@] == s[i] by {
        assert forall|j: int| i < j < s.len() implies #[trigger] s[j].address@ != s[i].address@ by {
            lemma_addr_lt_irreflexive(s[i].address@);
        }
        lemma_addr_map_last(s, i);
    }
    assert forall|k: Seq<char>| addr_map(s).contains_key(k) implies exists|i: int|
        0 <= i < s.len() && #[trigger] s[i].address@ == k by {
        lemma_addr_map_dom(s, k);
    }
}

/// In a sequence sorted by address, the last window's address comes after
/// every other mapped address, and the rest maps the other addresses.
proof fn lemma_sorted_last(s: Seq<Window>)
    requires
        sorted_by_address(s),
        s.len() > 0,
    ensures
        forall|k: Seq<char>|
            #[trigger] addr_map(s).contains_key(k) ==> k == s.last().address@ || addr_lt(
                k,
                s.last().address@,
            ),
        addr_map(s.drop_last()) == addr_map(s).remove(s.last().address@),
        sorted_by_address(s.drop_last()),
{
    let d = s.drop_last();
    let l = s.last().address@;
    lemma_sorted_addr_map(s);
    assert forall|k: Seq<char>| #[trigger] addr_map(s).contains_key(k) implies k == l || addr_lt(
        k,
        l,
    ) by {
        let i = choose|i: int| 0 <= i < s.len() && #[trigger] s[i].address@ == k;
        if i < s.len() - 1 {
            assert(addr_lt(s[i].address@, s[s.len() - 1].address@));
        }
    }
    assert(sorted_by_address(d)) by {
        assert forall|a: int, b: int| 0 <= a < b < d.len() implies addr_lt(
            #[trigger] d[a].address@,
            #[trigger] d[b].address@,
        ) by {
            assert(d[a] == s[a] && d[b] == s[b]);
        }
    }
    assert(!addr_map(d).contains_key(l)) by {
        lemma_addr_map_dom(d, l);
        if addr_map(d).contains_key(l) {
            let i = choose|i: int| 0 <= i < d.len() && #[trigger] d[i].address@ == l;
            assert(d[i] == s[i]);
            assert(addr_lt(s[i].address@, s[s.len() - 1].address@));
            lemma_addr_lt_irreflexive(l);
        }
    }
    assert(addr_map(d) =~= addr_map(s).remove(l));
}

/// A registry's windows are fixed by its contents: two sequences sorted by
/// address that map the same addresses to the same windows are the same.
pub proof fn lemma_sorted_unique(s1: Seq<Window>, s2: Seq<Window>)
    requires
        sorted_by_address(s1),
        sorted_by_address(s2),
        addr_map(s1) == addr_map(s2),
    ensures
        s1 == s2,
    decreases s1.len(),
{
    if s1.len() == 0 {
        if s2.len() > 0 {
            lemma_addr_map_last(s2, s2.len() - 1);
        }
        assert(s2.len() == 0);
        assert(s1 =~= s2);
    } else {
        if s2.len() == 0 {
            lemma_addr_map_last(s1, s1.len() - 1);
            assert(false);
        }
        lemma_sorted_last(s1);
        lemma_sorted_last(s2);
        lemma_sorted_addr_map(s1);
        lemma_sorted_addr_map(s2);
        let l1 = s1.last().address@;
        let l2 = s2.last().address@;
        assert(addr_map(s1).contains_key(l1));
        assert(addr_map(s2).contains_key(l2));
        if l1 != l2 {
            assert(addr_lt(l1, l2));
            assert(addr_lt(l2, l1));
            lemma_addr_lt_transitive(l1, l2, l1);
            lemma_addr_lt_irreflexive(l1);
        }
        assert(s1.last() == addr_map(s1)[l1]);
        assert(s2.last() == addr_map(s2)[l2]);
        lemma_sorted_unique(s1.drop_last(), s2.drop_last());
        assert(s1 =~= s2.drop_last().push(s2.last()));
        assert(s2 =~= s2.drop_last().push(s2.last()));
    }
}

/// Whether `x` is one of the elements of `s`.
pub open spec fn drawn_from(x: Window, s: Seq<Window>) -> bool {
    exists|j: int| 0 <= j < s.len() && s[j] == x
}

/// Filtering keeps only elements of the sequence.
pub proof fn lemma_filter_sorted_members(s: Seq<Window>, p: spec_fn(Window) -> bool)
    ensures
        forall|i: int| 0 <= i < s.filter(p).len() ==> drawn_from(#[trigger] s.filter(p)[i], s),
    decreases s.len(),
{
    reveal(Seq::filter);
    if s.len() > 0 {
        let d = s.drop_last();
        lemma_filter_sorted_members(d, p);
        let f = d.filter(p);
        let out = s.filter(p);
        assert forall|i: int| 0 <= i < out.len() implies drawn_from(#[trigger] out[i], s) by {
            if i < f.len() {
                assert(out[i] == f[i]);
                let j = choose|j: int| 0 <= j < d.len() && d[j] == f[i];
                assert(s[j] == d[j]);
            } else {
                assert(out[i] == s[s.len() - 1]);
            }
        }
    }
}

/// Filtering a sequence sorted by address keeps it sorted, and keeps only
/// elements of the sequence.
pub proof fn lemma_filter_sorted(s: Seq<Window>, p: spec_fn(Window) -> bool)
    requires
        sorted_by_address(s),
    ensures
        sorted_by_address(s.filter(p)),
        forall|i: int| 0 <= i < s.filter(p).len() ==> drawn_from(#[trigger] s.filter(p)[i], s),
    decreases s.len(),
{
    reveal(Seq::filter);
    if s.len() > 0 {
        let d = s.drop_last();
        assert(sorted_by_address(d)) by {
            assert forall|a: int, b: int| 0 <= a < b < d.len() implies addr_lt(
                #[trigger] d[a].address@,
                #[trigger] d[b].address@,
            ) by {
                assert(d[a] == s[a] && d[b] == s[b]);
            }
        }
        lemma_filter_sorted(d, p);
        let f = d.filter(p);
        let out = s.filter(p);
        assert forall|i: int| 0 <= i < f.len() implies drawn_from(#[trigger] f[i], s) by {
            let j = choose|j: int| 0 <= j < d.len() && d[j] == f[i];
            assert(s[j] == d[j]);
        }
        if p(s.last()) {
            assert(out == f.push(s.last()));
            assert forall|a: int, b: int| 0 <= a < b < out.len() implies addr_lt(
                #[trigger] out[a].address@,
                #[trigger] out[b].address@,
            ) by {
                if b == out.len() - 1 {
                    let j = choose|j: int| 0 <= j < d.len() && d[j] == f[a];
                    assert(s[j] == d[j]);
                    assert(out[a] == f[a]);
                    assert(addr_lt(s[j].address@, s[s.len() - 1].address@));
                } else {
                    assert(out[a] == f[a] && out[b] == f[b]);
                }
            }
            assert forall|i: int| 0 <= i < out.len() implies drawn_from(#[trigger] out[i], s) by {
                if i < out.len() - 1 {
                    assert(out[i] == f[i]);
                } else {
                    assert(s[s.len() - 1] == out[i]);
                }
            }
        } else {
            assert(out == f);
        }
    }
}

/// The command that saving runs for a window: the `on_save` command of its
/// command-line program or application, with its variables expanded.
pub open spec fn save_command(w: Window) -> Option<Seq<char>> {
    match w.wtype {
        WinType::CliApp(Some(cmd)) => match cmd.on_save {
            Some(save) => Some(expanded(save@, w.program.shell_id, w.program.pid)),
            None => None,
        },
        WinType::App(app) => match app.on_save {
            Some(save) => Some(expanded(save@, w.program.shell_id, w.program.pid)),
            None => None,
        },
        _ => None,
    }
}

/// The commands that saving runs for the windows of `s`, in order.
pub open spec fn save_commands(s: Seq<Window>) -> Seq<Seq<char>>
    decreases s.len(),
{
    if s.len() == 0 {
        seq![]
    } else {
        save_commands(s.drop_last()) + match save_command(s.last()) {
            Some(c) => seq![c],
            None => seq![],
        }
    }
}

/// `w` with the command line `c` for its program.
pub open spec fn with_cmdline(w: Window, c: String) -> Window {
    Window { program: Program { cmdline: c, ..w.program }, ..w }
}

/// The command line that reopens window `w`, where it is known: for a
/// command-line program, the terminal's restore command running the
/// program's `exec` command (or, without one, the current command line); for
/// an application, its `exec` command or the current command line.
pub open spec fn restore_cmdline(term: Terminal, w: Window) -> Option<Seq<char>> {
    match w.wtype {
        WinType::CliApp(cli) => {
            let exec_cmd = match cli {
                Some(c) => match c.exec_cmd {
                    Some(e) => e@,
                    None => w.program.cmdline@,
                },
                None => w.program.cmdline@,
            };
            Some(term.restore_command(exec_cmd, w))
        },
        WinType::App(app) => Some(
            match app.exec_cmd {
                Some(e) => e@,
                None => w.program.cmdline@,
            },
        ),
        _ => None,
    }
}

/// `new` is `old` with the command line that reopens it.
pub open spec fn cmdline_set(term: Terminal, old: Window, new: Window) -> bool {
    match restore_cmdline(term, old) {
        Some(c) => new == with_cmdline(old, new.program.cmdline) && new.program.cmdline@ == c,
        None => new == old,
    }
}

/// The first command-line program of `clis` that a window with command line
/// `cmdline` runs.
pub open spec fn first_cli(clis: Seq<Cli>, cmdline: Seq<char>) -> Option<Cli>
    decreases clis.len(),
{
    if clis.len() == 0 {
        None
    } else if contains(cmdline, clis[0].match_exe@) {
        Some(clis[0])
    } else {
        first_cli(clis.drop_first(), cmdline)
    }
}

/// The first application of `apps` that a window with class `class` and
/// title `title` belongs to.
pub open spec fn first_app(apps: Seq<App>, class: Seq<char>, title: Seq<char>) -> Option<App>
    decreases apps.len(),
{
    if apps.len() == 0 {
        None
    } else if contains(class, apps[0].class@) || contains(title, apps[0].title@) {
        Some(apps[0])
    } else {
        first_app(apps.drop_first(), class, title)
    }
}

/// `w` with the given shell, process id, command line and kind.
pub open spec fn with_program(w: Window, shell_id: i32, pid: i32, cmdline: String, wtype: WinType) -> Window {
    Window { program: Program { shell_id, pid, cmdline, ..w.program }, wtype, ..w }
}

/// Why classifying the windows, and with it saving, cannot go ahead.
#[derive(Debug, Clone, Copy, PartialEq, Eq, Structural)]
pub enum SaveError {
    /// A pattern that classifying reaches does not compile as a regex.
    PatternRejected,
    /// A command line that classifying needs could not be read.
    CommandLineUnreadable,
}

/// The patterns of `clis` that looking for the first program run by a window
/// with command line `cmdline` compiles, up to and including the first that
/// matches, all compile.
pub open spec fn clis_reached_compile(clis: Seq<Cli>, cmdline: Seq<char>) -> bool
    decreases clis.len(),
{
    clis.len() == 0 || (literal_compiles(clis[0].match_exe@) && (contains(
        cmdline,
        clis[0].match_exe@,
    ) || clis_reached_compile(clis.drop_first(), cmdline)))
}

/// The patterns of `apps` that looking for the first application of a
/// window with class `class` and title `title` compiles (both patterns of each
/// application tried), up to and including the first that matches, all compile.
pub open spec fn apps_reached_compile(apps: Seq<App>, class: Seq<char>, title: Seq<char>) -> bool
    decreases apps.len(),
{
    apps.len() == 0 || (literal_compiles(apps[0].class@) && literal_compiles(apps[0].title@) && (
    contains(class, apps[0].class@) || contains(title, apps[0].title@) || apps_reached_compile(
        apps.drop_first(),
        class,
        title,
    )))
}

/// What stops classifying `w`, in the order classifying meets it: the
/// terminal's pattern not compiling; for a terminal window whose shell has a
/// child, that child's command line missing, then a program pattern reached
/// not compiling; for any other window, its command line missing, then an
/// application pattern reached not compiling.
pub open spec fn classify_error(cfg: General, procs: ProcTable, w: Window) -> Option<SaveError> {
    if !literal_compiles(cfg.terminal.class@) {
        Some(SaveError::PatternRejected)
    } else if cfg.terminal.matches(w) {
        let shells = procs.children_of(w.program.pid);
        if shells.len() > 0 && procs.children_of(shells[0]).len() > 0 {
            match procs.command_line_of(procs.children_of(shells[0])[0]) {
                None => Some(SaveError::CommandLineUnreadable),
                Some(x) => if clis_reached_compile(cfg.cli@, x) {
                    None
                } else {
                    Some(SaveError::PatternRejected)
                },
            }
        } else {
            None
        }
    } else {
        match procs.command_line_of(w.program.pid) {
            None => Some(SaveError::CommandLineUnreadable),
            Some(_) => if apps_reached_compile(cfg.app@, w.class@, w.title@) {
                None
            } else {
                Some(SaveError::PatternRejected)
            },
        }
    }
}

/// What stops classifying the windows of `s`, taken in order: that of the
/// first window that cannot be classified.
pub open spec fn first_classify_error(cfg: General, procs: ProcTable, s: Seq<Window>) -> Option<
    SaveError,
>
    decreases s.len(),
{
    if s.len() == 0 {
        None
    } else {
        match classify_error(cfg, procs, s[0]) {
            Some(e) => Some(e),
            None => first_classify_error(cfg, procs, s.drop_first()),
        }
    }
}

/// Nothing stops classifying a sequence exactly when nothing stops
/// classifying any of its windows.
pub proof fn lemma_first_classify_error(cfg: General, procs: ProcTable, s: Seq<Window>)
    ensures
        first_classify_error(cfg, procs, s) is None <==> forall|i: int|
            0 <= i < s.len() ==> classify_error(cfg, procs, #[trigger] s[i]) is None,
    decreases s.len(),
{
    if s.len() > 0 {
        lemma_first_classify_error(cfg, procs, s.drop_first());
        if first_classify_error(cfg, procs, s) is None {
            assert forall|i: int| 0 <= i < s.len() implies classify_error(
                cfg,
                procs,
                #[trigger] s[i],
            ) is None by {
                if i > 0 {
                    assert(s[i] == s.drop_first()[i - 1]);
                }
            }
        }
        if forall|i: int| 0 <= i < s.len() ==> classify_error(cfg, procs, #[trigger] s[i]) is None {
            assert(classify_error(cfg, procs, s[0]) is None);
            assert forall|i: int| 0 <= i < s.drop_first().len() implies classify_error(
                cfg,
                procs,
                #[trigger] s.drop_first()[i],
            ) is None by {
                assert(s.drop_first()[i] == s[i + 1]);
            }
        }
    }
}

/// Nothing stops classifying when there are no windows.
pub proof fn law_no_windows_classify(cfg: General, procs: ProcTable, s: Seq<Window>)
    requires
        addr_map(s) == Map::<Seq<char>, Window>::empty(),
    ensures
        first_classify_error(cfg, procs, s) is None,
{
    if s.len() > 0 {
        lemma_addr_map_last(s, s.len() - 1);
    }
}

/// `new` is `old` classified: a terminal window becomes a terminal running
/// the terminal's binary; where its process has a child (the shell), that
/// child becomes its shell, and where the shell has a child in turn, that
/// grandchild becomes its program, with its command line, and the window
/// becomes a command-line program, the first one configured that it runs.
/// Any other window gets the command line of its process and becomes the
/// first application configured that it belongs to, or a plain window.
pub open spec fn program_typed(cfg: General, procs: ProcTable, old: Window, new: Window) -> bool {
    &&& new == with_program(
        old,
        new.program.shell_id,
        new.program.pid,
        new.program.cmdline,
        new.wtype,
    )
    &&& if cfg.terminal.matches(old) {
        let shells = procs.children_of(old.program.pid);
        if shells.len() == 0 {
            &&& new.wtype == WinType::Terminal
            &&& new.program.cmdline@ == cfg.terminal.bin@
            &&& new.program.shell_id == old.program.shell_id
            &&& new.program.pid == old.program.pid
        } else {
            let kids = procs.children_of(shells[0]);
            if kids.len() == 0 {
                &&& new.wtype == WinType::Terminal
                &&& new.program.cmdline@ == cfg.terminal.bin@
                &&& new.program.shell_id == shells[0]
                &&& new.program.pid == old.program.pid
            } else {
                &&& procs.command_line_of(kids[0]) == Some(new.program.cmdline@)
                &&& new.program.shell_id == shells[0]
                &&& new.program.pid == kids[0]
                &&& new.wtype == WinType::CliApp(first_cli(cfg.cli@, new.program.cmdline@))
            }
        }
    } else {
        &&& procs.command_line_of(old.program.pid) == Some(new.program.cmdline@)
        &&& new.program.shell_id == old.program.shell_id
        &&& new.program.pid == old.program.pid
        &&& new.wtype == match first_app(cfg.app@, old.class@, old.title@) {
            Some(a) => WinType::App(a),
            None => WinType::Plain,
        }
    }
}

/// Whether the program patterns reached for a window with command line
/// `cmdline` all compile.
fn clis_compile_up_to_match(clis: &Vec<Cli>, cmdline: &str) -> (r: bool)
    ensures
        r == clis_reached_compile(clis@, cmdline@),
{
    let mut i: usize = 0;
    assert(clis@.skip(0) == clis@);
    while i < clis.len()
        invariant
            i <= clis@.len(),
            clis_reached_compile(clis@, cmdline@) == clis_reached_compile(clis@.skip(i as int), cmdline@),
        decreases clis@.len() - i,
    {
        assert(clis@.skip(i as int)[0] == clis@[i as int]);
        assert(clis@.skip(i as int).drop_first() == clis@.skip(i + 1));
        if !check_literal(clis[i].match_exe.as_str()) {
            return false;
        }
        if literal_is_match(clis[i].match_exe.as_str(), cmdline) {
            return true;
        }
        i = i + 1;
    }
    true
}

/// Whether the application patterns reached for a window with class `class`
/// and title `title` all compile.
fn apps_compile_up_to_match(apps: &Vec<App>, class: &str, title: &str) -> (r: bool)
    ensures
        r == apps_reached_compile(apps@, class@, title@),
{
    let mut i: usize = 0;
    assert(apps@.skip(0) == apps@);
    while i < apps.len()
        invariant
            i <= apps@.len(),
            apps_reached_compile(apps@, class@, title@) == apps_reached_compile(
                apps@.skip(i as int),
                class@,
                title@,
            ),
        decreases apps@.len() - i,
    {
        assert(apps@.skip(i as int)[0] == apps@[i as int]);
        assert(apps@.skip(i as int).drop_first() == apps@.skip(i + 1));
        if !check_literal(apps[i].class.as_str()) || !check_literal(apps[i].title.as_str()) {
            return false;
        }
        if literal_is_match(apps[i].class.as_str(), class) || literal_is_match(
            apps[i].title.as_str(),
            title,
        ) {
            return true;
        }
        i = i + 1;
    }
    true
}

/// What stops classifying `w`, if anything.
fn window_classify_error(cfg: &General, procs: &ProcTable, w: &Window) -> (r: Option<SaveError>)
    ensures
        r == classify_error(*cfg, *procs, *w),
{
    if !check_literal(cfg.terminal.class.as_str()) {
        return Some(SaveError::PatternRejected);
    }
    if cfg.terminal.is_match(w) {
        let shells = procs.get_child_pids(w.program.pid);
        if shells.len() > 0 {
            let kids = procs.get_child_pids(shells[0]);
            if kids.len() > 0 {
                match procs.get_cmdline(kids[0]) {
                    None => Some(SaveError::CommandLineUnreadable),
                    Some(x) => if clis_compile_up_to_match(&cfg.cli, x.as_str()) {
                        None
                    } else {
                        Some(SaveError::PatternRejected)
                    },
                }
            } else {
                None
            }
        } else {
            None
        }
    } else {
        match procs.get_cmdline(w.program.pid) {
            None => Some(SaveError::CommandLineUnreadable),
            Some(_) => if apps_compile_up_to_match(&cfg.app, w.class.as_str(), w.title.as_str()) {
                None
            } else {
                Some(SaveError::PatternRejected)
            },
        }
    }
}

/// The first command-line program of `clis` that `w` runs.
fn find_cli(clis: &Vec<Cli>, w: &Window) -> (r: Option<Cli>)
    requires
        clis_reached_compile(clis@, w.program.cmdline@),
    ensures
        r == first_cli(clis@, w.program.cmdline@),
{
    let mut i: usize = 0;
    assert(clis@.skip(0) == clis@);
    while i < clis.len()
        invariant
            i <= clis@.len(),
            clis_reached_compile(clis@.skip(i as int), w.program.cmdline@),
            first_cli(clis@, w.program.cmdline@) == first_cli(clis@.skip(i as int), w.program.cmdline@),
        decreases clis@.len() - i,
    {
        assert(clis@.skip(i as int)[0] == clis@[i as int]);
        assert(clis@.skip(i as int).drop_first() == clis@.skip(i + 1));
        if clis[i].is_match(w) {
            return Some(clis[i].clone());
        }
        i = i + 1;
    }
    None
}

/// The first application of `apps` that `w` belongs to.
fn find_app(apps: &Vec<App>, w: &Window) -> (r: Option<App>)
    requires
        apps_reached_compile(apps@, w.class@, w.title@),
    ensures
        r == first_app(apps@, w.class@, w.title@),
{
    let mut i: usize = 0;
    assert(apps@.skip(0) == apps@);
    while i < apps.len()
        invariant
            i <= apps@.len(),
            apps_reached_compile(apps@.skip(i as int), w.class@, w.title@),
            first_app(apps@, w.class@, w.title@) == first_app(apps@.skip(i as int), w.class@, w.title@),
        decreases apps@.len() - i,
    {
        assert(apps@.skip(i as int)[0] == apps@[i as int]);
        assert(apps@.skip(i as int).drop_first() == apps@.skip(i + 1));
        if apps[i].is_match(w) {
            return Some(apps[i].clone());
        }
        i = i + 1;
    }
    None
}

/// Whether no window with the address of `w` is in `held`.
pub open spec fn not_held(held: Map<Seq<char>, Window>) -> spec_fn(Window) -> bool {
    |w: Window| !held.contains_key(w.address@)
}

/// Taking from a registry's windows those whose addresses another registry
/// does not hold leaves no window whose address that registry holds.
pub proof fn law_difference_disjoint(s: Seq<Window>, other: Map<Seq<char>, Window>)
    ensures
        forall|i: int|
            0 <= i < s.filter(not_held(other)).len() ==> !other.contains_key(
                (#[trigger] s.filter(not_held(other))[i]).address@,
            ),
{
    broadcast use vstd::seq_lib::group_filter_ensures;

}

/// Taking from a registry's windows those whose addresses the registry
/// itself holds leaves nothing.
pub proof fn law_difference_with_itself(s: Seq<Window>)
    ensures
        s.filter(not_held(addr_map(s))).len() == 0,
{
    broadcast use vstd::seq_lib::group_filter_ensures;

    let p = not_held(addr_map(s));
    let f = s.filter(p);
    if f.len() > 0 {
        lemma_filter_sorted_members(s, p);
        let j = choose|j: int| 0 <= j < s.len() && s[j] == f[0];
        lemma_addr_map_dom(s, s[j].address@);
        assert(p(f[0]));
    }
}

/// Taking from a registry's windows those whose addresses an empty registry
/// holds keeps them all.
pub proof fn law_difference_with_empty(s: Seq<Window>)
    ensures
        s.filter(not_held(Map::empty())) == s,
    decreases s.len(),
{
    reveal(Seq::filter);
    if s.len() > 0 {
        law_difference_with_empty(s.drop_last());
        assert(s.drop_last().push(s.last()) =~= s);
    }
}

/// Taking the difference against the same registry a second time changes
/// nothing.
pub proof fn law_difference_idempotent(s: Seq<Window>, other: Map<Seq<char>, Window>)
    ensures
        s.filter(not_held(other)).filter(not_held(other)) == s.filter(not_held(other)),
    decreases s.len(),
{
    reveal(Seq::filter);
    let p = not_held(other);
    if s.len() > 0 {
        law_difference_idempotent(s.drop_last(), other);
        let f = s.drop_last().filter(p);
        if p(s.last()) {
            assert(s.filter(p) == f.push(s.last()));
            assert(f.push(s.last()).drop_last() == f);
        } else {
            assert(s.filter(p) == f);
        }
    }
}

/// Giving windows the command lines that reopen them keeps every window's
/// address.
pub proof fn law_cmdline_keeps_address(term: Terminal, old: Window, new: Window)
    requires
        cmdline_set(term, old, new),
    ensures
        new.address == old.address,
{
}

/// Classifying windows keeps every window's address.
pub proof fn law_classify_keeps_address(cfg: General, procs: ProcTable, old: Window, new: Window)
    requires
        program_typed(cfg, procs, old, new),
    ensures
        new.address == old.address,
{
}

/// The first configured program that a command line runs is a configured
/// program whose pattern the command line contains, and no program configured
/// before it has a pattern that the command line contains; there is none
/// exactly when the command line contains no configured pattern.
pub proof fn lemma_first_cli(clis: Seq<Cli>, cmdline: Seq<char>)
    ensures
        match first_cli(clis, cmdline) {
            Some(c) => exists|i: int|
                0 <= i < clis.len() && clis[i] == c && contains(cmdline, c.match_exe@) && forall|
                    j: int,
                | 0 <= j < i ==> !contains(cmdline, #[trigger] clis[j].match_exe@),
            None => forall|i: int| 0 <= i < clis.len() ==> !contains(cmdline, #[trigger] clis[i].match_exe@),
        },
    decreases clis.len(),
{
    if clis.len() > 0 {
        let rest = clis.drop_first();
        lemma_first_cli(rest, cmdline);
        if contains(cmdline, clis[0].match_exe@) {
            assert(clis[0] == clis[0]);
        } else {
            match first_cli(rest, cmdline) {
                Some(c) => {
                    let k = choose|k: int|
                        0 <= k < rest.len() && rest[k] == c && contains(cmdline, c.match_exe@)
                            && forall|j: int| 0 <= j < k ==> !contains(cmdline, #[trigger] rest[j].match_exe@);
                    assert(clis[k + 1] == rest[k]);
                    assert forall|j: int| 0 <= j < k + 1 implies !contains(cmdline, #[trigger] clis[j].match_exe@) by {
                        if j > 0 {
                            assert(clis[j] == rest[j - 1]);
                        }
                    }
                },
                None => {
                    assert forall|i: int| 0 <= i < clis.len() implies !contains(cmdline, #[trigger] clis[i].match_exe@) by {
                        if i > 0 {
                            assert(clis[i] == rest[i - 1]);
                        }
                    }
                },
            }
        }
    }
}

/// The first configured application of a window is a configured application
/// whose class pattern its class contains or whose title pattern its title
/// contains, and no application configured before it is one of those; there is
/// none exactly when no configured application is.
pub proof fn lemma_first_app(apps: Seq<App>, class: Seq<char>, title: Seq<char>)
    ensures
        match first_app(apps, class, title) {
            Some(a) => exists|i: int|
                0 <= i < apps.len() && apps[i] == a && (contains(class, a.class@) || contains(
                    title,
                    a.title@,
                )) && forall|j: int|
                    0 <= j < i ==> !(contains(class, #[trigger] apps[j].class@) || contains(
                        title,
                        apps[j].title@,
                    )),
            None => forall|i: int|
                0 <= i < apps.len() ==> !(contains(class, #[trigger] apps[i].class@) || contains(
                    title,
                    apps[i].title@,
                )),
        },
    decreases apps.len(),
{
    if apps.len() > 0 {
        let rest = apps.drop_first();
        lemma_first_app(rest, class, title);
        if contains(class, apps[0].class@) || contains(title, apps[0].title@) {
            assert(apps[0] == apps[0]);
        } else {
            match first_app(rest, class, title) {
                Some(a) => {
                    let k = choose|k: int|
                        0 <= k < rest.len() && rest[k] == a && (contains(class, a.class@) || contains(
                            title,
                            a.title@,
                        )) && forall|j: int|
                            0 <= j < k ==> !(contains(class, #[trigger] rest[j].class@) || contains(
                                title,
                                rest[j].title@,
                            ));
                    assert(apps[k + 1] == rest[k]);
                    assert forall|j: int| 0 <= j < k + 1 implies !(contains(class, #[trigger] apps[j].class@) || contains(title, apps[j].title@)) by {
                        if j > 0 {
                            assert(apps[j] == rest[j - 1]);
                        }
                    }
                },
                None => {
                    assert forall|i: int| 0 <= i < apps.len() implies !(contains(class, #[trigger] apps[i].class@) || contains(title, apps[i].title@)) by {
                        if i > 0 {
                            assert(apps[i] == rest[i - 1]);
                        }
                    }
                },
            }
        }
    }
}

/// A terminal window whose shell (the first child of its process) has a
/// child in turn runs that child: classifying makes the shell its shell, the
/// shell's first child its program with that child's command line, and makes
/// it a command-line program, never a bare terminal: the first configured
/// program whose pattern that command line contains, or none when it contains
/// no configured pattern.
pub proof fn law_terminal_runs_shell_child(cfg: General, procs: ProcTable, old: Window, new: Window)
    requires
        program_typed(cfg, procs, old, new),
        contains(old.class@, cfg.terminal.class@),
        procs.children_of(old.program.pid).len() > 0,
        procs.children_of(procs.children_of(old.program.pid)[0]).len() > 0,
    ensures
        new.program.shell_id == procs.children_of(old.program.pid)[0],
        new.program.pid == procs.children_of(procs.children_of(old.program.pid)[0])[0],
        procs.command_line_of(new.program.pid) == Some(new.program.cmdline@),
        match new.wtype {
            WinType::CliApp(Some(c)) => exists|i: int|
                0 <= i < cfg.cli@.len() && cfg.cli@[i] == c && contains(
                    new.program.cmdline@,
                    c.match_exe@,
                ) && forall|j: int|
                    0 <= j < i ==> !contains(new.program.cmdline@, #[trigger] cfg.cli@[j].match_exe@),
            WinType::CliApp(None) => forall|i: int|
                0 <= i < cfg.cli@.len() ==> !contains(new.program.cmdline@, #[trigger] cfg.cli@[i].match_exe@),
            _ => false,
        },
{
    lemma_first_cli(cfg.cli@, new.program.cmdline@);
}

/// A terminal window whose process has no child, or whose shell has none,
/// runs nothing but the terminal: classifying makes it a terminal with the
/// terminal's binary as its command line and keeps its process; its shell is
/// the first child of its process where there is one, else it is kept.
pub proof fn law_terminal_without_program(cfg: General, procs: ProcTable, old: Window, new: Window)
    requires
        program_typed(cfg, procs, old, new),
        contains(old.class@, cfg.terminal.class@),
        procs.children_of(old.program.pid).len() == 0 || procs.children_of(
            procs.children_of(old.program.pid)[0],
        ).len() == 0,
    ensures
        new.wtype == WinType::Terminal,
        new.program.cmdline@ == cfg.terminal.bin@,
        new.program.pid == old.program.pid,
        new.program.shell_id == if procs.children_of(old.program.pid).len() == 0 {
            old.program.shell_id
        } else {
            procs.children_of(old.program.pid)[0]
        },
{
}

/// A window that is not of the terminal keeps its process and shell, gets
/// the command line of its process, and becomes the first configured
/// application whose class pattern its class contains or whose title pattern
/// its title contains, or a plain window when there is none.
pub proof fn law_other_window_typed(cfg: General, procs: ProcTable, old: Window, new: Window)
    requires
        program_typed(cfg, procs, old, new),
        !contains(old.class@, cfg.terminal.class@),
    ensures
        new.program.pid == old.program.pid,
        new.program.shell_id == old.program.shell_id,
        procs.command_line_of(old.program.pid) == Some(new.program.cmdline@),
        match new.wtype {
            WinType::App(a) => exists|i: int|
                0 <= i < cfg.app@.len() && cfg.app@[i] == a && (contains(old.class@, a.class@)
                    || contains(old.title@, a.title@)) && forall|j: int|
                    0 <= j < i ==> !(contains(old.class@, #[trigger] cfg.app@[j].class@) || contains(
                        old.title@,
                        cfg.app@[j].title@,
                    )),
            WinType::Plain => forall|i: int|
                0 <= i < cfg.app@.len() ==> !(contains(old.class@, #[trigger] cfg.app@[i].class@)
                    || contains(old.title@, cfg.app@[i].title@)),
            _ => false,
        },
{
    lemma_first_app(cfg.app@, old.class@, old.title@);
}

/// Classifying a window changes only its program's shell, process and
/// command line and its kind: everything else about the window and its
/// program stays as it was.
pub proof fn law_classify_keeps_window(cfg: General, procs: ProcTable, old: Window, new: Window)
    requires
        program_typed(cfg, procs, old, new),
    ensures
        new.address == old.address,
        new.at == old.at,
        new.size == old.size,
        new.monitor == old.monitor,
        new.workspace == old.workspace,
        new.class == old.class,
        new.title == old.title,
        new.init_class == old.init_class,
        new.init_title == old.init_title,
        new.pinned == old.pinned,
        new.fullscreen == old.fullscreen,
        new.floating == old.floating,
        new.program.cwd == old.program.cwd,
        new.program.exe == old.program.exe,
{
}

/// A command-line program configured with an `exec` command is reopened by
/// the terminal's restore command with `$$cmd$$` replaced by that `exec`
/// command, in which `$$shell_id$$`, then `$$pid$$`, are replaced by the
/// decimal ids of the window's shell and program: the command line that the
/// program ran with is not used.
pub proof fn law_cli_cmdline_runs_exec(term: Terminal, old: Window, new: Window, c: Cli, e: String)
    requires
        cmdline_set(term, old, new),
        old.wtype == WinType::CliApp(Some(c)),
        c.exec_cmd == Some(e),
    ensures
        new.program.cmdline@ == replace_all(
            term.restore_cmd@,
            cmd_marker(),
            replace_all(
                replace_all(e@, shell_id_marker(), int_decimal(old.program.shell_id as int)),
                pid_marker(),
                int_decimal(old.program.pid as int),
            ),
        ),
{
}

/// A command-line program with no configured `exec` command, or which no
/// configured program matched, is reopened by the terminal's restore command
/// with `$$cmd$$` replaced by the command line it ran with, in which
/// `$$shell_id$$`, then `$$pid$$`, are replaced by the decimal ids of the
/// window's shell and program.
pub proof fn law_cli_cmdline_reruns_program(term: Terminal, old: Window, new: Window)
    requires
        cmdline_set(term, old, new),
        match old.wtype {
            WinType::CliApp(Some(c)) => c.exec_cmd is None,
            WinType::CliApp(None) => true,
            _ => false,
        },
    ensures
        new.program.cmdline@ == replace_all(
            term.restore_cmd@,
            cmd_marker(),
            replace_all(
                replace_all(
                    old.program.cmdline@,
                    shell_id_marker(),
                    int_decimal(old.program.shell_id as int),
                ),
                pid_marker(),
                int_decimal(old.program.pid as int),
            ),
        ),
{
}

/// An application is reopened by its `exec` command as it stands, or, without
/// one, by the command line it ran with.
pub proof fn law_app_cmdline(term: Terminal, old: Window, new: Window, a: App)
    requires
        cmdline_set(term, old, new),
        old.wtype == WinType::App(a),
    ensures
        new.program.cmdline@ == match a.exec_cmd {
            Some(e) => e@,
            None => old.program.cmdline@,
        },
{
}

/// Terminals and plain windows keep their command lines, and with them
/// everything else.
pub proof fn law_cmdline_leaves_others(term: Terminal, old: Window, new: Window)
    requires
        cmdline_set(term, old, new),
        old.wtype == WinType::Terminal || old.wtype == WinType::Plain,
    ensures
        new == old,
{
}

/// Giving a window the command line that reopens it changes nothing but that
/// command line.
pub proof fn law_cmdline_keeps_window(term: Terminal, old: Window, new: Window)
    requires
        cmdline_set(term, old, new),
    ensures
        new.address == old.address,
        new.at == old.at,
        new.size == old.size,
        new.monitor == old.monitor,
        new.workspace == old.workspace,
        new.class == old.class,
        new.title == old.title,
        new.init_class == old.init_class,
        new.init_title == old.init_title,
        new.pinned == old.pinned,
        new.fullscreen == old.fullscreen,
        new.floating == old.floating,
        new.wtype == old.wtype,
        new.program.shell_id == old.program.shell_id,
        new.program.pid == old.program.pid,
        new.program.cwd == old.program.cwd,
        new.program.exe == old.program.exe,
{
}

/// The commands that saving runs for two runs of windows one after the
/// other are those of the first run, then those of the second.
pub proof fn law_save_commands_concat(s: Seq<Window>, t: Seq<Window>)
    ensures
        save_commands(s + t) == save_commands(s) + save_commands(t),
    decreases t.len(),
{
    if t.len() == 0 {
        assert(s + t =~= s);
        assert(save_commands(s) + save_commands(t) =~= save_commands(s));
    } else {
        law_save_commands_concat(s, t.drop_last());
        assert((s + t).drop_last() =~= s + t.drop_last());
        assert((s + t).last() == t.last());
    }
}

/// A window whose program or application has an `on_save` command `h`
/// contributes exactly one command on saving: `h` with `$$shell_id$$`, then
/// `$$pid$$`, replaced by the decimal ids of the window's own shell and
/// program.
pub proof fn law_save_command_of_window(w: Window, h: String)
    requires
        match w.wtype {
            WinType::CliApp(Some(c)) => c.on_save == Some(h),
            WinType::App(a) => a.on_save == Some(h),
            _ => false,
        },
    ensures
        save_commands(seq![w]) == seq![
            replace_all(
                replace_all(h@, shell_id_marker(), int_decimal(w.program.shell_id as int)),
                pid_marker(),
                int_decimal(w.program.pid as int),
            ),
        ],
{
    assert(seq![w].drop_last() =~= Seq::<Window>::empty());
    assert(seq![w].last() == w);
    assert(save_commands(Seq::<Window>::empty()) == Seq::<Seq<char>>::empty());
    let c = save_command(w)->Some_0;
    assert(Seq::<Seq<char>>::empty() + seq![c] =~= seq![c]);
}

/// A window that is neither a recognised command-line program nor an
/// application with an `on_save` command contributes no command on saving.
pub proof fn law_no_save_command(w: Window)
    requires
        match w.wtype {
            WinType::CliApp(Some(c)) => c.on_save is None,
            WinType::App(a) => a.on_save is None,
            _ => true,
        },
    ensures
        save_commands(seq![w]) == Seq::<Seq<char>>::empty(),
{
    assert(seq![w].drop_last() =~= Seq::<Window>::empty());
    assert(seq![w].last() == w);
    assert(save_commands(Seq::<Window>::empty()) == Seq::<Seq<char>>::empty());
    assert(save_commands(seq![w]) =~= Seq::<Seq<char>>::empty());
}

/// The open windows, one per address, in the order of their addresses, and
/// the configuration that classifies them.
pub struct WindowRegistry {
    data: Vec<Window>,
    config: General,
}

impl WindowRegistry {
    #[verifier::type_invariant]
    spec fn sorted(self) -> bool {
        sorted_by_address(self.data@)
    }

    /// The windows, in the order of their addresses.
    pub closed spec fn windows(self) -> Seq<Window> {
        self.data@
    }

    /// The configuration.
    pub closed spec fn settings(self) -> General {
        self.config
    }

    /// The windows are ordered by address, each address once.
    pub open spec fn well_formed(self) -> bool {
        sorted_by_address(self.windows())
    }

    /// The windows by address.
    pub open spec fn contents(self) -> Map<Seq<char>, Window> {
        addr_map(self.windows())
    }

    /// An empty registry with configuration `config`.
    pub fn new(config: General) -> (r: Self)
        ensures
            r.well_formed(),
            r.windows() == Seq::<Window>::empty(),
            r.settings() == config,
    {
        WindowRegistry { data: Vec::new(), config }
    }

    /// The configuration.
    pub fn config(&self) -> (r: &General)
        ensures
            *r == self.settings(),
            self.well_formed(),
    {
        proof {
            use_type_invariant(self);
        }
        &self.config
    }

    /// The position of the first window whose address does not come before
    /// `addr`.
    fn position(data: &Vec<Window>, addr: &String) -> (r: usize)
        requires
            sorted_by_address(data@),
        ensures
            r <= data@.len(),
            forall|i: int| 0 <= i < r ==> addr_lt(#[trigger] data@[i].address@, addr@),
            r < data@.len() ==> !addr_lt(data@[r as int].address@, addr@),
    {
        let mut j: usize = 0;
        while j < data.len() && addr_less(&data[j].address, addr)
            invariant
                j <= data@.len(),
                forall|i: int| 0 <= i < j ==> addr_lt(#[trigger] data@[i].address@, addr@),
            decreases data@.len() - j,
        {
            j = j + 1;
        }
        j
    }

    /// Puts `w` into the sorted `data`, in place of the window with the same
    /// address if there is one.
    fn put(data: &mut Vec<Window>, w: Window)
        requires
            sorted_by_address(old(data)@),
        ensures
            sorted_by_address(final(data)@),
            addr_map(final(data)@) == addr_map(old(data)@).insert(w.address@, w),
    {
        let ghost d = data@;
        let j = Self::position(data, &w.address);
        proof {
            lemma_sorted_addr_map(d);
        }
        if j < data.len() && data[j].address == w.address {
            let ghost k = w.address@;
            data.set(j, w);
            let ghost n = data@;
            assert(sorted_by_address(n)) by {
                assert forall|a: int, b: int| 0 <= a < b < n.len() implies addr_lt(
                    #[trigger] n[a].address@,
                    #[trigger] n[b].address@,
                ) by {
                    assert(d[a].address@ == n[a].address@);
                    assert(d[b].address@ == n[b].address@);
                }
            }
            proof {
                lemma_sorted_addr_map(n);
            }
            assert(addr_map(n) =~= addr_map(d).insert(k, n[j as int])) by {
                assert forall|key: Seq<char>| #[trigger] addr_map(n).contains_key(key) <==> addr_map(d).insert(k, n[j as int]).contains_key(key) by {
                    if addr_map(n).contains_key(key) {
                        let i = choose|i: int| 0 <= i < n.len() && #[trigger] n[i].address@ == key;
                        assert(d[i].address@ == key);
                    }
                    if addr_map(d).contains_key(key) {
                        let i = choose|i: int| 0 <= i < d.len() && #[trigger] d[i].address@ == key;
                        assert(n[i].address@ == key);
                    }
                }
                assert forall|key: Seq<char>| #[trigger] addr_map(n).contains_key(key) implies addr_map(n)[key] == addr_map(d).insert(k, n[j as int])[key] by {
                    let i = choose|i: int| 0 <= i < n.len() && #[trigger] n[i].address@ == key;
                    if i != j {
                        assert(d[i] == n[i]);
                        lemma_addr_lt_irreflexive(k);
                    }
                }
            }
        } else {
            let ghost k = w.address@;
            let ghost wv = w;
            proof {
                if j < d.len() {
                    lemma_addr_lt_total(k, d[j as int].address@);
                }
            }
            data.insert(j, w);
            let ghost n = data@;
            assert(n == d.insert(j as int, wv));
            assert(sorted_by_address(n)) by {
                assert forall|a: int, b: int| 0 <= a < b < n.len() implies addr_lt(
                    #[trigger] n[a].address@,
                    #[trigger] n[b].address@,
                ) by {
                    if a < j && b == j {
                    } else if a < j && b > j {
                        assert(n[b] == d[b - 1]);
                        if b - 1 > a {
                        }
                    } else if a == j {
                        assert(n[b] == d[b - 1]);
                        if b - 1 > j {
                            lemma_addr_lt_transitive(k, d[j as int].address@, d[b - 1].address@);
                        }
                    } else if a > j {
                        assert(n[a] == d[a - 1]);
                        assert(n[b] == d[b - 1]);
                    }
                }
            }
            proof {
                lemma_sorted_addr_map(n);
                assert(!addr_map(d).contains_key(k)) by {
                    if addr_map(d).contains_key(k) {
                        let i = choose|i: int| 0 <= i < d.len() && #[trigger] d[i].address@ == k;
                        if i < j {
                            lemma_addr_lt_irreflexive(k);
                        } else if i == j {
                        } else {
                            lemma_addr_lt_transitive(k, d[j as int].address@, d[i].address@);
                            lemma_addr_lt_irreflexive(k);
                        }
                    }
                }
            }
            assert(addr_map(n) =~= addr_map(d).insert(k, wv)) by {
                assert forall|key: Seq<char>| #[trigger] addr_map(n).contains_key(key) <==> addr_map(d).insert(k, wv).contains_key(key) by {
                    if addr_map(n).contains_key(key) {
                        let i = choose|i: int| 0 <= i < n.len() && #[trigger] n[i].address@ == key;
                        if i < j {
                            assert(d[i] == n[i]);
                        } else if i > j {
                            assert(d[i - 1] == n[i]);
                        }
                    }
                    if addr_map(d).contains_key(key) {
                        let i = choose|i: int| 0 <= i < d.len() && #[trigger] d[i].address@ == key;
                        if i < j {
                            assert(n[i] == d[i]);
                        } else {
                            assert(n[i + 1] == d[i]);
                        }
                    }
                }
                assert forall|key: Seq<char>| #[trigger] addr_map(n).contains_key(key) implies addr_map(n)[key] == addr_map(d).insert(k, wv)[key] by {
                    let i = choose|i: int| 0 <= i < n.len() && #[trigger] n[i].address@ == key;
                    if i < j {
                        assert(d[i] == n[i]);
                        lemma_addr_lt_irreflexive(k);
                    } else if i > j {
                        assert(d[i - 1] == n[i]);
                        assert(addr_lt(n[j as int].address@, n[i].address@));
                        lemma_addr_lt_irreflexive(k);
                    }
                }
            }
        }
    }

    /// Replaces the windows by those of `data`, by address: of windows with
    /// the same address the later one stays.
    pub fn update(&mut self, data: Vec<Window>)
        ensures
            final(self).well_formed(),
            final(self).contents() == addr_map(data@),
            final(self).settings() == old(self).settings(),
    {
        let mut res: Vec<Window> = Vec::new();
        let ghost all = data@;
        for w in it: data
            invariant
                all == it.seq(),
                sorted_by_address(res@),
                addr_map(res@) == addr_map(all.take(it.index() as int)),
        {
            let ghost i = it.index();
            assert(all.take(i + 1).drop_last() == all.take(i as int));
            Self::put(&mut res, w);
        }
        assert(all.take(all.len() as int) == all);
        self.data = res;
    }

    /// Whether a window with address `addr` is registered.
    pub fn contains_address(&self, addr: &String) -> (r: bool)
        ensures
            r == self.contents().contains_key(addr@),
    {
        let mut i: usize = 0;
        while i < self.data.len()
            invariant
                i <= self.data@.len(),
                forall|j: int| 0 <= j < i ==> #[trigger] self.data@[j].address@ != addr@,
            decreases self.data@.len() - i,
        {
            if self.data[i].address == *addr {
                proof {
                    lemma_addr_map_dom(self.data@, addr@);
                }
                return true;
            }
            i = i + 1;
        }
        proof {
            lemma_addr_map_dom(self.data@, addr@);
        }
        false
    }

    /// The windows of this registry whose address `other` does not hold, with
    /// this registry's configuration.
    pub fn difference(&self, other: &Self) -> (r: Self)
        ensures
            r.well_formed(),
            r.settings()@ == self.settings()@,
            r.windows() == self.windows().filter(not_held(other.contents())),
    {
        proof {
            use_type_invariant(&*self);
        }
        let ghost pred = not_held(other.contents());
        let mut res: Vec<Window> = Vec::new();
        let mut i: usize = 0;
        while i < self.data.len()
            invariant
                i <= self.data@.len(),
                res@ == self.data@.take(i as int).filter(pred),
                pred == not_held(other.contents()),
            decreases self.data@.len() - i,
        {
            proof {
                reveal(Seq::filter);
                assert(self.data@.take(i + 1).drop_last() == self.data@.take(i as int));
            }
            if !other.contains_address(&self.data[i].address) {
                res.push(self.data[i].clone());
            }
            i = i + 1;
        }
        assert(self.data@.take(self.data@.len() as int) == self.data@);
        proof {
            lemma_filter_sorted(self.data@, pred);
        }
        WindowRegistry { data: res, config: self.config.clone() }
    }

    /// The windows, in the order of their addresses.
    pub fn win_vec(&self) -> (r: Vec<&Window>)
        ensures
            r@.len() == self.windows().len(),
            forall|i: int| 0 <= i < r@.len() ==> *r@[i] == self.windows()[i],
    {
        let mut r: Vec<&Window> = Vec::new();
        let mut i: usize = 0;
        while i < self.data.len()
            invariant
                i <= self.data@.len(),
                r@.len() == i,
                forall|j: int| 0 <= j < i ==> *r@[j] == self.data@[j],
            decreases self.data@.len() - i,
        {
            r.push(&self.data[i]);
            i = i + 1;
        }
        r
    }

    /// The commands to run on saving: for each window in turn whose program
    /// or application has an `on_save` command, that command with its
    /// variables expanded.
    pub fn on_save(&self) -> (r: Vec<String>)
        ensures
            r@.map_values(|c: String| c@) == save_commands(self.windows()),
    {
        let mut r: Vec<String> = Vec::new();
        let mut i: usize = 0;
        while i < self.data.len()
            invariant
                i <= self.data@.len(),
                r@.map_values(|c: String| c@) == save_commands(self.data@.take(i as int)),
            decreases self.data@.len() - i,
        {
            let win = &self.data[i];
            let ghost before = r@;
            assert(self.data@.take(i + 1).drop_last() == self.data@.take(i as int));
            assert(self.data@.take(i + 1).last() == *win);
            match &win.wtype {
                WinType::CliApp(Some(cmd)) => match &cmd.on_save {
                    Some(save) => r.push(General::expand_vars(save.as_str(), win)),
                    None => {},
                },
                WinType::App(app) => match &app.on_save {
                    Some(save) => r.push(General::expand_vars(save.as_str(), win)),
                    None => {},
                },
                _ => {},
            }
            assert(r@.map_values(|c: String| c@) =~= save_commands(self.data@.take(i + 1)));
            i = i + 1;
        }
        assert(self.data@.take(self.data@.len() as int) == self.data@);
        r
    }

    /// Gives each window of a command-line program or an application the
    /// command line that reopens it.
    pub fn set_cmdline(&mut self)
        ensures
            final(self).well_formed(),
            final(self).settings() == old(self).settings(),
            final(self).windows().len() == old(self).windows().len(),
            forall|i: int|
                0 <= i < old(self).windows().len() ==> cmdline_set(
                    old(self).settings().terminal,
                    #[trigger] old(self).windows()[i],
                    final(self).windows()[i],
                ),
    {
        proof {
            use_type_invariant(&*self);
        }
        let mut old_data: Vec<Window> = Vec::new();
        std::mem::swap(&mut old_data, &mut self.data);
        let ghost od = old_data@;
        let mut res: Vec<Window> = Vec::new();
        for w in it: old_data
            invariant
                od == it.seq(),
                res@.len() == it.index(),
                sorted_by_address(od),
                forall|j: int| 0 <= j < res@.len() ==> #[trigger] res@[j].address@ == od[j].address@,
                forall|j: int|
                    0 <= j < res@.len() ==> cmdline_set(self.config.terminal, #[trigger] od[j], res@[j]),
        {
            let mut win = w;
            let new_cmdline: Option<String> = match &win.wtype {
                WinType::CliApp(cli) => {
                    let exec_cmd: &String = match cli {
                        Some(c) => match &c.exec_cmd {
                            Some(e) => e,
                            None => &win.program.cmdline,
                        },
                        None => &win.program.cmdline,
                    };
                    Some(self.config.terminal.prepare_cli(exec_cmd.as_str(), &win))
                },
                WinType::App(app) => match &app.exec_cmd {
                    Some(e) => Some(e.clone()),
                    None => Some(win.program.cmdline.clone()),
                },
                _ => None,
            };
            match new_cmdline {
                Some(c) => {
                    win.program.cmdline = c;
                },
                None => {},
            }
            res.push(win);
        }
        assert(sorted_by_address(res@)) by {
            assert forall|a: int, b: int| 0 <= a < b < res@.len() implies addr_lt(
                #[trigger] res@[a].address@,
                #[trigger] res@[b].address@,
            ) by {
                assert(res@[a].address@ == od[a].address@);
                assert(res@[b].address@ == od[b].address@);
            }
        }
        self.data = res;
    }

    /// What stops classifying the windows, taken in order, if anything.
    pub fn classification_error(&self, procs: &ProcTable) -> (r: Option<SaveError>)
        ensures
            r == first_classify_error(self.settings(), *procs, self.windows()),
    {
        let mut i: usize = 0;
        assert(self.data@.skip(0) == self.data@);
        while i < self.data.len()
            invariant
                i <= self.data@.len(),
                first_classify_error(self.config, *procs, self.data@) == first_classify_error(
                    self.config,
                    *procs,
                    self.data@.skip(i as int),
                ),
            decreases self.data@.len() - i,
        {
            assert(self.data@.skip(i as int)[0] == self.data@[i as int]);
            assert(self.data@.skip(i as int).drop_first() == self.data@.skip(i + 1));
            match window_classify_error(&self.config, procs, &self.data[i]) {
                Some(e) => {
                    return Some(e);
                },
                None => {},
            }
            i = i + 1;
        }
        None
    }

    /// Classifies each window: terminal, command-line program, application
    /// or plain window, with the shell, process and command line that go
    /// with it.
    pub fn set_program_type(&mut self, procs: &ProcTable)
        requires
            forall|i: int|
                0 <= i < old(self).windows().len() ==> classify_error(
                    old(self).settings(),
                    *procs,
                    #[trigger] old(self).windows()[i],
                ) is None,
        ensures
            final(self).well_formed(),
            final(self).settings() == old(self).settings(),
            final(self).windows().len() == old(self).windows().len(),
            forall|i: int|
                0 <= i < old(self).windows().len() ==> program_typed(
                    old(self).settings(),
                    *procs,
                    #[trigger] old(self).windows()[i],
                    final(self).windows()[i],
                ),
    {
        proof {
            use_type_invariant(&*self);
        }
        let mut old_data: Vec<Window> = Vec::new();
        std::mem::swap(&mut old_data, &mut self.data);
        let ghost od = old_data@;
        assert(od == old(self).windows());
        assert(self.config == old(self).settings());
        let mut res: Vec<Window> = Vec::new();
        for w in it: old_data
            invariant
                od == it.seq(),
                res@.len() == it.index(),
                sorted_by_address(od),
                forall|j: int|
                    0 <= j < od.len() ==> classify_error(self.config, *procs, #[trigger] od[j]) is None,
                forall|j: int| 0 <= j < res@.len() ==> #[trigger] res@[j].address@ == od[j].address@,
                forall|j: int|
                    0 <= j < res@.len() ==> program_typed(self.config, *procs, #[trigger] od[j], res@[j]),
        {
            let mut win = w;
            assert(classify_error(self.config, *procs, od[it.index() as int]) is None);
            if self.config.terminal.is_match(&win) {
                win.wtype = WinType::Terminal;
                win.program.cmdline = self.config.terminal.bin.clone();
                let shells = procs.get_child_pids(win.program.pid);
                if shells.len() > 0 {
                    let shell = shells[0];
                    win.program.shell_id = shell;
                    let kids = procs.get_child_pids(shell);
                    if kids.len() > 0 {
                        let cpid = kids[0];
                        match procs.get_cmdline(cpid) {
                            Some(c) => {
                                win.program.cmdline = c;
                            },
                            None => {},
                        }
                        win.program.pid = cpid;
                        let cli_app = find_cli(&self.config.cli, &win);
                        win.wtype = WinType::CliApp(cli_app);
                    }
                }
            } else {
                match procs.get_cmdline(win.program.pid) {
                    Some(c) => {
                        win.program.cmdline = c;
                    },
                    None => {},
                }
                win.wtype = match find_app(&self.config.app, &win) {
                    Some(a) => WinType::App(a),
                    None => WinType::Plain,
                };
            }
            res.push(win);
        }
        assert(sorted_by_address(res@)) by {
            assert forall|a: int, b: int| 0 <= a < b < res@.len() implies addr_lt(
                #[trigger] res@[a].address@,
                #[trigger] res@[b].address@,
            ) by {
                assert(res@[a].address@ == od[a].address@);
                assert(res@[b].address@ == od[b].address@);
            }
        }
        self.data = res;
    }
}

} // verus!
