//! The configuration: which windows are terminals, command-line programs or
//! known applications, and the commands that save and restore them.

use vstd::prelude::*;
use crate::matching::{literal_compiles, literal_is_match};
use crate::text::{
    chars_of, contains, decimal, int_decimal, law_replace_absent, lemma_int_decimal_chars, occurs_at,
    replace_all, replace_chars, string_of,
};
use crate::window::Window;

verus! {

/// The whole configuration.
pub struct General {
    pub app: Vec<App>,
    pub cli: Vec<Cli>,
    pub terminal: Terminal,
}

/// A command-line program that runs inside a terminal, recognised by the
/// text `match_exe` in its command line.
pub struct Cli {
    pub match_exe: String,
    pub exec_cmd: Option<String>,
    pub on_save: Option<String>,
    pub on_restore: Option<String>,
}

/// A graphical application, recognised by its window class or title.
pub struct App {
    pub class: String,
    pub title: String,
    pub exec_cmd: Option<String>,
    pub on_save: Option<String>,
    pub on_restore: Option<String>,
}

/// The terminal emulator: its window class, its binary, and the command that
/// reopens it running a given command (`$$cmd$$` in it stands for that command).
pub struct Terminal {
    pub class: String,
    pub bin: String,
    pub restore_cmd: String,
}

fn clone_opt(o: &Option<String>) -> (r: Option<String>)
    ensures
        r == *o,
{
    match o {
        Some(s) => Some(s.clone()),
        None => None,
    }
}

impl Clone for Cli {
    fn clone(&self) -> (r: Self)
        ensures
            r == *self,
    {
        Cli {
            match_exe: self.match_exe.clone(),
            exec_cmd: clone_opt(&self.exec_cmd),
            on_save: clone_opt(&self.on_save),
            on_restore: clone_opt(&self.on_restore),
        }
    }
}

impl Clone for App {
    fn clone(&self) -> (r: Self)
        ensures
            r == *self,
    {
        App {
            class: self.class.clone(),
            title: self.title.clone(),
            exec_cmd: clone_opt(&self.exec_cmd),
            on_save: clone_opt(&self.on_save),
            on_restore: clone_opt(&self.on_restore),
        }
    }
}

impl Clone for Terminal {
    fn clone(&self) -> (r: Self)
        ensures
            r == *self,
    {
        Terminal {
            class: self.class.clone(),
            bin: self.bin.clone(),
            restore_cmd: self.restore_cmd.clone(),
        }
    }
}

/// The configuration as values: its applications, its command-line programs
/// and its terminal.
pub struct ConfigView {
    pub app: Seq<App>,
    pub cli: Seq<Cli>,
    pub terminal: Terminal,
}

impl View for General {
    type V = ConfigView;

    open spec fn view(&self) -> ConfigView {
        ConfigView { app: self.app@, cli: self.cli@, terminal: self.terminal }
    }
}

impl Clone for General {
    fn clone(&self) -> (r: Self)
        ensures
            r@ == self@,
    {
        let mut app: Vec<App> = Vec::new();
        let mut i: usize = 0;
        while i < self.app.len()
            invariant
                i <= self.app@.len(),
                app@ == self.app@.take(i as int),
            decreases self.app@.len() - i,
        {
            app.push(self.app[i].clone());
            i = i + 1;
            assert(self.app@.take(i as int) == self.app@.take(i - 1).push(self.app@[i - 1]));
        }
        let mut cli: Vec<Cli> = Vec::new();
        let mut i: usize = 0;
        while i < self.cli.len()
            invariant
                i <= self.cli@.len(),
                cli@ == self.cli@.take(i as int),
            decreases self.cli@.len() - i,
        {
            cli.push(self.cli[i].clone());
            i = i + 1;
            assert(self.cli@.take(i as int) == self.cli@.take(i - 1).push(self.cli@[i - 1]));
        }
        assert(self.app@.take(self.app@.len() as int) == self.app@);
        assert(self.cli@.take(self.cli@.len() as int) == self.cli@);
        General { app, cli, terminal: self.terminal.clone() }
    }
}

/// The placeholder for the shell's process id: `$$shell_id$$`.
pub open spec fn shell_id_marker() -> Seq<char> {
    seq!['$', '$', 's', 'h', 'e', 'l', 'l', '_', 'i', 'd', '$', '$']
}

/// The placeholder for the program's process id: `$$pid$$`.
pub open spec fn pid_marker() -> Seq<char> {
    seq!['$', '$', 'p', 'i', 'd', '$', '$']
}

/// The placeholder for the command in the terminal's restore command: `$$cmd$$`.
pub open spec fn cmd_marker() -> Seq<char> {
    seq!['$', '$', 'c', 'm', 'd', '$', '$']
}

/// `cmd` with `$$shell_id$$`, then `$$pid$$`, replaced by the decimal
/// process ids of the window's shell and program.
pub open spec fn expanded(cmd: Seq<char>, shell_id: i32, pid: i32) -> Seq<char> {
    replace_all(
        replace_all(cmd, shell_id_marker(), int_decimal(shell_id as int)),
        pid_marker(),
        int_decimal(pid as int),
    )
}

/// A placeholder standing alone expands to its id: `$$shell_id$$` to the
/// shell's process id and `$$pid$$` to the program's, each in decimal.
pub proof fn law_expand_markers(shell_id: i32, pid: i32)
    ensures
        expanded(shell_id_marker(), shell_id, pid) == int_decimal(shell_id as int),
        expanded(pid_marker(), shell_id, pid) == int_decimal(pid as int),
{
    let s = int_decimal(shell_id as int);
    let p = int_decimal(pid as int);
    let e = Seq::<char>::empty();
    assert(shell_id_marker().take(shell_id_marker().len() as int) =~= shell_id_marker());
    assert(shell_id_marker().skip(shell_id_marker().len() as int) =~= e);
    assert(replace_all(e, shell_id_marker(), s) == e);
    assert(replace_all(shell_id_marker(), shell_id_marker(), s) =~= s);
    lemma_int_decimal_chars(shell_id as int);
    assert(!contains(s, pid_marker())) by {
        if contains(s, pid_marker()) {
            let i = choose|i: int| occurs_at(s, pid_marker(), i);
            assert(s.subrange(i, i + 7)[0] == s[i]);
        }
    }
    law_replace_absent(s, pid_marker(), p);
    assert(replace_all(pid_marker(), shell_id_marker(), s) == pid_marker());
    assert(pid_marker().take(pid_marker().len() as int) =~= pid_marker());
    assert(pid_marker().skip(pid_marker().len() as int) =~= e);
    assert(replace_all(e, pid_marker(), p) == e);
    assert(replace_all(pid_marker(), pid_marker(), p) =~= p);
}

/// A command with no `$` in it has no placeholder and expands to itself.
pub proof fn law_expand_plain(cmd: Seq<char>, shell_id: i32, pid: i32)
    requires
        forall|i: int| 0 <= i < cmd.len() ==> cmd[i] != '$',
    ensures
        expanded(cmd, shell_id, pid) == cmd,
{
    assert(!contains(cmd, shell_id_marker())) by {
        if contains(cmd, shell_id_marker()) {
            let i = choose|i: int| occurs_at(cmd, shell_id_marker(), i);
            assert(cmd.subrange(i, i + 12)[0] == cmd[i]);
        }
    }
    law_replace_absent(cmd, shell_id_marker(), int_decimal(shell_id as int));
    assert(!contains(cmd, pid_marker())) by {
        if contains(cmd, pid_marker()) {
            let i = choose|i: int| occurs_at(cmd, pid_marker(), i);
            assert(cmd.subrange(i, i + 7)[0] == cmd[i]);
        }
    }
    law_replace_absent(cmd, pid_marker(), int_decimal(pid as int));
}

impl General {
    /// `cmd` with `$$shell_id$$`, then `$$pid$$`, replaced by the process ids
    /// of the window's shell and program.
    pub fn expand_vars(cmd: &str, win: &Window) -> (r: String)
        ensures
            r@ == expanded(cmd@, win.program.shell_id, win.program.pid),
    {
        let c = chars_of(cmd);
        let shell = vec!['$', '$', 's', 'h', 'e', 'l', 'l', '_', 'i', 'd', '$', '$'];
        let pid = vec!['$', '$', 'p', 'i', 'd', '$', '$'];
        let step = replace_chars(&c, &shell, &decimal(win.program.shell_id as i64));
        let done = replace_chars(&step, &pid, &decimal(win.program.pid as i64));
        string_of(&done)
    }
}

impl Terminal {
    /// Whether `win` is a window of this terminal: its class contains the
    /// terminal's class.
    pub open spec fn matches(self, win: Window) -> bool {
        contains(win.class@, self.class@)
    }

    /// The command that reopens this terminal running `cmd`: the restore
    /// command with `$$cmd$$` replaced by `cmd` with its variables expanded.
    pub open spec fn restore_command(self, cmd: Seq<char>, win: Window) -> Seq<char> {
        replace_all(
            self.restore_cmd@,
            cmd_marker(),
            expanded(cmd, win.program.shell_id, win.program.pid),
        )
    }

    /// Whether `win` is a window of this terminal.
    pub fn is_match(&self, win: &Window) -> (r: bool)
        requires
            literal_compiles(self.class@),
        ensures
            r == self.matches(*win),
    {
        literal_is_match(self.class.as_str(), win.class.as_str())
    }

    /// The command that reopens this terminal running `cmd`.
    pub fn prepare_cli(&self, cmd: &str, win: &Window) -> (r: String)
        ensures
            r@ == self.restore_command(cmd@, *win),
    {
        let restore = chars_of(self.restore_cmd.as_str());
        let marker = vec!['$', '$', 'c', 'm', 'd', '$', '$'];
        let expanded_cmd = chars_of(General::expand_vars(cmd, win).as_str());
        string_of(&replace_chars(&restore, &marker, &expanded_cmd))
    }
}

impl Cli {
    /// Whether `win` runs this program: its command line contains `match_exe`.
    pub open spec fn matches(self, win: Window) -> bool {
        contains(win.program.cmdline@, self.match_exe@)
    }

    /// Whether `win` runs this program.
    pub fn is_match(&self, win: &Window) -> (r: bool)
        requires
            literal_compiles(self.match_exe@),
        ensures
            r == self.matches(*win),
    {
        literal_is_match(self.match_exe.as_str(), win.program.cmdline.as_str())
    }
}

impl App {
    /// Whether `win` belongs to this application: its class contains the
    /// application's class, or its title contains the application's title.
    pub open spec fn matches(self, win: Window) -> bool {
        contains(win.class@, self.class@) || contains(win.title@, self.title@)
    }

    /// Whether `win` belongs to this application.
    pub fn is_match(&self, win: &Window) -> (r: bool)
        requires
            literal_compiles(self.class@),
            literal_compiles(self.title@),
        ensures
            r == self.matches(*win),
    {
        let by_class = literal_is_match(self.class.as_str(), win.class.as_str());
        let by_title = literal_is_match(self.title.as_str(), win.title.as_str());
        by_class || by_title
    }
}

} // verus!
