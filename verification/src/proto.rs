//! The first session tool: it saves the terminal windows (and the editor
//! sessions running in them) and reopens them through Hyprland's socket.

use vstd::prelude::*;
use crate::text::{same_text, chars_of, int_decimal, parse_i32, parse_i32_chars, push_all, push_int, string_of};

verus! {

/// What a saved terminal window runs.
#[derive(Debug, Clone, Copy, PartialEq, Eq, Structural)]
pub enum Type {
    Shell,
    Nvim,
}

/// A saved terminal window.
#[derive(Debug)]
pub struct WindowData {
    pub at: [u16; 2],
    pub size: [u16; 2],
    pub class: Type,
    pub shell_id: i32,
    pub workspace: u8,
    pub cwd: String,
}

/// The directory where editor sessions are kept.
pub open spec fn nvim_cache_dir() -> Seq<char> {
    "/home/yamabiko/.cache/nvim/session/"@
}

/// The class of the terminal windows that are saved.
pub open spec fn terminal_class() -> Seq<char> {
    "Alacritty"@
}

/// Whether a window of class `class` is saved.
pub fn is_saved_class(class: &str) -> (r: bool)
    ensures
        r == (class@ == terminal_class()),
{
    same_text(class, "Alacritty")
}

/// The program that a saved terminal runs when it runs the editor.
pub open spec fn editor_program() -> Seq<char> {
    "nvim"@
}

/// Whether a process whose first argument is `argv0` is the editor.
pub fn is_editor(argv0: &str) -> (r: bool)
    ensures
        r == (argv0@ == editor_program()),
{
    same_text(argv0, "nvim")
}

/// The shell process id that a terminal window's title holds, if it holds one.
pub fn shell_id_of_title(title: &str) -> (r: Option<i32>)
    ensures
        r == parse_i32(title@),
{
    parse_i32_chars(&chars_of(title))
}

/// The editor's socket for the terminal whose shell is `shell_id`.
pub open spec fn nvim_socket_text(shell_id: i32) -> Seq<char> {
    nvim_cache_dir() + int_decimal(shell_id as int) + ".socket"@
}

/// The file where the editor session of the terminal whose shell is
/// `shell_id` is kept.
pub open spec fn nvim_cache_text(shell_id: i32) -> Seq<char> {
    nvim_cache_dir() + int_decimal(shell_id as int) + ".cache"@
}

/// The editor command that writes the session of the terminal whose shell
/// is `shell_id`.
pub open spec fn mksession_text(shell_id: i32) -> Seq<char> {
    "mksession! "@ + nvim_cache_text(shell_id)
}

/// The editor's socket for the terminal whose shell is `shell_id`.
pub fn nvim_socket_path(shell_id: i32) -> (r: String)
    ensures
        r@ == nvim_socket_text(shell_id),
{
    let mut c = chars_of("/home/yamabiko/.cache/nvim/session/");
    push_int(&mut c, shell_id as i64);
    push_all(&mut c, &chars_of(".socket"));
    string_of(&c)
}

/// The file where the editor session of the terminal whose shell is
/// `shell_id` is kept.
pub fn nvim_cache_path(shell_id: i32) -> (r: String)
    ensures
        r@ == nvim_cache_text(shell_id),
{
    let mut c = chars_of("/home/yamabiko/.cache/nvim/session/");
    push_int(&mut c, shell_id as i64);
    push_all(&mut c, &chars_of(".cache"));
    string_of(&c)
}

/// The editor command that writes the session of the terminal whose shell
/// is `shell_id`.
pub fn mksession_command(shell_id: i32) -> (r: String)
    ensures
        r@ == mksession_text(shell_id),
{
    let mut c = chars_of("mksession! ");
    push_all(&mut c, &chars_of(nvim_cache_path(shell_id).as_str()));
    string_of(&c)
}

/// The command that reopens a saved terminal: the terminal in the saved
/// working directory, running the editor on the saved session and then an
/// interactive shell when the terminal ran the editor.
pub open spec fn restore_text(w: WindowData) -> Seq<char> {
    let base = "~/Projects/alacritty/target/release/alacritty --working-directory "@ + w.cwd@;
    match w.class {
        Type::Nvim => base + " -e bash -c 'nvim "@ + " -S "@ + nvim_cache_text(w.shell_id)
            + "; bash -i'"@,
        Type::Shell => base,
    }
}

/// The request that asks Hyprland to reopen a saved terminal on the next
/// workspace number, floating, with its size and at its position.
pub open spec fn dispatch_text(w: WindowData) -> Seq<char> {
    "dispatch exec [workspace "@ + int_decimal(w.workspace + 1) + " silent; float; size "@
        + int_decimal(w.size[0] as int) + ", "@ + int_decimal(w.size[1] as int) + "; move "@
        + int_decimal(w.at[0] as int) + ", "@ + int_decimal(w.at[1] as int) + "; pseudo;] "@
        + restore_text(w)
}

/// The command that reopens a saved terminal.
pub fn restore_command(w: &WindowData) -> (r: String)
    ensures
        r@ == restore_text(*w),
{
    let mut c = chars_of("~/Projects/alacritty/target/release/alacritty --working-directory ");
    push_all(&mut c, &chars_of(w.cwd.as_str()));
    match w.class {
        Type::Nvim => {
            push_all(&mut c, &chars_of(" -e bash -c 'nvim "));
            push_all(&mut c, &chars_of(" -S "));
            push_all(&mut c, &chars_of(nvim_cache_path(w.shell_id).as_str()));
            push_all(&mut c, &chars_of("; bash -i'"));
        },
        Type::Shell => {},
    }
    string_of(&c)
}

/// The request that asks Hyprland to reopen a saved terminal.
pub fn dispatch_request(w: &WindowData) -> (r: String)
    requires
        w.workspace < 255,
    ensures
        r@ == dispatch_text(*w),
{
    let mut c = chars_of("dispatch exec [workspace ");
    push_int(&mut c, (w.workspace + 1) as i64);
    push_all(&mut c, &chars_of(" silent; float; size "));
    push_int(&mut c, w.size[0] as i64);
    push_all(&mut c, &chars_of(", "));
    push_int(&mut c, w.size[1] as i64);
    push_all(&mut c, &chars_of("; move "));
    push_int(&mut c, w.at[0] as i64);
    push_all(&mut c, &chars_of(", "));
    push_int(&mut c, w.at[1] as i64);
    push_all(&mut c, &chars_of("; pseudo;] "));
    push_all(&mut c, &chars_of(restore_command(w).as_str()));
    string_of(&c)
}

/// The request that reopens a saved terminal places it first: it begins
/// `dispatch exec [workspace W silent; float; size ` with the next workspace
/// number; and it ends with the very command that reopens that terminal, for a
/// shell and for an editor alike.
pub proof fn law_dispatch_runs_restore(w: WindowData)
    ensures
        ({
            let t = dispatch_text(w);
            let head = "dispatch exec [workspace "@ + int_decimal(w.workspace + 1)
                + " silent; float; size "@;
            &&& head.len() + restore_text(w).len() <= t.len()
            &&& t.take(head.len() as int) == head
            &&& t.skip(t.len() - restore_text(w).len()) == restore_text(w)
        }),
{
    let t = dispatch_text(w);
    let head = "dispatch exec [workspace "@ + int_decimal(w.workspace + 1) + " silent; float; size "@;
    let mid = int_decimal(w.size[0] as int) + ", "@ + int_decimal(w.size[1] as int) + "; move "@
        + int_decimal(w.at[0] as int) + ", "@ + int_decimal(w.at[1] as int) + "; pseudo;] "@;
    assert(t =~= head + mid + restore_text(w));
    assert(t.take(head.len() as int) =~= head);
    assert(t.skip(t.len() - restore_text(w).len()) =~= restore_text(w));
}

/// A saved shell is reopened by the terminal in its working directory and
/// nothing more.
pub proof fn law_restore_shell(w: WindowData)
    requires
        w.class == Type::Shell,
    ensures
        restore_text(w) == "~/Projects/alacritty/target/release/alacritty --working-directory "@ + w.cwd@,
{
}

/// A saved editor is reopened as the shell in the same directory would be,
/// followed by running the editor on the session file kept for its shell,
/// then an interactive shell.
pub proof fn law_restore_editor(w: WindowData)
    requires
        w.class == Type::Nvim,
    ensures
        restore_text(w) == "~/Projects/alacritty/target/release/alacritty --working-directory "@
            + w.cwd@ + " -e bash -c 'nvim "@ + " -S "@ + "/home/yamabiko/.cache/nvim/session/"@
            + int_decimal(w.shell_id as int) + ".cache"@ + "; bash -i'"@,
        restore_text(w) == restore_text(WindowData { class: Type::Shell, ..w }) + " -e bash -c 'nvim "@
            + " -S "@ + "/home/yamabiko/.cache/nvim/session/"@ + int_decimal(w.shell_id as int) + ".cache"@
            + "; bash -i'"@,
{
    let base = "~/Projects/alacritty/target/release/alacritty --working-directory "@ + w.cwd@;
    let sid = int_decimal(w.shell_id as int);
    assert(restore_text(w) =~= base + " -e bash -c 'nvim "@ + " -S "@ + "/home/yamabiko/.cache/nvim/session/"@
        + sid + ".cache"@ + "; bash -i'"@);
}

} // verus!
