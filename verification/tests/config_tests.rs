use atosaki::config::{App, Cli, General, Terminal};
use atosaki::window::{Program, WinType, Window};

fn win(class: &str, title: &str, cmdline: &str, shell_id: i32, pid: i32) -> Window {
    Window {
        address: "0x1".to_string(),
        at: (0, 0),
        size: (1, 1),
        monitor: 0,
        workspace: 1,
        class: class.to_string(),
        title: title.to_string(),
        init_class: class.to_string(),
        init_title: title.to_string(),
        pinned: false,
        fullscreen: 0,
        floating: false,
        program: Program { shell_id, pid, cwd: String::new(), exe: String::new(), cmdline: cmdline.to_string() },
        wtype: WinType::Plain,
    }
}

fn terminal() -> Terminal {
    Terminal { class: "kitty".to_string(), bin: "kitty".to_string(), restore_cmd: "kitty --hold $$cmd$$".to_string() }
}

#[test]
fn expand_vars_replaces_both_markers() {
    let w = win("c", "t", "", -3, 4012);
    assert_eq!(General::expand_vars("kill -USR1 $$pid$$ # $$shell_id$$", &w), "kill -USR1 4012 # -3");
    assert_eq!(General::expand_vars("plain", &w), "plain");
    assert_eq!(General::expand_vars("$$pid$$$$pid$$", &w), "40124012");
}

#[test]
fn prepare_cli_wraps_the_command() {
    let w = win("kitty", "t", "", 7, 8);
    assert_eq!(terminal().prepare_cli("htop -p $$pid$$", &w), "kitty --hold htop -p 8");
}

#[test]
fn matching_is_literal() {
    let t = Terminal { class: "a.c".to_string(), bin: String::new(), restore_cmd: String::new() };
    assert!(t.is_match(&win("xa.cx", "", "", 0, 0)));
    assert!(!t.is_match(&win("abc", "", "", 0, 0)));
    let c = Cli { match_exe: "(nvim)".to_string(), exec_cmd: None, on_save: None, on_restore: None };
    assert!(c.is_match(&win("", "", "/usr/bin/(nvim) x", 0, 0)));
    assert!(!c.is_match(&win("", "", "nvim", 0, 0)));
    let a = App { class: "Firefox".to_string(), title: "Gmail".to_string(), exec_cmd: None, on_save: None, on_restore: None };
    assert!(a.is_match(&win("firefox", "Inbox - Gmail", "", 0, 0)));
    assert!(a.is_match(&win("Firefox", "x", "", 0, 0)));
    assert!(!a.is_match(&win("firefox", "mail", "", 0, 0)));
}
