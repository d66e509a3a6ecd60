use atosaki::config::{App, Cli, General, Terminal};
use atosaki::procinfo::{ProcEntry, ProcTable};
use atosaki::session::{SaveError, Session};
use atosaki::window::{Program, WinType, Window, WindowRegistry};

fn win(address: &str, class: &str, title: &str, pid: i32) -> Window {
    Window {
        address: address.to_string(),
        at: (10, -20),
        size: (800, 600),
        monitor: 0,
        workspace: 3,
        class: class.to_string(),
        title: title.to_string(),
        init_class: class.to_string(),
        init_title: title.to_string(),
        pinned: false,
        fullscreen: 0,
        floating: true,
        program: Program {
            shell_id: 0,
            pid,
            cwd: String::new(),
            exe: String::new(),
            cmdline: String::new(),
        },
        wtype: WinType::Plain,
    }
}

fn config() -> General {
    General {
        app: vec![App {
            class: "firefox".to_string(),
            title: "Mozilla".to_string(),
            exec_cmd: Some("firefox --restore".to_string()),
            on_save: Some("echo saving $$pid$$".to_string()),
            on_restore: None,
        }],
        cli: vec![Cli {
            match_exe: "nvim".to_string(),
            exec_cmd: None,
            on_save: Some("nvim --server /tmp/$$shell_id$$ --remote-send ':mksession<CR>'".to_string()),
            on_restore: None,
        }],
        terminal: Terminal {
            class: "Alacritty".to_string(),
            bin: "alacritty".to_string(),
            restore_cmd: "alacritty -e $$cmd$$".to_string(),
        },
    }
}

fn addresses(r: &WindowRegistry) -> Vec<String> {
    r.win_vec().iter().map(|w| w.address.clone()).collect()
}

#[test]
fn update_orders_by_address_and_keeps_the_last() {
    let mut r = WindowRegistry::new(config());
    r.update(vec![win("0xb", "x", "first", 1), win("0xa", "y", "a", 2), win("0xb", "z", "second", 3)]);
    assert_eq!(addresses(&r), vec!["0xa".to_string(), "0xb".to_string()]);
    assert_eq!(r.win_vec()[1].title, "second");
    assert!(r.contains_address(&"0xa".to_string()));
    assert!(!r.contains_address(&"0xc".to_string()));
    r.update(vec![]);
    assert!(r.win_vec().is_empty());
}

#[test]
fn update_orders_like_strings() {
    let mut r = WindowRegistry::new(config());
    let mut addrs = vec!["b", "a", "ab", "", "é", "z", "B", "aa"];
    r.update(addrs.iter().enumerate().map(|(i, a)| win(a, "c", "t", i as i32)).collect());
    addrs.sort();
    assert_eq!(addresses(&r), addrs.iter().map(|a| a.to_string()).collect::<Vec<_>>());
}

#[test]
fn difference_keeps_what_the_other_lacks() {
    let mut saved = WindowRegistry::new(config());
    saved.update(vec![win("1", "a", "a", 1), win("2", "b", "b", 2), win("3", "c", "c", 3)]);
    let mut open = WindowRegistry::new(config());
    open.update(vec![win("2", "b", "b", 2), win("4", "d", "d", 4)]);
    let d = saved.difference(&open);
    assert_eq!(addresses(&d), vec!["1".to_string(), "3".to_string()]);
    assert!(saved.difference(&saved).win_vec().is_empty());
    let empty = WindowRegistry::new(config());
    assert_eq!(addresses(&saved.difference(&empty)), addresses(&saved));
}

#[test]
fn on_save_expands_variables() {
    let mut r = WindowRegistry::new(config());
    let mut a = win("1", "firefox", "Mozilla Firefox", 55);
    a.wtype = WinType::App(config().app[0].clone());
    let mut b = win("2", "Alacritty", "zsh", 66);
    b.program.shell_id = 77;
    b.wtype = WinType::CliApp(Some(config().cli[0].clone()));
    let mut c = win("3", "Alacritty", "zsh", 88);
    c.wtype = WinType::CliApp(None);
    r.update(vec![a, b, c]);
    assert_eq!(
        r.on_save(),
        vec![
            "echo saving 55".to_string(),
            "nvim --server /tmp/77 --remote-send ':mksession<CR>'".to_string()
        ]
    );
}

#[test]
fn set_cmdline_restores_programs() {
    let mut r = WindowRegistry::new(config());
    let mut a = win("1", "firefox", "Mozilla Firefox", 55);
    a.wtype = WinType::App(config().app[0].clone());
    let mut b = win("2", "Alacritty", "zsh", 66);
    b.program.cmdline = "nvim notes.md".to_string();
    b.program.shell_id = 5;
    b.wtype = WinType::CliApp(Some(config().cli[0].clone()));
    let mut c = win("3", "Plain", "x", 1);
    c.program.cmdline = "xclock".to_string();
    r.update(vec![a, b, c]);
    r.set_cmdline();
    let w = r.win_vec();
    assert_eq!(w[0].program.cmdline, "firefox --restore");
    assert_eq!(w[1].program.cmdline, "alacritty -e nvim notes.md");
    assert_eq!(w[2].program.cmdline, "xclock");
}

fn procs() -> ProcTable {
    ProcTable {
        entries: vec![
            ProcEntry { pid: 100, children: Some("101".to_string()), cmdline: Some("alacritty\0".to_string()) },
            ProcEntry { pid: 101, children: Some("102 103".to_string()), cmdline: Some("zsh\0".to_string()) },
            ProcEntry { pid: 102, children: Some(String::new()), cmdline: Some("nvim\0todo.md\0".to_string()) },
            ProcEntry { pid: 200, children: Some(String::new()), cmdline: Some("firefox\0".to_string()) },
            ProcEntry { pid: 300, children: Some(String::new()), cmdline: Some(" xclock ".to_string()) },
            ProcEntry { pid: 400, children: Some("401".to_string()), cmdline: Some("alacritty".to_string()) },
            ProcEntry { pid: 401, children: Some(String::new()), cmdline: Some("bash".to_string()) },
        ],
    }
}

#[test]
fn set_program_type_classifies() {
    let mut r = WindowRegistry::new(config());
    r.update(vec![
        win("1", "Alacritty", "nvim", 100),
        win("2", "firefox", "page", 200),
        win("3", "XClock", "clock", 300),
        win("4", "Alacritty", "bash", 400),
    ]);
    assert_eq!(r.classification_error(&procs()), None);
    r.set_program_type(&procs());
    let w = r.win_vec();
    assert_eq!(w[0].program.pid, 102);
    assert_eq!(w[0].program.shell_id, 101);
    assert_eq!(w[0].program.cmdline, "nvim todo.md");
    assert!(matches!(&w[0].wtype, WinType::CliApp(Some(c)) if c.match_exe == "nvim"));
    assert_eq!(w[1].program.cmdline, "firefox");
    assert!(matches!(&w[1].wtype, WinType::App(a) if a.class == "firefox"));
    assert_eq!(w[2].program.cmdline, "xclock");
    assert!(matches!(w[2].wtype, WinType::Plain));
    assert_eq!(w[3].program.pid, 400);
    assert_eq!(w[3].program.shell_id, 401);
    assert_eq!(w[3].program.cmdline, "alacritty");
    assert!(matches!(w[3].wtype, WinType::Terminal));
}

#[test]
fn save_plans_and_refuses() {
    let mut s = Session::new(config(), ());
    let cmds = s.save(vec![win("1", "Alacritty", "nvim", 100), win("2", "firefox", "page", 200)], &procs());
    let cmds = cmds.ok().expect("save goes ahead");
    assert_eq!(
        cmds,
        vec![
            "nvim --server /tmp/101 --remote-send ':mksession<CR>'".to_string(),
            "echo saving 200".to_string()
        ]
    );
    let w = s.registry().win_vec();
    assert_eq!(w[0].program.cmdline, "alacritty -e nvim todo.md");
    assert_eq!(w[1].program.cmdline, "firefox --restore");

    let missing = s.save(vec![win("9", "Unknown", "t", 999)], &procs());
    assert!(matches!(missing, Err(SaveError::CommandLineUnreadable)));
}

#[test]
fn load_opens_what_is_not_open() {
    let mut saved = WindowRegistry::new(config());
    saved.update(vec![win("1", "a", "a", 1), win("2", "b", "b", 2)]);
    let mut s = Session::new(config(), ());
    let to_open = s.load(&saved, vec![win("2", "b", "b", 2), win("3", "c", "c", 3)]);
    assert_eq!(addresses(&to_open), vec!["1".to_string()]);
    assert_eq!(addresses(s.registry()), vec!["2".to_string(), "3".to_string()]);
    s.replace(vec![win("5", "e", "e", 5)]);
    assert_eq!(addresses(s.registry()), vec!["5".to_string()]);
}

#[test]
fn update_with_own_windows_reproduces_the_registry() {
    let mut r = WindowRegistry::new(config());
    r.update(vec![win("c", "x", "1", 1), win("a", "y", "2", 2), win("b", "z", "3", 3)]);
    let again: Vec<Window> = r.win_vec().into_iter().cloned().collect();
    let mut s = WindowRegistry::new(config());
    s.update(again);
    assert_eq!(addresses(&r), addresses(&s));
    let titles = |x: &WindowRegistry| x.win_vec().iter().map(|w| w.title.clone()).collect::<Vec<_>>();
    assert_eq!(titles(&r), titles(&s));
}

#[test]
fn classifying_keeps_addresses() {
    let mut r = WindowRegistry::new(config());
    r.update(vec![win("4", "Alacritty", "bash", 400), win("1", "Alacritty", "nvim", 100), win("3", "XClock", "clock", 300)]);
    let before = addresses(&r);
    r.set_program_type(&procs());
    assert_eq!(addresses(&r), before);
    r.set_cmdline();
    assert_eq!(addresses(&r), before);
}

#[test]
fn save_keeps_the_fetched_addresses() {
    let mut s = Session::new(config(), ());
    let fetched = vec![win("9", "firefox", "p", 200), win("1", "Alacritty", "nvim", 100), win("9", "firefox", "q", 200)];
    assert!(s.save(fetched, &procs()).is_ok());
    assert_eq!(addresses(s.registry()), vec!["1".to_string(), "9".to_string()]);
    assert_eq!(s.registry().win_vec()[1].title, "q");
}

#[test]
fn classification_errors_come_in_order() {
    let mut r = WindowRegistry::new(config());
    r.update(vec![win("1", "Alacritty", "nvim", 100), win("2", "XClock", "clock", 999)]);
    assert_eq!(r.classification_error(&procs()), Some(SaveError::CommandLineUnreadable));
    let mut s = Session::new(config(), ());
    assert!(s.save(vec![], &procs()).is_ok());
    assert!(s.registry().win_vec().is_empty());
}

fn huge() -> String {
    "x".repeat(3_000_000)
}

#[test]
fn only_reached_patterns_must_compile() {
    let mut cfg = config();
    cfg.app.push(App { class: huge(), title: "t".to_string(), exec_cmd: None, on_save: None, on_restore: None });
    cfg.cli.push(Cli { match_exe: huge(), exec_cmd: None, on_save: None, on_restore: None });
    let mut s = Session::new(cfg, ());
    assert!(s.save(vec![], &procs()).is_ok());
    let saved = s.save(vec![win("1", "Alacritty", "nvim", 100), win("2", "firefox", "page", 200)], &procs());
    assert!(saved.is_ok());
    let refused = s.save(vec![win("3", "XClock", "clock", 300)], &procs());
    assert_eq!(refused.err(), Some(SaveError::PatternRejected));
    assert_eq!(addresses(s.registry()), vec!["3".to_string()]);
}

#[test]
fn missing_pids_follow_the_children() {
    let full = procs();
    let mut table = ProcTable { entries: Vec::new() };
    let pids = vec![100, 300];
    let mut rounds = 0;
    loop {
        let missing = table.missing_pids(&pids);
        if missing.is_empty() {
            break;
        }
        for pid in missing {
            let e = full.entries.iter().find(|e| e.pid == pid).unwrap();
            table.entries.push(ProcEntry { pid, children: e.children.clone(), cmdline: e.cmdline.clone() });
        }
        rounds += 1;
    }
    assert_eq!(rounds, 3);
    let mut got: Vec<i32> = table.entries.iter().map(|e| e.pid).collect();
    got.sort();
    assert_eq!(got, vec![100, 101, 102, 300]);
}

#[test]
fn a_second_difference_changes_nothing() {
    let mut saved = WindowRegistry::new(config());
    saved.update(vec![win("1", "a", "a", 1), win("2", "b", "b", 2), win("3", "c", "c", 3)]);
    let mut open = WindowRegistry::new(config());
    open.update(vec![win("2", "b", "b", 2)]);
    let once = saved.difference(&open);
    let twice = once.difference(&open);
    assert_eq!(addresses(&once), addresses(&twice));
}
