use atosaki::kuukiyomu::{parse_data, record_is_complete, Program, Session, Window};

fn record() -> Vec<u8> {
    let mut b = Vec::new();
    b.extend_from_slice(&0x1122334455667788u64.to_le_bytes());
    for v in [10i32, -20, 300, 400] {
        b.extend_from_slice(&v.to_le_bytes());
    }
    b.extend_from_slice(&2u64.to_le_bytes());
    b.extend_from_slice(&(-1i32).to_le_bytes());
    for s in ["Alacritty", "zsh", "Alacritty", "Alacritty"] {
        b.extend_from_slice(&(s.len() as u32).to_le_bytes());
        b.extend_from_slice(s.as_bytes());
    }
    b.extend_from_slice(&1234i32.to_le_bytes());
    b.extend_from_slice(&99i32.to_le_bytes());
    for s in ["/home", "/bin/zsh", "zsh -l"] {
        b.extend_from_slice(&(s.len() as u32).to_le_bytes());
        b.extend_from_slice(s.as_bytes());
    }
    b
}

#[test]
fn parse_data_reads_a_record() {
    let b = record();
    assert!(record_is_complete(&b));
    let w = parse_data(&b);
    assert_eq!(w.window_id, 0x1122334455667788);
    assert_eq!(w.at, [10, -20]);
    assert_eq!(w.size, [300, 400]);
    assert_eq!(w.monitor, 2);
    assert_eq!(w.workspace, -1);
    assert_eq!(w.class, "Alacritty");
    assert_eq!(w.title, "zsh");
    assert_eq!(w.init_title, "Alacritty");
    assert!(w.pinned);
    assert!(w.fullscreen);
    assert_eq!(w.program.pid, 1234);
    assert_eq!(w.program.shell_id, 99);
    assert_eq!(w.program.cwd, "/home");
    assert_eq!(w.program.exe, "/bin/zsh");
    assert_eq!(w.program.cmdline, "zsh -l");
}

#[test]
fn short_records_are_incomplete() {
    let b = record();
    for n in 0..b.len() {
        assert!(!record_is_complete(&b[..n]), "prefix of {} bytes", n);
    }
}

#[test]
fn invalid_utf8_is_replaced() {
    let mut b = record();
    b[40] = 0xff;
    let w = parse_data(&b);
    assert_eq!(w.class, "\u{FFFD}lacritty");
}

fn window(id: u64) -> Window {
    Window {
        window_id: id,
        at: [0, 0],
        size: [1, 1],
        monitor: 0,
        workspace: 0,
        class: String::new(),
        title: format!("w{}", id),
        init_class: String::new(),
        init_title: String::new(),
        pinned: false,
        fullscreen: false,
        program: Program { shell_id: 0, pid: 0, cwd: String::new(), exe: String::new(), cmdline: String::new() },
    }
}

#[test]
fn session_records_and_forgets() {
    let mut s = Session::new();
    assert!(s.update_win(window(3)));
    assert!(s.update_win(window(4)));
    let mut w = window(3);
    w.title = "again".to_string();
    assert!(s.update_win(w));
    assert_eq!(s.window_data.len(), 2);
    assert_eq!(s.window_data[&3].title, "again");
    assert!(s.delete_win(3));
    assert!(s.delete_win(42));
    assert_eq!(s.window_data.len(), 1);
    assert!(s.window_data.contains_key(&4));
}

#[test]
fn recording_then_forgetting_a_new_id_restores_the_session() {
    let mut s = Session::new();
    s.update_win(window(1));
    s.update_win(window(8));
    s.delete_win(8);
    assert_eq!(s.window_data.len(), 1);
    assert!(s.window_data.contains_key(&1));
}
