use atosaki::commands::Commands;
use atosaki::hyprland::open_command;
use atosaki::protocol::{next_action, request_code, ClientAction, ClientReq};
use atosaki::window::{Program, WinType, Window};

#[test]
fn from_u32_knows_three_requests() {
    assert_eq!(ClientReq::from_u32(0), Some(ClientReq::Save));
    assert_eq!(ClientReq::from_u32(1), Some(ClientReq::Load));
    assert_eq!(ClientReq::from_u32(2), Some(ClientReq::Replace));
    assert_eq!(ClientReq::from_u32(3), None);
    assert_eq!(ClientReq::from_u32(u32::MAX), None);
}

#[test]
fn request_code_is_little_endian() {
    assert_eq!(request_code(&[1, 2, 3, 4, 9, 9]), u32::from_le_bytes([1, 2, 3, 4]));
    assert_eq!(request_code(&[255, 255, 255, 255]), u32::MAX);
}

#[test]
fn client_messages_reach_the_daemon() {
    for (cmd, req) in [(Commands::Save, ClientReq::Save), (Commands::Load, ClientReq::Load), (Commands::Replace, ClientReq::Replace)] {
        let mut buffer = vec![0u8; 8];
        let msg = cmd.message();
        assert_eq!(msg.len(), 1);
        buffer[..msg.len()].copy_from_slice(&msg);
        assert_eq!(next_action(&buffer, msg.len()), ClientAction::Run(req));
    }
    assert_eq!(next_action(&[7, 0, 0, 0, 0, 0, 0, 0], 1), ClientAction::Reject);
    assert_eq!(next_action(&[0, 0, 0, 0, 0, 0, 0, 0], 0), ClientAction::Stop);
}

#[test]
fn open_command_places_the_window() {
    let w = Window {
        address: "0x55".to_string(),
        at: (-5, 40),
        size: (1280, 720),
        monitor: 1,
        workspace: 4,
        class: String::new(),
        title: String::new(),
        init_class: String::new(),
        init_title: String::new(),
        pinned: false,
        fullscreen: 0,
        floating: true,
        program: Program { shell_id: 0, pid: 0, cwd: String::new(), exe: String::new(), cmdline: "kitty -e htop".to_string() },
        wtype: WinType::Plain,
    };
    assert_eq!(open_command(&w), "[workspace 4 silent; float; size 1280, 720; move -5, 40] kitty -e htop");
}
