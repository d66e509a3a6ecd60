use atosaki::proto::{
    dispatch_request, is_editor, is_saved_class, mksession_command, nvim_cache_path, nvim_socket_path,
    restore_command, shell_id_of_title, Type, WindowData,
};

#[test]
fn only_the_terminal_class_is_saved() {
    assert!(is_saved_class("Alacritty"));
    assert!(!is_saved_class("alacritty"));
    assert!(!is_saved_class("Alacritty2"));
    assert!(is_editor("nvim"));
    assert!(!is_editor("vim"));
}

#[test]
fn shell_id_comes_from_the_title() {
    assert_eq!(shell_id_of_title("4242"), Some(4242));
    assert_eq!(shell_id_of_title("zsh"), None);
}

#[test]
fn editor_paths() {
    assert_eq!(nvim_socket_path(12), "/home/yamabiko/.cache/nvim/session/12.socket");
    assert_eq!(nvim_cache_path(12), "/home/yamabiko/.cache/nvim/session/12.cache");
    assert_eq!(mksession_command(12), "mksession! /home/yamabiko/.cache/nvim/session/12.cache");
}

#[test]
fn restore_and_dispatch() {
    let shell = WindowData { at: [5, 6], size: [700, 500], class: Type::Shell, shell_id: 3, workspace: 1, cwd: "/tmp".to_string() };
    assert_eq!(restore_command(&shell), "~/Projects/alacritty/target/release/alacritty --working-directory /tmp");
    assert_eq!(
        dispatch_request(&shell),
        "dispatch exec [workspace 2 silent; float; size 700, 500; move 5, 6; pseudo;] ~/Projects/alacritty/target/release/alacritty --working-directory /tmp"
    );
    let nvim = WindowData { at: [0, 0], size: [1, 1], class: Type::Nvim, shell_id: 9, workspace: 0, cwd: "/src".to_string() };
    assert_eq!(
        restore_command(&nvim),
        "~/Projects/alacritty/target/release/alacritty --working-directory /src -e bash -c 'nvim  -S /home/yamabiko/.cache/nvim/session/9.cache; bash -i'"
    );
}
