use dshell::win32::{
    acquire_single_instance, find_pid, focus_existing_instance, free_space_bytes, main_window_of,
    wait_millis, wait_process_exit, wide, Focus, Instance, TopWindow, SW_RESTORE, SW_SHOW,
};

fn window(pid: u32, image: &str, titled: bool, visible: bool, iconic: bool) -> TopWindow {
    let image = if image.is_empty() { None } else { Some(image.to_string()) };
    TopWindow { pid, image, titled, visible, iconic }
}

const EXE: &str = "C:\\DShell\\dshell.exe";

#[test]
fn second_instance_is_told_by_the_mutex() {
    assert_eq!(acquire_single_instance(true, 183), Instance::Duplicate);
    assert_eq!(acquire_single_instance(true, 0), Instance::Primary);
    assert_eq!(acquire_single_instance(false, 183), Instance::Primary);
}

#[test]
fn other_instance_runs_the_same_file() {
    let ws = vec![
        window(7, EXE, true, true, false),
        window(9, "", true, true, false),
        window(11, "C:\\other.exe", true, true, false),
        window(0, EXE, true, true, false),
        window(13, "c:\\dshell\\DSHELL.exe", false, false, false),
    ];
    assert_eq!(find_pid(&ws, 7, EXE), Some(13));
    assert_eq!(find_pid(&ws, 13, EXE), Some(7));
    assert_eq!(find_pid(&ws[1..3].iter().map(|w| window(w.pid, "", true, true, false)).collect(), 7, EXE), None);
}

#[test]
fn visible_windows_come_first() {
    let ws = vec![
        window(5, EXE, false, true, false),
        window(5, EXE, true, false, false),
        window(5, EXE, true, false, false),
        window(5, EXE, true, true, false),
        window(6, EXE, true, true, false),
    ];
    assert_eq!(main_window_of(&ws, 5), Some(3));
    assert_eq!(main_window_of(&ws[..3].iter().map(|w| window(w.pid, EXE, w.titled, w.visible, false)).collect(), 5), Some(1));
    assert_eq!(main_window_of(&ws, 8), None);
}

#[test]
fn other_window_is_brought_back() {
    let hidden = vec![window(5, EXE, true, false, false)];
    assert!(matches!(focus_existing_instance(&hidden, 1, EXE, false), Focus::Window(0, SW_SHOW)));
    let minimised = vec![window(5, EXE, true, true, true)];
    assert!(matches!(
        focus_existing_instance(&minimised, 1, EXE, false),
        Focus::Window(0, SW_RESTORE)
    ));
    assert!(matches!(focus_existing_instance(&vec![], 1, EXE, false), Focus::Retry));
    assert!(matches!(focus_existing_instance(&vec![], 1, EXE, true), Focus::GiveUp));
    let untitled = vec![window(5, EXE, false, true, false)];
    assert!(matches!(focus_existing_instance(&untitled, 1, EXE, true), Focus::GiveUp));
}

#[test]
fn gone_processes_are_told() {
    assert!(wait_process_exit(0, true, 258));
    assert!(wait_process_exit(4, false, 258));
    assert!(wait_process_exit(4, true, 0));
    assert!(!wait_process_exit(4, true, 258));
}

#[test]
fn waits_fit_the_system() {
    assert_eq!(wait_millis(15_000), 15_000);
    assert_eq!(wait_millis(u64::MAX), u32::MAX);
}

#[test]
fn free_space_needs_a_successful_call() {
    assert_eq!(free_space_bytes(1, 77), Some(77));
    assert_eq!(free_space_bytes(0, 77), None);
}

#[test]
fn texts_are_widened() {
    let s = "C:\\体验😀";
    let mut want: Vec<u16> = s.encode_utf16().collect();
    want.push(0);
    assert_eq!(wide(s), want);
    assert_eq!(wide(""), [0]);
}
