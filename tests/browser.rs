use rusty_files::entry::{is_hidden_name, is_valid_name};
use rusty_files::path::resolve;
use rusty_files::snapshot::{load_snapshot, names_le};
use rusty_files::{
    ChildInfo, ChildMetadata, EntryType, FsPath, Manager, NavError, UIEvent, UIManager,
};

fn abs(parts: &[&str]) -> FsPath {
    FsPath { absolute: true, parts: parts.iter().map(|p| p.to_string()).collect() }
}

fn rel(parts: &[&str]) -> FsPath {
    FsPath { absolute: false, parts: parts.iter().map(|p| p.to_string()).collect() }
}

fn file(name: &str, len: u64) -> ChildInfo {
    ChildInfo {
        name: Some(name.to_string()),
        metadata: Some(ChildMetadata { is_symlink: false, is_dir: false, len, modified: Some(100) }),
    }
}

fn dir(name: &str) -> ChildInfo {
    ChildInfo {
        name: Some(name.to_string()),
        metadata: Some(ChildMetadata { is_symlink: false, is_dir: true, len: 4096, modified: Some(7) }),
    }
}

fn names(m: &Manager) -> Vec<String> {
    m.current_directory_entries.iter().map(|e| e.filename()).collect()
}

fn strings(v: &[&str]) -> Vec<String> {
    v.iter().map(|s| s.to_string()).collect()
}

fn sample_manager() -> Manager {
    let listing = vec![file("b.txt", 20), file(".env", 5), file("a.txt", 10)];
    Manager::with_directory(abs(&["home", "u"]), Ok(listing)).unwrap()
}

#[test]
fn hidden_entries_toggle_in_name_order() {
    let mut ui = UIManager::new(sample_manager());
    assert_eq!(ui.get_filenames_to_show(), strings(&["a.txt", "b.txt"]));
    assert_eq!(ui.get_number_of_showed_entries(), 2);
    assert!(ui.proccess_ui_event(UIEvent::ToggleHidden).is_none());
    assert!(ui.show_hidden());
    assert_eq!(ui.get_filenames_to_show(), strings(&[".env", "a.txt", "b.txt"]));
    assert_eq!(ui.get_number_of_showed_entries(), 3);
}

#[test]
fn empty_directory_has_no_selection() {
    let m = Manager::with_directory(abs(&["empty"]), Ok(vec![])).unwrap();
    let mut ui = UIManager::new(m);
    assert_eq!(ui.get_number_of_showed_entries(), 0);
    assert_eq!(ui.selection_index(), 0);
    ui.proccess_ui_event(UIEvent::Down);
    assert_eq!(ui.selection_index(), 0);
    ui.proccess_ui_event(UIEvent::Up);
    assert_eq!(ui.selection_index(), 0);
    assert!(ui.proccess_ui_event(UIEvent::In).is_none());
    assert!(ui.get_filenames_to_show().is_empty());
}

#[test]
fn rename_updates_entry_and_refuses_collision() {
    let mut m = sample_manager();
    assert_eq!(names(&m), strings(&[".env", "a.txt", "b.txt"]));
    let (from, to) = m.plan_rename(1, &"c.txt".to_string()).unwrap();
    assert_eq!(from.parts, strings(&["home", "u", "a.txt"]));
    assert_eq!(to.parts, strings(&["home", "u", "c.txt"]));
    assert_eq!(m.rename(1, "c.txt".to_string(), Ok(())), Ok(()));
    assert_eq!(names(&m), strings(&[".env", "c.txt", "b.txt"]));
    let e = &m.current_directory_entries[1];
    assert_eq!(e.entry_type, EntryType::File);
    assert_eq!(e.size, 10);
    assert!(!e.is_hidden);

    assert_eq!(m.plan_rename(1, &"b.txt".to_string()).err(), Some(NavError::NameCollision));
    assert_eq!(m.rename(1, "b.txt".to_string(), Ok(())), Err(NavError::NameCollision));
    assert_eq!(names(&m), strings(&[".env", "c.txt", "b.txt"]));
    assert_eq!(m.current_directory_entries[1].size, 10);
}

#[test]
fn rename_errors() {
    let mut m = sample_manager();
    assert_eq!(m.rename(9, "x".to_string(), Ok(())), Err(NavError::NotFound));
    assert_eq!(m.rename(1, "".to_string(), Ok(())), Err(NavError::InvalidName));
    assert_eq!(m.rename(1, "x/y".to_string(), Ok(())), Err(NavError::InvalidName));
    assert_eq!(m.rename(1, "..".to_string(), Ok(())), Err(NavError::InvalidName));
    assert_eq!(
        m.rename(1, "x".to_string(), Err(NavError::PermissionDenied)),
        Err(NavError::PermissionDenied)
    );
    assert_eq!(names(&m), strings(&[".env", "a.txt", "b.txt"]));
}

#[test]
fn rename_to_dot_name_hides_entry() {
    let mut m = sample_manager();
    assert_eq!(m.rename(2, ".b".to_string(), Ok(())), Ok(()));
    assert!(m.current_directory_entries[2].is_hidden);
    assert_eq!(m.current_directory_entries[2].filename(), ".b");
    assert_eq!(m.current_directory_entries[2].path.parts, strings(&["home", "u", ".b"]));
}

#[test]
fn move_to_parent_at_root_is_a_no_op() {
    let mut m = Manager::with_directory(abs(&[]), Ok(vec![dir("etc")])).unwrap();
    assert!(m.parent_directory().is_none());
    assert_eq!(m.move_to_parent_directory(Err(NavError::IOOther)), Ok(()));
    assert!(m.current_directory.parts.is_empty());
    assert!(m.current_directory.absolute);
    assert_eq!(names(&m), strings(&["etc"]));
}

#[test]
fn move_to_parent_reads_parent() {
    let mut m = sample_manager();
    let p = m.parent_directory().unwrap();
    assert_eq!(p.parts, strings(&["home"]));
    assert_eq!(m.move_to_parent_directory(Ok(vec![dir("u"), dir("v")])), Ok(()));
    assert_eq!(m.current_directory.parts, strings(&["home"]));
    assert_eq!(names(&m), strings(&["u", "v"]));
}

#[test]
fn change_directory_to_missing_path_keeps_state() {
    let mut m = sample_manager();
    assert_eq!(m.change_directory(abs(&["nope"]), Err(NavError::NotFound)), Err(NavError::NotFound));
    assert_eq!(m.current_directory.parts, strings(&["home", "u"]));
    assert_eq!(names(&m), strings(&[".env", "a.txt", "b.txt"]));
    assert_eq!(
        m.change_directory(rel(&["a.txt"]), Err(NavError::NotADirectory)),
        Err(NavError::NotADirectory)
    );
    assert_eq!(m.current_directory.parts, strings(&["home", "u"]));
}

#[test]
fn change_directory_resolves_relative_paths() {
    let mut m = sample_manager();
    assert_eq!(m.change_directory(rel(&["src", "bin"]), Ok(vec![file("main.rs", 3)])), Ok(()));
    assert_eq!(m.current_directory.parts, strings(&["home", "u", "src", "bin"]));
    assert_eq!(m.current_directory_entries[0].path.parts, strings(&["home", "u", "src", "bin", "main.rs"]));
    assert_eq!(m.change_directory(abs(&["tmp"]), Ok(vec![])), Ok(()));
    assert_eq!(m.current_directory.parts, strings(&["tmp"]));
    assert!(m.current_directory_entries.is_empty());
}

#[test]
fn with_directory_fails_on_unreadable_directory() {
    assert_eq!(
        Manager::with_directory(abs(&["root"]), Err(NavError::PermissionDenied)).err(),
        Some(NavError::PermissionDenied)
    );
}

#[test]
fn down_cycles_through_visible_entries() {
    let mut ui = UIManager::new(sample_manager());
    ui.toggle_show_hidden();
    let mut seen = Vec::new();
    for _ in 0..4 {
        ui.proccess_ui_event(UIEvent::Down);
        seen.push(ui.selection_index());
    }
    assert_eq!(seen, vec![1, 2, 0, 1]);
}

#[test]
fn up_from_first_selects_last() {
    let mut ui = UIManager::new(sample_manager());
    ui.proccess_ui_event(UIEvent::ToggleHidden);
    ui.proccess_ui_event(UIEvent::Up);
    assert_eq!(ui.selection_index(), 2);
    ui.proccess_ui_event(UIEvent::Up);
    assert_eq!(ui.selection_index(), 1);
    ui.decrease_index();
    ui.decrease_index();
    assert_eq!(ui.selection_index(), 2);
    ui.increase_index();
    assert_eq!(ui.selection_index(), 0);
}

#[test]
fn toggle_twice_restores_visible_set_and_selection() {
    let mut ui = UIManager::new(sample_manager());
    ui.proccess_ui_event(UIEvent::Down);
    assert_eq!(ui.selection_index(), 1);
    let before = ui.get_filenames_to_show();
    ui.proccess_ui_event(UIEvent::ToggleHidden);
    ui.proccess_ui_event(UIEvent::ToggleHidden);
    assert_eq!(ui.get_filenames_to_show(), before);
    assert_eq!(ui.selection_index(), 1);
}

#[test]
fn hiding_clamps_selection() {
    let mut ui = UIManager::new(sample_manager());
    ui.toggle_show_hidden();
    ui.decrease_index();
    assert_eq!(ui.selection_index(), 2);
    ui.toggle_show_hidden();
    assert_eq!(ui.selection_index(), 1);
    ui.toggle_show_hidden();
    assert_eq!(ui.selection_index(), 1);
}

#[test]
fn quit_and_idle_events() {
    let mut ui = UIManager::new(sample_manager());
    assert!(!ui.should_quit());
    assert!(ui.proccess_ui_event(UIEvent::Idle).is_none());
    assert!(!ui.should_quit());
    assert_eq!(ui.selection_index(), 0);
    assert!(ui.proccess_ui_event(UIEvent::Quit).is_none());
    assert!(ui.should_quit());
}

#[test]
fn entering_a_directory() {
    let listing = vec![file("z.txt", 1), dir("src"), dir("docs")];
    let m = Manager::with_directory(abs(&["p"]), Ok(listing)).unwrap();
    let mut ui = UIManager::new(m);
    assert_eq!(ui.get_filenames_to_show(), strings(&["docs", "src", "z.txt"]));
    ui.proccess_ui_event(UIEvent::Down);
    let target = ui.proccess_ui_event(UIEvent::In).unwrap();
    assert_eq!(target.parts, strings(&["p", "src"]));
    assert_eq!(ui.selection_index(), 1);
    assert_eq!(ui.complete_navigation(target, Ok(vec![file("lib.rs", 9), file("a.rs", 2)])), Ok(()));
    assert_eq!(ui.selection_index(), 0);
    assert_eq!(ui.manager().current_directory.parts, strings(&["p", "src"]));
    assert_eq!(ui.get_filenames_to_show(), strings(&["a.rs", "lib.rs"]));
}

#[test]
fn entering_a_file_does_nothing() {
    let listing = vec![file("z.txt", 1), dir("src")];
    let m = Manager::with_directory(abs(&["p"]), Ok(listing)).unwrap();
    let mut ui = UIManager::new(m);
    ui.proccess_ui_event(UIEvent::Down);
    assert!(ui.proccess_ui_event(UIEvent::In).is_none());
    assert_eq!(ui.selection_index(), 1);
}

#[test]
fn leaving_a_directory() {
    let mut ui = UIManager::new(sample_manager());
    ui.proccess_ui_event(UIEvent::Down);
    let target = ui.proccess_ui_event(UIEvent::Out).unwrap();
    assert_eq!(target.parts, strings(&["home"]));
    assert_eq!(ui.selection_index(), 1);
    assert_eq!(ui.complete_navigation(target, Err(NavError::PermissionDenied)), Err(NavError::PermissionDenied));
    assert_eq!(ui.selection_index(), 1);
    assert_eq!(ui.manager().current_directory.parts, strings(&["home", "u"]));

    let root = Manager::with_directory(abs(&[]), Ok(vec![dir("a"), dir("b")])).unwrap();
    let mut ui = UIManager::new(root);
    ui.proccess_ui_event(UIEvent::Down);
    assert!(ui.proccess_ui_event(UIEvent::Out).is_none());
    assert_eq!(ui.selection_index(), 0);
}

#[test]
fn loader_skips_unreadable_children_and_orders_entries() {
    let children = vec![
        file("b", 1),
        ChildInfo { name: None, metadata: Some(ChildMetadata { is_symlink: false, is_dir: false, len: 1, modified: None }) },
        ChildInfo { name: Some("gone".to_string()), metadata: None },
        ChildInfo {
            name: Some("link".to_string()),
            metadata: Some(ChildMetadata { is_symlink: true, is_dir: true, len: 3, modified: None }),
        },
        dir("Zdir"),
        file("B", 2),
        dir("adir"),
    ];
    let entries = load_snapshot(&abs(&["x"]), &children);
    let got: Vec<String> = entries.iter().map(|e| e.filename()).collect();
    assert_eq!(got, strings(&["Zdir", "adir", "B", "b", "link"]));
    assert_eq!(entries[4].entry_type, EntryType::Symlink);
    assert_eq!(entries[4].last_modified, 0);
    assert_eq!(entries[4].size, 3);
    assert_eq!(entries[0].entry_type, EntryType::Directory);
    assert_eq!(entries[0].last_modified, 7);
    assert_eq!(entries[2].last_modified, 100);
    assert_eq!(entries[3].path.parts, strings(&["x", "b"]));
}

#[test]
fn name_checks() {
    assert!(is_hidden_name(&".env".to_string()));
    assert!(!is_hidden_name(&"env".to_string()));
    assert!(!is_hidden_name(&"".to_string()));
    assert!(is_valid_name(&"a.txt".to_string()));
    assert!(is_valid_name(&"...".to_string()));
    assert!(!is_valid_name(&".".to_string()));
    assert!(!is_valid_name(&"a\0b".to_string()));
    assert!(names_le(&"a".to_string(), &"ab".to_string()));
    assert!(!names_le(&"b".to_string(), &"ab".to_string()));
    assert!(names_le(&"B".to_string(), &"a".to_string()));
    assert!(names_le(&"same".to_string(), &"same".to_string()));
}

#[test]
fn path_operations() {
    let base = abs(&["a", "b"]);
    assert_eq!(resolve(&base, &rel(&["c"])).parts, strings(&["a", "b", "c"]));
    assert_eq!(resolve(&base, &abs(&["c"])).parts, strings(&["c"]));
    assert_eq!(base.parent().unwrap().parts, strings(&["a"]));
    assert_eq!(base.file_name(), Some("b".to_string()));
    assert!(FsPath::root().is_root());
    assert!(FsPath::root().file_name().is_none());
    assert_eq!(base.child(&"z".to_string()).parts, strings(&["a", "b", "z"]));
}

#[test]
fn update_keeps_selection_in_range() {
    let mut ui = UIManager::new(sample_manager());
    ui.proccess_ui_event(UIEvent::Down);
    ui.update();
    assert_eq!(ui.selection_index(), 1);
    let pos = ui.selected_position().unwrap();
    assert_eq!(ui.manager().current_directory_entries[pos].filename(), "b.txt");
}
