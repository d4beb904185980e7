use lvie::history::{FileHandler, FileSize, FileSizes, History, OperationType};
use std::path::PathBuf;

#[test]
fn file_sizes_in_bytes() {
    assert_eq!(FileSizes::MB(2).size_as_bytes(), 2 * 1048576);
    assert_eq!(FileSizes::GB(1).size_as_bytes(), 1073741824);
    assert_eq!(5u8.size_as_bytes(), 5);
    assert_eq!(7i32.size_as_bytes(), 7);
    assert_eq!(9u64.size_as_bytes(), 9);
}

#[test]
fn budget_is_capped_and_defaulted() {
    let h = FileHandler::new(PathBuf::from("tmp"), Some(FileSizes::MB(1)));
    assert_eq!(h.max_mem_size(), 1048576);
    let h = FileHandler::new(PathBuf::from("tmp"), None::<usize>);
    assert_eq!(h.max_mem_size(), 3 * 1024 * 1048576);
    let h = FileHandler::new(PathBuf::from("tmp"), Some(0usize));
    assert_eq!(h.max_mem_size(), 3 * 1024 * 1048576);
    let h = FileHandler::new(PathBuf::from("tmp"), Some(FileSizes::GB(11)));
    assert_eq!(h.max_mem_size(), 10 * 1024 * 1048576);
    assert_eq!(h.root_path(), &PathBuf::from("tmp"));
    assert!(h.current_files().is_empty());
}

#[test]
fn writes_over_budget_are_handed_back() {
    let mut h = FileHandler::new(PathBuf::from("tmp"), Some(100usize));
    assert_eq!(h.record_write(PathBuf::from("a"), 60), None);
    assert_eq!(h.record_write(PathBuf::from("b"), 50), Some(PathBuf::from("b")));
    assert_eq!(h.current_files(), &vec![PathBuf::from("a")]);
    assert_eq!(h.record_write(PathBuf::from("c"), 40), None);
    assert_eq!(h.current_files(), &vec![PathBuf::from("a"), PathBuf::from("c")]);
}

#[test]
fn reads_walk_back_through_the_files() {
    let mut h = FileHandler::new(PathBuf::from("tmp"), Some(1000usize));
    assert_eq!(h.file_to_read(), None);
    h.record_write(PathBuf::from("a"), 1);
    h.record_write(PathBuf::from("b"), 1);
    h.record_write(PathBuf::from("c"), 1);
    assert_eq!(h.file_to_read(), Some(2));
    h.advance_after_read();
    assert_eq!(h.file_to_read(), Some(1));
    h.advance_after_read();
    h.advance_after_read();
    assert_eq!(h.file_to_read(), Some(0));
    h.advance_after_read();
    assert_eq!(h.file_to_read(), Some(0));
    // everything undone: a new write empties the list first
    assert_eq!(h.first_stale(), 3);
    assert_eq!(h.kept_files(), 0);
    h.record_write(PathBuf::from("d"), 1);
    assert_eq!(h.current_files(), &vec![PathBuf::from("d")]);
}

#[test]
fn a_write_drops_the_undone_files() {
    let mut h = FileHandler::new(PathBuf::from("tmp"), Some(1000usize));
    h.record_write(PathBuf::from("a"), 1);
    h.record_write(PathBuf::from("b"), 1);
    h.record_write(PathBuf::from("c"), 1);
    h.advance_after_read();
    assert_eq!(h.first_stale(), 2);
    assert_eq!(h.kept_files(), 2);
    assert_eq!(h.current_mem_size(), &vec![1, 1, 1]);
    h.record_write(PathBuf::from("d"), 1);
    assert_eq!(h.current_files(), &vec![PathBuf::from("a"), PathBuf::from("b"), PathBuf::from("d")]);
}

#[test]
fn undo_and_redo_walk_the_history() {
    let mut h: History<u32> = History::init(PathBuf::from("tmp"), false, Some(FileSizes::MB(1)));
    assert!(!h.can_undo());
    assert!(!h.can_redo());
    assert_eq!(h.undo(), None);
    h.register_operation_without_saving(OperationType::Filter, &1);
    h.register_operation_without_saving(OperationType::Curve, &2);
    assert!(h.can_undo());
    assert_eq!(h.next_undo_type(), Some(&OperationType::Curve));
    assert_eq!(h.undo(), Some(&2));
    assert_eq!(h.next_undo_type(), Some(&OperationType::Filter));
    assert!(h.can_redo());
    assert_eq!(h.redo(), Some(&2));
    assert_eq!(h.redo(), None);
    assert_eq!(h.undo(), Some(&2));
    assert_eq!(h.undo(), Some(&1));
    assert_eq!(h.undo(), None);
    assert_eq!(h.next_undo_type(), None);
    assert_eq!(h.redo(), Some(&1));
}

#[test]
fn saving_depends_on_temp_files() {
    let mut h: History<u8> = History::init(PathBuf::from("tmp"), true, None::<usize>);
    assert!(h.register_operation_and_save(OperationType::Geometric, &3));
    h.register_operation_without_saving(OperationType::Mask, &4);
    h.undo();
    assert!(h.preview_aviable() == false);
    assert!(!h.get_precomputed_preview());
    h.undo();
    assert!(h.preview_aviable());
    assert!(h.get_precomputed_preview());

    let mut h: History<u8> = History::init(PathBuf::from("tmp"), false, None::<usize>);
    assert!(!h.register_operation_and_save(OperationType::Logic, &3));
    h.undo();
    assert!(!h.preview_aviable());
    assert!(!h.get_precomputed_preview());
}

#[test]
fn previews_are_recorded_in_the_handler() {
    let mut h: History<u8> = History::init(PathBuf::from("tmp"), true, Some(10usize));
    assert_eq!(h.record_preview(PathBuf::from("p1"), 6), None);
    assert_eq!(h.record_preview(PathBuf::from("p2"), 6), Some(PathBuf::from("p2")));
    assert_eq!(h.file_handler().current_files(), &vec![PathBuf::from("p1")]);
    h.advance_preview_read();
    assert_eq!(h.file_handler().file_to_read(), Some(0));
}

#[test]
fn more_integer_sizes() {
    assert_eq!(3i8.size_as_bytes(), 3);
    assert_eq!(300i16.size_as_bytes(), 300);
    assert_eq!(5isize.size_as_bytes(), 5);
    assert_eq!(70000u128.size_as_bytes(), 70000);
    assert_eq!(12i128.size_as_bytes(), 12);
}
