use td_lib::undo::UndoWrapper;

#[test]
fn undo_undo() {
    let mut undo = UndoWrapper::new(0i32);
    assert_eq!(undo.state(), &0);

    undo.modify(|x| *x += 1);
    assert_eq!(undo.state(), &1);

    undo.undo();
    assert_eq!(undo.state(), &0);
}

#[test]
fn undo_redo() {
    let mut undo = UndoWrapper::new(0i32);
    assert_eq!(undo.state(), &0);

    undo.modify(|x| *x += 1);
    assert_eq!(undo.state(), &1);

    undo.undo();
    assert_eq!(undo.state(), &0);

    undo.redo();
    assert_eq!(undo.state(), &1);
}

#[test]
fn undo_redo_multiple() {
    let mut undo = UndoWrapper::new(0i32);
    assert_eq!(undo.state(), &0);

    undo.modify(|x| *x += 1);
    assert_eq!(undo.state(), &1);

    undo.modify(|x| *x += 1);
    assert_eq!(undo.state(), &2);

    undo.undo();
    assert_eq!(undo.state(), &1);

    undo.undo();
    assert_eq!(undo.state(), &0);

    undo.redo();
    assert_eq!(undo.state(), &1);

    undo.redo();
    assert_eq!(undo.state(), &2);
}

#[test]
fn undo_undo_redo_undo_redo() {
    let mut undo = UndoWrapper::new(0i32);
    assert_eq!(undo.state(), &0);

    undo.modify(|x| *x += 1);
    assert_eq!(undo.state(), &1);

    undo.undo();
    assert_eq!(undo.state(), &0);

    undo.redo();
    assert_eq!(undo.state(), &1);

    undo.undo();
    assert_eq!(undo.state(), &0);

    undo.redo();
    assert_eq!(undo.state(), &1);
}

#[test]
fn undo_undo_count() {
    let mut undo = UndoWrapper::new(());

    assert_eq!(undo.undo_count(), 0);

    undo.modify(|_| ());
    assert_eq!(undo.undo_count(), 1);

    undo.modify(|_| ());
    assert_eq!(undo.undo_count(), 2);
}

#[test]
fn undo_redo_count() {
    let mut undo = UndoWrapper::new(());

    assert_eq!(undo.redo_count(), 0);

    undo.modify(|_| ());
    undo.modify(|_| ());
    assert_eq!(undo.redo_count(), 0);

    undo.undo();
    assert_eq!(undo.redo_count(), 1);

    undo.undo();
    assert_eq!(undo.redo_count(), 2);

    undo.redo();
    assert_eq!(undo.redo_count(), 1);

    undo.redo();
    assert_eq!(undo.redo_count(), 0);
}

#[test]
fn undo_edit_clears_redo_states() {
    let mut undo = UndoWrapper::new(0i32);
    assert_eq!(undo.state(), &0);

    undo.modify(|x| *x += 1);
    assert_eq!(undo.state(), &1);

    undo.modify(|x| *x += 1);
    assert_eq!(undo.state(), &2);

    undo.undo();
    assert_eq!(undo.state(), &1);

    undo.undo();
    assert_eq!(undo.state(), &0);

    // push a completely new value. the redo states should be cleared.
    undo.modify(|x| *x += 10);
    assert_eq!(undo.state(), &10);

    // doing redo now should not result in a previous value
    assert!(!undo.redo());
    assert_eq!(undo.state(), &10);
    assert!(!undo.redo());
    assert_eq!(undo.state(), &10);
}

#[test]
fn undo_invalid_undo() {
    let mut undo = UndoWrapper::new(());

    undo.modify(|_| ());

    assert!(undo.undo());
    assert!(!undo.undo());
    assert!(!undo.undo());
}

#[test]
fn undo_invalid_redo() {
    let mut undo = UndoWrapper::new(());

    undo.modify(|_| ());
    assert!(undo.undo());

    assert!(undo.redo());
    assert!(!undo.redo());
    assert!(!undo.redo());
}

#[test]
fn undo_can_undo_to_clean_state() {
    let mut undo = UndoWrapper::new(());
    assert!(undo.is_dirty());

    undo.mark_clean();
    assert!(!undo.is_dirty());

    undo.modify(|_| ());
    assert!(undo.is_dirty());

    undo.undo();
    assert!(!undo.is_dirty());

    undo.redo();
    assert!(undo.is_dirty());

    undo.undo();
    assert!(!undo.is_dirty());
}

#[test]
fn undo_edit_wipes_future_clean_state() {
    let mut undo = UndoWrapper::new(());
    assert!(undo.is_dirty());

    undo.modify(|_| ());
    undo.mark_clean();
    assert!(!undo.is_dirty());

    undo.undo();
    undo.modify(|_| ());
    assert!(undo.is_dirty());
}

#[test]
fn counts_follow_edits_and_undos() {
    let mut undo = UndoWrapper::new(0u32);
    for _ in 0..5 {
        undo.modify(|x| *x += 1);
    }
    assert_eq!(undo.undo_count(), 5);
    assert_eq!(undo.redo_count(), 0);
    for _ in 0..3 {
        assert!(undo.undo());
    }
    assert_eq!(undo.undo_count(), 2);
    assert_eq!(undo.redo_count(), 3);
    assert_eq!(undo.state(), &2);
    undo.modify(|x| *x += 100);
    assert_eq!(undo.redo_count(), 0);
    assert_eq!(undo.undo_count(), 3);
    assert_eq!(undo.state(), &102);
}

#[test]
fn dirty_tracks_clean_mark() {
    let mut undo = UndoWrapper::new(0u32);
    undo.modify(|x| *x += 1);
    undo.mark_clean();
    assert!(!undo.is_dirty());
    undo.modify(|x| *x += 1);
    assert!(undo.is_dirty());
    undo.modify(|x| *x += 1);
    assert!(undo.is_dirty());
    undo.undo();
    assert!(undo.is_dirty());
    undo.undo();
    assert!(!undo.is_dirty());
    undo.undo();
    assert!(undo.is_dirty());
    undo.redo();
    assert!(!undo.is_dirty());
}

#[test]
fn default_history_is_fresh_and_dirty() {
    let undo: UndoWrapper<u8> = UndoWrapper::default();
    assert_eq!(undo.state(), &0);
    assert_eq!(undo.undo_count(), 0);
    assert_eq!(undo.redo_count(), 0);
    assert!(undo.is_dirty());
}

#[test]
fn undo_keeps_earlier_states_intact() {
    let mut undo = UndoWrapper::new(vec![1u8]);
    undo.modify(|v| v.push(2));
    undo.modify(|v| v.clear());
    assert_eq!(undo.state(), &Vec::<u8>::new());
    undo.undo();
    assert_eq!(undo.state(), &vec![1u8, 2]);
    undo.undo();
    assert_eq!(undo.state(), &vec![1u8]);
}
