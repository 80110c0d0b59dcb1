use spinlattice::child::{ChildMsg, StatusBoard};

fn msg(name: &str, text: &str, done: bool) -> ChildMsg {
    ChildMsg::make(name.to_owned(), text.to_owned(), done)
}

#[test]
fn childmsg_make_carries_fields() {
    let m = msg("alpha", "starting", false);
    assert_eq!(m.name, "alpha".to_owned());
    assert_eq!(m.msg, "starting".to_owned());
    assert!(!m.done);
}

#[test]
fn update_matches_by_name() {
    let mut board = StatusBoard::new();
    board.register("alpha".to_owned(), "<starting>".to_owned());
    board.register("beta".to_owned(), "<starting>".to_owned());
    board.update(&msg("beta", "working", false));
    assert_eq!(board.entries[0].msg, "<starting>".to_owned());
    assert_eq!(board.entries[1].msg, "working".to_owned());
    assert!(!board.all_done());
}

#[test]
fn empty_board_is_done() {
    let board = StatusBoard::new();
    assert!(board.all_done());
}

#[test]
fn monitor_terminates_after_all_done_flags() {
    // three workers, interleaved progress, each finishing with done
    let mut board = StatusBoard::new();
    for name in ["a", "b", "c"] {
        board.register(name.to_owned(), "<starting>".to_owned());
    }
    let stream = vec![
        msg("a", "step 1", false),
        msg("b", "step 1", false),
        msg("a", "step 2", false),
        msg("c", "step 1", false),
        msg("b", "finished", true),
        msg("a", "finished", true),
        msg("c", "finished", true),
    ];
    board.process_all(&stream);
    assert!(board.all_done());
}

#[test]
fn monitor_completion_is_order_independent() {
    let orders = [
        ["a", "b", "c"],
        ["c", "b", "a"],
        ["b", "a", "c"],
    ];
    for order in orders {
        let mut board = StatusBoard::new();
        for name in ["a", "b", "c"] {
            board.register(name.to_owned(), "<starting>".to_owned());
        }
        for name in order {
            board.update(&msg(name, "finished", true));
        }
        assert!(board.all_done());
    }
}

#[test]
fn monitor_waits_for_missing_worker() {
    let mut board = StatusBoard::new();
    for name in ["a", "b", "c"] {
        board.register(name.to_owned(), "<starting>".to_owned());
    }
    let stream = vec![
        msg("a", "finished", true),
        msg("c", "finished", true),
        msg("b", "still going", false),
    ];
    board.process_all(&stream);
    assert!(!board.all_done());
    board.update(&msg("b", "finished", true));
    assert!(board.all_done());
}

#[test]
fn later_message_overrides_done() {
    // the table keeps the last message per worker as authoritative
    let mut board = StatusBoard::new();
    board.register("a".to_owned(), "<starting>".to_owned());
    board.update(&msg("a", "finished", true));
    assert!(board.all_done());
    board.update(&msg("a", "restarted", false));
    assert!(!board.all_done());
}
