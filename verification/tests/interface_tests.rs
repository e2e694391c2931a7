use sift::interface::tb::TerminalBuffer;
use sift::interface::{Feed, Subscriptions, DEFAULT_BG, DEFAULT_FG, PLAIN_FG};

#[test]
fn feed_articles_wrap_around() {
    let mut f = Feed::new("news", vec!["a", "b", "c"]);
    assert_eq!(f.idx, 0);
    f.next_article();
    f.next_article();
    assert_eq!(f.idx, 2);
    f.next_article();
    assert_eq!(f.idx, 0);
    f.previous_article();
    assert_eq!(f.idx, 2);
    f.next_article().previous_article();
    assert_eq!(f.idx, 2);
}

#[test]
fn subscriptions_move_between_feeds_and_articles() {
    let mut s = Subscriptions::new(vec![Feed::new("one", vec!["x"]), Feed::new("two", vec!["y", "z"])]);
    s.next_feed();
    assert_eq!(s.idx, 1);
    s.next_feed();
    assert_eq!(s.idx, 0);
    s.previous_feed();
    assert_eq!(s.idx, 1);
    s.move_in_articles();
    assert!(s.in_articles);
    s.next_feed();
    assert_eq!(s.idx, 1);
    assert_eq!(s.feeds[1].idx, 1);
    s.previous_feed();
    assert_eq!(s.feeds[1].idx, 0);
    s.move_out_articles();
    assert!(!s.in_articles);
    s.next_feed().previous_feed();
    assert_eq!(s.idx, 1);
}

#[test]
fn screen_updates_report_changed_cells_once() {
    let mut b = TerminalBuffer::new(4, 2);
    b.print_str(1, 1, "hi", PLAIN_FG, DEFAULT_BG);
    let expected = format!("\x1B[1;1H{PLAIN_FG}{DEFAULT_BG}h\x1B[1;2H{PLAIN_FG}{DEFAULT_BG}i");
    assert_eq!(b.take_screen_updates(), expected);
    assert_eq!(b.take_screen_updates(), "");
    b.clear_back_buffer();
    let back = format!("\x1B[1;1H{DEFAULT_FG}{DEFAULT_BG} \x1B[1;2H{DEFAULT_FG}{DEFAULT_BG} ");
    assert_eq!(b.take_screen_updates(), back);
}

#[test]
fn cells_outside_the_screen_are_ignored() {
    let mut b = TerminalBuffer::new(2, 1);
    b.set_cell(0, 1, 'x', PLAIN_FG, DEFAULT_BG);
    b.set_cell(3, 1, 'x', PLAIN_FG, DEFAULT_BG);
    b.set_cell(1, 2, 'x', PLAIN_FG, DEFAULT_BG);
    assert_eq!(b.take_screen_updates(), "");
    b.print_str_padded(1, 1, "a", PLAIN_FG, DEFAULT_BG, 2);
    let expected = format!("\x1B[1;1H{PLAIN_FG}{DEFAULT_BG}a\x1B[1;2H{PLAIN_FG}{DEFAULT_BG} ");
    assert_eq!(b.take_screen_updates(), expected);
}

#[test]
fn feed_moves_undo_each_other() {
    let mut f = Feed::new("news", vec!["a", "b", "c"]);
    for start in 0..3 {
        while f.idx() != start {
            f.next_article();
        }
        f.next_article().previous_article();
        assert_eq!(f.idx(), start);
        f.previous_article().next_article();
        assert_eq!(f.idx(), start);
    }
}
