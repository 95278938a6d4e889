use split_watch::tokens::PaneTokens;

#[test]
fn tokens_follow_panes_as_they_come_and_go() {
    let mut t = PaneTokens::new(3);
    assert_eq!(t.len(), 3);
    assert_eq!((t.token(0), t.token(1), t.token(2)), (0, 1, 2));
    t.grow_to(4);
    assert_eq!(t.token(3), 3);
    assert_eq!(t.next_token(), 4);
    t.close(1);
    assert_eq!(t.len(), 3);
    assert_eq!(t.index_of(1), None);
    assert_eq!(t.index_of(2), Some(1));
    assert_eq!(t.index_of(3), Some(2));
    t.grow_to(4);
    assert_eq!(t.token(3), 4);
    t.grow_to(2);
    assert_eq!(t.len(), 4);
    assert_eq!(t.index_of(9), None);
}
