use secure_browse::info::{info_request, parse_info, Info};
use secure_browse::navigator::{
    scroll_to, token_for, token_from_parent, Expect, NavError, Navigator,
};

fn rows(nav: &Navigator) -> Vec<Vec<u8>> {
    (0..nav.len()).map(|i| nav.row(i).clone()).collect()
}

#[test]
fn connecting_shows_the_first_listing() {
    let nav = Navigator::new(b"DIR_..\rDIR_sub\rFILE_a.txt").unwrap();
    assert_eq!(rows(&nav), vec![b"DIR_..".to_vec(), b"DIR_sub".to_vec(), b"FILE_a.txt".to_vec()]);
    assert_eq!(nav.selected(), 0);
    assert_eq!(nav.scroll(), 0);
    assert_eq!(nav.depth(), 0);
    assert_eq!(nav.current(), &b"DIR_..".to_vec());
}

#[test]
fn empty_listing_is_one_empty_row() {
    let nav = Navigator::new(b"").unwrap();
    assert_eq!(rows(&nav), vec![Vec::<u8>::new()]);
}

#[test]
fn listing_that_is_not_text_is_refused() {
    assert_eq!(Navigator::new(b"DIR_\xff").err(), Some(NavError::NotText));
    let mut nav = Navigator::new(b"DIR_a\rDIR_b").unwrap();
    nav.move_down(10);
    assert_eq!(nav.show(b"\xc0\xaf"), Err(NavError::NotText));
    assert_eq!(nav.restore(b"\xc0\xaf"), Err(NavError::NotText));
    assert_eq!(rows(&nav), vec![b"DIR_a".to_vec(), b"DIR_b".to_vec()]);
    assert_eq!(nav.selected(), 1);
}

#[test]
fn selection_wraps_both_ways() {
    let mut nav = Navigator::new(b"a\rb\rc").unwrap();
    nav.move_down(10);
    assert_eq!(nav.selected(), 1);
    nav.move_down(10);
    assert_eq!(nav.selected(), 2);
    nav.move_down(10);
    assert_eq!(nav.selected(), 0);
    nav.move_up(10);
    assert_eq!(nav.selected(), 2);
    nav.move_up(10);
    assert_eq!(nav.selected(), 1);
}

#[test]
fn window_moves_only_when_selection_leaves_it() {
    let mut nav = Navigator::new(b"0\r1\r2\r3\r4\r5").unwrap();
    nav.move_down(3);
    nav.move_down(3);
    assert_eq!((nav.selected(), nav.scroll()), (2, 0));
    nav.move_down(3);
    assert_eq!((nav.selected(), nav.scroll()), (3, 1));
    nav.move_down(3);
    assert_eq!((nav.selected(), nav.scroll()), (4, 2));
    nav.move_up(3);
    assert_eq!((nav.selected(), nav.scroll()), (3, 2));
    nav.move_up(3);
    assert_eq!((nav.selected(), nav.scroll()), (2, 2));
    nav.move_up(3);
    assert_eq!((nav.selected(), nav.scroll()), (1, 1));
    nav.move_down(3);
    nav.move_down(3);
    nav.move_down(3);
    nav.move_down(3);
    assert_eq!((nav.selected(), nav.scroll()), (5, 3));
    nav.move_down(3);
    assert_eq!((nav.selected(), nav.scroll()), (0, 0));
    nav.move_up(3);
    assert_eq!((nav.selected(), nav.scroll()), (5, 3));
}

#[test]
fn window_ends_with_screen_or_listing() {
    let mut nav = Navigator::new(b"0\r1\r2\r3\r4\r5").unwrap();
    assert_eq!((nav.scroll(), nav.window_end(3)), (0, 3));
    assert_eq!((nav.scroll(), nav.window_end(6)), (0, 6));
    assert_eq!((nav.scroll(), nav.window_end(60)), (0, 6));
    assert_eq!((nav.scroll(), nav.window_end(0)), (0, 1));
    nav.move_up(3);
    assert_eq!((nav.scroll(), nav.window_end(3)), (3, 6));
    assert_eq!((nav.scroll(), nav.window_end(2)), (3, 5));
}

#[test]
fn scroll_to_exact_values() {
    assert_eq!(scroll_to(0, 0, 5), 0);
    assert_eq!(scroll_to(0, 4, 5), 0);
    assert_eq!(scroll_to(0, 5, 5), 1);
    assert_eq!(scroll_to(7, 3, 5), 3);
    assert_eq!(scroll_to(2, 9, 1), 9);
    assert_eq!(scroll_to(2, 9, 0), 9);
    assert_eq!(scroll_to(2, 2, 0), 2);
}

#[test]
fn opening_a_file_row_asks_for_the_file() {
    let mut nav = Navigator::new(b"DIR_..\rDIR_sub\rFILE_a.txt").unwrap();
    nav.move_down(24);
    nav.move_down(24);
    let request = nav.open().unwrap();
    assert_eq!(request.payload, b"FILE_a.txt".to_vec());
    assert_eq!(request.expect, Expect::File);
    assert_eq!(nav.depth(), 0);
    assert_eq!(nav.selected(), 2);
}

#[test]
fn descending_records_one_token() {
    let mut nav = Navigator::new(b"DIR_..\rDIR_sub\rFILE_a.txt").unwrap();
    nav.move_down(24);
    let request = nav.open().unwrap();
    assert_eq!(request.payload, b"DIR_sub".to_vec());
    assert_eq!(request.expect, Expect::Listing);
    assert_eq!(nav.depth(), 1);
    nav.show(b"DIR_..\rFILE_sub/b.txt").unwrap();
    assert_eq!(nav.selected(), 0);
    assert_eq!(rows(&nav), vec![b"DIR_..".to_vec(), b"FILE_sub/b.txt".to_vec()]);
    assert_eq!(nav.go_back(), Some(Vec::new()));
    assert_eq!(nav.depth(), 0);
    assert_eq!(nav.go_back(), None);
}

#[test]
fn token_is_parent_of_second_row() {
    assert_eq!(token_for(b"DIR_/srv/root/sub"), Some(b"DIR_/srv/root".to_vec()));
    assert_eq!(token_for(b"FILE_/srv/root/a.txt"), Some(b"DIR_/srv/root".to_vec()));
    assert_eq!(token_for(b"FILE_/a.txt"), Some(b"DIR_".to_vec()));
    assert_eq!(token_for(b"DIR_sub"), Some(Vec::new()));
    assert_eq!(token_for(b"DIR_/srv//root/sub/"), Some(b"DIR_/srv//root".to_vec()));
}

#[test]
fn no_token_without_parent() {
    assert_eq!(token_for(b""), None);
    assert_eq!(token_for(b"/"), None);
    assert_eq!(token_for(b"FILE_a.txt"), None);
    assert_eq!(token_for(b"DIR_/srv/\xff"), None);
}

#[test]
fn token_from_parent_swaps_the_tag() {
    assert_eq!(token_from_parent(true, b"FILE_/srv"), Some(b"DIR_/srv".to_vec()));
    assert_eq!(token_from_parent(true, b"FILE_"), Some(b"DIR_".to_vec()));
    assert_eq!(token_from_parent(true, b"/srv"), None);
    assert_eq!(token_from_parent(true, b""), None);
    assert_eq!(token_from_parent(false, b"DIR_/srv"), Some(b"DIR_/srv".to_vec()));
    assert_eq!(token_from_parent(false, b""), Some(Vec::new()));
}

#[test]
fn descent_without_token_changes_nothing() {
    let mut nav = Navigator::new(b"DIR_sub\rFILE_a.txt").unwrap();
    assert_eq!(nav.open().err(), Some(NavError::NoParent));
    assert_eq!(nav.depth(), 0);
    assert_eq!(rows(&nav), vec![b"DIR_sub".to_vec(), b"FILE_a.txt".to_vec()]);
}

#[test]
fn descent_from_single_row_records_nothing() {
    let mut nav = Navigator::new(b"DIR_..").unwrap();
    let request = nav.open().unwrap();
    assert_eq!(request.payload, b"DIR_..".to_vec());
    assert_eq!(request.expect, Expect::Listing);
    assert_eq!(nav.depth(), 0);
}

#[test]
fn depth_follows_descents_and_returns() {
    let mut nav = Navigator::new(b"DIR_..\rDIR_/r/a\rFILE_/r/f").unwrap();
    nav.move_down(24);
    nav.open().unwrap();
    nav.show(b"DIR_..\rDIR_/r/a/b").unwrap();
    assert_eq!(nav.depth(), 1);
    nav.move_down(24);
    nav.open().unwrap();
    nav.show(b"DIR_..\rFILE_/r/a/b/x").unwrap();
    assert_eq!(nav.depth(), 2);
    assert_eq!(nav.go_back(), Some(b"DIR_/r/a".to_vec()));
    nav.restore(b"DIR_..\rDIR_/r/a/b").unwrap();
    assert_eq!(nav.depth(), 1);
    nav.move_down(24);
    nav.open().unwrap();
    nav.show(b"DIR_..\rFILE_/r/a/b/x").unwrap();
    assert_eq!(nav.depth(), 2);
    assert_eq!(nav.go_back(), Some(b"DIR_/r/a".to_vec()));
    nav.restore(b"DIR_..\rDIR_/r/a/b").unwrap();
    assert_eq!(nav.go_back(), Some(b"DIR_/r".to_vec()));
    nav.restore(b"DIR_..\rDIR_/r/a\rFILE_/r/f").unwrap();
    assert_eq!(nav.depth(), 0);
}

#[test]
fn going_back_keeps_selection_where_it_fits() {
    let mut nav = Navigator::new(b"DIR_..\rDIR_/r/a\rDIR_/r/b\rDIR_/r/c").unwrap();
    nav.move_down(2);
    nav.move_down(2);
    nav.move_down(2);
    assert_eq!((nav.selected(), nav.scroll()), (3, 2));
    nav.open().unwrap();
    nav.show(b"DIR_..\rFILE_/r/c/x").unwrap();
    assert_eq!((nav.selected(), nav.scroll()), (0, 0));
    nav.move_down(2);
    assert!(nav.go_back().is_some());
    nav.restore(b"DIR_..\rDIR_/r/a\rDIR_/r/b\rDIR_/r/c").unwrap();
    assert_eq!((nav.selected(), nav.scroll()), (1, 0));
    nav.move_down(2);
    nav.move_down(2);
    nav.restore(b"only").unwrap();
    assert_eq!((nav.selected(), nav.scroll()), (0, 0));
}

#[test]
fn info_request_names_the_path() {
    assert_eq!(info_request(b"FILE_a.txt"), Some(b"FILEINFO_a.txt".to_vec()));
    assert_eq!(info_request(b"DIR_/srv/sub"), Some(b"FILEINFO_/srv/sub".to_vec()));
    assert_eq!(info_request(b"DIR_.."), Some(b"FILEINFO_..".to_vec()));
    assert_eq!(info_request(b"a.txt"), None);
}

#[test]
fn info_reply_reads_kind_and_size() {
    assert_eq!(parse_info(b"1\r10"), Some(Info { is_file: true, size: 10 }));
    assert_eq!(parse_info(b"0\r4096"), Some(Info { is_file: false, size: 4096 }));
    assert_eq!(parse_info(b"2\r5"), Some(Info { is_file: false, size: 5 }));
    assert_eq!(parse_info(b"1\r10\r7"), Some(Info { is_file: true, size: 10 }));
    assert_eq!(Info { is_file: true, size: 4096 }.kilobytes(), 4);
    assert_eq!(Info { is_file: true, size: 1023 }.kilobytes(), 0);
}

#[test]
fn malformed_info_reply_is_refused() {
    assert_eq!(parse_info(b""), None);
    assert_eq!(parse_info(b"1"), None);
    assert_eq!(parse_info(b"1\r"), None);
    assert_eq!(parse_info(b"x\r10"), None);
    assert_eq!(parse_info(b"1\r10\r"), None);
    assert_eq!(parse_info(b"1\r18446744073709551616"), None);
}
