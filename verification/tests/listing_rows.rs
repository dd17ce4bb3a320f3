use secure_browse::command::Command;
use secure_browse::listing::{
    join_rows, list_directory, listing_payload, split_rows, unwrap_empty_string, Entry, EntryKind,
};

fn dir(path: &str) -> Entry {
    Entry { kind: EntryKind::Directory, path: path.as_bytes().to_vec() }
}

fn file(path: &str) -> Entry {
    Entry { kind: EntryKind::File, path: path.as_bytes().to_vec() }
}

#[test]
fn entry_rows_carry_their_tag() {
    assert_eq!(file("/srv/a.txt").to_row(), b"FILE_/srv/a.txt".to_vec());
    assert_eq!(dir("/srv/sub").to_row(), b"DIR_/srv/sub".to_vec());
    assert_eq!(dir("").to_row(), b"DIR_".to_vec());
}

#[test]
fn entry_rows_read_back() {
    let e = Entry::from_row(b"FILE_/srv/a.txt").unwrap();
    assert_eq!(e.kind, EntryKind::File);
    assert_eq!(e.path, b"/srv/a.txt".to_vec());
    let d = Entry::from_row(b"DIR_..").unwrap();
    assert_eq!(d.kind, EntryKind::Directory);
    assert_eq!(d.path, b"..".to_vec());
    assert!(Entry::from_row(b"FILEINFO_x").is_none());
    assert!(Entry::from_row(b"dir_x").is_none());
    assert!(Entry::from_row(b"").is_none());
}

#[test]
fn listing_with_parent_starts_with_dot_dot() {
    let listing = list_directory(true, &vec![dir("sub"), file("a.txt")]);
    assert_eq!(
        listing,
        vec![b"DIR_..".to_vec(), b"DIR_sub".to_vec(), b"FILE_a.txt".to_vec()]
    );
}

#[test]
fn listing_of_root_has_no_dot_dot() {
    let listing = list_directory(false, &vec![dir("/etc"), file("/vmlinuz")]);
    assert_eq!(listing, vec![b"DIR_/etc".to_vec(), b"FILE_/vmlinuz".to_vec()]);
    assert_eq!(list_directory(false, &Vec::new()), Vec::<Vec<u8>>::new());
    assert_eq!(list_directory(true, &Vec::new()), vec![b"DIR_..".to_vec()]);
}

#[test]
fn listing_keeps_the_order_given() {
    let listing = list_directory(false, &vec![file("z"), dir("a"), file("m")]);
    assert_eq!(listing, vec![b"FILE_z".to_vec(), b"DIR_a".to_vec(), b"FILE_m".to_vec()]);
}

#[test]
fn rows_join_with_separator_between() {
    let rows = vec![b"DIR_..".to_vec(), b"DIR_sub".to_vec(), b"FILE_a.txt".to_vec()];
    assert_eq!(listing_payload(&rows), b"DIR_..\rDIR_sub\rFILE_a.txt".to_vec());
    assert_eq!(join_rows(&rows, b", "), b"DIR_.., DIR_sub, FILE_a.txt".to_vec());
    assert_eq!(listing_payload(&Vec::new()), Vec::<u8>::new());
    assert_eq!(listing_payload(&vec![b"x".to_vec()]), b"x".to_vec());
}

#[test]
fn split_cuts_at_each_separator() {
    assert_eq!(
        split_rows(b"a\rb\rc", b"\r"),
        vec![b"a".to_vec(), b"b".to_vec(), b"c".to_vec()]
    );
    assert_eq!(split_rows(b"", b"\r"), vec![Vec::<u8>::new()]);
    assert_eq!(split_rows(b"\r", b"\r"), vec![Vec::<u8>::new(), Vec::<u8>::new()]);
    assert_eq!(
        split_rows(b"a\r\rb\r", b"\r"),
        vec![b"a".to_vec(), Vec::new(), b"b".to_vec(), Vec::new()]
    );
}

#[test]
fn split_with_long_separator_goes_left_to_right() {
    assert_eq!(split_rows(b"aaa", b"aa"), vec![Vec::<u8>::new(), b"a".to_vec()]);
    assert_eq!(
        split_rows(b"x--y---z", b"--"),
        vec![b"x".to_vec(), b"y".to_vec(), b"-z".to_vec()]
    );
    assert_eq!(split_rows(b"ab", b"abc"), vec![b"ab".to_vec()]);
}

#[test]
fn unwrap_empty_string_agrees_with_str_split() {
    let samples = ["DIR_..\rDIR_sub\rFILE_a.txt", "", "\r", "a\r\rb", "no separator", "h\u{e9}\rll\u{f6}"];
    for text in samples {
        let want: Vec<Vec<u8>> = text.split("\r").map(|p| p.as_bytes().to_vec()).collect();
        assert_eq!(unwrap_empty_string(text.to_string(), "\r"), want);
    }
    let want: Vec<Vec<u8>> = "a\u{e9}b\u{e9}\u{e9}c".split("\u{e9}").map(|p| p.as_bytes().to_vec()).collect();
    assert_eq!(unwrap_empty_string("a\u{e9}b\u{e9}\u{e9}c".to_string(), "\u{e9}"), want);
}

#[test]
fn empty_separator_cuts_between_characters() {
    let samples = ["abc", "", "h\u{e9}llo", "\u{20ac}\u{1F600}x"];
    for text in samples {
        let want: Vec<Vec<u8>> = text.split("").map(|p| p.as_bytes().to_vec()).collect();
        assert_eq!(unwrap_empty_string(text.to_string(), ""), want);
    }
    assert_eq!(
        split_rows(b"ab", b""),
        vec![Vec::new(), b"a".to_vec(), b"b".to_vec(), Vec::new()]
    );
    assert_eq!(split_rows(b"", b""), vec![Vec::<u8>::new(), Vec::<u8>::new()]);
}

#[test]
fn split_undoes_join_for_rows_without_separator() {
    let rows = vec![b"DIR_..".to_vec(), b"".to_vec(), b"FILE_a b".to_vec()];
    assert_eq!(split_rows(&listing_payload(&rows), b"\r"), rows);
}

#[test]
fn commands_encode_to_their_wire_form() {
    assert_eq!(Command::File(b"a.txt".to_vec()).encode(), b"FILE_a.txt".to_vec());
    assert_eq!(Command::Dir(b"..".to_vec()).encode(), b"DIR_..".to_vec());
    assert_eq!(Command::SaveDir(b"sub".to_vec()).encode(), b"SAVEDIR_sub".to_vec());
    assert_eq!(Command::FileInfo(b"a.txt".to_vec()).encode(), b"FILEINFO_a.txt".to_vec());
    assert_eq!(Command::Shutdown.encode(), b"SHUTDOWN".to_vec());
}

#[test]
fn commands_parse_from_their_wire_form() {
    assert!(matches!(Command::parse(b"FILE_a.txt"), Some(Command::File(p)) if p == b"a.txt"));
    assert!(matches!(Command::parse(b"DIR_/srv/sub"), Some(Command::Dir(p)) if p == b"/srv/sub"));
    assert!(matches!(Command::parse(b"SAVEDIR_sub"), Some(Command::SaveDir(p)) if p == b"sub"));
    assert!(matches!(Command::parse(b"FILEINFO_a.txt"), Some(Command::FileInfo(p)) if p == b"a.txt"));
    assert!(matches!(Command::parse(b"SHUTDOWN"), Some(Command::Shutdown)));
    assert!(matches!(Command::parse(b"FILE_"), Some(Command::File(p)) if p.is_empty()));
}

#[test]
fn unknown_requests_are_violations() {
    assert!(Command::parse(b"").is_none());
    assert!(Command::parse(b"SHUTDOWN ").is_none());
    assert!(Command::parse(b"shutdown").is_none());
    assert!(Command::parse(b"DELETE_a.txt").is_none());
    assert!(Command::parse(b"FILE").is_none());
    assert!(Command::parse(b"FILEINFO").is_none());
}

#[test]
fn requests_that_are_not_text_are_violations() {
    assert!(Command::parse(b"FILE_\xff\xfe").is_none());
    assert!(Command::parse(b"DIR_\xc3").is_none());
    assert!(Command::parse("FILE_h\u{e9}".as_bytes()).is_some());
}
