use secure_browse::keys::{
    browse_action, edit_line, view_action, BrowseAction, InputStep, Key, ViewAction,
};
use secure_browse::mode::{next_mode, Event, Mode, Purpose};
use secure_browse::save::{
    confirmed_step, directory_step, file_step, has_parent, name_of, plan_with_name, save_plan,
    sends, text_step, SaveError, SaveStep,
};
use secure_browse::text::is_text;
use secure_browse::viewer::{count_lines, BadLine, Viewer};

#[test]
fn file_is_saved_under_its_own_name() {
    let plan = save_plan(b"FILE_/srv/docs/a.txt").unwrap();
    assert_eq!(plan.request, b"FILE_/srv/docs/a.txt".to_vec());
    assert_eq!(plan.name, b"a.txt".to_vec());
    assert!(!plan.directory);
}

#[test]
fn directory_is_saved_as_copy() {
    let plan = save_plan(b"DIR_/srv/docs").unwrap();
    assert_eq!(plan.request, b"SAVEDIR_/srv/docs".to_vec());
    assert_eq!(plan.name, b"copied_docs".to_vec());
    assert!(plan.directory);
}

#[test]
fn relative_directory_is_named_after_its_request() {
    let plan = save_plan(b"DIR_sub").unwrap();
    assert_eq!(plan.request, b"SAVEDIR_sub".to_vec());
    assert_eq!(plan.name, b"copied_SAVEDIR_sub".to_vec());
}

#[test]
fn rows_without_name_cannot_be_saved() {
    assert_eq!(save_plan(b"a.txt").err(), Some(SaveError::NotAnEntry));
    assert_eq!(save_plan(b"").err(), Some(SaveError::NotAnEntry));
    assert_eq!(save_plan(b"FILE_").err(), Some(SaveError::NoName));
    assert_eq!(save_plan(b"FILE_/srv/..").err(), Some(SaveError::NoName));
    assert_eq!(save_plan(b"DIR_/srv/..").err(), Some(SaveError::NoName));
    assert_eq!(save_plan(b"FILE_/srv/\xff").err(), Some(SaveError::NoName));
}

#[test]
fn plan_with_name_uses_the_name_given() {
    let plan = plan_with_name(b"DIR_/x/y", b"y").unwrap();
    assert_eq!(plan.request, b"SAVEDIR_/x/y".to_vec());
    assert_eq!(plan.name, b"copied_y".to_vec());
    let plan = plan_with_name(b"FILE_/x/y", b"y").unwrap();
    assert_eq!(plan.request, b"FILE_/x/y".to_vec());
    assert_eq!(plan.name, b"y".to_vec());
    assert!(plan_with_name(b"/x/y", b"y").is_none());
}

#[test]
fn name_of_takes_last_component() {
    assert_eq!(name_of(b"/srv/docs/a.txt"), Some(b"a.txt".to_vec()));
    assert_eq!(name_of(b"/srv/docs/"), Some(b"docs".to_vec()));
    assert_eq!(name_of(b"/"), None);
    assert_eq!(name_of(b""), None);
    assert_eq!(name_of(b"\xff"), None);
}

#[test]
fn destination_needs_a_parent() {
    assert!(has_parent("/home/u/copied_docs"));
    assert!(has_parent("copied_docs"));
    assert!(!has_parent("/"));
    assert!(!has_parent(""));
    assert_eq!(directory_step(false, false), SaveStep::Reject);
    assert_eq!(directory_step(false, true), SaveStep::Reject);
    assert_eq!(file_step(false), SaveStep::Reject);
    assert_eq!(file_step(true), SaveStep::Fetch);
}

#[test]
fn free_destination_is_fetched_at_once() {
    assert_eq!(directory_step(true, false), SaveStep::Fetch);
}

#[test]
fn declined_overwrite_aborts_without_request() {
    let mut mode = Mode::Browsing;
    mode = next_mode(mode, Event::SaveAsked { directory: true }).unwrap();
    assert_eq!(mode, Mode::AwaitingInput(Purpose::Directory));
    let step = directory_step(true, true);
    assert_eq!(step, SaveStep::Confirm);
    assert!(!sends(step));
    mode = next_mode(mode, Event::Judged(step)).unwrap();
    assert_eq!(mode, Mode::ConfirmingOverwrite);
    let step = confirmed_step(false);
    assert_eq!(step, SaveStep::Abort);
    assert!(!sends(step));
    mode = next_mode(mode, Event::Judged(step)).unwrap();
    assert_eq!(mode, Mode::Browsing);
}

#[test]
fn only_fetching_steps_send() {
    assert!(sends(SaveStep::Fetch));
    assert!(sends(SaveStep::ReplaceThenFetch));
    assert!(!sends(SaveStep::Reject));
    assert!(!sends(SaveStep::Confirm));
    assert!(!sends(SaveStep::Abort));
}

#[test]
fn modes_follow_each_other() {
    assert_eq!(next_mode(Mode::Browsing, Event::FileShown), Some(Mode::ViewingFile));
    assert_eq!(next_mode(Mode::Browsing, Event::Stayed), Some(Mode::Browsing));
    assert_eq!(next_mode(Mode::Browsing, Event::Closed), Some(Mode::Browsing));
    assert_eq!(next_mode(Mode::Browsing, Event::Quit), None);
    assert_eq!(
        next_mode(Mode::Browsing, Event::SaveAsked { directory: false }),
        Some(Mode::AwaitingInput(Purpose::File))
    );
    assert_eq!(next_mode(Mode::ViewingFile, Event::Closed), Some(Mode::Browsing));
    assert_eq!(next_mode(Mode::ViewingFile, Event::Quit), Some(Mode::ViewingFile));
    assert_eq!(
        next_mode(Mode::ViewingFile, Event::SaveAsked { directory: false }),
        Some(Mode::AwaitingInput(Purpose::Text))
    );
    assert_eq!(
        next_mode(Mode::AwaitingInput(Purpose::Text), Event::Judged(SaveStep::Fetch)),
        Some(Mode::ViewingFile)
    );
    assert_eq!(
        next_mode(Mode::AwaitingInput(Purpose::Text), Event::Judged(SaveStep::Reject)),
        Some(Mode::Browsing)
    );
    assert_eq!(
        next_mode(Mode::AwaitingInput(Purpose::File), Event::Judged(SaveStep::Fetch)),
        Some(Mode::Browsing)
    );
    assert_eq!(
        next_mode(Mode::AwaitingInput(Purpose::File), Event::Judged(SaveStep::Confirm)),
        Some(Mode::Browsing)
    );
    assert_eq!(
        next_mode(Mode::AwaitingInput(Purpose::Directory), Event::Judged(SaveStep::Fetch)),
        Some(Mode::Browsing)
    );
    assert_eq!(
        next_mode(Mode::ConfirmingOverwrite, Event::Judged(SaveStep::ReplaceThenFetch)),
        Some(Mode::Browsing)
    );
    assert_eq!(next_mode(Mode::ConfirmingOverwrite, Event::Stayed), Some(Mode::ConfirmingOverwrite));
}

#[test]
fn accepted_overwrite_replaces_then_fetches() {
    assert_eq!(directory_step(true, true), SaveStep::Confirm);
    assert_eq!(confirmed_step(true), SaveStep::ReplaceThenFetch);
}

#[test]
fn text_is_written_unless_parent_is_missing() {
    assert_eq!(text_step(Some(true)), SaveStep::Fetch);
    assert_eq!(text_step(None), SaveStep::Fetch);
    assert_eq!(text_step(Some(false)), SaveStep::Reject);
}

#[test]
fn is_text_follows_utf8() {
    assert!(is_text(b""));
    assert!(is_text(b"plain ascii\n"));
    assert!(is_text("\u{20ac}".as_bytes()));
    assert!(!is_text(b"\xe2\x82"));
    assert!(!is_text(b"\xc0\x80"));
    assert!(!is_text(b"\xf5\x80\x80\x80"));
}

#[test]
fn lines_are_counted_like_text_lines() {
    let samples = ["", "a", "a\n", "a\nb", "a\nb\n", "\n", "\n\n", "a\r\nb\r\n", "x\n\ny"];
    for text in samples {
        assert_eq!(count_lines(text.as_bytes()), text.lines().count());
    }
}

#[test]
fn viewer_scrolls_within_the_text() {
    let mut viewer = Viewer::new(b"1\n2\n3\n4\n5\n", 3);
    assert_eq!((viewer.top(), viewer.bottom()), (0, 3));
    viewer.scroll_up();
    assert_eq!((viewer.top(), viewer.bottom()), (0, 3));
    viewer.scroll_down();
    assert_eq!((viewer.top(), viewer.bottom()), (1, 4));
    viewer.scroll_down();
    assert_eq!((viewer.top(), viewer.bottom()), (2, 5));
    viewer.scroll_down();
    assert_eq!((viewer.top(), viewer.bottom()), (2, 5));
    viewer.scroll_up();
    assert_eq!((viewer.top(), viewer.bottom()), (1, 4));
}

#[test]
fn short_text_does_not_scroll() {
    let mut viewer = Viewer::new(b"1\n2\n", 10);
    assert_eq!((viewer.top(), viewer.bottom()), (0, 2));
    viewer.scroll_down();
    assert_eq!((viewer.top(), viewer.bottom()), (0, 2));
    let empty = Viewer::new(b"", 10);
    assert_eq!((empty.top(), empty.bottom()), (0, 0));
}

#[test]
fn jump_goes_to_the_buffered_line() {
    let mut viewer = Viewer::new(b"0\n1\n2\n3\n4\n5\n6\n7\n8\n9\n10\n11\n", 4);
    assert!(viewer.type_digit(b'1'));
    assert!(viewer.type_digit(b'0'));
    assert!(!viewer.type_digit(b'x'));
    assert_eq!(viewer.buffer(), &b"10".to_vec());
    assert_eq!(viewer.jump(), Ok(10));
    assert_eq!((viewer.top(), viewer.bottom()), (10, 12));
    assert_eq!(viewer.buffer(), &Vec::<u8>::new());
    viewer.scroll_down();
    assert_eq!(viewer.top(), 10);
    viewer.scroll_up();
    assert_eq!(viewer.top(), 9);
}

#[test]
fn bad_jump_clears_buffer_and_stays() {
    let mut viewer = Viewer::new(b"a\nb\nc\n", 2);
    viewer.scroll_down();
    assert_eq!(viewer.jump(), Err(BadLine));
    assert_eq!(viewer.top(), 1);
    viewer.type_digit(b'3');
    assert_eq!(viewer.jump(), Err(BadLine));
    assert_eq!(viewer.buffer(), &Vec::<u8>::new());
    assert_eq!(viewer.top(), 1);
    viewer.type_digit(b'2');
    assert_eq!(viewer.jump(), Ok(2));
    assert_eq!(viewer.top(), 2);
}

#[test]
fn browsing_keys() {
    assert_eq!(browse_action(Key::Char(' ')), BrowseAction::Info);
    assert_eq!(browse_action(Key::Char('s')), BrowseAction::Save);
    assert_eq!(browse_action(Key::Char('q')), BrowseAction::Quit);
    assert_eq!(browse_action(Key::Esc), BrowseAction::Quit);
    assert_eq!(browse_action(Key::Up), BrowseAction::MoveUp);
    assert_eq!(browse_action(Key::Char('k')), BrowseAction::MoveUp);
    assert_eq!(browse_action(Key::Down), BrowseAction::MoveDown);
    assert_eq!(browse_action(Key::Char('j')), BrowseAction::MoveDown);
    assert_eq!(browse_action(Key::Enter), BrowseAction::Open);
    assert_eq!(browse_action(Key::Right), BrowseAction::Open);
    assert_eq!(browse_action(Key::Left), BrowseAction::Back);
    assert_eq!(browse_action(Key::Char('x')), BrowseAction::Nothing);
    assert_eq!(browse_action(Key::Backspace), BrowseAction::Nothing);
    assert_eq!(browse_action(Key::Other), BrowseAction::Nothing);
}

#[test]
fn viewing_keys() {
    assert_eq!(view_action(Key::Char('g')), ViewAction::Jump);
    assert_eq!(view_action(Key::Char('q')), ViewAction::Close);
    assert_eq!(view_action(Key::Char('k')), ViewAction::ScrollUp);
    assert_eq!(view_action(Key::Up), ViewAction::ScrollUp);
    assert_eq!(view_action(Key::Char('j')), ViewAction::ScrollDown);
    assert_eq!(view_action(Key::Down), ViewAction::ScrollDown);
    assert_eq!(view_action(Key::Char('s')), ViewAction::Save);
    assert_eq!(view_action(Key::Char('0')), ViewAction::Digit(b'0'));
    assert_eq!(view_action(Key::Char('9')), ViewAction::Digit(b'9'));
    assert_eq!(view_action(Key::Char('a')), ViewAction::Nothing);
    assert_eq!(view_action(Key::Char('\u{663}')), ViewAction::Nothing);
    assert_eq!(view_action(Key::Esc), ViewAction::Nothing);
    assert_eq!(view_action(Key::Enter), ViewAction::Nothing);
}

#[test]
fn input_line_editing() {
    let mut line: Vec<char> = "/tmp/a".chars().collect();
    assert_eq!(edit_line(&mut line, Key::Char('b')), InputStep::Editing);
    assert_eq!(line.iter().collect::<String>(), "/tmp/ab");
    assert_eq!(edit_line(&mut line, Key::Backspace), InputStep::Editing);
    assert_eq!(edit_line(&mut line, Key::Backspace), InputStep::Editing);
    assert_eq!(line.iter().collect::<String>(), "/tmp/");
    assert_eq!(edit_line(&mut line, Key::Left), InputStep::Editing);
    assert_eq!(edit_line(&mut line, Key::Char('q')), InputStep::Done);
    assert_eq!(edit_line(&mut line, Key::Enter), InputStep::Done);
    assert_eq!(line.iter().collect::<String>(), "/tmp/");
    let mut empty: Vec<char> = Vec::new();
    assert_eq!(edit_line(&mut empty, Key::Backspace), InputStep::Editing);
    assert!(empty.is_empty());
}
