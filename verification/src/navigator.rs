//! The client's side of browsing: the listing last received, the selection
//! and the window over it, and the trail of directories to go back to.
//!
//! The client never learns where on the server it stands. What to ask for
//! when going back is inferred from the listing at the moment of descending,
//! by one fixed rule on its second row.

use vstd::prelude::*;
use vstd::utf8::{decode_utf8, encode_utf8, encode_utf8_decode_utf8, valid_utf8};
use crate::bytes::{append, copy_range, has_prefix, starts_with};
use crate::frame::SEPARATOR;
use crate::listing::{dir_tag, dir_tag_bytes, file_tag, file_tag_bytes, rows_of, split, split_rows};
use crate::paths::{parent_of, path_parent};
use crate::text::{as_text, is_text};

verus! {

/// Why the navigator could not do what was asked.
#[derive(Clone, Copy, Debug, PartialEq, Eq, Structural)]
pub enum NavError {
    /// A listing arrived that is not text.
    NotText,
    /// No place to go back to can be inferred from the listing.
    NoParent,
}

/// What kind of reply a request will be answered with.
#[derive(Clone, Copy, Debug, PartialEq, Eq, Structural)]
pub enum Expect {
    /// The reply to a file request: the binary marker or one frame.
    File,
    /// One frame that holds a listing.
    Listing,
}

/// A request to send, and the kind of reply to wait for.
#[derive(Debug)]
pub struct Request {
    pub payload: Vec<u8>,
    pub expect: Expect,
}

/// The model of a [`Navigator`].
pub struct NavView {
    pub listing: Seq<Seq<u8>>,
    pub selected: int,
    pub scroll: int,
    pub history: Seq<Seq<u8>>,
}

/// The parent of a row taken as the text of a path, tag and all; `None`
/// where the row is not text or the path has no parent.
pub open spec fn parent_of_row(row: Seq<u8>) -> Option<Seq<u8>> {
    if !valid_utf8(row) {
        None
    } else {
        match parent_of(decode_utf8(row)) {
            Some(p) => Some(encode_utf8(p)),
            None => None,
        }
    }
}

/// The token for going back, from the parent of the listing's second row.
/// Where that row is a file, the parent still carries the file tag, and
/// the token is the parent with the directory tag in its place; a parent
/// that has lost the tag gives no token. Where the row is no file, the
/// token is the parent as it stands.
pub open spec fn token_of_parent(second_is_file: bool, parent: Seq<u8>) -> Option<Seq<u8>> {
    if second_is_file {
        if has_prefix(parent, file_tag()) {
            Some(dir_tag() + parent.subrange(5, parent.len() as int))
        } else {
            None
        }
    } else {
        Some(parent)
    }
}

/// The token for going back that a listing's second row gives.
pub open spec fn history_token(second: Seq<u8>) -> Option<Seq<u8>> {
    match parent_of_row(second) {
        Some(parent) => token_of_parent(has_prefix(second, file_tag()), parent),
        None => None,
    }
}

/// The number of rows of a window; a screen without rows still shows one.
pub open spec fn window(height: int) -> int {
    if height <= 0 {
        1
    } else {
        height
    }
}

/// Where the window starts once the selection has moved: it stays where it
/// was unless the selection has left it, and then moves just far enough.
pub open spec fn scroll_for(scroll: int, selected: int, height: int) -> int {
    if selected < scroll {
        selected
    } else if selected >= scroll + window(height) {
        selected + 1 - window(height)
    } else {
        scroll
    }
}

/// The state after the selection moved one row down, past the end to the first row.
pub open spec fn moved_down(v: NavView, height: int) -> NavView {
    let selected = (v.selected + 1) % (v.listing.len() as int);
    NavView { selected, scroll: scroll_for(v.scroll, selected, height), ..v }
}

/// The state after the selection moved one row up, past the first row to the end.
pub open spec fn moved_up(v: NavView, height: int) -> NavView {
    let selected = if v.selected == 0 {
        v.listing.len() - 1
    } else {
        v.selected - 1
    };
    NavView { selected, scroll: scroll_for(v.scroll, selected, height), ..v }
}

/// The trail after a descent from the listing of `v`: one token longer
/// where the listing has a second row, unchanged where it has none.
pub open spec fn trail_after_descent(v: NavView) -> Seq<Seq<u8>> {
    if v.listing.len() > 1 {
        v.history.push(history_token(v.listing[1]).unwrap())
    } else {
        v.history
    }
}

/// Whether a descent from the listing of `v` can record where to go back to.
pub open spec fn can_descend(v: NavView) -> bool {
    v.listing.len() > 1 ==> history_token(v.listing[1]).is_some()
}

/// The state once the listing of a directory that was descended into has arrived.
pub open spec fn shown(v: NavView, payload: Seq<u8>) -> NavView {
    NavView { listing: split(payload, seq![SEPARATOR]), selected: 0, scroll: 0, history: v.history }
}

/// The state once the listing of a directory that was gone back to has
/// arrived: the selection stays where the new listing still has that row.
pub open spec fn restored(v: NavView, payload: Seq<u8>) -> NavView {
    let listing = split(payload, seq![SEPARATOR]);
    if v.selected < listing.len() {
        NavView { listing, ..v }
    } else {
        NavView { listing, selected: 0, scroll: 0, history: v.history }
    }
}

/// A listing has at least one row, whatever the payload.
pub proof fn lemma_split_not_empty(s: Seq<u8>, sep: Seq<u8>)
    ensures
        split(s, sep).len() >= 1,
{
    if sep.len() > 0 {
        assert(crate::listing::pieces(s, sep).len() >= 1);
    }
}

/// Builds the token for going back from the parent of the second row.
pub fn token_from_parent(second_is_file: bool, parent: &[u8]) -> (token: Option<Vec<u8>>)
    ensures
        match token {
            Some(t) => token_of_parent(second_is_file, parent@) == Some(t@),
            None => token_of_parent(second_is_file, parent@).is_none(),
        },
{
    if second_is_file {
        if starts_with(parent, file_tag_bytes().as_slice()) {
            let mut token = dir_tag_bytes();
            let rest = copy_range(parent, 5, parent.len());
            append(&mut token, rest.as_slice());
            Some(token)
        } else {
            None
        }
    } else {
        Some(copy_range(parent, 0, parent.len()))
    }
}

/// Infers the token for going back from the second row of a listing.
pub fn token_for(second: &[u8]) -> (token: Option<Vec<u8>>)
    ensures
        match token {
            Some(t) => history_token(second@) == Some(t@),
            None => history_token(second@).is_none(),
        },
{
    match as_text(second) {
        None => None,
        Some(text) => {
            proof {
                encode_utf8_decode_utf8(text@);
            }
            match path_parent(text) {
                None => None,
                Some(parent) => {
                    let is_file = starts_with(second, file_tag_bytes().as_slice());
                    token_from_parent(is_file, parent.as_str().as_bytes())
                },
            }
        },
    }
}

/// The browsing state of a client.
pub struct Navigator {
    listing: Vec<Vec<u8>>,
    selected: usize,
    scroll: usize,
    history: Vec<Vec<u8>>,
}

impl Navigator {
    /// What the navigator holds.
    pub closed spec fn view(&self) -> NavView {
        NavView {
            listing: rows_of(self.listing@),
            selected: self.selected as int,
            scroll: self.scroll as int,
            history: rows_of(self.history@),
        }
    }

    /// A listing is never empty, the selection is one of its rows, and the
    /// window does not start below the selection.
    pub open spec fn wf(&self) -> bool {
        &&& self@.listing.len() >= 1
        &&& 0 <= self@.scroll <= self@.selected < self@.listing.len()
    }

    /// The state of a client that has just connected, from the payload of
    /// the listing that the server sends first.
    pub fn new(payload: &[u8]) -> (r: Result<Navigator, NavError>)
        ensures
            match r {
                Ok(nav) => valid_utf8(payload@) && nav.wf() && nav@ == (NavView {
                    listing: split(payload@, seq![SEPARATOR]),
                    selected: 0,
                    scroll: 0,
                    history: Seq::<Seq<u8>>::empty(),
                }),
                Err(e) => !valid_utf8(payload@) && e == NavError::NotText,
            },
    {
        if !is_text(payload) {
            return Err(NavError::NotText);
        }
        let listing = cut_listing(payload);
        let nav = Navigator { listing, selected: 0, scroll: 0, history: Vec::new() };
        proof {
            assert(nav@.history =~= Seq::<Seq<u8>>::empty());
        }
        Ok(nav)
    }

    /// The number of rows of the listing.
    pub fn len(&self) -> (n: usize)
        ensures
            n == self@.listing.len(),
    {
        self.listing.len()
    }

    /// The index of the selected row.
    pub fn selected(&self) -> (i: usize)
        ensures
            i == self@.selected,
    {
        self.selected
    }

    /// The index of the first row of the window.
    pub fn scroll(&self) -> (i: usize)
        ensures
            i == self@.scroll,
    {
        self.scroll
    }

    /// The number of tokens on the trail.
    pub fn depth(&self) -> (n: usize)
        ensures
            n == self@.history.len(),
    {
        self.history.len()
    }

    /// A row of the listing.
    pub fn row(&self, index: usize) -> (row: &Vec<u8>)
        requires
            index < self@.listing.len(),
        ensures
            row@ == self@.listing[index as int],
    {
        &self.listing[index]
    }

    /// The index after the last row of the window of `height` rows: the
    /// window holds as many rows as the screen has, or as many as remain.
    pub fn window_end(&self, height: usize) -> (end: usize)
        requires
            self.wf(),
        ensures
            end == (if self@.scroll + window(height as int) < self@.listing.len() {
                self@.scroll + window(height as int)
            } else {
                self@.listing.len() as int
            }),
            self@.scroll < end <= self@.listing.len(),
    {
        let rows: usize = if height == 0 {
            1
        } else {
            height
        };
        let n = self.listing.len();
        if n - self.scroll > rows {
            self.scroll + rows
        } else {
            n
        }
    }

    /// The selected row.
    pub fn current(&self) -> (row: &Vec<u8>)
        requires
            self.wf(),
        ensures
            row@ == self@.listing[self@.selected],
    {
        &self.listing[self.selected]
    }

    /// Moves the selection one row down, wrapping at the end, and lets the
    /// window of `height` rows follow.
    pub fn move_down(&mut self, height: usize)
        requires
            old(self).wf(),
        ensures
            final(self).wf(),
            final(self)@ == moved_down(old(self)@, height as int),
            final(self)@.selected < final(self)@.scroll + window(height as int),
    {
        let n = self.listing.len();
        let next: usize = if self.selected + 1 == n {
            0
        } else {
            self.selected + 1
        };
        proof {
            let s = self.selected as int;
            assert((s + 1) % (n as int) == next) by (nonlinear_arith)
                requires
                    0 <= s < n,
                    next == (if s + 1 == n { 0 } else { s + 1 }),
            ;
        }
        self.selected = next;
        self.scroll = scroll_to(self.scroll, next, height);
    }

    /// Moves the selection one row up, wrapping at the first row, and lets
    /// the window of `height` rows follow.
    pub fn move_up(&mut self, height: usize)
        requires
            old(self).wf(),
        ensures
            final(self).wf(),
            final(self)@ == moved_up(old(self)@, height as int),
            final(self)@.selected < final(self)@.scroll + window(height as int),
    {
        let next: usize = if self.selected == 0 {
            self.listing.len() - 1
        } else {
            self.selected - 1
        };
        self.selected = next;
        self.scroll = scroll_to(self.scroll, next, height);
    }

    /// Opens the selected row. The request is the row as it stands. A file
    /// row changes nothing here. Any other row is descended into: if the
    /// listing has a second row, the token inferred from it joins the
    /// trail, and where none can be inferred nothing is sent or changed.
    pub fn open(&mut self) -> (r: Result<Request, NavError>)
        requires
            old(self).wf(),
        ensures
            final(self).wf(),
            match r {
                Ok(request) => {
                    &&& request.payload@ == old(self)@.listing[old(self)@.selected]
                    &&& if has_prefix(request.payload@, file_tag()) {
                        request.expect == Expect::File && final(self)@ == old(self)@
                    } else {
                        &&& request.expect == Expect::Listing
                        &&& can_descend(old(self)@)
                        &&& final(self)@ == (NavView { history: trail_after_descent(old(self)@), ..old(self)@ })
                    }
                },
                Err(e) => {
                    &&& e == NavError::NoParent
                    &&& final(self)@ == old(self)@
                    &&& !has_prefix(old(self)@.listing[old(self)@.selected], file_tag())
                    &&& !can_descend(old(self)@)
                },
            },
    {
        let row = &self.listing[self.selected];
        let payload = copy_range(row.as_slice(), 0, row.len());
        proof {
            assert(payload@ =~= row@);
            assert(self@.listing[self@.selected] == row@);
        }
        if starts_with(payload.as_slice(), file_tag_bytes().as_slice()) {
            return Ok(Request { payload, expect: Expect::File });
        }
        if self.listing.len() > 1 {
            match token_for(self.listing[1].as_slice()) {
                None => {
                    return Err(NavError::NoParent);
                },
                Some(token) => {
                    let ghost before = rows_of(self.history@);
                    self.history.push(token);
                    proof {
                        assert(rows_of(self.history@) =~= before.push(token@));
                    }
                },
            }
        }
        Ok(Request { payload, expect: Expect::Listing })
    }

    /// Takes the listing of the directory that was descended into: it
    /// replaces the old one, and the selection returns to the first row.
    pub fn show(&mut self, payload: &[u8]) -> (r: Result<(), NavError>)
        requires
            old(self).wf(),
        ensures
            final(self).wf(),
            match r {
                Ok(_) => valid_utf8(payload@) && final(self)@ == shown(old(self)@, payload@),
                Err(e) => !valid_utf8(payload@) && e == NavError::NotText && final(self)@ == old(self)@,
            },
    {
        if !is_text(payload) {
            return Err(NavError::NotText);
        }
        self.listing = cut_listing(payload);
        self.selected = 0;
        self.scroll = 0;
        Ok(())
    }

    /// Goes back: takes the last token off the trail and returns it as the
    /// request to send, just as it was recorded. With an empty trail there
    /// is nothing to send.
    pub fn go_back(&mut self) -> (request: Option<Vec<u8>>)
        requires
            old(self).wf(),
        ensures
            final(self).wf(),
            match request {
                Some(token) => {
                    &&& old(self)@.history.len() > 0
                    &&& token@ == old(self)@.history.last()
                    &&& final(self)@ == (NavView { history: old(self)@.history.drop_last(), ..old(self)@ })
                },
                None => old(self)@.history.len() == 0 && final(self)@ == old(self)@,
            },
    {
        let ghost before = rows_of(self.history@);
        let token = self.history.pop();
        proof {
            if token.is_some() {
                assert(rows_of(self.history@) =~= before.drop_last());
            }
        }
        token
    }

    /// Takes the listing of the directory that was gone back to: it
    /// replaces the old one. The selection stays on its row if the new
    /// listing has one there, and returns to the first row if not.
    pub fn restore(&mut self, payload: &[u8]) -> (r: Result<(), NavError>)
        requires
            old(self).wf(),
        ensures
            final(self).wf(),
            match r {
                Ok(_) => valid_utf8(payload@) && final(self)@ == restored(old(self)@, payload@),
                Err(e) => !valid_utf8(payload@) && e == NavError::NotText && final(self)@ == old(self)@,
            },
    {
        if !is_text(payload) {
            return Err(NavError::NotText);
        }
        self.listing = cut_listing(payload);
        if self.selected >= self.listing.len() {
            self.selected = 0;
            self.scroll = 0;
        }
        Ok(())
    }
}

/// Cuts the payload of a listing into its rows.
pub fn cut_listing(payload: &[u8]) -> (rows: Vec<Vec<u8>>)
    ensures
        rows_of(rows@) == split(payload@, seq![SEPARATOR]),
        rows@.len() >= 1,
{
    let sep: Vec<u8> = vec![SEPARATOR];
    proof {
        assert(sep@ =~= seq![SEPARATOR]);
        lemma_split_not_empty(payload@, seq![SEPARATOR]);
    }
    let rows = split_rows(payload, sep.as_slice());
    proof {
        assert(rows_of(rows@).len() == rows@.len());
    }
    rows
}

/// Where a window of `height` rows starts once the selection is at `selected`.
pub fn scroll_to(scroll: usize, selected: usize, height: usize) -> (start: usize)
    ensures
        start == scroll_for(scroll as int, selected as int, height as int),
        start <= selected < start + window(height as int),
{
    let rows: usize = if height == 0 {
        1
    } else {
        height
    };
    if selected < scroll {
        selected
    } else if selected - scroll >= rows {
        selected - rows + 1
    } else {
        scroll
    }
}

/// One completed move between directories, with the payload of the
/// listing that answered it.
pub enum Move {
    /// A descent into the selected directory.
    Descend(Seq<u8>),
    /// A step back along the trail.
    Back(Seq<u8>),
}

/// Whether a move changes the trail from state `v`: a descent needs a
/// second row that gives a token, a step back needs a token on the trail,
/// and either is completed only by a listing that is text.
pub open spec fn takes_effect(v: NavView, m: Move) -> bool {
    match m {
        Move::Descend(payload) => valid_utf8(payload) && v.listing.len() > 1 && history_token(
            v.listing[1],
        ).is_some(),
        Move::Back(payload) => valid_utf8(payload) && v.history.len() > 0,
    }
}

/// The state after a move.
pub open spec fn after(v: NavView, m: Move) -> NavView {
    match m {
        Move::Descend(payload) => shown(NavView { history: trail_after_descent(v), ..v }, payload),
        Move::Back(payload) => restored(NavView { history: v.history.drop_last(), ..v }, payload),
    }
}

/// The state after a sequence of moves.
pub open spec fn after_all(v: NavView, moves: Seq<Move>) -> NavView
    decreases moves.len(),
{
    if moves.len() == 0 {
        v
    } else {
        after(after_all(v, moves.drop_last()), moves.last())
    }
}

/// Whether each move of a sequence takes effect in the state that it meets.
pub open spec fn all_take_effect(v: NavView, moves: Seq<Move>) -> bool
    decreases moves.len(),
{
    moves.len() == 0 || (all_take_effect(v, moves.drop_last()) && takes_effect(
        after_all(v, moves.drop_last()),
        moves.last(),
    ))
}

/// Descents minus steps back.
pub open spec fn net_descents(moves: Seq<Move>) -> int
    decreases moves.len(),
{
    if moves.len() == 0 {
        0
    } else {
        net_descents(moves.drop_last()) + match moves.last() {
            Move::Descend(_) => 1int,
            Move::Back(_) => -1int,
        }
    }
}

/// Over any sequence of descents and steps back that each take effect, the
/// trail grows by the number of descents less the number of steps back.
pub proof fn lemma_depth_is_net_descents(v: NavView, moves: Seq<Move>)
    requires
        all_take_effect(v, moves),
    ensures
        after_all(v, moves).history.len() == v.history.len() + net_descents(moves),
    decreases moves.len(),
{
    if moves.len() > 0 {
        lemma_depth_is_net_descents(v, moves.drop_last());
    }
}

/// A step back right after a descent asks for the token that the descent
/// recorded, and leaves the trail as it was before the descent.
pub proof fn lemma_back_undoes_descent(v: NavView, payload: Seq<u8>)
    requires
        takes_effect(v, Move::Descend(payload)),
    ensures
        after(v, Move::Descend(payload)).history.last() == history_token(v.listing[1]).unwrap(),
        after(v, Move::Descend(payload)).history.drop_last() == v.history,
{
    assert(v.history.push(history_token(v.listing[1]).unwrap()).drop_last() =~= v.history);
}

} // verus!
