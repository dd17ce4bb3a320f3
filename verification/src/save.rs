//! Saving the selected entry to the local disk: what to ask the server for,
//! what to suggest as the name of the copy, and what to do about the
//! destination that the user chose.

use vstd::prelude::*;
use vstd::utf8::{decode_utf8, encode_utf8, encode_utf8_decode_utf8, valid_utf8};
use crate::bytes::{append, copy_range, has_prefix, starts_with};
use crate::command::{savedir_tag, savedir_tag_bytes};
use crate::listing::{dir_tag, dir_tag_bytes, file_tag, file_tag_bytes};
use crate::paths::{file_name_of, parent_of, path_file_name, path_parent};
use crate::text::as_text;

verus! {

/// Why no save can be planned for a row.
#[derive(Clone, Copy, Debug, PartialEq, Eq, Structural)]
pub enum SaveError {
    /// The row carries neither tag.
    NotAnEntry,
    /// The path has no last component to name the copy after.
    NoName,
}

/// What to do next while saving.
#[derive(Clone, Copy, Debug, PartialEq, Eq, Structural)]
pub enum SaveStep {
    /// The destination is no usable path: tell the user, send nothing.
    Reject,
    /// Something is at the destination already: ask whether to replace it.
    Confirm,
    /// Remove what is at the destination, then fetch.
    ReplaceThenFetch,
    /// Send the request and write what arrives.
    Fetch,
    /// Give up: send nothing and leave the destination as it is.
    Abort,
}

/// A planned save.
#[derive(Debug)]
pub struct SavePlan {
    /// The request to send once the destination is settled.
    pub request: Vec<u8>,
    /// The name suggested for the copy, to be joined to the working directory.
    pub name: Vec<u8>,
    /// Whether a whole directory is fetched, as an archive.
    pub directory: bool,
}

/// The model of a [`SavePlan`].
pub struct SavePlanView {
    pub request: Seq<u8>,
    pub name: Seq<u8>,
    pub directory: bool,
}

impl View for SavePlan {
    type V = SavePlanView;

    open spec fn view(&self) -> SavePlanView {
        SavePlanView { request: self.request@, name: self.name@, directory: self.directory }
    }
}

/// The ASCII bytes of `copied_`.
pub open spec fn copied_prefix() -> Seq<u8> {
    seq![99u8, 111u8, 112u8, 105u8, 101u8, 100u8, 95u8]
}

/// The request that fetches a directory row: `SAVEDIR_` and its path.
pub open spec fn savedir_request(row: Seq<u8>) -> Seq<u8> {
    savedir_tag() + row.subrange(4, row.len() as int)
}

/// The path after whose last component the copy is named: for a file row
/// its path, for a directory row the whole request that fetches it.
pub open spec fn naming_path(row: Seq<u8>) -> Option<Seq<u8>> {
    if has_prefix(row, file_tag()) {
        Some(row.subrange(5, row.len() as int))
    } else if has_prefix(row, dir_tag()) {
        Some(savedir_request(row))
    } else {
        None
    }
}

/// The last component of a path given as bytes; `None` where the bytes
/// are not text or the path has no last component.
pub open spec fn name_of_path(path: Seq<u8>) -> Option<Seq<u8>> {
    if !valid_utf8(path) {
        None
    } else {
        match file_name_of(decode_utf8(path)) {
            Some(n) => Some(encode_utf8(n)),
            None => None,
        }
    }
}

/// The plan for a row, once the last component of its naming path is
/// known. A file is asked for by its row and keeps its name; a directory
/// is asked for by `SAVEDIR_` and its copy is named `copied_` and the name.
pub open spec fn plan_with(row: Seq<u8>, name: Seq<u8>) -> Option<SavePlanView> {
    if has_prefix(row, file_tag()) {
        Some(SavePlanView { request: row, name, directory: false })
    } else if has_prefix(row, dir_tag()) {
        Some(SavePlanView { request: savedir_request(row), name: copied_prefix() + name, directory: true })
    } else {
        None
    }
}

/// The plan for saving a row of a listing.
pub open spec fn save_plan_of(row: Seq<u8>) -> Result<SavePlanView, SaveError> {
    match naming_path(row) {
        None => Err(SaveError::NotAnEntry),
        Some(path) => match name_of_path(path) {
            None => Err(SaveError::NoName),
            Some(name) => Ok(plan_with(row, name).unwrap()),
        },
    }
}

/// What to do about the destination chosen for a directory.
pub open spec fn directory_step_of(has_parent: bool, exists: bool) -> SaveStep {
    if !has_parent {
        SaveStep::Reject
    } else if exists {
        SaveStep::Confirm
    } else {
        SaveStep::Fetch
    }
}

/// Builds the plan for a row from the last component of its naming path.
pub fn plan_with_name(row: &[u8], name: &[u8]) -> (plan: Option<SavePlan>)
    ensures
        match plan {
            Some(p) => plan_with(row@, name@) == Some(p@),
            None => plan_with(row@, name@).is_none(),
        },
{
    if starts_with(row, file_tag_bytes().as_slice()) {
        let request = copy_range(row, 0, row.len());
        proof {
            assert(request@ =~= row@);
        }
        let kept = copy_range(name, 0, name.len());
        proof {
            assert(kept@ =~= name@);
        }
        Some(SavePlan { request, name: kept, directory: false })
    } else if starts_with(row, dir_tag_bytes().as_slice()) {
        let mut request = savedir_tag_bytes();
        append(&mut request, copy_range(row, 4, row.len()).as_slice());
        let mut copy: Vec<u8> = vec![99, 111, 112, 105, 101, 100, 95];
        proof {
            assert(copy@ =~= copied_prefix());
        }
        append(&mut copy, name);
        Some(SavePlan { request, name: copy, directory: true })
    } else {
        None
    }
}

/// The last component of a path given as bytes.
pub fn name_of(path: &[u8]) -> (name: Option<Vec<u8>>)
    ensures
        match name {
            Some(n) => name_of_path(path@) == Some(n@),
            None => name_of_path(path@).is_none(),
        },
{
    match as_text(path) {
        None => None,
        Some(text) => {
            proof {
                encode_utf8_decode_utf8(text@);
            }
            match path_file_name(text) {
                None => None,
                Some(n) => {
                    let bytes = n.as_str().as_bytes();
                    Some(copy_range(bytes, 0, bytes.len()))
                },
            }
        },
    }
}

/// Plans the save of a row of a listing.
pub fn save_plan(row: &[u8]) -> (r: Result<SavePlan, SaveError>)
    ensures
        match r {
            Ok(plan) => save_plan_of(row@) == Ok::<SavePlanView, SaveError>(plan@),
            Err(e) => save_plan_of(row@) == Err::<SavePlanView, SaveError>(e),
        },
{
    let path: Vec<u8> = if starts_with(row, file_tag_bytes().as_slice()) {
        copy_range(row, 5, row.len())
    } else if starts_with(row, dir_tag_bytes().as_slice()) {
        let mut request = savedir_tag_bytes();
        append(&mut request, copy_range(row, 4, row.len()).as_slice());
        request
    } else {
        return Err(SaveError::NotAnEntry);
    };
    match name_of(path.as_slice()) {
        None => Err(SaveError::NoName),
        Some(name) => {
            match plan_with_name(row, name.as_slice()) {
                Some(plan) => Ok(plan),
                None => Err(SaveError::NotAnEntry),
            }
        },
    }
}

/// Whether a destination typed by the user has a parent, as the path
/// grammar sees it.
pub fn has_parent(destination: &str) -> (yes: bool)
    ensures
        yes == parent_of(destination@).is_some(),
{
    path_parent(destination).is_some()
}

/// Decides what to do about the destination chosen for a directory: it
/// must have a parent, and where something is there already the user is asked.
pub fn directory_step(has_parent: bool, exists: bool) -> (step: SaveStep)
    ensures
        step == directory_step_of(has_parent, exists),
{
    if !has_parent {
        SaveStep::Reject
    } else if exists {
        SaveStep::Confirm
    } else {
        SaveStep::Fetch
    }
}

/// Decides what follows the user's answer to the question whether to
/// replace what is at the destination.
pub fn confirmed_step(yes: bool) -> (step: SaveStep)
    ensures
        step == confirmed_step_of(yes),
{
    if yes {
        SaveStep::ReplaceThenFetch
    } else {
        SaveStep::Abort
    }
}

/// Decides what to do about the destination chosen for a file: it must
/// have a parent; what is there already is overwritten without asking.
pub fn file_step(has_parent: bool) -> (step: SaveStep)
    ensures
        step == (if has_parent { SaveStep::Fetch } else { SaveStep::Reject }),
{
    if has_parent {
        SaveStep::Fetch
    } else {
        SaveStep::Reject
    }
}

/// Decides whether the text on display can be written to the destination:
/// not where it has a parent directory that does not exist.
pub fn text_step(parent_exists: Option<bool>) -> (step: SaveStep)
    ensures
        step == (if parent_exists == Some(false) { SaveStep::Reject } else { SaveStep::Fetch }),
{
    match parent_exists {
        Some(false) => SaveStep::Reject,
        _ => SaveStep::Fetch,
    }
}

/// Whether a step sends the request to the server.
pub open spec fn sends_request(step: SaveStep) -> bool {
    step == SaveStep::Fetch || step == SaveStep::ReplaceThenFetch
}

/// The step that follows the user's answer to the question.
pub open spec fn confirmed_step_of(yes: bool) -> SaveStep {
    if yes {
        SaveStep::ReplaceThenFetch
    } else {
        SaveStep::Abort
    }
}

/// Decides whether a step sends the request to the server.
pub fn sends(step: SaveStep) -> (yes: bool)
    ensures
        yes == sends_request(step),
{
    match step {
        SaveStep::Fetch => true,
        SaveStep::ReplaceThenFetch => true,
        _ => false,
    }
}

/// Where something is at the destination already, nothing is sent before
/// the user has answered, and nothing at all once the user has declined.
pub proof fn lemma_declined_overwrite_sends_nothing(has_parent: bool)
    ensures
        !sends_request(directory_step_of(has_parent, true)),
        !sends_request(confirmed_step_of(false)),
{
}

} // verus!
