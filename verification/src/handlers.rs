//! What the request layer decides: which job a request belongs to, which
//! markers it stores, and what it answers.

use crate::host::path_begins_with;
use crate::job::BuildError;
use crate::listing::{requested_path, resolve_under, validate_target};
use crate::models::{DownloadQuery, ProgressQuery, StopRequest, ZipCreationError, ZipProgress};
use crate::progress::{phase_record, phase_view, Phase};
use crate::state::ServerState;
use crate::text::{append_decimal, decimal_digits};
use vstd::prelude::*;
use vstd::string::StringExecFns;

verus! {

/// The id of a job that was requested at `millis` milliseconds of the clock.
pub open spec fn operation_id_text(millis: nat) -> Seq<char> {
    "zip_"@ + decimal_digits(millis)
}

/// The name a download is offered under: the folder's name, or `folder` where
/// it has none, followed by `.zip`.
pub open spec fn archive_name_text(folder: Option<Seq<char>>) -> Seq<char> {
    match folder {
        Some(name) => name + ".zip"@,
        None => "folder"@ + ".zip"@,
    }
}

/// The header value that offers a download under `filename`.
pub open spec fn disposition_text(filename: Seq<char>) -> Seq<char> {
    "attachment; filename=\""@ + filename + "\""@
}

/// The total that is known of a job: that of its record, unless the job has
/// none or its record knows no total yet.
pub open spec fn total_known(state: ServerState, id: Seq<char>) -> Option<nat> {
    if state.records().contains_key(id) && state.records()[id].total_files > 0 {
        Some(state.records()[id].total_files)
    } else {
        None
    }
}

/// The total a download goes by: the known one, else the one counted for it,
/// else none.
pub open spec fn total_for_download(state: ServerState, id: Seq<char>, counted: Option<usize>) -> nat {
    match total_known(state, id) {
        Some(total) => total,
        None => match counted {
            Some(count) => count as nat,
            None => 0,
        },
    }
}

/// Makes the id of a job that was requested at `millis` milliseconds of the
/// clock.
pub fn operation_id_at(millis: u128) -> (id: String)
    ensures
        id@ == operation_id_text(millis as nat),
{
    let mut id = String::from_str("zip_");
    append_decimal(&mut id, millis);
    id
}

/// Answers a poll: the record of the job asked for, or the empty record where
/// the job is unknown. The state is not changed, so a poll that is repeated is
/// answered alike.
pub fn handle_zip_progress(query: &ProgressQuery, state: &ServerState) -> (record: ZipProgress)
    ensures
        record@ == state.answer(query.id@),
{
    match state.get_progress(query.id.as_str()) {
        Some(record) => record,
        None => ZipProgress::default(),
    }
}

/// Whether a request for `relative` is accepted: the path it names lies under
/// the served root and a directory exists there.
pub open spec fn request_accepted(state: ServerState, relative: Seq<char>, is_directory: bool) -> bool {
    path_begins_with(requested_path(state.root(), relative), state.root()) && is_directory
}

/// Checks the directory a request names against the served root:
/// `is_directory` says whether a directory exists at the path the request names
/// under the root. A request that is accepted gets that path; any other is an
/// input error.
pub fn check_request(state: &ServerState, relative: &str, is_directory: bool) -> (checked: Result<
    String,
    BuildError,
>)
    ensures
        checked.is_ok() == request_accepted(*state, relative@, is_directory),
        checked.is_ok() ==> checked.unwrap()@ == requested_path(state.root(), relative@),
        checked.is_err() ==> checked.unwrap_err() == BuildError::Input,
{
    let root = state.get_root_path();
    let full = resolve_under(root.as_str(), relative);
    validate_target(root.as_str(), full, is_directory)
}

/// Opens a job for the directory a request names. `is_directory` says whether
/// a directory exists at the path the request names under the root, and
/// `millis` is the clock in milliseconds.
///
/// A request that is accepted gets a job: its id is made from the clock and the
/// marker of the scanning phase is stored under it. Any other request is an
/// input error, and the state stays as it is: no job is created.
pub fn handle_zip_init(
    query: &DownloadQuery,
    state: &mut ServerState,
    is_directory: bool,
    millis: u128,
) -> (opened: Result<String, BuildError>)
    ensures
        opened.is_ok() == request_accepted(*old(state), query.path@, is_directory),
        opened.is_err() ==> opened.unwrap_err() == BuildError::Input && final(state).records()
            == old(state).records(),
        opened.is_ok() ==> opened.unwrap()@ == operation_id_text(millis as nat),
        opened.is_ok() ==> final(state).records() == old(state).records().insert(
            operation_id_text(millis as nat),
            phase_view(Phase::Scanning, 0),
        ),
        final(state).root() == old(state).root(),
        final(state).shutdown_handle() == old(state).shutdown_handle(),
{
    match check_request(state, query.path.as_str(), is_directory) {
        Ok(_) => {
            let id = operation_id_at(millis);
            state.update_progress(id.as_str(), phase_record(Phase::Scanning, 0));
            Ok(id)
        },
        Err(error) => Err(error),
    }
}

/// Stores the total that was counted for a job: the job is ready to be built.
pub fn announce_total(state: &mut ServerState, operation_id: &str, total: usize)
    ensures
        final(state).records() == old(state).records().insert(
            operation_id@,
            phase_view(Phase::Ready, total as nat),
        ),
        final(state).root() == old(state).root(),
        final(state).shutdown_handle() == old(state).shutdown_handle(),
{
    state.update_progress(operation_id, phase_record(Phase::Ready, total));
}

/// The id a download runs under: the one it was asked with, or a new one made
/// at `millis` milliseconds of the clock.
pub open spec fn download_id_text(asked: Option<String>, millis: nat) -> Seq<char> {
    match asked {
        Some(given) => given@,
        None => operation_id_text(millis),
    }
}

/// Decides the id a download runs under.
pub fn download_id(asked: &Option<String>, millis: u128) -> (id: String)
    ensures
        id@ == download_id_text(*asked, millis as nat),
{
    match asked {
        Some(given) => given.clone(),
        None => operation_id_at(millis),
    }
}

/// The total that is known of a job, if any.
pub fn known_total(state: &ServerState, operation_id: &str) -> (total: Option<usize>)
    ensures
        total.is_some() == total_known(*state, operation_id@).is_some(),
        total.is_some() ==> total.unwrap() as nat == total_known(*state, operation_id@).unwrap(),
{
    match state.get_progress(operation_id) {
        Some(record) => {
            if record.total_files > 0 {
                Some(record.total_files)
            } else {
                None
            }
        },
        None => None,
    }
}

/// A download that has been accepted: the job it runs under and the number of
/// files it goes by.
#[derive(Debug)]
pub struct DownloadTicket {
    pub operation_id: String,
    pub total_files: usize,
}

/// Announces the download of the directory a request names. `is_directory`
/// says whether a directory exists at the path the request names under the
/// root, `counted` is the number of files counted for it where the job's total
/// is not known, and `millis` is the clock in milliseconds.
///
/// A request that is accepted runs under the id it was asked with, or under a
/// new one; it goes by the job's known total, else by the counted one, and the
/// job is marked as being created with that total. Any other request is an
/// input error, and the state stays as it is.
pub fn handle_download_folder(
    query: &DownloadQuery,
    state: &mut ServerState,
    is_directory: bool,
    counted: Option<usize>,
    millis: u128,
) -> (accepted: Result<DownloadTicket, BuildError>)
    ensures
        accepted.is_ok() == request_accepted(*old(state), query.path@, is_directory),
        accepted.is_err() ==> accepted.unwrap_err() == BuildError::Input && final(state).records()
            == old(state).records(),
        accepted.is_ok() ==> {
            let id = download_id_text(query.operation_id, millis as nat);
            &&& accepted.unwrap().operation_id@ == id
            &&& accepted.unwrap().total_files as nat == total_for_download(*old(state), id, counted)
            &&& final(state).records() == old(state).records().insert(
                id,
                phase_view(Phase::Creating, accepted.unwrap().total_files as nat),
            )
        },
        final(state).root() == old(state).root(),
        final(state).shutdown_handle() == old(state).shutdown_handle(),
{
    match check_request(state, query.path.as_str(), is_directory) {
        Ok(_) => {
            let operation_id = download_id(&query.operation_id, millis);
            let total_files = match known_total(state, operation_id.as_str()) {
                Some(total) => total,
                None => match counted {
                    Some(count) => count,
                    None => 0,
                },
            };
            state.update_progress(operation_id.as_str(), phase_record(Phase::Creating, total_files));
            Ok(DownloadTicket { operation_id, total_files })
        },
        Err(error) => Err(error),
    }
}

/// Closes a download once its build has ended. After a build that succeeded
/// the job's record is forgotten and the download is delivered. After a build
/// that failed the record stays as the build left it, short of completion, and
/// the one failure a caller is told of comes back.
pub fn finish_download(
    state: &mut ServerState,
    operation_id: &str,
    outcome: Result<(), BuildError>,
) -> (delivered: Result<(), ZipCreationError>)
    ensures
        delivered.is_ok() == outcome.is_ok(),
        outcome.is_ok() ==> final(state).records() == old(state).records().remove(operation_id@),
        outcome.is_err() ==> final(state).records() == old(state).records(),
        final(state).root() == old(state).root(),
        final(state).shutdown_handle() == old(state).shutdown_handle(),
{
    match outcome {
        Ok(_) => {
            state.remove_progress(operation_id);
            Ok(())
        },
        Err(_) => Err(ZipCreationError),
    }
}

/// Makes the name a download is offered under.
pub fn archive_file_name(folder: Option<&str>) -> (name: String)
    ensures
        name@ == archive_name_text(
            match folder {
                Some(text) => Some(text@),
                None => None,
            },
        ),
{
    let mut name = match folder {
        Some(text) => String::from_str(text),
        None => String::from_str("folder"),
    };
    name.append(".zip");
    name
}

/// Makes the header value that offers a download under `filename`.
pub fn content_disposition(filename: &str) -> (value: String)
    ensures
        value@ == disposition_text(filename@),
{
    let mut value = String::from_str("attachment; filename=\"");
    value.append(filename);
    value.append("\"");
    value
}

/// Stops the server: hands out the handle that stops it, if it has not been
/// handed out before. The request succeeds exactly where a handle comes back.
pub fn handle_stop(_stop_req: &StopRequest, state: &mut ServerState) -> (tx: Option<
    tokio::sync::oneshot::Sender<()>,
>)
    ensures
        tx == old(state).shutdown_handle(),
        final(state).shutdown_handle().is_none(),
        final(state).records() == old(state).records(),
        final(state).root() == old(state).root(),
{
    state.take_shutdown_tx()
}

/// The text of the reply to a request to stop.
pub fn stop_message(stopped: bool) -> (text: &'static str)
    ensures
        text@ == if stopped {
            "Server is shutting down"@
        } else {
            "Failed to stop server"@
        },
{
    if stopped {
        "Server is shutting down"
    } else {
        "Failed to stop server"
    }
}

/// A part of the web UI.
#[derive(Clone, Copy, Debug, PartialEq, Eq, Structural)]
pub enum WebAsset {
    /// The page.
    Page,
    /// The style sheet.
    Style,
    /// The script.
    Script,
}

/// The part of the web UI that a path asks for, if any: the page under the
/// empty path and under `index.html`, the style sheet under `style.css`, the
/// script under `script.js`.
pub open spec fn asset_at(path: Seq<char>) -> Option<WebAsset> {
    if path == ""@ || path == "index.html"@ {
        Some(WebAsset::Page)
    } else if path == "style.css"@ {
        Some(WebAsset::Style)
    } else if path == "script.js"@ {
        Some(WebAsset::Script)
    } else {
        None
    }
}

/// The content type a part of the web UI is sent with.
pub open spec fn content_type_text(asset: WebAsset) -> Seq<char> {
    match asset {
        WebAsset::Page => "text/html"@,
        WebAsset::Style => "text/css"@,
        WebAsset::Script => "application/javascript"@,
    }
}

/// Finds the part of the web UI that a path asks for. A path that asks for
/// none is not found.
pub fn serve_web_ui(path: &str) -> (asset: Option<WebAsset>)
    ensures
        asset == asset_at(path@),
{
    let asked = String::from_str(path);
    if asked == String::from_str("") || asked == String::from_str("index.html") {
        Some(WebAsset::Page)
    } else if asked == String::from_str("style.css") {
        Some(WebAsset::Style)
    } else if asked == String::from_str("script.js") {
        Some(WebAsset::Script)
    } else {
        None
    }
}

/// The content type a part of the web UI is sent with.
pub fn content_type(asset: WebAsset) -> (text: &'static str)
    ensures
        text@ == content_type_text(asset),
{
    match asset {
        WebAsset::Page => "text/html",
        WebAsset::Style => "text/css",
        WebAsset::Script => "application/javascript",
    }
}

} // verus!
