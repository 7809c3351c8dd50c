//! The arguments of the embedded MCP server's tools, and the checks made on
//! them before a request reaches the main window.

use vstd::prelude::*;

use crate::text::{concat, same_str};

verus! {

/// The fixed loopback port, outside the ranges development servers commonly
/// take, so the connection examples stay the same from launch to launch.
pub const MCP_PORT: u16 = 41917;

/// The long edge `get_preview` scales to when none is asked for.
pub const PREVIEW_LONG_EDGE: u32 = 1024;

/// The smallest long edge `get_preview` scales to.
pub const PREVIEW_LONG_EDGE_MIN: u32 = 256;

/// The largest long edge `get_preview` scales to: the embedded preview's
/// own.
pub const PREVIEW_LONG_EDGE_MAX: u32 = 1616;

/// The arguments of `get_photo`.
#[derive(Debug, PartialEq, Eq)]
pub struct PhotoArgs {
    /// The photo's path as `get_view` reports it; the current photo when
    /// omitted.
    pub path: Option<String>,
}

/// The arguments of `get_preview`.
#[derive(Debug, PartialEq, Eq)]
pub struct PreviewArgs {
    /// The photo's path as `get_view` reports it; the current photo when
    /// omitted.
    pub path: Option<String>,
    /// The long edge in pixels, 256 to 1616; 1024 when omitted.
    pub long_edge: Option<u32>,
}

/// The arguments of `show_photo`.
#[derive(Debug, PartialEq, Eq)]
pub struct ShowArgs {
    /// The photo's path as `get_view` reports it.
    pub path: String,
}

/// The arguments of `select_photos`.
#[derive(Debug, PartialEq, Eq)]
pub struct SelectArgs {
    /// The photos' paths as `get_view` reports them; the first becomes the
    /// current photo.
    pub paths: Vec<String>,
}

/// The view modes `set_view` switches between.
#[derive(Clone, Copy, Debug, PartialEq, Eq, Structural)]
pub enum ViewMode {
    Normal,
    Zoom,
    Compare,
}

/// The arguments of `set_view`.
#[derive(Debug, PartialEq, Eq)]
pub struct ViewArgs {
    /// `normal` for the fitted preview, `zoom` for the 1:1 focus check, or
    /// `compare` for side-by-side panes.
    pub mode: ViewMode,
}

/// The pick / reject flag `set_judgment` sets.
#[derive(Clone, Copy, Debug, PartialEq, Eq, Structural)]
pub enum PickFlag {
    /// Neither picked nor rejected (`none` on the wire).
    Unflagged,
    Pick,
    Reject,
}

/// The arguments of `set_judgment`.
#[derive(Debug, PartialEq, Eq)]
pub struct JudgmentArgs {
    /// The photos' paths as `get_view` reports them; the selection when
    /// omitted, or the active pane in compare.
    pub paths: Option<Vec<String>>,
    /// Stars from 1 to 5, or 0 to clear them; kept when omitted.
    pub rating: Option<u8>,
    /// `pick`, `reject` or `none`; kept when omitted.
    pub flag: Option<PickFlag>,
    /// Red, Orange, Yellow, Green, Blue, Pink or Purple, or `Some(None)` to
    /// clear it; kept when `None`.
    pub label: Option<Option<String>>,
}

/// The `set_judgment` request for the main window: only the fields given.
#[derive(Debug, PartialEq, Eq)]
pub struct JudgmentRequest {
    pub paths: Option<Vec<String>>,
    pub rating: Option<u8>,
    pub flag: Option<PickFlag>,
    pub label: Option<Option<String>>,
}

/// The long edge a `get_preview` request asks for: 1024 when omitted, held
/// to 256..=1616.
pub open spec fn long_edge_for(requested: Option<u32>) -> int {
    let v = match requested {
        Some(v) => v as int,
        None => PREVIEW_LONG_EDGE as int,
    };
    if v < PREVIEW_LONG_EDGE_MIN {
        PREVIEW_LONG_EDGE_MIN as int
    } else if v > PREVIEW_LONG_EDGE_MAX {
        PREVIEW_LONG_EDGE_MAX as int
    } else {
        v
    }
}

/// The long edge a `get_preview` request asks for: 1024 when omitted, held
/// to 256..=1616.
pub fn long_edge(requested: Option<u32>) -> (r: usize)
    ensures
        r == long_edge_for(requested),
{
    let v = match requested {
        Some(v) => v,
        None => PREVIEW_LONG_EDGE,
    };
    let c = if v < PREVIEW_LONG_EDGE_MIN {
        PREVIEW_LONG_EDGE_MIN
    } else if v > PREVIEW_LONG_EDGE_MAX {
        PREVIEW_LONG_EDGE_MAX
    } else {
        v
    };
    c as usize
}

/// The color labels `set_judgment` accepts: the ones the judgment keys set.
pub open spec fn labels() -> Seq<Seq<char>> {
    seq!["Red"@, "Orange"@, "Yellow"@, "Green"@, "Blue"@, "Pink"@, "Purple"@]
}

/// The message a too-high rating gets.
pub open spec fn rating_error() -> Seq<char> {
    "rating must be an integer from 0 to 5"@
}

/// The message an unknown label gets.
pub open spec fn label_error() -> Seq<char> {
    "label must be one of Red, Orange, Yellow, Green, Blue, Pink, Purple, or null"@
}

/// The message a request that sets nothing gets.
pub open spec fn empty_error() -> Seq<char> {
    "set at least one of rating, flag, label"@
}

/// The error `set_judgment` answers `args` with, if any: a rating above 5,
/// then a label the keys cannot set, then a request setting none of rating,
/// flag and label.
pub open spec fn judgment_error(
    rating: Option<u8>,
    flag_given: bool,
    label: Option<Option<Seq<char>>>,
) -> Option<Seq<char>> {
    if rating matches Some(r) && r > 5 {
        Some(rating_error())
    } else if label matches Some(Some(l)) && !labels().contains(l) {
        Some(label_error())
    } else if rating is None && !flag_given && label is None {
        Some(empty_error())
    } else {
        None
    }
}

/// The view of an optional label field.
pub open spec fn label_view(label: Option<Option<String>>) -> Option<Option<Seq<char>>> {
    match label {
        Some(Some(l)) => Some(Some(l@)),
        Some(None) => Some(None),
        None => None,
    }
}

/// The view of an optional path list.
pub open spec fn paths_view(paths: Option<Vec<String>>) -> Option<Seq<Seq<char>>> {
    match paths {
        Some(p) => Some(p@.map_values(|s: String| s@)),
        None => None,
    }
}

/// Whether `l` is one of the labels the keys set.
fn is_label(l: &str) -> (r: bool)
    ensures
        r == labels().contains(l@),
{
    let list = vec!["Red", "Orange", "Yellow", "Green", "Blue", "Pink", "Purple"];
    assert(crate::text::str_names(list@) =~= labels());
    crate::text::list_has(&list, l)
}

/// The `set_judgment` request for the main window, with only the fields
/// given, checked against what the judgment keys can set.
pub fn judgment(args: JudgmentArgs) -> (r: Result<JudgmentRequest, String>)
    ensures
        match judgment_error(args.rating, args.flag is Some, label_view(args.label)) {
            Some(e) => r matches Err(m) && m@ == e,
            None => r matches Ok(req) && paths_view(req.paths) == paths_view(args.paths)
                && req.rating == args.rating && req.flag == args.flag && label_view(req.label)
                == label_view(args.label),
        },
{
    if let Some(rating) = args.rating {
        if rating > 5 {
            return Err("rating must be an integer from 0 to 5".to_string());
        }
    }
    if let Some(Some(l)) = &args.label {
        if !is_label(l.as_str()) {
            return Err(
                "label must be one of Red, Orange, Yellow, Green, Blue, Pink, Purple, or null".to_string(),
            );
        }
    }
    if args.rating.is_none() && args.flag.is_none() && args.label.is_none() {
        return Err("set at least one of rating, flag, label".to_string());
    }
    Ok(JudgmentRequest { paths: args.paths, rating: args.rating, flag: args.flag, label: args.label })
}

/// The payload of the `mcp-state` event and of the `mcp_enabled` command.
#[derive(Debug, PartialEq, Eq)]
pub struct McpState {
    pub enabled: bool,
    pub port: u16,
    pub error: Option<String>,
}

impl McpState {
    /// The state the settings modal shows: the setting, the port of the
    /// running server (`MCP_PORT` when none runs), and the last bind error.
    pub fn of(enabled: bool, running_port: Option<u16>, error: Option<String>) -> (r: McpState)
        ensures
            r.enabled == enabled,
            r.port == match running_port {
                Some(p) => p,
                None => MCP_PORT,
            },
            r.error == error,
    {
        McpState {
            enabled,
            port: match running_port {
                Some(p) => p,
                None => MCP_PORT,
            },
            error,
        }
    }
}

/// The message a tool gets when no folder is open.
pub open spec fn no_folder_error() -> Seq<char> {
    "no folder is open in Riffle"@
}

/// The message a tool gets when it names no photo and none is shown.
pub open spec fn no_photo_error() -> Seq<char> {
    "no photo is shown in Riffle"@
}

/// The photo a tool targets, before it is checked against the folder: the
/// open folder (from `get_view`), then `path`, or the current photo when
/// `path` is `None`.
pub open spec fn target_of(
    folder: Option<Seq<char>>,
    current: Option<Seq<char>>,
    path: Option<Seq<char>>,
) -> Result<(Seq<char>, Seq<char>), Seq<char>> {
    match folder {
        None => Err(no_folder_error()),
        Some(f) => match path {
            Some(p) => Ok((f, p)),
            None => match current {
                Some(c) => Ok((f, c)),
                None => Err(no_photo_error()),
            },
        },
    }
}

/// The open folder and the photo a tool targets: `path`, or the current
/// photo when it is `None`. Fails when no folder is open, or when no path is
/// given and no photo is shown.
pub fn target(folder: Option<String>, current: Option<String>, path: Option<String>) -> (r: Result<
    (String, String),
    String,
>)
    ensures
        match target_of(
            match folder {
                Some(f) => Some(f@),
                None => None,
            },
            match current {
                Some(c) => Some(c@),
                None => None,
            },
            match path {
                Some(p) => Some(p@),
                None => None,
            },
        ) {
            Ok((f, p)) => r matches Ok(v) && v.0@ == f && v.1@ == p,
            Err(e) => r matches Err(m) && m@ == e,
        },
{
    let folder = match folder {
        Some(f) => f,
        None => {
            return Err("no folder is open in Riffle".to_string());
        },
    };
    match path {
        Some(p) => Ok((folder, p)),
        None => match current {
            Some(c) => Ok((folder, c)),
            None => Err("no photo is shown in Riffle".to_string()),
        },
    }
}

/// The message a tool gets for a path outside the open folder.
pub open spec fn outside_message(path: Seq<char>, folder: Seq<char>) -> Seq<char> {
    path + " is not in the open folder "@ + folder
}

/// The message a tool gets for a path outside the open folder.
pub fn outside(path: &str, folder: &str) -> (r: String)
    ensures
        r@ == outside_message(path@, folder@),
{
    let head = concat(path, " is not in the open folder ");
    concat(head.as_str(), folder)
}

/// Standard base64 of `bytes`: the RFC 4648 alphabet with `=` padding.
pub uninterp spec fn base64_standard(bytes: Seq<u8>) -> Seq<char>;

/// The length of the standard base64 of `n` bytes: four chars for every
/// three bytes begun.
pub open spec fn base64_len(n: nat) -> nat {
    4 * ((n + 2) / 3)
}

/// `base64::engine::general_purpose::STANDARD.encode`: the standard base64
/// of `bytes`, four chars for every three bytes begun (`encoded_len` in the
/// crate's source). The crate panics when that length overflows a `usize`,
/// so the length is required to fit.
#[verifier::external_body]
fn encode_base64(bytes: &[u8]) -> (r: String)
    requires
        base64_len(bytes@.len()) <= usize::MAX,
    ensures
        r@ == base64_standard(bytes@),
        r@.len() == base64_len(bytes@.len()),
{
    base64::Engine::encode(&base64::engine::general_purpose::STANDARD, bytes)
}

/// The image data the `get_preview` tool answers with: the JPEG in
/// standard base64.
pub fn image_data(jpeg: &[u8]) -> (r: String)
    requires
        base64_len(jpeg@.len()) <= usize::MAX,
    ensures
        r@ == base64_standard(jpeg@),
        r@.len() == base64_len(jpeg@.len()),
{
    encode_base64(jpeg)
}

} // verus!
