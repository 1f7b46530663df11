//! Talking to Niri: what its replies mean to the shell, and the focus
//! actions the shell sends.
use vstd::prelude::*;
use crate::dock::DockWindow;
use crate::text::{append_chars, chars_of, string_of};
use crate::workspaces::WorkspaceInfo;

verus! {

/// A reply of Niri to a request: the workspaces or the windows asked for,
/// "handled", another response, or Niri's error text.
pub enum IpcReply {
    Workspaces(Vec<WorkspaceInfo>),
    Windows(Vec<DockWindow>),
    Handled,
    Other,
    Failure(String),
}

/// An action the shell asks Niri to do.
#[derive(Debug, Clone, Copy, PartialEq, Eq, Structural)]
pub enum FocusAction {
    /// Focus the workspace with this id.
    WorkspaceId(u64),
    /// Focus the workspace at this 1-based index.
    WorkspaceIndex(u8),
    /// Focus the window with this id.
    Window(u64),
}

/// The error text for a reply that is not the one asked for.
pub open spec fn unexpected_reply(reply: IpcReply) -> Seq<char> {
    match reply {
        IpcReply::Handled => "Unexpected response: Handled"@,
        IpcReply::Failure(e) => "IPC Error: "@ + e@,
        _ => "Unexpected IPC response"@,
    }
}

/// Niri's IPC socket, as the shell uses it.
pub struct NiriIpcClient;

fn unexpected(reply: &IpcReply) -> (r: String)
    ensures
        r@ == unexpected_reply(*reply),
{
    match reply {
        IpcReply::Handled => string_of(chars_of("Unexpected response: Handled").as_slice()),
        IpcReply::Failure(e) => {
            let mut v = chars_of("IPC Error: ");
            append_chars(&mut v, chars_of(e.as_str()).as_slice());
            string_of(v.as_slice())
        },
        _ => string_of(chars_of("Unexpected IPC response").as_slice()),
    }
}

impl NiriIpcClient {
    /// The workspaces from the reply to a workspaces request, or the error.
    pub fn get_workspaces(reply: IpcReply) -> (r: Result<Vec<WorkspaceInfo>, String>)
        ensures
            match reply {
                IpcReply::Workspaces(ws) => r matches Ok(v) && v@ == ws@,
                _ => r matches Err(e) && e@ == unexpected_reply(reply),
            },
    {
        let msg = unexpected(&reply);
        match reply {
            IpcReply::Workspaces(ws) => Ok(ws),
            _ => Err(msg),
        }
    }

    /// The windows from the reply to a windows request, or the error.
    pub fn get_windows(reply: IpcReply) -> (r: Result<Vec<DockWindow>, String>)
        ensures
            match reply {
                IpcReply::Windows(ws) => r matches Ok(v) && v@ == ws@,
                _ => r matches Err(e) && e@ == unexpected_reply(reply),
            },
    {
        let msg = unexpected(&reply);
        match reply {
            IpcReply::Windows(ws) => Ok(ws),
            _ => Err(msg),
        }
    }

    /// Whether the event stream was granted: Niri answers "handled".
    pub fn listen_events(reply: &IpcReply) -> (r: Result<(), String>)
        ensures
            match reply {
                IpcReply::Handled => r is Ok,
                _ => r matches Err(e) && e@ == "Failed to subscribe to EventStream"@,
            },
    {
        match reply {
            IpcReply::Handled => Ok(()),
            _ => Err(string_of(chars_of("Failed to subscribe to EventStream").as_slice())),
        }
    }

    /// The action that focuses a workspace by id.
    pub fn focus_workspace_id(id: u64) -> (r: FocusAction)
        ensures
            r == FocusAction::WorkspaceId(id),
    {
        FocusAction::WorkspaceId(id)
    }

    /// The action that focuses a workspace by its 1-based index.
    pub fn focus_workspace_index(idx: u8) -> (r: FocusAction)
        ensures
            r == FocusAction::WorkspaceIndex(idx),
    {
        FocusAction::WorkspaceIndex(idx)
    }

    /// The action that focuses a window.
    pub fn focus_window(id: u64) -> (r: FocusAction)
        ensures
            r == FocusAction::Window(id),
    {
        FocusAction::Window(id)
    }
}

} // verus!
