//! The focused window as the window-title module shows it, from what the
//! Mango compositor reports.

use std::sync::Arc;

use vstd::prelude::*;

use crate::service::{MangoClient, MangoService};

verus! {

/// The window that has the focus.
#[derive(Debug, Clone)]
pub struct FocusedWindow {
    /// Its title; empty when it has none.
    pub title: String,
    /// Its application id; empty when it has none.
    pub app_id: String,
}

/// The text of an optional string, empty when there is none.
pub open spec fn text_or_empty(o: Option<String>) -> Seq<char> {
    match o {
        Some(s) => s@,
        None => Seq::empty(),
    }
}

/// `w` shows the client `c`.
pub open spec fn shows_client(w: FocusedWindow, c: MangoClient) -> bool {
    w.title@ == text_or_empty(c.title) && w.app_id@ == text_or_empty(c.app_id)
}

/// An optional string, or an empty one.
fn unwrap_or_empty(o: Option<String>) -> (s: String)
    ensures
        s@ == text_or_empty(o),
{
    match o {
        Some(s) => s,
        None => String::new(),
    }
}

/// The focused window that a client is.
pub fn focused_window(client: MangoClient) -> (w: FocusedWindow)
    ensures
        shows_client(w, client),
{
    FocusedWindow { title: unwrap_or_empty(client.title), app_id: unwrap_or_empty(client.app_id) }
}

/// The source of the focused window on Mango.
pub struct MangoFocusedWindowSource {
    /// The compositor's IPC client.
    pub service: Arc<MangoService>,
}

impl MangoFocusedWindowSource {
    /// A source that asks `service`.
    pub fn new(service: Arc<MangoService>) -> (source: Self)
        ensures
            source.service == service,
    {
        Self { service }
    }
}

/// The focused window from the answer to a `focusing-client` request: none
/// when the request failed or nothing is focused.
pub fn snapshot_from<E>(reply: Result<Option<MangoClient>, E>) -> (w: Option<FocusedWindow>)
    ensures
        match reply {
            Ok(Some(c)) => w matches Some(fw) && shows_client(fw, c),
            _ => w is None,
        },
{
    match reply {
        Ok(Some(client)) => Some(focused_window(client)),
        _ => None,
    }
}

/// What an event of the focused-client subscription changes: `None` when the
/// event is a failure and is skipped, else the new focused window (`None`
/// inside when nothing is focused).
pub fn change_from<E>(event: Result<Option<MangoClient>, E>) -> (change: Option<Option<FocusedWindow>>)
    ensures
        match event {
            Err(_) => change is None,
            Ok(None) => change == Some(None::<FocusedWindow>),
            Ok(Some(c)) => change matches Some(Some(fw)) && shows_client(fw, c),
        },
{
    match event {
        Ok(Some(client)) => Some(Some(focused_window(client))),
        Ok(None) => Some(None),
        Err(_) => None,
    }
}

} // verus!
