//! What the program as a whole is showing.

use crate::osm::TargetServer;
use vstd::prelude::*;

verus! {

/// A page of the program.
#[derive(Debug, Clone, Copy, PartialEq, Eq, Structural)]
pub enum View {
    Edit,
    Upload,
    Auth,
}

impl Default for View {
    fn default() -> (r: Self)
        ensures
            r == View::Edit,
    {
        View::Edit
    }
}

/// The page that is shown, the server that is chosen, and whether the
/// licences are shown.
#[derive(Debug, Clone, Copy, PartialEq, Eq, Structural)]
pub struct AppState {
    pub view: View,
    pub target_server_ui: TargetServer,
    pub show_licenses_modal: bool,
}

impl Default for AppState {
    fn default() -> (r: Self)
        ensures
            r == (AppState {
                view: View::Edit,
                target_server_ui: TargetServer::OpenStreetMapDev,
                show_licenses_modal: false,
            }),
    {
        AppState {
            view: View::Edit,
            target_server_ui: TargetServer::OpenStreetMapDev,
            show_licenses_modal: false,
        }
    }
}

} // verus!
