//! The servers of the map database, their addresses, and what goes to
//! them and comes back.

use crate::osmchange::Tag;
use crate::text::push_decimal;
use vstd::prelude::*;
use vstd::string::StringExecFns;

verus! {

/// Where a server sends the browser after the user has agreed.
pub const REDIRECT_URI: &'static str = "urn:ietf:wg:oauth:2.0:oob";

/// What the editor asks leave for.
pub const SCOPES: &'static str = "write_api";

/// A server of the map database.
#[derive(Debug, Copy, Clone, Eq, PartialEq, Hash, Structural)]
pub enum TargetServer {
    OpenStreetMap,
    OpenStreetMapDev,
}

impl Default for TargetServer {
    fn default() -> (r: Self)
        ensures
            r == TargetServer::OpenStreetMapDev,
    {
        TargetServer::OpenStreetMapDev
    }
}

impl TargetServer {
    /// Number of servers.
    pub const SIZE: usize = 2;

    /// The position of this server in tables that have one row per server.
    pub fn index(self) -> (i: usize)
        ensures
            i == (match self {
                TargetServer::OpenStreetMap => 0usize,
                TargetServer::OpenStreetMapDev => 1usize,
            }),
            i < TargetServer::SIZE,
    {
        match self {
            TargetServer::OpenStreetMap => 0,
            TargetServer::OpenStreetMapDev => 1,
        }
    }

    pub open spec fn spec_description(self) -> Seq<char> {
        match self {
            TargetServer::OpenStreetMap => "OpenStreetMap main instance"@,
            TargetServer::OpenStreetMapDev => "OpenStreetMap test instance"@,
        }
    }

    pub fn description(self) -> (s: &'static str)
        ensures
            s@ == self.spec_description(),
    {
        match self {
            TargetServer::OpenStreetMap => "OpenStreetMap main instance",
            TargetServer::OpenStreetMapDev => "OpenStreetMap test instance",
        }
    }

    pub open spec fn spec_base_url(self) -> Seq<char> {
        match self {
            TargetServer::OpenStreetMap => "www.openstreetmap.org"@,
            TargetServer::OpenStreetMapDev => "master.apis.dev.openstreetmap.org"@,
        }
    }

    pub fn base_url(self) -> (s: &'static str)
        ensures
            s@ == self.spec_base_url(),
    {
        match self {
            TargetServer::OpenStreetMap => "www.openstreetmap.org",
            TargetServer::OpenStreetMapDev => "master.apis.dev.openstreetmap.org",
        }
    }

    pub open spec fn spec_base_token_url(self) -> Seq<char> {
        match self {
            TargetServer::OpenStreetMap => "www.openstreetmap.org/oauth2/token"@,
            TargetServer::OpenStreetMapDev => "master.apis.dev.openstreetmap.org/oauth2/token"@,
        }
    }

    pub fn base_token_url(self) -> (s: &'static str)
        ensures
            s@ == self.spec_base_token_url(),
    {
        match self {
            TargetServer::OpenStreetMap => "www.openstreetmap.org/oauth2/token",
            TargetServer::OpenStreetMapDev => "master.apis.dev.openstreetmap.org/oauth2/token",
        }
    }

    pub open spec fn spec_base_auth_url(self) -> Seq<char> {
        match self {
            TargetServer::OpenStreetMap => "www.openstreetmap.org/oauth2/authorize"@,
            TargetServer::OpenStreetMapDev => "master.apis.dev.openstreetmap.org/oauth2/authorize"@,
        }
    }

    pub fn base_auth_url(self) -> (s: &'static str)
        ensures
            s@ == self.spec_base_auth_url(),
    {
        match self {
            TargetServer::OpenStreetMap => "www.openstreetmap.org/oauth2/authorize",
            TargetServer::OpenStreetMapDev => "master.apis.dev.openstreetmap.org/oauth2/authorize",
        }
    }

    pub open spec fn spec_client_id(self) -> Seq<char> {
        match self {
            TargetServer::OpenStreetMap => ""@,
            TargetServer::OpenStreetMapDev => "55c2UqVCKGU_KEhQj4B5wGZHL6fR2dVS5zkwBfkiGd0"@,
        }
    }

    pub fn client_id(self) -> (s: &'static str)
        ensures
            s@ == self.spec_client_id(),
    {
        match self {
            TargetServer::OpenStreetMap => "",
            TargetServer::OpenStreetMapDev => "55c2UqVCKGU_KEhQj4B5wGZHL6fR2dVS5zkwBfkiGd0",
        }
    }
}

/// A box of coordinates in units of 1e-7 degree.
#[derive(Debug, Clone, Copy, PartialEq, Eq, Structural)]
pub struct Bbox {
    pub left: i32,
    pub bottom: i32,
    pub right: i32,
    pub top: i32,
}

impl Default for Bbox {
    fn default() -> (r: Self)
        ensures
            r == (Bbox { left: 0, bottom: 0, right: 0, top: 0 }),
    {
        Bbox { left: 0, bottom: 0, right: 0, top: 0 }
    }
}

impl Bbox {
    /// Width times height, in units of 1e-14 square degree.
    pub open spec fn spec_area(&self) -> int {
        (self.right - self.left) * (self.top - self.bottom)
    }

    pub fn area(&self) -> (a: i128)
        ensures
            a == self.spec_area(),
    {
        let w: i128 = self.right as i128 - self.left as i128;
        let h: i128 = self.top as i128 - self.bottom as i128;
        assert(-0x1_0000_0000_0000_0000 <= w * h <= 0x1_0000_0000_0000_0000) by (nonlinear_arith)
            requires
                -0x1_0000_0000 <= w <= 0x1_0000_0000,
                -0x1_0000_0000 <= h <= 0x1_0000_0000,
        ;
        w * h
    }
}

/// The largest box, in units of 1e-14 square degree, that may be fetched
/// at once.
pub const MAX_DOWNLOAD_AREA: i128 = 50_000_000_000;

/// Whether `bbox` is small enough to be fetched at once.
pub fn can_download(bbox: &Bbox) -> (r: bool)
    ensures
        r == (bbox.spec_area() < MAX_DOWNLOAD_AREA),
{
    bbox.area() < MAX_DOWNLOAD_AREA
}

/// Leave to write, as a server grants it.
#[derive(Debug)]
pub struct OsmToken {
    pub access_token: String,
    pub token_type: String,
    pub scope: String,
    pub created_at: u64,
}

impl Clone for OsmToken {
    fn clone(&self) -> (r: Self)
        ensures
            r.access_token@ == self.access_token@,
            r.token_type@ == self.token_type@,
            r.scope@ == self.scope@,
            r.created_at == self.created_at,
    {
        OsmToken {
            access_token: self.access_token.clone(),
            token_type: self.token_type.clone(),
            scope: self.scope.clone(),
            created_at: self.created_at,
        }
    }
}

/// The request that opens a changeset.
#[derive(Debug)]
pub struct OsmCreateChangeset {
    pub changeset: RawChangeset,
}

/// The tags of a changeset that is to be opened.
#[derive(Debug)]
pub struct RawChangeset {
    pub tags: Vec<Tag>,
}

/// The address of `path` on the programming interface of a server.
pub open spec fn api_url_text(path: Seq<char>, server: TargetServer) -> Seq<char> {
    "https://"@ + server.spec_base_url() + "/api/0.6"@ + path
}

/// The address of `path` on the programming interface of `target_server`.
pub fn api_url(path: &str, target_server: TargetServer) -> (r: String)
    requires
        path@.len() > 0,
        path@[0] == '/',
    ensures
        r@ == api_url_text(path@, target_server),
{
    let mut r = String::from_str("https://");
    r.append(target_server.base_url());
    r.append("/api/0.6");
    r.append(path);
    r
}

/// The address of `path` on the programming interface of `server`, for
/// requests that go to one server whatever the session's server is.
pub fn api_url_override(path: &str, server: TargetServer) -> (r: String)
    requires
        path@.len() > 0,
        path@[0] == '/',
    ensures
        r@ == api_url_text(path@, server),
{
    let mut r = String::from_str("https://");
    r.append(server.base_url());
    r.append("/api/0.6");
    r.append(path);
    r
}

/// The address at which the user gives the editor leave to write.
pub open spec fn client_auth_url_text(server: TargetServer) -> Seq<char> {
    "https://"@ + server.spec_base_auth_url() + "?response_type=code&client_id="@
        + server.spec_client_id() + "&redirect_uri="@ + REDIRECT_URI@ + "&scope="@ + SCOPES@
}

/// The address at which the user gives the editor leave to write.
pub fn client_auth_url(server: TargetServer) -> (r: String)
    ensures
        r@ == client_auth_url_text(server),
{
    let mut r = String::from_str("https://");
    r.append(server.base_auth_url());
    r.append("?response_type=code&client_id=");
    r.append(server.client_id());
    r.append("&redirect_uri=");
    r.append(REDIRECT_URI);
    r.append("&scope=");
    r.append(SCOPES);
    r
}

/// The path that closes changeset `id`.
pub fn close_changeset_path(id: u32) -> (r: String)
    ensures
        r@ == "/changeset/"@ + crate::text::decimal_text(id as nat) + "/close"@,
{
    let mut r = String::from_str("/changeset/");
    push_decimal(&mut r, id as u64);
    r.append("/close");
    r
}

} // verus!
