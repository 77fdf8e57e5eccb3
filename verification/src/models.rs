//! Data shapes exchanged with the remote-sync collaborator. The transport
//! itself (HTTP, serialization) lives outside this crate; here the shapes
//! are plain values.

use vstd::prelude::*;
use vstd::string::StringExecFns;

use crate::numfmt::{dec_i64, spec_dec_signed};

verus! {

/// A clipboard entry as the remote side reports it.
#[derive(Debug, Clone, PartialEq)]
pub struct ClipboardResp {
    pub id: i32,
    pub device_id: i32,
    pub ty: i32,
    pub content: String,
    pub path: String,
    pub hash: String,
    pub timestamp: i64,
}

/// A clipboard entry as sent for creation.
#[derive(Debug, Clone)]
pub struct CreateClipboard {
    pub device_id: i32,
    pub ty: i32,
    pub content: String,
    pub path: String,
    pub hash: String,
    pub timestamp: i64,
}

/// A device as the remote side reports it.
#[derive(Debug, Clone)]
pub struct DeviceResp {
    pub id: i32,
    pub name: String,
    pub uuid: String,
    pub user_id: i32,
    pub icon: String,
    pub created_at: i64,
    pub updated_at: i64,
}

/// A device registration request.
#[derive(Debug, Clone)]
pub struct CreateDevice {
    pub name: String,
    pub uuid: String,
    pub user_id: i32,
}

/// A device update request; absent fields stay unchanged remotely.
#[derive(Debug, Clone)]
pub struct UpdateDevice {
    pub name: Option<String>,
    pub icon: Option<String>,
    pub user_id: Option<i32>,
}

/// One entry of a device synchronization request.
#[derive(Debug, Clone)]
pub struct SyncItem {
    pub client_id: i32,
    pub timestamp: i32,
    pub hash: String,
}

/// A device synchronization request: the client's entries in a window.
#[derive(Debug, Clone)]
pub struct SyncDevice {
    pub start_at: i32,
    pub end_at: i32,
    pub items: Vec<SyncItem>,
}

/// The server's answer to a synchronization request.
#[derive(Debug, Clone)]
pub struct SyncDeviceResult {
    pub update_client_ids: Vec<i32>,
    pub download_server_ids: Vec<i32>,
}

/// A locally cached device.
#[derive(Debug, Clone)]
pub struct Device {
    pub id: i32,
    pub name: String,
    pub uuid: String,
    pub user_id: i32,
    pub icon: String,
}

/// A stored file's address on the remote side.
#[derive(Debug)]
pub struct FileResp {
    pub uri: String,
}

/// A user as the remote side reports it.
#[derive(Debug, PartialEq)]
pub struct UserResp {
    pub id: i32,
    pub username: String,
    pub email: String,
    pub password_hash: String,
    pub encrypted_dek: String,
    pub created_at: i64,
    pub updated_at: i64,
}

/// A registration request.
#[derive(Debug, Clone)]
pub struct UserRegister {
    pub username: String,
    pub email: String,
    pub password_hash: String,
    pub encrypted_dek: String,
}

/// A login request.
#[derive(Debug, Clone)]
pub struct UserLogin {
    pub username: String,
    pub password_hash: String,
}

/// A password-reset request.
#[derive(Debug, Clone)]
pub struct UserResetPassword {
    pub username: String,
    pub email: String,
    pub password_hash: String,
}

/// A locally cached user account.
#[derive(Debug, Clone)]
pub struct User {
    pub id: i32,
    pub username: String,
    pub email: String,
    pub password_hash: String,
    pub encrypted_dek: String,
}

impl From<UserResp> for User {
    /// Keeps the account fields of a server response and drops the
    /// server-side bookkeeping timestamps.
    fn from(resp: UserResp) -> (r: User) {
        User {
            id: resp.id,
            username: resp.username,
            email: resp.email,
            password_hash: resp.password_hash,
            encrypted_dek: resp.encrypted_dek,
        }
    }
}

impl vstd::std_specs::convert::FromSpecImpl<UserResp> for User {
    open spec fn obeys_from_spec() -> bool {
        true
    }

    open spec fn from_spec(resp: UserResp) -> User {
        User {
            id: resp.id,
            username: resp.username,
            email: resp.email,
            password_hash: resp.password_hash,
            encrypted_dek: resp.encrypted_dek,
        }
    }
}

/// A failure reported by the remote-sync client.
#[derive(Debug, Clone)]
pub enum ClientError {
    NetworkError(String),
    ApiError { code: i32, message: String },
    SerializationError(String),
    UnexpectedError(String),
}

/// The display text of a client error.
pub open spec fn spec_client_error_message(e: ClientError) -> Seq<char> {
    match e {
        ClientError::NetworkError(m) => "Network error: "@ + m@,
        ClientError::ApiError { code, message } => "API error ("@ + spec_dec_signed(code as int)
            + "): "@ + message@,
        ClientError::SerializationError(m) => "Serialization error: "@ + m@,
        ClientError::UnexpectedError(m) => "Unexpected error: "@ + m@,
    }
}

impl ClientError {
    /// The display text of this error.
    pub fn message(&self) -> (r: String)
        ensures
            r@ == spec_client_error_message(*self),
    {
        match self {
            ClientError::NetworkError(m) => {
                let mut s = String::from_str("Network error: ");
                s.append(m.as_str());
                s
            },
            ClientError::ApiError { code, message } => {
                let mut s = String::from_str("API error (");
                let c = dec_i64(*code as i64);
                s.append(c.as_str());
                s.append("): ");
                s.append(message.as_str());
                proof {
                    assert(s@ =~= spec_client_error_message(*self));
                }
                s
            },
            ClientError::SerializationError(m) => {
                let mut s = String::from_str("Serialization error: ");
                s.append(m.as_str());
                s
            },
            ClientError::UnexpectedError(m) => {
                let mut s = String::from_str("Unexpected error: ");
                s.append(m.as_str());
                s
            },
        }
    }
}

/// The sync API client, generic over the transport that performs the
/// calls; the transport itself lives outside this crate.
pub struct ApiClient<T> {
    pub client: T,
}

impl<T> ApiClient<T> {
    /// Wraps a transport.
    pub fn new(client: T) -> (r: Self)
        ensures
            r.client == client,
    {
        ApiClient { client }
    }
}

} // verus!
