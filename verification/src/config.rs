//! What a server is told to do, and what it reports of its clients' input.
use vstd::prelude::*;

use crate::auth;

verus! {

/// What a client did: a key pressed or let go, the pointer moved or clicked,
/// or text put on the clipboard.
#[derive(Clone, Debug)]
pub enum VncInputEvent {
    Key { down: bool, key: u32 },
    Pointer { button_mask: u8, x: u16, y: u16 },
    ClientCutText(Vec<u8>),
}

/// The contents of a [`VncInputEvent`].
#[verifier::ext_equal]
pub enum InputEventView {
    Key { down: bool, key: u32 },
    Pointer { button_mask: u8, x: u16, y: u16 },
    ClientCutText(Seq<u8>),
}

impl View for VncInputEvent {
    type V = InputEventView;

    open spec fn view(&self) -> InputEventView {
        match self {
            VncInputEvent::Key { down, key } => InputEventView::Key { down: *down, key: *key },
            VncInputEvent::Pointer { button_mask, x, y } => InputEventView::Pointer {
                button_mask: *button_mask,
                x: *x,
                y: *y,
            },
            VncInputEvent::ClientCutText(text) => InputEventView::ClientCutText(text@),
        }
    }
}

/// How clients prove who they are.
#[derive(Clone)]
pub enum VncAuth {
    /// They need not.
    Open,
    /// They know a password.
    Password(String),
}

impl Default for VncAuth {
    fn default() -> (r: Self)
        ensures
            r is Open,
    {
        VncAuth::Open
    }
}

impl View for VncAuth {
    type V = Option<Seq<char>>;

    /// The password that clients need, if they need one.
    open spec fn view(&self) -> Option<Seq<char>> {
        match self {
            VncAuth::Open => None,
            VncAuth::Password(password) => Some(password@),
        }
    }
}

/// The RFB number of the security type that clients have to choose: 1 for no
/// authentication, 2 for the password challenge.
pub open spec fn security_type_of(password: Option<Seq<char>>) -> u8 {
    match password {
        None => 1,
        Some(_) => 2,
    }
}

impl VncAuth {
    /// The RFB number of the security type.
    pub fn security_type(&self) -> (r: u8)
        ensures
            r == security_type_of(self@),
            *self is Open ==> r == 1,
            *self is Password ==> r == 2,
    {
        match self {
            VncAuth::Open => 1,
            VncAuth::Password(_) => 2,
        }
    }

    /// Whether the password is longer than the part of it that the protocol
    /// uses.
    pub fn password_is_truncated(&self) -> (r: bool)
        ensures
            r == (self@ matches Some(password) && auth::password_bytes(password).len()
                > auth::PASSWORD_LEN),
            *self is Open ==> !r,
            *self matches VncAuth::Password(password) ==> r == (vstd::utf8::encode_utf8(
                password@,
            ).len() > 8),
    {
        match self {
            VncAuth::Open => false,
            VncAuth::Password(password) => password.as_str().as_bytes().len()
                > auth::PASSWORD_LEN,
        }
    }
}

/// The settings of a server. `C` is the host program's type of input callback.
#[derive(Clone)]
pub struct VncServerConfig<C> {
    pub input_callback: Option<C>,
    pub auth: VncAuth,
}

impl<C> Default for VncServerConfig<C> {
    fn default() -> (r: Self)
        ensures
            r.input_callback is None,
            r.auth is Open,
    {
        VncServerConfig { input_callback: None, auth: VncAuth::Open }
    }
}

impl<C> VncServerConfig<C> {
    /// Output only, and open to every client.
    pub fn new() -> (r: Self)
        ensures
            r.input_callback is None,
            r.auth is Open,
    {
        Self::default()
    }

    /// The same, with the clients' input reported to `callback`.
    pub fn with_input_callback(self, callback: C) -> (r: Self)
        ensures
            r.input_callback == Some(callback),
            r.auth == self.auth,
    {
        let mut config = self;
        config.input_callback = Some(callback);
        config
    }

    /// The same, for clients that know `password`.
    pub fn with_password(self, password: String) -> (r: Self)
        ensures
            r.auth == VncAuth::Password(password),
            r.input_callback == self.input_callback,
    {
        let mut config = self;
        config.auth = VncAuth::Password(password);
        config
    }
}

/// Clients need a password exactly if one is set, whatever it is, and it is the
/// one that is set. They are offered the password challenge then, and no
/// authentication otherwise.
pub proof fn law_auth(auth: VncAuth)
    ensures
        auth is Open ==> auth@ is None && security_type_of(auth@) == 1,
        auth matches VncAuth::Password(password) ==> auth@ == Some(password@) && security_type_of(
            auth@,
        ) == 2,
{
}

} // verus!
