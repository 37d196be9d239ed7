//! The opening of a session: protocol version, security and initialisation.
use vstd::prelude::*;

use crate::auth;
use crate::auth::VncError;
use crate::bytes;
use crate::config;
use crate::config::VncAuth;
use crate::pixel::VncPixelFormat;

verus! {

/// The digit 7 in ASCII.
pub const DIGIT_SEVEN: u8 = 0x37;

/// The digit 8 in ASCII.
pub const DIGIT_EIGHT: u8 = 0x38;

/// How far a handshake has come.
#[derive(Clone, Copy, Debug)]
pub enum Stage {
    /// The client's protocol version is awaited.
    Version,
    /// The client's choice of a security type is awaited.
    SecurityChoice { minor: u8 },
    /// A challenge has to be sent.
    ChallengeDue { minor: u8 },
    /// The client's answer to a challenge is awaited.
    Response { minor: u8, challenge: [u8; 16] },
    /// The client was let in, and its ClientInit message is awaited.
    ClientInit { minor: u8 },
    /// The session has begun.
    Ready { minor: u8 },
    /// The client was turned away.
    Failed { error: VncError },
}

/// The version that the server offers: `RFB 003.008` and a line feed.
pub open spec fn spec_greeting() -> Seq<u8> {
    seq![
        0x52u8, 0x46, 0x42, 0x20, 0x30, 0x30, 0x33, 0x2e, 0x30, 0x30, 0x38, 0x0a,
    ]
}

/// The minor version that a client's version message settles on: the one that
/// it names where that is 3.8 or 3.7, and 3.3 in every other case.
pub open spec fn minor_version(version: Seq<u8>) -> u8 {
    if version.take(8) == spec_greeting().take(8) && version[10] == DIGIT_EIGHT {
        8
    } else if version.take(8) == spec_greeting().take(8) && version[10] == DIGIT_SEVEN {
        7
    } else {
        3
    }
}

/// The PIXEL_FORMAT structure that announces the layout of the frame.
pub open spec fn native_format_bytes() -> Seq<u8> {
    seq![32u8, 24, 0, 1, 0, 255, 0, 255, 0, 255, 16, 8, 0, 0, 0, 0]
}

/// The ServerInit message: the size of the screen, its pixel format, and the
/// name of the desktop after its length.
pub open spec fn spec_server_init(width: u16, height: u16, name: Seq<char>) -> Seq<u8> {
    let text = vstd::utf8::encode_utf8(name);
    bytes::be16_bytes(width) + bytes::be16_bytes(height) + native_format_bytes()
        + bytes::be32_bytes(text.len() as u32) + text
}

/// The contents of a [`Handshake`]: what the server is set to, and how far the
/// client has come.
#[verifier::ext_equal]
pub struct HandshakeState {
    pub password: Option<Seq<char>>,
    pub width: u16,
    pub height: u16,
    pub name: Seq<char>,
    pub stage: Stage,
}

impl HandshakeState {
    /// How many bytes of the client's are awaited.
    pub open spec fn needed(self) -> int {
        match self.stage {
            Stage::Version => 12,
            Stage::SecurityChoice { .. } => 1,
            Stage::Response { .. } => 16,
            Stage::ClientInit { .. } => 1,
            _ => 0,
        }
    }

    /// Whether a challenge is in play only where there is a password.
    pub open spec fn wf(self) -> bool {
        (self.stage is ChallengeDue || self.stage is Response) ==> self.password is Some
    }

    /// The same handshake, at another stage.
    pub open spec fn at(self, stage: Stage) -> HandshakeState {
        HandshakeState { stage, ..self }
    }

    /// What follows when the security type is settled.
    pub open spec fn secured(self, minor: u8) -> Stage {
        match self.password {
            None => Stage::ClientInit { minor },
            Some(_) => Stage::ChallengeDue { minor },
        }
    }

    /// The stage that the awaited bytes lead to, and what they are answered.
    pub open spec fn after(self, input: Seq<u8>) -> (Stage, Seq<u8>) {
        let security_type = config::security_type_of(self.password);
        match self.stage {
            Stage::Version => {
                let minor = minor_version(input);
                if minor >= 7 {
                    (Stage::SecurityChoice { minor }, seq![1u8, security_type])
                } else {
                    (self.secured(minor), bytes::be32_bytes(security_type as u32))
                }
            },
            Stage::SecurityChoice { minor } => if input[0] != security_type {
                (Stage::Failed { error: VncError::UnsupportedSecurityType }, Seq::empty())
            } else {
                (
                    self.secured(minor),
                    if minor >= 8 && self.password is None {
                        bytes::be32_bytes(0)
                    } else {
                        Seq::empty()
                    },
                )
            },
            Stage::Response { minor, challenge } => {
                let accepted = auth::password_response(self.password->0, challenge@) == input;
                (
                    if accepted {
                        Stage::ClientInit { minor }
                    } else {
                        Stage::Failed { error: VncError::AuthenticationFailed }
                    },
                    auth::security_result(accepted, true),
                )
            },
            Stage::ClientInit { minor } => (
                Stage::Ready { minor },
                spec_server_init(self.width, self.height, self.name),
            ),
            _ => (self.stage, Seq::empty()),
        }
    }

    /// The stage once a challenge is sent, if one was due, and what is sent.
    pub open spec fn challenged(self, challenge: [u8; 16]) -> (Stage, Seq<u8>) {
        match self.stage {
            Stage::ChallengeDue { minor } => (Stage::Response { minor, challenge }, challenge@),
            _ => (self.stage, Seq::empty()),
        }
    }

    /// The stage that the awaited bytes lead to, with `challenge` posed where
    /// they make one due, and all that is sent.
    pub open spec fn step(self, input: Seq<u8>, challenge: [u8; 16]) -> (Stage, Seq<u8>) {
        let (stage, reply) = self.after(input);
        let (next, posed) = self.at(stage).challenged(challenge);
        (next, reply + posed)
    }
}

/// The version that the server offers, which opens the session.
pub fn greeting() -> (r: Vec<u8>)
    ensures
        r@ == spec_greeting(),
{
    let r: Vec<u8> = vec![
        0x52u8, 0x46, 0x42, 0x20, 0x30, 0x30, 0x33, 0x2e, 0x30, 0x30, 0x38, 0x0a,
    ];
    assert(r@ =~= spec_greeting());
    r
}

/// The minor version that a client's version message settles on.
pub fn negotiate_minor(version: &[u8]) -> (minor: u8)
    requires
        version@.len() == 12,
    ensures
        minor == minor_version(version@),
{
    let offered: Vec<u8> = greeting();
    let ghost prefix = spec_greeting().take(8);
    let mut i: usize = 0;
    while i < 8
        invariant
            i <= 8,
            version@.len() == 12,
            offered@ == spec_greeting(),
            prefix == spec_greeting().take(8),
            forall|k: int| 0 <= k < i ==> version@[k] == offered@[k],
        decreases 8 - i,
    {
        if version[i] != offered[i] {
            assert(version@.take(8)[i as int] != prefix[i as int]);
            return 3;
        }
        i = i + 1;
    }
    assert(version@.take(8) =~= prefix);
    if version[10] == DIGIT_EIGHT {
        8
    } else if version[10] == DIGIT_SEVEN {
        7
    } else {
        3
    }
}

/// The ServerInit message.
pub fn server_init(width: u16, height: u16, name: &str) -> (r: Vec<u8>)
    ensures
        r@ == spec_server_init(width, height, name@),
{
    let text: &[u8] = name.as_bytes();
    let mut init: Vec<u8> = Vec::new();
    bytes::push_be16(&mut init, width);
    bytes::push_be16(&mut init, height);
    let format: [u8; 16] = [32, 24, 0, 1, 0, 255, 0, 255, 0, 255, 16, 8, 0, 0, 0, 0];
    assert(format@ =~= native_format_bytes());
    bytes::push_bytes(&mut init, &format);
    bytes::push_be32(&mut init, text.len() as u32);
    bytes::push_bytes(&mut init, text);
    assert(init@ =~= spec_server_init(width, height, name@));
    init
}

/// The handshake with one client. The host program sends [`greeting`], and
/// then hands over the bytes that are awaited and sends what it gets back,
/// until the stage is `Ready` or `Failed`.
pub struct Handshake {
    auth: VncAuth,
    width: u16,
    height: u16,
    name: String,
    stage: Stage,
}

impl View for Handshake {
    type V = HandshakeState;

    closed spec fn view(&self) -> HandshakeState {
        HandshakeState {
            password: self.auth@,
            width: self.width,
            height: self.height,
            name: self.name@,
            stage: self.stage,
        }
    }
}

/// The state in which a handshake starts.
pub open spec fn start(
    password: Option<Seq<char>>,
    width: u16,
    height: u16,
    name: Seq<char>,
) -> HandshakeState {
    HandshakeState { password, width, height, name, stage: Stage::Version }
}

impl Handshake {
    /// A handshake that awaits the client's version, for a screen of the given
    /// size and a desktop of the given name.
    pub fn new(auth: VncAuth, width: u16, height: u16, name: String) -> (r: Self)
        ensures
            r@ == start(auth@, width, height, name@),
            r@.password == auth@ && r@.name == name@,
            r@.width == width && r@.height == height,
            r@.stage is Version,
            r@.wf(),
    {
        Handshake { auth, width, height, name, stage: Stage::Version }
    }

    /// How far the handshake has come.
    pub fn stage(&self) -> (r: Stage)
        ensures
            r == self@.stage,
    {
        self.stage
    }

    /// How many bytes of the client's are awaited.
    pub fn needed(&self) -> (r: usize)
        ensures
            r == self@.needed(),
    {
        match self.stage {
            Stage::Version => 12,
            Stage::SecurityChoice { .. } => 1,
            Stage::Response { .. } => 16,
            Stage::ClientInit { .. } => 1,
            _ => 0,
        }
    }

    /// Takes the awaited bytes, and returns what to send.
    pub fn receive(&mut self, input: &[u8]) -> (reply: Vec<u8>)
        requires
            old(self)@.wf(),
            input@.len() == old(self)@.needed(),
        ensures
            final(self)@ == old(self)@.at(old(self)@.after(input@).0),
            reply@ == old(self)@.after(input@).1,
            final(self)@ == (HandshakeState { stage: final(self)@.stage, ..old(self)@ }),
            final(self)@.wf(),
    {
        let mut reply: Vec<u8> = Vec::new();
        let security_type: u8 = self.auth.security_type();
        match self.stage {
            Stage::Version => {
                let minor: u8 = negotiate_minor(input);
                if minor >= 7 {
                    reply.push(1);
                    reply.push(security_type);
                    self.stage = Stage::SecurityChoice { minor };
                } else {
                    bytes::push_be32(&mut reply, security_type as u32);
                    self.stage = self.secured(minor);
                }
            },
            Stage::SecurityChoice { minor } => {
                if input[0] != security_type {
                    self.stage = Stage::Failed { error: VncError::UnsupportedSecurityType };
                } else {
                    let open: bool = match self.auth {
                        VncAuth::Open => true,
                        VncAuth::Password(_) => false,
                    };
                    if minor >= 8 && open {
                        bytes::push_be32(&mut reply, 0);
                    }
                    self.stage = self.secured(minor);
                }
            },
            Stage::Response { minor, challenge } => {
                let response: [u8; 16] = block_of(input);
                if let VncAuth::Password(password) = &self.auth {
                    let (result, verdict) = auth::run_vnc_password_auth(
                        password.as_str(),
                        challenge,
                        response,
                        true,
                    );
                    reply = result;
                    match verdict {
                        Ok(_) => {
                            self.stage = Stage::ClientInit { minor };
                        },
                        Err(error) => {
                            self.stage = Stage::Failed { error };
                        },
                    }
                }
            },
            Stage::ClientInit { minor } => {
                reply = server_init(self.width, self.height, self.name.as_str());
                self.stage = Stage::Ready { minor };
            },
            _ => {},
        }
        assert(reply@ =~= old(self)@.after(input@).1);
        assert(self@ =~= old(self)@.at(old(self)@.after(input@).0));
        reply
    }

    /// What follows when the security type is settled.
    fn secured(&self, minor: u8) -> (r: Stage)
        ensures
            r == self@.secured(minor),
    {
        match self.auth {
            VncAuth::Open => Stage::ClientInit { minor },
            VncAuth::Password(_) => Stage::ChallengeDue { minor },
        }
    }

    /// Poses `challenge` where one is due, and returns what to send.
    pub fn challenge(&mut self, challenge: [u8; 16]) -> (reply: Vec<u8>)
        requires
            old(self)@.wf(),
        ensures
            final(self)@ == old(self)@.at(old(self)@.challenged(challenge).0),
            reply@ == old(self)@.challenged(challenge).1,
            final(self)@ == (HandshakeState { stage: final(self)@.stage, ..old(self)@ }),
            final(self)@.wf(),
    {
        let mut reply: Vec<u8> = Vec::new();
        if let Stage::ChallengeDue { minor } = self.stage {
            bytes::push_bytes(&mut reply, &challenge);
            self.stage = Stage::Response { minor, challenge };
        }
        assert(reply@ =~= old(self)@.challenged(challenge).1);
        assert(self@ =~= old(self)@.at(old(self)@.challenged(challenge).0));
        reply
    }

    /// Takes the awaited bytes, poses a random challenge where that makes one
    /// due, and returns what to send.
    pub fn advance(&mut self, input: &[u8]) -> (reply: Vec<u8>)
        requires
            old(self)@.wf(),
            input@.len() == old(self)@.needed(),
        ensures
            exists|challenge: [u8; 16]|
                {
                    let (stage, sent) = #[trigger] old(self)@.step(input@, challenge);
                    final(self)@ == old(self)@.at(stage) && reply@ == sent
                },
            final(self)@ == (HandshakeState { stage: final(self)@.stage, ..old(self)@ }),
            final(self)@.wf(),
    {
        let ghost before = self@;
        let mut reply: Vec<u8> = self.receive(input);
        if let Stage::ChallengeDue { .. } = self.stage {
            let drawn: [u8; 16] = auth::random_challenge();
            let posed: Vec<u8> = self.challenge(drawn);
            bytes::push_bytes(&mut reply, posed.as_slice());
            assert(reply@ == before.step(input@, drawn).1);
        } else {
            let ghost unused: [u8; 16] = vstd::pervasive::arbitrary();
            assert(before.step(input@, unused).1 =~= reply@);
        }
        reply
    }
}

/// Sixteen bytes as a block.
fn block_of(input: &[u8]) -> (r: [u8; 16])
    requires
        input@.len() == 16,
    ensures
        r@ == input@,
{
    let mut r: [u8; 16] = [0u8; 16];
    let mut i: usize = 0;
    while i < 16
        invariant
            i <= 16,
            input@.len() == 16,
            forall|k: int| 0 <= k < i ==> r@[k] == input@[k],
        decreases 16 - i,
    {
        r[i] = input[i];
        i = i + 1;
    }
    assert(r@ =~= input@);
    r
}

/// The state after each of `inputs` was taken in turn, where the challenge
/// that input `i` makes due is `challenges[i]`.
pub open spec fn run(
    state: HandshakeState,
    inputs: Seq<Seq<u8>>,
    challenges: Seq<[u8; 16]>,
) -> HandshakeState
    decreases inputs.len(),
{
    if inputs.len() == 0 {
        state
    } else {
        let before = run(state, inputs.drop_last(), challenges);
        before.at(before.step(inputs.last(), challenges[inputs.len() - 1]).0)
    }
}

/// Whether one of `inputs` is the right answer to the challenge before it.
pub open spec fn answered(
    password: Seq<char>,
    inputs: Seq<Seq<u8>>,
    challenges: Seq<[u8; 16]>,
) -> bool {
    exists|i: int|
        0 < i < inputs.len() && #[trigger] inputs[i] == auth::password_response(
            password,
            challenges[i - 1]@,
        )
}

/// Nobody gets past a password without it: where a password is set, a client
/// is let in only once it has answered the challenge before as the password
/// demands.
pub proof fn law_password_is_required(
    password: Seq<char>,
    width: u16,
    height: u16,
    name: Seq<char>,
    inputs: Seq<Seq<u8>>,
    challenges: Seq<[u8; 16]>,
)
    ensures
        ({
            let end = run(start(Some(password), width, height, name), inputs, challenges);
            &&& end == start(Some(password), width, height, name).at(end.stage)
            &&& end.stage matches Stage::Response { challenge, .. } ==> inputs.len() > 0
                && challenge == challenges[inputs.len() - 1]
            &&& (end.stage is ClientInit || end.stage is Ready) ==> answered(
                password,
                inputs,
                challenges,
            )
        }),
    decreases inputs.len(),
{
    if inputs.len() > 0 {
        let earlier = inputs.drop_last();
        law_password_is_required(password, width, height, name, earlier, challenges);
        let before = run(start(Some(password), width, height, name), earlier, challenges);
        if answered(password, earlier, challenges) {
            let i = choose|i: int|
                0 < i < earlier.len() && #[trigger] earlier[i] == auth::password_response(
                    password,
                    challenges[i - 1]@,
                );
            assert(inputs[i] == earlier[i]);
        }
        if before.stage is Response {
            assert(inputs[inputs.len() - 1] == inputs.last());
        }
    }
}

/// A client that was turned away stays so, and is told nothing more.
pub proof fn law_refusal_is_final(state: HandshakeState, input: Seq<u8>, challenge: [u8; 16])
    requires
        state.stage is Failed,
    ensures
        state.step(input, challenge) == (state.stage, Seq::<u8>::empty()),
{
    assert(state.step(input, challenge).1 =~= Seq::<u8>::empty());
}

/// The answer to a challenge decides: the right one is confirmed with a zero
/// and lets the client in, any other is refused with a one.
pub proof fn law_answer_decides(state: HandshakeState, input: Seq<u8>)
    requires
        state.stage is Response,
        state.password is Some,
    ensures
        input == auth::password_response(state.password->0, state.stage->challenge@)
            ==> state.after(input) == (
            Stage::ClientInit { minor: state.stage->Response_minor },
            seq![0u8, 0u8, 0u8, 0u8],
        ),
        input != auth::password_response(state.password->0, state.stage->challenge@)
            ==> state.after(input) == (
            Stage::Failed { error: VncError::AuthenticationFailed },
            seq![0u8, 0u8, 0u8, 1u8],
        ),
{
    auth::law_verdict(true);
    auth::law_verdict(false);
}

/// A client of every version gets in by the book. One of version 3.7 or 3.8
/// names the security type that it is offered, one of version 3.3 does not;
/// one that is asked for a password answers the challenge; and each ends with
/// its ClientInit message, which is answered with ServerInit.
pub proof fn law_conversation(
    begin: HandshakeState,
    version: Seq<u8>,
    choice: Seq<u8>,
    init: Seq<u8>,
    challenges: Seq<[u8; 16]>,
)
    requires
        begin.stage is Version,
        choice[0] == config::security_type_of(begin.password),
    ensures
        ({
            let minor = minor_version(version);
            let asked = if minor >= 7 {
                seq![version, choice]
            } else {
                seq![version]
            };
            let inputs = match begin.password {
                None => asked,
                Some(password) => asked.push(
                    auth::password_response(password, challenges[asked.len() - 1]@),
                ),
            };
            let admitted = run(begin, inputs, challenges);
            &&& admitted == begin.at(Stage::ClientInit { minor })
            &&& admitted.after(init) == (
                Stage::Ready { minor },
                spec_server_init(begin.width, begin.height, begin.name),
            )
        }),
{
    let minor = minor_version(version);
    reveal_with_fuel(run, 4);
    let asked = if minor >= 7 {
        seq![version, choice]
    } else {
        seq![version]
    };
    assert(seq![version].drop_last() =~= Seq::<Seq<u8>>::empty());
    assert(seq![version, choice].drop_last() =~= seq![version]);
    let settled = run(begin, asked, challenges);
    if let Some(password) = begin.password {
        let answer = auth::password_response(password, challenges[asked.len() - 1]@);
        assert(settled == begin.at(
            Stage::Response { minor, challenge: challenges[asked.len() - 1] },
        ));
        assert(asked.push(answer).drop_last() =~= asked);
    }
}

/// Whether a version message begins with `RFB 003.`.
pub open spec fn speaks_version_three(version: Seq<u8>) -> bool {
    &&& version[0] == 0x52 && version[1] == 0x46 && version[2] == 0x42 && version[3] == 0x20
    &&& version[4] == 0x30 && version[5] == 0x30 && version[6] == 0x33 && version[7] == 0x2e
}

/// The session settles on version 3.8 exactly if the client's message begins
/// with `RFB 003.` and its eleventh byte is the digit 8, on version 3.7 exactly if
/// that byte is the digit 7 instead, and on version 3.3 otherwise. A client that
/// echoes what the server offers gets version 3.8.
pub proof fn law_minor_version(version: Seq<u8>)
    ensures
        minor_version(version) == 3 || minor_version(version) == 7 || minor_version(version) == 8,
        version.len() == 12 ==> {
            &&& minor_version(version) == 8 <==> speaks_version_three(version) && version[10]
                == 0x38
            &&& minor_version(version) == 7 <==> speaks_version_three(version) && version[10]
                == 0x37
        },
        minor_version(spec_greeting()) == 8,
{
    let offered = spec_greeting().take(8);
    let spoken = version.take(8);
    if version.len() == 12 && spoken == offered {
        assert(forall|k: int| 0 <= k < 8 ==> spoken[k] == version[k]);
        assert(forall|k: int| 0 <= k < 8 ==> offered[k] == spec_greeting()[k]);
        assert(spoken[0] == offered[0] && spoken[1] == offered[1] && spoken[2] == offered[2]);
        assert(spoken[3] == offered[3] && spoken[4] == offered[4] && spoken[5] == offered[5]);
        assert(spoken[6] == offered[6] && spoken[7] == offered[7]);
    }
    if version.len() == 12 && speaks_version_three(version) {
        assert(spoken =~= offered);
    }
}

/// What the server offers reads `RFB 003.008` and ends the line.
pub proof fn law_greeting(i: int)
    requires
        0 <= i < 12,
    ensures
        spec_greeting().len() == 12,
        "RFB 003.008\n"@.len() == 12,
        spec_greeting()[i] == "RFB 003.008\n"@[i] as u32,
{
    reveal_strlit("RFB 003.008\n");
    let text = "RFB 003.008\n"@;
    let offered = spec_greeting();
    assert(offered[0] == text[0] as u32 && offered[1] == text[1] as u32);
    assert(offered[2] == text[2] as u32 && offered[3] == text[3] as u32);
    assert(offered[4] == text[4] as u32 && offered[5] == text[5] as u32);
    assert(offered[6] == text[6] as u32 && offered[7] == text[7] as u32);
    assert(offered[8] == text[8] as u32 && offered[9] == text[9] as u32);
    assert(offered[10] == text[10] as u32 && offered[11] == text[11] as u32);
}

/// Each step of a handshake changes how far it has come, and nothing else.
pub proof fn law_settings_stay(state: HandshakeState, stage: Stage)
    ensures
        state.at(stage).stage == stage,
        state.at(stage).password == state.password,
        state.at(stage).width == state.width,
        state.at(stage).height == state.height,
        state.at(stage).name == state.name,
{
}

/// How many bytes each stage awaits.
pub proof fn law_awaited(state: HandshakeState)
    ensures
        state.needed() == match state.stage {
            Stage::Version => 12int,
            Stage::SecurityChoice { .. } => 1,
            Stage::ChallengeDue { .. } => 0,
            Stage::Response { .. } => 16,
            Stage::ClientInit { .. } => 1,
            Stage::Ready { .. } => 0,
            Stage::Failed { .. } => 0,
        },
{
}

/// What a version message is answered. A client of version 3.7 or 3.8 is offered
/// a list of one security type; one of version 3.3 is told the type in four
/// bytes, and goes on as if it had chosen it. The type is 1 where no password is
/// set and 2 where one is.
pub proof fn law_version_is_answered(state: HandshakeState, version: Seq<u8>)
    requires
        state.stage is Version,
        version.len() == 12,
    ensures
        ({
            let (stage, reply) = state.after(version);
            let eight = speaks_version_three(version) && version[10] == 0x38;
            let seven = speaks_version_three(version) && version[10] == 0x37;
            &&& eight ==> stage == (Stage::SecurityChoice { minor: 8 })
            &&& seven ==> stage == (Stage::SecurityChoice { minor: 7 })
            &&& (eight || seven) && state.password is None ==> reply == seq![1u8, 1u8]
            &&& (eight || seven) && state.password is Some ==> reply == seq![1u8, 2u8]
            &&& !eight && !seven && state.password is None ==> {
                &&& stage == (Stage::ClientInit { minor: 3 })
                &&& reply == seq![0u8, 0u8, 0u8, 1u8]
            }
            &&& !eight && !seven && state.password is Some ==> {
                &&& stage == (Stage::ChallengeDue { minor: 3 })
                &&& reply == seq![0u8, 0u8, 0u8, 2u8]
            }
        }),
{
    law_minor_version(version);
    assert(bytes::be32_bytes(1) =~= seq![0u8, 0u8, 0u8, 1u8]);
    assert(bytes::be32_bytes(2) =~= seq![0u8, 0u8, 0u8, 2u8]);
}

/// What the choice of a security type leads to. The type that was offered is
/// taken: where no password is set the client is let in, and told so from version
/// 3.8 on; where one is set it has to meet a challenge, and is told nothing yet.
/// Any other choice is refused without a word.
pub proof fn law_choice_is_answered(state: HandshakeState, choice: Seq<u8>)
    requires
        state.stage is SecurityChoice,
        choice.len() == 1,
    ensures
        ({
            let minor = state.stage->SecurityChoice_minor;
            let (stage, reply) = state.after(choice);
            &&& state.password is None && choice[0] == 1 ==> {
                &&& stage == (Stage::ClientInit { minor })
                &&& minor >= 8 ==> reply == seq![0u8, 0u8, 0u8, 0u8]
                &&& minor < 8 ==> reply.len() == 0
            }
            &&& state.password is Some && choice[0] == 2 ==> {
                &&& stage == (Stage::ChallengeDue { minor })
                &&& reply.len() == 0
            }
            &&& (state.password is None && choice[0] != 1 || state.password is Some && choice[0]
                != 2) ==> {
                &&& stage == (Stage::Failed { error: VncError::UnsupportedSecurityType })
                &&& reply.len() == 0
            }
        }),
{
    assert(bytes::be32_bytes(0) =~= seq![0u8, 0u8, 0u8, 0u8]);
}

/// A challenge is sent where it is due, in the same step that makes it due, and
/// nowhere else. It is then the one whose answer is awaited.
pub proof fn law_challenge_is_posed(
    state: HandshakeState,
    input: Seq<u8>,
    challenge: [u8; 16],
)
    ensures
        state.stage matches Stage::ChallengeDue { minor } ==> state.challenged(challenge) == (
            Stage::Response { minor, challenge },
            challenge@,
        ),
        !(state.stage is ChallengeDue) ==> state.challenged(challenge) == (
            state.stage,
            Seq::<u8>::empty(),
        ),
        state.after(input).0 matches Stage::ChallengeDue { minor } ==> state.step(input, challenge)
            == (Stage::Response { minor, challenge }, state.after(input).1 + challenge@),
        !(state.after(input).0 is ChallengeDue) ==> state.step(input, challenge) == state.after(
            input,
        ),
{
    if !(state.after(input).0 is ChallengeDue) {
        assert(state.step(input, challenge).1 =~= state.after(input).1);
    }
}

/// A ClientInit message, whatever it says, is answered with ServerInit for the
/// screen and the name that were set, and the session has begun. Nothing is
/// answered after that, nor after a refusal.
pub proof fn law_session_begins(state: HandshakeState, input: Seq<u8>)
    ensures
        state.stage matches Stage::ClientInit { minor } ==> state.after(input) == (
            Stage::Ready { minor },
            spec_server_init(state.width, state.height, state.name),
        ),
        state.stage is Ready || state.stage is Failed || state.stage is ChallengeDue
            ==> state.after(input) == (state.stage, Seq::<u8>::empty()),
{
}

/// What the part of ServerInit before the name holds.
proof fn lemma_init_head(width: u16, height: u16, len: u32)
    ensures
        ({
            let head = bytes::be16_bytes(width) + bytes::be16_bytes(height) + native_format_bytes()
                + bytes::be32_bytes(len);
            &&& head.len() == 24
            &&& head.subrange(4, 20) == native_format_bytes()
            &&& head[0] * 256 + head[1] == width
            &&& head[2] * 256 + head[3] == height
            &&& head[4] == 32 && head[5] == 24 && head[6] == 0 && head[7] == 1
            &&& head[8] * 256 + head[9] == 255
            &&& head[10] * 256 + head[11] == 255
            &&& head[12] * 256 + head[13] == 255
            &&& head[14] == 16 && head[15] == 8 && head[16] == 0
            &&& head[17] == 0 && head[18] == 0 && head[19] == 0
            &&& ((head[20] * 256 + head[21]) * 256 + head[22]) * 256 + head[23] == len
        }),
{
    let size = bytes::be16_bytes(width) + bytes::be16_bytes(height);
    let format = native_format_bytes();
    let length = bytes::be32_bytes(len);
    let head = size + format + length;
    bytes::law_be16_round_trip(width, 0, 0);
    bytes::law_be16_round_trip(height, 0, 0);
    bytes::law_be32_round_trip(len, 0, 0, 0, 0);
    assert(head.subrange(4, 20) =~= format);
    assert(forall|k: int| 0 <= k < 4 ==> head[k] == #[trigger] size[k]);
    assert(size[0] == bytes::be16_bytes(width)[0] && size[1] == bytes::be16_bytes(width)[1]);
    assert(size[2] == bytes::be16_bytes(height)[0] && size[3] == bytes::be16_bytes(height)[1]);
    assert(forall|k: int| 0 <= k < 16 ==> head[k + 4] == #[trigger] format[k]);
    assert(head[20] == length[0] && head[21] == length[1]);
    assert(head[22] == length[2] && head[23] == length[3]);
}

/// ServerInit gives the size of the screen and then the pixel format, which is
/// the frame's own: 32 bits to a pixel, of which 24 count, little-endian, true
/// colour, with eight bits for each of red, green and blue at bits 16, 8 and 0.
/// The message ends with the name, whose length it gives.
pub proof fn law_server_init(width: u16, height: u16, name: Seq<char>)
    ensures
        ({
            let init = spec_server_init(width, height, name);
            let text = vstd::utf8::encode_utf8(name);
            &&& VncPixelFormat::spec_parse(init.subrange(4, 20)) == VncPixelFormat::spec_native()
            &&& init.len() == 24 + text.len()
            &&& init.subrange(24, init.len() as int) == text
            &&& text.len() <= u32::MAX ==> bytes::be32_value(init[20], init[21], init[22], init[23])
                == text.len()
            &&& bytes::be16_value(init[0], init[1]) == width
            &&& bytes::be16_value(init[2], init[3]) == height
            &&& init[0] * 256 + init[1] == width
            &&& init[2] * 256 + init[3] == height
            &&& init[4] == 32 && init[5] == 24 && init[6] == 0 && init[7] == 1
            &&& init[8] * 256 + init[9] == 255
            &&& init[10] * 256 + init[11] == 255
            &&& init[12] * 256 + init[13] == 255
            &&& init[14] == 16 && init[15] == 8 && init[16] == 0
            &&& init[17] == 0 && init[18] == 0 && init[19] == 0
            &&& text.len() <= u32::MAX ==> ((init[20] * 256 + init[21]) * 256 + init[22]) * 256
                + init[23] == text.len()
        }),
{
    let init = spec_server_init(width, height, name);
    let text = vstd::utf8::encode_utf8(name);
    let head = bytes::be16_bytes(width) + bytes::be16_bytes(height) + native_format_bytes()
        + bytes::be32_bytes(text.len() as u32);
    lemma_init_head(width, height, text.len() as u32);
    assert(init == head + text);
    assert(init.subrange(4, 20) =~= native_format_bytes()) by {
        assert(init.subrange(4, 20) =~= head.subrange(4, 20));
    }
    assert(init.subrange(24, init.len() as int) =~= text);
    assert(VncPixelFormat::spec_parse(native_format_bytes()) == VncPixelFormat::spec_native());
    assert(forall|k: int| 0 <= k < 24 ==> init[k] == #[trigger] head[k]);
}

} // verus!
