//! A journal of signed commands, each made on the revision that it finds. One writer keeps it.
use vstd::prelude::*;
use vstd::string::*;

use crate::chunks;
use crate::chunks::{Assembly, AssemblyView};
use crate::error;
use crate::error::{invalid, Error, ErrorView, Outcome, Result};
use crate::events::{Event, EventView};
use crate::federation::joined;
use crate::governance::{digest, Action, State};
use crate::identity;
use crate::identity::{Identity, PeerId};
use crate::laws::histories;
use crate::laws::histories::Submission;
use crate::model::rules;
use crate::model::views::{ActionView, StateView, Text};
use crate::order::{copy_bytes, same_text, Duplicate};
use crate::outside;
use crate::protocol::{JsonFrame, JsonFrameView, MAX_FRAME};

verus! {

pub const PROTOCOL: &'static str = "/jlucraft/union/governance/2";

/// The longest answer that is sent.
pub const MAX_SNAPSHOT: usize = 8_388_608;

/// How much of an answer one frame carries.
pub const CHUNK_SIZE: usize = 65_472;

/// The longest journal file.
pub const MAX_JOURNAL: u64 = 67_108_864;

/// The longest state that is committed, so that clients can always retrieve it.
pub const MAX_STATE: usize = 8_387_584;

/// A command: the revision it was made on, the time it is good for, and what it does.
#[derive(Debug, PartialEq, Eq)]
pub struct Command {
    pub revision: u64,
    pub expires_ms: u64,
    pub action: Action,
}

/// What a [`Command`] stands for.
#[verifier::ext_equal]
pub struct CommandView {
    pub revision: u64,
    pub expires_ms: u64,
    pub action: ActionView,
}

impl DeepView for Command {
    type V = CommandView;

    open spec fn deep_view(&self) -> CommandView {
        CommandView {
            revision: self.revision,
            expires_ms: self.expires_ms,
            action: self.action.deep_view(),
        }
    }
}

impl View for Command {
    type V = CommandView;

    open spec fn view(&self) -> CommandView {
        self.deep_view()
    }
}

impl Duplicate for Command {
    fn duplicate(&self) -> (r: Self) {
        Command {
            revision: self.revision,
            expires_ms: self.expires_ms,
            action: self.action.duplicate(),
        }
    }
}

impl Clone for Command {
    fn clone(&self) -> (r: Self)
        ensures
            r@ == self@,
    {
        self.duplicate()
    }
}


/// A command as JSON, with the key that signed it.
#[derive(Debug, PartialEq, Eq)]
pub struct SignedCommand {
    pub payload: Vec<u8>,
    pub public_key: Vec<u8>,
    pub signature: Vec<u8>,
}

/// What a [`SignedCommand`] stands for.
#[verifier::ext_equal]
pub struct SignedCommandView {
    pub payload: Seq<u8>,
    pub public_key: Seq<u8>,
    pub signature: Seq<u8>,
}

impl DeepView for SignedCommand {
    type V = SignedCommandView;

    open spec fn deep_view(&self) -> SignedCommandView {
        SignedCommandView {
            payload: self.payload@,
            public_key: self.public_key@,
            signature: self.signature@,
        }
    }
}

impl View for SignedCommand {
    type V = SignedCommandView;

    open spec fn view(&self) -> SignedCommandView {
        self.deep_view()
    }
}

impl Duplicate for SignedCommand {
    fn duplicate(&self) -> (r: Self) {
        SignedCommand {
            payload: copy_bytes(&self.payload),
            public_key: copy_bytes(&self.public_key),
            signature: copy_bytes(&self.signature),
        }
    }
}

impl Clone for SignedCommand {
    fn clone(&self) -> (r: Self)
        ensures
            r@ == self@,
    {
        self.duplicate()
    }
}


/// One line of the journal.
#[derive(Debug, PartialEq, Eq)]
pub struct Entry {
    pub version: u8,
    pub previous: String,
    pub command: SignedCommand,
    pub time_ms: u64,
    pub state_hash: String,
}

/// What a [`Entry`] stands for.
#[verifier::ext_equal]
pub struct EntryView {
    pub version: u8,
    pub previous: Text,
    pub command: SignedCommandView,
    pub time_ms: u64,
    pub state_hash: Text,
}

impl DeepView for Entry {
    type V = EntryView;

    open spec fn deep_view(&self) -> EntryView {
        EntryView {
            version: self.version,
            previous: self.previous@,
            command: self.command.deep_view(),
            time_ms: self.time_ms,
            state_hash: self.state_hash@,
        }
    }
}

impl View for Entry {
    type V = EntryView;

    open spec fn view(&self) -> EntryView {
        self.deep_view()
    }
}

impl Duplicate for Entry {
    fn duplicate(&self) -> (r: Self) {
        Entry {
            version: self.version,
            previous: self.previous.clone(),
            command: self.command.duplicate(),
            time_ms: self.time_ms,
            state_hash: self.state_hash.clone(),
        }
    }
}

impl Clone for Entry {
    fn clone(&self) -> (r: Self)
        ensures
            r@ == self@,
    {
        self.duplicate()
    }
}


/// What a peer asks for.
#[derive(Debug, PartialEq, Eq)]
pub enum Request {
    Snapshot,
    Execute { command: SignedCommand },
}

/// What a [`Request`] stands for.
pub enum RequestView {
    Snapshot,
    Execute { command: SignedCommandView },
}

impl Request {
    /// What the value stands for.
    pub open spec fn model(&self) -> RequestView
        decreases self,
    {
        match self {
            Request::Snapshot => RequestView::Snapshot,
            Request::Execute { command } => RequestView::Execute { command: command.deep_view() },
        }
    }
}

impl DeepView for Request {
    type V = RequestView;

    open spec fn deep_view(&self) -> RequestView {
        self.model()
    }
}

impl View for Request {
    type V = RequestView;

    open spec fn view(&self) -> RequestView {
        self.model()
    }
}

impl Request {
    fn copy(&self) -> (r: Self)
        ensures
            r@ == self@,
        decreases self,
    {
        match self {
            Request::Snapshot => Request::Snapshot,
            Request::Execute { command } => Request::Execute { command: command.duplicate() },
        }
    }
}

impl Duplicate for Request {
    fn duplicate(&self) -> (r: Self) {
        self.copy()
    }
}

impl Clone for Request {
    fn clone(&self) -> (r: Self)
        ensures
            r@ == self@,
    {
        self.duplicate()
    }
}


/// What a peer is answered.
#[derive(Debug, PartialEq, Eq)]
pub struct Response {
    pub state: Option<State>,
    pub error: Option<String>,
}

/// What a [`Response`] stands for.
#[verifier::ext_equal]
pub struct ResponseView {
    pub state: Option<StateView>,
    pub error: Option<Text>,
}

impl DeepView for Response {
    type V = ResponseView;

    open spec fn deep_view(&self) -> ResponseView {
        ResponseView {
            state: self.state.deep_view(),
            error: self.error.deep_view(),
        }
    }
}

impl View for Response {
    type V = ResponseView;

    open spec fn view(&self) -> ResponseView {
        self.deep_view()
    }
}

impl Duplicate for Response {
    fn duplicate(&self) -> (r: Self) {
        Response {
            state: self.state.duplicate(),
            error: self.error.duplicate(),
        }
    }
}

impl Clone for Response {
    fn clone(&self) -> (r: Self)
        ensures
            r@ == self@,
    {
        self.duplicate()
    }
}


/// What commands are signed for: the text `jlucraft/governance/1` and a zero byte.
pub open spec fn command_domain() -> Seq<u8> {
    seq![106u8, 108, 117, 99, 114, 97, 102, 116, 47, 103, 111, 118, 101, 114, 110, 97, 110, 99, 101, 47, 49, 0]
}

fn command_bytes() -> (r: [u8; 22])
    ensures
        r@ == command_domain(),
{
    let r: [u8; 22] = [106, 108, 117, 99, 114, 97, 102, 116, 47, 103, 111, 118, 101, 114, 110, 97, 110, 99, 101, 47, 49, 0];
    assert(r@ =~= command_domain());
    r
}

impl Command {
    /// A command that is good for the next thirty seconds.
    pub fn new(revision: u64, now: u64, action: Action) -> (r: Self)
        ensures
            r@ == (CommandView {
                revision,
                expires_ms: rules::saturated(now + 30_000),
                action: action@,
            }),
            r@.revision == revision,
            r@.action == action@,
            now <= r@.expires_ms <= now + 30_000,
            now + 30_000 <= u64::MAX ==> r@.expires_ms - now == 30_000,
    {
        Command { revision, expires_ms: now.saturating_add(30_000), action }
    }
}

/// A command, given as JSON, as the identity signs it.
pub open spec fn signed_command(secret: Seq<u8>, payload: Seq<u8>) -> SignedCommandView {
    SignedCommandView {
        payload,
        public_key: outside::public_key(secret),
        signature: outside::signature(secret, command_domain() + payload),
    }
}

/// Who signed the command: the text of the signer's name as a peer.
pub open spec fn command_signer(c: SignedCommandView) -> Outcome<Text> {
    if c.payload.len() > MAX_FRAME {
        Err(ErrorView::Capacity)
    } else if outside::peer_of_key(c.public_key) is None || !outside::is_signature(
        c.public_key,
        command_domain() + c.payload,
        c.signature,
    ) {
        Err(ErrorView::Denied)
    } else {
        Ok(outside::text_of_peer(outside::peer_of_key(c.public_key)->0)->0)
    }
}

/// Who signed the command, and what the command is. `decoded` is what the payload holds as
/// JSON, or why it holds no command.
pub open spec fn opened(
    c: SignedCommandView,
    decoded: std::result::Result<CommandView, Text>,
) -> Outcome<(Text, CommandView)> {
    match command_signer(c) {
        Err(e) => Err(e),
        Ok(signer) => match decoded {
            Err(why) => Err(ErrorView::Protocol(why)),
            Ok(command) => Ok((signer, command)),
        },
    }
}

/// What a decoded payload stands for.
pub open spec fn decoding(
    d: std::result::Result<Command, String>,
) -> std::result::Result<CommandView, Text> {
    match d {
        Ok(command) => Ok(command@),
        Err(why) => Err(why@),
    }
}

impl SignedCommand {
    /// Signs a command, which is given as JSON.
    pub fn sign(identity: &Identity, payload: Vec<u8>) -> (r: Result<Self>)
        ensures
            r is Ok,
            r->Ok_0@ == signed_command(identity@, payload@),
            payload@.len() <= MAX_FRAME ==> command_signer(r->Ok_0@) == Outcome::<Text>::Ok(
                outside::text_of_peer(identity::peer_of_secret(identity@))->0,
            ),
    {
        let domain = command_bytes();
        let message: Vec<u8> = joined(domain.as_slice(), payload.as_slice());
        let signature = match identity.sign(message.as_slice()) {
            Ok(signature) => signature,
            Err(e) => {
                return Err(Error::Protocol(e));
            },
        };
        Ok(SignedCommand { payload, public_key: identity.public_key(), signature })
    }

    /// Who signed the command.
    pub fn signer(&self) -> (r: Result<String>)
        ensures
            error::outcome(r) == command_signer(self@),
    {
        if self.payload.len() > MAX_FRAME {
            return Err(Error::Capacity);
        }
        let peer = match PeerId::of_key(self.public_key.as_slice()) {
            Some(peer) => peer,
            None => {
                return Err(Error::Denied);
            },
        };
        let domain = command_bytes();
        let message: Vec<u8> = joined(domain.as_slice(), self.payload.as_slice());
        if !outside::verify(
            self.public_key.as_slice(),
            message.as_slice(),
            self.signature.as_slice(),
        ) {
            return Err(Error::Denied);
        }
        Ok(peer.text())
    }

    /// Who signed the command, and what the command is. `decoded` is what the payload holds as
    /// JSON.
    pub fn verify(&self, decoded: std::result::Result<Command, String>) -> (r: Result<
        (String, Command),
    >)
        ensures
            match opened(self@, decoding(decoded)) {
                Ok(pair) => r is Ok && (r->Ok_0).0@ == pair.0 && (r->Ok_0).1@ == pair.1,
                Err(e) => r is Err && r->Err_0@ == e,
            },
    {
        let signer = match self.signer() {
            Ok(signer) => signer,
            Err(e) => {
                return Err(e);
            },
        };
        match decoded {
            Ok(command) => Ok((signer, command)),
            Err(why) => Err(Error::Protocol(why)),
        }
    }
}

/// The state that a signed command leads to at the given time.
pub open spec fn commanded(
    s: StateView,
    command: SignedCommandView,
    decoded: std::result::Result<CommandView, Text>,
    now: u64,
) -> Outcome<StateView> {
    match opened(command, decoded) {
        Err(e) => Err(e),
        Ok(pair) => if pair.1.expires_ms < now {
            Err(ErrorView::Denied)
        } else {
            rules::apply(s, pair.0, pair.1.revision, now, pair.1.action)
        },
    }
}

/// The state that a signed command leads to at the given time.
pub fn carry_out(
    state: &State,
    command: &SignedCommand,
    decoded: std::result::Result<Command, String>,
    now: u64,
) -> (r: Result<State>)
    requires
        rules::well_formed(state@),
    ensures
        error::outcome(r) == commanded(state@, command@, decoding(decoded), now),
        r matches Ok(next) ==> rules::well_formed(next@),
{
    let (actor, body) = match command.verify(decoded) {
        Ok(pair) => pair,
        Err(e) => {
            return Err(e);
        },
    };
    if body.expires_ms < now {
        return Err(Error::Denied);
    }
    let mut next: State = state.duplicate();
    match next.apply(actor.as_str(), body.revision, now, body.action) {
        Ok(_) => Ok(next),
        Err(e) => Err(e),
    }
}

/// The commands so far and where they have led.
pub struct Journal {
    entries: Vec<Entry>,
    state: State,
    head: String,
}

/// What a [`Journal`] stands for: its entries, the state that they lead to, and the digest that
/// the next entry names.
#[verifier::ext_equal]
pub struct JournalView {
    pub entries: Seq<EntryView>,
    pub state: StateView,
    pub head: Text,
}

impl View for Journal {
    type V = JournalView;

    closed spec fn view(&self) -> JournalView {
        JournalView {
            entries: self.entries.deep_view(),
            state: self.state@,
            head: self.head@,
        }
    }
}

/// The journal that nothing was written to yet.
pub open spec fn blank_journal(genesis: StateView, json: Seq<u8>) -> JournalView {
    JournalView { entries: Seq::empty(), state: genesis, head: rules::digest(json) }
}

/// The state that an entry leads to, as the journal is read again.
pub open spec fn replayed(
    j: JournalView,
    e: EntryView,
    decoded: std::result::Result<CommandView, Text>,
) -> Outcome<StateView> {
    if e.previous != j.head {
        Err(ErrorView::Protocol("journal chain mismatch"@))
    } else {
        match commanded(j.state, e.command, decoded, e.time_ms) {
            Err(error) => Err(error),
            Ok(next) => if e.version != 1 {
                Err(ErrorView::Protocol("unsupported journal version"@))
            } else {
                Ok(next)
            },
        }
    }
}

/// The journal with one more entry, which leads to the given state.
pub open spec fn grown(j: JournalView, e: EntryView, next: StateView, entry_json: Seq<u8>) -> JournalView {
    JournalView { entries: j.entries.push(e), state: next, head: rules::digest(entry_json) }
}

/// The journal with one more entry that was read. The entry must tell the digest of the state.
pub open spec fn recorded(
    j: JournalView,
    e: EntryView,
    next: StateView,
    state_json: Seq<u8>,
    entry_json: Seq<u8>,
) -> Outcome<JournalView> {
    if rules::digest(state_json) != e.state_hash {
        Err(ErrorView::Protocol("journal state mismatch"@))
    } else {
        Ok(grown(j, e, next, entry_json))
    }
}

/// The entry for a command that leads to the given state.
pub open spec fn sealed(
    j: JournalView,
    command: SignedCommandView,
    now: u64,
    state_json: Seq<u8>,
) -> Outcome<EntryView> {
    if state_json.len() > MAX_STATE {
        Err(ErrorView::Capacity)
    } else {
        Ok(
            EntryView {
                version: 1,
                previous: j.head,
                command,
                time_ms: now,
                state_hash: rules::digest(state_json),
            },
        )
    }
}

impl Journal {
    #[verifier::type_invariant]
    closed spec fn state_well_formed(&self) -> bool {
        rules::well_formed(self.state@)
    }

    /// The journal that nothing was written to yet. `json` is the first state as JSON.
    pub fn open(genesis: State, json: &[u8]) -> (r: Self)
        requires
            rules::well_formed(genesis@),
        ensures
            r@ == blank_journal(genesis@, json@),
    {
        let r = Journal { entries: Vec::new(), state: genesis, head: digest(json) };
        assert(r@ =~= blank_journal(genesis@, json@));
        r
    }

    /// The state that an entry leads to which is read from the file. `decoded` is what the
    /// payload of its command holds.
    pub fn replay(
        &self,
        entry: &Entry,
        decoded: std::result::Result<Command, String>,
    ) -> (r: Result<State>)
        ensures
            error::outcome(r) == replayed(self@, entry@, decoding(decoded)),
            r matches Ok(next) ==> rules::well_formed(next@),
    {
        proof {
            use_type_invariant(self);
        }
        if !same_text(entry.previous.as_str(), self.head.as_str()) {
            return Err(invalid("journal chain mismatch"));
        }
        let next = match carry_out(&self.state, &entry.command, decoded, entry.time_ms) {
            Ok(next) => next,
            Err(e) => {
                return Err(e);
            },
        };
        if entry.version != 1 {
            return Err(invalid("unsupported journal version"));
        }
        Ok(next)
    }

    /// Takes an entry that was read from the file, with the state that it leads to.
    /// `state_json` and `entry_json` are the state and the entry as JSON.
    pub fn record(
        &mut self,
        entry: Entry,
        next: State,
        state_json: &[u8],
        entry_json: &[u8],
    ) -> (r: Result<()>)
        requires
            rules::well_formed(next@),
        ensures
            error::agrees(
                r,
                final(self)@,
                recorded(old(self)@, entry@, next@, state_json@, entry_json@),
            ),
            r is Err ==> *final(self) == *old(self),
    {
        let hash = digest(state_json);
        if !same_text(hash.as_str(), entry.state_hash.as_str()) {
            return Err(invalid("journal state mismatch"));
        }
        self.commit(entry, next, entry_json);
        Ok(())
    }

    /// The state that the entries lead to.
    pub fn state(&self) -> (r: &State)
        ensures
            r@ == self@.state,
            rules::well_formed(r@),
    {
        proof {
            use_type_invariant(self);
        }
        &self.state
    }

    /// All entries, in order.
    pub fn entries(&self) -> (r: &Vec<Entry>)
        ensures
            r.deep_view() == self@.entries,
    {
        &self.entries
    }

    /// The state that a new command leads to.
    pub fn prepare(
        &self,
        command: &SignedCommand,
        decoded: std::result::Result<Command, String>,
        now: u64,
    ) -> (r: Result<State>)
        ensures
            error::outcome(r) == commanded(self@.state, command@, decoding(decoded), now),
            r matches Ok(next) ==> rules::well_formed(next@),
    {
        proof {
            use_type_invariant(self);
        }
        carry_out(&self.state, command, decoded, now)
    }

    /// The entry for a new command. `state_json` is the state that it leads to, as JSON; one
    /// that clients could not retrieve is never committed.
    pub fn seal(&self, command: SignedCommand, now: u64, state_json: &[u8]) -> (r: Result<Entry>)
        ensures
            error::outcome(r) == sealed(self@, command@, now, state_json@),
    {
        if state_json.len() > MAX_STATE {
            return Err(Error::Capacity);
        }
        Ok(
            Entry {
                version: 1,
                previous: self.head.clone(),
                command,
                time_ms: now,
                state_hash: digest(state_json),
            },
        )
    }

    /// Takes a new entry once it is written, with the state that it leads to.
    pub fn commit(&mut self, entry: Entry, next: State, entry_json: &[u8])
        requires
            rules::well_formed(next@),
        ensures
            final(self)@ == grown(old(self)@, entry@, next@, entry_json@),
    {
        proof {
            use_type_invariant(&*self);
        }
        let mut entries: Vec<Entry> = Vec::new();
        std::mem::swap(&mut entries, &mut self.entries);
        let ghost before = entries;
        entries.push(entry);
        self.entries = entries;
        self.state = next;
        self.head = digest(entry_json);
        assert(self.entries.deep_view() =~= before.deep_view().push(entry@));
    }

    /// Notice of the state. `json` is the state as JSON.
    pub fn event(&self, json: &[u8], resync: bool) -> (r: Event)
        ensures
            r@ == (EventView {
                revision: self@.state.revision,
                state_hash: rules::digest(json@),
                resync,
            }),
    {
        Event { revision: self.state.revision, state_hash: digest(json), resync }
    }

    /// What a peer is answered that asks for the state.
    pub fn answer_snapshot(&self, actor: &str) -> (r: Response)
        ensures
            r@ == (if rules::can_read(self@.state, actor@) {
                answered(Ok(self@.state))
            } else {
                answered(Err(ErrorView::Denied))
            }),
    {
        if self.state.can_read(actor) {
            answer(Ok(self.state.duplicate()))
        } else {
            answer(Err(Error::Denied))
        }
    }
}

/// Refuses a journal file that is too long.
pub fn check_size(len: u64) -> (r: Result<()>)
    ensures
        len <= MAX_JOURNAL ==> r is Ok,
        len > MAX_JOURNAL ==> r is Err && r->Err_0@ == ErrorView::Capacity,
{
    if len > MAX_JOURNAL {
        Err(Error::Capacity)
    } else {
        Ok(())
    }
}

/// The answer to a request that led to a state or to an error.
pub open spec fn answered(r: Outcome<StateView>) -> ResponseView {
    match r {
        Ok(s) => ResponseView { state: Some(s), error: None },
        Err(e) => ResponseView { state: None, error: Some(error::error_text(e)) },
    }
}

/// The answer to a request that led to a state or to an error.
pub fn answer(result: Result<State>) -> (r: Response)
    ensures
        r@ == answered(error::outcome(result)),
{
    match result {
        Ok(state) => Response { state: Some(state), error: None },
        Err(e) => Response { state: None, error: Some(e.message()) },
    }
}

/// The command may come from that peer: the peer has signed it, and it holds a command.
pub open spec fn comes_from(c: SignedCommandView, decodes: bool, actor: Text) -> bool {
    command_signer(c) == Outcome::<Text>::Ok(actor) && decodes
}

/// Refuses a command that another peer has signed, or that is none. `decodes` tells whether the
/// payload holds a command.
pub fn authorize(command: &SignedCommand, decodes: bool, actor: &str) -> (r: Result<()>)
    ensures
        r is Ok <==> comes_from(command@, decodes, actor@),
        r matches Err(e) ==> e@ == ErrorView::Denied,
{
    match command.signer() {
        Ok(signer) => if decodes && same_text(signer.as_str(), actor) {
            Ok(())
        } else {
            Err(Error::Denied)
        },
        Err(_) => Err(Error::Denied),
    }
}

/// The JSON of a request, which must be one frame.
pub fn request_body(frame: JsonFrame) -> (r: Result<Vec<u8>>)
    ensures
        match r {
            Ok(json) => frame.sequence == 0 && frame.last && json@ == frame@.json,
            Err(e) => !(frame.sequence == 0 && frame.last) && e@ == error::invalid_view(
                "request must be one frame"@,
            ),
        },
{
    if frame.sequence != 0 || !frame.last {
        return Err(invalid("request must be one frame"));
    }
    Ok(frame.json)
}

/// The frames of an answer, which is given as JSON.
pub fn reply_frames(json: &[u8]) -> (r: Result<Vec<JsonFrame>>)
    ensures
        match chunks::parts(json@, MAX_SNAPSHOT as nat, CHUNK_SIZE as nat) {
            Ok(frames) => r is Ok && r->Ok_0.deep_view() == frames,
            Err(e) => r is Err && r->Err_0@ == e,
        },
{
    chunks::split(json, MAX_SNAPSHOT, CHUNK_SIZE)
}

/// How many frames an answer may take.
pub const MAX_CHUNKS: u32 = 129;

/// What a frame of an answer does to what has come of it: whether the answer is complete, and
/// what has come then.
pub open spec fn received(a: AssemblyView, frame: JsonFrameView) -> Outcome<(bool, AssemblyView)> {
    if !chunks::continues(a, frame, MAX_SNAPSHOT as nat) {
        Err(ErrorView::Protocol("invalid snapshot chunks"@))
    } else if !frame.last && a.count + 1 >= MAX_CHUNKS {
        Err(ErrorView::Capacity)
    } else {
        Ok((frame.last, chunks::extended(a, frame)))
    }
}

/// Takes the next frame of an answer; whether the answer is complete.
pub fn receive(assembly: &mut Assembly, frame: &JsonFrame) -> (r: Result<bool>)
    ensures
        !chunks::continues(old(assembly)@, frame@, MAX_SNAPSHOT as nat) ==> final(assembly)@ == old(
            assembly,
        )@,
        match received(old(assembly)@, frame@) {
            Ok(pair) => r is Ok && r->Ok_0 == pair.0 && final(assembly)@ == pair.1,
            Err(e) => r is Err && r->Err_0@ == e,
        },
{
    match assembly.accept(frame, MAX_SNAPSHOT) {
        None => Err(invalid("invalid snapshot chunks")),
        Some(last) => {
            if !last && assembly.count() >= MAX_CHUNKS {
                return Err(Error::Capacity);
            }
            Ok(last)
        },
    }
}

/// The time, in milliseconds, that a clock tells.
pub open spec fn millis_of(ms: u128) -> Outcome<u64> {
    if ms <= u64::MAX {
        Ok(ms as u64)
    } else {
        Err(ErrorView::Protocol("out of range integral type conversion attempted"@))
    }
}

/// The time, in milliseconds, that a clock tells.
pub fn millis(ms: u128) -> (r: Result<u64>)
    ensures
        error::outcome(r) == millis_of(ms),
{
    if ms > 0xffff_ffff_ffff_ffff {
        return Err(invalid("out of range integral type conversion attempted"));
    }
    Ok(ms as u64)
}

/// The time, in milliseconds, that is read off a clock that may stand before 1970. The error is
/// given as it is shown to a reader.
pub fn millis_told(clock: std::result::Result<u128, String>) -> (r: Result<u64>)
    ensures
        match clock {
            Ok(ms) => error::outcome(r) == millis_of(ms),
            Err(shown) => r is Err && r->Err_0@ == ErrorView::Protocol(shown@),
        },
{
    match clock {
        Ok(ms) => millis(ms),
        Err(shown) => Err(Error::Protocol(shown)),
    }
}

/// The time now, in milliseconds since 1970. Nothing is said of what the time is.
pub fn now_ms() -> (r: Result<u64>)
    ensures
        r matches Err(e) ==> e is Protocol,
{
    match outside::clock_millis() {
        Ok(ms) => millis_told(Ok(ms)),
        Err((shown, _)) => millis_told(Err(shown)),
    }
}

/// One entry of a journal file with what reading it takes: the command in its payload, the state
/// that it leads to as JSON, and the entry itself as JSON.
pub struct Line {
    pub entry: EntryView,
    pub decoded: std::result::Result<CommandView, Text>,
    pub state_json: Seq<u8>,
    pub entry_json: Seq<u8>,
}

/// What reading one more line does to a journal.
pub open spec fn read_line(j: JournalView, line: Line) -> Outcome<JournalView> {
    match replayed(j, line.entry, line.decoded) {
        Err(e) => Err(e),
        Ok(next) => recorded(j, line.entry, next, line.state_json, line.entry_json),
    }
}

/// The journal that reading the first `n` lines of a file gives.
pub open spec fn read(start: JournalView, lines: Seq<Line>, n: nat) -> Outcome<JournalView>
    decreases n,
{
    if n == 0 {
        Ok(start)
    } else {
        match read(start, lines, (n - 1) as nat) {
            Err(e) => Err(e),
            Ok(j) => read_line(j, lines[n - 1]),
        }
    }
}

/// What was executed is read again: a file to which the entry of an executed command is added
/// gives the journal as the command has left it.
pub proof fn law_executed_commands_are_read_back(
    start: JournalView,
    lines: Seq<Line>,
    j: JournalView,
    command: SignedCommandView,
    now: u64,
    entry: EntryView,
    line: Line,
)
    requires
        read(start, lines, lines.len()) == Outcome::<JournalView>::Ok(j),
        commanded(j.state, command, line.decoded, now) is Ok,
        sealed(j, command, now, line.state_json) == Outcome::<EntryView>::Ok(entry),
        line.entry == entry,
    ensures
        read(start, lines.push(line), lines.len() + 1) == Outcome::<JournalView>::Ok(
            grown(
                j,
                entry,
                commanded(j.state, command, line.decoded, now)->Ok_0,
                line.entry_json,
            ),
        ),
{
    lemma_read_prefix(start, lines, line, lines.len());
    assert(lines.push(line)[lines.len() as int] == line);
}

proof fn lemma_read_prefix(start: JournalView, lines: Seq<Line>, line: Line, n: nat)
    requires
        n <= lines.len(),
    ensures
        read(start, lines.push(line), n) == read(start, lines, n),
    decreases n,
{
    if n > 0 {
        lemma_read_prefix(start, lines, line, (n - 1) as nat);
        assert(lines.push(line)[n - 1] == lines[n - 1]);
    }
}

/// What a line of an accepted journal asks of the federation.
pub open spec fn submission(line: Line) -> Submission {
    let pair = opened(line.entry.command, line.decoded)->Ok_0;
    Submission {
        actor: pair.0,
        revision: pair.1.revision,
        now: line.entry.time_ms,
        action: pair.1.action,
    }
}

/// The digest that the line with the given number has to name: that of the line before it, or
/// that of the first state.
pub open spec fn digest_before(json: Seq<u8>, lines: Seq<Line>, i: int) -> Text {
    rules::digest(
        if i == 0 {
            json
        } else {
            lines[i - 1].entry_json
        },
    )
}

/// The line names the line before it and the state that it leads to; its command is signed and
/// was not out of date.
pub open spec fn chained(json: Seq<u8>, lines: Seq<Line>, i: int) -> bool {
    let line = lines[i];
    &&& line.entry.version == 1
    &&& line.entry.previous == digest_before(json, lines, i)
    &&& line.entry.state_hash == rules::digest(line.state_json)
    &&& opened(line.entry.command, line.decoded) is Ok
    &&& (opened(line.entry.command, line.decoded)->Ok_0).1.expires_ms >= line.entry.time_ms
}

/// What an accepted line does.
proof fn lemma_line(j: JournalView, line: Line)
    requires
        read_line(j, line) is Ok,
    ensures
        ({
            let next = read_line(j, line)->Ok_0;
            let c = submission(line);
            &&& rules::apply(j.state, c.actor, c.revision, c.now, c.action) == Outcome::<
                StateView,
            >::Ok(next.state)
            &&& next.head == rules::digest(line.entry_json)
            &&& next.entries == j.entries.push(line.entry)
            &&& line.entry.version == 1
            &&& line.entry.previous == j.head
            &&& line.entry.state_hash == rules::digest(line.state_json)
            &&& opened(line.entry.command, line.decoded) is Ok
            &&& (opened(line.entry.command, line.decoded)->Ok_0).1.expires_ms
                >= line.entry.time_ms
        }),
{
}

/// A journal that is accepted is a chain: each line names the digest of the line before it, or
/// that of the first state, and the digest of the state it leads to; its command was signed
/// and was not out of date. The state of the journal is what the commands lead to.
pub proof fn law_accepted_journals_are_histories(
    genesis: StateView,
    json: Seq<u8>,
    lines: Seq<Line>,
    n: nat,
)
    requires
        n <= lines.len(),
        read(blank_journal(genesis, json), lines, n) is Ok,
    ensures
        ({
            let j = read(blank_journal(genesis, json), lines, n)->Ok_0;
            let commands = lines.map_values(|line: Line| submission(line));
            &&& j.state == histories::after(genesis, commands, n)
            &&& j.head == digest_before(json, lines, n as int)
            &&& j.entries == Seq::new(n, |i: int| lines[i].entry)
            &&& forall|i: int| 0 <= i < n ==> #[trigger] chained(json, lines, i)
        }),
    decreases n,
{
    let start = blank_journal(genesis, json);
    let commands = lines.map_values(|line: Line| submission(line));
    let j = read(start, lines, n)->Ok_0;
    if n == 0 {
        assert(j.entries =~= Seq::new(n, |i: int| lines[i].entry));
    } else {
        let m = (n - 1) as nat;
        law_accepted_journals_are_histories(genesis, json, lines, m);
        let before = read(start, lines, m)->Ok_0;
        lemma_line(before, lines[n - 1]);
        assert(commands[n - 1] == submission(lines[n - 1]));
        assert(j.entries =~= Seq::new(n, |i: int| lines[i].entry));
        assert(chained(json, lines, n - 1));
    }
}

/// The line was written for a command that was executed on the journal.
pub open spec fn written(j: JournalView, line: Line) -> bool {
    &&& commanded(j.state, line.entry.command, line.decoded, line.entry.time_ms) is Ok
    &&& sealed(j, line.entry.command, line.entry.time_ms, line.state_json) == Outcome::<
        EntryView,
    >::Ok(line.entry)
}

/// The journal after the first `n` lines were written, each for a command that was executed;
/// `None` where one was not.
pub open spec fn executed(start: JournalView, lines: Seq<Line>, n: nat) -> Option<JournalView>
    decreases n,
{
    if n == 0 {
        Some(start)
    } else {
        let line = lines[n - 1];
        match executed(start, lines, (n - 1) as nat) {
            Some(j) => if written(j, line) {
                let next = commanded(
                    j.state,
                    line.entry.command,
                    line.decoded,
                    line.entry.time_ms,
                );
                Some(grown(j, line.entry, next->Ok_0, line.entry_json))
            } else {
                None
            },
            None => None,
        }
    }
}

/// A journal is opened as it was left: whatever commands were executed, reading the file again
/// gives the same journal, and so the same state.
pub proof fn law_journals_are_opened_as_they_were_left(
    start: JournalView,
    lines: Seq<Line>,
    n: nat,
)
    requires
        executed(start, lines, n) is Some,
    ensures
        read(start, lines, n) == Outcome::<JournalView>::Ok(executed(start, lines, n)->0),
    decreases n,
{
    if n > 0 {
        law_journals_are_opened_as_they_were_left(start, lines, (n - 1) as nat);
    }
}

/// Where lines are accepted, so are the first ones of them.
proof fn lemma_read_earlier(start: JournalView, lines: Seq<Line>, m: nat, n: nat)
    requires
        m <= n,
        read(start, lines, n) is Ok,
    ensures
        read(start, lines, m) is Ok,
    decreases n,
{
    if m < n {
        lemma_read_earlier(start, lines, m, (n - 1) as nat);
    }
}

/// The same lines are read alike.
proof fn lemma_read_alike(start: JournalView, a: Seq<Line>, b: Seq<Line>, n: nat)
    requires
        forall|k: int| 0 <= k < n ==> #[trigger] b[k] == a[k],
    ensures
        read(start, a, n) == read(start, b, n),
    decreases n,
{
    if n > 0 {
        lemma_read_alike(start, a, b, (n - 1) as nat);
        assert(b[n - 1] == a[n - 1]);
    }
}

/// A journal that was altered is refused: where a line of an accepted file has another version,
/// names another line before it, or another state than before or than the one it leads to, the
/// file is not accepted. Neither is it where the line carries a command that is not signed by its
/// key, is none, is out of date or is refused; nor where the line has another digest than before
/// and the line after it still names the old one.
pub proof fn law_altered_journals_are_refused(
    genesis: StateView,
    json: Seq<u8>,
    lines: Seq<Line>,
    altered: Seq<Line>,
    i: int,
    n: nat,
)
    requires
        0 <= i < n <= altered.len(),
        i < lines.len(),
        read(blank_journal(genesis, json), lines, lines.len()) is Ok,
        forall|k: int| 0 <= k < i ==> #[trigger] altered[k] == lines[k],
        ({
            let entry = altered[i].entry;
            let commands = lines.map_values(|line: Line| submission(line));
            ||| entry.version != 1
            ||| entry.previous != lines[i].entry.previous
            ||| entry.state_hash != lines[i].entry.state_hash && altered[i].state_json
                == lines[i].state_json
            ||| entry.state_hash != rules::digest(altered[i].state_json)
            ||| command_signer(entry.command) is Err
            ||| commanded(
                histories::after(genesis, commands, i as nat),
                entry.command,
                altered[i].decoded,
                entry.time_ms,
            ) is Err
            ||| i + 1 < n && i + 1 < lines.len() && altered[i + 1].entry.previous == lines[i
                + 1].entry.previous && rules::digest(altered[i].entry_json) != rules::digest(
                lines[i].entry_json,
            )
        }),
    ensures
        read(blank_journal(genesis, json), altered, n) is Err,
{
    let start = blank_journal(genesis, json);
    if read(start, altered, n) is Ok {
        law_accepted_journals_are_histories(genesis, json, lines, lines.len());
        law_accepted_journals_are_histories(genesis, json, altered, n);
        assert(chained(json, lines, i));
        assert(chained(json, altered, i));
        if i > 0 {
            assert(altered[i - 1] == lines[i - 1]);
        }
        if i + 1 < n && i + 1 < lines.len() {
            assert(chained(json, lines, i + 1));
            assert(chained(json, altered, i + 1));
        }
        let m = i as nat;
        lemma_read_earlier(start, lines, m, lines.len());
        lemma_read_earlier(start, altered, m, n);
        lemma_read_earlier(start, altered, m + 1, n);
        lemma_read_alike(start, lines, altered, m);
        law_accepted_journals_are_histories(genesis, json, lines, m);
    }
}

/// A state that was committed can be retrieved: an answer that takes up to 1024 bytes more than
/// the state alone is sent in full.
pub proof fn law_committed_states_can_be_retrieved(
    j: JournalView,
    command: SignedCommandView,
    now: u64,
    state_json: Seq<u8>,
    answer: Seq<u8>,
)
    requires
        sealed(j, command, now, state_json) is Ok,
        answer.len() <= state_json.len() + 1024,
    ensures
        chunks::parts(answer, MAX_SNAPSHOT as nat, CHUNK_SIZE as nat) is Ok,
{
}

/// An answer that fits is read back by the peer that asked for it.
pub proof fn law_answers_are_read_back(json: Seq<u8>, n: nat)
    requires
        0 < json.len() <= MAX_SNAPSHOT,
        n < chunks::part_count(json.len(), CHUNK_SIZE as nat),
    ensures
        ({
            let frames = chunks::parts(json, MAX_SNAPSHOT as nat, CHUNK_SIZE as nat)->Ok_0;
            let a = chunks::assembled(frames, n);
            let whole = chunks::assembled(frames, (n + 1) as nat);
            &&& received(a, frames[n as int]) == Outcome::<(bool, AssemblyView)>::Ok(
                (n + 1 == frames.len(), whole),
            )
            &&& n + 1 == frames.len() ==> whole.bytes == json
        }),
{
    let size = CHUNK_SIZE as nat;
    chunks::law_parts_make_the_whole(json, MAX_SNAPSHOT as nat, size, n);
    chunks::law_parts_make_the_whole(json, MAX_SNAPSHOT as nat, size, n + 1);
    assert(chunks::part_count(json.len(), size) <= 129) by {
        assert(json.len() + size - 1 <= 8_454_079);
    }
}

} // verus!
