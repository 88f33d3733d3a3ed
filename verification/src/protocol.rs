//! The messages that nodes exchange, and how they are framed.
use vstd::prelude::*;
use vstd::string::*;
use vstd::utf8::*;

use crate::error;
use crate::error::{invalid, ErrorView, Outcome, Result};
use crate::model::views::Text;
use crate::order::{copy_bytes, Duplicate};
use crate::wire;
use crate::wire::{Fault, FaultView, Item, ItemView, Kind, Message};

verus! {

/// The name of the protocol that lists services.
pub const DIRECTORY_PROTOCOL: &'static str = "/jlucraft/union/directory/1";

/// The name of the protocol that opens sessions.
pub const SESSION_PROTOCOL: &'static str = "/jlucraft/union/session/1";

/// The size of the largest message, in bytes.
pub const MAX_FRAME: usize = 65_536;

/// The number of services that a node may offer.
pub const MAX_SERVICES: usize = 64;

/// A flag as a number.
pub open spec fn flag(b: bool) -> u64 {
    if b {
        1
    } else {
        0
    }
}

/// A request for the directory of a node.
#[derive(Debug, PartialEq, Eq)]
pub struct DirectoryRequest {
}

/// What a [`DirectoryRequest`] stands for.
#[verifier::ext_equal]
pub struct DirectoryRequestView {
}

impl DeepView for DirectoryRequest {
    type V = DirectoryRequestView;

    open spec fn deep_view(&self) -> DirectoryRequestView {
        DirectoryRequestView {
        }
    }
}

impl View for DirectoryRequest {
    type V = DirectoryRequestView;

    open spec fn view(&self) -> DirectoryRequestView {
        self.deep_view()
    }
}

impl Duplicate for DirectoryRequest {
    fn duplicate(&self) -> (r: Self) {
        DirectoryRequest {
        }
    }
}

impl Clone for DirectoryRequest {
    fn clone(&self) -> (r: Self)
        ensures
            r@ == self@,
    {
        self.duplicate()
    }
}

impl Message for DirectoryRequest {
    open spec fn title() -> Text {
        "DirectoryRequest"@
    }

    open spec fn label(tag: u32) -> Text {
        ""@
    }

    open spec fn kind(tag: u32) -> Option<Kind> {
        None
    }

    open spec fn initial() -> DirectoryRequestView {
        DirectoryRequestView {}
    }

    open spec fn put(m: DirectoryRequestView, tag: u32, item: ItemView) -> DirectoryRequestView {
        m
    }

    open spec fn embed(m: DirectoryRequestView, tag: u32, b: Seq<u8>, len: nat) -> std::result::Result<
        DirectoryRequestView,
        FaultView,
    > {
        Ok(m)
    }

    open spec fn wire(m: DirectoryRequestView) -> Seq<u8> {
        Seq::empty()
    }

    fn title_text() -> (r: &'static str) {
        "DirectoryRequest"
    }

    fn label_text(tag: u32) -> (r: &'static str) {
        ""
    }

    fn field_kind(tag: u32) -> (r: Option<Kind>) {
        None
    }

    fn empty() -> (r: Self) {
        let r = DirectoryRequest {};
        assert(r@ =~= Self::initial());
        r
    }

    fn set(&mut self, tag: u32, item: Item) {
    }

    fn take_in(&mut self, tag: u32, bytes: &[u8], len: usize) -> (r: std::result::Result<
        (),
        Fault,
    >) {
        Ok(())
    }

    fn write(&self, out: &mut Vec<u8>) {
        let ghost before = out@;
        assert(out@ =~= before + Self::wire(self@));
    }
}
/// A service as it is listed.
#[derive(Debug, PartialEq, Eq)]
pub struct ServiceRecord {
    pub id: String,
    pub name: String,
    pub protocol: String,
}

/// What a [`ServiceRecord`] stands for.
#[verifier::ext_equal]
pub struct ServiceRecordView {
    pub id: Text,
    pub name: Text,
    pub protocol: Text,
}

impl DeepView for ServiceRecord {
    type V = ServiceRecordView;

    open spec fn deep_view(&self) -> ServiceRecordView {
        ServiceRecordView {
            id: self.id@,
            name: self.name@,
            protocol: self.protocol@,
        }
    }
}

impl View for ServiceRecord {
    type V = ServiceRecordView;

    open spec fn view(&self) -> ServiceRecordView {
        self.deep_view()
    }
}

impl Duplicate for ServiceRecord {
    fn duplicate(&self) -> (r: Self) {
        ServiceRecord {
            id: self.id.clone(),
            name: self.name.clone(),
            protocol: self.protocol.clone(),
        }
    }
}

impl Clone for ServiceRecord {
    fn clone(&self) -> (r: Self)
        ensures
            r@ == self@,
    {
        self.duplicate()
    }
}

impl Message for ServiceRecord {
    open spec fn title() -> Text {
        "ServiceRecord"@
    }

    open spec fn label(tag: u32) -> Text {
        if tag == 1 {
            "id"@
        } else if tag == 2 {
            "name"@
        } else if tag == 3 {
            "protocol"@
        } else {
            ""@
        }
    }

    open spec fn kind(tag: u32) -> Option<Kind> {
        if tag == 1 || tag == 2 || tag == 3 {
            Some(Kind::Text)
        } else {
            None
        }
    }

    open spec fn initial() -> ServiceRecordView {
        ServiceRecordView { id: Seq::empty(), name: Seq::empty(), protocol: Seq::empty() }
    }

    open spec fn put(m: ServiceRecordView, tag: u32, item: ItemView) -> ServiceRecordView {
        match (item, tag) {
            (ItemView::Text(t), 1) => ServiceRecordView { id: t, ..m },
            (ItemView::Text(t), 2) => ServiceRecordView { name: t, ..m },
            (ItemView::Text(t), 3) => ServiceRecordView { protocol: t, ..m },
            _ => m,
        }
    }

    open spec fn embed(m: ServiceRecordView, tag: u32, b: Seq<u8>, len: nat) -> std::result::Result<
        ServiceRecordView,
        FaultView,
    > {
        Ok(m)
    }

    open spec fn wire(m: ServiceRecordView) -> Seq<u8> {
        wire::filled_field(1, encode_utf8(m.id)) + wire::filled_field(2, encode_utf8(m.name)) + wire::filled_field(3, encode_utf8(m.protocol))
    }

    fn title_text() -> (r: &'static str) {
        "ServiceRecord"
    }

    fn label_text(tag: u32) -> (r: &'static str) {
        if tag == 1 {
            "id"
        } else if tag == 2 {
            "name"
        } else if tag == 3 {
            "protocol"
        } else {
            ""
        }
    }

    fn field_kind(tag: u32) -> (r: Option<Kind>) {
        if tag == 1 || tag == 2 || tag == 3 {
            Some(Kind::Text)
        } else {
            None
        }
    }

    fn empty() -> (r: Self) {
        let r = ServiceRecord { id: String::new(), name: String::new(), protocol: String::new() };
        assert(r@ =~= Self::initial());
        r
    }

    fn set(&mut self, tag: u32, item: Item) {
        match (item, tag) {
            (Item::Text(t), 1) => {
                self.id = t;
            },
            (Item::Text(t), 2) => {
                self.name = t;
            },
            (Item::Text(t), 3) => {
                self.protocol = t;
            },
            _ => {},
        }
    }

    fn take_in(&mut self, tag: u32, bytes: &[u8], len: usize) -> (r: std::result::Result<
        (),
        Fault,
    >) {
        Ok(())
    }

    fn write(&self, out: &mut Vec<u8>) {
        let ghost before = out@;
        wire::write_filled(1, self.id.as_str().as_bytes(), out);
        wire::write_filled(2, self.name.as_str().as_bytes(), out);
        wire::write_filled(3, self.protocol.as_str().as_bytes(), out);
        assert(out@ =~= before + Self::wire(self@));
    }
}
/// What a grant says.
#[derive(Debug, PartialEq, Eq)]
pub struct GrantClaims {
    pub id: String,
    pub subject: Vec<u8>,
    pub audience: Vec<u8>,
    pub service_id: String,
    pub not_before: u64,
    pub expires_at: u64,
}

/// What a [`GrantClaims`] stands for.
#[verifier::ext_equal]
pub struct GrantClaimsView {
    pub id: Text,
    pub subject: Seq<u8>,
    pub audience: Seq<u8>,
    pub service_id: Text,
    pub not_before: u64,
    pub expires_at: u64,
}

impl DeepView for GrantClaims {
    type V = GrantClaimsView;

    open spec fn deep_view(&self) -> GrantClaimsView {
        GrantClaimsView {
            id: self.id@,
            subject: self.subject@,
            audience: self.audience@,
            service_id: self.service_id@,
            not_before: self.not_before,
            expires_at: self.expires_at,
        }
    }
}

impl View for GrantClaims {
    type V = GrantClaimsView;

    open spec fn view(&self) -> GrantClaimsView {
        self.deep_view()
    }
}

impl Duplicate for GrantClaims {
    fn duplicate(&self) -> (r: Self) {
        GrantClaims {
            id: self.id.clone(),
            subject: copy_bytes(&self.subject),
            audience: copy_bytes(&self.audience),
            service_id: self.service_id.clone(),
            not_before: self.not_before,
            expires_at: self.expires_at,
        }
    }
}

impl Clone for GrantClaims {
    fn clone(&self) -> (r: Self)
        ensures
            r@ == self@,
    {
        self.duplicate()
    }
}

impl Message for GrantClaims {
    open spec fn title() -> Text {
        "GrantClaims"@
    }

    open spec fn label(tag: u32) -> Text {
        if tag == 1 {
            "id"@
        } else if tag == 2 {
            "subject"@
        } else if tag == 3 {
            "audience"@
        } else if tag == 4 {
            "service_id"@
        } else if tag == 5 {
            "not_before"@
        } else if tag == 6 {
            "expires_at"@
        } else {
            ""@
        }
    }

    open spec fn kind(tag: u32) -> Option<Kind> {
        if tag == 1 || tag == 4 {
            Some(Kind::Text)
        } else if tag == 2 || tag == 3 {
            Some(Kind::Bytes)
        } else if tag == 5 || tag == 6 {
            Some(Kind::Number)
        } else {
            None
        }
    }

    open spec fn initial() -> GrantClaimsView {
        GrantClaimsView { id: Seq::empty(), subject: Seq::empty(), audience: Seq::empty(), service_id: Seq::empty(), not_before: 0, expires_at: 0 }
    }

    open spec fn put(m: GrantClaimsView, tag: u32, item: ItemView) -> GrantClaimsView {
        match (item, tag) {
            (ItemView::Text(t), 1) => GrantClaimsView { id: t, ..m },
            (ItemView::Bytes(b), 2) => GrantClaimsView { subject: b, ..m },
            (ItemView::Bytes(b), 3) => GrantClaimsView { audience: b, ..m },
            (ItemView::Text(t), 4) => GrantClaimsView { service_id: t, ..m },
            (ItemView::Number(n), 5) => GrantClaimsView { not_before: n, ..m },
            (ItemView::Number(n), 6) => GrantClaimsView { expires_at: n, ..m },
            _ => m,
        }
    }

    open spec fn embed(m: GrantClaimsView, tag: u32, b: Seq<u8>, len: nat) -> std::result::Result<
        GrantClaimsView,
        FaultView,
    > {
        Ok(m)
    }

    open spec fn wire(m: GrantClaimsView) -> Seq<u8> {
        wire::filled_field(1, encode_utf8(m.id)) + wire::filled_field(2, m.subject) + wire::filled_field(3, m.audience) + wire::filled_field(4, encode_utf8(m.service_id)) + wire::number_field(5, m.not_before) + wire::number_field(6, m.expires_at)
    }

    fn title_text() -> (r: &'static str) {
        "GrantClaims"
    }

    fn label_text(tag: u32) -> (r: &'static str) {
        if tag == 1 {
            "id"
        } else if tag == 2 {
            "subject"
        } else if tag == 3 {
            "audience"
        } else if tag == 4 {
            "service_id"
        } else if tag == 5 {
            "not_before"
        } else if tag == 6 {
            "expires_at"
        } else {
            ""
        }
    }

    fn field_kind(tag: u32) -> (r: Option<Kind>) {
        if tag == 1 || tag == 4 {
            Some(Kind::Text)
        } else if tag == 2 || tag == 3 {
            Some(Kind::Bytes)
        } else if tag == 5 || tag == 6 {
            Some(Kind::Number)
        } else {
            None
        }
    }

    fn empty() -> (r: Self) {
        let r = GrantClaims { id: String::new(), subject: Vec::new(), audience: Vec::new(), service_id: String::new(), not_before: 0, expires_at: 0 };
        assert(r@ =~= Self::initial());
        r
    }

    fn set(&mut self, tag: u32, item: Item) {
        match (item, tag) {
            (Item::Text(t), 1) => {
                self.id = t;
            },
            (Item::Bytes(b), 2) => {
                self.subject = b;
            },
            (Item::Bytes(b), 3) => {
                self.audience = b;
            },
            (Item::Text(t), 4) => {
                self.service_id = t;
            },
            (Item::Number(n), 5) => {
                self.not_before = n;
            },
            (Item::Number(n), 6) => {
                self.expires_at = n;
            },
            _ => {},
        }
    }

    fn take_in(&mut self, tag: u32, bytes: &[u8], len: usize) -> (r: std::result::Result<
        (),
        Fault,
    >) {
        Ok(())
    }

    fn write(&self, out: &mut Vec<u8>) {
        let ghost before = out@;
        wire::write_filled(1, self.id.as_str().as_bytes(), out);
        wire::write_filled(2, self.subject.as_slice(), out);
        wire::write_filled(3, self.audience.as_slice(), out);
        wire::write_filled(4, self.service_id.as_str().as_bytes(), out);
        wire::write_number(5, self.not_before, out);
        wire::write_number(6, self.expires_at, out);
        assert(out@ =~= before + Self::wire(self@));
    }
}
/// A signed grant.
#[derive(Debug, PartialEq, Eq)]
pub struct GrantEnvelope {
    pub claims: Vec<u8>,
    pub issuer_key: Vec<u8>,
    pub signature: Vec<u8>,
}

/// What a [`GrantEnvelope`] stands for.
#[verifier::ext_equal]
pub struct GrantEnvelopeView {
    pub claims: Seq<u8>,
    pub issuer_key: Seq<u8>,
    pub signature: Seq<u8>,
}

impl DeepView for GrantEnvelope {
    type V = GrantEnvelopeView;

    open spec fn deep_view(&self) -> GrantEnvelopeView {
        GrantEnvelopeView {
            claims: self.claims@,
            issuer_key: self.issuer_key@,
            signature: self.signature@,
        }
    }
}

impl View for GrantEnvelope {
    type V = GrantEnvelopeView;

    open spec fn view(&self) -> GrantEnvelopeView {
        self.deep_view()
    }
}

impl Duplicate for GrantEnvelope {
    fn duplicate(&self) -> (r: Self) {
        GrantEnvelope {
            claims: copy_bytes(&self.claims),
            issuer_key: copy_bytes(&self.issuer_key),
            signature: copy_bytes(&self.signature),
        }
    }
}

impl Clone for GrantEnvelope {
    fn clone(&self) -> (r: Self)
        ensures
            r@ == self@,
    {
        self.duplicate()
    }
}

impl Message for GrantEnvelope {
    open spec fn title() -> Text {
        "GrantEnvelope"@
    }

    open spec fn label(tag: u32) -> Text {
        if tag == 1 {
            "claims"@
        } else if tag == 2 {
            "issuer_key"@
        } else if tag == 3 {
            "signature"@
        } else {
            ""@
        }
    }

    open spec fn kind(tag: u32) -> Option<Kind> {
        if tag == 1 || tag == 2 || tag == 3 {
            Some(Kind::Bytes)
        } else {
            None
        }
    }

    open spec fn initial() -> GrantEnvelopeView {
        GrantEnvelopeView { claims: Seq::empty(), issuer_key: Seq::empty(), signature: Seq::empty() }
    }

    open spec fn put(m: GrantEnvelopeView, tag: u32, item: ItemView) -> GrantEnvelopeView {
        match (item, tag) {
            (ItemView::Bytes(b), 1) => GrantEnvelopeView { claims: b, ..m },
            (ItemView::Bytes(b), 2) => GrantEnvelopeView { issuer_key: b, ..m },
            (ItemView::Bytes(b), 3) => GrantEnvelopeView { signature: b, ..m },
            _ => m,
        }
    }

    open spec fn embed(m: GrantEnvelopeView, tag: u32, b: Seq<u8>, len: nat) -> std::result::Result<
        GrantEnvelopeView,
        FaultView,
    > {
        Ok(m)
    }

    open spec fn wire(m: GrantEnvelopeView) -> Seq<u8> {
        wire::filled_field(1, m.claims) + wire::filled_field(2, m.issuer_key) + wire::filled_field(3, m.signature)
    }

    fn title_text() -> (r: &'static str) {
        "GrantEnvelope"
    }

    fn label_text(tag: u32) -> (r: &'static str) {
        if tag == 1 {
            "claims"
        } else if tag == 2 {
            "issuer_key"
        } else if tag == 3 {
            "signature"
        } else {
            ""
        }
    }

    fn field_kind(tag: u32) -> (r: Option<Kind>) {
        if tag == 1 || tag == 2 || tag == 3 {
            Some(Kind::Bytes)
        } else {
            None
        }
    }

    fn empty() -> (r: Self) {
        let r = GrantEnvelope { claims: Vec::new(), issuer_key: Vec::new(), signature: Vec::new() };
        assert(r@ =~= Self::initial());
        r
    }

    fn set(&mut self, tag: u32, item: Item) {
        match (item, tag) {
            (Item::Bytes(b), 1) => {
                self.claims = b;
            },
            (Item::Bytes(b), 2) => {
                self.issuer_key = b;
            },
            (Item::Bytes(b), 3) => {
                self.signature = b;
            },
            _ => {},
        }
    }

    fn take_in(&mut self, tag: u32, bytes: &[u8], len: usize) -> (r: std::result::Result<
        (),
        Fault,
    >) {
        Ok(())
    }

    fn write(&self, out: &mut Vec<u8>) {
        let ghost before = out@;
        wire::write_filled(1, self.claims.as_slice(), out);
        wire::write_filled(2, self.issuer_key.as_slice(), out);
        wire::write_filled(3, self.signature.as_slice(), out);
        assert(out@ =~= before + Self::wire(self@));
    }
}
/// The answer to a request for a session.
#[derive(Debug, PartialEq, Eq)]
pub struct OpenResponse {
    pub status: i32,
}

/// What a [`OpenResponse`] stands for.
#[verifier::ext_equal]
pub struct OpenResponseView {
    pub status: i32,
}

impl DeepView for OpenResponse {
    type V = OpenResponseView;

    open spec fn deep_view(&self) -> OpenResponseView {
        OpenResponseView {
            status: self.status,
        }
    }
}

impl View for OpenResponse {
    type V = OpenResponseView;

    open spec fn view(&self) -> OpenResponseView {
        self.deep_view()
    }
}

impl Duplicate for OpenResponse {
    fn duplicate(&self) -> (r: Self) {
        OpenResponse {
            status: self.status,
        }
    }
}

impl Clone for OpenResponse {
    fn clone(&self) -> (r: Self)
        ensures
            r@ == self@,
    {
        self.duplicate()
    }
}

impl Message for OpenResponse {
    open spec fn title() -> Text {
        "OpenResponse"@
    }

    open spec fn label(tag: u32) -> Text {
        if tag == 1 {
            "status"@
        } else {
            ""@
        }
    }

    open spec fn kind(tag: u32) -> Option<Kind> {
        if tag == 1 {
            Some(Kind::Number)
        } else {
            None
        }
    }

    open spec fn initial() -> OpenResponseView {
        OpenResponseView { status: 0 }
    }

    open spec fn put(m: OpenResponseView, tag: u32, item: ItemView) -> OpenResponseView {
        match (item, tag) {
            (ItemView::Number(n), 1) => OpenResponseView { status: n as i32, ..m },
            _ => m,
        }
    }

    open spec fn embed(m: OpenResponseView, tag: u32, b: Seq<u8>, len: nat) -> std::result::Result<
        OpenResponseView,
        FaultView,
    > {
        Ok(m)
    }

    open spec fn wire(m: OpenResponseView) -> Seq<u8> {
        wire::number_field(1, m.status as u64)
    }

    fn title_text() -> (r: &'static str) {
        "OpenResponse"
    }

    fn label_text(tag: u32) -> (r: &'static str) {
        if tag == 1 {
            "status"
        } else {
            ""
        }
    }

    fn field_kind(tag: u32) -> (r: Option<Kind>) {
        if tag == 1 {
            Some(Kind::Number)
        } else {
            None
        }
    }

    fn empty() -> (r: Self) {
        let r = OpenResponse { status: 0 };
        assert(r@ =~= Self::initial());
        r
    }

    fn set(&mut self, tag: u32, item: Item) {
        match (item, tag) {
            (Item::Number(n), 1) => {
                self.status = n as i32;
            },
            _ => {},
        }
    }

    fn take_in(&mut self, tag: u32, bytes: &[u8], len: usize) -> (r: std::result::Result<
        (),
        Fault,
    >) {
        Ok(())
    }

    fn write(&self, out: &mut Vec<u8>) {
        let ghost before = out@;
        wire::write_number(1, self.status as u64, out);
        assert(out@ =~= before + Self::wire(self@));
    }
}
/// A part of a JSON text.
#[derive(Debug, PartialEq, Eq)]
pub struct JsonFrame {
    pub json: Vec<u8>,
    pub sequence: u32,
    pub last: bool,
}

/// What a [`JsonFrame`] stands for.
#[verifier::ext_equal]
pub struct JsonFrameView {
    pub json: Seq<u8>,
    pub sequence: u32,
    pub last: bool,
}

impl DeepView for JsonFrame {
    type V = JsonFrameView;

    open spec fn deep_view(&self) -> JsonFrameView {
        JsonFrameView {
            json: self.json@,
            sequence: self.sequence,
            last: self.last,
        }
    }
}

impl View for JsonFrame {
    type V = JsonFrameView;

    open spec fn view(&self) -> JsonFrameView {
        self.deep_view()
    }
}

impl Duplicate for JsonFrame {
    fn duplicate(&self) -> (r: Self) {
        JsonFrame {
            json: copy_bytes(&self.json),
            sequence: self.sequence,
            last: self.last,
        }
    }
}

impl Clone for JsonFrame {
    fn clone(&self) -> (r: Self)
        ensures
            r@ == self@,
    {
        self.duplicate()
    }
}

impl Message for JsonFrame {
    open spec fn title() -> Text {
        "JsonFrame"@
    }

    open spec fn label(tag: u32) -> Text {
        if tag == 1 {
            "json"@
        } else if tag == 2 {
            "sequence"@
        } else if tag == 3 {
            "last"@
        } else {
            ""@
        }
    }

    open spec fn kind(tag: u32) -> Option<Kind> {
        if tag == 1 {
            Some(Kind::Bytes)
        } else if tag == 2 || tag == 3 {
            Some(Kind::Number)
        } else {
            None
        }
    }

    open spec fn initial() -> JsonFrameView {
        JsonFrameView { json: Seq::empty(), sequence: 0, last: false }
    }

    open spec fn put(m: JsonFrameView, tag: u32, item: ItemView) -> JsonFrameView {
        match (item, tag) {
            (ItemView::Bytes(b), 1) => JsonFrameView { json: b, ..m },
            (ItemView::Number(n), 2) => JsonFrameView { sequence: n as u32, ..m },
            (ItemView::Number(n), 3) => JsonFrameView { last: n != 0, ..m },
            _ => m,
        }
    }

    open spec fn embed(m: JsonFrameView, tag: u32, b: Seq<u8>, len: nat) -> std::result::Result<
        JsonFrameView,
        FaultView,
    > {
        Ok(m)
    }

    open spec fn wire(m: JsonFrameView) -> Seq<u8> {
        wire::filled_field(1, m.json) + wire::number_field(2, m.sequence as u64) + wire::number_field(3, flag(m.last))
    }

    fn title_text() -> (r: &'static str) {
        "JsonFrame"
    }

    fn label_text(tag: u32) -> (r: &'static str) {
        if tag == 1 {
            "json"
        } else if tag == 2 {
            "sequence"
        } else if tag == 3 {
            "last"
        } else {
            ""
        }
    }

    fn field_kind(tag: u32) -> (r: Option<Kind>) {
        if tag == 1 {
            Some(Kind::Bytes)
        } else if tag == 2 || tag == 3 {
            Some(Kind::Number)
        } else {
            None
        }
    }

    fn empty() -> (r: Self) {
        let r = JsonFrame { json: Vec::new(), sequence: 0, last: false };
        assert(r@ =~= Self::initial());
        r
    }

    fn set(&mut self, tag: u32, item: Item) {
        match (item, tag) {
            (Item::Bytes(b), 1) => {
                self.json = b;
            },
            (Item::Number(n), 2) => {
                self.sequence = n as u32;
            },
            (Item::Number(n), 3) => {
                self.last = n != 0;
            },
            _ => {},
        }
    }

    fn take_in(&mut self, tag: u32, bytes: &[u8], len: usize) -> (r: std::result::Result<
        (),
        Fault,
    >) {
        Ok(())
    }

    fn write(&self, out: &mut Vec<u8>) {
        let ghost before = out@;
        wire::write_filled(1, self.json.as_slice(), out);
        wire::write_number(2, self.sequence as u64, out);
        wire::write_number(3, if self.last { 1 } else { 0 }, out);
        assert(out@ =~= before + Self::wire(self@));
    }
}

/// The services that a node offers.
#[derive(Debug, PartialEq, Eq)]
pub struct DirectoryResponse {
    pub services: Vec<ServiceRecord>,
}

/// What a [`DirectoryResponse`] stands for.
#[verifier::ext_equal]
pub struct DirectoryResponseView {
    pub services: Seq<ServiceRecordView>,
}

impl DeepView for DirectoryResponse {
    type V = DirectoryResponseView;

    open spec fn deep_view(&self) -> DirectoryResponseView {
        DirectoryResponseView { services: self.services.deep_view() }
    }
}

impl View for DirectoryResponse {
    type V = DirectoryResponseView;

    open spec fn view(&self) -> DirectoryResponseView {
        self.deep_view()
    }
}

/// The records, one field each.
pub open spec fn records_wire(services: Seq<ServiceRecordView>) -> Seq<u8>
    decreases services.len(),
{
    if services.len() == 0 {
        Seq::empty()
    } else {
        records_wire(services.drop_last()) + wire::bytes_field(
            1,
            ServiceRecord::wire(services.last()),
        )
    }
}

impl Message for DirectoryResponse {
    open spec fn title() -> Text {
        "DirectoryResponse"@
    }

    open spec fn label(tag: u32) -> Text {
        if tag == 1 {
            "services"@
        } else {
            ""@
        }
    }

    open spec fn kind(tag: u32) -> Option<Kind> {
        if tag == 1 {
            Some(Kind::Message)
        } else {
            None
        }
    }

    open spec fn initial() -> DirectoryResponseView {
        DirectoryResponseView { services: Seq::empty() }
    }

    open spec fn put(m: DirectoryResponseView, tag: u32, item: ItemView) -> DirectoryResponseView {
        m
    }

    open spec fn embed(m: DirectoryResponseView, tag: u32, b: Seq<u8>, len: nat) -> std::result::Result<
        DirectoryResponseView,
        FaultView,
    > {
        match wire::merged::<ServiceRecord>(ServiceRecord::initial(), b, len as int, true) {
            Ok(record) => Ok(DirectoryResponseView { services: m.services.push(record) }),
            Err(fault) => Err(fault),
        }
    }

    open spec fn wire(m: DirectoryResponseView) -> Seq<u8> {
        records_wire(m.services)
    }

    fn title_text() -> (r: &'static str) {
        "DirectoryResponse"
    }

    fn label_text(tag: u32) -> (r: &'static str) {
        if tag == 1 {
            "services"
        } else {
            ""
        }
    }

    fn field_kind(tag: u32) -> (r: Option<Kind>) {
        if tag == 1 {
            Some(Kind::Message)
        } else {
            None
        }
    }

    fn empty() -> (r: Self) {
        let r = DirectoryResponse { services: Vec::new() };
        assert(r@ =~= Self::initial());
        r
    }

    fn set(&mut self, tag: u32, item: Item) {
    }

    fn take_in(&mut self, tag: u32, bytes: &[u8], len: usize) -> (r: std::result::Result<
        (),
        Fault,
    >) {
        let mut record = ServiceRecord::empty();
        match wire::merge(&mut record, bytes, len, true) {
            Ok(_) => {
                let ghost before = self.services.deep_view();
                self.services.push(record);
                assert(self.services.deep_view() =~= before.push(record@));
                Ok(())
            },
            Err(fault) => Err(fault),
        }
    }

    fn write(&self, out: &mut Vec<u8>) {
        let ghost before = out@;
        let ghost view = self.services.deep_view();
        let mut i: usize = 0;
        assert(out@ =~= before + records_wire(view.take(0)));
        while i < self.services.len()
            invariant
                i <= self.services.len(),
                view == self.services.deep_view(),
                out@ == before + records_wire(view.take(i as int)),
            decreases self.services.len() - i,
        {
            let record: Vec<u8> = wire::encode(&self.services[i]);
            wire::write_bytes(1, record.as_slice(), out);
            proof {
                assert(view[i as int] == self.services@[i as int].deep_view());
                assert(view.take(i + 1).drop_last() =~= view.take(i as int));
                assert(view.take(i + 1).last() == view[i as int]);
                assert(out@ =~= before + records_wire(view.take(i + 1)));
            }
            i = i + 1;
        }
        assert(view.take(i as int) =~= view);
    }
}

/// A request for a session with a service.
#[derive(Debug, PartialEq, Eq)]
pub struct OpenRequest {
    pub service_id: String,
    pub grant: Option<GrantEnvelope>,
    pub student: Vec<u8>,
}

/// What an [`OpenRequest`] stands for.
#[verifier::ext_equal]
pub struct OpenRequestView {
    pub service_id: Text,
    pub grant: Option<GrantEnvelopeView>,
    pub student: Seq<u8>,
}

impl DeepView for OpenRequest {
    type V = OpenRequestView;

    open spec fn deep_view(&self) -> OpenRequestView {
        OpenRequestView {
            service_id: self.service_id@,
            grant: self.grant.deep_view(),
            student: self.student@,
        }
    }
}

impl View for OpenRequest {
    type V = OpenRequestView;

    open spec fn view(&self) -> OpenRequestView {
        self.deep_view()
    }
}

/// A message field that is left out where there is no message.
pub open spec fn grant_field(grant: Option<GrantEnvelopeView>) -> Seq<u8> {
    match grant {
        Some(envelope) => wire::bytes_field(2, GrantEnvelope::wire(envelope)),
        None => Seq::empty(),
    }
}

impl Message for OpenRequest {
    open spec fn title() -> Text {
        "OpenRequest"@
    }

    open spec fn label(tag: u32) -> Text {
        if tag == 1 {
            "service_id"@
        } else if tag == 2 {
            "grant"@
        } else if tag == 3 {
            "student"@
        } else {
            ""@
        }
    }

    open spec fn kind(tag: u32) -> Option<Kind> {
        if tag == 1 {
            Some(Kind::Text)
        } else if tag == 2 {
            Some(Kind::Message)
        } else if tag == 3 {
            Some(Kind::Bytes)
        } else {
            None
        }
    }

    open spec fn initial() -> OpenRequestView {
        OpenRequestView { service_id: Seq::empty(), grant: None, student: Seq::empty() }
    }

    open spec fn put(m: OpenRequestView, tag: u32, item: ItemView) -> OpenRequestView {
        match (item, tag) {
            (ItemView::Text(t), 1) => OpenRequestView { service_id: t, ..m },
            (ItemView::Bytes(b), 3) => OpenRequestView { student: b, ..m },
            _ => m,
        }
    }

    open spec fn embed(m: OpenRequestView, tag: u32, b: Seq<u8>, len: nat) -> std::result::Result<
        OpenRequestView,
        FaultView,
    > {
        // A message that comes in several parts is put together.
        let before = match m.grant {
            Some(envelope) => envelope,
            None => GrantEnvelope::initial(),
        };
        match wire::merged::<GrantEnvelope>(before, b, len as int, true) {
            Ok(envelope) => Ok(OpenRequestView { grant: Some(envelope), ..m }),
            Err(fault) => Err(fault),
        }
    }

    open spec fn wire(m: OpenRequestView) -> Seq<u8> {
        wire::filled_field(1, encode_utf8(m.service_id)) + grant_field(m.grant)
            + wire::filled_field(3, m.student)
    }

    fn title_text() -> (r: &'static str) {
        "OpenRequest"
    }

    fn label_text(tag: u32) -> (r: &'static str) {
        if tag == 1 {
            "service_id"
        } else if tag == 2 {
            "grant"
        } else if tag == 3 {
            "student"
        } else {
            ""
        }
    }

    fn field_kind(tag: u32) -> (r: Option<Kind>) {
        if tag == 1 {
            Some(Kind::Text)
        } else if tag == 2 {
            Some(Kind::Message)
        } else if tag == 3 {
            Some(Kind::Bytes)
        } else {
            None
        }
    }

    fn empty() -> (r: Self) {
        let r = OpenRequest { service_id: String::new(), grant: None, student: Vec::new() };
        assert(r@ =~= Self::initial());
        r
    }

    fn set(&mut self, tag: u32, item: Item) {
        match (item, tag) {
            (Item::Text(t), 1) => {
                self.service_id = t;
            },
            (Item::Bytes(b), 3) => {
                self.student = b;
            },
            _ => {},
        }
    }

    fn take_in(&mut self, tag: u32, bytes: &[u8], len: usize) -> (r: std::result::Result<
        (),
        Fault,
    >) {
        let mut envelope = match self.grant.take() {
            Some(envelope) => envelope,
            None => GrantEnvelope::empty(),
        };
        match wire::merge(&mut envelope, bytes, len, true) {
            Ok(_) => {
                self.grant = Some(envelope);
                Ok(())
            },
            Err(fault) => Err(fault),
        }
    }

    fn write(&self, out: &mut Vec<u8>) {
        let ghost before = out@;
        wire::write_filled(1, self.service_id.as_str().as_bytes(), out);
        match &self.grant {
            Some(envelope) => {
                let bytes: Vec<u8> = wire::encode(envelope);
                wire::write_bytes(2, bytes.as_slice(), out);
            },
            None => {},
        }
        wire::write_filled(3, self.student.as_slice(), out);
        assert(out@ =~= before + Self::wire(self@));
    }
}

/// The answers to a request for a session.
#[derive(Clone, Copy, Debug, PartialEq, Eq, Structural)]
pub enum Status {
    Unspecified,
    Accepted,
    Denied,
    NotFound,
    Busy,
}

impl Status {
    /// The number of the status in messages.
    pub open spec fn number(self) -> i32 {
        match self {
            Status::Unspecified => 0,
            Status::Accepted => 1,
            Status::Denied => 2,
            Status::NotFound => 3,
            Status::Busy => 4,
        }
    }

    /// The number of the status in messages.
    pub fn to_number(self) -> (r: i32)
        ensures
            r == self.number(),
    {
        match self {
            Status::Unspecified => 0,
            Status::Accepted => 1,
            Status::Denied => 2,
            Status::NotFound => 3,
            Status::Busy => 4,
        }
    }

    /// The status with the given number, if there is one.
    pub fn from_number(n: i32) -> (r: Option<Status>)
        ensures
            match r {
                Some(status) => status.number() == n,
                None => n < 0 || n > 4,
            },
    {
        if n == 0 {
            Some(Status::Unspecified)
        } else if n == 1 {
            Some(Status::Accepted)
        } else if n == 2 {
            Some(Status::Denied)
        } else if n == 3 {
            Some(Status::NotFound)
        } else if n == 4 {
            Some(Status::Busy)
        } else {
            None
        }
    }
}

/// Four bytes, the most significant one first.
pub open spec fn be32(n: nat) -> Seq<u8> {
    seq![
        (n / 16777216 % 256) as u8,
        (n / 65536 % 256) as u8,
        (n / 256 % 256) as u8,
        (n % 256) as u8,
    ]
}

/// The number in four bytes, the most significant one first.
pub open spec fn be32_value(b: Seq<u8>) -> nat {
    (b[0] as nat) * 16777216 + (b[1] as nat) * 65536 + (b[2] as nat) * 256 + (b[3] as nat)
}

/// A message with its size in front; `None` where the message is too large.
pub open spec fn framed(body: Seq<u8>) -> Outcome<Seq<u8>> {
    if body.len() > MAX_FRAME {
        Err(ErrorView::Protocol("frame too large"@))
    } else {
        Ok(be32(body.len()) + body)
    }
}

/// The bytes to send for a message: its size, then its encoding.
pub fn encode_frame<M: Message>(message: &M) -> (r: Result<Vec<u8>>)
    ensures
        match framed(M::wire(message.deep_view())) {
            Ok(bytes) => r is Ok && r->Ok_0@ == bytes,
            Err(e) => r is Err && r->Err_0@ == e,
        },
{
    let body: Vec<u8> = wire::encode(message);
    if body.len() > MAX_FRAME {
        return Err(invalid("frame too large"));
    }
    let n: usize = body.len();
    let mut out: Vec<u8> = Vec::new();
    out.push((n / 16777216 % 256) as u8);
    out.push((n / 65536 % 256) as u8);
    out.push((n / 256 % 256) as u8);
    out.push((n % 256) as u8);
    out.extend_from_slice(body.as_slice());
    assert(out@ =~= be32(n as nat) + body@);
    Ok(out)
}

/// How many bytes follow a header of four bytes; an error where that is too much.
pub fn frame_size(header: [u8; 4]) -> (r: Result<usize>)
    ensures
        be32_value(header@) <= MAX_FRAME ==> r is Ok && r->Ok_0 == be32_value(header@),
        be32_value(header@) > MAX_FRAME ==> r is Err && r->Err_0@ == ErrorView::Protocol(
            "frame too large"@,
        ),
{
    let n: u64 = header[0] as u64 * 16777216 + header[1] as u64 * 65536 + header[2] as u64 * 256
        + header[3] as u64;
    if n > 65_536 {
        return Err(invalid("frame too large"));
    }
    Ok(n as usize)
}

/// What is read next of a frame.
#[derive(Clone, Copy, Debug, PartialEq, Eq, Structural)]
pub enum Expected {
    Size,
    Body { size: usize },
}

/// What a piece of a frame leads to: another piece, or the message.
pub enum Piece<M> {
    More(Expected),
    Whole(M),
}

/// What a [`Piece`] stands for.
pub enum PieceView<V> {
    More(Expected),
    Whole(V),
}

/// How many bytes are to be read next.
pub open spec fn wanted(e: Expected) -> nat {
    match e {
        Expected::Size => 4,
        Expected::Body { size } => size as nat,
    }
}

/// The message that the body of a frame encodes, or the error.
pub open spec fn body_of<M: Message>(b: Seq<u8>) -> Outcome<M::V> {
    match wire::decoded::<M>(b) {
        Ok(m) => Ok(m),
        Err(fault) => Err(wire::undecodable(fault)),
    }
}

/// What the piece leads to that was read.
pub open spec fn piece_of<M: Message>(e: Expected, b: Seq<u8>) -> Outcome<PieceView<M::V>> {
    match e {
        Expected::Size => if be32_value(b) > MAX_FRAME {
            Err(ErrorView::Protocol("frame too large"@))
        } else {
            Ok(PieceView::More(Expected::Body { size: be32_value(b) as usize }))
        },
        Expected::Body { size } => match body_of::<M>(b) {
            Ok(m) => Ok(PieceView::Whole(m)),
            Err(error) => Err(error),
        },
    }
}

impl Expected {
    /// How many bytes are to be read next.
    pub fn wanted(&self) -> (r: usize)
        ensures
            r == wanted(*self),
    {
        match self {
            Expected::Size => 4,
            Expected::Body { size } => *size,
        }
    }

    /// Takes the bytes that were wanted.
    pub fn accept<M: Message>(self, bytes: &[u8]) -> (r: Result<Piece<M>>)
        requires
            bytes@.len() == wanted(self),
        ensures
            match piece_of::<M>(self, bytes@) {
                Ok(PieceView::More(next)) => r is Ok && r->Ok_0 is More && (r->Ok_0)->More_0 == next,
                Ok(PieceView::Whole(m)) => r is Ok && r->Ok_0 is Whole && (
                r->Ok_0)->Whole_0.deep_view() == m,
                Err(error) => r is Err && r->Err_0@ == error,
            },
    {
        match self {
            Expected::Size => {
                let header: [u8; 4] = [bytes[0], bytes[1], bytes[2], bytes[3]];
                assert(header@ =~= bytes@);
                match frame_size(header) {
                    Ok(size) => Ok(Piece::More(Expected::Body { size })),
                    Err(e) => Err(e),
                }
            },
            Expected::Body { .. } => match wire::decode::<M>(bytes) {
                Ok(m) => Ok(Piece::Whole(m)),
                Err(e) => Err(e),
            },
        }
    }
}

/// How many bytes are read of an input, piece by piece, and what that leads to; `None` where the
/// input ends too early.
pub open spec fn driven<M: Message>(e: Expected, input: Seq<u8>) -> (nat, Option<Outcome<M::V>>)
    decreases
            (if e is Size {
                1int
            } else {
                0int
            }),
{
    let n = wanted(e);
    if input.len() < n {
        (input.len(), None)
    } else {
        match piece_of::<M>(e, input.take(n as int)) {
            Err(error) => (n, Some(Err(error))),
            Ok(PieceView::Whole(m)) => (n, Some(Ok(m))),
            Ok(PieceView::More(next)) => if e is Size {
                let (more, result) = driven::<M>(next, input.skip(n as int));
                (n + more, result)
            } else {
                (n, None)
            },
        }
    }
}

/// A frame is bounded before its message is read: one that is too large is refused with none of
/// the message read; where the input ends too early, no message comes of it; and otherwise
/// exactly the size and the message are read, and the message is what these bytes encode.
pub proof fn law_frames_are_bounded<M: Message>(input: Seq<u8>)
    ensures
        ({
            let (read, result) = driven::<M>(Expected::Size, input);
            let size = be32_value(input.take(4));
            if input.len() < 4 {
                result is None
            } else if size > MAX_FRAME {
                read == 4 && result == Some(
                    Outcome::<M::V>::Err(ErrorView::Protocol("frame too large"@)),
                )
            } else if input.len() < 4 + size {
                result is None
            } else {
                read == 4 + size && result == Some(
                    body_of::<M>(input.subrange(4, (4 + size) as int)),
                )
            }
        }),
{
    if input.len() >= 4 {
        let size = be32_value(input.take(4));
        let rest = input.skip(4);
        if size <= MAX_FRAME && input.len() >= 4 + size {
            assert(rest.take(size as int) =~= input.subrange(4, (4 + size) as int));
            reveal_with_fuel(driven, 2);
        } else if size <= MAX_FRAME {
            reveal_with_fuel(driven, 2);
        }
    }
}

/// What is written is read: of a frame and whatever follows it, exactly the frame is read, and
/// the message comes of it where its own encoding gives it back.
pub proof fn law_frames_are_read<M: Message>(m: M::V, rest: Seq<u8>)
    requires
        framed(M::wire(m)) is Ok,
        wire::decoded::<M>(M::wire(m)) == Ok::<M::V, wire::FaultView>(m),
    ensures
        driven::<M>(Expected::Size, framed(M::wire(m))->Ok_0 + rest) == (
            (4 + M::wire(m).len()) as nat,
            Some(Outcome::<M::V>::Ok(m)),
        ),
{
    let body = M::wire(m);
    let input = framed(body)->Ok_0 + rest;
    law_frames_are_read_back(body);
    law_frames_are_bounded::<M>(input);
    assert(input.take(4) =~= framed(body)->Ok_0.take(4));
    assert(input.subrange(4, (4 + body.len()) as int) =~= body);
}

/// A message without fields is the size alone.
pub proof fn law_empty_frames_are_four_zeros(m: DirectoryRequestView)
    ensures
        framed(DirectoryRequest::wire(m)) == Outcome::<Seq<u8>>::Ok(seq![0u8, 0, 0, 0]),
{
    assert(be32(0) + Seq::<u8>::empty() =~= seq![0u8, 0, 0, 0]);
}

/// The size in front of a message is read back.
proof fn lemma_be32(n: nat)
    requires
        n <= MAX_FRAME,
    ensures
        be32(n).len() == 4,
        be32_value(be32(n)) == n,
{
}

/// A frame that was written says its own size, which is within bounds, and what follows is the
/// encoding of the message.
pub proof fn law_frames_are_read_back(body: Seq<u8>)
    requires
        framed(body) is Ok,
    ensures
        framed(body)->Ok_0.len() == 4 + body.len(),
        be32_value(framed(body)->Ok_0.take(4)) == body.len(),
        body.len() <= MAX_FRAME,
        framed(body)->Ok_0.skip(4) == body,
{
    lemma_be32(body.len());
    let f = framed(body)->Ok_0;
    assert(f.take(4) =~= be32(body.len()));
    assert(f.skip(4) =~= body);
}

/// The message with the fields that a byte string begins with.
#[verifier::opaque]
spec fn reading<M: Message>(m: M::V, b: Seq<u8>, left: int, inside: bool) -> std::result::Result<
    M::V,
    FaultView,
> {
    wire::merged::<M>(m, b, left, inside)
}

/// What was read is the message, once no bytes are left.
proof fn lemma_reading<M: Message>(
    m: M::V,
    b: Seq<u8>,
    left: int,
    inside: bool,
    next: M::V,
    rest: Seq<u8>,
)
    requires
        reading::<M>(m, b, left, inside) == reading::<M>(next, rest, 0, inside),
    ensures
        wire::merged::<M>(m, b, left, inside) == Ok::<M::V, FaultView>(next),
{
    reveal(reading);
}

/// A text field that was written is read back, or was left out because it is empty.
proof fn lemma_text_field<M: Message>(
    m: M::V,
    tag: u32,
    text: Text,
    rest: Seq<u8>,
    left: int,
    inside: bool,
)
    requires
        1 <= tag <= 0xffff,
        M::kind(tag) == Some(Kind::Text),
        encode_utf8(text).len() <= u64::MAX,
        text.len() == 0 ==> M::put(m, tag, ItemView::Text(Seq::empty())) == m,
        left >= wire::filled_field(tag, encode_utf8(text)).len(),
    ensures
        ({
            let f = wire::filled_field(tag, encode_utf8(text));
            reading::<M>(m, f + rest, left, inside) == reading::<M>(
                M::put(m, tag, ItemView::Text(text)),
                rest,
                left - f.len(),
                inside,
            )
        }),
{
    reveal(reading);
    let b = encode_utf8(text);
    lemma_text(text);
    if b.len() == 0 {
        assert(text.len() == 0) by {
            encode_utf8_decode_utf8(Seq::<char>::empty());
            assert(encode_utf8(Seq::<char>::empty()) =~= b);
            assert(text =~= Seq::<char>::empty());
        }
        assert(wire::filled_field(tag, b) + rest =~= rest);
    } else {
        let next = M::put(m, tag, ItemView::Text(text));
        wire::lemma_varint_round_trip((tag * 8 + 2) as u64, Seq::empty());
        wire::lemma_merge_bytes::<M>(m, tag, b, next, rest, left, inside);
    }
}

/// A byte string field that was written is read back, or was left out because it is empty.
proof fn lemma_filled_field<M: Message>(
    m: M::V,
    tag: u32,
    b: Seq<u8>,
    rest: Seq<u8>,
    left: int,
    inside: bool,
)
    requires
        1 <= tag <= 0xffff,
        M::kind(tag) == Some(Kind::Bytes),
        b.len() <= u64::MAX,
        b.len() == 0 ==> M::put(m, tag, ItemView::Bytes(b)) == m,
        left >= wire::filled_field(tag, b).len(),
    ensures
        ({
            let f = wire::filled_field(tag, b);
            reading::<M>(m, f + rest, left, inside) == reading::<M>(
                M::put(m, tag, ItemView::Bytes(b)),
                rest,
                left - f.len(),
                inside,
            )
        }),
{
    reveal(reading);
    if b.len() == 0 {
        assert(wire::filled_field(tag, b) + rest =~= rest);
    } else {
        let next = M::put(m, tag, ItemView::Bytes(b));
        wire::lemma_varint_round_trip((tag * 8 + 2) as u64, Seq::empty());
        wire::lemma_merge_bytes::<M>(m, tag, b, next, rest, left, inside);
    }
}

/// A field that holds a message is read back, where the message is.
proof fn lemma_embedded_field<M: Message>(
    m: M::V,
    tag: u32,
    b: Seq<u8>,
    next: M::V,
    rest: Seq<u8>,
    left: int,
    inside: bool,
)
    requires
        1 <= tag <= 0xffff,
        M::kind(tag) == Some(Kind::Message),
        b.len() <= u64::MAX,
        M::embed(m, tag, b + rest, b.len()) == Ok::<M::V, FaultView>(next),
        left >= wire::bytes_field(tag, b).len(),
    ensures
        reading::<M>(m, wire::bytes_field(tag, b) + rest, left, inside) == reading::<M>(
            next,
            rest,
            left - wire::bytes_field(tag, b).len(),
            inside,
        ),
{
    reveal(reading);
    wire::lemma_varint_round_trip((tag * 8 + 2) as u64, Seq::empty());
    wire::lemma_merge_bytes::<M>(m, tag, b, next, rest, left, inside);
}

/// A number field that was written is read back, or was left out because it is zero.
proof fn lemma_number_field<M: Message>(
    m: M::V,
    tag: u32,
    n: u64,
    rest: Seq<u8>,
    left: int,
    inside: bool,
)
    requires
        1 <= tag <= 0xffff,
        M::kind(tag) == Some(Kind::Number),
        n == 0 ==> M::put(m, tag, ItemView::Number(n)) == m,
        left >= wire::number_field(tag, n).len(),
    ensures
        ({
            let f = wire::number_field(tag, n);
            reading::<M>(m, f + rest, left, inside) == reading::<M>(
                M::put(m, tag, ItemView::Number(n)),
                rest,
                left - f.len(),
                inside,
            )
        }),
{
    reveal(reading);
    if n == 0 {
        assert(wire::number_field(tag, n) + rest =~= rest);
    } else {
        wire::lemma_varint_round_trip((tag * 8) as u64, Seq::empty());
        wire::lemma_merge_number::<M>(m, tag, n, rest, left, inside);
    }
}

/// Text is valid in its own encoding, which gives the text back.
proof fn lemma_text(text: Text)
    ensures
        valid_utf8(encode_utf8(text)),
        decode_utf8(encode_utf8(text)) == text,
        text.len() == 0 ==> text == Seq::<char>::empty(),
{
    encode_utf8_valid_utf8(text);
    encode_utf8_decode_utf8(text);
    if text.len() == 0 {
        assert(text =~= Seq::<char>::empty());
    }
}

/// The message is read off the bytes that begin with its encoding.
proof fn lemma_service_record_read(m: ServiceRecordView, rest: Seq<u8>, inside: bool)
    requires
        encode_utf8(m.id).len() <= u64::MAX,
        encode_utf8(m.name).len() <= u64::MAX,
        encode_utf8(m.protocol).len() <= u64::MAX,
    ensures
        wire::merged::<ServiceRecord>(
            ServiceRecord::initial(),
            ServiceRecord::wire(m) + rest,
            ServiceRecord::wire(m).len() as int,
            inside,
        ) == Ok::<ServiceRecordView, FaultView>(m),
{
    let f1 = wire::filled_field(1, encode_utf8(m.id));
    let f2 = wire::filled_field(2, encode_utf8(m.name));
    let f3 = wire::filled_field(3, encode_utf8(m.protocol));
    let m0 = ServiceRecord::initial();
    let m1 = ServiceRecordView { id: m.id, ..m0 };
    let m2 = ServiceRecordView { name: m.name, ..m1 };
    let m3 = ServiceRecordView { protocol: m.protocol, ..m2 };
    let r3 = rest;
    let r2 = f3 + r3;
    let r1 = f2 + r2;
    let r0 = f1 + r1;
    let n3: int = 0;
    let n2: int = n3 + f3.len();
    let n1: int = n2 + f2.len();
    let n0: int = n1 + f1.len();
    assert(reading::<ServiceRecord>(m0, r0, n0, inside) == reading::<ServiceRecord>(
        m1,
        r1,
        n1,
        inside,
    )) by {
        lemma_text(m.id);
        lemma_text_field::<ServiceRecord>(m0, 1, m.id, r1, n0, inside);
    }
    assert(reading::<ServiceRecord>(m1, r1, n1, inside) == reading::<ServiceRecord>(
        m2,
        r2,
        n2,
        inside,
    )) by {
        lemma_text(m.name);
        lemma_text_field::<ServiceRecord>(m1, 2, m.name, r2, n1, inside);
    }
    assert(reading::<ServiceRecord>(m2, r2, n2, inside) == reading::<ServiceRecord>(
        m3,
        r3,
        n3,
        inside,
    )) by {
        lemma_text(m.protocol);
        lemma_text_field::<ServiceRecord>(m2, 3, m.protocol, r3, n2, inside);
    }
    lemma_three(f1, f2, f3, rest);
    assert(ServiceRecord::wire(m) + rest == r0);
    assert(ServiceRecord::wire(m).len() == n0);
    assert(m3 =~= m);
    lemma_reading::<ServiceRecord>(m0, r0, n0, inside, m3, r3);
}

/// A message that was encoded is read back as it was.
pub proof fn law_service_record_round_trip(m: ServiceRecordView)
    requires
        encode_utf8(m.id).len() <= u64::MAX,
        encode_utf8(m.name).len() <= u64::MAX,
        encode_utf8(m.protocol).len() <= u64::MAX,
    ensures
        wire::decoded::<ServiceRecord>(ServiceRecord::wire(m)) == Ok::<ServiceRecordView, FaultView>(m),
{
    let none = Seq::<u8>::empty();
    lemma_service_record_read(m, none, false);
    assert(ServiceRecord::wire(m) + none =~= ServiceRecord::wire(m));
}

/// The message is read off the bytes that begin with its encoding.
proof fn lemma_grant_claims_read(m: GrantClaimsView, rest: Seq<u8>, inside: bool)
    requires
        encode_utf8(m.id).len() <= u64::MAX,
        m.subject.len() <= u64::MAX,
        m.audience.len() <= u64::MAX,
        encode_utf8(m.service_id).len() <= u64::MAX,
    ensures
        wire::merged::<GrantClaims>(
            GrantClaims::initial(),
            GrantClaims::wire(m) + rest,
            GrantClaims::wire(m).len() as int,
            inside,
        ) == Ok::<GrantClaimsView, FaultView>(m),
{
    let f1 = wire::filled_field(1, encode_utf8(m.id));
    let f2 = wire::filled_field(2, m.subject);
    let f3 = wire::filled_field(3, m.audience);
    let f4 = wire::filled_field(4, encode_utf8(m.service_id));
    let f5 = wire::number_field(5, m.not_before);
    let f6 = wire::number_field(6, m.expires_at);
    let m0 = GrantClaims::initial();
    let m1 = GrantClaimsView { id: m.id, ..m0 };
    let m2 = GrantClaimsView { subject: m.subject, ..m1 };
    let m3 = GrantClaimsView { audience: m.audience, ..m2 };
    let m4 = GrantClaimsView { service_id: m.service_id, ..m3 };
    let m5 = GrantClaimsView { not_before: m.not_before, ..m4 };
    let m6 = GrantClaimsView { expires_at: m.expires_at, ..m5 };
    let r6 = rest;
    let r5 = f6 + r6;
    let r4 = f5 + r5;
    let r3 = f4 + r4;
    let r2 = f3 + r3;
    let r1 = f2 + r2;
    let r0 = f1 + r1;
    let n6: int = 0;
    let n5: int = n6 + f6.len();
    let n4: int = n5 + f5.len();
    let n3: int = n4 + f4.len();
    let n2: int = n3 + f3.len();
    let n1: int = n2 + f2.len();
    let n0: int = n1 + f1.len();
    if m.subject.len() == 0 {
        assert(m.subject =~= Seq::empty());
    }
    if m.audience.len() == 0 {
        assert(m.audience =~= Seq::empty());
    }
    assert(reading::<GrantClaims>(m0, r0, n0, inside) == reading::<GrantClaims>(
        m1,
        r1,
        n1,
        inside,
    )) by {
        lemma_text(m.id);
        lemma_text_field::<GrantClaims>(m0, 1, m.id, r1, n0, inside);
    }
    assert(reading::<GrantClaims>(m1, r1, n1, inside) == reading::<GrantClaims>(
        m2,
        r2,
        n2,
        inside,
    )) by {
        lemma_filled_field::<GrantClaims>(m1, 2, m.subject, r2, n1, inside);
    }
    assert(reading::<GrantClaims>(m2, r2, n2, inside) == reading::<GrantClaims>(
        m3,
        r3,
        n3,
        inside,
    )) by {
        lemma_filled_field::<GrantClaims>(m2, 3, m.audience, r3, n2, inside);
    }
    assert(reading::<GrantClaims>(m3, r3, n3, inside) == reading::<GrantClaims>(
        m4,
        r4,
        n4,
        inside,
    )) by {
        lemma_text(m.service_id);
        lemma_text_field::<GrantClaims>(m3, 4, m.service_id, r4, n3, inside);
    }
    assert(reading::<GrantClaims>(m4, r4, n4, inside) == reading::<GrantClaims>(
        m5,
        r5,
        n5,
        inside,
    )) by {
        lemma_number_field::<GrantClaims>(m4, 5, m.not_before, r5, n4, inside);
    }
    assert(reading::<GrantClaims>(m5, r5, n5, inside) == reading::<GrantClaims>(
        m6,
        r6,
        n6,
        inside,
    )) by {
        lemma_number_field::<GrantClaims>(m5, 6, m.expires_at, r6, n5, inside);
    }
    lemma_six(f1, f2, f3, f4, f5, f6, rest);
    assert(GrantClaims::wire(m) + rest == r0);
    assert(GrantClaims::wire(m).len() == n0);
    assert(m6 =~= m);
    lemma_reading::<GrantClaims>(m0, r0, n0, inside, m6, r6);
}

/// A message that was encoded is read back as it was.
pub proof fn law_grant_claims_round_trip(m: GrantClaimsView)
    requires
        encode_utf8(m.id).len() <= u64::MAX,
        m.subject.len() <= u64::MAX,
        m.audience.len() <= u64::MAX,
        encode_utf8(m.service_id).len() <= u64::MAX,
    ensures
        wire::decoded::<GrantClaims>(GrantClaims::wire(m)) == Ok::<GrantClaimsView, FaultView>(m),
{
    let none = Seq::<u8>::empty();
    lemma_grant_claims_read(m, none, false);
    assert(GrantClaims::wire(m) + none =~= GrantClaims::wire(m));
}

/// The message is read off the bytes that begin with its encoding.
proof fn lemma_grant_envelope_read(m: GrantEnvelopeView, rest: Seq<u8>, inside: bool)
    requires
        m.claims.len() <= u64::MAX,
        m.issuer_key.len() <= u64::MAX,
        m.signature.len() <= u64::MAX,
    ensures
        wire::merged::<GrantEnvelope>(
            GrantEnvelope::initial(),
            GrantEnvelope::wire(m) + rest,
            GrantEnvelope::wire(m).len() as int,
            inside,
        ) == Ok::<GrantEnvelopeView, FaultView>(m),
{
    let f1 = wire::filled_field(1, m.claims);
    let f2 = wire::filled_field(2, m.issuer_key);
    let f3 = wire::filled_field(3, m.signature);
    let m0 = GrantEnvelope::initial();
    let m1 = GrantEnvelopeView { claims: m.claims, ..m0 };
    let m2 = GrantEnvelopeView { issuer_key: m.issuer_key, ..m1 };
    let m3 = GrantEnvelopeView { signature: m.signature, ..m2 };
    let r3 = rest;
    let r2 = f3 + r3;
    let r1 = f2 + r2;
    let r0 = f1 + r1;
    let n3: int = 0;
    let n2: int = n3 + f3.len();
    let n1: int = n2 + f2.len();
    let n0: int = n1 + f1.len();
    if m.claims.len() == 0 {
        assert(m.claims =~= Seq::empty());
    }
    if m.issuer_key.len() == 0 {
        assert(m.issuer_key =~= Seq::empty());
    }
    if m.signature.len() == 0 {
        assert(m.signature =~= Seq::empty());
    }
    assert(reading::<GrantEnvelope>(m0, r0, n0, inside) == reading::<GrantEnvelope>(
        m1,
        r1,
        n1,
        inside,
    )) by {
        lemma_filled_field::<GrantEnvelope>(m0, 1, m.claims, r1, n0, inside);
    }
    assert(reading::<GrantEnvelope>(m1, r1, n1, inside) == reading::<GrantEnvelope>(
        m2,
        r2,
        n2,
        inside,
    )) by {
        lemma_filled_field::<GrantEnvelope>(m1, 2, m.issuer_key, r2, n1, inside);
    }
    assert(reading::<GrantEnvelope>(m2, r2, n2, inside) == reading::<GrantEnvelope>(
        m3,
        r3,
        n3,
        inside,
    )) by {
        lemma_filled_field::<GrantEnvelope>(m2, 3, m.signature, r3, n2, inside);
    }
    assert(GrantEnvelope::wire(m) + rest =~= r0);
    assert(GrantEnvelope::wire(m).len() == n0);
    assert(m3 =~= m);
    lemma_reading::<GrantEnvelope>(m0, r0, n0, inside, m3, r3);
}

/// A message that was encoded is read back as it was.
pub proof fn law_grant_envelope_round_trip(m: GrantEnvelopeView)
    requires
        m.claims.len() <= u64::MAX,
        m.issuer_key.len() <= u64::MAX,
        m.signature.len() <= u64::MAX,
    ensures
        wire::decoded::<GrantEnvelope>(GrantEnvelope::wire(m)) == Ok::<GrantEnvelopeView, FaultView>(m),
{
    let none = Seq::<u8>::empty();
    lemma_grant_envelope_read(m, none, false);
    assert(GrantEnvelope::wire(m) + none =~= GrantEnvelope::wire(m));
}

/// The message is read off the bytes that begin with its encoding.
proof fn lemma_json_frame_read(m: JsonFrameView, rest: Seq<u8>, inside: bool)
    requires
        m.json.len() <= u64::MAX,
    ensures
        wire::merged::<JsonFrame>(
            JsonFrame::initial(),
            JsonFrame::wire(m) + rest,
            JsonFrame::wire(m).len() as int,
            inside,
        ) == Ok::<JsonFrameView, FaultView>(m),
{
    let f1 = wire::filled_field(1, m.json);
    let f2 = wire::number_field(2, m.sequence as u64);
    let f3 = wire::number_field(3, flag(m.last));
    let m0 = JsonFrame::initial();
    let m1 = JsonFrameView { json: m.json, ..m0 };
    let m2 = JsonFrameView { sequence: m.sequence, ..m1 };
    let m3 = JsonFrameView { last: m.last, ..m2 };
    let r3 = rest;
    let r2 = f3 + r3;
    let r1 = f2 + r2;
    let r0 = f1 + r1;
    let n3: int = 0;
    let n2: int = n3 + f3.len();
    let n1: int = n2 + f2.len();
    let n0: int = n1 + f1.len();
    if m.json.len() == 0 {
        assert(m.json =~= Seq::empty());
    }
    let sequence: u32 = m.sequence;
    assert((sequence as u64) as u32 == sequence);
    assert(reading::<JsonFrame>(m0, r0, n0, inside) == reading::<JsonFrame>(
        m1,
        r1,
        n1,
        inside,
    )) by {
        lemma_filled_field::<JsonFrame>(m0, 1, m.json, r1, n0, inside);
    }
    assert(reading::<JsonFrame>(m1, r1, n1, inside) == reading::<JsonFrame>(
        m2,
        r2,
        n2,
        inside,
    )) by {
        lemma_number_field::<JsonFrame>(m1, 2, m.sequence as u64, r2, n1, inside);
    }
    assert(reading::<JsonFrame>(m2, r2, n2, inside) == reading::<JsonFrame>(
        m3,
        r3,
        n3,
        inside,
    )) by {
        lemma_number_field::<JsonFrame>(m2, 3, flag(m.last), r3, n2, inside);
    }
    assert(JsonFrame::wire(m) + rest =~= r0);
    assert(JsonFrame::wire(m).len() == n0);
    assert(m3 =~= m);
    lemma_reading::<JsonFrame>(m0, r0, n0, inside, m3, r3);
}

/// A message that was encoded is read back as it was.
pub proof fn law_json_frame_round_trip(m: JsonFrameView)
    requires
        m.json.len() <= u64::MAX,
    ensures
        wire::decoded::<JsonFrame>(JsonFrame::wire(m)) == Ok::<JsonFrameView, FaultView>(m),
{
    let none = Seq::<u8>::empty();
    lemma_json_frame_read(m, none, false);
    assert(JsonFrame::wire(m) + none =~= JsonFrame::wire(m));
}

/// The message is read off the bytes that begin with its encoding.
proof fn lemma_open_response_read(m: OpenResponseView, rest: Seq<u8>, inside: bool)
    ensures
        wire::merged::<OpenResponse>(
            OpenResponse::initial(),
            OpenResponse::wire(m) + rest,
            OpenResponse::wire(m).len() as int,
            inside,
        ) == Ok::<OpenResponseView, FaultView>(m),
{
    let f1 = wire::number_field(1, m.status as u64);
    let m0 = OpenResponse::initial();
    let m1 = OpenResponseView { status: m.status, ..m0 };
    let r1 = rest;
    let r0 = f1 + r1;
    let n1: int = 0;
    let n0: int = n1 + f1.len();
    let status: i32 = m.status;
    assert((status as u64) as i32 == status) by (bit_vector);
    assert(status as u64 == 0 ==> status == 0) by (bit_vector);
    assert(reading::<OpenResponse>(m0, r0, n0, inside) == reading::<OpenResponse>(
        m1,
        r1,
        n1,
        inside,
    )) by {
        lemma_number_field::<OpenResponse>(m0, 1, m.status as u64, r1, n0, inside);
    }
    assert(OpenResponse::wire(m) + rest =~= r0);
    assert(OpenResponse::wire(m).len() == n0);
    assert(m1 =~= m);
    lemma_reading::<OpenResponse>(m0, r0, n0, inside, m1, r1);
}

/// A message that was encoded is read back as it was.
pub proof fn law_open_response_round_trip(m: OpenResponseView)
    ensures
        wire::decoded::<OpenResponse>(OpenResponse::wire(m)) == Ok::<OpenResponseView, FaultView>(m),
{
    let none = Seq::<u8>::empty();
    lemma_open_response_read(m, none, false);
    assert(OpenResponse::wire(m) + none =~= OpenResponse::wire(m));
}

/// Three byte strings in a row before a fourth, however they are put together.
proof fn lemma_three(a: Seq<u8>, b: Seq<u8>, c: Seq<u8>, rest: Seq<u8>)
    ensures
        a + b + c + rest == a + (b + (c + rest)),
{
    assert(a + b + c + rest =~= a + b + (c + rest));
    assert(a + b + (c + rest) =~= a + (b + (c + rest)));
}

/// Six byte strings in a row before a seventh, however they are put together.
proof fn lemma_six(
    a: Seq<u8>,
    b: Seq<u8>,
    c: Seq<u8>,
    d: Seq<u8>,
    e: Seq<u8>,
    f: Seq<u8>,
    rest: Seq<u8>,
)
    ensures
        a + b + c + d + e + f + rest == a + (b + (c + (d + (e + (f + rest))))),
{
    assert(a + b + c + d + e + f + rest =~= a + b + c + d + e + (f + rest));
    assert(a + b + c + d + e + (f + rest) =~= a + b + c + d + (e + (f + rest)));
    assert(a + b + c + d + (e + (f + rest)) =~= a + b + c + (d + (e + (f + rest))));
    assert(a + b + c + (d + (e + (f + rest))) =~= a + b + (c + (d + (e + (f + rest)))));
    assert(a + b + (c + (d + (e + (f + rest)))) =~= a + (b + (c + (d + (e + (f + rest))))));
}

proof fn lemma_records_round_trip(
    m: DirectoryResponseView,
    services: Seq<ServiceRecordView>,
    rest: Seq<u8>,
    left: int,
)
    requires
        forall|i: int| 0 <= i < services.len() ==> fits_message(#[trigger] services[i]),
        left >= records_wire(services).len(),
    ensures
        reading::<DirectoryResponse>(m, records_wire(services) + rest, left, false)
            == reading::<DirectoryResponse>(
            DirectoryResponseView { services: m.services + services },
            rest,
            left - records_wire(services).len(),
            false,
        ),
    decreases services.len(),
{
    if services.len() == 0 {
        assert(records_wire(services) + rest =~= rest);
        assert(m.services + services =~= m.services);
        assert((DirectoryResponseView { services: m.services + services }) =~= m);
    } else {
        let front = services.drop_last();
        let last = services.last();
        let field = wire::bytes_field(1, ServiceRecord::wire(last));
        assert forall|i: int| 0 <= i < front.len() implies fits_message(#[trigger] front[i]) by {
            assert(front[i] == services[i]);
        }
        lemma_records_round_trip(m, front, field + rest, left);
        assert(records_wire(services) + rest =~= records_wire(front) + (field + rest));
        let mid = DirectoryResponseView { services: m.services + front };
        let next = DirectoryResponseView { services: mid.services.push(last) };
        assert(fits_message(services[services.len() - 1]));
        lemma_service_record_read(last, rest, true);
        lemma_embedded_field::<DirectoryResponse>(
            mid,
            1,
            ServiceRecord::wire(last),
            next,
            rest,
            left - records_wire(front).len(),
            false,
        );
        assert(mid.services.push(last) =~= m.services + services);
    }
}

/// The texts and the encoding of the record are not larger than lengths can be.
pub open spec fn fits_message(m: ServiceRecordView) -> bool {
    &&& encode_utf8(m.id).len() <= u64::MAX
    &&& encode_utf8(m.name).len() <= u64::MAX
    &&& encode_utf8(m.protocol).len() <= u64::MAX
    &&& ServiceRecord::wire(m).len() <= u64::MAX
}

/// A message that was encoded is read back as it was.
pub proof fn law_directory_response_round_trip(m: DirectoryResponseView)
    requires
        forall|i: int| 0 <= i < m.services.len() ==> fits_message(#[trigger] m.services[i]),
    ensures
        wire::decoded::<DirectoryResponse>(DirectoryResponse::wire(m)) == Ok::<
            DirectoryResponseView,
            FaultView,
        >(m),
{
    let none = Seq::<u8>::empty();
    let all = records_wire(m.services);
    lemma_records_round_trip(DirectoryResponse::initial(), m.services, none, all.len() as int);
    assert(all + none =~= all);
    assert(Seq::<ServiceRecordView>::empty() + m.services =~= m.services);
    lemma_reading::<DirectoryResponse>(
        DirectoryResponse::initial(),
        all,
        all.len() as int,
        false,
        m,
        none,
    );
}

/// A message that was encoded is read back as it was.
pub proof fn law_open_request_round_trip(m: OpenRequestView)
    requires
        encode_utf8(m.service_id).len() <= u64::MAX,
        m.student.len() <= u64::MAX,
        m.grant matches Some(g) ==> g.claims.len() <= u64::MAX && g.issuer_key.len() <= u64::MAX
            && g.signature.len() <= u64::MAX && GrantEnvelope::wire(g).len() <= u64::MAX,
    ensures
        wire::decoded::<OpenRequest>(OpenRequest::wire(m)) == Ok::<OpenRequestView, FaultView>(m),
{
    let f1 = wire::filled_field(1, encode_utf8(m.service_id));
    let f2 = grant_field(m.grant);
    let f3 = wire::filled_field(3, m.student);
    let m0 = OpenRequest::initial();
    let m1 = OpenRequestView { service_id: m.service_id, ..m0 };
    let m2 = OpenRequestView { grant: m.grant, ..m1 };
    let m3 = OpenRequestView { student: m.student, ..m2 };
    let r3 = Seq::<u8>::empty();
    let r2 = f3 + r3;
    let r1 = f2 + r2;
    let r0 = f1 + r1;
    let n2: int = f3.len() as int;
    let n1: int = n2 + f2.len();
    let n0: int = n1 + f1.len();
    lemma_text(m.service_id);
    lemma_text_field::<OpenRequest>(m0, 1, m.service_id, r1, n0, false);
    match m.grant {
        Some(g) => {
            lemma_grant_envelope_read(g, r2, true);
            lemma_embedded_field::<OpenRequest>(
                m1,
                2,
                GrantEnvelope::wire(g),
                m2,
                r2,
                n1,
                false,
            );
        },
        None => {
            assert(r1 =~= r2);
        },
    }
    if m.student.len() == 0 {
        assert(m.student =~= Seq::empty());
    }
    lemma_filled_field::<OpenRequest>(m2, 3, m.student, r3, n2, false);
    assert(OpenRequest::wire(m) =~= r0);
    assert(OpenRequest::wire(m).len() == n0);
    assert(m3 =~= m);
    lemma_reading::<OpenRequest>(m0, r0, n0, false, m3, r3);
}

} // verus!
