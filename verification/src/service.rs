//! The services that a node offers.
use vstd::prelude::*;
use vstd::string::*;
use vstd::utf8::*;

use crate::access::{AccessPolicy, AccessPolicyView};
use crate::error;
use crate::error::{invalid, Error, ErrorView, Result};
use crate::model::rules;
use crate::model::views::Text;
use crate::order::Duplicate;
use crate::outside;
use crate::protocol::{ServiceRecord, ServiceRecordView};
use crate::text;
use crate::text::{all_plain, within};

verus! {

/// One of the 32 digits of a number of 128 bits, the most significant one first.
pub open spec fn uuid_digit(id: u128, i: int) -> char {
    rules::hex_digit(((id >> ((124 - 4 * i) as u128)) & 0xf) as u8)
}

/// The digits in groups of 8, 4, 4, 4 and 12, with hyphens in between.
pub open spec fn uuid_text(id: u128) -> Text {
    Seq::new(
        36,
        |i: int|
            if i < 8 {
                uuid_digit(id, i)
            } else if i == 8 || i == 13 || i == 18 || i == 23 {
                '-'
            } else if i < 13 {
                uuid_digit(id, i - 1)
            } else if i < 18 {
                uuid_digit(id, i - 2)
            } else if i < 23 {
                uuid_digit(id, i - 3)
            } else {
                uuid_digit(id, i - 4)
            },
    )
}

/// Two numbers with the same digit in a place agree in the four bits there.
proof fn lemma_digit(a: u128, b: u128, i: int)
    requires
        0 <= i < 32,
        uuid_digit(a, i) == uuid_digit(b, i),
    ensures
        (a >> ((124 - 4 * i) as u128)) & 0xf == (b >> ((124 - 4 * i) as u128)) & 0xf,
{
    let x = a >> ((124 - 4 * i) as u128);
    let y = b >> ((124 - 4 * i) as u128);
    assert(x & 0xf < 16) by (bit_vector);
    assert(y & 0xf < 16) by (bit_vector);
}

/// Where a digit stands in the text.
pub open spec fn digit_place(i: int) -> int {
    if i < 8 {
        i
    } else if i < 12 {
        i + 1
    } else if i < 16 {
        i + 2
    } else if i < 20 {
        i + 3
    } else {
        i + 4
    }
}

/// Different identities have different texts.
pub proof fn law_identities_have_their_own_texts(a: u128, b: u128)
    requires
        uuid_text(a) == uuid_text(b),
    ensures
        a == b,
{
    assert forall|i: int| 0 <= i < 32 implies uuid_digit(a, i) == #[trigger] uuid_digit(b, i) by {
        assert(uuid_text(a)[digit_place(i)] == uuid_digit(a, i));
        assert(uuid_text(b)[digit_place(i)] == uuid_digit(b, i));
    }
    lemma_digit(a, b, 0);
    lemma_digit(a, b, 1);
    lemma_digit(a, b, 2);
    lemma_digit(a, b, 3);
    lemma_digit(a, b, 4);
    lemma_digit(a, b, 5);
    lemma_digit(a, b, 6);
    lemma_digit(a, b, 7);
    lemma_digit(a, b, 8);
    lemma_digit(a, b, 9);
    lemma_digit(a, b, 10);
    lemma_digit(a, b, 11);
    lemma_digit(a, b, 12);
    lemma_digit(a, b, 13);
    lemma_digit(a, b, 14);
    lemma_digit(a, b, 15);
    lemma_digit(a, b, 16);
    lemma_digit(a, b, 17);
    lemma_digit(a, b, 18);
    lemma_digit(a, b, 19);
    lemma_digit(a, b, 20);
    lemma_digit(a, b, 21);
    lemma_digit(a, b, 22);
    lemma_digit(a, b, 23);
    lemma_digit(a, b, 24);
    lemma_digit(a, b, 25);
    lemma_digit(a, b, 26);
    lemma_digit(a, b, 27);
    lemma_digit(a, b, 28);
    lemma_digit(a, b, 29);
    lemma_digit(a, b, 30);
    lemma_digit(a, b, 31);
    assert(a == b) by (bit_vector)
        requires
            (a >> 124u128) & 0xf == (b >> 124u128) & 0xf,
            (a >> 120u128) & 0xf == (b >> 120u128) & 0xf,
            (a >> 116u128) & 0xf == (b >> 116u128) & 0xf,
            (a >> 112u128) & 0xf == (b >> 112u128) & 0xf,
            (a >> 108u128) & 0xf == (b >> 108u128) & 0xf,
            (a >> 104u128) & 0xf == (b >> 104u128) & 0xf,
            (a >> 100u128) & 0xf == (b >> 100u128) & 0xf,
            (a >> 96u128) & 0xf == (b >> 96u128) & 0xf,
            (a >> 92u128) & 0xf == (b >> 92u128) & 0xf,
            (a >> 88u128) & 0xf == (b >> 88u128) & 0xf,
            (a >> 84u128) & 0xf == (b >> 84u128) & 0xf,
            (a >> 80u128) & 0xf == (b >> 80u128) & 0xf,
            (a >> 76u128) & 0xf == (b >> 76u128) & 0xf,
            (a >> 72u128) & 0xf == (b >> 72u128) & 0xf,
            (a >> 68u128) & 0xf == (b >> 68u128) & 0xf,
            (a >> 64u128) & 0xf == (b >> 64u128) & 0xf,
            (a >> 60u128) & 0xf == (b >> 60u128) & 0xf,
            (a >> 56u128) & 0xf == (b >> 56u128) & 0xf,
            (a >> 52u128) & 0xf == (b >> 52u128) & 0xf,
            (a >> 48u128) & 0xf == (b >> 48u128) & 0xf,
            (a >> 44u128) & 0xf == (b >> 44u128) & 0xf,
            (a >> 40u128) & 0xf == (b >> 40u128) & 0xf,
            (a >> 36u128) & 0xf == (b >> 36u128) & 0xf,
            (a >> 32u128) & 0xf == (b >> 32u128) & 0xf,
            (a >> 28u128) & 0xf == (b >> 28u128) & 0xf,
            (a >> 24u128) & 0xf == (b >> 24u128) & 0xf,
            (a >> 20u128) & 0xf == (b >> 20u128) & 0xf,
            (a >> 16u128) & 0xf == (b >> 16u128) & 0xf,
            (a >> 12u128) & 0xf == (b >> 12u128) & 0xf,
            (a >> 8u128) & 0xf == (b >> 8u128) & 0xf,
            (a >> 4u128) & 0xf == (b >> 4u128) & 0xf,
            (a >> 0u128) & 0xf == (b >> 0u128) & 0xf,
    ;
}

/// The identity of a service, which is apart from that of the node that hosts it.
#[derive(Clone, Copy, Debug, PartialEq, Eq, Structural)]
pub struct ServiceId {
    pub number: u128,
}

/// The bits that mark a number as a random UUID: the version is 4, and the variant is the one of
/// RFC 9562.
pub open spec fn marked_random(number: u128) -> bool {
    (number >> 76u128) & 0xf == 4 && (number >> 62u128) & 0x3 == 2
}

impl ServiceId {
    /// A new identity, drawn at random.
    pub fn new() -> (r: Self)
        ensures
            marked_random(r.number),
    {
        ServiceId { number: outside::random_uuid() }
    }

    /// The text form.
    pub fn text(&self) -> (r: String)
        ensures
            r@ == uuid_text(self.number),
            outside::uuid_of_text(r@) == Ok::<u128, Text>(self.number),
    {
        outside::format_uuid(self.number)
    }

    /// The identity that a text gives.
    pub fn parse(value: &str) -> (r: Result<Self>)
        ensures
            match outside::uuid_of_text(value@) {
                Ok(number) => r is Ok && r->Ok_0 == (ServiceId { number }),
                Err(e) => r is Err && r->Err_0@ == ErrorView::Protocol(e),
            },
    {
        match outside::parse_uuid(value) {
            Ok(number) => Ok(ServiceId { number }),
            Err(e) => Err(Error::Protocol(e)),
        }
    }
}

impl Default for ServiceId {
    fn default() -> (r: Self)
        ensures
            marked_random(r.number),
    {
        Self::new()
    }
}

/// A service that a node offers.
#[derive(Debug, PartialEq, Eq)]
pub struct Service {
    pub id: ServiceId,
    pub name: String,
    pub protocol: String,
    pub access: AccessPolicy,
}

/// What a [`Service`] stands for.
#[verifier::ext_equal]
pub struct ServiceView {
    pub id: ServiceId,
    pub name: Text,
    pub protocol: Text,
    pub access: AccessPolicyView,
}

impl DeepView for Service {
    type V = ServiceView;

    open spec fn deep_view(&self) -> ServiceView {
        ServiceView {
            id: self.id,
            name: self.name@,
            protocol: self.protocol@,
            access: self.access.deep_view(),
        }
    }
}

impl View for Service {
    type V = ServiceView;

    open spec fn view(&self) -> ServiceView {
        self.deep_view()
    }
}

impl Duplicate for Service {
    fn duplicate(&self) -> (r: Self) {
        Service {
            id: self.id,
            name: self.name.clone(),
            protocol: self.protocol.clone(),
            access: self.access.duplicate(),
        }
    }
}

impl Clone for Service {
    fn clone(&self) -> (r: Self)
        ensures
            r@ == self@,
    {
        self.duplicate()
    }
}


/// The text is plain ASCII.
pub open spec fn ascii(s: Text) -> bool {
    forall|i: int| 0 <= i < s.len() ==> (#[trigger] s[i]) as u32 <= 0x7f
}

/// What a service may be called, and what it may say that it speaks.
pub open spec fn is_service(name: Text, protocol: Text) -> bool {
    text::is_identifier(name) && text::is_identifier(protocol) && ascii(protocol)
}

/// Whether the text is plain ASCII.
fn all_ascii(s: &str) -> (r: bool)
    ensures
        r == ascii(s@),
{
    let mut clean: bool = true;
    for c in it: s.chars()
        invariant
            it.seq() == s@,
            clean == (forall|i: int| 0 <= i < it.index() ==> (#[trigger] s@[i]) as u32 <= 0x7f),
    {
        let code: u32 = c as u32;
        if code > 0x7f {
            clean = false;
        }
    }
    clean
}

impl Service {
    /// Accepts a service with a proper name and protocol.
    pub fn validate(&self) -> (r: Result<()>)
        ensures
            is_service(self.name@, self.protocol@) ==> r is Ok,
            !is_service(self.name@, self.protocol@) ==> r is Err && r->Err_0@
                == ErrorView::Protocol("invalid service name or protocol"@),
    {
        let name = self.name.as_str();
        let protocol = self.protocol.as_str();
        if name.is_empty() || !within(name, 128) || !all_plain(name) || protocol.is_empty()
            || !within(protocol, 128) || !all_ascii(protocol) || !all_plain(protocol) {
            return Err(invalid("invalid service name or protocol"));
        }
        Ok(())
    }

    /// The service as it is listed.
    pub(crate) fn record(&self) -> (r: ServiceRecord)
        ensures
            r@ == listed(self.id, self.name@, self.protocol@),
    {
        ServiceRecord {
            id: self.id.text(),
            name: self.name.clone(),
            protocol: self.protocol.clone(),
        }
    }
}

/// A service as it is listed.
pub open spec fn listed(id: ServiceId, name: Text, protocol: Text) -> ServiceRecordView {
    ServiceRecordView { id: uuid_text(id.number), name, protocol }
}

} // verus!
