use union_core::collections::{OrdMap, OrdSet, StrMap, StrSet};
use union_core::council::Council;
use union_core::protocol::{
    DirectoryRequest, DirectoryResponse, GrantClaims, GrantEnvelope, JsonFrame, OpenRequest,
    OpenResponse, ServiceRecord, Status,
};
use union_core::{text, wire, Error, Identity};

#[test]
fn messages_have_the_bytes_of_their_fields() {
    let frame = JsonFrame { json: vec![9, 8], sequence: 300, last: true };
    let bytes = vec![0x0a, 2, 9, 8, 0x10, 0xac, 0x02, 0x18, 1];
    assert_eq!(wire::encode(&frame), bytes);
    assert_eq!(wire::decode::<JsonFrame>(&bytes).unwrap(), frame);
    // Fields that hold nothing take no bytes.
    let nothing = JsonFrame { json: vec![], sequence: 0, last: false };
    assert!(wire::encode(&nothing).is_empty());
    assert_eq!(wire::decode::<JsonFrame>(&[]).unwrap(), nothing);
    let busy = OpenResponse { status: Status::Busy.to_number() };
    assert_eq!(wire::encode(&busy), vec![0x08, 4]);
    let negative = OpenResponse { status: -1 };
    assert_eq!(
        wire::encode(&negative),
        vec![0x08, 255, 255, 255, 255, 255, 255, 255, 255, 255, 1]
    );
    assert_eq!(wire::decode::<OpenResponse>(&wire::encode(&negative)).unwrap(), negative);
}

#[test]
fn every_message_is_read_back() {
    let record = ServiceRecord { id: "i".into(), name: "\u{540d}".into(), protocol: "p".into() };
    assert_eq!(wire::decode::<ServiceRecord>(&wire::encode(&record)).unwrap(), record);
    let list = DirectoryResponse { services: vec![record.clone(), record.clone()] };
    assert_eq!(wire::decode::<DirectoryResponse>(&wire::encode(&list)).unwrap(), list);
    let claims = GrantClaims {
        id: "a".into(),
        subject: vec![1],
        audience: vec![2, 3],
        service_id: "s".into(),
        not_before: 1,
        expires_at: u64::MAX,
    };
    assert_eq!(wire::decode::<GrantClaims>(&wire::encode(&claims)).unwrap(), claims);
    let envelope = GrantEnvelope { claims: vec![1], issuer_key: vec![], signature: vec![2] };
    for grant in [None, Some(envelope)] {
        let request = OpenRequest { service_id: "s".into(), grant, student: vec![5] };
        assert_eq!(wire::decode::<OpenRequest>(&wire::encode(&request)).unwrap(), request);
    }
    let empty = wire::encode(&DirectoryRequest {});
    assert!(empty.is_empty());
    assert!(wire::decode::<DirectoryRequest>(&empty).is_ok());
}

#[test]
fn fields_that_are_not_known_are_skipped() {
    // A number under tag 5, eight bytes under tag 6, a text under tag 7, then the sequence.
    let bytes = [0x28, 7, 0x31, 1, 2, 3, 4, 5, 6, 7, 8, 0x3a, 2, 1, 1, 0x10, 4];
    assert_eq!(
        wire::decode::<JsonFrame>(&bytes).unwrap(),
        JsonFrame { json: vec![], sequence: 4, last: false }
    );
    // What stands last counts.
    assert_eq!(wire::decode::<JsonFrame>(&[0x10, 4, 0x10, 6]).unwrap().sequence, 6);
}

#[test]
fn bytes_that_are_no_message_are_refused() {
    let refused = |bytes: &[u8]| matches!(wire::decode::<JsonFrame>(bytes), Err(Error::Protocol(_)));
    assert!(refused(&[0x0a, 5, 1]));
    assert!(refused(&[0x10]));
    assert!(refused(&[0x10, 255, 255, 255, 255, 255, 255, 255, 255, 255, 255, 1]));
    assert!(refused(&[0x0d, 0, 0, 0, 0]));
    assert!(refused(&[0x00, 0]));
    assert!(refused(&[0x2b]));
    assert!(wire::decode::<ServiceRecord>(&[0x0a, 1, 0xff]).is_err());
    assert!(wire::decode::<OpenRequest>(&[0x12, 1, 0xff]).is_err());
}

fn refusal<M: wire::Message>(bytes: &[u8]) -> String {
    match wire::decode::<M>(bytes) {
        Err(Error::Protocol(text)) => text,
        _ => "none".into(),
    }
}

#[test]
fn refusals_say_where_the_bytes_are_wrong() {
    let told = |text: &str| format!("failed to decode Protobuf message: {text}");
    let envelope = |bytes: &[u8]| refusal::<GrantEnvelope>(bytes);
    assert_eq!(envelope(&[0x0a]), told("GrantEnvelope.claims: invalid varint"));
    assert_eq!(envelope(&[0x12, 5, 1]), told("GrantEnvelope.issuer_key: buffer underflow"));
    assert_eq!(
        envelope(&[0x1d, 0, 0, 0, 0]),
        told("GrantEnvelope.signature: invalid wire type: ThirtyTwoBit (expected LengthDelimited)")
    );
    assert_eq!(
        refusal::<JsonFrame>(&[0x12, 1, 1]),
        told("JsonFrame.sequence: invalid wire type: LengthDelimited (expected Varint)")
    );
    assert_eq!(refusal::<JsonFrame>(&[0x00, 0]), told("invalid tag value: 0"));
    assert_eq!(refusal::<JsonFrame>(&[0x0e]), told("invalid wire type value: 6"));
    assert_eq!(
        refusal::<JsonFrame>(&[0xff, 0xff, 0xff, 0xff, 0x7f]),
        told("invalid key value: 34359738367")
    );
    // The innermost field comes first.
    assert_eq!(
        refusal::<DirectoryResponse>(&[0x0a, 3, 0x0a, 1, 0xff]),
        told(
            "ServiceRecord.id: DirectoryResponse.services: \
             invalid string value: data is not UTF-8 encoded"
        )
    );
    assert_eq!(
        refusal::<DirectoryResponse>(&[0x0a, 2, 0x0a, 1, 0x41]),
        told("DirectoryResponse.services: delimited length exceeded")
    );
    assert_eq!(
        refusal::<OpenRequest>(&[0x12, 1, 0x24]),
        told("OpenRequest.grant: unexpected end group tag")
    );
}

#[test]
fn unknown_fields_are_refused_as_everywhere() {
    // What is said of fields that are not known does not depend on the message.
    let nested = |depth: usize| [vec![0x23; depth], vec![0x24; depth]].concat();
    let mut cases: Vec<Vec<u8>> = vec![
        vec![0x20],
        vec![0x22, 9, 1],
        vec![0x21, 1],
        vec![0x23, 0x2c],
        vec![0x24],
        vec![0x80],
        vec![0x23, 0x00],
        vec![0x23; 101],
    ];
    cases.push(nested(101));
    for bytes in cases {
        let error = <Vec<u8> as prost::Message>::decode(bytes.as_slice()).unwrap_err();
        assert_eq!(refusal::<JsonFrame>(&bytes), error.to_string());
    }
    assert!(wire::decode::<JsonFrame>(&nested(100)).is_ok());
    // In an embedded message one level is used up already.
    let embedded = |field: Vec<u8>| {
        let size = field.len() as u8;
        [vec![0x12, size | 0x80, size >> 7], field].concat()
    };
    assert!(wire::decode::<OpenRequest>(&embedded(nested(99))).is_ok());
    for field in [nested(100), vec![0x23; 200]] {
        assert_eq!(
            refusal::<OpenRequest>(&embedded(field)),
            "failed to decode Protobuf message: OpenRequest.grant: recursion limit reached"
        );
    }
}

#[test]
fn names_and_texts_follow_their_rules() {
    assert!(text::identifier("\u{540d}").is_ok());
    assert!(text::identifier(&"x".repeat(128)).is_ok());
    for bad in ["", "a\nb", "\u{7f}", "\u{85}"] {
        assert!(text::identifier(bad).is_err());
    }
    assert!(text::identifier(&"\u{540d}".repeat(43)).is_err());
    assert!(text::text("two\nlines", 16).is_ok());
    for bad in ["", " \u{3000}\n", "tab\t", "12345678901234567"] {
        assert!(matches!(text::text(bad, 16), Err(Error::Denied)));
    }
}

#[test]
fn numbers_are_read_in_their_own_form_alone() {
    assert_eq!(text::canonical_number("0"), Some(0));
    assert_eq!(text::decimal_text(0), "0");
    assert_eq!(text::decimal_text(u64::MAX), "18446744073709551615");
    assert_eq!(text::tail("\u{540d}bc", 1), "bc");
    assert_eq!(text::canonical_number("1203"), Some(1203));
    assert_eq!(text::canonical_number("18446744073709551615"), Some(u64::MAX));
    for other in ["", "+1", "01", "00", "1a", "-1", " 1", "18446744073709551616", "\u{661}"] {
        assert_eq!(text::canonical_number(other), None);
    }
}

#[test]
fn collections_keep_their_order() {
    let mut map: OrdMap<u64, String> = OrdMap::new();
    for key in [5, 1, 3] {
        assert!(map.insert(key, key.to_string()).is_none());
    }
    assert_eq!(map.insert(3, "three".into()), Some("3".into()));
    assert_eq!(map.key_list(), vec![1, 3, 5]);
    assert_eq!(map.get(&3).map(|s| s.as_str()), Some("three"));
    assert_eq!(map.remove(&1), Some("1".into()));
    assert_eq!(map.remove(&1), None);
    assert_eq!((map.len(), map.contains_key(&1), map.is_empty()), (2, false, false));
    let mut set: OrdSet<u64> = OrdSet::new();
    assert!(set.insert(2) && set.insert(1) && !set.insert(2));
    assert_eq!(set.item_list(), vec![1, 2]);
    assert!(set.remove(&1) && !set.remove(&1));
    let mut texts = StrSet::new();
    for item in ["b", "B", "\u{e9}", "a"] {
        texts.insert(item.to_string());
    }
    assert_eq!(texts.item_list(), vec!["B", "a", "b", "\u{e9}"]);
}

#[test]
fn errors_are_reported_under_fixed_texts() {
    let told: Vec<String> = [
        Error::Io("x".into()),
        Error::Identity("x".into()),
        Error::Protocol("x".into()),
        Error::Network("x".into()),
        Error::Timeout,
        Error::Stopped,
        Error::Denied,
        Error::NotFound,
        Error::Capacity,
    ]
    .iter()
    .map(|e| e.message())
    .collect();
    assert_eq!(
        told,
        vec![
            "I/O: x",
            "invalid identity: x",
            "invalid protocol message: x",
            "network: x",
            "operation timed out",
            "node stopped",
            "access denied",
            "service not found",
            "resource limit reached"
        ]
    );
}

#[test]
fn councils_need_broad_quorums_and_separate_schools() {
    let devices: Vec<String> = (0..3).map(|_| Identity::generate().peer_id().text()).collect();
    let council = |quorum: usize, change_quorum: usize, cooldown_ms: u64, shared: bool| {
        let mut schools = StrMap::new();
        for (i, device) in devices.iter().enumerate() {
            let mut set = StrSet::new();
            set.insert(if shared { devices[0].clone() } else { device.clone() });
            schools.insert(format!("school{i}"), set);
        }
        Council { epoch: 0, schools, quorum, change_quorum, cooldown_ms }
    };
    let day = 86_400_000;
    assert!(council(2, 3, 2 * day, false).validate().is_ok());
    assert!(council(3, 3, 7 * day, false).validate().is_ok());
    assert!(council(1, 3, 2 * day, false).validate().is_err());
    assert!(council(2, 2, 2 * day, false).validate().is_err());
    assert!(council(2, 4, 2 * day, false).validate().is_err());
    assert!(council(2, 3, 2 * day - 1, false).validate().is_err());
    assert!(council(2, 3, 7 * day + 1, false).validate().is_err());
    assert!(council(2, 3, 2 * day, true).validate().is_err());
    let mut nameless = council(2, 3, 2 * day, false);
    nameless.schools.insert("x".into(), StrSet::new());
    assert!(nameless.validate().is_err());
}
