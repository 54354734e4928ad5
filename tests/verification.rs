use media_schema::thumbnail::Method;
use media_schema::verification::{
    HashAlgorithm, KeyAgreementProtocol, MessageAuthenticationCode, ShortAuthenticationString,
    VerificationMethod,
};
use serde_json::Value;

fn to_json(s: &str) -> String {
    serde_json::to_string(s).unwrap()
}

fn from_json(s: &str) -> String {
    serde_json::from_str::<String>(s).unwrap()
}

#[test]
fn serialize_key_agreement() {
    let serialized = to_json(KeyAgreementProtocol::Curve25519HkdfSha256.as_str());
    assert_eq!(serialized, "\"curve25519-hkdf-sha256\"");

    let deserialized = KeyAgreementProtocol::parse(&from_json(&serialized));
    assert_eq!(deserialized, KeyAgreementProtocol::Curve25519HkdfSha256);
}

#[test]
fn deserialize_mac_method() {
    let json = Value::Array(vec![
        Value::String("hkdf-hmac-sha256".to_owned()),
        Value::String("hmac-sha256".to_owned()),
    ]);

    let strings: Vec<String> = serde_json::from_value(json).unwrap();
    let deserialized: Vec<MessageAuthenticationCode> =
        strings.iter().map(|s| MessageAuthenticationCode::parse(s)).collect();
    assert!(deserialized.contains(&MessageAuthenticationCode::HkdfHmacSha256));
}

#[test]
fn serialize_mac_method() {
    let serialized = to_json(MessageAuthenticationCode::HkdfHmacSha256.as_str());
    let deserialized = MessageAuthenticationCode::parse(&from_json(&serialized));
    assert_eq!(serialized, "\"hkdf-hmac-sha256\"");
    assert_eq!(deserialized, MessageAuthenticationCode::HkdfHmacSha256);

    let serialized = to_json(MessageAuthenticationCode::HmacSha256.as_str());
    let deserialized = MessageAuthenticationCode::parse(&from_json(&serialized));
    assert_eq!(serialized, "\"hmac-sha256\"");
    assert_eq!(deserialized, MessageAuthenticationCode::HmacSha256);
}

#[test]
fn serialize_mac_method_msc3783() {
    let serialized = to_json(MessageAuthenticationCode::HkdfHmacSha256V2.as_str());
    let deserialized = MessageAuthenticationCode::parse(&from_json(&serialized));

    assert_eq!(serialized, "\"org.matrix.msc3783.hkdf-hmac-sha256\"");
    assert_eq!(deserialized, MessageAuthenticationCode::HkdfHmacSha256V2);
}

#[test]
fn known_variants_round_trip() {
    for v in [Method::Crop, Method::Scale] {
        assert_eq!(Method::parse(v.as_str()), v);
    }
    for v in [HashAlgorithm::Sha256] {
        assert_eq!(HashAlgorithm::parse(v.as_str()), v);
    }
    for v in [ShortAuthenticationString::Decimal, ShortAuthenticationString::Emoji] {
        assert_eq!(ShortAuthenticationString::parse(v.as_str()), v);
    }
    for v in [
        VerificationMethod::SasV1,
        VerificationMethod::QrCodeScanV1,
        VerificationMethod::QrCodeShowV1,
        VerificationMethod::ReciprocateV1,
    ] {
        assert_eq!(VerificationMethod::parse(v.as_str()), v);
    }
    assert_eq!(VerificationMethod::QrCodeShowV1.as_str(), "m.qr_code.show.v1");
    assert_eq!(ShortAuthenticationString::Emoji.as_str(), "emoji");
    assert_eq!(KeyAgreementProtocol::Curve25519.as_str(), "curve25519");
}

#[test]
fn unknown_string_is_kept() {
    let v = VerificationMethod::parse("m.custom.v9");
    assert_eq!(v.as_str(), "m.custom.v9");
    assert_ne!(v, VerificationMethod::SasV1);
    assert_eq!(v, VerificationMethod::parse("m.custom.v9"));
    assert_ne!(v, VerificationMethod::parse("m.custom.v8"));
}

#[test]
fn empty_string_is_a_custom_value() {
    let v = HashAlgorithm::parse("");
    assert_eq!(v.as_str(), "");
    assert_ne!(v, HashAlgorithm::Sha256);
}

#[test]
fn parsing_is_case_sensitive() {
    let v = ShortAuthenticationString::parse("Emoji");
    assert_ne!(v, ShortAuthenticationString::Emoji);
    assert_eq!(v.as_str(), "Emoji");
    let m = Method::parse("CROP");
    assert_ne!(m, Method::Crop);
    assert_eq!(m.as_str(), "CROP");
}
