//! Open enumerations used by key verification events.
use vstd::prelude::*;
use crate::string_enum::{
    lemma_parse_serialize, lemma_serialize_parse, names_distinct, parse_from, parse_token,
    serialize_token, token_wf, PrivOwnedStr, TokenModel,
};
use crate::text::str_eq;

verus! {

/// A hash algorithm.
#[derive(Clone, Debug)]
#[non_exhaustive]
pub enum HashAlgorithm {
    /// The SHA256 hash algorithm.
    Sha256,
    /// Any other wire string, kept as it came.
    _Custom(PrivOwnedStr),
}

impl View for HashAlgorithm {
    type V = TokenModel;

    open spec fn view(&self) -> TokenModel {
        match self {
            HashAlgorithm::Sha256 => TokenModel::Known(0),
            HashAlgorithm::_Custom(s) => TokenModel::Custom(s@),
        }
    }
}

impl HashAlgorithm {
    /// The known wire strings, in declaration order.
    pub open spec fn names() -> Seq<Seq<char>> {
        seq!["sha256"@]
    }

    /// A value that can occur: a custom value never holds a known wire string.
    pub open spec fn wf(&self) -> bool {
        token_wf(Self::names(), self@)
    }

    /// The wire string of this value.
    pub fn as_str(&self) -> (r: &str)
        ensures
            r@ == serialize_token(Self::names(), self@),
    {
        match self {
            HashAlgorithm::Sha256 => "sha256",
            HashAlgorithm::_Custom(s) => s.as_str(),
        }
    }

    /// Reads a wire string: a known variant on an exact match, else a custom
    /// value that keeps the string.
    pub fn parse(s: &str) -> (r: HashAlgorithm)
        ensures
            r@ == parse_token(Self::names(), s@),
            r.wf(),
    {
        proof {
            reveal_with_fuel(parse_from, 2);
            lemma_serialize_parse(Self::names(), s@);
        }
        if str_eq(s, "sha256") {
            HashAlgorithm::Sha256
        } else {
            HashAlgorithm::_Custom(PrivOwnedStr::new(s))
        }
    }

    /// No wire string is declared twice.
    pub proof fn lemma_names_distinct()
        ensures
            names_distinct(Self::names()),
    {
        reveal_strlit("sha256");
    }

    /// Parsing the wire string of a value that can occur gives the value back.
    pub proof fn lemma_round_trip(v: HashAlgorithm)
        requires
            v.wf(),
        ensures
            parse_token(Self::names(), serialize_token(Self::names(), v@)) == v@,
    {
        Self::lemma_names_distinct();
        lemma_parse_serialize(Self::names(), v@);
    }
}

impl PartialEq for HashAlgorithm {
    fn eq(&self, other: &HashAlgorithm) -> (r: bool) {
        match (self, other) {
            (HashAlgorithm::Sha256, HashAlgorithm::Sha256) => true,
            (HashAlgorithm::_Custom(a), HashAlgorithm::_Custom(b)) => str_eq(a.as_str(), b.as_str()),
            _ => false,
        }
    }
}

impl vstd::std_specs::cmp::PartialEqSpecImpl for HashAlgorithm {
    open spec fn obeys_eq_spec() -> bool {
        true
    }

    open spec fn eq_spec(&self, other: &HashAlgorithm) -> bool {
        self@ == other@
    }
}

impl Eq for HashAlgorithm {}

/// A key agreement protocol.
#[derive(Clone, Debug)]
#[non_exhaustive]
pub enum KeyAgreementProtocol {
    /// The Curve25519 key agreement protocol.
    Curve25519,
    /// The Curve25519 key agreement protocol with check for public keys.
    Curve25519HkdfSha256,
    /// Any other wire string, kept as it came.
    _Custom(PrivOwnedStr),
}

impl View for KeyAgreementProtocol {
    type V = TokenModel;

    open spec fn view(&self) -> TokenModel {
        match self {
            KeyAgreementProtocol::Curve25519 => TokenModel::Known(0),
            KeyAgreementProtocol::Curve25519HkdfSha256 => TokenModel::Known(1),
            KeyAgreementProtocol::_Custom(s) => TokenModel::Custom(s@),
        }
    }
}

impl KeyAgreementProtocol {
    /// The known wire strings, in declaration order.
    pub open spec fn names() -> Seq<Seq<char>> {
        seq!["curve25519"@, "curve25519-hkdf-sha256"@]
    }

    /// A value that can occur: a custom value never holds a known wire string.
    pub open spec fn wf(&self) -> bool {
        token_wf(Self::names(), self@)
    }

    /// The wire string of this value.
    pub fn as_str(&self) -> (r: &str)
        ensures
            r@ == serialize_token(Self::names(), self@),
    {
        match self {
            KeyAgreementProtocol::Curve25519 => "curve25519",
            KeyAgreementProtocol::Curve25519HkdfSha256 => "curve25519-hkdf-sha256",
            KeyAgreementProtocol::_Custom(s) => s.as_str(),
        }
    }

    /// Reads a wire string: a known variant on an exact match, else a custom
    /// value that keeps the string.
    pub fn parse(s: &str) -> (r: KeyAgreementProtocol)
        ensures
            r@ == parse_token(Self::names(), s@),
            r.wf(),
    {
        proof {
            reveal_with_fuel(parse_from, 3);
            lemma_serialize_parse(Self::names(), s@);
        }
        if str_eq(s, "curve25519") {
            KeyAgreementProtocol::Curve25519
        } else if str_eq(s, "curve25519-hkdf-sha256") {
            KeyAgreementProtocol::Curve25519HkdfSha256
        } else {
            KeyAgreementProtocol::_Custom(PrivOwnedStr::new(s))
        }
    }

    /// No wire string is declared twice.
    pub proof fn lemma_names_distinct()
        ensures
            names_distinct(Self::names()),
    {
        reveal_strlit("curve25519");
        reveal_strlit("curve25519-hkdf-sha256");
        assert("curve25519"@.len() != "curve25519-hkdf-sha256"@.len());
    }

    /// Parsing the wire string of a value that can occur gives the value back.
    pub proof fn lemma_round_trip(v: KeyAgreementProtocol)
        requires
            v.wf(),
        ensures
            parse_token(Self::names(), serialize_token(Self::names(), v@)) == v@,
    {
        Self::lemma_names_distinct();
        lemma_parse_serialize(Self::names(), v@);
    }
}

impl PartialEq for KeyAgreementProtocol {
    fn eq(&self, other: &KeyAgreementProtocol) -> (r: bool) {
        match (self, other) {
            (KeyAgreementProtocol::Curve25519, KeyAgreementProtocol::Curve25519) => true,
            (KeyAgreementProtocol::Curve25519HkdfSha256, KeyAgreementProtocol::Curve25519HkdfSha256) => true,
            (KeyAgreementProtocol::_Custom(a), KeyAgreementProtocol::_Custom(b)) => str_eq(a.as_str(), b.as_str()),
            _ => false,
        }
    }
}

impl vstd::std_specs::cmp::PartialEqSpecImpl for KeyAgreementProtocol {
    open spec fn obeys_eq_spec() -> bool {
        true
    }

    open spec fn eq_spec(&self, other: &KeyAgreementProtocol) -> bool {
        self@ == other@
    }
}

impl Eq for KeyAgreementProtocol {}

/// A message authentication code algorithm.
#[derive(Clone, Debug)]
#[non_exhaustive]
pub enum MessageAuthenticationCode {
    /// The HKDF-HMAC-SHA256 MAC.
    HkdfHmacSha256,
    /// The second version of the HKDF-HMAC-SHA256 MAC, under its unstable name.
    HkdfHmacSha256V2,
    /// The HMAC-SHA256 MAC.
    HmacSha256,
    /// Any other wire string, kept as it came.
    _Custom(PrivOwnedStr),
}

impl View for MessageAuthenticationCode {
    type V = TokenModel;

    open spec fn view(&self) -> TokenModel {
        match self {
            MessageAuthenticationCode::HkdfHmacSha256 => TokenModel::Known(0),
            MessageAuthenticationCode::HkdfHmacSha256V2 => TokenModel::Known(1),
            MessageAuthenticationCode::HmacSha256 => TokenModel::Known(2),
            MessageAuthenticationCode::_Custom(s) => TokenModel::Custom(s@),
        }
    }
}

impl MessageAuthenticationCode {
    /// The known wire strings, in declaration order.
    pub open spec fn names() -> Seq<Seq<char>> {
        seq!["hkdf-hmac-sha256"@, "org.matrix.msc3783.hkdf-hmac-sha256"@, "hmac-sha256"@]
    }

    /// A value that can occur: a custom value never holds a known wire string.
    pub open spec fn wf(&self) -> bool {
        token_wf(Self::names(), self@)
    }

    /// The wire string of this value.
    pub fn as_str(&self) -> (r: &str)
        ensures
            r@ == serialize_token(Self::names(), self@),
    {
        match self {
            MessageAuthenticationCode::HkdfHmacSha256 => "hkdf-hmac-sha256",
            MessageAuthenticationCode::HkdfHmacSha256V2 => "org.matrix.msc3783.hkdf-hmac-sha256",
            MessageAuthenticationCode::HmacSha256 => "hmac-sha256",
            MessageAuthenticationCode::_Custom(s) => s.as_str(),
        }
    }

    /// Reads a wire string: a known variant on an exact match, else a custom
    /// value that keeps the string.
    pub fn parse(s: &str) -> (r: MessageAuthenticationCode)
        ensures
            r@ == parse_token(Self::names(), s@),
            r.wf(),
    {
        proof {
            reveal_with_fuel(parse_from, 4);
            lemma_serialize_parse(Self::names(), s@);
        }
        if str_eq(s, "hkdf-hmac-sha256") {
            MessageAuthenticationCode::HkdfHmacSha256
        } else if str_eq(s, "org.matrix.msc3783.hkdf-hmac-sha256") {
            MessageAuthenticationCode::HkdfHmacSha256V2
        } else if str_eq(s, "hmac-sha256") {
            MessageAuthenticationCode::HmacSha256
        } else {
            MessageAuthenticationCode::_Custom(PrivOwnedStr::new(s))
        }
    }

    /// No wire string is declared twice.
    pub proof fn lemma_names_distinct()
        ensures
            names_distinct(Self::names()),
    {
        reveal_strlit("hkdf-hmac-sha256");
        reveal_strlit("org.matrix.msc3783.hkdf-hmac-sha256");
        reveal_strlit("hmac-sha256");
        assert("hkdf-hmac-sha256"@.len() != "org.matrix.msc3783.hkdf-hmac-sha256"@.len());
        assert("hkdf-hmac-sha256"@.len() != "hmac-sha256"@.len());
        assert("org.matrix.msc3783.hkdf-hmac-sha256"@.len() != "hmac-sha256"@.len());
    }

    /// Parsing the wire string of a value that can occur gives the value back.
    pub proof fn lemma_round_trip(v: MessageAuthenticationCode)
        requires
            v.wf(),
        ensures
            parse_token(Self::names(), serialize_token(Self::names(), v@)) == v@,
    {
        Self::lemma_names_distinct();
        lemma_parse_serialize(Self::names(), v@);
    }
}

impl PartialEq for MessageAuthenticationCode {
    fn eq(&self, other: &MessageAuthenticationCode) -> (r: bool) {
        match (self, other) {
            (MessageAuthenticationCode::HkdfHmacSha256, MessageAuthenticationCode::HkdfHmacSha256) => true,
            (MessageAuthenticationCode::HkdfHmacSha256V2, MessageAuthenticationCode::HkdfHmacSha256V2) => true,
            (MessageAuthenticationCode::HmacSha256, MessageAuthenticationCode::HmacSha256) => true,
            (MessageAuthenticationCode::_Custom(a), MessageAuthenticationCode::_Custom(b)) => str_eq(a.as_str(), b.as_str()),
            _ => false,
        }
    }
}

impl vstd::std_specs::cmp::PartialEqSpecImpl for MessageAuthenticationCode {
    open spec fn obeys_eq_spec() -> bool {
        true
    }

    open spec fn eq_spec(&self, other: &MessageAuthenticationCode) -> bool {
        self@ == other@
    }
}

impl Eq for MessageAuthenticationCode {}

/// A Short Authentication String method.
#[derive(Clone, Debug)]
#[non_exhaustive]
pub enum ShortAuthenticationString {
    /// The decimal method.
    Decimal,
    /// The emoji method.
    Emoji,
    /// Any other wire string, kept as it came.
    _Custom(PrivOwnedStr),
}

impl View for ShortAuthenticationString {
    type V = TokenModel;

    open spec fn view(&self) -> TokenModel {
        match self {
            ShortAuthenticationString::Decimal => TokenModel::Known(0),
            ShortAuthenticationString::Emoji => TokenModel::Known(1),
            ShortAuthenticationString::_Custom(s) => TokenModel::Custom(s@),
        }
    }
}

impl ShortAuthenticationString {
    /// The known wire strings, in declaration order.
    pub open spec fn names() -> Seq<Seq<char>> {
        seq!["decimal"@, "emoji"@]
    }

    /// A value that can occur: a custom value never holds a known wire string.
    pub open spec fn wf(&self) -> bool {
        token_wf(Self::names(), self@)
    }

    /// The wire string of this value.
    pub fn as_str(&self) -> (r: &str)
        ensures
            r@ == serialize_token(Self::names(), self@),
    {
        match self {
            ShortAuthenticationString::Decimal => "decimal",
            ShortAuthenticationString::Emoji => "emoji",
            ShortAuthenticationString::_Custom(s) => s.as_str(),
        }
    }

    /// Reads a wire string: a known variant on an exact match, else a custom
    /// value that keeps the string.
    pub fn parse(s: &str) -> (r: ShortAuthenticationString)
        ensures
            r@ == parse_token(Self::names(), s@),
            r.wf(),
    {
        proof {
            reveal_with_fuel(parse_from, 3);
            lemma_serialize_parse(Self::names(), s@);
        }
        if str_eq(s, "decimal") {
            ShortAuthenticationString::Decimal
        } else if str_eq(s, "emoji") {
            ShortAuthenticationString::Emoji
        } else {
            ShortAuthenticationString::_Custom(PrivOwnedStr::new(s))
        }
    }

    /// No wire string is declared twice.
    pub proof fn lemma_names_distinct()
        ensures
            names_distinct(Self::names()),
    {
        reveal_strlit("decimal");
        reveal_strlit("emoji");
        assert("decimal"@.len() != "emoji"@.len());
    }

    /// Parsing the wire string of a value that can occur gives the value back.
    pub proof fn lemma_round_trip(v: ShortAuthenticationString)
        requires
            v.wf(),
        ensures
            parse_token(Self::names(), serialize_token(Self::names(), v@)) == v@,
    {
        Self::lemma_names_distinct();
        lemma_parse_serialize(Self::names(), v@);
    }
}

impl PartialEq for ShortAuthenticationString {
    fn eq(&self, other: &ShortAuthenticationString) -> (r: bool) {
        match (self, other) {
            (ShortAuthenticationString::Decimal, ShortAuthenticationString::Decimal) => true,
            (ShortAuthenticationString::Emoji, ShortAuthenticationString::Emoji) => true,
            (ShortAuthenticationString::_Custom(a), ShortAuthenticationString::_Custom(b)) => str_eq(a.as_str(), b.as_str()),
            _ => false,
        }
    }
}

impl vstd::std_specs::cmp::PartialEqSpecImpl for ShortAuthenticationString {
    open spec fn obeys_eq_spec() -> bool {
        true
    }

    open spec fn eq_spec(&self, other: &ShortAuthenticationString) -> bool {
        self@ == other@
    }
}

impl Eq for ShortAuthenticationString {}

/// A Short Authentication String (SAS) verification method.
#[derive(Clone, Debug)]
#[non_exhaustive]
pub enum VerificationMethod {
    /// The `m.sas.v1` verification method.
    SasV1,
    /// The `m.qr_code.scan.v1` verification method.
    QrCodeScanV1,
    /// The `m.qr_code.show.v1` verification method.
    QrCodeShowV1,
    /// The `m.reciprocate.v1` verification method.
    ReciprocateV1,
    /// Any other wire string, kept as it came.
    _Custom(PrivOwnedStr),
}

impl View for VerificationMethod {
    type V = TokenModel;

    open spec fn view(&self) -> TokenModel {
        match self {
            VerificationMethod::SasV1 => TokenModel::Known(0),
            VerificationMethod::QrCodeScanV1 => TokenModel::Known(1),
            VerificationMethod::QrCodeShowV1 => TokenModel::Known(2),
            VerificationMethod::ReciprocateV1 => TokenModel::Known(3),
            VerificationMethod::_Custom(s) => TokenModel::Custom(s@),
        }
    }
}

impl VerificationMethod {
    /// The known wire strings, in declaration order.
    pub open spec fn names() -> Seq<Seq<char>> {
        seq!["m.sas.v1"@, "m.qr_code.scan.v1"@, "m.qr_code.show.v1"@, "m.reciprocate.v1"@]
    }

    /// A value that can occur: a custom value never holds a known wire string.
    pub open spec fn wf(&self) -> bool {
        token_wf(Self::names(), self@)
    }

    /// The wire string of this value.
    pub fn as_str(&self) -> (r: &str)
        ensures
            r@ == serialize_token(Self::names(), self@),
    {
        match self {
            VerificationMethod::SasV1 => "m.sas.v1",
            VerificationMethod::QrCodeScanV1 => "m.qr_code.scan.v1",
            VerificationMethod::QrCodeShowV1 => "m.qr_code.show.v1",
            VerificationMethod::ReciprocateV1 => "m.reciprocate.v1",
            VerificationMethod::_Custom(s) => s.as_str(),
        }
    }

    /// Reads a wire string: a known variant on an exact match, else a custom
    /// value that keeps the string.
    pub fn parse(s: &str) -> (r: VerificationMethod)
        ensures
            r@ == parse_token(Self::names(), s@),
            r.wf(),
    {
        proof {
            reveal_with_fuel(parse_from, 5);
            lemma_serialize_parse(Self::names(), s@);
        }
        if str_eq(s, "m.sas.v1") {
            VerificationMethod::SasV1
        } else if str_eq(s, "m.qr_code.scan.v1") {
            VerificationMethod::QrCodeScanV1
        } else if str_eq(s, "m.qr_code.show.v1") {
            VerificationMethod::QrCodeShowV1
        } else if str_eq(s, "m.reciprocate.v1") {
            VerificationMethod::ReciprocateV1
        } else {
            VerificationMethod::_Custom(PrivOwnedStr::new(s))
        }
    }

    /// No wire string is declared twice.
    pub proof fn lemma_names_distinct()
        ensures
            names_distinct(Self::names()),
    {
        reveal_strlit("m.sas.v1");
        reveal_strlit("m.qr_code.scan.v1");
        reveal_strlit("m.qr_code.show.v1");
        reveal_strlit("m.reciprocate.v1");
        assert("m.sas.v1"@.len() != "m.qr_code.scan.v1"@.len());
        assert("m.sas.v1"@.len() != "m.qr_code.show.v1"@.len());
        assert("m.sas.v1"@.len() != "m.reciprocate.v1"@.len());
        assert("m.qr_code.scan.v1"@[11] != "m.qr_code.show.v1"@[11]);
        assert("m.qr_code.scan.v1"@.len() != "m.reciprocate.v1"@.len());
        assert("m.qr_code.show.v1"@.len() != "m.reciprocate.v1"@.len());
    }

    /// Parsing the wire string of a value that can occur gives the value back.
    pub proof fn lemma_round_trip(v: VerificationMethod)
        requires
            v.wf(),
        ensures
            parse_token(Self::names(), serialize_token(Self::names(), v@)) == v@,
    {
        Self::lemma_names_distinct();
        lemma_parse_serialize(Self::names(), v@);
    }
}

impl PartialEq for VerificationMethod {
    fn eq(&self, other: &VerificationMethod) -> (r: bool) {
        match (self, other) {
            (VerificationMethod::SasV1, VerificationMethod::SasV1) => true,
            (VerificationMethod::QrCodeScanV1, VerificationMethod::QrCodeScanV1) => true,
            (VerificationMethod::QrCodeShowV1, VerificationMethod::QrCodeShowV1) => true,
            (VerificationMethod::ReciprocateV1, VerificationMethod::ReciprocateV1) => true,
            (VerificationMethod::_Custom(a), VerificationMethod::_Custom(b)) => str_eq(a.as_str(), b.as_str()),
            _ => false,
        }
    }
}

impl vstd::std_specs::cmp::PartialEqSpecImpl for VerificationMethod {
    open spec fn obeys_eq_spec() -> bool {
        true
    }

    open spec fn eq_spec(&self, other: &VerificationMethod) -> bool {
        self@ == other@
    }
}

impl Eq for VerificationMethod {}

} // verus!
