//! Versions, checksums and the identifiers built from them, with their
//! canonical texts `vX.Y.Z` and `vX.Y.Z-<64 hex digits>`.
use vstd::prelude::*;

use crate::text::{
    chars_of, decimal_text, decode_hex, encode_hex, free_of, hex_bytes, hex_text, is_digit,
    is_hex_text, is_u32_text, lemma_digits_free_of, lemma_hex_round_trip, lemma_split_join,
    lemma_split_single, lemma_u32_text_round_trip, parse_u32, push_char, push_decimal,
    split_chars, split_pieces, texts, u32_text_value,
};

pub mod error;

use self::error::{IdError, VersionError};

verus! {

/// Number of bytes in a checksum: the output size of SHA-256.
pub const CHECKSUM_LEN: usize = 32;

/// Number of characters in a checksum's hex text.
pub const CHECKSUM_HEX_LEN: usize = 64;

/// A checksum as bytes.
#[derive(Debug)]
pub struct Checksum(pub Vec<u8>);

impl View for Checksum {
    type V = Seq<u8>;

    open spec fn view(&self) -> Seq<u8> {
        self.0@
    }
}

impl Clone for Checksum {
    fn clone(&self) -> (r: Self)
        ensures
            r@ == self@,
    {
        Checksum(self.0.clone())
    }
}

impl PartialEq for Checksum {
    fn eq(&self, other: &Self) -> (r: bool) {
        let r = self.0 == other.0;
        proof {
            if self@.len() == other@.len() && (forall|i: int|
                #![auto]
                0 <= i < self@.len() ==> self.0[i] == other.0[i]) {
                assert(self@ =~= other@);
            }
        }
        r
    }
}

impl vstd::std_specs::cmp::PartialEqSpecImpl for Checksum {
    open spec fn obeys_eq_spec() -> bool {
        true
    }

    open spec fn eq_spec(&self, other: &Checksum) -> bool {
        self@ == other@
    }
}

impl Eq for Checksum {}

impl Checksum {
    /// The checksum's lowercase hex text.
    pub fn to_string(&self) -> (r: String)
        ensures
            r@ == hex_text(self@),
    {
        encode_hex(&self.0)
    }
}

/// A version for the data included.
#[derive(Debug, Clone, Copy, PartialEq, Eq, Structural)]
pub struct Version {
    /// The major version.
    pub major: u32,
    /// The minor version.
    pub minor: u32,
    /// The patch version.
    pub patch: u32,
}

/// The canonical text of a version: `v{major}.{minor}.{patch}`.
pub open spec fn version_text(v: Version) -> Seq<char> {
    seq!['v'] + decimal_text(v.major as nat) + seq!['.'] + decimal_text(v.minor as nat) + seq!['.']
        + decimal_text(v.patch as nat)
}

pub open spec fn starts_with_v(s: Seq<char>) -> bool {
    s.len() > 0 && s[0] == 'v'
}

/// The pieces between dots after a version text's leading `v`.
pub open spec fn version_pieces(s: Seq<char>) -> Seq<Seq<char>> {
    split_pieces(s.drop_first(), '.')
}

/// `s` starts with `v` and has exactly three pieces between dots.
pub open spec fn has_version_shape(s: Seq<char>) -> bool {
    starts_with_v(s) && version_pieces(s).len() == 3
}

/// The version that `s` denotes, if any.
pub open spec fn version_of(s: Seq<char>) -> Option<Version> {
    let p = version_pieces(s);
    if has_version_shape(s) && is_u32_text(p[0]) && is_u32_text(p[1]) && is_u32_text(p[2]) {
        Some(
            Version {
                major: u32_text_value(p[0]) as u32,
                minor: u32_text_value(p[1]) as u32,
                patch: u32_text_value(p[2]) as u32,
            },
        )
    } else {
        None
    }
}

/// `r` is what parsing `s` as a version gives: the version it denotes, else
/// `UnusualVersion` when its shape is wrong, else `ParseInt`.
pub open spec fn is_version_parse(s: Seq<char>, r: Result<Version, VersionError>) -> bool {
    match r {
        Ok(v) => version_of(s) == Some(v),
        Err(VersionError::UnusualVersion) => !has_version_shape(s),
        Err(VersionError::ParseInt(_)) => has_version_shape(s) && version_of(s) is None,
    }
}

fn parse_version(value: &str) -> (r: Result<Version, VersionError>)
    ensures
        is_version_parse(value@, r),
{
    let chars = chars_of(value);
    if chars.len() == 0 || chars[0] != 'v' {
        return Err(VersionError::UnusualVersion);
    }
    let parts = split_chars(&chars, 1, '.');
    assert(chars@.subrange(1, chars@.len() as int) =~= value@.drop_first());
    if parts.len() != 3 {
        return Err(VersionError::UnusualVersion);
    }
    assert(texts(parts@)[0] == parts@[0]@);
    assert(texts(parts@)[1] == parts@[1]@);
    assert(texts(parts@)[2] == parts@[2]@);
    let major = match parse_u32(parts[0].as_str()) {
        Ok(n) => n,
        Err(e) => return Err(VersionError::ParseInt(e)),
    };
    let minor = match parse_u32(parts[1].as_str()) {
        Ok(n) => n,
        Err(e) => return Err(VersionError::ParseInt(e)),
    };
    let patch = match parse_u32(parts[2].as_str()) {
        Ok(n) => n,
        Err(e) => return Err(VersionError::ParseInt(e)),
    };
    Ok(Version { major, minor, patch })
}

impl TryFrom<String> for Version {
    type Error = VersionError;

    fn try_from(value: String) -> (r: Result<Self, Self::Error>)
        ensures
            is_version_parse(value@, r),
    {
        parse_version(value.as_str())
    }
}

impl vstd::std_specs::convert::TryFromSpecImpl<String> for Version {
    // The contract is stated on `try_from` itself: its error carries a
    // `ParseIntError`, which has no value in specifications.
    open spec fn obeys_try_from_spec() -> bool {
        false
    }

    open spec fn try_from_spec(v: String) -> Result<Self, Self::Error> {
        vstd::pervasive::arbitrary()
    }
}

impl<'a> TryFrom<&'a str> for Version {
    type Error = VersionError;

    fn try_from(value: &'a str) -> (r: Result<Self, Self::Error>)
        ensures
            is_version_parse(value@, r),
    {
        parse_version(value)
    }
}

impl<'a> vstd::std_specs::convert::TryFromSpecImpl<&'a str> for Version {
    // As for `String`: the contract is stated on `try_from`.
    open spec fn obeys_try_from_spec() -> bool {
        false
    }

    open spec fn try_from_spec(v: &'a str) -> Result<Self, Self::Error> {
        vstd::pervasive::arbitrary()
    }
}

impl Version {
    /// The canonical text `v{major}.{minor}.{patch}`.
    pub fn to_string(&self) -> (r: String)
        ensures
            r@ == version_text(*self),
    {
        let mut s = String::new();
        push_char(&mut s, 'v');
        push_decimal(&mut s, self.major);
        push_char(&mut s, '.');
        push_decimal(&mut s, self.minor);
        push_char(&mut s, '.');
        push_decimal(&mut s, self.patch);
        assert(s@ =~= version_text(*self));
        s
    }
}

pub proof fn lemma_free_of_concat(x: Seq<char>, y: Seq<char>, c: char)
    requires
        free_of(x, c),
        free_of(y, c),
    ensures
        free_of(x + y, c),
{
    assert forall|i: int| 0 <= i < (x + y).len() implies #[trigger] (x + y)[i] != c by {
        if i >= x.len() {
            assert((x + y)[i] == y[i - x.len()]);
        }
    }
}

/// Parsing the canonical text of a version gives back that version.
pub proof fn lemma_version_round_trip(v: Version)
    ensures
        version_of(version_text(v)) == Some(v),
        starts_with_v(version_text(v)),
        free_of(version_text(v), '-'),
{
    let a = decimal_text(v.major as nat);
    let b = decimal_text(v.minor as nat);
    let c = decimal_text(v.patch as nat);
    lemma_u32_text_round_trip(v.major);
    lemma_u32_text_round_trip(v.minor);
    lemma_u32_text_round_trip(v.patch);
    assert(!is_digit('.') && !is_digit('-') && !is_digit('v'));
    lemma_digits_free_of(a, '.');
    lemma_digits_free_of(b, '.');
    lemma_digits_free_of(c, '.');
    lemma_digits_free_of(a, '-');
    lemma_digits_free_of(b, '-');
    lemma_digits_free_of(c, '-');
    let s = version_text(v);
    let ab = a + seq!['.'] + b;
    assert(s.drop_first() =~= ab + seq!['.'] + c);
    lemma_split_single(a, '.');
    lemma_split_join(a, b, '.');
    lemma_split_join(ab, c, '.');
    assert(split_pieces(s.drop_first(), '.') =~= seq![a, b, c]);
    assert(version_pieces(s) =~= seq![a, b, c]);
    let dot: Seq<char> = seq!['.'];
    let vee: Seq<char> = seq!['v'];
    assert(free_of(dot, '-'));
    assert(free_of(vee, '-'));
    lemma_free_of_concat(vee, a, '-');
    lemma_free_of_concat(vee + a, dot, '-');
    lemma_free_of_concat(vee + a + dot, b, '-');
    lemma_free_of_concat(vee + a + dot + b, dot, '-');
    lemma_free_of_concat(vee + a + dot + b + dot, c, '-');
}

/// Lifecycle status of a release.
#[derive(Debug, Clone, Copy, PartialEq, Eq, Structural)]
pub enum Status {
    Released,
    Yanked,
}

/// The value of an identifier: a version and the checksum's bytes.
pub struct IdView {
    pub version: Version,
    pub checksum: Seq<u8>,
}

/// The Id of checksum data.
#[derive(Debug)]
pub struct Id {
    /// The version of the data.
    pub version: Version,
    /// The SHA-256 checksum of the data.
    pub checksum: Checksum,
}

impl View for Id {
    type V = IdView;

    open spec fn view(&self) -> IdView {
        IdView { version: self.version, checksum: self.checksum@ }
    }
}

impl Clone for Id {
    fn clone(&self) -> (r: Self)
        ensures
            r@ == self@,
    {
        Id { version: self.version, checksum: self.checksum.clone() }
    }
}

impl PartialEq for Id {
    fn eq(&self, other: &Self) -> (r: bool) {
        self.version == other.version && self.checksum == other.checksum
    }
}

impl vstd::std_specs::cmp::PartialEqSpecImpl for Id {
    open spec fn obeys_eq_spec() -> bool {
        true
    }

    open spec fn eq_spec(&self, other: &Id) -> bool {
        self@ == other@
    }
}

impl Eq for Id {}

/// The canonical text of an identifier: `{version}-{checksum hex}`.
pub open spec fn id_text(i: IdView) -> Seq<char> {
    version_text(i.version) + seq!['-'] + hex_text(i.checksum)
}

/// The pieces of an identifier text around `-`.
pub open spec fn id_pieces(s: Seq<char>) -> Seq<Seq<char>> {
    split_pieces(s, '-')
}

/// The identifier that `s` denotes, if any.
pub open spec fn id_of(s: Seq<char>) -> Option<IdView> {
    let p = id_pieces(s);
    if p.len() == 2 && starts_with_v(p[0]) && p[1].len() == CHECKSUM_HEX_LEN && version_of(
        p[0],
    ) is Some && is_hex_text(p[1]) {
        Some(IdView { version: version_of(p[0]).unwrap(), checksum: hex_bytes(p[1]) })
    } else {
        None
    }
}

/// `r` is what parsing `s` as an identifier gives. The checks come in this
/// order: two pieces, the `v`, the checksum's length, the version, the hex.
pub open spec fn is_id_parse(s: Seq<char>, r: Result<Id, IdError>) -> bool {
    let p = id_pieces(s);
    match r {
        Ok(id) => id_of(s) == Some(id@),
        Err(IdError::UnusualId) => p.len() != 2,
        Err(IdError::MissingVPrefix) => p.len() == 2 && !starts_with_v(p[0]),
        Err(IdError::HashLen) => p.len() == 2 && starts_with_v(p[0]) && p[1].len()
            != CHECKSUM_HEX_LEN,
        Err(IdError::Version(e)) => p.len() == 2 && starts_with_v(p[0]) && p[1].len()
            == CHECKSUM_HEX_LEN && is_version_parse(p[0], Err(e)),
        Err(IdError::FromHexError(_)) => p.len() == 2 && starts_with_v(p[0]) && p[1].len()
            == CHECKSUM_HEX_LEN && version_of(p[0]) is Some && !is_hex_text(p[1]),
    }
}

fn parse_id(value: &str) -> (r: Result<Id, IdError>)
    ensures
        is_id_parse(value@, r),
{
    let chars = chars_of(value);
    let parts = split_chars(&chars, 0, '-');
    assert(chars@.subrange(0, chars@.len() as int) =~= value@);
    if parts.len() != 2 {
        return Err(IdError::UnusualId);
    }
    assert(texts(parts@)[0] == parts@[0]@);
    assert(texts(parts@)[1] == parts@[1]@);
    let version_chars = chars_of(parts[0].as_str());
    if version_chars.len() == 0 || version_chars[0] != 'v' {
        return Err(IdError::MissingVPrefix);
    }
    let checksum_chars = chars_of(parts[1].as_str());
    if checksum_chars.len() != CHECKSUM_HEX_LEN {
        return Err(IdError::HashLen);
    }
    let version = match parse_version(parts[0].as_str()) {
        Ok(v) => v,
        Err(e) => return Err(IdError::Version(e)),
    };
    let bytes = match decode_hex(parts[1].as_str()) {
        Ok(b) => b,
        Err(e) => return Err(IdError::FromHexError(e)),
    };
    Ok(Id { version, checksum: Checksum(bytes) })
}

impl TryFrom<String> for Id {
    type Error = IdError;

    fn try_from(value: String) -> (r: Result<Self, Self::Error>)
        ensures
            is_id_parse(value@, r),
    {
        parse_id(value.as_str())
    }
}

impl vstd::std_specs::convert::TryFromSpecImpl<String> for Id {
    // The contract is stated on `try_from` itself: its error may carry a
    // `ParseIntError` or a `FromHexError`, which have no value in specifications.
    open spec fn obeys_try_from_spec() -> bool {
        false
    }

    open spec fn try_from_spec(v: String) -> Result<Self, Self::Error> {
        vstd::pervasive::arbitrary()
    }
}

impl<'a> TryFrom<&'a str> for Id {
    type Error = IdError;

    fn try_from(value: &'a str) -> (r: Result<Self, Self::Error>)
        ensures
            is_id_parse(value@, r),
    {
        parse_id(value)
    }
}

impl<'a> vstd::std_specs::convert::TryFromSpecImpl<&'a str> for Id {
    // As for `String`: the contract is stated on `try_from`.
    open spec fn obeys_try_from_spec() -> bool {
        false
    }

    open spec fn try_from_spec(v: &'a str) -> Result<Self, Self::Error> {
        vstd::pervasive::arbitrary()
    }
}

impl Id {
    #[must_use]
    pub fn new(version: Version, checksum: Checksum) -> (r: Self)
        ensures
            r@ == (IdView { version, checksum: checksum@ }),
    {
        Self { version, checksum }
    }

    /// The canonical text `{version}-{checksum hex}`.
    pub fn to_string(&self) -> (r: String)
        ensures
            r@ == id_text(self@),
    {
        let mut s = self.version.to_string();
        push_char(&mut s, '-');
        let checksum = self.checksum.to_string();
        s.append(checksum.as_str());
        s
    }
}

/// Parsing the canonical text of an identifier with a 32-byte checksum gives
/// back that identifier.
pub proof fn lemma_id_round_trip(i: IdView)
    requires
        i.checksum.len() == CHECKSUM_LEN,
    ensures
        id_of(id_text(i)) == Some(i),
{
    let vt = version_text(i.version);
    let ht = hex_text(i.checksum);
    lemma_version_round_trip(i.version);
    lemma_hex_round_trip(i.checksum);
    lemma_split_single(vt, '-');
    lemma_split_join(vt, ht, '-');
    let t = id_text(i);
    assert(t == vt + seq!['-'] + ht);
    let p = id_pieces(t);
    assert(p == split_pieces(vt, '-').push(ht));
    assert(p =~= seq![vt, ht]);
    assert(p[0] == vt && p[1] == ht);
    assert(ht.len() == CHECKSUM_HEX_LEN);
}

/// A release identifier with its status.
pub struct IdStatusView {
    pub id: IdView,
    pub status: Status,
}

/// An identifier together with its release status.
#[derive(Debug)]
pub struct IdStatus {
    pub id: Id,
    pub status: Status,
}

impl View for IdStatus {
    type V = IdStatusView;

    open spec fn view(&self) -> IdStatusView {
        IdStatusView { id: self.id@, status: self.status }
    }
}

impl Clone for IdStatus {
    fn clone(&self) -> (r: Self)
        ensures
            r@ == self@,
    {
        IdStatus { id: self.id.clone(), status: self.status }
    }
}

impl PartialEq for IdStatus {
    fn eq(&self, other: &Self) -> (r: bool) {
        self.id == other.id && self.status == other.status
    }
}

impl vstd::std_specs::cmp::PartialEqSpecImpl for IdStatus {
    open spec fn obeys_eq_spec() -> bool {
        true
    }

    open spec fn eq_spec(&self, other: &IdStatus) -> bool {
        self@ == other@
    }
}

impl Eq for IdStatus {}

} // verus!
