//! Identities: 128-bit UUIDs and their textual form.
use crate::memory::{AgentId, ErrorView, MemoryId, MenteError, SpaceId};
use crate::text::ascii_lowercase;
use vstd::prelude::*;

verus! {

// ---------------------------------------------------------------------------
// Hexadecimal numbers
// ---------------------------------------------------------------------------
/// The lower-case digit for a value below 16.
pub open spec fn hex_digit(d: int) -> char {
    if d < 10 {
        (d + '0' as int) as char
    } else {
        (d - 10 + 'a' as int) as char
    }
}

/// The value of a digit in either case.
pub open spec fn hex_value(c: char) -> Option<int> {
    if '0' <= c <= '9' {
        Some(c as int - '0' as int)
    } else if 'a' <= c <= 'f' {
        Some(c as int - 'a' as int + 10)
    } else if 'A' <= c <= 'F' {
        Some(c as int - 'A' as int + 10)
    } else {
        None
    }
}

/// The `k` lowest digits of a number, the highest one first.
pub open spec fn hex_text(n: int, k: nat) -> Seq<char>
    decreases k,
{
    if k == 0 {
        Seq::empty()
    } else {
        hex_text(n / 16, (k - 1) as nat).push(hex_digit(n % 16))
    }
}

/// The number that a text of digits stands for.
pub open spec fn hex_number(s: Seq<char>) -> Option<int>
    decreases s.len(),
{
    if s.len() == 0 {
        Some(0)
    } else {
        match (hex_number(s.drop_last()), hex_value(s.last())) {
            (Some(high), Some(low)) => Some(high * 16 + low),
            _ => None,
        }
    }
}

/// 16 to the power `k`.
pub open spec fn hex_limit(k: nat) -> int
    decreases k,
{
    if k == 0 {
        1
    } else {
        16 * hex_limit((k - 1) as nat)
    }
}

proof fn lemma_hex_round_trip(n: int, k: nat)
    requires
        0 <= n < hex_limit(k),
    ensures
        hex_text(n, k).len() == k,
        hex_number(hex_text(n, k)) == Some(n),
    decreases k,
{
    if k > 0 {
        lemma_hex_round_trip(n / 16, (k - 1) as nat);
        let s = hex_text(n, k);
        assert(s.drop_last() =~= hex_text(n / 16, (k - 1) as nat));
        assert(hex_value(hex_digit(n % 16)) == Some(n % 16));
        assert(s.last() == hex_digit(n % 16));
    }
}

// ---------------------------------------------------------------------------
// UUIDs
// ---------------------------------------------------------------------------
/// 32 digits in groups of 8, 4, 4, 4 and 12, with a hyphen between groups.
pub open spec fn with_hyphens(h: Seq<char>) -> Seq<char> {
    h.subrange(0, 8) + seq!['-'] + h.subrange(8, 12) + seq!['-'] + h.subrange(12, 16) + seq!['-']
        + h.subrange(16, 20) + seq!['-'] + h.subrange(20, 32)
}

/// The 32 digits of a text with hyphens between its groups.
pub open spec fn without_hyphens(s: Seq<char>) -> Seq<char> {
    s.subrange(0, 8) + s.subrange(9, 13) + s.subrange(14, 18) + s.subrange(19, 23) + s.subrange(
        24,
        36,
    )
}

/// The value of a UUID in the hyphenated form.
pub open spec fn hyphenated_value(s: Seq<char>) -> Option<int> {
    if s.len() == 36 && s[8] == '-' && s[13] == '-' && s[18] == '-' && s[23] == '-' {
        hex_number(without_hyphens(s))
    } else {
        None
    }
}

/// The value of a UUID in one of its four forms: 32 digits, hyphenated,
/// hyphenated in braces, and hyphenated after `urn:uuid:`.
pub open spec fn uuid_value(s: Seq<char>) -> Option<int> {
    if s.len() == 32 {
        hex_number(s)
    } else if s.len() == 36 {
        hyphenated_value(s)
    } else if s.len() == 38 && s[0] == '{' && s[37] == '}' {
        hyphenated_value(s.subrange(1, 37))
    } else if s.len() == 45 && ascii_lowercase(s.take(9)) == "urn:uuid:"@ {
        hyphenated_value(s.skip(9))
    } else {
        None
    }
}

/// The hyphenated form of a UUID, in lower case.
pub open spec fn uuid_text(value: u128) -> Seq<char> {
    with_hyphens(hex_text(value as int, 32))
}

/// The message of the error that `uuid::Uuid::parse_str` gives for a text that
/// is no UUID.
pub uninterp spec fn uuid_error(s: Seq<char>) -> Seq<char>;

/// `uuid::Uuid::parse_str` gives the value of a text in one of the four forms
/// of a UUID, and an error for any other text; the error's message is named.
#[verifier::external_body]
fn parse_uuid(s: &str) -> (res: Result<u128, String>)
    ensures
        match res {
            Ok(value) => uuid_value(s@) == Some(value as int),
            Err(message) => uuid_value(s@) is None && message@ == uuid_error(s@),
        },
{
    match uuid::Uuid::parse_str(s) {
        Ok(id) => Ok(id.as_u128()),
        Err(e) => Err(e.to_string()),
    }
}

/// `uuid::Uuid`'s `to_string` gives the hyphenated form in lower case.
#[verifier::external_body]
fn format_uuid(value: u128) -> (res: String)
    ensures
        res@ == uuid_text(value),
{
    uuid::Uuid::from_u128(value).to_string()
}

/// `uuid::Uuid::new_v4` gives a random value with the version digit 4 and the
/// variant bits 10; nothing else is fixed.
#[verifier::external_body]
fn random_uuid() -> (res: u128)
    ensures
        res as int / 0x1000_0000_0000_0000_0000 % 16 == 4,
        res as int / 0x4000_0000_0000_0000 % 4 == 2,
{
    uuid::Uuid::new_v4().as_u128()
}

/// What `uuid_text` writes is read back as the same value.
pub proof fn law_uuid_round_trip(value: u128)
    ensures
        uuid_text(value).len() == 36,
        uuid_value(uuid_text(value)) == Some(value as int),
{
    let h = hex_text(value as int, 32);
    assert(hex_limit(32) == 0x1_0000_0000_0000_0000_0000_0000_0000_0000int) by {
        reveal_with_fuel(hex_limit, 33);
    }
    lemma_hex_round_trip(value as int, 32);
    let s = uuid_text(value);
    assert(without_hyphens(s) =~= h);
}

/// Two identities have the same text only if they are the same.
pub proof fn law_uuid_text_injective(a: u128, b: u128)
    requires
        uuid_text(a) == uuid_text(b),
    ensures
        a == b,
{
    law_uuid_round_trip(a);
    law_uuid_round_trip(b);
}

/// Identities that are UUIDs.
pub trait UuidId: Sized {
    /// The 128 bits of the identity.
    spec fn bits(self) -> u128;

    /// The identity with the given bits.
    fn from_value(value: u128) -> (res: Self)
        ensures
            res.bits() == value,
    ;

    /// The bits of this identity.
    fn to_value(&self) -> (res: u128)
        ensures
            res == self.bits(),
    ;
}

impl UuidId for MemoryId {
    open spec fn bits(self) -> u128 {
        self.value
    }

    fn from_value(value: u128) -> (res: Self) {
        MemoryId { value }
    }

    fn to_value(&self) -> (res: u128) {
        self.value
    }
}

impl UuidId for AgentId {
    open spec fn bits(self) -> u128 {
        self.value
    }

    fn from_value(value: u128) -> (res: Self) {
        AgentId { value }
    }

    fn to_value(&self) -> (res: u128) {
        self.value
    }
}

impl UuidId for SpaceId {
    open spec fn bits(self) -> u128 {
        self.value
    }

    fn from_value(value: u128) -> (res: Self) {
        SpaceId { value }
    }

    fn to_value(&self) -> (res: u128) {
        self.value
    }
}

/// Reads an identity from its text. A text that is no UUID is an error of the
/// storage.
pub fn parse_id<I: UuidId>(s: &str) -> (res: Result<I, MenteError>)
    ensures
        match res {
            Ok(id) => uuid_value(s@) == Some(id.bits() as int),
            Err(e) => uuid_value(s@) is None && e@ == ErrorView::Storage(uuid_error(s@)),
        },
{
    match parse_uuid(s) {
        Ok(value) => Ok(I::from_value(value)),
        Err(message) => Err(MenteError::Storage(message)),
    }
}

/// The bits that a stored text stands for, 0 where it is no UUID.
pub open spec fn id_or_nil(s: Seq<char>) -> int {
    match uuid_value(s) {
        Some(v) => v,
        None => 0,
    }
}

/// Reads an identity from its text; a text that is no UUID gives the nil
/// identity.
pub fn parse_id_or_nil<I: UuidId>(s: &str) -> (res: I)
    ensures
        res.bits() == id_or_nil(s@),
{
    match parse_id::<I>(s) {
        Ok(id) => id,
        Err(_) => I::from_value(0),
    }
}

/// Reads an optional identity; what is absent or no UUID gives none.
pub fn parse_optional_memory_id(value: &Option<String>) -> (res: Option<MemoryId>)
    ensures
        match res {
            Some(id) => value is Some && uuid_value(value->0@) == Some(id.value as int),
            None => value is None || uuid_value(value->0@) is None,
        },
{
    match value {
        Some(s) => match parse_id::<MemoryId>(s.as_str()) {
            Ok(id) => Some(id),
            Err(_) => None,
        },
        None => None,
    }
}

/// The text of an identity.
pub fn id_text<I: UuidId>(id: &I) -> (res: String)
    ensures
        res@ == uuid_text(id.bits()),
{
    format_uuid(id.to_value())
}

/// The text of an optional identity.
pub open spec fn opt_id_text(id: Option<MemoryId>) -> Option<Seq<char>> {
    match id {
        Some(i) => Some(uuid_text(i.value)),
        None => None,
    }
}

/// Whether a value has the version and the variant of a random UUID.
pub open spec fn is_random_uuid(value: u128) -> bool {
    &&& value as int / 0x1000_0000_0000_0000_0000 % 16 == 4
    &&& value as int / 0x4000_0000_0000_0000 % 4 == 2
}

/// Whether a text is the form of a random UUID.
pub open spec fn is_fresh_text(s: Seq<char>) -> bool {
    exists|v: u128| is_random_uuid(v) && s == #[trigger] uuid_text(v)
}

/// A fresh identity in its textual form.
pub fn fresh_text() -> (res: String)
    ensures
        is_fresh_text(res@),
{
    let value: u128 = random_uuid();
    let res = format_uuid(value);
    assert(is_random_uuid(value) && res@ == uuid_text(value));
    res
}

impl MemoryId {
    /// A fresh identity.
    pub fn new() -> (res: MemoryId)
        ensures
            is_random_uuid(res.value),
    {
        MemoryId { value: random_uuid() }
    }

    /// The identity whose bits are all 0.
    pub fn nil() -> (res: MemoryId)
        ensures
            res.value == 0,
    {
        MemoryId { value: 0 }
    }
}

impl AgentId {
    /// A fresh identity.
    pub fn new() -> (res: AgentId)
        ensures
            is_random_uuid(res.value),
    {
        AgentId { value: random_uuid() }
    }

    /// The identity whose bits are all 0.
    pub fn nil() -> (res: AgentId)
        ensures
            res.value == 0,
    {
        AgentId { value: 0 }
    }
}

impl SpaceId {
    /// The identity whose bits are all 0.
    pub fn nil() -> (res: SpaceId)
        ensures
            res.value == 0,
    {
        SpaceId { value: 0 }
    }
}

} // verus!
