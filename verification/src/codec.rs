//! How memories and edges stand in the tables: the columns of a row, and back.
use crate::float::Single;
use crate::ids::{id_or_nil, id_text, parse_id_or_nil, uuid_text};
use crate::json::{json_kind, parse_kind, JsonKind};
use crate::memory::{
    AgentId, EdgeType, EdgeView, ErrorView, MemoryEdge, MemoryId, MemoryNode, MemoryType,
    MemoryView, MenteError, SpaceId, Timestamp,
};
use crate::text::{copy_opt, copy_text, opt_view, text_eq, views};
use vstd::prelude::*;

verus! {

// ---------------------------------------------------------------------------
// Numbers
// ---------------------------------------------------------------------------
/// The signed 64-bit number with the same bits as a timestamp.
pub open spec fn signed_bits(t: Timestamp) -> int {
    if t < 0x8000_0000_0000_0000 {
        t as int
    } else {
        t - 0x1_0000_0000_0000_0000
    }
}

/// The timestamp with the same bits as a signed 64-bit number.
pub open spec fn unsigned_bits(v: i64) -> int {
    if v >= 0 {
        v as int
    } else {
        v + 0x1_0000_0000_0000_0000
    }
}

/// The column value of a timestamp.
pub fn time_to_column(t: Timestamp) -> (res: i64)
    ensures
        res == signed_bits(t),
{
    if t < 0x8000_0000_0000_0000 {
        t as i64
    } else {
        -((0xffff_ffff_ffff_ffff - t) as i64) - 1
    }
}

/// The timestamp of a column value.
pub fn time_from_column(v: i64) -> (res: Timestamp)
    ensures
        res == unsigned_bits(v),
{
    if v >= 0 {
        v as u64
    } else {
        0xffff_ffff_ffff_ffff - ((-(v + 1)) as u64)
    }
}

pub open spec fn opt_signed(t: Option<Timestamp>) -> Option<i64> {
    match t {
        Some(x) => Some(signed_bits(x) as i64),
        None => None,
    }
}

pub open spec fn opt_unsigned(v: Option<i64>) -> Option<Timestamp> {
    match v {
        Some(x) => Some(unsigned_bits(x) as u64),
        None => None,
    }
}

/// The column value of an optional timestamp.
pub fn opt_time_to_column(t: Option<Timestamp>) -> (res: Option<i64>)
    ensures
        res == opt_signed(t),
{
    match t {
        Some(x) => Some(time_to_column(x)),
        None => None,
    }
}

/// The optional timestamp of a column value.
pub fn opt_time_from_column(v: Option<i64>) -> (res: Option<Timestamp>)
    ensures
        res == opt_unsigned(v),
{
    match v {
        Some(x) => Some(time_from_column(x)),
        None => None,
    }
}

/// A timestamp survives its column.
pub proof fn law_time_round_trip(t: Timestamp, o: Option<Timestamp>)
    ensures
        unsigned_bits(signed_bits(t) as i64) == t,
        opt_unsigned(opt_signed(o)) == o,
{
}

/// A count in the signed width that the tables use; one that does not fit is an
/// error.
pub fn usize_to_i64(value: usize) -> (res: Result<i64, MenteError>)
    ensures
        match res {
            Ok(v) => v == value,
            Err(e) => value > i64::MAX && e@ == ErrorView::Storage(
                "out of range integral type conversion attempted"@,
            ),
        },
{
    if value as u64 <= i64::MAX as u64 {
        Ok(value as i64)
    } else {
        Err(MenteError::Storage(copy_text("out of range integral type conversion attempted")))
    }
}

// ---------------------------------------------------------------------------
// Decimal numbers
// ---------------------------------------------------------------------------
/// The digit for a value below 10.
pub open spec fn digit_char(d: int) -> char {
    (d + '0' as int) as char
}

/// The decimal text of a number.
pub open spec fn decimal_text(n: nat) -> Seq<char>
    decreases n,
{
    if n < 10 {
        seq![digit_char(n as int)]
    } else {
        decimal_text(n / 10).push(digit_char((n % 10) as int))
    }
}

/// The number that a text of digits stands for.
pub open spec fn decimal_number(s: Seq<char>) -> Option<nat>
    decreases s.len(),
{
    if s.len() == 0 {
        Some(0)
    } else {
        match decimal_number(s.drop_last()) {
            Some(high) => if '0' <= s.last() <= '9' {
                Some(high * 10 + (s.last() as nat - '0' as nat) as nat)
            } else {
                None
            },
            None => None,
        }
    }
}

/// The count that a text stands for: digits, at least one, after an optional
/// plus sign; the number must fit.
pub open spec fn count_of(s: Seq<char>) -> Option<nat> {
    let digits = if s.len() > 0 && s[0] == '+' {
        s.drop_first()
    } else {
        s
    };
    if digits.len() == 0 {
        None
    } else {
        match decimal_number(digits) {
            Some(n) => if n <= usize::MAX {
                Some(n)
            } else {
                None
            },
            None => None,
        }
    }
}

proof fn lemma_decimal_digits(n: nat)
    ensures
        decimal_text(n).len() > 0,
        '0' <= decimal_text(n)[0] <= '9',
        decimal_number(decimal_text(n)) == Some(n),
    decreases n,
{
    if n < 10 {
        let s = seq![digit_char(n as int)];
        assert(s.drop_last() =~= Seq::empty());
        assert(decimal_number(s.drop_last()) == Some(0nat));
    } else {
        lemma_decimal_digits(n / 10);
        let s = decimal_text(n);
        assert(s.drop_last() =~= decimal_text(n / 10));
    }
}

/// A count survives its decimal text.
pub proof fn law_count_round_trip(n: usize)
    ensures
        count_of(decimal_text(n as nat)) == Some(n as nat),
{
    lemma_decimal_digits(n as nat);
}

proof fn lemma_decimal_large(s: Seq<char>, n: int)
    requires
        0 <= n <= s.len(),
        decimal_number(s.take(n)) is None || decimal_number(s.take(n))->0 > usize::MAX,
    ensures
        decimal_number(s) is None || decimal_number(s)->0 > usize::MAX,
    decreases s.len() - n,
{
    if n < s.len() {
        assert(s.take(n + 1).drop_last() =~= s.take(n));
        lemma_decimal_large(s, n + 1);
    } else {
        assert(s.take(n) =~= s);
    }
}

/// Reads a count.
pub fn parse_count(s: &str) -> (res: Option<usize>)
    ensures
        match res {
            Some(n) => count_of(s@) == Some(n as nat),
            None => count_of(s@) is None,
        },
{
    let chars = crate::text::chars_of(s);
    let start: usize = if chars.len() > 0 && chars[0] == '+' {
        1
    } else {
        0
    };
    let ghost digits = s@.skip(start as int);
    proof {
        if start == 1 {
            assert(digits =~= s@.drop_first());
        } else {
            assert(digits =~= s@);
        }
    }
    if start == chars.len() {
        return None;
    }
    let mut value: usize = 0;
    proof {
        assert(digits.take(0) =~= Seq::empty());
    }
    for i in start..chars.len()
        invariant
            start <= chars.len(),
            chars@ == s@,
            digits == s@.skip(start as int),
            digits == if s@.len() > 0 && s@[0] == '+' {
                s@.drop_first()
            } else {
                s@
            },
            digits.len() > 0,
            decimal_number(digits.take(i - start)) == Some(value as nat),
    {
        let c = chars[i];
        let ghost k = i - start;
        proof {
            assert(digits.take(k + 1).drop_last() =~= digits.take(k));
            assert(digits.take(k + 1).last() == c);
        }
        if c < '0' || c > '9' {
            proof {
                lemma_decimal_large(digits, k + 1);
            }
            return None;
        }
        let d: usize = (c as u32 - '0' as u32) as usize;
        match value.checked_mul(10) {
            Some(tens) => match tens.checked_add(d) {
                Some(next) => {
                    value = next;
                },
                None => {
                    proof {
                        lemma_decimal_large(digits, k + 1);
                    }
                    return None;
                },
            },
            None => {
                proof {
                    lemma_decimal_large(digits, k + 1);
                }
                return None;
            },
        }
    }
    proof {
        assert(digits.take(digits.len() as int) =~= digits);
    }
    Some(value)
}

/// The decimal text of a count.
pub fn count_text(n: usize) -> (res: String)
    ensures
        res@ == decimal_text(n as nat),
    decreases n,
{
    let digit: char = (48 + (n % 10) as u8) as char;
    if n < 10 {
        let mut out = String::new();
        out.push(digit);
        assert(out@ =~= decimal_text(n as nat));
        out
    } else {
        let mut out = count_text(n / 10);
        out.push(digit);
        out
    }
}

// ---------------------------------------------------------------------------
// Dimensions
// ---------------------------------------------------------------------------
/// Whether an embedding does not fit an index. Without an index (dimension 0)
/// and without an embedding there is nothing to compare.
pub open spec fn dimension_conflict(dim: usize, len: nat) -> bool {
    len != 0 && dim > 0 && len != dim
}

/// An embedding must have the dimension of the index.
pub fn check_dimension(dim: usize, len: usize) -> (res: Result<(), MenteError>)
    ensures
        match res {
            Ok(_) => !dimension_conflict(dim, len as nat),
            Err(e) => dimension_conflict(dim, len as nat) && e@
                == (ErrorView::EmbeddingDimensionMismatch { got: len, expected: dim }),
        },
{
    if len != 0 && dim > 0 && len != dim {
        return Err(MenteError::EmbeddingDimensionMismatch { got: len, expected: dim });
    }
    Ok(())
}

/// The dimension that a store works with: the stored one where there is one
/// and it is not 0, else the hint.
pub open spec fn effective_dimension_of(stored: Option<Seq<char>>, hint: usize) -> nat {
    match stored {
        Some(s) => match count_of(s) {
            Some(n) => if n > 0 {
                n
            } else {
                hint as nat
            },
            None => hint as nat,
        },
        None => hint as nat,
    }
}

/// The dimension that a store works with after it is opened; 0 means that no
/// vector index exists yet.
pub fn effective_dimension(stored: &Option<String>, hint: usize) -> (res: usize)
    ensures
        res == effective_dimension_of(opt_view(*stored), hint),
{
    match stored {
        Some(s) => match parse_count(s.as_str()) {
            Some(n) => if n > 0 {
                n
            } else {
                hint
            },
            None => hint,
        },
        None => hint,
    }
}

/// What opening a store writes down as its dimension wins over any hint at the
/// next opening, unless it is 0.
pub proof fn law_stored_dimension_wins(stored: Option<Seq<char>>, hint: usize, later_hint: usize)
    ensures
        ({
            let dim = effective_dimension_of(stored, hint);
            let again = effective_dimension_of(Some(decimal_text(dim)), later_hint);
            again == if dim > 0 {
                dim
            } else {
                later_hint as nat
            }
        }),
{
    let dim = effective_dimension_of(stored, hint);
    law_count_round_trip(dim as usize);
}

/// Whether asking for an index of a dimension changes anything.
pub open spec fn index_changes(current: usize, wanted: usize) -> bool {
    wanted != 0 && wanted != current
}

/// Whether the vector index has to be built anew.
pub fn needs_index(current: usize, wanted: usize) -> (res: bool)
    ensures
        res == index_changes(current, wanted),
{
    !(wanted == 0 || wanted == current)
}

// ---------------------------------------------------------------------------
// Embeddings
// ---------------------------------------------------------------------------
/// The four bytes of a value, the lowest one first.
pub open spec fn le_bytes(x: Single) -> Seq<u8> {
    seq![
        (x.bits as int % 256) as u8,
        (x.bits as int / 0x100 % 256) as u8,
        (x.bits as int / 0x1_0000 % 256) as u8,
        (x.bits as int / 0x100_0000 % 256) as u8,
    ]
}

/// The value of four bytes, the lowest one first.
pub open spec fn le_value(b: Seq<u8>) -> Single {
    Single { bits: (b[0] + b[1] * 0x100 + b[2] * 0x1_0000 + b[3] * 0x100_0000) as u32 }
}

/// The bytes of an embedding: those of its values, one after another.
pub open spec fn blob_of(v: Seq<Single>) -> Seq<u8> {
    Seq::new(4 * v.len(), |i: int| le_bytes(v[i / 4])[i % 4])
}

/// The embedding whose bytes are given.
pub open spec fn embedding_of(b: Seq<u8>) -> Seq<Single> {
    Seq::new(b.len() / 4, |i: int| le_value(b.subrange(4 * i, 4 * i + 4)))
}

/// The little-endian byte blob of an embedding.
pub fn embedding_to_blob(v: &Vec<Single>) -> (res: Vec<u8>)
    ensures
        res@ == blob_of(v@),
{
    let mut out: Vec<u8> = Vec::new();
    for i in 0..v.len()
        invariant
            out@ == blob_of(v@.take(i as int)),
    {
        let bits: u32 = v[i].bits;
        out.push((bits % 256) as u8);
        out.push((bits / 0x100 % 256) as u8);
        out.push((bits / 0x1_0000 % 256) as u8);
        out.push((bits / 0x100_0000 % 256) as u8);
        proof {
            let now = blob_of(v@.take(i + 1));
            let before = blob_of(v@.take(i as int));
            assert(before.len() == 4 * i);
            assert forall|k: int| 0 <= k < now.len() implies out@[k] == now[k] by {
                if k < 4 * i {
                    assert(before[k] == now[k]);
                } else {
                    assert(k / 4 == i);
                    assert(v@.take(i + 1)[i as int] == v@[i as int]);
                }
            }
            assert(out@ =~= now);
        }
    }
    proof {
        assert(v@.take(v.len() as int) =~= v@);
    }
    out
}

/// The embedding in a byte blob, whose length must be a multiple of four.
pub fn blob_to_embedding(b: &Vec<u8>) -> (res: Vec<Single>)
    requires
        b@.len() % 4 == 0,
    ensures
        res@ == embedding_of(b@),
{
    let mut out: Vec<Single> = Vec::new();
    let n: usize = b.len() / 4;
    assert(4 * n == b@.len());
    for i in 0..n
        invariant
            n == b@.len() / 4,
            4 * n == b@.len(),
            b.len() == b@.len(),
            out@ == embedding_of(b@).take(i as int),
    {
        let k: usize = 4 * i;
        let b0: u32 = b[k] as u32;
        let b1: u32 = b[k + 1] as u32;
        let b2: u32 = b[k + 2] as u32;
        let b3: u32 = b[k + 3] as u32;
        let value = Single { bits: b0 + b1 * 0x100 + b2 * 0x1_0000 + b3 * 0x100_0000 };
        proof {
            assert(value == embedding_of(b@)[i as int]);
        }
        out.push(value);
        assert(out@ =~= embedding_of(b@).take(i + 1));
    }
    proof {
        assert(embedding_of(b@).take(n as int) =~= embedding_of(b@));
    }
    out
}

proof fn lemma_le_round_trip(x: Single)
    ensures
        le_value(le_bytes(x)) == x,
{
}

/// An embedding survives its blob.
pub proof fn law_blob_round_trip(v: Seq<Single>)
    ensures
        blob_of(v).len() % 4 == 0,
        embedding_of(blob_of(v)) == v,
{
    let b = blob_of(v);
    assert forall|i: int| 0 <= i < v.len() implies embedding_of(b)[i] == v[i] by {
        let four = b.subrange(4 * i, 4 * i + 4);
        assert forall|k: int| 0 <= k < 4 implies four[k] == le_bytes(v[i])[k] by {
            assert((4 * i + k) / 4 == i);
            assert((4 * i + k) % 4 == k);
        }
        assert(four =~= le_bytes(v[i]));
        lemma_le_round_trip(v[i]);
    }
    assert(embedding_of(b) =~= v);
}

// ---------------------------------------------------------------------------
// Kinds as text
// ---------------------------------------------------------------------------
/// The text of a memory type.
pub open spec fn memory_type_name(t: MemoryType) -> Seq<char> {
    match t {
        MemoryType::Episodic => "Episodic"@,
        MemoryType::Semantic => "Semantic"@,
        MemoryType::Procedural => "Procedural"@,
        MemoryType::AntiPattern => "AntiPattern"@,
        MemoryType::Reasoning => "Reasoning"@,
        MemoryType::Correction => "Correction"@,
    }
}

/// The memory type of a text, `Episodic` where the text is unknown.
pub open spec fn memory_type_of(s: Seq<char>) -> MemoryType {
    if s == "Semantic"@ {
        MemoryType::Semantic
    } else if s == "Procedural"@ {
        MemoryType::Procedural
    } else if s == "AntiPattern"@ {
        MemoryType::AntiPattern
    } else if s == "Reasoning"@ {
        MemoryType::Reasoning
    } else if s == "Correction"@ {
        MemoryType::Correction
    } else {
        MemoryType::Episodic
    }
}

/// The text of a memory type.
pub fn memory_type_str(t: MemoryType) -> (res: &'static str)
    ensures
        res@ == memory_type_name(t),
{
    match t {
        MemoryType::Episodic => "Episodic",
        MemoryType::Semantic => "Semantic",
        MemoryType::Procedural => "Procedural",
        MemoryType::AntiPattern => "AntiPattern",
        MemoryType::Reasoning => "Reasoning",
        MemoryType::Correction => "Correction",
    }
}

/// The memory type of a text; an unknown text gives `Episodic`.
pub fn parse_memory_type(s: &str) -> (res: MemoryType)
    ensures
        res == memory_type_of(s@),
{
    if text_eq(s, "Semantic") {
        MemoryType::Semantic
    } else if text_eq(s, "Procedural") {
        MemoryType::Procedural
    } else if text_eq(s, "AntiPattern") {
        MemoryType::AntiPattern
    } else if text_eq(s, "Reasoning") {
        MemoryType::Reasoning
    } else if text_eq(s, "Correction") {
        MemoryType::Correction
    } else {
        MemoryType::Episodic
    }
}

/// A memory type survives its text.
pub proof fn law_memory_type_round_trip(t: MemoryType)
    ensures
        memory_type_of(memory_type_name(t)) == t,
{
    reveal_strlit("Episodic");
    assert("Episodic"@.len() == 8);
    reveal_strlit("Semantic");
    assert("Semantic"@.len() == 8);
    reveal_strlit("Procedural");
    assert("Procedural"@.len() == 10);
    reveal_strlit("AntiPattern");
    assert("AntiPattern"@.len() == 11);
    reveal_strlit("Reasoning");
    assert("Reasoning"@.len() == 9);
    reveal_strlit("Correction");
    assert("Correction"@.len() == 10);
    assert("Episodic"@[0] != "Semantic"@[0]);
    assert("Procedural"@[0] != "Correction"@[0]);
}

/// The text of an edge type.
pub open spec fn edge_type_name(t: EdgeType) -> Seq<char> {
    match t {
        EdgeType::Caused => "Caused"@,
        EdgeType::Before => "Before"@,
        EdgeType::Related => "Related"@,
        EdgeType::Contradicts => "Contradicts"@,
        EdgeType::Supports => "Supports"@,
        EdgeType::Supersedes => "Supersedes"@,
        EdgeType::Derived => "Derived"@,
        EdgeType::PartOf => "PartOf"@,
    }
}

/// The edge type of a text, `Related` where the text is unknown.
pub open spec fn edge_type_of(s: Seq<char>) -> EdgeType {
    if s == "Caused"@ {
        EdgeType::Caused
    } else if s == "Before"@ {
        EdgeType::Before
    } else if s == "Contradicts"@ {
        EdgeType::Contradicts
    } else if s == "Supports"@ {
        EdgeType::Supports
    } else if s == "Supersedes"@ {
        EdgeType::Supersedes
    } else if s == "Derived"@ {
        EdgeType::Derived
    } else if s == "PartOf"@ {
        EdgeType::PartOf
    } else {
        EdgeType::Related
    }
}

/// The text of an edge type.
pub fn edge_type_str(t: EdgeType) -> (res: &'static str)
    ensures
        res@ == edge_type_name(t),
{
    match t {
        EdgeType::Caused => "Caused",
        EdgeType::Before => "Before",
        EdgeType::Related => "Related",
        EdgeType::Contradicts => "Contradicts",
        EdgeType::Supports => "Supports",
        EdgeType::Supersedes => "Supersedes",
        EdgeType::Derived => "Derived",
        EdgeType::PartOf => "PartOf",
    }
}

/// The edge type of a text; an unknown text gives `Related`.
pub fn parse_edge_type(s: &str) -> (res: EdgeType)
    ensures
        res == edge_type_of(s@),
{
    if text_eq(s, "Caused") {
        EdgeType::Caused
    } else if text_eq(s, "Before") {
        EdgeType::Before
    } else if text_eq(s, "Contradicts") {
        EdgeType::Contradicts
    } else if text_eq(s, "Supports") {
        EdgeType::Supports
    } else if text_eq(s, "Supersedes") {
        EdgeType::Supersedes
    } else if text_eq(s, "Derived") {
        EdgeType::Derived
    } else if text_eq(s, "PartOf") {
        EdgeType::PartOf
    } else {
        EdgeType::Related
    }
}

/// An edge type survives its text.
pub proof fn law_edge_type_round_trip(t: EdgeType)
    ensures
        edge_type_of(edge_type_name(t)) == t,
{
    reveal_strlit("Caused");
    assert("Caused"@.len() == 6);
    reveal_strlit("Before");
    assert("Before"@.len() == 6);
    reveal_strlit("Related");
    assert("Related"@.len() == 7);
    reveal_strlit("Contradicts");
    assert("Contradicts"@.len() == 11);
    reveal_strlit("Supports");
    assert("Supports"@.len() == 8);
    reveal_strlit("Supersedes");
    assert("Supersedes"@.len() == 10);
    reveal_strlit("Derived");
    assert("Derived"@.len() == 7);
    reveal_strlit("PartOf");
    assert("PartOf"@.len() == 6);
    assert("Caused"@[0] != "Before"@[0]);
    assert("Caused"@[0] != "PartOf"@[0]);
    assert("Before"@[0] != "PartOf"@[0]);
    assert("Related"@[0] != "Derived"@[0]);
}

// ---------------------------------------------------------------------------
// Rows
// ---------------------------------------------------------------------------
/// The columns of a memory.
#[derive(Debug)]
pub struct MemoryRow {
    pub id: String,
    pub agent_id: String,
    pub space_id: String,
    pub memory_type: String,
    pub content: String,
    pub embedding: Option<Vec<u8>>,
    pub created_at: i64,
    pub accessed_at: i64,
    pub access_count: i64,
    pub salience: Single,
    pub confidence: Single,
    pub attributes: String,
    pub valid_from: Option<i64>,
    pub valid_until: Option<i64>,
}

/// The mathematical form of a memory's columns.
#[verifier::ext_equal]
pub struct MemoryColumns {
    pub id: Seq<char>,
    pub agent_id: Seq<char>,
    pub space_id: Seq<char>,
    pub memory_type: Seq<char>,
    pub content: Seq<char>,
    pub embedding: Option<Seq<u8>>,
    pub created_at: i64,
    pub accessed_at: i64,
    pub access_count: i64,
    pub salience: Single,
    pub confidence: Single,
    pub attributes: Seq<char>,
    pub valid_from: Option<i64>,
    pub valid_until: Option<i64>,
}

impl View for MemoryRow {
    type V = MemoryColumns;

    open spec fn view(&self) -> MemoryColumns {
        MemoryColumns {
            id: self.id@,
            agent_id: self.agent_id@,
            space_id: self.space_id@,
            memory_type: self.memory_type@,
            content: self.content@,
            embedding: match self.embedding {
                Some(b) => Some(b@),
                None => None,
            },
            created_at: self.created_at,
            accessed_at: self.accessed_at,
            access_count: self.access_count,
            salience: self.salience,
            confidence: self.confidence,
            attributes: self.attributes@,
            valid_from: self.valid_from,
            valid_until: self.valid_until,
        }
    }
}

/// The columns of a memory. An empty embedding is no value at all.
pub open spec fn columns_of(m: MemoryView) -> MemoryColumns {
    MemoryColumns {
        id: uuid_text(m.id.value),
        agent_id: uuid_text(m.agent_id.value),
        space_id: uuid_text(m.space_id.value),
        memory_type: memory_type_name(m.memory_type),
        content: m.content,
        embedding: if m.embedding.len() == 0 {
            None
        } else {
            Some(blob_of(m.embedding))
        },
        created_at: signed_bits(m.created_at) as i64,
        accessed_at: signed_bits(m.accessed_at) as i64,
        access_count: m.access_count as i64,
        salience: m.salience,
        confidence: m.confidence,
        attributes: m.attributes,
        valid_from: opt_signed(m.valid_from),
        valid_until: opt_signed(m.valid_until),
    }
}

/// The attributes that a column holds: its text where that is a JSON object,
/// none otherwise.
pub open spec fn attributes_of(text: Seq<char>) -> Seq<char> {
    if json_kind(text) == Ok::<JsonKind, Seq<char>>(JsonKind::Object) {
        text
    } else {
        "{}"@
    }
}

fn read_attributes(text: String) -> (res: String)
    ensures
        res@ == attributes_of(text@),
{
    match parse_kind(text.as_str()) {
        Ok(JsonKind::Object) => text,
        _ => copy_text("{}"),
    }
}

/// The memory of a row and its tags. A malformed identity reads as nil, an
/// unknown type as episodic, and a text that is no JSON object as no attributes.
pub open spec fn memory_of(row: MemoryColumns, tags: Seq<Seq<char>>) -> MemoryView {
    MemoryView {
        id: MemoryId { value: id_or_nil(row.id) as u128 },
        agent_id: AgentId { value: id_or_nil(row.agent_id) as u128 },
        space_id: SpaceId { value: id_or_nil(row.space_id) as u128 },
        memory_type: memory_type_of(row.memory_type),
        content: row.content,
        embedding: match row.embedding {
            Some(b) => embedding_of(b),
            None => Seq::empty(),
        },
        created_at: unsigned_bits(row.created_at) as u64,
        accessed_at: unsigned_bits(row.accessed_at) as u64,
        access_count: (unsigned_bits(row.access_count) % 0x1_0000_0000) as u32,
        salience: row.salience,
        confidence: row.confidence,
        attributes: attributes_of(row.attributes),
        tags,
        valid_from: opt_unsigned(row.valid_from),
        valid_until: opt_unsigned(row.valid_until),
    }
}

/// The columns of a memory.
pub fn encode_memory(node: &MemoryNode) -> (res: MemoryRow)
    ensures
        res@ == columns_of(node@),
{
    let row = MemoryRow {
        id: id_text(&node.id),
        agent_id: id_text(&node.agent_id),
        space_id: id_text(&node.space_id),
        memory_type: copy_text(memory_type_str(node.memory_type)),
        content: copy_text(node.content.as_str()),
        embedding: if node.embedding.len() == 0 {
            None
        } else {
            Some(embedding_to_blob(&node.embedding))
        },
        created_at: time_to_column(node.created_at),
        accessed_at: time_to_column(node.accessed_at),
        access_count: node.access_count as i64,
        salience: node.salience,
        confidence: node.confidence,
        attributes: copy_text(node.attributes.as_str()),
        valid_from: opt_time_to_column(node.valid_from),
        valid_until: opt_time_to_column(node.valid_until),
    };
    assert(row@ =~= columns_of(node@));
    row
}

/// The memory of a row and its tags. The blob of an embedding must hold whole
/// values.
pub fn decode_memory(row: MemoryRow, tags: Vec<String>) -> (res: MemoryNode)
    requires
        row.embedding is Some ==> row.embedding->0@.len() % 4 == 0,
    ensures
        res@ == memory_of(row@, views(tags@)),
{
    let MemoryRow {
        id,
        agent_id,
        space_id,
        memory_type,
        content,
        embedding,
        created_at,
        accessed_at,
        access_count,
        salience,
        confidence,
        attributes,
        valid_from,
        valid_until,
    } = row;
    let values: Vec<Single> = match &embedding {
        Some(b) => blob_to_embedding(b),
        None => Vec::new(),
    };
    let node = MemoryNode {
        id: parse_id_or_nil::<MemoryId>(id.as_str()),
        agent_id: parse_id_or_nil::<AgentId>(agent_id.as_str()),
        space_id: parse_id_or_nil::<SpaceId>(space_id.as_str()),
        memory_type: parse_memory_type(memory_type.as_str()),
        content,
        embedding: values,
        created_at: time_from_column(created_at),
        accessed_at: time_from_column(accessed_at),
        access_count: (time_from_column(access_count) % 0x1_0000_0000) as u32,
        salience,
        confidence,
        attributes: read_attributes(attributes),
        tags,
        valid_from: opt_time_from_column(valid_from),
        valid_until: opt_time_from_column(valid_until),
    };
    assert(node@ =~= memory_of(row@, views(tags@)));
    node
}

/// A memory survives its columns, with whatever tags are read beside them. Its
/// attributes do where they are a JSON object, or none.
pub proof fn law_memory_round_trip(m: MemoryView, tags: Seq<Seq<char>>)
    ensures
        memory_of(columns_of(m), tags) == (MemoryView {
            tags,
            attributes: attributes_of(m.attributes),
            ..m
        }),
        json_kind(m.attributes) == Ok::<JsonKind, Seq<char>>(JsonKind::Object) || m.attributes
            == "{}"@ ==> memory_of(columns_of(m), tags) == (MemoryView { tags, ..m }),
        columns_of(m).embedding is Some ==> columns_of(m).embedding->0.len() % 4 == 0,
{
    crate::ids::law_uuid_round_trip(m.id.value);
    crate::ids::law_uuid_round_trip(m.agent_id.value);
    crate::ids::law_uuid_round_trip(m.space_id.value);
    law_memory_type_round_trip(m.memory_type);
    law_blob_round_trip(m.embedding);
    law_time_round_trip(m.created_at, m.valid_from);
    law_time_round_trip(m.accessed_at, m.valid_until);
    let back = memory_of(columns_of(m), tags);
    assert(back.embedding =~= m.embedding);
    assert(back =~= (MemoryView { tags, attributes: attributes_of(m.attributes), ..m }));
}

/// The columns of an edge.
#[derive(Debug)]
pub struct EdgeRow {
    pub source: String,
    pub target: String,
    pub edge_type: String,
    pub weight: Single,
    pub created_at: i64,
    pub valid_from: Option<i64>,
    pub valid_until: Option<i64>,
    pub label: Option<String>,
}

/// The mathematical form of an edge's columns.
#[verifier::ext_equal]
pub struct EdgeColumns {
    pub source: Seq<char>,
    pub target: Seq<char>,
    pub edge_type: Seq<char>,
    pub weight: Single,
    pub created_at: i64,
    pub valid_from: Option<i64>,
    pub valid_until: Option<i64>,
    pub label: Option<Seq<char>>,
}

impl View for EdgeRow {
    type V = EdgeColumns;

    open spec fn view(&self) -> EdgeColumns {
        EdgeColumns {
            source: self.source@,
            target: self.target@,
            edge_type: self.edge_type@,
            weight: self.weight,
            created_at: self.created_at,
            valid_from: self.valid_from,
            valid_until: self.valid_until,
            label: opt_view(self.label),
        }
    }
}

/// The columns of an edge.
pub open spec fn edge_columns_of(e: EdgeView) -> EdgeColumns {
    EdgeColumns {
        source: uuid_text(e.source.value),
        target: uuid_text(e.target.value),
        edge_type: edge_type_name(e.edge_type),
        weight: e.weight,
        created_at: signed_bits(e.created_at) as i64,
        valid_from: opt_signed(e.valid_from),
        valid_until: opt_signed(e.valid_until),
        label: e.label,
    }
}

/// The edge of a row. A malformed identity reads as nil, an unknown type as
/// related.
pub open spec fn edge_of(row: EdgeColumns) -> EdgeView {
    EdgeView {
        source: MemoryId { value: id_or_nil(row.source) as u128 },
        target: MemoryId { value: id_or_nil(row.target) as u128 },
        edge_type: edge_type_of(row.edge_type),
        weight: row.weight,
        created_at: unsigned_bits(row.created_at) as u64,
        valid_from: opt_unsigned(row.valid_from),
        valid_until: opt_unsigned(row.valid_until),
        label: row.label,
    }
}

/// The columns of an edge.
pub fn encode_edge(edge: &MemoryEdge) -> (res: EdgeRow)
    ensures
        res@ == edge_columns_of(edge@),
{
    let row = EdgeRow {
        source: id_text(&edge.source),
        target: id_text(&edge.target),
        edge_type: copy_text(edge_type_str(edge.edge_type)),
        weight: edge.weight,
        created_at: time_to_column(edge.created_at),
        valid_from: opt_time_to_column(edge.valid_from),
        valid_until: opt_time_to_column(edge.valid_until),
        label: copy_opt(&edge.label),
    };
    assert(row@ =~= edge_columns_of(edge@));
    row
}

/// The edge of a row.
pub fn decode_edge(row: EdgeRow) -> (res: MemoryEdge)
    ensures
        res@ == edge_of(row@),
{
    let EdgeRow {
        source,
        target,
        edge_type,
        weight,
        created_at,
        valid_from,
        valid_until,
        label,
    } = row;
    let edge = MemoryEdge {
        source: parse_id_or_nil::<MemoryId>(source.as_str()),
        target: parse_id_or_nil::<MemoryId>(target.as_str()),
        edge_type: parse_edge_type(edge_type.as_str()),
        weight,
        created_at: time_from_column(created_at),
        valid_from: opt_time_from_column(valid_from),
        valid_until: opt_time_from_column(valid_until),
        label,
    };
    assert(edge@ =~= edge_of(row@));
    edge
}

/// An edge survives its columns.
pub proof fn law_edge_round_trip(e: EdgeView)
    ensures
        edge_of(edge_columns_of(e)) == e,
{
    crate::ids::law_uuid_round_trip(e.source.value);
    crate::ids::law_uuid_round_trip(e.target.value);
    law_edge_type_round_trip(e.edge_type);
    law_time_round_trip(e.created_at, e.valid_from);
    law_time_round_trip(e.created_at, e.valid_until);
    assert(edge_of(edge_columns_of(e)) =~= e);
}

} // verus!
