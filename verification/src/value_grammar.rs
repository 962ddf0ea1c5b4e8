//! The grammar of schema-directed native values: how a class schema reads
//! a bounded body, stated as functions from a decoding state to the next
//! state or to the failure that stops the decode.
//!
//! A decoded value is written as a stream of tokens in document order:
//! objects as `BeginObject`, key and value pairs, `EndObject`; arrays as
//! `BeginArray`, values, `EndArray`.
use vstd::prelude::*;

use crate::extensible_storage::{guid_index, guid_text, has_guid, Schema};
use crate::framing::{le_u32, le_u64};
use crate::graph::GraphLimits;
use crate::schema::{class_index, named_index, Field, Reference, Registry};
use crate::text::{decimal_text, hex_digit};

verus! {

/// One token of a decoded value.
#[derive(Clone, Debug, PartialEq)]
pub enum Token {
    Null,
    Bool(bool),
    UInt(u64),
    Int(i64),
    /// A finite `f32`, by its bits.
    F32(u32),
    /// A finite `f64`, by its bits.
    F64(u64),
    Text(String),
    /// Raw bytes, as an array of byte values.
    Bytes(Vec<u8>),
    BeginObject,
    Key(String),
    EndObject,
    BeginArray,
    EndArray,
}

/// A token as plain values.
pub enum TokenView {
    Null,
    Bool(bool),
    UInt(u64),
    Int(i64),
    F32(u32),
    F64(u64),
    Text(Seq<char>),
    Bytes(Seq<u8>),
    BeginObject,
    Key(Seq<char>),
    EndObject,
    BeginArray,
    EndArray,
}

impl Token {
    pub open spec fn view(&self) -> TokenView {
        match self {
            Token::Null => TokenView::Null,
            Token::Bool(b) => TokenView::Bool(*b),
            Token::UInt(n) => TokenView::UInt(*n),
            Token::Int(n) => TokenView::Int(*n),
            Token::F32(b) => TokenView::F32(*b),
            Token::F64(b) => TokenView::F64(*b),
            Token::Text(s) => TokenView::Text(s@),
            Token::Bytes(b) => TokenView::Bytes(b@),
            Token::BeginObject => TokenView::BeginObject,
            Token::Key(s) => TokenView::Key(s@),
            Token::EndObject => TokenView::EndObject,
            Token::BeginArray => TokenView::BeginArray,
            Token::EndArray => TokenView::EndArray,
        }
    }

    /// A copy of this token.
    pub fn clone_token(&self) -> (r: Token)
        ensures
            r@ == self@,
    {
        match self {
            Token::Null => Token::Null,
            Token::Bool(b) => Token::Bool(*b),
            Token::UInt(n) => Token::UInt(*n),
            Token::Int(n) => Token::Int(*n),
            Token::F32(b) => Token::F32(*b),
            Token::F64(b) => Token::F64(*b),
            Token::Text(s) => Token::Text(s.clone()),
            Token::Bytes(b) => {
                let mut c: Vec<u8> = Vec::new();
                let mut i: usize = 0;
                while i < b.len()
                    invariant
                        i <= b@.len(),
                        c@ == b@.take(i as int),
                    decreases b@.len() - i,
                {
                    c.push(b[i]);
                    proof {
                        assert(c@ =~= b@.take(i + 1));
                    }
                    i += 1;
                }
                proof {
                    assert(c@ =~= b@);
                }
                Token::Bytes(c)
            },
            Token::BeginObject => Token::BeginObject,
            Token::Key(s) => Token::Key(s.clone()),
            Token::EndObject => Token::EndObject,
            Token::BeginArray => Token::BeginArray,
            Token::EndArray => Token::EndArray,
        }
    }
}

/// A token stream as plain values.
pub open spec fn tokens_view(v: Seq<Token>) -> Seq<TokenView> {
    v.map_values(|t: Token| t@)
}

/// A deferred pointer met while decoding, to be resolved by the graph.
#[derive(Clone, Debug)]
pub struct PendingPointer {
    pub token: u32,
    pub class_tag: u16,
    pub offset: usize,
    /// The schema of an Extensible Storage entity, which has no class tag.
    pub schema_guid: Option<String>,
}

/// A deferred pointer as plain values.
pub struct PendingView {
    pub token: u32,
    pub class_tag: u16,
    pub offset: usize,
    pub schema_guid: Option<Seq<char>>,
}

impl PendingPointer {
    pub open spec fn view(&self) -> PendingView {
        PendingView {
            token: self.token,
            class_tag: self.class_tag,
            offset: self.offset,
            schema_guid: match self.schema_guid {
                Some(g) => Some(g@),
                None => None,
            },
        }
    }
}

/// A field span as plain values.
pub struct SpanView {
    pub class_tag: u16,
    pub name: Seq<char>,
    pub start: usize,
    pub end: usize,
}

/// What a decode has done so far: its position in the body, the values it
/// counted, the pointers it deferred, the field spans and the tokens it
/// wrote.
pub struct DecodeState {
    pub pos: int,
    pub items: int,
    pub pending: Seq<PendingView>,
    pub spans: Seq<SpanView>,
    pub out: Seq<TokenView>,
}

impl DecodeState {
    pub open spec fn emit(self, t: TokenView) -> DecodeState {
        DecodeState { out: self.out.push(t), ..self }
    }

    pub open spec fn at(self, pos: int) -> DecodeState {
        DecodeState { pos, ..self }
    }

    pub open spec fn counted(self) -> DecodeState {
        DecodeState { items: self.items + 1, ..self }
    }

    pub open spec fn defer(self, p: PendingView) -> DecodeState {
        DecodeState { pending: self.pending.push(p), ..self }
    }

    pub open spec fn span(self, s: SpanView) -> DecodeState {
        DecodeState { spans: self.spans.push(s), ..self }
    }

    pub open spec fn key(self, k: Seq<char>) -> DecodeState {
        self.emit(TokenView::Key(k))
    }
}

/// What a decode reads: the bounded body, the class schema, the Extensible
/// Storage catalog with the source-bound prefix length of each of its
/// schemas, whether deferred pointers are kept, and the budgets.
pub struct DecodeContext {
    pub body: Seq<u8>,
    pub registry: Registry,
    pub catalog: Option<Seq<Schema>>,
    pub prefixes: Seq<u64>,
    pub collect: bool,
    pub limits: GraphLimits,
}

/// A step that ends in a state, or fails with a message at a position.
pub type Done = Result<DecodeState, (Seq<char>, int)>;

/// A step that also reads a value.
pub type Read<T> = Result<(T, DecodeState), (Seq<char>, int)>;

pub open spec fn dec(n: int) -> Seq<char> {
    decimal_text(n as nat)
}

/// A signed number as text.
pub open spec fn signed_text(n: int) -> Seq<char> {
    if n < 0 {
        "-"@ + decimal_text((-n) as nat)
    } else {
        decimal_text(n as nat)
    }
}

/// A byte in lowercase hexadecimal, without leading zeros.
pub open spec fn hex_small(n: u8) -> Seq<char> {
    if n < 16 {
        seq![hex_digit(n as int)]
    } else {
        seq![hex_digit(n as int / 16), hex_digit(n as int % 16)]
    }
}

/// Little-endian value of the two bytes at `p`.
pub open spec fn le_u16(s: Seq<u8>, p: int) -> int {
    s[p] as int + s[p + 1] as int * 0x100
}

/// Two's complement reading of an unsigned value of 16, 32 or 64 bits.
pub open spec fn signed(u: int, bits: nat) -> int {
    if bits == 16 {
        if u >= 0x8000 { u - 0x1_0000 } else { u }
    } else if bits == 32 {
        if u >= 0x8000_0000 { u - 0x1_0000_0000 } else { u }
    } else {
        if u >= 0x8000_0000_0000_0000 { u - 0x1_0000_0000_0000_0000 } else { u }
    }
}

/// The bits of a finite `f32` do not have every exponent bit set.
pub open spec fn f32_finite(bits: u32) -> bool {
    (bits as int / 0x80_0000) % 0x100 != 0xff
}

/// The bits of a finite `f64` do not have every exponent bit set.
pub open spec fn f64_finite(bits: u64) -> bool {
    (bits as int / 0x10_0000_0000_0000) % 0x800 != 0x7ff
}

/// UTF-16 code units as text: surrogate pairs combine, a lone surrogate
/// is invalid.
pub open spec fn utf16_decode(units: Seq<u16>) -> Option<Seq<char>>
    decreases units.len(),
{
    if units.len() == 0 {
        Some(Seq::empty())
    } else if units[0] < 0xD800 || units[0] > 0xDFFF {
        match utf16_decode(units.drop_first()) {
            Some(rest) => Some(seq![units[0] as char] + rest),
            None => None,
        }
    } else if units[0] <= 0xDBFF && units.len() >= 2 && 0xDC00 <= units[1] <= 0xDFFF {
        match utf16_decode(units.subrange(2, units.len() as int)) {
            Some(rest) => Some(
                seq![(0x1_0000 + (units[0] - 0xD800) * 0x400 + (units[1] - 0xDC00)) as char] + rest,
            ),
            None => None,
        }
    } else {
        None
    }
}

/// The code units of the `n` little-endian pairs of bytes at `p`.
pub open spec fn utf16_units(s: Seq<u8>, p: int, n: int) -> Seq<u16> {
    Seq::new(n as nat, |i: int| le_u16(s, p + 2 * i) as u16)
}

/// How much deeper a decode at `depth` may go.
pub open spec fn room(c: DecodeContext, depth: int) -> nat {
    if depth < c.limits.max_depth {
        (c.limits.max_depth - depth) as nat
    } else {
        0
    }
}

/// The most items one container may hold.
pub open spec fn container_limit(c: DecodeContext) -> int {
    if c.limits.max_values < 1_000_000 {
        c.limits.max_values as int
    } else {
        1_000_000
    }
}

/// The budget that a value at `depth` exceeds, if one does.
pub open spec fn value_budget_error(c: DecodeContext, s: DecodeState, depth: int) -> Option<Seq<char>> {
    if depth >= c.limits.max_depth {
        Some("native field recursion budget exceeded ("@ + dec(c.limits.max_depth as int) + ")"@)
    } else if s.items >= c.limits.max_values {
        Some("native field value budget exceeded ("@ + dec(c.limits.max_values as int) + ")"@)
    } else {
        None
    }
}

/// Consuming `n` bytes.
pub open spec fn spec_take(c: DecodeContext, s: DecodeState, n: int) -> Done {
    if s.pos + n > usize::MAX {
        Err(("native value size overflow"@, s.pos))
    } else if s.pos + n > c.body.len() {
        Err(("truncated native field at "@ + dec(s.pos), s.pos))
    } else {
        Ok(s.at(s.pos + n))
    }
}

/// Reading a little-endian unsigned value of `n` bytes.
pub open spec fn spec_uint(c: DecodeContext, s: DecodeState, n: int) -> Read<int> {
    match spec_take(c, s, n) {
        Err(e) => Err(e),
        Ok(t) => Ok((
            if n == 1 {
                c.body[s.pos] as int
            } else if n == 2 {
                le_u16(c.body, s.pos)
            } else if n == 4 {
                le_u32(c.body, s.pos)
            } else {
                le_u64(c.body, s.pos)
            },
            t,
        )),
    }
}

/// The field a nested declaration names.
pub open spec fn nested_of(f: Field) -> Option<Field> {
    match f.nested_descriptor {
        Some(b) => Some(*b),
        None => None,
    }
}

/// Container modifiers: fixed arrays below `0x50`, counted vectors from it.
pub open spec fn is_container(modifier: u8) -> bool {
    (0x10 <= modifier <= 0x13) || (0x50 <= modifier <= 0x53)
}

/// The element count of a container: the declared count of a fixed array,
/// else a little-endian `u32` read from the body.
pub open spec fn container_count(c: DecodeContext, s: DecodeState, modifier: u8, count: Option<u32>) -> Read<int> {
    if modifier < 0x50 {
        match count {
            Some(n) => Ok((n as int, s)),
            None => Err(("fixed array schema count absent"@, s.pos)),
        }
    } else {
        spec_uint(c, s, 4)
    }
}

/// A key and an unsigned value.
pub open spec fn key_uint(s: DecodeState, k: Seq<char>, v: int) -> DecodeState {
    s.key(k).emit(TokenView::UInt(v as u64))
}

/// A key and a text value.
pub open spec fn key_text(s: DecodeState, k: Seq<char>, v: Seq<char>) -> DecodeState {
    s.key(k).emit(TokenView::Text(v))
}

/// The object a pointer is written as.
pub open spec fn pointer_object(s: DecodeState, token: u32, tag: Option<u16>, offset: int) -> DecodeState {
    key_uint(
        key_uint(s.emit(TokenView::BeginObject), "pointer_token"@, token as int).key("class_tag"@).emit(
            match tag {
                Some(t) => TokenView::UInt(t as u64),
                None => TokenView::Null,
            },
        ),
        "offset"@,
        offset,
    ).emit(TokenView::EndObject)
}

/// A pointer field: its token, and for a local pointer the class tag of
/// its target, which must be declared; local pointers are deferred when
/// the decode keeps them.
pub open spec fn spec_pointer(c: DecodeContext, s: DecodeState, external: bool) -> Done {
    let offset = s.pos;
    match spec_uint(c, s, 4) {
        Err(e) => Err(e),
        Ok((token, s1)) => if token != 0 && !external {
            match spec_uint(c, s1, 2) {
                Err(e) => Err(e),
                Ok((tag, s2)) => if class_index(c.registry, tag as u16) is None {
                    Err(("unknown native pointer class "@ + dec(tag), s2.pos))
                } else {
                    let s3 = if c.collect {
                        s2.defer(
                            PendingView {
                                token: token as u32,
                                class_tag: tag as u16,
                                offset: offset as usize,
                                schema_guid: None,
                            },
                        )
                    } else {
                        s2
                    };
                    Ok(pointer_object(s3, token as u32, Some(tag as u16), offset))
                },
            }
        } else {
            Ok(pointer_object(s1, token as u32, None, offset))
        },
    }
}

/// A string of UTF-16 code units, at most a million of them.
pub open spec fn spec_text(c: DecodeContext, s: DecodeState) -> Done {
    match spec_uint(c, s, 4) {
        Err(e) => Err(e),
        Ok((n, s1)) => if n > 1_000_000 {
            Err(("native string unit budget exceeded"@, s1.pos))
        } else {
            match spec_take(c, s1, n * 2) {
                Err(e) => Err(e),
                Ok(s2) => match utf16_decode(utf16_units(c.body, s1.pos, n)) {
                    None => Err(("invalid utf-16: lone surrogate found"@, s2.pos)),
                    Some(t) => Ok(s2.emit(TokenView::Text(t))),
                },
            }
        },
    }
}

/// A scalar read from `n` bytes and written as one token.
pub open spec fn spec_number(c: DecodeContext, s: DecodeState, n: int, t: spec_fn(int) -> TokenView) -> Done {
    match spec_uint(c, s, n) {
        Err(e) => Err(e),
        Ok((v, s1)) => Ok(s1.emit(t(v))),
    }
}

/// A schema class tag, written with the name the schema gives it.
pub open spec fn spec_class_ref(c: DecodeContext, s: DecodeState) -> Done {
    match spec_uint(c, s, 2) {
        Err(e) => Err(e),
        Ok((tag, s1)) => Ok(
            key_uint(s1.emit(TokenView::BeginObject), "class_tag"@, tag).key("class_name"@).emit(
                match class_index(c.registry, tag as u16) {
                    Some(i) => TokenView::Text(c.registry.classes@[i].name@),
                    None => TokenView::Null,
                },
            ).emit(TokenView::EndObject),
        ),
    }
}

/// The pointer to an Extensible Storage entity: `0` for an absent entity,
/// `-1` followed by the GUID of a schema the catalog declares.
pub open spec fn spec_entity_pointer(c: DecodeContext, s: DecodeState) -> Done {
    let offset = s.pos;
    match spec_uint(c, s, 4) {
        Err(e) => Err(e),
        Ok((u, s1)) => {
            let d = signed(u, 32);
            if d != 0 && d != -1 {
                Err(("unqualified ES entity discriminator "@ + signed_text(d), s1.pos))
            } else if d == 0 {
                Ok(
                    key_uint(
                        key_text(
                            s1.emit(TokenView::BeginObject).key("discriminator"@).emit(TokenView::Int(0i64)),
                            "state"@,
                            "serialized_absent"@,
                        ),
                        "offset"@,
                        offset,
                    ).emit(TokenView::EndObject),
                )
            } else {
                match spec_take(c, s1, 16) {
                    Err(e) => Err(e),
                    Ok(s2) => {
                        let guid = guid_text(c.body.subrange(s1.pos, s1.pos + 16));
                        if !(c.catalog matches Some(cat) && has_guid(cat, guid)) {
                            Err(("ES entity schema catalog absent for "@ + guid, s2.pos))
                        } else {
                            let s3 = if c.collect {
                                s2.defer(
                                    PendingView {
                                        token: u32::MAX,
                                        class_tag: 0,
                                        offset: offset as usize,
                                        schema_guid: Some(guid),
                                    },
                                )
                            } else {
                                s2
                            };
                            Ok(
                                key_uint(
                                    key_text(
                                        key_text(
                                            s3.emit(TokenView::BeginObject).key("discriminator"@).emit(
                                                TokenView::Int(-1i64),
                                            ),
                                            "schema_guid"@,
                                            guid,
                                        ),
                                        "state"@,
                                        "serialized_present"@,
                                    ),
                                    "offset"@,
                                    offset,
                                ).emit(TokenView::EndObject),
                            )
                        }
                    },
                }
            }
        },
    }
}

/// The object written for an `f64` that has no finite value.
pub open spec fn nonfinite_object(s: DecodeState) -> DecodeState {
    key_text(key_text(s.emit(TokenView::BeginObject), "native_nonfinite"@, "f64"@), "semantic"@, "serialized_absent"@).emit(
        TokenView::EndObject,
    )
}

/// The elements `k..n` of an optional `f64` vector, each counted.
pub open spec fn spec_optional_f64s(c: DecodeContext, s: DecodeState, k: int, n: int) -> Done
    decreases n - k,
{
    if k >= n {
        Ok(s)
    } else if s.items >= c.limits.max_values {
        Err(("native field value budget exceeded ("@ + dec(c.limits.max_values as int) + ")"@, s.pos))
    } else {
        match spec_uint(c, s.counted(), 8) {
            Err(e) => Err(e),
            Ok((bits, s1)) => {
                let s2 = if f64_finite(bits as u64) {
                    s1.emit(TokenView::F64(bits as u64))
                } else {
                    nonfinite_object(s1)
                };
                spec_optional_f64s(c, s2, k + 1, n)
            },
        }
    }
}

/// A fixed `f64` vector whose absent components are stored as non-finite
/// values.
pub open spec fn spec_optional_vector(c: DecodeContext, s: DecodeState, f: Field, depth: int) -> Done {
    if !(f.base == 7 && f.modifier == 0x10) {
        Err(("unexpected SpotElevation optional-offset schema"@, s.pos))
    } else {
        match value_budget_error(c, s, depth) {
            Some(m) => Err((m, s.pos)),
            None => match f.array_count {
                None => Err(("SpotElevation optional-offset array count absent"@, s.pos)),
                Some(n) => if n > container_limit(c) {
                    Err(
                        (
                            "native container count budget exceeded ("@ + dec(n as int) + "; limit "@ + dec(
                                container_limit(c),
                            ) + ")"@,
                            s.pos,
                        ),
                    )
                } else {
                    match spec_optional_f64s(c, s.counted().emit(TokenView::BeginArray), 0, n as int) {
                        Err(e) => Err(e),
                        Ok(s1) => Ok(s1.emit(TokenView::EndArray)),
                    }
                },
            },
        }
    }
}

/// The classes of a lineage, from the class a tag names up through its
/// parents until a parent tag below 12; each step needs room below the
/// depth budget.
pub open spec fn spec_lineage(reg: Registry, tag: u16, depth: int, max: int, acc: Seq<usize>) -> Result<
    Seq<usize>,
    Seq<char>,
>
    decreases (if depth + acc.len() < max {
        max - depth - acc.len()
    } else {
        0
    }),
{
    if depth + acc.len() >= max {
        Err("native class recursion budget exceeded"@)
    } else {
        match class_index(reg, tag) {
            None => Err("unknown inline native class "@ + dec(tag as int)),
            Some(i) => {
                let next = acc.push(i as usize);
                let parent = reg.classes@[i].parent_reference.tag;
                if parent < 12 {
                    Ok(next)
                } else {
                    spec_lineage(reg, parent, depth, max, next)
                }
            },
        }
    }
}

/// A declared field of a lineage: the position of its class, its position
/// in the class, and how far the class is from the decoded one.
pub type Entry = (usize, usize, usize);

/// The fields of the classes `d - 1` down to `0` of a lineage, most
/// distant class first, each class's fields in declaration order.
pub open spec fn class_entries(reg: Registry, lin: Seq<usize>, d: int) -> Seq<Entry>
    decreases d,
{
    if d <= 0 {
        Seq::empty()
    } else {
        let ci = lin[d - 1];
        Seq::new(reg.classes@[ci as int].fields@.len(), |j: int| (ci, j as usize, (d - 1) as usize))
            + class_entries(reg, lin, d - 1)
    }
}

pub open spec fn entry_class(reg: Registry, e: Entry) -> crate::schema::Class {
    reg.classes@[e.0 as int]
}

pub open spec fn entry_field(reg: Registry, e: Entry) -> Field {
    reg.classes@[e.0 as int].fields@[e.1 as int]
}

/// Transient fields carry flag 2 and are not stored.
pub open spec fn transient(f: Field) -> bool {
    f.uninterpreted_flags & 2 != 0
}

/// How many stored fields of the entries have the name.
pub open spec fn name_count(reg: Registry, es: Seq<Entry>, name: Seq<char>) -> nat
    decreases es.len(),
{
    if es.len() == 0 {
        0
    } else {
        name_count(reg, es.drop_last(), name) + (if !transient(entry_field(reg, es.last()))
            && entry_field(reg, es.last()).name@ == name {
            1nat
        } else {
            0nat
        })
    }
}

/// The key of a field: its bare name, unless several stored fields of the
/// lineage share it; then the declaring class qualifies it.
pub open spec fn field_key(reg: Registry, es: Seq<Entry>, e: Entry) -> Seq<char> {
    let f = entry_field(reg, e);
    if name_count(reg, es, f.name@) > 1 {
        entry_class(reg, e).name@ + "::"@ + f.name@
    } else {
        f.name@
    }
}

/// The only flag besides the transient one that is qualified: the serialized
/// reference count of `VarExpr`.
pub open spec fn flags_supported(cl: crate::schema::Class, f: Field) -> bool {
    f.uninterpreted_flags == 0 || (cl.name@ == "VarExpr"@ && f.name@ == "m_refCt"@ && f.uninterpreted_flags
        == 4 && f.base == 4 && f.modifier == 0)
}

/// Derived caches that are consumed without being written out: the reason
/// and the most items one of their containers may hold.
pub open spec fn compact_kind(class_name: Seq<char>, field_name: Seq<char>) -> Option<(Seq<char>, int)> {
    if field_name == "m_edgeHistTable"@ {
        Some(("edge-history table"@, 1_000_000))
    } else if class_name == "FilledGeomTable"@ && field_name == "m_table"@ {
        Some(("filled geometry table"@, 1_000_000))
    } else if class_name == "GeomTable"@ && field_name == "m_table"@ {
        Some(("geometry table"@, 1_000_000))
    } else if class_name == "SteelModelInfo"@ && field_name == "m_steelModelLatest"@ {
        Some(("derived steel-model cache"@, 4_000_000))
    } else if class_name == "ARasterImage"@ && field_name == "m_compressedImage"@ {
        Some(("opaque compressed raster payload"@, 4_000_000))
    } else {
        None
    }
}

/// The object a consumed cache is written as.
pub open spec fn skipped_object(s: DecodeState, field: Seq<char>, reason: Seq<char>, n: int) -> DecodeState {
    key_uint(
        key_text(
            key_text(s.emit(TokenView::BeginObject), "native_field_skipped"@, field),
            "reason"@,
            reason + "; not_materialized_in_bounded_native_graph"@,
        ),
        "item_count"@,
        n,
    ).emit(TokenView::EndObject)
}

/// A field value: a pointer, a string, a container of values, or a
/// scalar, each counted against the value budget.
pub open spec fn spec_field(
    c: DecodeContext,
    s: DecodeState,
    base: u8,
    modifier: u8,
    count: Option<u32>,
    nested: Option<Field>,
    refs: Seq<Reference>,
    depth: int,
) -> Done
    decreases room(c, depth), 3nat, 0nat,
{
    match value_budget_error(c, s, depth) {
        Some(m) => Err((m, s.pos)),
        None => {
            let s = s.counted();
            if 1 <= modifier <= 3 && base == 14 {
                spec_pointer(c, s, modifier == 3)
            } else if modifier == 0x60 && base == 8 {
                spec_text(c, s)
            } else if is_container(modifier) {
                match container_count(c, s, modifier, count) {
                    Err(e) => Err(e),
                    Ok((n, s1)) => if n > container_limit(c) {
                        Err(
                            (
                                "native container count budget exceeded ("@ + dec(n) + "; limit "@ + dec(
                                    container_limit(c),
                                ) + ")"@,
                                s1.pos,
                            ),
                        )
                    } else {
                        match spec_items(
                            c,
                            s1.emit(TokenView::BeginArray),
                            base,
                            modifier & 0xf,
                            nested,
                            refs,
                            depth,
                            0,
                            n,
                        ) {
                            Err(e) => Err(e),
                            Ok(s2) => Ok(s2.emit(TokenView::EndArray)),
                        }
                    },
                }
            } else if modifier == 0 {
                spec_scalar(c, s, base, nested, refs, depth)
            } else {
                Err(("unsupported native modifier "@ + dec(modifier as int), s.pos))
            }
        },
    }
}

/// The elements `k..n` of a container, one level deeper.
pub open spec fn spec_items(
    c: DecodeContext,
    s: DecodeState,
    base: u8,
    modifier: u8,
    nested: Option<Field>,
    refs: Seq<Reference>,
    depth: int,
    k: int,
    n: int,
) -> Done
    decreases room(c, depth), 2nat, (if k < n {
        n - k
    } else {
        0
    }) as nat,
{
    if depth >= c.limits.max_depth || k >= n {
        Ok(s)
    } else {
        match spec_field(c, s, base, modifier, None, nested, refs, depth + 1) {
            Err(e) => Err(e),
            Ok(s1) => spec_items(c, s1, base, modifier, nested, refs, depth, k + 1, n),
        }
    }
}

/// A scalar: bool, byte, signed and unsigned integers, finite floats, a
/// GUID, a nested declaration one level deeper, or an inline object of the
/// single referenced class.
pub open spec fn spec_scalar(
    c: DecodeContext,
    s: DecodeState,
    base: u8,
    nested: Option<Field>,
    refs: Seq<Reference>,
    depth: int,
) -> Done
    decreases room(c, depth), 2nat, 0nat,
{
    if depth >= c.limits.max_depth {
        Ok(s)
    } else if base == 1 {
        match spec_uint(c, s, 1) {
            Err(e) => Err(e),
            Ok((b, s1)) => if b > 1 {
                Err(("invalid native bool"@, s1.pos))
            } else {
                Ok(s1.emit(TokenView::Bool(b != 0)))
            },
        }
    } else if base == 2 {
        spec_number(c, s, 1, |v: int| TokenView::UInt(v as u64))
    } else if base == 3 {
        spec_number(c, s, 2, |v: int| TokenView::Int(signed(v, 16) as i64))
    } else if base == 4 {
        spec_number(c, s, 4, |v: int| TokenView::Int(signed(v, 32) as i64))
    } else if base == 5 {
        spec_number(c, s, 4, |v: int| TokenView::UInt(v as u64))
    } else if base == 6 {
        match spec_uint(c, s, 4) {
            Err(e) => Err(e),
            Ok((b, s1)) => if !f32_finite(b as u32) {
                Err(("nonfinite native float"@, s1.pos))
            } else {
                Ok(s1.emit(TokenView::F32(b as u32)))
            },
        }
    } else if base == 7 {
        match spec_uint(c, s, 8) {
            Err(e) => Err(e),
            Ok((b, s1)) => if !f64_finite(b as u64) {
                Err(("nonfinite native double"@, s1.pos))
            } else {
                Ok(s1.emit(TokenView::F64(b as u64)))
            },
        }
    } else if base == 9 {
        match spec_take(c, s, 16) {
            Err(e) => Err(e),
            Ok(s1) => Ok(
                s1.emit(TokenView::BeginObject).key("guid_bytes"@).emit(
                    TokenView::Bytes(c.body.subrange(s.pos, s1.pos)),
                ).emit(TokenView::EndObject),
            ),
        }
    } else if base == 11 {
        spec_number(c, s, 8, |v: int| TokenView::Int(signed(v, 64) as i64))
    } else if base == 13 {
        match nested {
            None => Err(("nested schema absent"@, s.pos)),
            Some(nf) => spec_field(
                c,
                s,
                nf.base,
                nf.modifier,
                nf.array_count,
                nested_of(nf),
                nf.references@,
                depth + 1,
            ),
        }
    } else if base == 14 {
        if refs.len() != 1 {
            Err(("inline native reference schema count"@, s.pos))
        } else {
            spec_class(c, s, refs[0].tag, depth + 1)
        }
    } else {
        Err(("unsupported native scalar "@ + dec(base as int), s.pos))
    }
}

/// An inline object: the stored fields of its lineage, most distant class
/// first, under their keys.
pub open spec fn spec_class(c: DecodeContext, s: DecodeState, tag: u16, depth: int) -> Done
    decreases room(c, depth), 3nat, 0nat,
{
    if depth >= c.limits.max_depth {
        Err(("native class recursion budget exceeded"@, s.pos))
    } else {
        match spec_lineage(c.registry, tag, depth, c.limits.max_depth as int, Seq::empty()) {
            Err(m) => Err((m, s.pos)),
            Ok(lin) => {
                let es = class_entries(c.registry, lin, lin.len() as int);
                match spec_entries(c, s.emit(TokenView::BeginObject), depth, es, 0, Seq::empty()) {
                    Err(e) => Err(e),
                    Ok(s1) => Ok(s1.emit(TokenView::EndObject)),
                }
            },
        }
    }
}

/// The entries `k..` of an object's lineage; `keys` are the keys written
/// so far, which no later field may repeat.
pub open spec fn spec_entries(
    c: DecodeContext,
    s: DecodeState,
    depth: int,
    es: Seq<Entry>,
    k: int,
    keys: Seq<Seq<char>>,
) -> Done
    decreases room(c, depth), 2nat, (if k < es.len() {
        es.len() - k
    } else {
        0
    }) as nat,
{
    if depth >= c.limits.max_depth || k < 0 || k >= es.len() {
        Ok(s)
    } else {
        let e = es[k];
        let cl = entry_class(c.registry, e);
        let f = entry_field(c.registry, e);
        if transient(f) {
            spec_entries(c, s, depth, es, k + 1, keys)
        } else if !flags_supported(cl, f) {
            Err(
                (
                    "unsupported native field flags "@ + cl.name@ + "."@ + f.name@ + ": "@ + dec(
                        f.uninterpreted_flags as int,
                    ),
                    s.pos,
                ),
            )
        } else {
            let key = field_key(c.registry, es, e);
            match spec_member(c, s.key(key), cl, f, depth + e.2 + 1) {
                Err(x) => Err(x),
                Ok(s1) => {
                    let s2 = s1.span(
                        SpanView { class_tag: cl.tag, name: f.name@, start: s.pos as usize, end: s1.pos as usize },
                    );
                    if keys.contains(key) {
                        Err(
                            (
                                "ambiguous native field key "@ + key + " in declaring class "@ + cl.name@
                                    + " (tag "@ + dec(cl.tag as int) + ")"@,
                                s2.pos,
                            ),
                        )
                    } else {
                        spec_entries(c, s2, depth, es, k + 1, keys.push(key))
                    }
                },
            }
        }
    }
}

/// The value of one stored field of a class, with the qualified special
/// cases; a failure of an ordinary field names the field.
pub open spec fn spec_member(c: DecodeContext, s: DecodeState, cl: crate::schema::Class, f: Field, depth: int) -> Done
    decreases room(c, depth), 4nat, 0nat,
{
    if cl.name@ == "SpotElevation"@ && f.name@ == "m_bendOrPosPtOffset"@ {
        spec_optional_vector(c, s, f, depth)
    } else {
        match compact_kind(cl.name@, f.name@) {
            Some((reason, max_items)) => match spec_skip_field_value(
                c,
                s,
                f.base,
                f.modifier,
                f.array_count,
                nested_of(f),
                f.references@,
                depth,
                max_items,
            ) {
                Err(e) => Err(e),
                Ok((n, s1)) => Ok(skipped_object(s1, cl.name@ + "."@ + f.name@, reason, n)),
            },
            None => if cl.name@ == "ClassDefinitionRef"@ && f.name@ == "m_ref"@ && f.base == 10
                && f.modifier == 0 {
                spec_class_ref(c, s)
            } else if cl.name@ == "ESEntity"@ && f.name@ == "m_blob"@ && f.base == 14 && f.modifier
                == 1 {
                spec_entity_pointer(c, s)
            } else if cl.name@ == "VarSketchObj"@ && f.name@ == "m_params"@ && f.base == 14
                && f.modifier == 0x54 {
                spec_field(c, s, f.base, 0x51, f.array_count, nested_of(f), f.references@, depth)
            } else {
                match spec_field(
                    c,
                    s,
                    f.base,
                    f.modifier,
                    f.array_count,
                    nested_of(f),
                    f.references@,
                    depth,
                ) {
                    Ok(s1) => Ok(s1),
                    Err((m, p)) => Err(
                        (
                            cl.name@ + "."@ + f.name@ + " [base="@ + dec(f.base as int) + ", modifier=0x"@
                                + hex_small(f.modifier) + "] at "@ + dec(p) + ": "@ + m,
                            p,
                        ),
                    ),
                }
            },
        }
    }
}

/// Consuming a field value without writing it, counted once against the
/// value budget; containers may hold at most `max_items` items.  Reads how
/// many items the outermost container held.
pub open spec fn spec_skip_field_value(
    c: DecodeContext,
    s: DecodeState,
    base: u8,
    modifier: u8,
    count: Option<u32>,
    nested: Option<Field>,
    refs: Seq<Reference>,
    depth: int,
    max_items: int,
) -> Read<int> {
    match value_budget_error(c, s, depth) {
        Some(m) => Err((m, s.pos)),
        None => spec_skip(c, s.counted(), base, modifier, count, nested, refs, depth, max_items),
    }
}

/// Consuming a value: no deferred pointer may occur inside it.
pub open spec fn spec_skip(
    c: DecodeContext,
    s: DecodeState,
    base: u8,
    modifier: u8,
    count: Option<u32>,
    nested: Option<Field>,
    refs: Seq<Reference>,
    depth: int,
    max_items: int,
) -> Read<int>
    decreases room(c, depth), 3nat, 0nat,
{
    if depth >= c.limits.max_depth {
        Err(
            (
                "native compact field recursion budget exceeded ("@ + dec(c.limits.max_depth as int) + ")"@,
                s.pos,
            ),
        )
    } else if 1 <= modifier <= 3 && base == 14 {
        match spec_uint(c, s, 4) {
            Err(e) => Err(e),
            Ok((token, s1)) => if token != 0 && modifier != 3 {
                match spec_uint(c, s1, 2) {
                    Err(e) => Err(e),
                    Ok((tag, s2)) => if class_index(c.registry, tag as u16) is None {
                        Err(("unknown native pointer class "@ + dec(tag), s2.pos))
                    } else {
                        Err(("compact native field encountered deferred pointer token "@ + dec(token), s2.pos))
                    },
                }
            } else {
                Ok((0, s1))
            },
        }
    } else if modifier == 0x60 && base == 8 {
        match spec_uint(c, s, 4) {
            Err(e) => Err(e),
            Ok((n, s1)) => if n > 1_000_000 {
                Err(("native string unit budget exceeded"@, s1.pos))
            } else {
                match spec_take(c, s1, n * 2) {
                    Err(e) => Err(e),
                    Ok(s2) => Ok((0, s2)),
                }
            },
        }
    } else if is_container(modifier) {
        match container_count(c, s, modifier, count) {
            Err(e) => Err(e),
            Ok((n, s1)) => if n > max_items {
                Err(("native compact container count budget exceeded"@, s1.pos))
            } else {
                match spec_skip_items(c, s1, base, modifier & 0xf, nested, refs, depth, 0, n, max_items) {
                    Err(e) => Err(e),
                    Ok(s2) => Ok((n, s2)),
                }
            },
        }
    } else if modifier == 0 {
        spec_skip_scalar(c, s, base, nested, refs, depth, max_items)
    } else {
        Err(("unsupported native compact modifier "@ + dec(modifier as int), s.pos))
    }
}

/// Consuming the elements `k..n` of a container, one level deeper.
pub open spec fn spec_skip_items(
    c: DecodeContext,
    s: DecodeState,
    base: u8,
    modifier: u8,
    nested: Option<Field>,
    refs: Seq<Reference>,
    depth: int,
    k: int,
    n: int,
    max_items: int,
) -> Done
    decreases room(c, depth), 2nat, (if k < n {
        n - k
    } else {
        0
    }) as nat,
{
    if depth >= c.limits.max_depth || k >= n {
        Ok(s)
    } else {
        match spec_skip(c, s, base, modifier, None, nested, refs, depth + 1, max_items) {
            Err(e) => Err(e),
            Ok((_, s1)) => spec_skip_items(c, s1, base, modifier, nested, refs, depth, k + 1, n, max_items),
        }
    }
}

/// Consuming a scalar by its width.
pub open spec fn spec_skip_scalar(
    c: DecodeContext,
    s: DecodeState,
    base: u8,
    nested: Option<Field>,
    refs: Seq<Reference>,
    depth: int,
    max_items: int,
) -> Read<int>
    decreases room(c, depth), 2nat, 0nat,
{
    if depth >= c.limits.max_depth {
        Ok((0, s))
    } else if base == 13 {
        match nested {
            None => Err(("nested schema absent"@, s.pos)),
            Some(nf) => spec_skip(
                c,
                s,
                nf.base,
                nf.modifier,
                nf.array_count,
                nested_of(nf),
                nf.references@,
                depth + 1,
                max_items,
            ),
        }
    } else if base == 14 {
        if refs.len() != 1 {
            Err(("inline native reference schema count"@, s.pos))
        } else {
            match spec_skip_class(c, s, refs[0].tag, depth + 1, max_items) {
                Err(e) => Err(e),
                Ok(s1) => Ok((0, s1)),
            }
        }
    } else {
        let width = if base == 1 || base == 2 {
            1int
        } else if base == 3 {
            2
        } else if base == 4 || base == 5 || base == 6 {
            4
        } else if base == 7 || base == 11 {
            8
        } else if base == 9 {
            16
        } else {
            0
        };
        if width == 0 {
            Err(("unsupported native compact scalar "@ + dec(base as int), s.pos))
        } else {
            match spec_take(c, s, width) {
                Err(e) => Err(e),
                Ok(s1) => Ok((0, s1)),
            }
        }
    }
}

/// Consuming an inline object: every stored field of its lineage.
pub open spec fn spec_skip_class(c: DecodeContext, s: DecodeState, tag: u16, depth: int, max_items: int) -> Done
    decreases room(c, depth), 3nat, 0nat,
{
    if depth >= c.limits.max_depth {
        Err(("native class recursion budget exceeded"@, s.pos))
    } else {
        match spec_lineage(c.registry, tag, depth, c.limits.max_depth as int, Seq::empty()) {
            Err(m) => Err((m, s.pos)),
            Ok(lin) => spec_skip_fields(c, s, depth, class_entries(c.registry, lin, lin.len() as int), 0, max_items),
        }
    }
}

/// Consuming the entries `k..` of a lineage.
pub open spec fn spec_skip_fields(
    c: DecodeContext,
    s: DecodeState,
    depth: int,
    es: Seq<Entry>,
    k: int,
    max_items: int,
) -> Done
    decreases room(c, depth), 2nat, (if k < es.len() {
        es.len() - k
    } else {
        0
    }) as nat,
{
    if depth >= c.limits.max_depth || k < 0 || k >= es.len() {
        Ok(s)
    } else {
        let cl = entry_class(c.registry, es[k]);
        let f = entry_field(c.registry, es[k]);
        if transient(f) {
            spec_skip_fields(c, s, depth, es, k + 1, max_items)
        } else if f.uninterpreted_flags != 0 {
            Err(
                (
                    "unsupported compact native field flags "@ + cl.name@ + "."@ + f.name@ + ": "@ + dec(
                        f.uninterpreted_flags as int,
                    ),
                    s.pos,
                ),
            )
        } else {
            match spec_skip(
                c,
                s,
                f.base,
                f.modifier,
                f.array_count,
                nested_of(f),
                f.references@,
                depth + 1,
                max_items,
            ) {
                Err(e) => Err(e),
                Ok((_, s1)) => spec_skip_fields(c, s1, depth, es, k + 1, max_items),
            }
        }
    }
}

/// How many declared fields carry the index.
pub open spec fn index_count(fs: Seq<crate::extensible_storage::Field>, i: int) -> nat
    decreases fs.len(),
{
    if fs.len() == 0 {
        0
    } else {
        index_count(fs.drop_last(), i) + (if fs.last().index == i {
            1nat
        } else {
            0nat
        })
    }
}

/// The stored indices of the fields are `0..n`, each once.
pub open spec fn indices_contiguous(fs: Seq<crate::extensible_storage::Field>) -> bool {
    forall|i: int| 0 <= i < fs.len() ==> #[trigger] index_count(fs, i) == 1
}

/// `j` is the first field that carries the index.
pub open spec fn first_with_index(fs: Seq<crate::extensible_storage::Field>, i: int, j: int) -> bool {
    &&& 0 <= j < fs.len()
    &&& fs[j].index == i
    &&& forall|k: int| 0 <= k < j ==> (#[trigger] fs[k]).index != i
}

/// The field stored at index `i`.
pub open spec fn index_position(fs: Seq<crate::extensible_storage::Field>, i: int) -> int {
    choose|j: int| first_with_index(fs, i, j)
}

/// The scalar and modifier of an Extensible Storage value type; other
/// names are classes of the schema.
pub open spec fn es_scalar(name: Seq<char>) -> (u8, u8) {
    if name == "bool"@ {
        (1, 0)
    } else if name == "char"@ {
        (2, 0)
    } else if name == "short"@ {
        (3, 0)
    } else if name == "int"@ {
        (4, 0)
    } else if name == "int64_t"@ {
        (11, 0)
    } else if name == "float"@ {
        (6, 0)
    } else if name == "double"@ {
        (7, 0)
    } else if name == "TCHAR"@ {
        (8, 0x60)
    } else {
        (14, 0)
    }
}

/// A map element type is a pair declaration.
pub open spec fn is_pair_declaration(name: Seq<char>) -> bool {
    name.len() >= 10 && name.subrange(0, 10) == "std::pair<"@
}

/// An Extensible Storage value of a declared type: a single value, an
/// array (container 1) or a map of pairs (container 2).
pub open spec fn spec_es_value(c: DecodeContext, s: DecodeState, name: Seq<char>, container: i32) -> Done {
    if container < 0 || container > 2 {
        Err(("unqualified ES container "@ + signed_text(container as int), s.pos))
    } else {
        let (base, scalar_modifier) = es_scalar(name);
        let refs: Option<Seq<Reference>> = if base == 14 {
            match named_index(c.registry, name) {
                None => None,
                Some(i) => Some(seq![Reference { offset: 0, tag: c.registry.classes@[i].tag, introduces_definition: false }]),
            }
        } else {
            Some(Seq::empty())
        };
        match refs {
            None => Err(("ES type absent from saved Formats registry: "@ + name, s.pos)),
            Some(rs) => if container != 0 && name == "TCHAR"@ {
                Err(("ES character-string array needs explicit element wrapper"@, s.pos))
            } else if container == 2 && !is_pair_declaration(name) {
                Err(("ES map element lacks pair declaration"@, s.pos))
            } else {
                spec_field(c, s, base, if container != 0 { 0x50 } else { scalar_modifier }, None, None, rs, 0)
            },
        }
    }
}

/// An optional text as a token.
pub open spec fn opt_text(o: Option<String>) -> TokenView {
    match o {
        Some(t) => TokenView::Text(t@),
        None => TokenView::Null,
    }
}

/// The storage unit a saved spec qualifies, and the status of that claim.
pub open spec fn unit_of(spec_type_id: Option<String>) -> (TokenView, Seq<char>) {
    match spec_type_id {
        Some(t) => if t@ == "autodesk.spec.aec:length-2.0.1"@ {
            (TokenView::Text("autodesk.unit.unit:millimeters-1.0.1"@), "qualified_es_default_metric_length"@)
        } else if t@.len() == 0 {
            (TokenView::Null, "no_saved_spec"@)
        } else {
            (TokenView::Null, "unqualified_spec_storage_units"@)
        },
        None => (TokenView::Null, "no_saved_spec"@),
    }
}

/// What an entity field object holds before its value.
pub open spec fn es_field_head(s: DecodeState, f: crate::extensible_storage::Field) -> DecodeState {
    key_uint(
        s.emit(TokenView::BeginObject).key("index"@).emit(TokenView::UInt(f.index as u64)).key("name"@).emit(
            TokenView::Text(f.name@),
        ).key("type_name"@).emit(TokenView::Text(f.field_type@)).key("container_type"@).emit(
            TokenView::Int(f.container_type as i64),
        ).key("spec_type_id"@).emit(opt_text(f.spec_type_id)).key("subschema_guid"@).emit(
            opt_text(f.subschema_guid),
        ),
        "start"@,
        s.pos,
    ).key("raw_value"@)
}

/// What an entity field object holds after its value.
pub open spec fn es_field_tail(s: DecodeState, f: crate::extensible_storage::Field) -> DecodeState {
    key_text(
        key_text(key_uint(s, "end"@, s.pos), "value_semantics"@, "serialized_value"@).key(
            "serialized_unit_type_id"@,
        ).emit(unit_of(f.spec_type_id).0),
        "unit_status"@,
        unit_of(f.spec_type_id).1,
    ).emit(TokenView::EndObject)
}

/// The fields of an entity with stored indices `i..`, in index order.
pub open spec fn spec_es_fields(c: DecodeContext, s: DecodeState, fs: Seq<crate::extensible_storage::Field>, i: int) -> Done
    decreases fs.len() - i,
{
    if i < 0 || i >= fs.len() {
        Ok(s)
    } else {
        let f = fs[index_position(fs, i)];
        match spec_es_value(c, es_field_head(s, f), f.field_type@, f.container_type) {
            Err(e) => Err(e),
            Ok(s1) => spec_es_fields(c, es_field_tail(s1, f), fs, i + 1),
        }
    }
}

/// The payload of an Extensible Storage entity of the schema declared
/// under `guid`: its source-bound prefix, then its fields in stored index
/// order.
#[verifier::opaque]
pub open spec fn spec_entity_fields(c: DecodeContext, s: DecodeState, guid: Seq<char>) -> Done {
    match c.catalog {
        None => Err(("ES schema unavailable"@, s.pos)),
        Some(cat) => match guid_index(cat, guid) {
            None => Err(("ES schema unavailable"@, s.pos)),
            Some(i) => {
                let schema = cat[i as int];
                let fs = schema.fields@;
                if !indices_contiguous(fs) {
                    Err(("ES field indices are not unique and contiguous"@, s.pos))
                } else if c.prefixes[i as int] > 64 {
                    Err(("ES source-bound payload prefix exceeds bounded qualification"@, s.pos))
                } else {
                    let prefix = c.prefixes[i as int];
                    match spec_take(c, s, prefix as int) {
                        Err(e) => Err(e),
                        Ok(s1) => {
                            let s2 = key_text(key_text(s1.emit(TokenView::BeginObject), "schema_guid"@, guid), "schema_name"@, schema.name@).key(
                                "source_bound_payload_prefix"@,
                            );
                            let s3 = if prefix == 0 {
                                s2.emit(TokenView::Null)
                            } else {
                                key_uint(key_uint(s2.emit(TokenView::BeginObject), "start"@, s.pos), "end"@, s1.pos).key("bytes"@).emit(
                                    TokenView::Bytes(c.body.subrange(s.pos, s1.pos)),
                                ).emit(TokenView::EndObject)
                            };
                            match spec_es_fields(c, s3.key("fields"@).emit(TokenView::BeginArray), fs, 0) {
                                Err(e) => Err(e),
                                Ok(s4) => Ok(s4.emit(TokenView::EndArray).emit(TokenView::EndObject)),
                            }
                        },
                    }
                }
            },
        },
    }
}

} // verus!
