//! File-local Extensible Storage schema declarations, keyed by GUID, with
//! the merge of source-bound declarations that never override them.
use vstd::prelude::*;

use crate::order::{lemma_name_lt_asymmetric, lemma_name_lt_irreflexive, lemma_name_lt_total, lemma_name_lt_transitive, name_lt, name_lt_exec};
use crate::text::{hex_bytes, hex_text, push_str, str_eq};

verus! {

/// A JSON value carried through unread.
#[verifier::external_type_specification]
#[verifier::external_body]
pub struct ExJsonValue(serde_json::Value);

/// One declared field of a schema.
#[derive(Debug)]
pub struct Field {
    pub index: u32,
    pub name: String,
    pub field_type: String,
    pub container_type: i32,
    pub subschema_guid: Option<String>,
    pub spec_type_id: Option<String>,
    pub raw_metadata: serde_json::Value,
}

/// One schema declaration.
#[derive(Debug)]
pub struct Schema {
    /// Canonical GUID text, in the serialized Windows byte order.
    pub guid: String,
    pub name: String,
    pub fields: Vec<Field>,
    /// The length of the source-bound payload prefix the declaration
    /// qualifies (its metadata's `source_bound_payload_prefix_bytes`).
    pub source_bound_payload_prefix_bytes: Option<u64>,
    pub raw_metadata: serde_json::Value,
}

/// The payload prefix length a schema declares, or 0 when it declares none.
pub open spec fn prefix_of(s: Schema) -> u64 {
    match s.source_bound_payload_prefix_bytes {
        Some(n) => n,
        None => 0,
    }
}

/// The declared payload prefix lengths of a sequence of schemas, in order.
pub open spec fn schema_prefixes(s: Seq<Schema>) -> Seq<u64> {
    s.map_values(|x: Schema| prefix_of(x))
}

/// Why a declaration was refused.
#[derive(Clone, Debug, PartialEq, Eq)]
pub enum CatalogError {
    DuplicateGuid,
    DuplicateFieldName,
    DuplicateFieldIndex,
    /// The field indices are not `0..n` for `n` fields.
    NoncontiguousFieldIndices,
    /// A source-bound declaration names a GUID declared by the file.
    ConflictsWithFileLocal(String),
}

/// The GUIDs of a sequence of schemas.
pub open spec fn guids(s: Seq<Schema>) -> Seq<Seq<char>> {
    s.map_values(|x: Schema| x.guid@)
}

/// Some schema carries the GUID.
pub open spec fn has_guid(s: Seq<Schema>, g: Seq<char>) -> bool {
    exists|i: int| 0 <= i < s.len() && (#[trigger] s[i]).guid@ == g
}

/// The first repeated field name or index, in declaration order: for the
/// first field repeating an earlier name or index, a repeated name wins.
pub open spec fn field_repeat(fields: Seq<Field>) -> Option<CatalogError>
    decreases fields.len(),
{
    if fields.len() == 0 {
        None
    } else {
        match field_repeat(fields.drop_last()) {
            Some(e) => Some(e),
            None => {
                let f = fields.last();
                if exists|j: int| 0 <= j < fields.len() - 1 && (#[trigger] fields[j]).name@ == f.name@ {
                    Some(CatalogError::DuplicateFieldName)
                } else if exists|j: int| 0 <= j < fields.len() - 1 && (#[trigger] fields[j]).index == f.index {
                    Some(CatalogError::DuplicateFieldIndex)
                } else {
                    None
                }
            },
        }
    }
}

/// Why a schema's fields are refused, if they are: a repeated name or
/// index, else an index at or above the field count (distinct indices
/// below `n` are exactly `0..n`).
pub open spec fn schema_error(fields: Seq<Field>) -> Option<CatalogError> {
    match field_repeat(fields) {
        Some(e) => Some(e),
        None => if exists|i: int| 0 <= i < fields.len() && (#[trigger] fields[i]).index >= fields.len() {
            Some(CatalogError::NoncontiguousFieldIndices)
        } else {
            None
        },
    }
}

/// Where a GUID belongs in a GUID-ordered sequence: after the leading
/// schemas whose GUIDs order before it.
pub open spec fn guid_position(s: Seq<Schema>, g: Seq<char>) -> int
    decreases s.len(),
{
    if s.len() == 0 {
        0
    } else if name_lt(s[0].guid@, g) {
        1 + guid_position(s.drop_first(), g)
    } else {
        0
    }
}

/// The position of the first schema from `i` on that carries the GUID.
pub open spec fn guid_index_from(s: Seq<Schema>, g: Seq<char>, i: int) -> Option<usize>
    decreases s.len() - i,
{
    if i < 0 || i >= s.len() {
        None
    } else if s[i].guid@ == g {
        Some(i as usize)
    } else {
        guid_index_from(s, g, i + 1)
    }
}

/// The position of the first schema that carries the GUID.
pub open spec fn guid_index(s: Seq<Schema>, g: Seq<char>) -> Option<usize> {
    guid_index_from(s, g, 0)
}

/// GUIDs strictly increase.
pub open spec fn guids_sorted(s: Seq<Schema>) -> bool {
    forall|i: int, j: int| 0 <= i < j < s.len() ==> name_lt((#[trigger] s[i]).guid@, (#[trigger] s[j]).guid@)
}

/// Declaring one schema: refused for a declared GUID or malformed fields,
/// else placed in GUID order.
pub open spec fn spec_insert(s: Seq<Schema>, schema: Schema) -> Result<Seq<Schema>, CatalogError> {
    if has_guid(s, schema.guid@) {
        Err(CatalogError::DuplicateGuid)
    } else {
        match schema_error(schema.fields@) {
            Some(e) => Err(e),
            None => Ok(s.insert(guid_position(s, schema.guid@), schema)),
        }
    }
}

/// Merging source-bound schemas in order; a GUID the catalog already
/// declares ends the merge with a conflict, keeping what was merged.
pub open spec fn extend_fold(s: Seq<Schema>, others: Seq<Schema>) -> (Seq<Schema>, Result<(), CatalogError>)
    decreases others.len(),
{
    if others.len() == 0 {
        (s, Ok(()))
    } else {
        let (s1, r1) = extend_fold(s, others.drop_last());
        if r1 is Err {
            (s1, r1)
        } else {
            let x = others.last();
            if has_guid(s1, x.guid@) {
                (s1, Err(CatalogError::ConflictsWithFileLocal(x.guid)))
            } else {
                match spec_insert(s1, x) {
                    Err(e) => (s1, Err(e)),
                    Ok(s2) => (s2, Ok(())),
                }
            }
        }
    }
}

fn check_fields(fields: &Vec<Field>) -> (r: Option<CatalogError>)
    requires
        fields@.len() <= u32::MAX,
    ensures
        r == schema_error(fields@),
{
    let n = fields.len();
    let mut k: usize = 0;
    proof {
        assert(fields@.take(0) =~= Seq::<Field>::empty());
    }
    while k < n
        invariant
            n == fields@.len(),
            k <= n,
            field_repeat(fields@.take(k as int)) is None,
        decreases n - k,
    {
        let mut j: usize = 0;
        let mut name_seen = false;
        let mut index_seen = false;
        while j < k
            invariant
                n == fields@.len(),
                j <= k < n,
                name_seen == exists|i: int| 0 <= i < j && (#[trigger] fields@[i]).name@ == fields@[k as int].name@,
                index_seen == exists|i: int| 0 <= i < j && (#[trigger] fields@[i]).index == fields@[k as int].index,
            decreases k - j,
        {
            if str_eq(fields[j].name.as_str(), fields[k].name.as_str()) {
                name_seen = true;
            }
            if fields[j].index == fields[k].index {
                index_seen = true;
            }
            j += 1;
        }
        let ghost t = fields@.take(k + 1);
        proof {
            assert(t.drop_last() =~= fields@.take(k as int));
            assert(t.last() == fields@[k as int]);
            assert forall|i: int| 0 <= i < k implies t[i] == fields@[i] by {}
        }
        if name_seen {
            proof {
                let i = choose|i: int| 0 <= i < k && (#[trigger] fields@[i]).name@ == fields@[k as int].name@;
                assert(t[i].name@ == t.last().name@);
                assert(field_repeat(t) == Some(CatalogError::DuplicateFieldName));
                lemma_field_repeat_prefix(fields@, k + 1);
            }
            return Some(CatalogError::DuplicateFieldName);
        }
        if index_seen {
            proof {
                let i = choose|i: int| 0 <= i < k && (#[trigger] fields@[i]).index == fields@[k as int].index;
                assert(t[i].index == t.last().index);
                assert(!exists|j: int| 0 <= j < t.len() - 1 && (#[trigger] t[j]).name@ == t.last().name@) by {
                    assert forall|j: int| 0 <= j < t.len() - 1 implies (#[trigger] t[j]).name@ != t.last().name@ by {
                        assert(t[j] == fields@[j]);
                    }
                }
                assert(field_repeat(t) == Some(CatalogError::DuplicateFieldIndex));
                lemma_field_repeat_prefix(fields@, k + 1);
            }
            return Some(CatalogError::DuplicateFieldIndex);
        }
        proof {
            assert forall|j: int| 0 <= j < t.len() - 1 implies (#[trigger] t[j]).name@ != t.last().name@ && t[j].index != t.last().index by {
                assert(t[j] == fields@[j]);
            }
            assert(field_repeat(t) is None);
        }
        k += 1;
    }
    proof {
        assert(fields@.take(n as int) =~= fields@);
    }
    let mut i: usize = 0;
    while i < n
        invariant
            n == fields@.len(),
            n <= u32::MAX,
            i <= n,
            field_repeat(fields@) is None,
            forall|m: int| 0 <= m < i ==> (#[trigger] fields@[m]).index < n,
        decreases n - i,
    {
        if fields[i].index as usize >= n {
            return Some(CatalogError::NoncontiguousFieldIndices);
        }
        i += 1;
    }
    None
}

proof fn lemma_field_repeat_prefix(fields: Seq<Field>, n: int)
    requires
        0 <= n <= fields.len(),
        field_repeat(fields.take(n)) is Some,
    ensures
        field_repeat(fields) == field_repeat(fields.take(n)),
    decreases fields.len() - n,
{
    if n == fields.len() {
        assert(fields.take(n) =~= fields);
    } else {
        assert(fields.take(n + 1).drop_last() =~= fields.take(n));
        lemma_field_repeat_prefix(fields, n + 1);
    }
}

/// The canonical text of a GUID stored with its first three groups
/// little-endian.
pub open spec fn guid_text(raw: Seq<u8>) -> Seq<char> {
    hex_text(seq![raw[3], raw[2], raw[1], raw[0]]) + "-"@ + hex_text(seq![raw[5], raw[4]]) + "-"@
        + hex_text(seq![raw[7], raw[6]]) + "-"@ + hex_text(raw.subrange(8, 10)) + "-"@ + hex_text(
        raw.subrange(10, 16),
    )
}

/// The canonical text of the GUID stored in the sixteen bytes at `p`.
pub fn guid_string_at(body: &[u8], p: usize) -> (r: String)
    requires
        p + 16 <= body@.len(),
    ensures
        r@ == guid_text(body@.subrange(p as int, p + 16)),
{
    let ghost raw = body@.subrange(p as int, p + 16);
    let _len = body.len();
    let a = vec![body[p + 3], body[p + 2], body[p + 1], body[p]];
    let b = vec![body[p + 5], body[p + 4]];
    let c = vec![body[p + 7], body[p + 6]];
    let d = vec![body[p + 8], body[p + 9]];
    let e = vec![body[p + 10], body[p + 11], body[p + 12], body[p + 13], body[p + 14], body[p + 15]];
    proof {
        assert(a@ =~= seq![raw[3], raw[2], raw[1], raw[0]]);
        assert(b@ =~= seq![raw[5], raw[4]]);
        assert(c@ =~= seq![raw[7], raw[6]]);
        assert(d@ =~= raw.subrange(8, 10));
        assert(e@ =~= raw.subrange(10, 16));
    }
    let mut s = hex_bytes(a.as_slice());
    push_str(&mut s, "-");
    push_str(&mut s, hex_bytes(b.as_slice()).as_str());
    push_str(&mut s, "-");
    push_str(&mut s, hex_bytes(c.as_slice()).as_str());
    push_str(&mut s, "-");
    push_str(&mut s, hex_bytes(d.as_slice()).as_str());
    push_str(&mut s, "-");
    push_str(&mut s, hex_bytes(e.as_slice()).as_str());
    s
}

/// The canonical text of a GUID stored with its first three groups
/// little-endian.
pub fn guid_string(raw: [u8; 16]) -> (r: String)
    ensures
        r@ == guid_text(raw@),
{
    let bytes: &[u8] = &raw;
    proof {
        assert(bytes@.subrange(0, 16) =~= raw@);
    }
    guid_string_at(bytes, 0)
}

/// The declared schemas of a document, by GUID.
#[derive(Debug)]
pub struct Catalog {
    schemas: Vec<Schema>,
}

impl Catalog {
    /// The schemas in GUID order.
    pub closed spec fn view(&self) -> Seq<Schema> {
        self.schemas@
    }

    /// GUIDs are unique and ordered.
    pub closed spec fn wf(&self) -> bool {
        guids_sorted(self.schemas@)
    }

    /// A catalog that declares nothing.
    pub fn new() -> (r: Self)
        ensures
            r.wf(),
            r.view() == Seq::<Schema>::empty(),
    {
        Catalog { schemas: Vec::new() }
    }

    /// The number of declared schemas.
    pub fn len(&self) -> (r: usize)
        ensures
            r == self.view().len(),
    {
        self.schemas.len()
    }

    /// The schema declared under `guid`.
    pub fn get(&self, guid: &str) -> (r: Option<&Schema>)
        ensures
            match r {
                Some(s) => s.guid@ == guid@ && exists|i: int| 0 <= i < self.view().len() && self.view()[i] == *s,
                None => !has_guid(self.view(), guid@),
            },
    {
        let mut i: usize = 0;
        while i < self.schemas.len()
            invariant
                i <= self.schemas@.len(),
                forall|k: int| 0 <= k < i ==> (#[trigger] self.schemas@[k]).guid@ != guid@,
            decreases self.schemas@.len() - i,
        {
            if str_eq(self.schemas[i].guid.as_str(), guid) {
                proof {
                    assert(self.view()[i as int] == self.schemas@[i as int]);
                }
                return Some(&self.schemas[i]);
            }
            i += 1;
        }
        None
    }

    /// The position of the schema declared under `guid`: the first one.
    pub fn find(&self, guid: &str) -> (r: Option<usize>)
        ensures
            r == guid_index(self.view(), guid@),
            r matches Some(i) ==> i < self.view().len(),
    {
        let mut i: usize = 0;
        while i < self.schemas.len()
            invariant
                i <= self.schemas@.len(),
                guid_index(self.view(), guid@) == guid_index_from(self.view(), guid@, i as int),
            decreases self.schemas@.len() - i,
        {
            if str_eq(self.schemas[i].guid.as_str(), guid) {
                return Some(i);
            }
            i += 1;
        }
        None
    }

    /// For each schema, in order, the length of the source-bound payload
    /// prefix it declares, or 0.
    pub fn source_bound_prefixes(&self) -> (r: Vec<u64>)
        ensures
            r@ == schema_prefixes(self.view()),
    {
        let mut r: Vec<u64> = Vec::new();
        let mut i: usize = 0;
        while i < self.schemas.len()
            invariant
                i <= self.schemas@.len(),
                r@ == schema_prefixes(self.schemas@.take(i as int)),
            decreases self.schemas@.len() - i,
        {
            let declared = match self.schemas[i].source_bound_payload_prefix_bytes {
                Some(n) => n,
                None => 0,
            };
            proof {
                assert(self.schemas@.take(i + 1) =~= self.schemas@.take(i as int).push(self.schemas@[i as int]));
                assert(schema_prefixes(self.schemas@.take(i + 1)) =~= schema_prefixes(self.schemas@.take(i as int)).push(declared));
            }
            r.push(declared);
            i += 1;
        }
        proof {
            assert(self.schemas@.take(i as int) =~= self.schemas@);
        }
        r
    }

    /// The schema at a position.
    pub fn schema_at(&self, i: usize) -> (r: &Schema)
        requires
            i < self.view().len(),
        ensures
            *r == self.view()[i as int],
    {
        &self.schemas[i]
    }

    fn position(&self, guid: &str) -> (r: (usize, bool))
        requires
            self.wf(),
        ensures
            r.1 == has_guid(self.view(), guid@),
            r.0 == guid_position(self.view(), guid@),
            r.0 <= self.view().len(),
            forall|k: int| 0 <= k < r.0 ==> name_lt((#[trigger] self.view()[k]).guid@, guid@),
            r.0 < self.view().len() ==> !name_lt(self.view()[r.0 as int].guid@, guid@),
    {
        let ghost s = self.schemas@;
        let mut p: usize = 0;
        proof {
            assert(s.skip(0) =~= s);
        }
        while p < self.schemas.len() && name_lt_exec(self.schemas[p].guid.as_str(), guid)
            invariant
                s == self.schemas@,
                p <= s.len(),
                forall|k: int| 0 <= k < p ==> name_lt((#[trigger] s[k]).guid@, guid@),
                guid_position(s, guid@) == p + guid_position(s.skip(p as int), guid@),
            decreases s.len() - p,
        {
            proof {
                assert(s.skip(p as int).drop_first() =~= s.skip(p + 1));
                assert(s.skip(p as int)[0] == s[p as int]);
            }
            p += 1;
        }
        proof {
            if p < s.len() {
                assert(s.skip(p as int)[0] == s[p as int]);
            }
        }
        let found = p < self.schemas.len() && str_eq(self.schemas[p].guid.as_str(), guid);
        proof {
            if found {
                assert(s[p as int].guid@ == guid@);
            } else {
                assert forall|i: int| 0 <= i < s.len() implies (#[trigger] s[i]).guid@ != guid@ by {
                    if i < p {
                        lemma_name_lt_irreflexive(guid@);
                    } else if i > p {
                        assert(name_lt(s[p as int].guid@, s[i].guid@));
                        lemma_name_lt_total(s[p as int].guid@, guid@);
                        if s[i].guid@ == guid@ {
                            lemma_name_lt_asymmetric(s[p as int].guid@, guid@);
                        }
                    }
                }
            }
        }
        (p, found)
    }

    /// Declares one schema: a declared GUID, a repeated field name or
    /// index, or field indices other than `0..n` are refused and change
    /// nothing; otherwise the schema is kept in GUID order.
    pub fn insert(&mut self, schema: Schema) -> (r: Result<(), CatalogError>)
        requires
            old(self).wf(),
            schema.fields@.len() <= u32::MAX,
        ensures
            final(self).wf(),
            match spec_insert(old(self).view(), schema) {
                Err(e) => r == Err::<(), CatalogError>(e) && final(self).view() == old(self).view(),
                Ok(s) => r is Ok && final(self).view() == s,
            },
    {
        let (p, found) = self.position(schema.guid.as_str());
        if found {
            return Err(CatalogError::DuplicateGuid);
        }
        match check_fields(&schema.fields) {
            Some(e) => return Err(e),
            None => {},
        }
        let ghost s = self.schemas@;
        let ghost g = schema.guid@;
        proof {
            if p < s.len() {
                assert(s[p as int].guid@ != g);
                lemma_name_lt_total(s[p as int].guid@, g);
                assert(name_lt(g, s[p as int].guid@));
            }
            assert forall|k: int| p <= k < s.len() implies name_lt(g, (#[trigger] s[k]).guid@) by {
                if k > p {
                    assert(name_lt(s[p as int].guid@, s[k].guid@));
                    lemma_name_lt_transitive(g, s[p as int].guid@, s[k].guid@);
                }
            }
        }
        self.schemas.insert(p, schema);
        proof {
            let t = self.schemas@;
            assert forall|i: int, j: int| 0 <= i < j < t.len() implies name_lt((#[trigger] t[i]).guid@, (#[trigger] t[j]).guid@) by {
                if j < p {
                    assert(t[i] == s[i] && t[j] == s[j]);
                } else if j == p {
                    assert(t[i] == s[i]);
                } else if i < p {
                    assert(t[i] == s[i] && t[j] == s[j - 1]);
                    lemma_name_lt_transitive(s[i].guid@, g, s[j - 1].guid@);
                } else if i == p {
                    assert(t[j] == s[j - 1]);
                } else {
                    assert(t[i] == s[i - 1] && t[j] == s[j - 1]);
                }
            }
        }
        Ok(())
    }

    /// Merges declarations bound to this exact source, in their GUID order.
    /// A file-local declaration always wins: a GUID already declared ends
    /// the merge with a conflict, and the merged declarations stay.
    pub fn extend_nonconflicting(&mut self, other: Catalog) -> (r: Result<(), CatalogError>)
        requires
            old(self).wf(),
            forall|i: int| 0 <= i < other.view().len() ==> (#[trigger] other.view()[i]).fields@.len() <= u32::MAX,
        ensures
            final(self).wf(),
            (final(self).view(), r) == extend_fold(old(self).view(), other.view()),
    {
        let ghost others = other.schemas@;
        proof {
            assert(others == other.view());
        }
        let mut rest = other.schemas;
        let n = rest.len();
        proof {
            assert(others.take(0) =~= Seq::<Schema>::empty());
            assert(rest@ =~= others.skip(0));
        }
        let mut i: usize = 0;
        while i < n
            invariant
                n == others.len(),
                others == other.view(),
                i <= n,
                rest@ == others.skip(i as int),
                self.wf(),
                forall|k: int| 0 <= k < others.len() ==> (#[trigger] others[k]).fields@.len() <= u32::MAX,
                extend_fold(old(self).view(), others.take(i as int)) == (self.view(), Ok::<(), CatalogError>(())),
            decreases n - i,
        {
            let schema = rest.remove(0);
            proof {
                assert(schema == others[i as int]);
                assert(rest@ =~= others.skip(i + 1));
                assert(others.take(i + 1).drop_last() =~= others.take(i as int));
                assert(others.take(i + 1).last() == others[i as int]);
            }
            let (_, found) = self.position(schema.guid.as_str());
            if found {
                proof {
                    assert(extend_fold(old(self).view(), others.take(i + 1)) == (self.view(), Err::<(), CatalogError>(CatalogError::ConflictsWithFileLocal(others[i as int].guid))));
                    lemma_extend_fold_err(old(self).view(), others, i + 1);
                }
                return Err(CatalogError::ConflictsWithFileLocal(schema.guid));
            }
            let ghost before = self.view();
            match self.insert(schema) {
                Ok(()) => {},
                Err(e) => {
                    proof {
                        assert(extend_fold(old(self).view(), others.take(i + 1)) == (before, Err::<(), CatalogError>(e)));
                        lemma_extend_fold_err(old(self).view(), others, i + 1);
                    }
                    return Err(e);
                },
            }
            i += 1;
        }
        proof {
            assert(others.take(n as int) =~= others);
        }
        Ok(())
    }
}

proof fn lemma_extend_fold_err(s: Seq<Schema>, others: Seq<Schema>, n: int)
    requires
        0 <= n <= others.len(),
        extend_fold(s, others.take(n)).1 is Err,
    ensures
        extend_fold(s, others) == extend_fold(s, others.take(n)),
    decreases others.len() - n,
{
    if n == others.len() {
        assert(others.take(n) =~= others);
    } else {
        assert(others.take(n + 1).drop_last() =~= others.take(n));
        lemma_extend_fold_err(s, others, n + 1);
    }
}

proof fn lemma_guid_position_range(s: Seq<Schema>, g: Seq<char>)
    ensures
        0 <= guid_position(s, g) <= s.len(),
    decreases s.len(),
{
    if s.len() > 0 {
        lemma_guid_position_range(s.drop_first(), g);
    }
}

/// A merge never changes or drops a declaration the catalog already had,
/// whether it succeeds or ends in a conflict.
pub proof fn lemma_merge_keeps_file_local(s: Seq<Schema>, others: Seq<Schema>)
    ensures
        forall|i: int| 0 <= i < s.len() ==> #[trigger] extend_fold(s, others).0.contains(s[i]),
    decreases others.len(),
{
    if others.len() > 0 {
        lemma_merge_keeps_file_local(s, others.drop_last());
        let (s1, r1) = extend_fold(s, others.drop_last());
        if r1 is Ok {
            let x = others.last();
            if !has_guid(s1, x.guid@) {
                if let Ok(s2) = spec_insert(s1, x) {
                    let p = guid_position(s1, x.guid@);
                    lemma_guid_position_range(s1, x.guid@);
                    assert forall|i: int| 0 <= i < s.len() implies #[trigger] s2.contains(s[i]) by {
                        assert(s1.contains(s[i]));
                        let k = choose|k: int| 0 <= k < s1.len() && s1[k] == s[i];
                        if k < p {
                            assert(s2[k] == s1[k]);
                        } else {
                            assert(s2[k + 1] == s1[k]);
                        }
                    }
                }
            }
        }
    }
}

} // verus!

verus! {

proof fn lemma_hex_digit_injective(n: int, m: int)
    requires
        0 <= n < 16,
        0 <= m < 16,
        crate::text::hex_digit(n) == crate::text::hex_digit(m),
    ensures
        n == m,
{
    let c = crate::text::hex_digit(n);
    if n < 10 {
        assert(c as int == 48 + n);
    } else {
        assert(c as int == 87 + n);
    }
    if m < 10 {
        assert(c as int == 48 + m);
    } else {
        assert(c as int == 87 + m);
    }
}

/// A lower-case hexadecimal digit.
pub open spec fn is_lower_hex(c: char) -> bool {
    (48 <= c as int <= 57) || (97 <= c as int <= 102)
}

proof fn lemma_hex_text_lower(a: Seq<u8>)
    ensures
        forall|i: int| 0 <= i < hex_text(a).len() ==> is_lower_hex(#[trigger] hex_text(a)[i]),
    decreases a.len(),
{
    if a.len() > 0 {
        lemma_hex_text_lower(a.drop_last());
        lemma_hex_text_len(a.drop_last());
        let x = a.last() as int;
        assert(0 <= x / 16 < 16 && 0 <= x % 16 < 16);
        let (h, l) = (crate::text::hex_digit(x / 16), crate::text::hex_digit(x % 16));
        if x / 16 < 10 {
            assert(h as int == 48 + x / 16);
        } else {
            assert(h as int == 87 + x / 16);
        }
        if x % 16 < 10 {
            assert(l as int == 48 + x % 16);
        } else {
            assert(l as int == 87 + x % 16);
        }
        let p = hex_text(a.drop_last());
        assert forall|i: int| 0 <= i < hex_text(a).len() implies is_lower_hex(#[trigger] hex_text(a)[i]) by {
            if i < p.len() {
                assert(hex_text(a)[i] == p[i]);
            }
        }
    }
}

proof fn lemma_hex_text_len(a: Seq<u8>)
    ensures
        hex_text(a).len() == 2 * a.len(),
    decreases a.len(),
{
    if a.len() > 0 {
        lemma_hex_text_len(a.drop_last());
    }
}

proof fn lemma_hex_text_injective(a: Seq<u8>, b: Seq<u8>)
    requires
        a.len() == b.len(),
        hex_text(a) == hex_text(b),
    ensures
        a == b,
    decreases a.len(),
{
    if a.len() > 0 {
        let (pa, pb) = (a.drop_last(), b.drop_last());
        lemma_hex_text_len(pa);
        lemma_hex_text_len(pb);
        let ha = hex_text(a);
        let n: int = 2 * pa.len() as int;
        assert(ha[n] == crate::text::hex_digit(a.last() as int / 16));
        assert(ha[n + 1] == crate::text::hex_digit(a.last() as int % 16));
        assert(hex_text(b)[n] == crate::text::hex_digit(b.last() as int / 16));
        assert(hex_text(b)[n + 1] == crate::text::hex_digit(b.last() as int % 16));
        lemma_hex_digit_injective(a.last() as int / 16, b.last() as int / 16);
        lemma_hex_digit_injective(a.last() as int % 16, b.last() as int % 16);
        let (x, y) = (a.last(), b.last());
        assert(x == y) by (nonlinear_arith)
            requires
                x as int / 16 == y as int / 16,
                x as int % 16 == y as int % 16,
        ;
        assert(hex_text(pa) =~= ha.subrange(0, n));
        assert(hex_text(pb) =~= hex_text(b).subrange(0, n));
        lemma_hex_text_injective(pa, pb);
        assert(a =~= pa.push(x));
        assert(b =~= pb.push(y));
    }
}

/// The canonical GUID text has 36 characters: lower-case hexadecimal
/// digits with hyphens after the 8th, 12th, 16th and 20th, and different
/// GUIDs give different texts.
pub proof fn lemma_guid_text_format_and_injective(a: Seq<u8>, b: Seq<u8>)
    requires
        a.len() == 16,
        b.len() == 16,
    ensures
        guid_text(a).len() == 36,
        guid_text(a)[8] == '-' && guid_text(a)[13] == '-' && guid_text(a)[18] == '-' && guid_text(a)[23] == '-',
        forall|i: int| 0 <= i < 36 && i != 8 && i != 13 && i != 18 && i != 23 ==> is_lower_hex(#[trigger] guid_text(a)[i]),
        guid_text(a) == guid_text(b) ==> a == b,
{
    reveal_strlit("-");
    let parts = |s: Seq<u8>| (seq![s[3], s[2], s[1], s[0]], seq![s[5], s[4]], seq![s[7], s[6]], s.subrange(8, 10), s.subrange(10, 16));
    let pa = parts(a);
    let pb = parts(b);
    lemma_hex_text_len(pa.0);
    lemma_hex_text_len(pa.1);
    lemma_hex_text_len(pa.2);
    lemma_hex_text_len(pa.3);
    lemma_hex_text_len(pa.4);
    lemma_hex_text_len(pb.0);
    lemma_hex_text_len(pb.1);
    lemma_hex_text_len(pb.2);
    lemma_hex_text_len(pb.3);
    lemma_hex_text_len(pb.4);
    let ga = guid_text(a);
    let gb = guid_text(b);
    assert(ga == hex_text(pa.0) + "-"@ + hex_text(pa.1) + "-"@ + hex_text(pa.2) + "-"@ + hex_text(pa.3) + "-"@ + hex_text(pa.4));
    assert(gb == hex_text(pb.0) + "-"@ + hex_text(pb.1) + "-"@ + hex_text(pb.2) + "-"@ + hex_text(pb.3) + "-"@ + hex_text(pb.4));
    assert(ga.len() == 36);
    assert(ga[8] == '-' && ga[13] == '-' && ga[18] == '-' && ga[23] == '-');
    lemma_hex_text_lower(pa.0);
    lemma_hex_text_lower(pa.1);
    lemma_hex_text_lower(pa.2);
    lemma_hex_text_lower(pa.3);
    lemma_hex_text_lower(pa.4);
    assert forall|i: int| 0 <= i < 36 && i != 8 && i != 13 && i != 18 && i != 23 implies is_lower_hex(#[trigger] ga[i]) by {
        if i < 8 {
            assert(ga[i] == hex_text(pa.0)[i]);
        } else if i < 13 {
            assert(ga[i] == hex_text(pa.1)[i - 9]);
        } else if i < 18 {
            assert(ga[i] == hex_text(pa.2)[i - 14]);
        } else if i < 23 {
            assert(ga[i] == hex_text(pa.3)[i - 19]);
        } else {
            assert(ga[i] == hex_text(pa.4)[i - 24]);
        }
    }
    if ga == gb {
        assert(hex_text(pa.0) =~= ga.subrange(0, 8));
        assert(hex_text(pb.0) =~= gb.subrange(0, 8));
        assert(hex_text(pa.1) =~= ga.subrange(9, 13));
        assert(hex_text(pb.1) =~= gb.subrange(9, 13));
        assert(hex_text(pa.2) =~= ga.subrange(14, 18));
        assert(hex_text(pb.2) =~= gb.subrange(14, 18));
        assert(hex_text(pa.3) =~= ga.subrange(19, 23));
        assert(hex_text(pb.3) =~= gb.subrange(19, 23));
        assert(hex_text(pa.4) =~= ga.subrange(24, 36));
        assert(hex_text(pb.4) =~= gb.subrange(24, 36));
        lemma_hex_text_injective(pa.0, pb.0);
        lemma_hex_text_injective(pa.1, pb.1);
        lemma_hex_text_injective(pa.2, pb.2);
        lemma_hex_text_injective(pa.3, pb.3);
        lemma_hex_text_injective(pa.4, pb.4);
        assert(pa.0[0] == pb.0[0] && pa.0[1] == pb.0[1] && pa.0[2] == pb.0[2] && pa.0[3] == pb.0[3]);
        assert(pa.1[0] == pb.1[0] && pa.1[1] == pb.1[1] && pa.2[0] == pb.2[0] && pa.2[1] == pb.2[1]);
        assert(pa.3[0] == pb.3[0] && pa.3[1] == pb.3[1]);
        assert(pa.4[0] == pb.4[0] && pa.4[1] == pb.4[1] && pa.4[2] == pb.4[2] && pa.4[3] == pb.4[3] && pa.4[4] == pb.4[4] && pa.4[5] == pb.4[5]);
        assert(a =~= b);
    }
}

} // verus!
