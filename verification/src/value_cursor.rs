//! The cursor that decodes schema-directed native values from a bounded
//! body, step by step as the value grammar states.
use vstd::prelude::*;
use vstd::std_specs::iter::IteratorSpec;

use crate::extensible_storage::{guid_string_at, Catalog, Schema};
use crate::framing::{read_u32_le, read_u64_le};
use crate::graph::{FieldSpan, GraphLimits};
use crate::schema::{class_index, Field, Reference, Registry};
use crate::text::{concat, concat_number, decimal, hex_digit_exec, push_char, str_eq, text_of};
use crate::value_grammar::{
    class_entries, compact_kind, entry_class, entry_field, field_key, name_count,
    nested_of, room, spec_lineage, spec_skip, spec_skip_class, spec_skip_field_value, spec_skip_fields,
    spec_skip_items, spec_skip_scalar, Entry, spec_field, spec_items, spec_scalar, spec_class,
    spec_entries, spec_member, es_field_head, es_field_tail, first_with_index,
    index_count, index_position, indices_contiguous, is_pair_declaration, spec_entity_fields,
    spec_es_fields, spec_es_value, unit_of,
    container_limit, dec, f64_finite, hex_small, key_text, key_uint, nonfinite_object,
    signed_text, spec_class_ref, spec_entity_pointer, spec_optional_f64s, spec_optional_vector,
    spec_pointer, spec_take, spec_text, spec_uint, tokens_view, utf16_decode, utf16_units, value_budget_error,
    DecodeContext, DecodeState, PendingPointer, PendingView, SpanView, Token, TokenView,
};

verus! {

/// Why a decode stopped.
#[derive(Clone, Debug, PartialEq, Eq)]
pub struct DecodeError {
    pub message: String,
}

/// The failure of a step matches the grammar's: same message, same place.
pub open spec fn failed_as(e: DecodeError, pos: usize, f: (Seq<char>, int)) -> bool {
    e.message@ == f.0 && pos as int == f.1
}

pub open spec fn span_view(s: FieldSpan) -> SpanView {
    SpanView { class_tag: s.class_tag, name: s.name@, start: s.start, end: s.end }
}

pub open spec fn opt_field(o: Option<&Field>) -> Option<Field> {
    match o {
        Some(f) => Some(*f),
        None => None,
    }
}

pub open spec fn catalog_view(o: Option<&Catalog>) -> Option<Seq<Schema>> {
    match o {
        Some(c) => Some(c.view()),
        None => None,
    }
}

/// The payload prefix lengths a catalog's schemas declare, in catalog
/// order; none without a catalog.
pub open spec fn catalog_prefixes(o: Option<&Catalog>) -> Seq<u64> {
    match o {
        Some(c) => crate::extensible_storage::schema_prefixes(c.view()),
        None => Seq::empty(),
    }
}

impl DecodeError {
    /// A failure with the message.
    pub fn new(message: String) -> (e: Self)
        ensures
            e.message@ == message@,
    {
        DecodeError { message }
    }
}




/// A message made of a text, a number and a text.
fn msg_num(a: &str, n: usize, b: &str) -> (r: String)
    ensures
        r@ == a@ + dec(n as int) + b@,
{
    concat(concat_number(text_of(a), n), b)
}

fn signed_string(n: i32) -> (r: String)
    ensures
        r@ == signed_text(n as int),
{
    if n < 0 {
        let m: i64 = -(n as i64);
        concat(text_of("-"), decimal(m as usize).as_str())
    } else {
        decimal(n as usize)
    }
}

fn hex_small_string(n: u8) -> (r: String)
    ensures
        r@ == hex_small(n),
{
    let mut s = String::new();
    if n < 16 {
        push_char(&mut s, hex_digit_exec(n));
        proof {
            assert(s@ =~= hex_small(n));
        }
    } else {
        push_char(&mut s, hex_digit_exec(n / 16));
        push_char(&mut s, hex_digit_exec(n % 16));
        proof {
            assert(s@ =~= hex_small(n));
        }
    }
    s
}

/// `char::from_u32`, which its documentation describes as giving the
/// character with that scalar value, and none for a surrogate or a value
/// above `0x10FFFF`.
#[verifier::external_body]
fn char_from_u32(v: u32) -> (r: Option<char>)
    ensures
        v < 0xD800 || (0xE000 <= v && v <= 0x10FFFF) ==> r == Some(v as char),
{
    char::from_u32(v)
}

/// A decoded remainder after the text decoded so far.
spec fn after(done: Seq<char>, rest: Option<Seq<char>>) -> Option<Seq<char>> {
    match rest {
        Some(t) => Some(done + t),
        None => None,
    }
}

/// UTF-16 code units as text, or none where a surrogate is unpaired.
fn utf16_text(units: &[u16]) -> (r: Option<String>)
    ensures
        match utf16_decode(units@) {
            Some(t) => r matches Some(s) && s@ == t,
            None => r is None,
        },
{
    let mut out = String::new();
    let mut i: usize = 0;
    let n = units.len();
    proof {
        assert(units@.skip(0) =~= units@);
        assert(Seq::<char>::empty() + Seq::<char>::empty() =~= Seq::<char>::empty());
        match utf16_decode(units@) {
            Some(t) => assert(out@ + t =~= t),
            None => {},
        }
    }
    while i < n
        invariant
            n == units@.len(),
            i <= n,
            utf16_decode(units@) == after(out@, utf16_decode(units@.skip(i as int))),
        decreases n - i,
    {
        let ghost rest = units@.skip(i as int);
        let u = units[i];
        proof {
            assert(rest[0] == u);
        }
        if u < 0xD800 || u > 0xDFFF {
            let c = char_from_u32(u as u32).unwrap();
            let ghost before = out@;
            push_char(&mut out, c);
            proof {
                assert(rest.drop_first() =~= units@.skip(i + 1));
                match utf16_decode(units@.skip(i + 1)) {
                    Some(t) => assert(before + (seq![c] + t) =~= out@ + t),
                    None => {},
                }
            }
            i += 1;
        } else if u <= 0xDBFF && i + 1 < n && 0xDC00 <= units[i + 1] && units[i + 1] <= 0xDFFF {
            let lo = units[i + 1];
            proof {
                assert(rest[1] == lo);
            }
            let hi_part: u32 = (u as u32 - 0xD800) * 0x400;
            let v: u32 = 0x1_0000 + hi_part + (lo as u32 - 0xDC00);
            proof {
                assert(0x1_0000 <= v <= 0x10FFFF) by (nonlinear_arith)
                    requires
                        0xD800 <= u <= 0xDBFF,
                        0xDC00 <= lo <= 0xDFFF,
                        hi_part == (u as u32 - 0xD800) * 0x400,
                        v == 0x1_0000 + hi_part + (lo as u32 - 0xDC00),
                ;
            }
            let c = char_from_u32(v).unwrap();
            let ghost before = out@;
            push_char(&mut out, c);
            proof {
                assert(rest.subrange(2, rest.len() as int) =~= units@.skip(i + 2));
                assert(c == (0x1_0000 + (rest[0] - 0xD800) * 0x400 + (rest[1] - 0xDC00)) as char);
                match utf16_decode(units@.skip(i + 2)) {
                    Some(t) => assert(before + (seq![c] + t) =~= out@ + t),
                    None => {},
                }
            }
            i += 2;
        } else {
            return None;
        }
    }
    proof {
        assert(units@.skip(n as int) =~= Seq::<u16>::empty());
        assert(out@ + Seq::<char>::empty() =~= out@);
    }
    Some(out)
}

/// A lineage names declared classes and fits the depth budget.
pub proof fn lemma_lineage_valid(reg: Registry, tag: u16, depth: int, max: int, acc: Seq<usize>)
    requires
        forall|i: int| 0 <= i < acc.len() ==> (#[trigger] acc[i]) < reg.classes@.len(),
        spec_lineage(reg, tag, depth, max, acc) is Ok,
    ensures
        forall|i: int| 0 <= i < spec_lineage(reg, tag, depth, max, acc)->Ok_0.len()
            ==> (#[trigger] spec_lineage(reg, tag, depth, max, acc)->Ok_0[i]) < reg.classes@.len(),
        depth + spec_lineage(reg, tag, depth, max, acc)->Ok_0.len() <= max,
        spec_lineage(reg, tag, depth, max, acc)->Ok_0.len() >= 1,
    decreases (if depth + acc.len() < max {
        max - depth - acc.len()
    } else {
        0
    }),
{
    match class_index(reg, tag) {
        None => {},
        Some(i) => {
            let next = acc.push(i as usize);
            assert forall|j: int| 0 <= j < next.len() implies (#[trigger] next[j]) < reg.classes@.len() by {
                if j < acc.len() {
                    assert(next[j] == acc[j]);
                }
            }
            let parent = reg.classes@[i].parent_reference.tag;
            if parent >= 12 {
                lemma_lineage_valid(reg, parent, depth, max, next);
            }
        },
    }
}

/// The entries of a lineage name declared fields of its classes.
pub proof fn lemma_entries_valid(reg: Registry, lin: Seq<usize>, d: int)
    requires
        0 <= d <= lin.len(),
        forall|i: int| 0 <= i < lin.len() ==> (#[trigger] lin[i]) < reg.classes@.len(),
    ensures
        forall|k: int| 0 <= k < class_entries(reg, lin, d).len() ==> {
            let e = #[trigger] class_entries(reg, lin, d)[k];
            &&& e.0 < reg.classes@.len()
            &&& e.1 < reg.classes@[e.0 as int].fields@.len()
            &&& e.2 < d
        },
    decreases d,
{
    if d > 0 {
        lemma_entries_valid(reg, lin, d - 1);
        let ci = lin[d - 1];
        let block = Seq::new(reg.classes@[ci as int].fields@.len(), |j: int| (ci, j as usize, (d - 1) as usize));
        let rest = class_entries(reg, lin, d - 1);
        assert(class_entries(reg, lin, d) == block + rest);
        assert forall|k: int| 0 <= k < class_entries(reg, lin, d).len() implies {
            let e = #[trigger] class_entries(reg, lin, d)[k];
            &&& e.0 < reg.classes@.len()
            &&& e.1 < reg.classes@[e.0 as int].fields@.len()
            &&& e.2 < d
        } by {
            if k >= block.len() {
                assert(class_entries(reg, lin, d)[k] == rest[k - block.len()]);
            }
        }
    }
}

/// Every entry names a declared field.
pub open spec fn entries_valid(reg: Registry, es: Seq<Entry>) -> bool {
    forall|k: int| 0 <= k < es.len() ==> {
        let e = #[trigger] es[k];
        &&& e.0 < reg.classes@.len()
        &&& e.1 < reg.classes@[e.0 as int].fields@.len()
    }
}

pub open spec fn texts_view(v: Seq<String>) -> Seq<Seq<char>> {
    v.map_values(|s: String| s@)
}

fn contains_text(keys: &Vec<String>, k: &str) -> (r: bool)
    ensures
        r == texts_view(keys@).contains(k@),
{
    let mut i: usize = 0;
    while i < keys.len()
        invariant
            i <= keys@.len(),
            forall|j: int| 0 <= j < i ==> (#[trigger] keys@[j])@ != k@,
        decreases keys@.len() - i,
    {
        if str_eq(keys[i].as_str(), k) {
            proof {
                assert(texts_view(keys@)[i as int] == k@);
            }
            return true;
        }
        i += 1;
    }
    proof {
        if texts_view(keys@).contains(k@) {
            let j = choose|j: int| 0 <= j < texts_view(keys@).len() && texts_view(keys@)[j] == k@;
            assert(keys@[j]@ == k@);
        }
    }
    false
}

fn nested_ref(f: &Field) -> (r: Option<&Field>)
    ensures
        opt_field(r) == nested_of(*f),
{
    match &f.nested_descriptor {
        Some(b) => Some(&**b),
        None => None,
    }
}

fn compact_kind_of(class_name: &str, field_name: &str) -> (r: Option<(&'static str, usize)>)
    ensures
        match compact_kind(class_name@, field_name@) {
            Some((reason, m)) => r matches Some((x, y)) && x@ == reason && y as int == m,
            None => r is None,
        },
{
    if str_eq(field_name, "m_edgeHistTable") {
        Some(("edge-history table", 1_000_000))
    } else if str_eq(class_name, "FilledGeomTable") && str_eq(field_name, "m_table") {
        Some(("filled geometry table", 1_000_000))
    } else if str_eq(class_name, "GeomTable") && str_eq(field_name, "m_table") {
        Some(("geometry table", 1_000_000))
    } else if str_eq(class_name, "SteelModelInfo") && str_eq(field_name, "m_steelModelLatest") {
        Some(("derived steel-model cache", 4_000_000))
    } else if str_eq(class_name, "ARasterImage") && str_eq(field_name, "m_compressedImage") {
        Some(("opaque compressed raster payload", 4_000_000))
    } else {
        None
    }
}

/// A field with the index exists when one is counted.
proof fn lemma_index_found(fs: Seq<crate::extensible_storage::Field>, i: int)
    requires
        index_count(fs, i) > 0,
    ensures
        exists|j: int| 0 <= j < fs.len() && fs[j].index == i,
    decreases fs.len(),
{
    if fs.last().index != i {
        lemma_index_found(fs.drop_last(), i);
        let j = choose|j: int| 0 <= j < fs.drop_last().len() && fs.drop_last()[j].index == i;
        assert(fs[j] == fs.drop_last()[j]);
    } else {
        assert(fs[fs.len() - 1].index == i);
    }
}

/// The first field with an index is unique.
proof fn lemma_index_position(fs: Seq<crate::extensible_storage::Field>, i: int, j: int)
    requires
        first_with_index(fs, i, j),
    ensures
        index_position(fs, i) == j,
{
    let k = choose|k: int| first_with_index(fs, i, k);
    assert(first_with_index(fs, i, k));
    if k < j {
        assert(fs[k].index != i);
    } else if j < k {
        assert(fs[j].index != i);
    }
}

fn count_index(fs: &Vec<crate::extensible_storage::Field>, i: usize) -> (r: usize)
    ensures
        r as int == index_count(fs@, i as int),
{
    let mut n: usize = 0;
    let mut j: usize = 0;
    while j < fs.len()
        invariant
            j <= fs@.len(),
            n <= j,
            n as int == index_count(fs@.take(j as int), i as int),
        decreases fs@.len() - j,
    {
        proof {
            assert(fs@.take(j + 1).drop_last() =~= fs@.take(j as int));
        }
        if fs[j].index as usize == i {
            n += 1;
        }
        j += 1;
    }
    proof {
        assert(fs@.take(fs@.len() as int) =~= fs@);
    }
    n
}

fn contiguous_indices(fs: &Vec<crate::extensible_storage::Field>) -> (r: bool)
    ensures
        r == indices_contiguous(fs@),
{
    let mut i: usize = 0;
    while i < fs.len()
        invariant
            i <= fs@.len(),
            forall|k: int| 0 <= k < i ==> #[trigger] index_count(fs@, k) == 1,
        decreases fs@.len() - i,
    {
        if count_index(fs, i) != 1 {
            return false;
        }
        i += 1;
    }
    true
}

fn position_of_index(fs: &Vec<crate::extensible_storage::Field>, i: usize) -> (r: usize)
    requires
        indices_contiguous(fs@),
        i < fs@.len(),
    ensures
        r < fs@.len(),
        r as int == index_position(fs@, i as int),
{
    proof {
        assert(index_count(fs@, i as int) == 1);
        lemma_index_found(fs@, i as int);
    }
    let mut j: usize = 0;
    while j < fs.len()
        invariant
            j <= fs@.len(),
            forall|k: int| 0 <= k < j ==> (#[trigger] fs@[k]).index != i,
            exists|k: int| 0 <= k < fs@.len() && fs@[k].index == i,
        decreases fs@.len() - j,
    {
        if fs[j].index as usize == i {
            proof {
                lemma_index_position(fs@, i as int, j as int);
            }
            return j;
        }
        j += 1;
    }
    proof {
        let k = choose|k: int| 0 <= k < fs@.len() && fs@[k].index == i;
        assert(fs@[k].index != i);
    }
    0
}

fn is_pair_name(name: &str) -> (r: bool)
    ensures
        r == is_pair_declaration(name@),
{
    broadcast use vstd::string::axiom_spec_iter, vstd::string::next_postcondition;

    let prefix = "std::pair<";
    let pc: [char; 10] = ['s', 't', 'd', ':', ':', 'p', 'a', 'i', 'r', '<'];
    proof {
        reveal_strlit("std::pair<");
        assert(pc@ =~= prefix@);
    }
    let mut it = name.chars();
    let mut k: usize = 0;
    while k < 10
        invariant
            k <= 10,
            prefix@.len() == 10,
            prefix@ == "std::pair<"@,
            pc@ == prefix@,
            it.remaining() == name@.skip(k as int),
            k <= name@.len(),
            name@.subrange(0, k as int) == prefix@.subrange(0, k as int),
        decreases 10 - k,
    {
        let ghost before = it.remaining();
        match it.next() {
            None => {
                proof {
                    assert(before.len() == 0);
                    assert(name@.skip(k as int).len() == 0);
                }
                return false;
            },
            Some(ch) => {
                if ch != pc[k] {
                    proof {
                        assert(name@[k as int] == ch);
                        assert(pc@[k as int] == prefix@[k as int]);
                        if name@.len() >= 10 {
                            assert(name@.subrange(0, 10)[k as int] != prefix@[k as int]);
                        }
                    }
                    return false;
                }
                proof {
                    assert(name@.skip(k as int).drop_first() =~= name@.skip(k + 1));
                    assert(name@.subrange(0, k + 1) =~= name@.subrange(0, k as int).push(ch));
                }
            },
        }
        k += 1;
    }
    proof {
        assert(prefix@.subrange(0, 10) =~= prefix@);
    }
    true
}

/// A cursor over a bounded body.
pub struct Cursor<'a> {
    body: &'a [u8],
    registry: &'a Registry,
    catalog: Option<&'a Catalog>,
    prefixes: &'a [u64],
    pos: usize,
    items: usize,
    pending: Vec<PendingPointer>,
    collect_deferred_pointers: bool,
    spans: Vec<FieldSpan>,
    limits: GraphLimits,
    out: Vec<Token>,
}

impl<'a> Cursor<'a> {
    /// What the cursor reads.
    pub closed spec fn ctx(&self) -> DecodeContext {
        DecodeContext {
            body: self.body@,
            registry: *self.registry,
            catalog: catalog_view(self.catalog),
            prefixes: self.prefixes@,
            collect: self.collect_deferred_pointers,
            limits: self.limits,
        }
    }

    /// What the cursor has done.
    pub closed spec fn state(&self) -> DecodeState {
        DecodeState {
            pos: self.pos as int,
            items: self.items as int,
            pending: self.pending@.map_values(|p: PendingPointer| p@),
            spans: self.spans@.map_values(|s: FieldSpan| span_view(s)),
            out: tokens_view(self.out@),
        }
    }

    /// The position lies in the body, and each catalog schema has its
    /// prefix length.
    pub closed spec fn wf(&self) -> bool {
        &&& self.pos <= self.body@.len()
        &&& (self.catalog matches Some(c) ==> self.prefixes@.len() == c.view().len())
        &&& self.items <= self.limits.max_values
        &&& forall|i: int| 0 <= i < self.pending@.len() ==> (#[trigger] self.pending@[i]).token != 0
    }

    /// The current position.
    pub closed spec fn spec_pos(&self) -> usize {
        self.pos
    }

    /// A cursor at `pos` that has done nothing yet.
    pub fn new(
        body: &'a [u8],
        registry: &'a Registry,
        catalog: Option<&'a Catalog>,
        prefixes: &'a [u64],
        pos: usize,
        collect_deferred_pointers: bool,
        limits: GraphLimits,
    ) -> (r: Self)
        requires
            pos <= body@.len(),
            catalog matches Some(c) ==> prefixes@.len() == c.view().len(),
        ensures
            r.wf(),
            r.ctx() == (DecodeContext {
                body: body@,
                registry: *registry,
                catalog: catalog_view(catalog),
                prefixes: prefixes@,
                collect: collect_deferred_pointers,
                limits,
            }),
            r.state() == (DecodeState {
                pos: pos as int,
                items: 0,
                pending: Seq::empty(),
                spans: Seq::empty(),
                out: Seq::empty(),
            }),
            r.spec_pos() == pos,
    {
        let r = Cursor {
            body,
            registry,
            catalog,
            prefixes,
            pos,
            items: 0,
            pending: Vec::new(),
            collect_deferred_pointers,
            spans: Vec::new(),
            limits,
            out: Vec::new(),
        };
        proof {
            assert(r.state().pending =~= Seq::<PendingView>::empty());
            assert(r.state().spans =~= Seq::<SpanView>::empty());
            assert(r.state().out =~= Seq::<TokenView>::empty());
        }
        r
    }

    /// The position.
    pub fn position(&self) -> (r: usize)
        ensures
            r == self.spec_pos(),
            r as int == self.state().pos,
            self.wf() ==> r <= self.ctx().body.len(),
    {
        self.pos
    }

    /// The deferred pointers, which the cursor gives up.
    pub fn take_pending(&mut self) -> (r: Vec<PendingPointer>)
        ensures
            r@.map_values(|p: PendingPointer| p@) == old(self).state().pending,
            final(self).state() == (DecodeState { pending: Seq::empty(), ..old(self).state() }),
            final(self).ctx() == old(self).ctx(),
            old(self).wf() ==> final(self).wf(),
            final(self).spec_pos() == old(self).spec_pos(),
            old(self).wf() ==> forall|i: int| 0 <= i < r@.len() ==> (#[trigger] r@[i]).token != 0,
    {
        let mut r: Vec<PendingPointer> = Vec::new();
        std::mem::swap(&mut r, &mut self.pending);
        proof {
            assert(self.state().pending =~= Seq::<PendingView>::empty());
        }
        r
    }

    /// The values counted so far.
    pub fn values(&self) -> (r: usize)
        ensures
            r as int == self.state().items,
            self.wf() ==> r <= self.ctx().limits.max_values,
    {
        self.items
    }

    /// The tokens written so far, which the cursor gives up.
    pub fn take_tokens(&mut self) -> (r: Vec<Token>)
        ensures
            tokens_view(r@) == old(self).state().out,
            final(self).state() == (DecodeState { out: Seq::empty(), ..old(self).state() }),
            final(self).ctx() == old(self).ctx(),
            final(self).wf() == old(self).wf(),
            final(self).spec_pos() == old(self).spec_pos(),
    {
        let mut r: Vec<Token> = Vec::new();
        std::mem::swap(&mut r, &mut self.out);
        proof {
            assert(self.state().out =~= Seq::<TokenView>::empty());
        }
        r
    }

    /// The field spans recorded so far, which the cursor gives up.
    pub fn take_spans(&mut self) -> (r: Vec<FieldSpan>)
        ensures
            r@.map_values(|s: FieldSpan| span_view(s)) == old(self).state().spans,
            final(self).state() == (DecodeState { spans: Seq::empty(), ..old(self).state() }),
            final(self).ctx() == old(self).ctx(),
            final(self).wf() == old(self).wf(),
    {
        let mut r: Vec<FieldSpan> = Vec::new();
        std::mem::swap(&mut r, &mut self.spans);
        proof {
            assert(self.state().spans =~= Seq::<SpanView>::empty());
        }
        r
    }

    fn emit(&mut self, t: Token)
        ensures
            final(self).state() == old(self).state().emit(t@),
            final(self).ctx() == old(self).ctx(),
            final(self).wf() == old(self).wf(),
            final(self).pos == old(self).pos,
    {
        self.out.push(t);
        proof {
            assert(tokens_view(self.out@) =~= tokens_view(old(self).out@).push(t@));
        }
    }

    fn emit_key(&mut self, k: &str)
        ensures
            final(self).state() == old(self).state().key(k@),
            final(self).ctx() == old(self).ctx(),
            final(self).wf() == old(self).wf(),
            final(self).pos == old(self).pos,
    {
        self.emit(Token::Key(text_of(k)));
    }

    fn emit_key_uint(&mut self, k: &str, v: u64)
        ensures
            final(self).state() == key_uint(old(self).state(), k@, v as int),
            final(self).ctx() == old(self).ctx(),
            final(self).wf() == old(self).wf(),
            final(self).pos == old(self).pos,
    {
        self.emit_key(k);
        self.emit(Token::UInt(v));
    }

    fn emit_key_text(&mut self, k: &str, v: String)
        ensures
            final(self).state() == key_text(old(self).state(), k@, v@),
            final(self).ctx() == old(self).ctx(),
            final(self).wf() == old(self).wf(),
            final(self).pos == old(self).pos,
    {
        self.emit_key(k);
        self.emit(Token::Text(v));
    }

    fn defer(&mut self, p: PendingPointer)
        requires
            p.token != 0,
        ensures
            final(self).state() == old(self).state().defer(p@),
            final(self).ctx() == old(self).ctx(),
            old(self).wf() ==> final(self).wf(),
            final(self).pos == old(self).pos,
    {
        let ghost v = p@;
        self.pending.push(p);
        proof {
            if old(self).wf() {
                assert forall|i: int| 0 <= i < self.pending@.len() implies (#[trigger] self.pending@[i]).token != 0 by {
                    if i < old(self).pending@.len() {
                        assert(self.pending@[i] == old(self).pending@[i]);
                    }
                }
            }
            assert(self.pending@.map_values(|p: PendingPointer| p@) =~= old(self).pending@.map_values(
                |p: PendingPointer| p@,
            ).push(v));
        }
    }

    fn record_span(&mut self, s: FieldSpan)
        ensures
            final(self).state() == old(self).state().span(span_view(s)),
            final(self).ctx() == old(self).ctx(),
            final(self).wf() == old(self).wf(),
            final(self).pos == old(self).pos,
    {
        let ghost v = span_view(s);
        self.spans.push(s);
        proof {
            assert(self.spans@.map_values(|s: FieldSpan| span_view(s)) =~= old(self).spans@.map_values(
                |s: FieldSpan| span_view(s),
            ).push(v));
        }
    }

    fn count_value(&mut self)
        requires
            old(self).items < old(self).limits.max_values,
        ensures
            final(self).state() == old(self).state().counted(),
            final(self).ctx() == old(self).ctx(),
            final(self).wf() == old(self).wf(),
            final(self).pos == old(self).pos,
    {
        self.items = self.items + 1;
    }

    /// Consuming `n` bytes; reads where they start.
    fn take(&mut self, n: usize) -> (r: Result<usize, DecodeError>)
        requires
            old(self).wf(),
        ensures
            final(self).wf(),
            final(self).ctx() == old(self).ctx(),
            match spec_take(old(self).ctx(), old(self).state(), n as int) {
                Ok(t) => r == Ok::<usize, DecodeError>(old(self).pos) && final(self).state() == t,
                Err(f) => r matches Err(e) && failed_as(e, final(self).spec_pos(), f),
            },
    {
        if n > usize::MAX - self.pos {
            return Err(DecodeError::new(text_of("native value size overflow")));
        }
        let end = self.pos + n;
        if end > self.body.len() {
            return Err(DecodeError::new(concat_number(text_of("truncated native field at "), self.pos)));
        }
        let start = self.pos;
        self.pos = end;
        Ok(start)
    }

    /// Reading a little-endian unsigned value of 1, 2, 4 or 8 bytes.
    fn read_uint(&mut self, n: usize) -> (r: Result<u64, DecodeError>)
        requires
            old(self).wf(),
            n == 1 || n == 2 || n == 4 || n == 8,
        ensures
            final(self).wf(),
            final(self).ctx() == old(self).ctx(),
            match spec_uint(old(self).ctx(), old(self).state(), n as int) {
                Ok((v, t)) => r matches Ok(x) && x as int == v && final(self).state() == t,
                Err(f) => r matches Err(e) && failed_as(e, final(self).spec_pos(), f),
            },
    {
        let p = match self.take(n) {
            Ok(p) => p,
            Err(e) => return Err(e),
        };
        let b = self.body;
        if n == 1 {
            Ok(b[p] as u64)
        } else if n == 2 {
            Ok(b[p] as u64 + b[p + 1] as u64 * 0x100)
        } else if n == 4 {
            Ok(read_u32_le(b, p) as u64)
        } else {
            Ok(read_u64_le(b, p))
        }
    }

    /// A pointer field.
    fn pointer(&mut self, external: bool) -> (r: Result<(), DecodeError>)
        requires
            old(self).wf(),
        ensures
            final(self).wf(),
            final(self).ctx() == old(self).ctx(),
            match spec_pointer(old(self).ctx(), old(self).state(), external) {
                Ok(t) => r is Ok && final(self).state() == t,
                Err(f) => r matches Err(e) && failed_as(e, final(self).spec_pos(), f),
            },
    {
        let offset = self.pos;
        let token = match self.read_uint(4) {
            Ok(v) => v as u32,
            Err(e) => return Err(e),
        };
        let tag: Option<u16> = if token != 0 && !external {
            let tag = match self.read_uint(2) {
                Ok(v) => v as u16,
                Err(e) => return Err(e),
            };
            if self.registry.class_position(tag).is_none() {
                return Err(DecodeError::new(concat_number(text_of("unknown native pointer class "), tag as usize)));
            }
            if self.collect_deferred_pointers {
                self.defer(PendingPointer { token, class_tag: tag, offset, schema_guid: None });
            }
            Some(tag)
        } else {
            None
        };
        self.emit(Token::BeginObject);
        self.emit_key_uint("pointer_token", token as u64);
        self.emit_key("class_tag");
        match tag {
            Some(t) => self.emit(Token::UInt(t as u64)),
            None => self.emit(Token::Null),
        }
        self.emit_key_uint("offset", offset as u64);
        self.emit(Token::EndObject);
        Ok(())
    }

    /// The budget a value at `depth` exceeds, if one does.
    fn budget_error(&self, depth: usize) -> (r: Option<String>)
        ensures
            match value_budget_error(self.ctx(), self.state(), depth as int) {
                Some(m) => r matches Some(s) && s@ == m,
                None => r is None,
            },
    {
        if depth >= self.limits.max_depth {
            Some(msg_num("native field recursion budget exceeded (", self.limits.max_depth, ")"))
        } else if self.items >= self.limits.max_values {
            Some(msg_num("native field value budget exceeded (", self.limits.max_values, ")"))
        } else {
            None
        }
    }

    fn container_limit(&self) -> (r: usize)
        ensures
            r as int == container_limit(self.ctx()),
    {
        if self.limits.max_values < 1_000_000 {
            self.limits.max_values
        } else {
            1_000_000
        }
    }

    /// A string of UTF-16 code units.
    fn text(&mut self) -> (r: Result<(), DecodeError>)
        requires
            old(self).wf(),
        ensures
            final(self).wf(),
            final(self).ctx() == old(self).ctx(),
            match spec_text(old(self).ctx(), old(self).state()) {
                Ok(t) => r is Ok && final(self).state() == t,
                Err(f) => r matches Err(e) && failed_as(e, final(self).spec_pos(), f),
            },
    {
        let n = match self.read_uint(4) {
            Ok(v) => v as usize,
            Err(e) => return Err(e),
        };
        if n > 1_000_000 {
            return Err(DecodeError::new(text_of("native string unit budget exceeded")));
        }
        let p = match self.take(n * 2) {
            Ok(p) => p,
            Err(e) => return Err(e),
        };
        let b = self.body;
        let blen = b.len();
        let mut units: Vec<u16> = Vec::new();
        let mut i: usize = 0;
        while i < n
            invariant
                i <= n <= 1_000_000,
                blen == b@.len(),
                p + 2 * n <= b@.len(),
                units@ =~= utf16_units(b@, p as int, i as int),
            decreases n - i,
        {
            units.push(b[p + 2 * i] as u16 + b[p + 2 * i + 1] as u16 * 0x100);
            i += 1;
        }
        match utf16_text(units.as_slice()) {
            None => Err(DecodeError::new(text_of("invalid utf-16: lone surrogate found"))),
            Some(t) => {
                self.emit(Token::Text(t));
                Ok(())
            },
        }
    }

    /// A schema class tag with the name the schema gives it.
    fn class_ref(&mut self) -> (r: Result<(), DecodeError>)
        requires
            old(self).wf(),
        ensures
            final(self).wf(),
            final(self).ctx() == old(self).ctx(),
            match spec_class_ref(old(self).ctx(), old(self).state()) {
                Ok(t) => r is Ok && final(self).state() == t,
                Err(f) => r matches Err(e) && failed_as(e, final(self).spec_pos(), f),
            },
    {
        let tag = match self.read_uint(2) {
            Ok(v) => v as u16,
            Err(e) => return Err(e),
        };
        self.emit(Token::BeginObject);
        self.emit_key_uint("class_tag", tag as u64);
        self.emit_key("class_name");
        match self.registry.class(tag) {
            Some(c) => self.emit(Token::Text(c.name.clone())),
            None => self.emit(Token::Null),
        }
        self.emit(Token::EndObject);
        Ok(())
    }

    /// The pointer to an Extensible Storage entity.
    fn entity_pointer(&mut self) -> (r: Result<(), DecodeError>)
        requires
            old(self).wf(),
        ensures
            final(self).wf(),
            final(self).ctx() == old(self).ctx(),
            match spec_entity_pointer(old(self).ctx(), old(self).state()) {
                Ok(t) => r is Ok && final(self).state() == t,
                Err(f) => r matches Err(e) && failed_as(e, final(self).spec_pos(), f),
            },
    {
        let offset = self.pos;
        let u = match self.read_uint(4) {
            Ok(v) => v as u32,
            Err(e) => return Err(e),
        };
        let d: i32 = if u >= 0x8000_0000 {
            (u as i64 - 0x1_0000_0000) as i32
        } else {
            u as i32
        };
        if d != 0 && d != -1 {
            return Err(DecodeError::new(concat(text_of("unqualified ES entity discriminator "), signed_string(d).as_str())));
        }
        if d == 0 {
            self.emit(Token::BeginObject);
            self.emit_key("discriminator");
            self.emit(Token::Int(0));
            self.emit_key_text("state", text_of("serialized_absent"));
            self.emit_key_uint("offset", offset as u64);
            self.emit(Token::EndObject);
            return Ok(());
        }
        let p = match self.take(16) {
            Ok(p) => p,
            Err(e) => return Err(e),
        };
        let guid = guid_string_at(self.body, p);
        let declared = match self.catalog {
            Some(c) => match c.get(guid.as_str()) {
                Some(_) => true,
                None => false,
            },
            None => false,
        };
        if !declared {
            return Err(DecodeError::new(concat(text_of("ES entity schema catalog absent for "), guid.as_str())));
        }
        if self.collect_deferred_pointers {
            self.defer(PendingPointer { token: u32::MAX, class_tag: 0, offset, schema_guid: Some(guid.clone()) });
        }
        self.emit(Token::BeginObject);
        self.emit_key("discriminator");
        self.emit(Token::Int(-1));
        self.emit_key_text("schema_guid", guid);
        self.emit_key_text("state", text_of("serialized_present"));
        self.emit_key_uint("offset", offset as u64);
        self.emit(Token::EndObject);
        Ok(())
    }

    /// One element of an optional `f64` vector.
    fn optional_element(&mut self) -> (r: Result<(), DecodeError>)
        requires
            old(self).wf(),
        ensures
            final(self).wf(),
            final(self).ctx() == old(self).ctx(),
            ({
                let c = old(self).ctx();
                let s = old(self).state();
                if s.items >= c.limits.max_values {
                    r matches Err(e) && failed_as(e, final(self).spec_pos(), ("native field value budget exceeded ("@ + dec(c.limits.max_values as int) + ")"@, s.pos))
                } else {
                    match spec_uint(c, s.counted(), 8) {
                        Err(f) => r matches Err(e) && failed_as(e, final(self).spec_pos(), f),
                        Ok((bits, s1)) => r is Ok && final(self).state() == (if f64_finite(bits as u64) {
                            s1.emit(TokenView::F64(bits as u64))
                        } else {
                            nonfinite_object(s1)
                        }),
                    }
                }
            }),
    {
        if self.items >= self.limits.max_values {
            return Err(DecodeError::new(msg_num("native field value budget exceeded (", self.limits.max_values, ")")));
        }
        self.count_value();
        let bits = match self.read_uint(8) {
            Ok(v) => v,
            Err(e) => return Err(e),
        };
        if (bits / 0x10_0000_0000_0000) % 0x800 != 0x7ff {
            self.emit(Token::F64(bits));
        } else {
            self.emit(Token::BeginObject);
            self.emit_key_text("native_nonfinite", text_of("f64"));
            self.emit_key_text("semantic", text_of("serialized_absent"));
            self.emit(Token::EndObject);
        }
        Ok(())
    }

    /// A fixed `f64` vector whose absent components are non-finite.
    fn optional_vector(&mut self, f: &Field, depth: usize) -> (r: Result<(), DecodeError>)
        requires
            old(self).wf(),
        ensures
            final(self).wf(),
            final(self).ctx() == old(self).ctx(),
            match spec_optional_vector(old(self).ctx(), old(self).state(), *f, depth as int) {
                Ok(t) => r is Ok && final(self).state() == t,
                Err(x) => r matches Err(e) && failed_as(e, final(self).spec_pos(), x),
            },
    {
        if !(f.base == 7 && f.modifier == 0x10) {
            return Err(DecodeError::new(text_of("unexpected SpotElevation optional-offset schema")));
        }
        match self.budget_error(depth) {
            Some(m) => return Err(DecodeError::new(m)),
            None => {},
        }
        let n = match f.array_count {
            Some(n) => n,
            None => return Err(DecodeError::new(text_of("SpotElevation optional-offset array count absent"))),
        };
        let limit = self.container_limit();
        if n as usize > limit {
            return Err(DecodeError::new(concat(concat_number(concat(concat_number(text_of("native container count budget exceeded ("), n as usize), "; limit "), limit), ")")));
        }
        let ghost c = self.ctx();
        self.count_value();
        self.emit(Token::BeginArray);
        let ghost s_begin = self.state();
        let ghost goal = spec_optional_vector(old(self).ctx(), old(self).state(), *f, depth as int);
        assert(goal == match spec_optional_f64s(c, s_begin, 0, n as int) {
            Err(e) => Err(e),
            Ok(s1) => Ok(s1.emit(TokenView::EndArray)),
        });
        let mut k: u32 = 0;
        while k < n
            invariant
                self.wf(),
                self.ctx() == c,
                c == old(self).ctx(),
                goal == spec_optional_vector(old(self).ctx(), old(self).state(), *f, depth as int),
                goal == match spec_optional_f64s(c, s_begin, 0, n as int) {
                    Err(e) => Err(e),
                    Ok(s1) => Ok(s1.emit(TokenView::EndArray)),
                },
                k <= n,
                spec_optional_f64s(c, s_begin, 0, n as int) == spec_optional_f64s(c, self.state(), k as int, n as int),
            decreases n - k,
        {
            match self.optional_element() {
                Ok(()) => {},
                Err(e) => return Err(e),
            }
            k += 1;
        }
        self.emit(Token::EndArray);
        Ok(())
    }

    /// The lineage of the class a tag names.
    fn lineage(&self, tag: u16, depth: usize) -> (r: Result<Vec<usize>, DecodeError>)
        requires
            depth < self.limits.max_depth,
        ensures
            match spec_lineage(*self.registry, tag, depth as int, self.limits.max_depth as int, Seq::empty()) {
                Ok(l) => r matches Ok(v) && v@ == l,
                Err(m) => r matches Err(e) && e.message@ == m,
            },
            r matches Ok(v) ==> (forall|i: int| 0 <= i < v@.len() ==> (#[trigger] v@[i]) < self.registry.classes@.len())
                && depth + v@.len() <= self.limits.max_depth,
    {
        let reg = self.registry;
        let max = self.limits.max_depth;
        let ghost whole = spec_lineage(*reg, tag, depth as int, max as int, Seq::empty());
        let mut acc: Vec<usize> = Vec::new();
        let mut current = tag;
        loop
            invariant
                whole == spec_lineage(*reg, tag, depth as int, max as int, Seq::empty()),
                whole == spec_lineage(*reg, current, depth as int, max as int, acc@),
                forall|i: int| 0 <= i < acc@.len() ==> (#[trigger] acc@[i]) < reg.classes@.len(),
                depth + acc@.len() <= max,
                depth < max,
                reg == self.registry,
                max == self.limits.max_depth,
            decreases max - depth - acc@.len(),
        {
            if depth + acc.len() >= max {
                return Err(DecodeError::new(text_of("native class recursion budget exceeded")));
            }
            match reg.class_position(current) {
                None => return Err(DecodeError::new(concat_number(text_of("unknown inline native class "), current as usize))),
                Some(i) => {
                    acc.push(i);
                    let parent = reg.classes[i].parent_reference.tag;
                    if parent < 12 {
                        return Ok(acc);
                    }
                    current = parent;
                },
            }
        }
    }

    /// The entries of a lineage.
    fn entries_of(&self, lin: &Vec<usize>) -> (r: Vec<Entry>)
        requires
            forall|i: int| 0 <= i < lin@.len() ==> (#[trigger] lin@[i]) < self.registry.classes@.len(),
        ensures
            r@ == class_entries(*self.registry, lin@, lin@.len() as int),
            entries_valid(*self.registry, r@),
    {
        let reg = self.registry;
        let mut r: Vec<Entry> = Vec::new();
        let mut d = lin.len();
        proof {
            assert(r@ + class_entries(*reg, lin@, d as int) =~= class_entries(*reg, lin@, d as int));
        }
        while d > 0
            invariant
                d <= lin@.len(),
                forall|i: int| 0 <= i < lin@.len() ==> (#[trigger] lin@[i]) < reg.classes@.len(),
                r@ + class_entries(*reg, lin@, d as int) == class_entries(*reg, lin@, lin@.len() as int),
            decreases d,
        {
            let ci = lin[d - 1];
            let nf = reg.classes[ci].fields.len();
            let ghost r0 = r@;
            let ghost block = Seq::new(nf as nat, |j: int| (ci, j as usize, (d - 1) as usize));
            let mut j: usize = 0;
            while j < nf
                invariant
                    j <= nf,
                    0 < d,
                    block == Seq::new(nf as nat, |jj: int| (ci, jj as usize, (d - 1) as usize)),
                    r@ =~= r0 + block.take(j as int),
                decreases nf - j,
            {
                r.push((ci, j, d - 1));
                proof {
                    assert(block.take(j + 1) =~= block.take(j as int).push((ci, j, (d - 1) as usize)));
                }
                j += 1;
            }
            proof {
                assert(block.take(nf as int) =~= block);
                assert(class_entries(*reg, lin@, d as int) == block + class_entries(*reg, lin@, d - 1));
                assert(r0 + class_entries(*reg, lin@, d as int) =~= r@ + class_entries(*reg, lin@, d - 1));
            }
            d -= 1;
        }
        proof {
            assert(class_entries(*reg, lin@, 0) =~= Seq::<Entry>::empty());
            assert(r@ =~= r@ + Seq::<Entry>::empty());
            lemma_entries_valid(*reg, lin@, lin@.len() as int);
        }
        r
    }

    /// The key of the field at entry `e` of an object's entries.
    fn key_of(&self, es: &Vec<Entry>, e: Entry) -> (r: String)
        requires
            entries_valid(*self.registry, es@),
            e.0 < self.registry.classes@.len(),
            e.1 < self.registry.classes@[e.0 as int].fields@.len(),
        ensures
            r@ == field_key(*self.registry, es@, e),
    {
        let reg = self.registry;
        let name = reg.classes[e.0].fields[e.1].name.as_str();
        let mut count: usize = 0;
        let mut i: usize = 0;
        while i < es.len()
            invariant
                i <= es@.len(),
                entries_valid(*reg, es@),
                count <= i,
                count == name_count(*reg, es@.take(i as int), name@),
            decreases es@.len() - i,
        {
            let (a, b, _) = es[i];
            let g = &reg.classes[a].fields[b];
            proof {
                assert(es@.take(i + 1).drop_last() =~= es@.take(i as int));
                assert(es@.take(i + 1).last() == es@[i as int]);
            }
            if g.uninterpreted_flags & 2 == 0 && str_eq(g.name.as_str(), name) {
                count += 1;
            }
            i += 1;
        }
        proof {
            assert(es@.take(es@.len() as int) =~= es@);
        }
        if count > 1 {
            concat(concat(reg.classes[e.0].name.clone(), "::"), name)
        } else {
            text_of(name)
        }
    }

    /// Consuming a field value, counted once.
    pub fn skip_field_value(&mut self, f: &Field, depth: usize, max_items: usize) -> (r: Result<usize, DecodeError>)
        requires
            old(self).wf(),
        ensures
            final(self).wf(),
            final(self).ctx() == old(self).ctx(),
            match spec_skip_field_value(old(self).ctx(), old(self).state(), f.base, f.modifier, f.array_count, nested_of(*f), f.references@, depth as int, max_items as int) {
                Ok((n, t)) => r matches Ok(x) && x as int == n && final(self).state() == t,
                Err(x) => r matches Err(e) && failed_as(e, final(self).spec_pos(), x),
            },
    {
        match self.budget_error(depth) {
            Some(m) => return Err(DecodeError::new(m)),
            None => {},
        }
        self.count_value();
        self.skip(f.base, f.modifier, f.array_count, nested_ref(f), f.references.as_slice(), depth, max_items)
    }

    /// Consuming a value.
    fn skip(
        &mut self,
        base: u8,
        modifier: u8,
        count: Option<u32>,
        nested: Option<&Field>,
        refs: &[Reference],
        depth: usize,
        max_items: usize,
    ) -> (r: Result<usize, DecodeError>)
        requires
            old(self).wf(),
        ensures
            final(self).wf(),
            final(self).ctx() == old(self).ctx(),
            match spec_skip(old(self).ctx(), old(self).state(), base, modifier, count, opt_field(nested), refs@, depth as int, max_items as int) {
                Ok((n, t)) => r matches Ok(x) && x as int == n && final(self).state() == t,
                Err(x) => r matches Err(e) && failed_as(e, final(self).spec_pos(), x),
            },
        decreases room(old(self).ctx(), depth as int), 3nat, 0nat,
    {
        if depth >= self.limits.max_depth {
            return Err(DecodeError::new(msg_num("native compact field recursion budget exceeded (", self.limits.max_depth, ")")));
        }
        if 1 <= modifier && modifier <= 3 && base == 14 {
            let token = match self.read_uint(4) {
                Ok(v) => v as u32,
                Err(e) => return Err(e),
            };
            if token != 0 && modifier != 3 {
                let tag = match self.read_uint(2) {
                    Ok(v) => v as u16,
                    Err(e) => return Err(e),
                };
                if self.registry.class_position(tag).is_none() {
                    return Err(DecodeError::new(concat_number(text_of("unknown native pointer class "), tag as usize)));
                }
                return Err(DecodeError::new(concat_number(text_of("compact native field encountered deferred pointer token "), token as usize)));
            }
            return Ok(0);
        }
        if modifier == 0x60 && base == 8 {
            let n = match self.read_uint(4) {
                Ok(v) => v as usize,
                Err(e) => return Err(e),
            };
            if n > 1_000_000 {
                return Err(DecodeError::new(text_of("native string unit budget exceeded")));
            }
            return match self.take(n * 2) {
                Ok(_) => Ok(0),
                Err(e) => Err(e),
            };
        }
        if (0x10 <= modifier && modifier <= 0x13) || (0x50 <= modifier && modifier <= 0x53) {
            let n: usize = if modifier < 0x50 {
                match count {
                    Some(n) => n as usize,
                    None => return Err(DecodeError::new(text_of("fixed array schema count absent"))),
                }
            } else {
                match self.read_uint(4) {
                    Ok(v) => v as usize,
                    Err(e) => return Err(e),
                }
            };
            if n > max_items {
                return Err(DecodeError::new(text_of("native compact container count budget exceeded")));
            }
            let ghost c = self.ctx();
            let ghost s1 = self.state();
            let ghost goal = spec_skip(old(self).ctx(), old(self).state(), base, modifier, count, opt_field(nested), refs@, depth as int, max_items as int);
            assert(goal == match spec_skip_items(c, s1, base, modifier & 0xf, opt_field(nested), refs@, depth as int, 0, n as int, max_items as int) {
                Err(e) => Err(e),
                Ok(s2) => Ok((n as int, s2)),
            });
            let mut k: usize = 0;
            while k < n
                invariant
                    self.wf(),
                    self.ctx() == c,
                    c == old(self).ctx(),
                    depth < c.limits.max_depth,
                    k <= n,
                    goal == match spec_skip_items(c, s1, base, modifier & 0xf, opt_field(nested), refs@, depth as int, 0, n as int, max_items as int) {
                        Err(e) => Err(e),
                        Ok(s2) => Ok((n as int, s2)),
                    },
                    goal == spec_skip(old(self).ctx(), old(self).state(), base, modifier, count, opt_field(nested), refs@, depth as int, max_items as int),
                    spec_skip_items(c, s1, base, modifier & 0xf, opt_field(nested), refs@, depth as int, 0, n as int, max_items as int)
                        == spec_skip_items(c, self.state(), base, modifier & 0xf, opt_field(nested), refs@, depth as int, k as int, n as int, max_items as int),
                decreases n - k,
            {
                match self.skip(base, modifier & 0xf, None, nested, refs, depth + 1, max_items) {
                    Ok(_) => {},
                    Err(e) => return Err(e),
                }
                k += 1;
            }
            return Ok(n);
        }
        if modifier == 0 {
            return self.skip_scalar(base, nested, refs, depth, max_items);
        }
        Err(DecodeError::new(concat_number(text_of("unsupported native compact modifier "), modifier as usize)))
    }

    /// Consuming a scalar.
    fn skip_scalar(
        &mut self,
        base: u8,
        nested: Option<&Field>,
        refs: &[Reference],
        depth: usize,
        max_items: usize,
    ) -> (r: Result<usize, DecodeError>)
        requires
            old(self).wf(),
            depth < old(self).limits.max_depth,
        ensures
            final(self).wf(),
            final(self).ctx() == old(self).ctx(),
            match spec_skip_scalar(old(self).ctx(), old(self).state(), base, opt_field(nested), refs@, depth as int, max_items as int) {
                Ok((n, t)) => r matches Ok(x) && x as int == n && final(self).state() == t,
                Err(x) => r matches Err(e) && failed_as(e, final(self).spec_pos(), x),
            },
        decreases room(old(self).ctx(), depth as int), 2nat, 0nat,
    {
        if base == 13 {
            return match nested {
                None => Err(DecodeError::new(text_of("nested schema absent"))),
                Some(nf) => self.skip(nf.base, nf.modifier, nf.array_count, nested_ref(nf), nf.references.as_slice(), depth + 1, max_items),
            };
        }
        if base == 14 {
            if refs.len() != 1 {
                return Err(DecodeError::new(text_of("inline native reference schema count")));
            }
            return match self.skip_class(refs[0].tag, depth + 1, max_items) {
                Ok(()) => Ok(0),
                Err(e) => Err(e),
            };
        }
        let width: usize = if base == 1 || base == 2 {
            1
        } else if base == 3 {
            2
        } else if base == 4 || base == 5 || base == 6 {
            4
        } else if base == 7 || base == 11 {
            8
        } else if base == 9 {
            16
        } else {
            0
        };
        if width == 0 {
            return Err(DecodeError::new(concat_number(text_of("unsupported native compact scalar "), base as usize)));
        }
        match self.take(width) {
            Ok(_) => Ok(0),
            Err(e) => Err(e),
        }
    }

    /// Consuming an inline object.
    fn skip_class(&mut self, tag: u16, depth: usize, max_items: usize) -> (r: Result<(), DecodeError>)
        requires
            old(self).wf(),
        ensures
            final(self).wf(),
            final(self).ctx() == old(self).ctx(),
            match spec_skip_class(old(self).ctx(), old(self).state(), tag, depth as int, max_items as int) {
                Ok(t) => r is Ok && final(self).state() == t,
                Err(x) => r matches Err(e) && failed_as(e, final(self).spec_pos(), x),
            },
        decreases room(old(self).ctx(), depth as int), 3nat, 0nat,
    {
        if depth >= self.limits.max_depth {
            return Err(DecodeError::new(text_of("native class recursion budget exceeded")));
        }
        let lin = match self.lineage(tag, depth) {
            Ok(l) => l,
            Err(e) => return Err(e),
        };
        let es = self.entries_of(&lin);
        let reg = self.registry;
        let ghost c = self.ctx();
        let ghost s0 = self.state();
        let ghost goal = spec_skip_class(old(self).ctx(), old(self).state(), tag, depth as int, max_items as int);
        assert(goal == spec_skip_fields(c, s0, depth as int, es@, 0, max_items as int));
        let mut k: usize = 0;
        while k < es.len()
            invariant
                self.wf(),
                self.ctx() == c,
                c == old(self).ctx(),
                reg == self.registry,
                depth < c.limits.max_depth,
                k <= es@.len(),
                entries_valid(*reg, es@),
                goal == spec_skip_class(old(self).ctx(), old(self).state(), tag, depth as int, max_items as int),
                goal == spec_skip_fields(c, s0, depth as int, es@, 0, max_items as int),
                spec_skip_fields(c, s0, depth as int, es@, 0, max_items as int)
                    == spec_skip_fields(c, self.state(), depth as int, es@, k as int, max_items as int),
            decreases es@.len() - k,
        {
            let (ci, fi, _) = es[k];
            let cl = &reg.classes[ci];
            let f = &cl.fields[fi];
            proof {
                assert(entry_class(*reg, es@[k as int]) == *cl);
                assert(entry_field(*reg, es@[k as int]) == *f);
            }
            if f.uninterpreted_flags & 2 != 0 {
                k += 1;
                continue;
            }
            if f.uninterpreted_flags != 0 {
                return Err(DecodeError::new(concat_number(concat(concat(concat(concat(text_of("unsupported compact native field flags "), cl.name.as_str()), "."), f.name.as_str()), ": "), f.uninterpreted_flags as usize)));
            }
            match self.skip(f.base, f.modifier, f.array_count, nested_ref(f), f.references.as_slice(), depth + 1, max_items) {
                Ok(_) => {},
                Err(e) => return Err(e),
            }
            k += 1;
        }
        Ok(())
    }

    /// A field value.
    pub fn field(
        &mut self,
        base: u8,
        modifier: u8,
        count: Option<u32>,
        nested: Option<&Field>,
        refs: &[Reference],
        depth: usize,
    ) -> (r: Result<(), DecodeError>)
        requires
            old(self).wf(),
        ensures
            final(self).wf(),
            final(self).ctx() == old(self).ctx(),
            match spec_field(old(self).ctx(), old(self).state(), base, modifier, count, opt_field(nested), refs@, depth as int) {
                Ok(t) => r is Ok && final(self).state() == t,
                Err(x) => r matches Err(e) && failed_as(e, final(self).spec_pos(), x),
            },
        decreases room(old(self).ctx(), depth as int), 3nat, 0nat,
    {
        match self.budget_error(depth) {
            Some(m) => return Err(DecodeError::new(m)),
            None => {},
        }
        self.count_value();
        if 1 <= modifier && modifier <= 3 && base == 14 {
            return self.pointer(modifier == 3);
        }
        if modifier == 0x60 && base == 8 {
            return self.text();
        }
        if (0x10 <= modifier && modifier <= 0x13) || (0x50 <= modifier && modifier <= 0x53) {
            let n: u32 = if modifier < 0x50 {
                match count {
                    Some(n) => n,
                    None => return Err(DecodeError::new(text_of("fixed array schema count absent"))),
                }
            } else {
                match self.read_uint(4) {
                    Ok(v) => v as u32,
                    Err(e) => return Err(e),
                }
            };
            let limit = self.container_limit();
            if n as usize > limit {
                return Err(DecodeError::new(concat(concat_number(concat(concat_number(text_of("native container count budget exceeded ("), n as usize), "; limit "), limit), ")")));
            }
            self.emit(Token::BeginArray);
            let ghost c = self.ctx();
            let ghost s1 = self.state();
            let ghost goal = spec_field(old(self).ctx(), old(self).state(), base, modifier, count, opt_field(nested), refs@, depth as int);
            assert(goal == match spec_items(c, s1, base, modifier & 0xf, opt_field(nested), refs@, depth as int, 0, n as int) {
                Err(e) => Err(e),
                Ok(s2) => Ok(s2.emit(TokenView::EndArray)),
            });
            let mut k: u32 = 0;
            while k < n
                invariant
                    self.wf(),
                    self.ctx() == c,
                    c == old(self).ctx(),
                    depth < c.limits.max_depth,
                    k <= n,
                    goal == spec_field(old(self).ctx(), old(self).state(), base, modifier, count, opt_field(nested), refs@, depth as int),
                    goal == match spec_items(c, s1, base, modifier & 0xf, opt_field(nested), refs@, depth as int, 0, n as int) {
                        Err(e) => Err(e),
                        Ok(s2) => Ok(s2.emit(TokenView::EndArray)),
                    },
                    spec_items(c, s1, base, modifier & 0xf, opt_field(nested), refs@, depth as int, 0, n as int)
                        == spec_items(c, self.state(), base, modifier & 0xf, opt_field(nested), refs@, depth as int, k as int, n as int),
                decreases n - k,
            {
                match self.field(base, modifier & 0xf, None, nested, refs, depth + 1) {
                    Ok(()) => {},
                    Err(e) => return Err(e),
                }
                k += 1;
            }
            self.emit(Token::EndArray);
            return Ok(());
        }
        if modifier == 0 {
            return self.scalar(base, nested, refs, depth);
        }
        Err(DecodeError::new(concat_number(text_of("unsupported native modifier "), modifier as usize)))
    }

    /// A scalar value.
    fn scalar(&mut self, base: u8, nested: Option<&Field>, refs: &[Reference], depth: usize) -> (r: Result<(), DecodeError>)
        requires
            old(self).wf(),
            depth < old(self).limits.max_depth,
        ensures
            final(self).wf(),
            final(self).ctx() == old(self).ctx(),
            match spec_scalar(old(self).ctx(), old(self).state(), base, opt_field(nested), refs@, depth as int) {
                Ok(t) => r is Ok && final(self).state() == t,
                Err(x) => r matches Err(e) && failed_as(e, final(self).spec_pos(), x),
            },
        decreases room(old(self).ctx(), depth as int), 2nat, 0nat,
    {
        if base == 13 {
            return match nested {
                None => Err(DecodeError::new(text_of("nested schema absent"))),
                Some(nf) => self.field(nf.base, nf.modifier, nf.array_count, nested_ref(nf), nf.references.as_slice(), depth + 1),
            };
        }
        if base == 14 {
            if refs.len() != 1 {
                return Err(DecodeError::new(text_of("inline native reference schema count")));
            }
            return self.class(refs[0].tag, depth + 1);
        }
        if base == 9 {
            let p = match self.take(16) {
                Ok(p) => p,
                Err(e) => return Err(e),
            };
            let b = self.body;
            let blen = b.len();
            let mut bytes: Vec<u8> = Vec::new();
            let mut i: usize = 0;
            while i < 16
                invariant
                    i <= 16,
                    blen == b@.len(),
                    p + 16 <= b@.len(),
                    bytes@ =~= b@.subrange(p as int, p + i),
                decreases 16 - i,
            {
                bytes.push(b[p + i]);
                i += 1;
            }
            self.emit(Token::BeginObject);
            self.emit_key("guid_bytes");
            self.emit(Token::Bytes(bytes));
            self.emit(Token::EndObject);
            return Ok(());
        }
        let width: usize = if base == 1 || base == 2 {
            1
        } else if base == 3 {
            2
        } else if base == 4 || base == 5 || base == 6 {
            4
        } else if base == 7 || base == 11 {
            8
        } else {
            return Err(DecodeError::new(concat_number(text_of("unsupported native scalar "), base as usize)));
        };
        let v = match self.read_uint(width) {
            Ok(v) => v,
            Err(e) => return Err(e),
        };
        if base == 1 {
            if v > 1 {
                return Err(DecodeError::new(text_of("invalid native bool")));
            }
            self.emit(Token::Bool(v != 0));
        } else if base == 2 || base == 5 {
            self.emit(Token::UInt(v));
        } else if base == 3 {
            let x: i64 = if v >= 0x8000 { v as i64 - 0x1_0000 } else { v as i64 };
            self.emit(Token::Int(x));
        } else if base == 4 {
            let x: i64 = if v >= 0x8000_0000 { v as i64 - 0x1_0000_0000 } else { v as i64 };
            self.emit(Token::Int(x));
        } else if base == 6 {
            if (v / 0x80_0000) % 0x100 == 0xff {
                return Err(DecodeError::new(text_of("nonfinite native float")));
            }
            self.emit(Token::F32(v as u32));
        } else if base == 7 {
            if (v / 0x10_0000_0000_0000) % 0x800 == 0x7ff {
                return Err(DecodeError::new(text_of("nonfinite native double")));
            }
            self.emit(Token::F64(v));
        } else {
            let x: i64 = if v >= 0x8000_0000_0000_0000 {
                (v - 0x8000_0000_0000_0000) as i64 + i64::MIN
            } else {
                v as i64
            };
            self.emit(Token::Int(x));
        }
        Ok(())
    }

    /// An inline object of the class a tag names.
    pub fn class(&mut self, tag: u16, depth: usize) -> (r: Result<(), DecodeError>)
        requires
            old(self).wf(),
        ensures
            final(self).wf(),
            final(self).ctx() == old(self).ctx(),
            match spec_class(old(self).ctx(), old(self).state(), tag, depth as int) {
                Ok(t) => r is Ok && final(self).state() == t,
                Err(x) => r matches Err(e) && failed_as(e, final(self).spec_pos(), x),
            },
        decreases room(old(self).ctx(), depth as int), 3nat, 0nat,
    {
        if depth >= self.limits.max_depth {
            return Err(DecodeError::new(text_of("native class recursion budget exceeded")));
        }
        let lin = match self.lineage(tag, depth) {
            Ok(l) => l,
            Err(e) => return Err(e),
        };
        let es = self.entries_of(&lin);
        let reg = self.registry;
        self.emit(Token::BeginObject);
        let ghost c = self.ctx();
        let ghost s0 = self.state();
        let ghost goal = spec_class(old(self).ctx(), old(self).state(), tag, depth as int);
        assert(goal == match spec_entries(c, s0, depth as int, es@, 0, Seq::empty()) {
            Err(e) => Err(e),
            Ok(s1) => Ok(s1.emit(TokenView::EndObject)),
        });
        proof {
            lemma_lineage_valid(*reg, tag, depth as int, c.limits.max_depth as int, Seq::empty());
            lemma_entries_valid(*reg, lin@, lin@.len() as int);
        }
        let mut keys: Vec<String> = Vec::new();
        let mut k: usize = 0;
        proof {
            assert(texts_view(keys@) =~= Seq::<Seq<char>>::empty());
        }
        while k < es.len()
            invariant
                self.wf(),
                self.ctx() == c,
                c == old(self).ctx(),
                reg == self.registry,
                depth < c.limits.max_depth,
                depth + lin@.len() <= c.limits.max_depth,
                es@ == class_entries(*reg, lin@, lin@.len() as int),
                forall|j: int| 0 <= j < es@.len() ==> (#[trigger] es@[j]).2 < lin@.len(),
                k <= es@.len(),
                entries_valid(*reg, es@),
                goal == spec_class(old(self).ctx(), old(self).state(), tag, depth as int),
                goal == match spec_entries(c, s0, depth as int, es@, 0, Seq::empty()) {
                    Err(e) => Err(e),
                    Ok(s1) => Ok(s1.emit(TokenView::EndObject)),
                },
                spec_entries(c, s0, depth as int, es@, 0, Seq::empty())
                    == spec_entries(c, self.state(), depth as int, es@, k as int, texts_view(keys@)),
            decreases es@.len() - k,
        {
            let e = es[k];
            let (ci, fi, dist) = e;
            let cl = &reg.classes[ci];
            let f = &cl.fields[fi];
            proof {
                assert(entry_class(*reg, es@[k as int]) == *cl);
                assert(entry_field(*reg, es@[k as int]) == *f);
            }
            if f.uninterpreted_flags & 2 != 0 {
                k += 1;
                continue;
            }
            let supported = f.uninterpreted_flags == 0 || (str_eq(cl.name.as_str(), "VarExpr") && str_eq(f.name.as_str(), "m_refCt")
                && f.uninterpreted_flags == 4 && f.base == 4 && f.modifier == 0);
            if !supported {
                return Err(DecodeError::new(concat_number(concat(concat(concat(concat(text_of("unsupported native field flags "), cl.name.as_str()), "."), f.name.as_str()), ": "), f.uninterpreted_flags as usize)));
            }
            let key = self.key_of(&es, e);
            let start = self.pos;
            self.emit(Token::Key(key.clone()));
            match self.member(ci, fi, depth + dist + 1) {
                Ok(()) => {},
                Err(x) => return Err(x),
            }
            let end = self.pos;
            self.record_span(FieldSpan { class_tag: cl.tag, name: f.name.clone(), start, end });
            if contains_text(&keys, key.as_str()) {
                return Err(DecodeError::new(concat(concat_number(concat(concat(concat(concat(text_of("ambiguous native field key "), key.as_str()), " in declaring class "), cl.name.as_str()), " (tag "), cl.tag as usize), ")")));
            }
            let ghost kv = key@;
            let ghost before = keys@;
            keys.push(key);
            proof {
                assert(texts_view(keys@) =~= texts_view(before).push(kv));
            }
            k += 1;
        }
        self.emit(Token::EndObject);
        Ok(())
    }

    /// The value of the field `fi` of the class at position `ci`.
    fn member(&mut self, ci: usize, fi: usize, depth: usize) -> (r: Result<(), DecodeError>)
        requires
            old(self).wf(),
            ci < old(self).registry.classes@.len(),
            fi < old(self).registry.classes@[ci as int].fields@.len(),
        ensures
            final(self).wf(),
            final(self).ctx() == old(self).ctx(),
            match spec_member(
                old(self).ctx(),
                old(self).state(),
                old(self).registry.classes@[ci as int],
                old(self).registry.classes@[ci as int].fields@[fi as int],
                depth as int,
            ) {
                Ok(t) => r is Ok && final(self).state() == t,
                Err(x) => r matches Err(e) && failed_as(e, final(self).spec_pos(), x),
            },
        decreases room(old(self).ctx(), depth as int), 4nat, 0nat,
    {
        let reg = self.registry;
        let cl = &reg.classes[ci];
        let f = &cl.fields[fi];
        let cname = cl.name.as_str();
        let fname = f.name.as_str();
        if str_eq(cname, "SpotElevation") && str_eq(fname, "m_bendOrPosPtOffset") {
            return self.optional_vector(f, depth);
        }
        match compact_kind_of(cname, fname) {
            Some((reason, max_items)) => {
                let n = match self.skip_field_value(f, depth, max_items) {
                    Ok(n) => n,
                    Err(e) => return Err(e),
                };
                self.emit(Token::BeginObject);
                self.emit_key_text("native_field_skipped", concat(concat(text_of(cname), "."), fname));
                self.emit_key_text("reason", concat(text_of(reason), "; not_materialized_in_bounded_native_graph"));
                self.emit_key_uint("item_count", n as u64);
                self.emit(Token::EndObject);
                return Ok(());
            },
            None => {},
        }
        if str_eq(cname, "ClassDefinitionRef") && str_eq(fname, "m_ref") && f.base == 10 && f.modifier == 0 {
            return self.class_ref();
        }
        if str_eq(cname, "ESEntity") && str_eq(fname, "m_blob") && f.base == 14 && f.modifier == 1 {
            return self.entity_pointer();
        }
        if str_eq(cname, "VarSketchObj") && str_eq(fname, "m_params") && f.base == 14 && f.modifier == 0x54 {
            return self.field(f.base, 0x51, f.array_count, nested_ref(f), f.references.as_slice(), depth);
        }
        match self.field(f.base, f.modifier, f.array_count, nested_ref(f), f.references.as_slice(), depth) {
            Ok(()) => Ok(()),
            Err(e) => {
                let p = self.pos;
                let mut m = concat(concat(concat(text_of(cname), "."), fname), " [base=");
                m = concat_number(m, f.base as usize);
                m = concat(m, ", modifier=0x");
                m = concat(m, hex_small_string(f.modifier).as_str());
                m = concat(m, "] at ");
                m = concat_number(m, p);
                m = concat(m, ": ");
                m = concat(m, e.message.as_str());
                Err(DecodeError::new(m))
            },
        }
    }

    /// The bytes between two positions of the body.
    fn bytes_between(&self, a: usize, b: usize) -> (r: Vec<u8>)
        requires
            a <= b <= self.body@.len(),
        ensures
            r@ == self.body@.subrange(a as int, b as int),
    {
        let body = self.body;
        let mut r: Vec<u8> = Vec::new();
        let mut i = a;
        while i < b
            invariant
                a <= i <= b <= body@.len(),
                r@ =~= body@.subrange(a as int, i as int),
            decreases b - i,
        {
            r.push(body[i]);
            i += 1;
        }
        r
    }

    /// An Extensible Storage value of a declared type.
    fn es_value(&mut self, name: &str, container: i32) -> (r: Result<(), DecodeError>)
        requires
            old(self).wf(),
        ensures
            final(self).wf(),
            final(self).ctx() == old(self).ctx(),
            match spec_es_value(old(self).ctx(), old(self).state(), name@, container) {
                Ok(t) => r is Ok && final(self).state() == t,
                Err(x) => r matches Err(e) && failed_as(e, final(self).spec_pos(), x),
            },
    {
        if container < 0 || container > 2 {
            return Err(DecodeError::new(concat(text_of("unqualified ES container "), signed_string(container).as_str())));
        }
        let (base, scalar_modifier): (u8, u8) = if str_eq(name, "bool") {
            (1, 0)
        } else if str_eq(name, "char") {
            (2, 0)
        } else if str_eq(name, "short") {
            (3, 0)
        } else if str_eq(name, "int") {
            (4, 0)
        } else if str_eq(name, "int64_t") {
            (11, 0)
        } else if str_eq(name, "float") {
            (6, 0)
        } else if str_eq(name, "double") {
            (7, 0)
        } else if str_eq(name, "TCHAR") {
            (8, 0x60)
        } else {
            (14, 0)
        };
        let mut refs: Vec<Reference> = Vec::new();
        if base == 14 {
            match self.registry.named_position(name) {
                None => return Err(DecodeError::new(concat(text_of("ES type absent from saved Formats registry: "), name))),
                Some(i) => {
                    refs.push(Reference { offset: 0, tag: self.registry.classes[i].tag, introduces_definition: false });
                },
            }
        }
        if container != 0 && str_eq(name, "TCHAR") {
            return Err(DecodeError::new(text_of("ES character-string array needs explicit element wrapper")));
        }
        if container == 2 && !is_pair_name(name) {
            return Err(DecodeError::new(text_of("ES map element lacks pair declaration")));
        }
        let modifier: u8 = if container != 0 { 0x50 } else { scalar_modifier };
        proof {
            if base == 14 {
                let i = crate::schema::named_index(*self.registry, name@)->Some_0;
                assert(refs@ =~= seq![Reference { offset: 0, tag: self.registry.classes@[i].tag, introduces_definition: false }]);
            } else {
                assert(refs@ =~= Seq::<Reference>::empty());
            }
        }
        self.field(base, modifier, None, None, refs.as_slice(), 0)
    }

    fn es_head(&mut self, f: &crate::extensible_storage::Field)
        ensures
            final(self).state() == es_field_head(old(self).state(), *f),
            final(self).ctx() == old(self).ctx(),
            final(self).wf() == old(self).wf(),
            final(self).pos == old(self).pos,
    {
        self.emit(Token::BeginObject);
        self.emit_key("index");
        self.emit(Token::UInt(f.index as u64));
        self.emit_key("name");
        self.emit(Token::Text(f.name.clone()));
        self.emit_key("type_name");
        self.emit(Token::Text(f.field_type.clone()));
        self.emit_key("container_type");
        self.emit(Token::Int(f.container_type as i64));
        self.emit_key("spec_type_id");
        self.emit(match &f.spec_type_id {
            Some(t) => Token::Text(t.clone()),
            None => Token::Null,
        });
        self.emit_key("subschema_guid");
        self.emit(match &f.subschema_guid {
            Some(t) => Token::Text(t.clone()),
            None => Token::Null,
        });
        let p = self.pos;
        self.emit_key_uint("start", p as u64);
        self.emit_key("raw_value");
    }

    fn es_tail(&mut self, f: &crate::extensible_storage::Field)
        ensures
            final(self).state() == es_field_tail(old(self).state(), *f),
            final(self).ctx() == old(self).ctx(),
            final(self).wf() == old(self).wf(),
            final(self).pos == old(self).pos,
    {
        let p = self.pos;
        self.emit_key_uint("end", p as u64);
        self.emit_key_text("value_semantics", text_of("serialized_value"));
        self.emit_key("serialized_unit_type_id");
        let (unit, status): (Token, &str) = match &f.spec_type_id {
            Some(t) => {
                let ts = t.as_str();
                if str_eq(ts, "autodesk.spec.aec:length-2.0.1") {
                    (Token::Text(text_of("autodesk.unit.unit:millimeters-1.0.1")), "qualified_es_default_metric_length")
                } else if ts.is_empty() {
                    (Token::Null, "no_saved_spec")
                } else {
                    (Token::Null, "unqualified_spec_storage_units")
                }
            },
            None => (Token::Null, "no_saved_spec"),
        };
        assert(unit@ == unit_of(f.spec_type_id).0);
        assert(status@ == unit_of(f.spec_type_id).1);
        self.emit(unit);
        self.emit_key_text("unit_status", text_of(status));
        self.emit(Token::EndObject);
    }

    /// The payload of an Extensible Storage entity of the schema declared
    /// under `guid`.
    pub fn entity_fields(&mut self, guid: &str) -> (r: Result<(), DecodeError>)
        requires
            old(self).wf(),
        ensures
            final(self).wf(),
            final(self).ctx() == old(self).ctx(),
            match spec_entity_fields(old(self).ctx(), old(self).state(), guid@) {
                Ok(t) => r is Ok && final(self).state() == t,
                Err(x) => r matches Err(e) && failed_as(e, final(self).spec_pos(), x),
            },
    {
        proof {
            reveal(spec_entity_fields);
        }
        let cat_ref = match self.catalog {
            None => return Err(DecodeError::new(text_of("ES schema unavailable"))),
            Some(c) => c,
        };
        let i = match cat_ref.find(guid) {
            None => return Err(DecodeError::new(text_of("ES schema unavailable"))),
            Some(i) => i,
        };
        let schema = cat_ref.schema_at(i);
        let fs = &schema.fields;
        if !contiguous_indices(fs) {
            return Err(DecodeError::new(text_of("ES field indices are not unique and contiguous")));
        }
        let prefix = self.prefixes[i];
        if prefix > 64 {
            return Err(DecodeError::new(text_of("ES source-bound payload prefix exceeds bounded qualification")));
        }
        let start = self.pos;
        match self.take(prefix as usize) {
            Ok(_) => {},
            Err(e) => return Err(e),
        }
        self.emit(Token::BeginObject);
        self.emit_key_text("schema_guid", text_of(guid));
        self.emit_key_text("schema_name", schema.name.clone());
        self.emit_key("source_bound_payload_prefix");
        if prefix == 0 {
            self.emit(Token::Null);
        } else {
            let end = self.pos;
            self.emit(Token::BeginObject);
            self.emit_key_uint("start", start as u64);
            self.emit_key_uint("end", end as u64);
            self.emit_key("bytes");
            let bytes = self.bytes_between(start, end);
            self.emit(Token::Bytes(bytes));
            self.emit(Token::EndObject);
        }
        self.emit_key("fields");
        self.emit(Token::BeginArray);
        let ghost c = self.ctx();
        let ghost s0 = self.state();
        let ghost goal = spec_entity_fields(old(self).ctx(), old(self).state(), guid@);
        assert(goal == match spec_es_fields(c, s0, fs@, 0) {
            Err(e) => Err(e),
            Ok(s4) => Ok(s4.emit(TokenView::EndArray).emit(TokenView::EndObject)),
        });
        let mut k: usize = 0;
        while k < fs.len()
            invariant
                self.wf(),
                self.ctx() == c,
                c == old(self).ctx(),
                k <= fs@.len(),
                indices_contiguous(fs@),
                goal == spec_entity_fields(old(self).ctx(), old(self).state(), guid@),
                goal == match spec_es_fields(c, s0, fs@, 0) {
                    Err(e) => Err(e),
                    Ok(s4) => Ok(s4.emit(TokenView::EndArray).emit(TokenView::EndObject)),
                },
                spec_es_fields(c, s0, fs@, 0) == spec_es_fields(c, self.state(), fs@, k as int),
            decreases fs@.len() - k,
        {
            let j = position_of_index(fs, k);
            let f = &fs[j];
            self.es_head(f);
            match self.es_value(f.field_type.as_str(), f.container_type) {
                Ok(()) => {},
                Err(e) => return Err(e),
            }
            self.es_tail(f);
            k += 1;
        }
        self.emit(Token::EndArray);
        self.emit(Token::EndObject);
        Ok(())
    }
}

} // verus!
