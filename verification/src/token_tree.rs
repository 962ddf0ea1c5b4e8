//! Reading a decoded value: the extent of a value in its token stream, the
//! member of an object under a key, scalars, and saved element ids.
use vstd::prelude::*;

use crate::order::{name_lt, name_lt_exec, names};
use crate::text::{concat, concat_number, str_eq, text_of};
use crate::value_grammar::{dec, tokens_view, Token, TokenView};

verus! {

/// How a token changes the nesting depth.
pub open spec fn depth_step(t: TokenView) -> int {
    match t {
        TokenView::BeginObject | TokenView::BeginArray => 1,
        TokenView::EndObject | TokenView::EndArray => -1,
        _ => 0,
    }
}

/// Scanning from `i` at depth `d`: the position after the token that
/// brings the depth back to zero.
pub open spec fn scan_end(t: Seq<TokenView>, i: int, d: int) -> Option<int>
    decreases t.len() - i,
{
    if i < 0 || i >= t.len() {
        None
    } else {
        let d2 = d + depth_step(t[i]);
        if d2 < 0 {
            None
        } else if d2 == 0 {
            Some(i + 1)
        } else {
            scan_end(t, i + 1, d2)
        }
    }
}

/// A token that can start a value.
pub open spec fn starts_value(t: TokenView) -> bool {
    !(t is Key || t is EndObject || t is EndArray)
}

/// The position after the value that starts at `i`.
pub open spec fn value_end(t: Seq<TokenView>, i: int) -> Option<int> {
    if 0 <= i < t.len() && starts_value(t[i]) {
        scan_end(t, i, 0)
    } else {
        None
    }
}

/// A value ends after it starts.
pub proof fn lemma_scan_end_after(t: Seq<TokenView>, i: int, d: int)
    requires
        scan_end(t, i, d) is Some,
    ensures
        i < scan_end(t, i, d)->Some_0 <= t.len(),
    decreases t.len() - i,
{
    if 0 <= i < t.len() {
        let d2 = d + depth_step(t[i]);
        if d2 > 0 {
            lemma_scan_end_after(t, i + 1, d2);
        }
    }
}

/// A value ends after it starts.
pub proof fn lemma_value_end_after(t: Seq<TokenView>, i: int)
    ensures
        value_end(t, i) matches Some(e) ==> i < e <= t.len(),
{
    if value_end(t, i) is Some {
        lemma_scan_end_after(t, i, 0);
    }
}

/// The value under `key` among the members of an object from position
/// `p` on.
pub open spec fn member_from(t: Seq<TokenView>, p: int, key: Seq<char>) -> Option<int>
    decreases t.len() - p,
{
    if p < 0 || p >= t.len() {
        None
    } else {
        match t[p] {
            TokenView::Key(k) => if k == key {
                if p + 1 < t.len() {
                    Some(p + 1)
                } else {
                    None
                }
            } else {
                match value_end(t, p + 1) {
                    Some(e) => if p < e <= t.len() {
                        member_from(t, e, key)
                    } else {
                        None
                    },
                    None => None,
                }
            },
            _ => None,
        }
    }
}

/// The value under `key` in the object at `o`.
pub open spec fn member(t: Seq<TokenView>, o: int, key: Seq<char>) -> Option<int> {
    if 0 <= o < t.len() && t[o] is BeginObject {
        member_from(t, o + 1, key)
    } else {
        None
    }
}

/// The keys of an object's members from position `p` on, in order.
pub open spec fn keys_from(t: Seq<TokenView>, p: int) -> Seq<Seq<char>>
    decreases t.len() - p,
{
    if p < 0 || p >= t.len() {
        Seq::empty()
    } else {
        match t[p] {
            TokenView::Key(k) => match value_end(t, p + 1) {
                Some(e) => if p < e <= t.len() {
                    seq![k] + keys_from(t, e)
                } else {
                    seq![k]
                },
                None => seq![k],
            },
            _ => Seq::empty(),
        }
    }
}

/// How many elements an array holds from position `p` on.
pub open spec fn elements_from(t: Seq<TokenView>, p: int) -> nat
    decreases t.len() - p,
{
    if p < 0 || p >= t.len() || t[p] is EndArray {
        0
    } else {
        match value_end(t, p) {
            Some(e) => if p < e <= t.len() {
                1 + elements_from(t, e)
            } else {
                1
            },
            None => 0,
        }
    }
}

/// A token as a signed 64-bit number: an integer that fits.
pub open spec fn as_i64(t: TokenView) -> Option<i64> {
    match t {
        TokenView::UInt(n) => if n <= i64::MAX {
            Some(n as i64)
        } else {
            None
        },
        TokenView::Int(n) => Some(n),
        _ => None,
    }
}

/// A name placed into a sorted sequence of names, before the first that
/// does not order before it.
pub open spec fn insert_name(s: Seq<Seq<char>>, k: Seq<char>) -> Seq<Seq<char>>
    decreases s.len(),
{
    if s.len() == 0 {
        seq![k]
    } else if name_lt(s[0], k) {
        seq![s[0]] + insert_name(s.drop_first(), k)
    } else {
        seq![k] + s
    }
}

/// Names sorted by insertion.
pub open spec fn sort_names(s: Seq<Seq<char>>) -> Seq<Seq<char>>
    decreases s.len(),
{
    if s.len() == 0 {
        Seq::empty()
    } else {
        insert_name(sort_names(s.drop_last()), s.last())
    }
}

/// Names joined with commas.
pub open spec fn join_names(s: Seq<Seq<char>>) -> Seq<char>
    decreases s.len(),
{
    if s.len() == 0 {
        Seq::empty()
    } else if s.len() == 1 {
        s[0]
    } else {
        join_names(s.drop_last()) + ","@ + s.last()
    }
}

/// How a value that is no identifier is described.
pub open spec fn value_shape(t: Seq<TokenView>, i: int) -> Seq<char> {
    if i < 0 || i >= t.len() {
        "null"@
    } else {
        match t[i] {
            TokenView::BeginObject => "object keys ["@ + join_names(sort_names(keys_from(t, i + 1))) + "]"@,
            TokenView::BeginArray => "array length "@ + dec(elements_from(t, i + 1) as int),
            TokenView::Bytes(b) => "array length "@ + dec(b.len() as int),
            TokenView::Text(_) => "string"@,
            TokenView::Bool(_) => "bool"@,
            TokenView::Null => "null"@,
            _ => "non-integer number"@,
        }
    }
}

/// A saved element id: a number, or an object holding one under `m_id`
/// or else `m_id64`; an absent value is null.
pub open spec fn identifier(t: Seq<TokenView>, pos: Option<int>) -> Result<i64, Seq<char>>
    decreases t.len() - (match pos {
        Some(i) => i,
        None => t.len() as int,
    }),
{
    match pos {
        None => Err("unsupported saved identifier shape (null)"@),
        Some(i) => if i < 0 || i >= t.len() {
            Err("unsupported saved identifier shape (null)"@)
        } else {
            match as_i64(t[i]) {
                Some(n) => Ok(n),
                None => {
                    let inner = match member(t, i, "m_id"@) {
                        Some(j) => Some(j),
                        None => member(t, i, "m_id64"@),
                    };
                    match inner {
                        Some(j) => if i < j <= t.len() {
                            identifier(t, Some(j))
                        } else {
                            Err("unsupported saved identifier shape ("@ + value_shape(t, i) + ")"@)
                        },
                        None => Err("unsupported saved identifier shape ("@ + value_shape(t, i) + ")"@),
                    }
                },
            }
        },
    }
}

/// The text under `key` in the object at `o`, when it is text.
pub open spec fn text_member(t: Seq<TokenView>, o: int, key: Seq<char>) -> Option<Seq<char>> {
    match member(t, o, key) {
        Some(j) => match t[j] {
            TokenView::Text(s) => Some(s),
            _ => None,
        },
        None => None,
    }
}

/// The position after the value that starts at `i`.
pub fn value_end_exec(t: &[Token], i: usize) -> (r: Option<usize>)
    ensures
        match value_end(tokens_view(t@), i as int) {
            Some(e) => r == Some(e as usize),
            None => r is None,
        },
{
    let ghost tv = tokens_view(t@);
    if i >= t.len() {
        return None;
    }
    match &t[i] {
        Token::Key(_) | Token::EndObject | Token::EndArray => {
            return None;
        },
        _ => {},
    }
    proof {
        assert(tv[i as int] == t@[i as int]@);
    }
    let mut j = i;
    let mut d: usize = 0;
    loop
        invariant
            tv == tokens_view(t@),
            i <= j,
            d <= j - i,
            j < t@.len() || j == t@.len(),
            value_end(tv, i as int) == scan_end(tv, j as int, d as int),
        decreases t@.len() - j,
    {
        if j >= t.len() {
            return None;
        }
        proof {
            assert(tv[j as int] == t@[j as int]@);
        }
        let d2: usize = match &t[j] {
            Token::BeginObject | Token::BeginArray => d + 1,
            Token::EndObject | Token::EndArray => {
                if d == 0 {
                    return None;
                }
                d - 1
            },
            _ => d,
        };
        if d2 == 0 {
            return Some(j + 1);
        }
        d = d2;
        j += 1;
    }
}

/// The value under `key` in the object at `o`.
pub fn member_exec(t: &[Token], o: usize, key: &str) -> (r: Option<usize>)
    ensures
        match member(tokens_view(t@), o as int, key@) {
            Some(j) => r == Some(j as usize),
            None => r is None,
        },
{
    let ghost tv = tokens_view(t@);
    if o >= t.len() {
        return None;
    }
    proof {
        assert(tv[o as int] == t@[o as int]@);
    }
    match &t[o] {
        Token::BeginObject => {},
        _ => {
            return None;
        },
    }
    let mut p = o + 1;
    loop
        invariant
            tv == tokens_view(t@),
            o < p,
            member(tv, o as int, key@) == member_from(tv, p as int, key@),
        decreases t@.len() - p,
    {
        if p >= t.len() {
            return None;
        }
        proof {
            assert(tv[p as int] == t@[p as int]@);
        }
        match &t[p] {
            Token::Key(k) => {
                if str_eq(k.as_str(), key) {
                    if p + 1 < t.len() {
                        return Some(p + 1);
                    }
                    return None;
                }
                proof {
                    lemma_value_end_after(tv, p + 1);
                }
                match value_end_exec(t, p + 1) {
                    Some(e) => {
                        if e <= p || e > t.len() {
                            return None;
                        }
                        p = e;
                    },
                    None => {
                        return None;
                    },
                }
            },
            _ => {
                return None;
            },
        }
    }
}


/// An object's member lies after the object's start and inside the stream.
pub proof fn lemma_member_from_in_bounds(t: Seq<TokenView>, p: int, key: Seq<char>)
    ensures
        member_from(t, p, key) matches Some(j) ==> p < j < t.len(),
    decreases t.len() - p,
{
    if 0 <= p < t.len() {
        match t[p] {
            TokenView::Key(k) => if k != key {
                match value_end(t, p + 1) {
                    Some(e) => if p < e <= t.len() {
                        lemma_member_from_in_bounds(t, e, key);
                    },
                    None => {},
                }
            },
            _ => {},
        }
    }
}

/// Optional positions as integers.
pub open spec fn opt_pos(p: Option<usize>) -> Option<int> {
    match p {
        Some(i) => Some(i as int),
        None => None,
    }
}

/// An executable result agrees with a specified one.
pub open spec fn text_outcome<T>(r: Result<T, String>, s: Result<T, Seq<char>>) -> bool {
    match s {
        Ok(v) => r == Ok::<T, String>(v),
        Err(e) => r is Err && r->Err_0@ == e,
    }
}

/// The keys of an object's members from `p` on, in order.
pub fn keys_exec(t: &[Token], p: usize) -> (r: Vec<String>)
    ensures
        names(r@) == keys_from(tokens_view(t@), p as int),
{
    let ghost tv = tokens_view(t@);
    let mut out: Vec<String> = Vec::new();
    let mut q = p;
    loop
        invariant
            tv == tokens_view(t@),
            p <= q,
            keys_from(tv, p as int) == names(out@) + keys_from(tv, q as int),
        decreases t@.len() - q,
    {
        if q >= t.len() {
            proof {
                assert(names(out@) + keys_from(tv, q as int) =~= names(out@));
            }
            return out;
        }
        proof {
            assert(tv[q as int] == t@[q as int]@);
        }
        match &t[q] {
            Token::Key(k) => {
                let ghost before = out@;
                out.push(k.clone());
                proof {
                    assert(names(out@) =~= names(before) + seq![k@]);
                    lemma_value_end_after(tv, q + 1);
                }
                match value_end_exec(t, q + 1) {
                    Some(e) => {
                        proof {
                            assert(names(before) + (seq![k@] + keys_from(tv, e as int)) =~= names(
                                out@,
                            ) + keys_from(tv, e as int));
                        }
                        q = e;
                    },
                    None => {
                        proof {
                            assert(names(before) + seq![k@] =~= names(out@) + keys_from(
                                tv,
                                q as int + 1,
                            ).take(0));
                        }
                        return out;
                    },
                }
            },
            _ => {
                proof {
                    assert(names(out@) + keys_from(tv, q as int) =~= names(out@));
                }
                return out;
            },
        }
    }
}

/// Inserting a name where the first name not ordered before it stands.
proof fn lemma_insert_name_at(s: Seq<Seq<char>>, k: Seq<char>, j: int)
    requires
        0 <= j <= s.len(),
        forall|i: int| 0 <= i < j ==> name_lt(#[trigger] s[i], k),
        j < s.len() ==> !name_lt(s[j], k),
    ensures
        insert_name(s, k) == s.take(j) + seq![k] + s.skip(j),
    decreases j,
{
    if j == 0 {
        assert(s.take(0) + seq![k] + s.skip(0) =~= seq![k] + s);
        if s.len() == 0 {
            assert(seq![k] + s =~= seq![k]);
        }
    } else {
        let d = s.drop_first();
        assert forall|i: int| 0 <= i < j - 1 implies name_lt(#[trigger] d[i], k) by {
            assert(d[i] == s[i + 1]);
        }
        lemma_insert_name_at(d, k, j - 1);
        assert(s.take(j) + seq![k] + s.skip(j) =~= seq![s[0]] + (d.take(j - 1) + seq![k] + d.skip(
            j - 1,
        )));
    }
}

/// Names sorted by insertion, as `sort_names` orders them.
pub fn sort_names_exec(v: &Vec<String>) -> (r: Vec<String>)
    ensures
        names(r@) == sort_names(names(v@)),
{
    let mut out: Vec<String> = Vec::new();
    let mut i: usize = 0;
    while i < v.len()
        invariant
            i <= v.len(),
            names(out@) == sort_names(names(v@).take(i as int)),
        decreases v.len() - i,
    {
        let k = &v[i];
        let mut j: usize = 0;
        while j < out.len() && name_lt_exec(out[j].as_str(), k.as_str())
            invariant
                j <= out.len(),
                forall|x: int| 0 <= x < j ==> name_lt(#[trigger] names(out@)[x], k@),
            decreases out.len() - j,
        {
            j += 1;
        }
        let ghost before = names(out@);
        proof {
            lemma_insert_name_at(before, k@, j as int);
            assert(names(v@).take(i + 1).drop_last() =~= names(v@).take(i as int));
        }
        out.insert(j, k.clone());
        proof {
            assert(names(out@) =~= before.take(j as int) + seq![k@] + before.skip(j as int));
        }
        i += 1;
    }
    proof {
        assert(names(v@).take(v.len() as int) =~= names(v@));
    }
    out
}

/// Names joined with commas.
pub fn join_names_exec(v: &Vec<String>) -> (r: String)
    ensures
        r@ == join_names(names(v@)),
{
    let mut out = String::new();
    let mut i: usize = 0;
    while i < v.len()
        invariant
            i <= v.len(),
            out@ == join_names(names(v@).take(i as int)),
        decreases v.len() - i,
    {
        proof {
            assert(names(v@).take(i + 1).drop_last() =~= names(v@).take(i as int));
        }
        if i == 0 {
            out = v[0].clone();
        } else {
            out = concat(concat(out, ","), v[i].as_str());
        }
        i += 1;
    }
    proof {
        assert(names(v@).take(v.len() as int) =~= names(v@));
    }
    out
}

/// How many elements an array holds from position `p` on.
pub fn elements_exec(t: &[Token], p: usize) -> (r: usize)
    ensures
        r == elements_from(tokens_view(t@), p as int),
{
    let ghost tv = tokens_view(t@);
    let mut q = p;
    let mut n: usize = 0;
    loop
        invariant
            tv == tokens_view(t@),
            p <= q,
            n <= q - p,
            elements_from(tv, p as int) == n + elements_from(tv, q as int),
        decreases t@.len() - q,
    {
        if q >= t.len() {
            return n;
        }
        proof {
            assert(tv[q as int] == t@[q as int]@);
        }
        match &t[q] {
            Token::EndArray => {
                return n;
            },
            _ => {},
        }
        proof {
            lemma_value_end_after(tv, q as int);
        }
        match value_end_exec(t, q) {
            Some(e) => {
                n += 1;
                q = e;
            },
            None => {
                return n;
            },
        }
    }
}

/// How a value that is no identifier is described.
pub fn value_shape_exec(t: &[Token], i: usize) -> (r: String)
    ensures
        r@ == value_shape(tokens_view(t@), i as int),
{
    let ghost tv = tokens_view(t@);
    if i >= t.len() {
        return text_of("null");
    }
    proof {
        assert(tv[i as int] == t@[i as int]@);
    }
    match &t[i] {
        Token::BeginObject => {
            let keys = sort_names_exec(&keys_exec(t, i + 1));
            let joined = join_names_exec(&keys);
            let s = concat(text_of("object keys ["), joined.as_str());
            concat(s, "]")
        },
        Token::BeginArray => concat_number(text_of("array length "), elements_exec(t, i + 1)),
        Token::Bytes(b) => concat_number(text_of("array length "), b.len()),
        Token::Text(_) => text_of("string"),
        Token::Bool(_) => text_of("bool"),
        Token::Null => text_of("null"),
        _ => text_of("non-integer number"),
    }
}

/// A saved element id: a number, or an object holding one under `m_id`
/// or else `m_id64`.
pub fn identifier_exec(t: &[Token], pos: Option<usize>) -> (r: Result<i64, String>)
    ensures
        text_outcome(r, identifier(tokens_view(t@), opt_pos(pos))),
    decreases t@.len() - match pos {
        Some(i) => i as int,
        None => t@.len() as int,
    },
{
    let ghost tv = tokens_view(t@);
    let i = match pos {
        None => {
            return Err(text_of("unsupported saved identifier shape (null)"));
        },
        Some(i) => i,
    };
    if i >= t.len() {
        return Err(text_of("unsupported saved identifier shape (null)"));
    }
    proof {
        assert(tv[i as int] == t@[i as int]@);
    }
    match &t[i] {
        Token::UInt(n) => if *n <= i64::MAX as u64 {
            return Ok(*n as i64);
        },
        Token::Int(n) => {
            return Ok(*n);
        },
        _ => {},
    }
    proof {
        lemma_member_from_in_bounds(tv, i + 1, "m_id"@);
        lemma_member_from_in_bounds(tv, i + 1, "m_id64"@);
    }
    let first = member_exec(t, i, "m_id");
    let inner = match first {
        Some(j) => Some(j),
        None => member_exec(t, i, "m_id64"),
    };
    match inner {
        Some(j) => if i < j && j <= t.len() {
            proof {
                assert(as_i64(tv[i as int]) is None);
                assert(identifier(tv, Some(i as int)) == identifier(tv, Some(j as int)));
            }
            return identifier_exec(t, Some(j));
        },
        None => {},
    }
    let shape = value_shape_exec(t, i);
    let s = concat(text_of("unsupported saved identifier shape ("), shape.as_str());
    Err(concat(s, ")"))
}

/// The text under `key` in the object at `o`, when it is text.
pub fn text_member_exec(t: &[Token], o: usize, key: &str) -> (r: Option<String>)
    ensures
        match text_member(tokens_view(t@), o as int, key@) {
            Some(s) => r is Some && r->0@ == s,
            None => r is None,
        },
{
    let ghost tv = tokens_view(t@);
    proof {
        lemma_member_from_in_bounds(tv, o + 1, key@);
    }
    match member_exec(t, o, key) {
        Some(j) => {
            proof {
                assert(tv[j as int] == t@[j as int]@);
            }
            match &t[j] {
                Token::Text(s) => Some(s.clone()),
                _ => None,
            }
        },
        None => None,
    }
}

} // verus!
