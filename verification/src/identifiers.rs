//! GUID text forms and the default IFC export identifier derived from a
//! native UniqueId.
use vstd::prelude::*;
use vstd::string::*;

use crate::text::{hex_digit, hex_digit_exec, push_char};

verus! {

/// Why a native UniqueId yields no default IFC identifier.
#[derive(Clone, Copy, Debug, PartialEq, Eq, Structural)]
pub enum IdentifierError {
    /// The UniqueId has no `-` before its identifier suffix.
    SuffixAbsent,
    /// The episode GUID is not 36 ASCII bytes.
    InvalidEpisode,
    /// A GUID separator is not at byte 8, 13, 18 and 23.
    InvalidSeparator,
    /// The episode GUID does not hold exactly 32 hexadecimal digits.
    InvalidDigits,
    /// The suffix is not 8 to 16 hexadecimal digits.
    InvalidSuffix,
}

/// ASCII hexadecimal digit, either case.
pub open spec fn is_hex(c: u8) -> bool {
    (48 <= c <= 57) || (65 <= c <= 70) || (97 <= c <= 102)
}

/// Value of an ASCII hexadecimal digit.
pub open spec fn hex_value(c: u8) -> int {
    if 48 <= c <= 57 {
        c - 48
    } else if 65 <= c <= 70 {
        c - 55
    } else {
        c - 87
    }
}

/// Value of a string of hexadecimal digits, most significant first.
pub open spec fn hex_number(s: Seq<u8>) -> int
    decreases s.len(),
{
    if s.len() == 0 {
        0
    } else {
        hex_number(s.drop_last()) * 16 + hex_value(s.last())
    }
}

/// `s` without its `-` bytes.
pub open spec fn without_dashes(s: Seq<u8>) -> Seq<u8>
    decreases s.len(),
{
    if s.len() == 0 {
        Seq::empty()
    } else if s.last() == 45 {
        without_dashes(s.drop_last())
    } else {
        without_dashes(s.drop_last()).push(s.last())
    }
}

/// Index of the last `-` byte of `s`.
pub open spec fn last_dash(s: Seq<u8>) -> Option<int>
    decreases s.len(),
{
    if s.len() == 0 {
        None
    } else if s.last() == 45 {
        Some(s.len() - 1)
    } else {
        last_dash(s.drop_last())
    }
}

/// The IFC base-64 alphabet: `0-9`, `A-Z`, `a-z`, `_`, `$`.
pub open spec fn ifc_char(d: int) -> char {
    if d < 10 {
        (48 + d) as char
    } else if d < 36 {
        (55 + d) as char
    } else if d < 62 {
        (61 + d) as char
    } else if d == 62 {
        '_'
    } else {
        '$'
    }
}

/// The `n` least significant base-64 digits of `x`, least significant first.
pub open spec fn base64_digits(x: int, n: nat) -> Seq<char>
    decreases n,
{
    if n == 0 {
        Seq::empty()
    } else {
        seq![ifc_char(x % 64)] + base64_digits(x / 64, (n - 1) as nat)
    }
}

/// The default IFC identifier of a native UniqueId given by its UTF-8 bytes:
/// the episode GUID's 128-bit value XOR the identifier suffix, as 22 IFC
/// base-64 digits, most significant first.
pub open spec fn spec_default_ifc_guid(b: Seq<u8>) -> Result<Seq<char>, IdentifierError> {
    match last_dash(b) {
        None => Err(IdentifierError::SuffixAbsent),
        Some(dash) => {
            let episode = b.subrange(0, dash);
            let suffix = b.subrange(dash + 1, b.len() as int);
            if episode.len() != 36 || !(forall|i: int| 0 <= i < 36 ==> episode[i] < 128) {
                Err(IdentifierError::InvalidEpisode)
            } else if episode[8] != 45 || episode[13] != 45 || episode[18] != 45 || episode[23]
                != 45 {
                Err(IdentifierError::InvalidSeparator)
            } else if without_dashes(episode).len() != 32 || !(forall|i: int|
                0 <= i < without_dashes(episode).len() ==> is_hex(without_dashes(episode)[i])) {
                Err(IdentifierError::InvalidDigits)
            } else if !(8 <= suffix.len() <= 16) || !(forall|i: int|
                0 <= i < suffix.len() ==> is_hex(suffix[i])) {
                Err(IdentifierError::InvalidSuffix)
            } else {
                let value = (hex_number(without_dashes(episode)) as u128) ^ (hex_number(
                    suffix,
                ) as u128);
                Ok(base64_digits(value as int, 22).reverse())
            }
        },
    }
}

fn is_hex_exec(c: u8) -> (r: bool)
    ensures
        r == is_hex(c),
{
    (48 <= c && c <= 57) || (65 <= c && c <= 70) || (97 <= c && c <= 102)
}

fn hex_value_exec(c: u8) -> (r: u8)
    requires
        is_hex(c),
    ensures
        r == hex_value(c),
        r < 16,
{
    if 48 <= c && c <= 57 {
        c - 48
    } else if 65 <= c && c <= 70 {
        c - 55
    } else {
        c - 87
    }
}

/// Powers of sixteen.
pub open spec fn pow16(n: nat) -> int
    decreases n,
{
    if n == 0 {
        1
    } else {
        16 * pow16((n - 1) as nat)
    }
}

proof fn lemma_hex_number_bound(s: Seq<u8>)
    requires
        forall|i: int| 0 <= i < s.len() ==> is_hex(s[i]),
    ensures
        0 <= hex_number(s) < pow16(s.len()),
    decreases s.len(),
{
    if s.len() > 0 {
        lemma_hex_number_bound(s.drop_last());
        assert(hex_number(s.drop_last()) * 16 + 16 <= pow16((s.len() - 1) as nat) * 16) by (nonlinear_arith)
            requires hex_number(s.drop_last()) < pow16((s.len() - 1) as nat);
    }
}

proof fn lemma_pow16_32()
    ensures
        pow16(32) == 0x1_0000_0000_0000_0000_0000_0000_0000_0000,
        pow16(16) == 0x1_0000_0000_0000_0000,
{
    reveal_with_fuel(pow16, 33);
}

proof fn lemma_pow16_mono(a: nat, b: nat)
    requires
        a <= b,
    ensures
        pow16(a) <= pow16(b),
    decreases b,
{
    if a < b {
        lemma_pow16_mono(a, (b - 1) as nat);
        lemma_pow16_positive((b - 1) as nat);
    }
}

proof fn lemma_pow16_positive(n: nat)
    ensures
        pow16(n) >= 1,
    decreases n,
{
    if n > 0 {
        lemma_pow16_positive((n - 1) as nat);
    }
}

/// Parses hexadecimal digits `s[from..to]` (at most 32) into a `u128`.
fn parse_hex(s: &[u8], from: usize, to: usize, skip_dashes: bool) -> (r: u128)
    requires
        from <= to <= s@.len(),
        skip_dashes ==> without_dashes(s@.subrange(from as int, to as int)).len() <= 32,
        !skip_dashes ==> to - from <= 32,
        skip_dashes ==> forall|i: int|
            0 <= i < without_dashes(s@.subrange(from as int, to as int)).len() ==> is_hex(
                without_dashes(s@.subrange(from as int, to as int))[i],
            ),
        !skip_dashes ==> forall|i: int| from <= i < to ==> is_hex(s@[i]),
    ensures
        skip_dashes ==> r == hex_number(without_dashes(s@.subrange(from as int, to as int))),
        !skip_dashes ==> r == hex_number(s@.subrange(from as int, to as int)),
{
    let ghost full = if skip_dashes {
        without_dashes(s@.subrange(from as int, to as int))
    } else {
        s@.subrange(from as int, to as int)
    };
    let mut value: u128 = 0;
    let mut i: usize = from;
    let ghost mut taken: Seq<u8> = Seq::empty();
    while i < to
        invariant
            from <= i <= to <= s@.len(),
            full == if skip_dashes {
                without_dashes(s@.subrange(from as int, to as int))
            } else {
                s@.subrange(from as int, to as int)
            },
            full.len() <= 32,
            forall|k: int| 0 <= k < full.len() ==> is_hex(full[k]),
            taken == if skip_dashes {
                without_dashes(s@.subrange(from as int, i as int))
            } else {
                s@.subrange(from as int, i as int)
            },
            taken.len() <= full.len(),
            taken =~= full.subrange(0, taken.len() as int),
            value == hex_number(taken),
        decreases to - i,
    {
        let c = s[i];
        proof {
            assert(s@.subrange(from as int, i + 1).drop_last() =~= s@.subrange(from as int, i as int));
            assert(s@.subrange(from as int, i + 1).last() == c);
            lemma_without_dashes_prefix(s@.subrange(from as int, to as int), (i - from) as int);
            assert(s@.subrange(from as int, to as int).subrange(0, (i - from) as int) =~= s@.subrange(from as int, i as int));
            assert(s@.subrange(from as int, to as int).subrange(0, (i + 1 - from) as int) =~= s@.subrange(from as int, i + 1));
            lemma_without_dashes_prefix(s@.subrange(from as int, to as int), (i + 1 - from) as int);
        }
        proof {
            if skip_dashes {
                let pre = s@.subrange(from as int, i + 1);
                assert(pre.drop_last() =~= s@.subrange(from as int, i as int));
                assert(pre.last() == c);
                if c != 45 {
                    assert(without_dashes(pre) == taken.push(c));
                } else {
                    assert(without_dashes(pre) == taken);
                }
            } else {
                assert(s@.subrange(from as int, i + 1) =~= taken.push(c));
            }
        }
        if !(skip_dashes && c == 45) {
            let ghost next = taken.push(c);
            proof {
                assert(next.len() <= full.len());
                assert(next =~= full.subrange(0, next.len() as int));
                assert(next[taken.len() as int] == c);
                assert(is_hex(c)) by {
                    assert(full[taken.len() as int] == next[taken.len() as int]);
                }
                lemma_hex_number_bound(taken);
                lemma_pow16_mono(taken.len(), 31);
                lemma_pow16_32();
                reveal_with_fuel(pow16, 2);
                assert(next.drop_last() =~= taken);
            }
            value = value * 16 + hex_value_exec(c) as u128;
            proof {
                taken = next;
            }
        }
        i += 1;
    }
    proof {
        assert(s@.subrange(from as int, to as int) =~= s@.subrange(from as int, i as int));
    }
    value
}

proof fn lemma_without_dashes_prefix(s: Seq<u8>, n: int)
    requires
        0 <= n <= s.len(),
    ensures
        without_dashes(s.subrange(0, n)).len() <= without_dashes(s).len(),
        without_dashes(s.subrange(0, n)) =~= without_dashes(s).subrange(
            0,
            without_dashes(s.subrange(0, n)).len() as int,
        ),
    decreases s.len() - n,
{
    if n < s.len() {
        lemma_without_dashes_prefix(s.drop_last(), n);
        assert(s.drop_last().subrange(0, n) =~= s.subrange(0, n));
    } else {
        assert(s.subrange(0, n) =~= s);
    }
}

fn ifc_char_exec(d: u8) -> (c: char)
    requires
        d < 64,
    ensures
        c == ifc_char(d as int),
{
    if d < 10 {
        (48 + d) as char
    } else if d < 36 {
        (55 + d) as char
    } else if d < 62 {
        (61 + d) as char
    } else if d == 62 {
        '_'
    } else {
        '$'
    }
}

proof fn lemma_last_dash_props(s: Seq<u8>)
    ensures
        last_dash(s) matches Some(d) ==> 0 <= d < s.len() && s[d] == 45,
    decreases s.len(),
{
    if s.len() > 0 && s.last() != 45 {
        lemma_last_dash_props(s.drop_last());
    }
}

fn find_last_dash(b: &[u8]) -> (r: Option<usize>)
    ensures
        match last_dash(b@) {
            Some(d) => r == Some(d as usize),
            None => r is None,
        },
{
    let mut i: usize = b.len();
    assert(b@.subrange(0, i as int) =~= b@);
    while i > 0
        invariant
            i <= b@.len(),
            last_dash(b@) == last_dash(b@.subrange(0, i as int)),
        decreases i,
    {
        proof {
            assert(b@.subrange(0, i as int).drop_last() =~= b@.subrange(0, i - 1));
        }
        if b[i - 1] == 45 {
            return Some(i - 1);
        }
        i -= 1;
    }
    None
}

/// Derives the default IFC export identifier of a native UniqueId
/// (`<episode GUID>-<hex suffix>`).  This is a derived identifier, not a
/// stored IfcGUID parameter.
#[verifier::loop_isolation(false)]
pub fn derive_default_ifc_guid(unique_id: &str) -> (r: Result<String, IdentifierError>)
    ensures
        match spec_default_ifc_guid(unique_id.spec_bytes()) {
            Ok(text) => r matches Ok(s) && s@ == text,
            Err(e) => r == Err::<String, IdentifierError>(e),
        },
{
    let b = unique_id.as_bytes();
    let ghost bs = b@;
    let dash = match find_last_dash(b) {
        Some(d) => d,
        None => return Err(IdentifierError::SuffixAbsent),
    };
    proof {
        lemma_last_dash_props(bs);
    }
    let ghost episode = bs.subrange(0, dash as int);
    let ghost suffix = bs.subrange(dash + 1, bs.len() as int);
    if dash != 36 {
        return Err(IdentifierError::InvalidEpisode);
    }
    let mut k: usize = 0;
    while k < 36
        invariant
            dash == 36,
            dash < b@.len(),
            bs == b@,
            episode == bs.subrange(0, 36),
            k <= 36,
            forall|m: int| 0 <= m < k ==> episode[m] < 128,
        decreases 36 - k,
    {
        if b[k] >= 128 {
            assert(episode[k as int] >= 128);
            return Err(IdentifierError::InvalidEpisode);
        }
        k += 1;
    }
    if b[8] != 45 || b[13] != 45 || b[18] != 45 || b[23] != 45 {
        return Err(IdentifierError::InvalidSeparator);
    }
    // The compact digits: every non-dash byte of the episode.
    let mut count: usize = 0;
    let mut all_hex = true;
    let mut k: usize = 0;
    while k < 36
        invariant
            dash == 36,
            dash < b@.len(),
            bs == b@,
            episode == bs.subrange(0, 36),
            k <= 36,
            count == without_dashes(episode.subrange(0, k as int)).len(),
            count <= k,
            all_hex == forall|m: int|
                0 <= m < count ==> is_hex(without_dashes(episode.subrange(0, k as int))[m]),
        decreases 36 - k,
    {
        proof {
            assert(episode.subrange(0, k + 1).drop_last() =~= episode.subrange(0, k as int));
            assert(episode.subrange(0, k + 1).last() == b[k as int]);
        }
        let ghost prev = without_dashes(episode.subrange(0, k as int));
        if b[k] != 45 {
            proof {
                assert(without_dashes(episode.subrange(0, k + 1)) == prev.push(b[k as int]));
            }
            all_hex = all_hex && is_hex_exec(b[k]);
            count += 1;
            proof {
                let cur = prev.push(b[k as int]);
                assert(all_hex == forall|m: int| 0 <= m < count ==> is_hex(cur[m])) by {
                    if all_hex {
                        assert forall|m: int| 0 <= m < count implies is_hex(cur[m]) by {
                            if m < count - 1 {
                                assert(cur[m] == prev[m]);
                            }
                        }
                    } else {
                        if !is_hex(b[k as int]) {
                            assert(cur[count - 1] == b[k as int]);
                        } else {
                            let m = choose|m: int| 0 <= m < count - 1 && !is_hex(prev[m]);
                            assert(cur[m] == prev[m]);
                        }
                    }
                }
            }
        } else {
            proof {
                assert(without_dashes(episode.subrange(0, k + 1)) == prev);
            }
        }
        k += 1;
    }
    proof {
        assert(episode.subrange(0, 36) =~= episode);
    }
    if count != 32 || !all_hex {
        return Err(IdentifierError::InvalidDigits);
    }
    let n = b.len() - dash - 1;
    if !(8 <= n && n <= 16) {
        return Err(IdentifierError::InvalidSuffix);
    }
    let mut k: usize = dash + 1;
    while k < b.len()
        invariant
            dash + 1 <= k <= b@.len(),
            bs == b@,
            suffix == bs.subrange(dash + 1, bs.len() as int),
            forall|m: int| dash + 1 <= m < k ==> is_hex(bs[m]),
        decreases b@.len() - k,
    {
        if !is_hex_exec(b[k]) {
            proof {
                assert(suffix[k - dash - 1] == bs[k as int]);
            }
            return Err(IdentifierError::InvalidSuffix);
        }
        k += 1;
    }
    proof {
        assert forall|m: int| 0 <= m < suffix.len() implies is_hex(suffix[m]) by {
            assert(suffix[m] == bs[dash + 1 + m]);
        }
        assert(bs.subrange(0, 36) == episode);
    }
    let compact = parse_hex(b, 0, 36, true);
    let tail = parse_hex(b, dash + 1, b.len(), false);
    let value = compact ^ tail;
    let mut digits: Vec<char> = Vec::new();
    let mut rest: u128 = value;
    let mut j: usize = 0;
    while j < 22
        invariant
            j <= 22,
            digits@.len() == j,
            base64_digits(value as int, 22) == digits@ + base64_digits(rest as int, (22 - j) as nat),
        decreases 22 - j,
    {
        let d = (rest % 64) as u8;
        let ghost before = digits@;
        digits.push(ifc_char_exec(d));
        proof {
            assert(before + base64_digits(rest as int, (22 - j) as nat) =~= digits@ + base64_digits(
                (rest / 64) as int,
                (22 - j - 1) as nat,
            ));
        }
        rest = rest / 64;
        j += 1;
    }
    proof {
        assert(digits@ + Seq::<char>::empty() =~= digits@);
    }
    let mut out = String::new();
    let mut j: usize = 22;
    while j > 0
        invariant
            j <= 22,
            digits@.len() == 22,
            out@ =~= digits@.subrange(j as int, 22).reverse(),
        decreases j,
    {
        push_char(&mut out, digits[j - 1]);
        j -= 1;
        proof {
            assert(digits@.subrange(j as int, 22).reverse() =~= digits@.subrange(j + 1, 22).reverse().push(
                digits@[j as int],
            ));
        }
    }
    proof {
        assert(digits@.subrange(0, 22) =~= digits@);
    }
    Ok(out)
}

/// Two lower-case hexadecimal digits of a byte.
pub open spec fn hex2(b: u8) -> Seq<char> {
    seq![hex_digit(b as int / 16), hex_digit(b as int % 16)]
}

/// Canonical GUID text of 16 bytes stored in Windows order: the first three
/// components little-endian (bytes reversed), the last eight bytes as
/// serialized.
pub open spec fn spec_guid_text(r: Seq<u8>) -> Seq<char> {
    hex2(r[3]) + hex2(r[2]) + hex2(r[1]) + hex2(r[0]) + seq!['-'] + hex2(r[5]) + hex2(r[4]) + seq![
        '-',
    ] + hex2(r[7]) + hex2(r[6]) + seq!['-'] + hex2(r[8]) + hex2(r[9]) + seq!['-'] + hex2(r[10])
        + hex2(r[11]) + hex2(r[12]) + hex2(r[13]) + hex2(r[14]) + hex2(r[15])
}

fn push_hex_byte(out: &mut String, byte: u8)
    ensures
        final(out)@ == old(out)@ + hex2(byte),
{
    push_char(out, hex_digit_exec(byte / 16));
    push_char(out, hex_digit_exec(byte % 16));
    proof {
        assert(final(out)@ =~= old(out)@ + hex2(byte));
    }
}

fn push_dash(out: &mut String)
    ensures
        final(out)@ == old(out)@ + seq!['-'],
{
    push_char(out, '-');
    proof {
        assert(final(out)@ =~= old(out)@ + seq!['-']);
    }
}

/// Formats a GUID stored in Windows byte order as canonical text.
#[verifier::rlimit(50)]
pub fn guid_string(raw: [u8; 16]) -> (r: String)
    ensures
        r@ == spec_guid_text(raw@),
{
    let mut out = String::new();
    push_hex_byte(&mut out, raw[3]);
    push_hex_byte(&mut out, raw[2]);
    push_hex_byte(&mut out, raw[1]);
    push_hex_byte(&mut out, raw[0]);
    push_dash(&mut out);
    push_hex_byte(&mut out, raw[5]);
    push_hex_byte(&mut out, raw[4]);
    push_dash(&mut out);
    push_hex_byte(&mut out, raw[7]);
    push_hex_byte(&mut out, raw[6]);
    push_dash(&mut out);
    push_hex_byte(&mut out, raw[8]);
    push_hex_byte(&mut out, raw[9]);
    push_dash(&mut out);
    push_hex_byte(&mut out, raw[10]);
    push_hex_byte(&mut out, raw[11]);
    push_hex_byte(&mut out, raw[12]);
    push_hex_byte(&mut out, raw[13]);
    push_hex_byte(&mut out, raw[14]);
    push_hex_byte(&mut out, raw[15]);
    proof {
        assert(out@ =~= spec_guid_text(raw@));
    }
    out
}

/// Whether `value` is canonical GUID text: 36 bytes, `-` at bytes 8, 13,
/// 18 and 23, hexadecimal digits elsewhere.
pub open spec fn spec_is_guid(b: Seq<u8>) -> bool {
    &&& b.len() == 36
    &&& forall|i: int|
        0 <= i < 36 ==> if i == 8 || i == 13 || i == 18 || i == 23 {
            b[i] == 45
        } else {
            is_hex(b[i])
        }
}

/// Whether `value` is canonical GUID text.
pub fn is_guid(value: &str) -> (r: bool)
    ensures
        r == spec_is_guid(value.spec_bytes()),
{
    let b = value.as_bytes();
    if b.len() != 36 {
        return false;
    }
    let mut i: usize = 0;
    while i < 36
        invariant
            b@.len() == 36,
            b@ == value.spec_bytes(),
            i <= 36,
            forall|m: int|
                0 <= m < i ==> if m == 8 || m == 13 || m == 18 || m == 23 {
                    b@[m] == 45
                } else {
                    is_hex(b@[m])
                },
        decreases 36 - i,
    {
        let ok = if i == 8 || i == 13 || i == 18 || i == 23 {
            b[i] == 45
        } else {
            is_hex_exec(b[i])
        };
        if !ok {
            return false;
        }
        i += 1;
    }
    true
}

} // verus!
