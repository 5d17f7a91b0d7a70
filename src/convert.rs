//! Normalizes chain-native hexadecimal integers to their decimal text.
use vstd::prelude::*;
use crate::error::ExpectedError;
use crate::json::{entries_model, JsonEntry, JsonModel, JsonValue};

verus! {

pub open spec fn is_hex_digit(c: char) -> bool {
    ('0' <= c && c <= '9') || ('a' <= c && c <= 'f') || ('A' <= c && c <= 'F')
}

pub open spec fn hex_digit_value(c: char) -> nat {
    if '0' <= c && c <= '9' {
        (c as u32 - '0' as u32) as nat
    } else if 'a' <= c && c <= 'f' {
        (c as u32 - 'a' as u32 + 10) as nat
    } else {
        (c as u32 - 'A' as u32 + 10) as nat
    }
}

pub open spec fn all_hex(s: Seq<char>) -> bool {
    forall|i: int| 0 <= i < s.len() ==> is_hex_digit(#[trigger] s[i])
}

pub open spec fn has_hex_prefix(s: Seq<char>) -> bool {
    s.len() >= 2 && s[0] == '0' && (s[1] == 'x' || s[1] == 'X')
}

/// The accepted shape `^(0[xX])?[A-Fa-f0-9]+$`.
pub open spec fn is_hex_shape(s: Seq<char>) -> bool {
    if has_hex_prefix(s) {
        s.len() > 2 && all_hex(s.subrange(2, s.len() as int))
    } else {
        s.len() > 0 && all_hex(s)
    }
}

/// The digits of a hex-shaped string, without its `0x` prefix.
pub open spec fn hex_digits_of(s: Seq<char>) -> Seq<char> {
    if has_hex_prefix(s) {
        s.subrange(2, s.len() as int)
    } else {
        s
    }
}

/// The number that hexadecimal digits denote.
pub open spec fn hex_value(d: Seq<char>) -> nat
    decreases d.len(),
{
    if d.len() == 0 {
        0
    } else {
        hex_value(d.drop_last()) * 16 + hex_digit_value(d.last())
    }
}

/// `d` without its leading zeros.
pub open spec fn strip_zeros(d: Seq<char>) -> Seq<char>
    decreases d.len(),
{
    if d.len() > 0 && d[0] == '0' {
        strip_zeros(d.drop_first())
    } else {
        d
    }
}

pub open spec fn decimal_digit(n: nat) -> char {
    seq!['0', '1', '2', '3', '4', '5', '6', '7', '8', '9'][n as int]
}

/// The decimal text of `n`, without leading zeros.
pub open spec fn decimal_text(n: nat) -> Seq<char>
    decreases n,
{
    if n < 10 {
        seq![decimal_digit(n)]
    } else {
        decimal_text(n / 10).push(decimal_digit(n % 10))
    }
}

/// The number that decimal digits denote.
pub open spec fn decimal_value(d: Seq<char>) -> nat
    decreases d.len(),
{
    if d.len() == 0 {
        0
    } else {
        decimal_value(d.drop_last()) * 10 + (d.last() as u32 - '0' as u32) as nat
    }
}

/// Whether hex-shaped `s` fits the supported width of 256 bits.
pub open spec fn fits_u256(s: Seq<char>) -> bool {
    strip_zeros(hex_digits_of(s)).len() <= 64
}

/// Relies on `primitive_types::U256::from_str_radix` with radix 16 and on U256's
/// `Display`: up to 64 hexadecimal digits (either case) parse to their value,
/// which is written back in decimal; more digits are refused.
#[verifier::external_body]
fn u256_hex_to_decimal(digits: &str) -> (r: Option<String>)
    requires
        all_hex(digits@),
    ensures
        r is Some <==> digits@.len() <= 64,
        r matches Some(d) ==> d@ == decimal_text(hex_value(digits@)),
{
    match primitive_types::U256::from_str_radix(digits, 16) {
        Ok(v) => Some(v.to_string()),
        Err(_) => None,
    }
}

pub fn is_hex_digit_char(c: char) -> (r: bool)
    ensures
        r == is_hex_digit(c),
{
    ('0' <= c && c <= '9') || ('a' <= c && c <= 'f') || ('A' <= c && c <= 'F')
}

/// Whether `hex_str` has the shape `^(0[xX])?[A-Fa-f0-9]+$`.
pub fn is_hex_string(hex_str: &str) -> (r: bool)
    ensures
        r == is_hex_shape(hex_str@),
{
    let cs = crate::text::chars_of(hex_str);
    let n = cs.len();
    let start: usize = if n >= 2 && cs[0] == '0' && (cs[1] == 'x' || cs[1] == 'X') {
        2
    } else {
        0
    };
    if start >= n {
        return false;
    }
    let mut i: usize = start;
    while i < n
        invariant
            cs@ == hex_str@,
            n == cs@.len(),
            start <= i <= n,
            start == 0 || start == 2,
            (start == 2) == has_hex_prefix(hex_str@),
            forall|k: int| start <= k < i ==> is_hex_digit(#[trigger] cs@[k]),
        decreases n - i,
    {
        if !is_hex_digit_char(cs[i]) {
            let ghost d = hex_digits_of(hex_str@);
            assert(d.len() == n - start);
            assert(d[i - start] == cs@[i as int]);
            assert(!is_hex_digit(d[i - start]));
            return false;
        }
        i = i + 1;
    }
    assert(all_hex(hex_digits_of(hex_str@))) by {
        assert forall|k: int| 0 <= k < hex_digits_of(hex_str@).len() implies is_hex_digit(
            #[trigger] hex_digits_of(hex_str@)[k],
        ) by {
            assert(hex_digits_of(hex_str@)[k] == cs@[k + start]);
        }
    }
    true
}

proof fn lemma_hex_value_leading_zero(d: Seq<char>)
    ensures
        hex_value(seq!['0'] + d) == hex_value(d),
    decreases d.len(),
{
    if d.len() > 0 {
        lemma_hex_value_leading_zero(d.drop_last());
        assert((seq!['0'] + d).drop_last() =~= seq!['0'] + d.drop_last());
    } else {
        assert((seq!['0'] + d).drop_last() =~= d);
    }
}

proof fn lemma_hex_value_strip(d: Seq<char>)
    ensures
        hex_value(strip_zeros(d)) == hex_value(d),
        all_hex(d) ==> all_hex(strip_zeros(d)),
        strip_zeros(d).len() <= d.len(),
    decreases d.len(),
{
    if d.len() > 0 && d[0] == '0' {
        lemma_hex_value_strip(d.drop_first());
        assert(seq!['0'] + d.drop_first() =~= d);
        lemma_hex_value_leading_zero(d.drop_first());
        if all_hex(d) {
            assert forall|i: int| 0 <= i < d.drop_first().len() implies is_hex_digit(
                #[trigger] d.drop_first()[i],
            ) by {
                assert(d.drop_first()[i] == d[i + 1]);
            }
        }
    }
}

/// The characters `cs[k..]` with leading zeros dropped, as bounds.
fn skip_zeros(cs: &Vec<char>, k: usize) -> (r: usize)
    requires
        k <= cs@.len(),
    ensures
        k <= r <= cs@.len(),
        cs@.subrange(r as int, cs@.len() as int) == strip_zeros(cs@.subrange(k as int, cs@.len() as int)),
{
    let mut i: usize = k;
    while i < cs.len() && cs[i] == '0'
        invariant
            k <= i <= cs@.len(),
            strip_zeros(cs@.subrange(k as int, cs@.len() as int)) == strip_zeros(
                cs@.subrange(i as int, cs@.len() as int),
            ),
        decreases cs@.len() - i,
    {
        assert(cs@.subrange(i as int, cs@.len() as int).drop_first() =~= cs@.subrange(
            i + 1,
            cs@.len() as int,
        ));
        i = i + 1;
    }
    i
}

/// The decimal text of a hex-shaped string (`0x16345785d8a0000` gives `100000000000000000`).
/// Fails with `InvalidError` when the shape does not match, and with `ParsingError`
/// when the value needs more than 256 bits.
pub fn hex_to_decimal(hex_str: String) -> (r: Result<String, ExpectedError>)
    ensures
        match r {
            Ok(d) => is_hex_shape(hex_str@) && fits_u256(hex_str@) && d@ == decimal_text(
                hex_value(hex_digits_of(hex_str@)),
            ),
            Err(e) => if is_hex_shape(hex_str@) {
                !fits_u256(hex_str@) && e is ParsingError
            } else {
                e is InvalidError
            },
        },
{
    if !is_hex_string(hex_str.as_str()) {
        return Err(ExpectedError::InvalidError("input value is not hex string".to_string()));
    }
    let cs = crate::text::chars_of(hex_str.as_str());
    let n = cs.len();
    let start: usize = if n >= 2 && cs[0] == '0' && (cs[1] == 'x' || cs[1] == 'X') {
        2
    } else {
        0
    };
    assert(cs@.subrange(start as int, n as int) == hex_digits_of(hex_str@));
    let k = skip_zeros(&cs, start);
    let digits = crate::text::string_of(&cs, k, n);
    proof {
        lemma_hex_value_strip(hex_digits_of(hex_str@));
    }
    match u256_hex_to_decimal(digits.as_str()) {
        Some(d) => Ok(d),
        None => Err(ExpectedError::ParsingError("hex value exceeds 256 bits".to_string())),
    }
}

} // verus!

verus! {

/// Whether entry `i` is the first of its name (the one that a lookup finds).
pub open spec fn first_with_key(em: Seq<(Seq<char>, JsonModel)>, i: int) -> bool {
    forall|j: int| 0 <= j < i ==> (#[trigger] em[j]).0 != em[i].0
}

/// Whether entry `i` holds a hex-shaped string.
pub open spec fn holds_hex(em: Seq<(Seq<char>, JsonModel)>, i: int) -> bool {
    em[i].1 is Str && is_hex_shape(em[i].1->Str_0)
}

/// Whether the normalizer rewrites entry `i`: a named, hex-shaped string field.
pub open spec fn converts(em: Seq<(Seq<char>, JsonModel)>, keys: Seq<Seq<char>>, i: int) -> bool {
    first_with_key(em, i) && keys.contains(em[i].0) && holds_hex(em, i)
}

/// The content of entry `i` after normalization.
pub open spec fn normalized_value(em: Seq<(Seq<char>, JsonModel)>, keys: Seq<Seq<char>>, i: int) -> JsonModel {
    if converts(em, keys, i) {
        JsonModel::Str(decimal_text(hex_value(hex_digits_of(em[i].1->Str_0))))
    } else {
        em[i].1
    }
}

/// The entries with every named hex-shaped string field rewritten in decimal.
pub open spec fn normalize_entries(em: Seq<(Seq<char>, JsonModel)>, keys: Seq<Seq<char>>) -> Seq<(Seq<char>, JsonModel)> {
    Seq::new(em.len(), |i: int| (em[i].0, normalized_value(em, keys, i)))
}

/// Whether every field to rewrite fits in 256 bits.
pub open spec fn normalize_fits(em: Seq<(Seq<char>, JsonModel)>, keys: Seq<Seq<char>>) -> bool {
    forall|i: int| 0 <= i < em.len() && converts(em, keys, i) ==> fits_u256(#[trigger] em[i].1->Str_0)
}

pub open spec fn strings_model(keys: Seq<String>) -> Seq<Seq<char>> {
    keys.map_values(|k: String| k@)
}

fn key_is_listed(keys: &Vec<String>, k: &str) -> (r: bool)
    ensures
        r == strings_model(keys@).contains(k@),
{
    let mut j: usize = 0;
    while j < keys.len()
        invariant
            j <= keys@.len(),
            forall|t: int| 0 <= t < j ==> (#[trigger] keys@[t])@ != k@,
        decreases keys@.len() - j,
    {
        if crate::text::str_eq(keys[j].as_str(), k) {
            assert(strings_model(keys@)[j as int] == k@);
            return true;
        }
        j = j + 1;
    }
    assert forall|t: int| 0 <= t < strings_model(keys@).len() implies strings_model(keys@)[t] != k@ by {
        assert(strings_model(keys@)[t] == keys@[t]@);
    }
    false
}

fn is_first_with_key(es: &Vec<JsonEntry>, i: usize) -> (r: bool)
    requires
        i < es@.len(),
    ensures
        r == first_with_key(entries_model(es@), i as int),
{
    let mut j: usize = 0;
    while j < i
        invariant
            i < es@.len(),
            j <= i,
            forall|t: int| 0 <= t < j ==> (#[trigger] es@[t]).key@ != es@[i as int].key@,
        decreases i - j,
    {
        if crate::text::str_eq(es[j].key.as_str(), es[i].key.as_str()) {
            assert(entries_model(es@)[j as int].0 == entries_model(es@)[i as int].0);
            return false;
        }
        j = j + 1;
    }
    assert forall|t: int| 0 <= t < i implies (#[trigger] entries_model(es@)[t]).0 != entries_model(es@)[i as int].0 by {
        assert(entries_model(es@)[t].0 == es@[t].key@);
    }
    true
}

/// Rewrites, in decimal, each field named in `keys` that holds a hex-shaped string
/// (`{key1: "0x11"}` gives `{key1: "17"}`); absent, null and other fields stay as they are.
/// Fails with `ParsingError` when such a field needs more than 256 bits.
pub fn hex_to_decimal_converter(origin: Vec<JsonEntry>, keys: &Vec<String>) -> (r: Result<
    Vec<JsonEntry>,
    ExpectedError,
>)
    ensures
        match r {
            Ok(out) => normalize_fits(entries_model(origin@), strings_model(keys@))
                && entries_model(out@) == normalize_entries(entries_model(origin@), strings_model(keys@)),
            Err(e) => e is ParsingError && !normalize_fits(entries_model(origin@), strings_model(keys@)),
        },
{
    let ghost og = origin@;
    let ghost em = entries_model(origin@);
    let ghost km = strings_model(keys@);
    let mut out = origin;
    let mut i: usize = 0;
    while i < out.len()
        invariant
            og == origin@,
            em == entries_model(og),
            km == strings_model(keys@),
            out@.len() == og.len(),
            i <= og.len(),
            forall|k: int| 0 <= k < og.len() ==> (#[trigger] out@[k]).key@ == og[k].key@,
            forall|k: int| i <= k < og.len() ==> (#[trigger] out@[k]) == og[k],
            forall|k: int|
                0 <= k < i ==> (#[trigger] out@[k]).value@ == normalized_value(em, km, k),
            forall|k: int| 0 <= k < i && converts(em, km, k) ==> fits_u256(#[trigger] em[k].1->Str_0),
        decreases og.len() - i,
    {
        let first = is_first_with_key(&out, i);
        assert(first == first_with_key(em, i as int)) by {
            assert(out@[i as int] == og[i as int]);
            assert forall|j: int| 0 <= j <= i implies (#[trigger] entries_model(out@)[j]).0 == em[j].0 by {
                assert(out@[j].key@ == og[j].key@);
            }
            if first {
                assert forall|j: int| 0 <= j < i implies (#[trigger] em[j]).0 != em[i as int].0 by {
                    assert(entries_model(out@)[j].0 == em[j].0);
                }
            } else {
                let j = choose|j: int| 0 <= j < i && (#[trigger] entries_model(out@)[j]).0 == entries_model(out@)[i as int].0;
                assert(entries_model(out@)[j].0 == em[j].0);
            }
        }
        let listed = key_is_listed(keys, out[i].key.as_str());
        assert(em[i as int].0 == out@[i as int].key@);
        assert(em[i as int].1 == out@[i as int].value@);
        let mut replacement: Option<String> = None;
        if first && listed {
            if let JsonValue::Str(s) = &out[i].value {
                if is_hex_string(s.as_str()) {
                    match hex_to_decimal(s.clone()) {
                        Ok(d) => {
                            replacement = Some(d);
                        },
                        Err(e) => {
                            assert(converts(em, km, i as int));
                            assert(!fits_u256(em[i as int].1->Str_0));
                            return Err(e);
                        },
                    }
                }
            }
        }
        match replacement {
            Some(d) => {
                out[i].value = JsonValue::Str(d);
            },
            None => {},
        }
        i = i + 1;
    }
    assert(entries_model(out@) =~= normalize_entries(em, km));
    Ok(out)
}

proof fn lemma_decimal_digit(d: nat)
    requires
        d < 10,
    ensures
        (decimal_digit(d) as u32 - '0' as u32) as nat == d,
{
    let ds = seq!['0', '1', '2', '3', '4', '5', '6', '7', '8', '9'];
    assert(ds[0] == '0' && ds[1] == '1' && ds[2] == '2' && ds[3] == '3' && ds[4] == '4');
    assert(ds[5] == '5' && ds[6] == '6' && ds[7] == '7' && ds[8] == '8' && ds[9] == '9');
}

/// The decimal text of `n` reads back as `n`.
pub proof fn lemma_decimal_text_value(n: nat)
    ensures
        decimal_value(decimal_text(n)) == n,
    decreases n,
{
    lemma_decimal_digit(n % 10);
    if n >= 10 {
        lemma_decimal_text_value(n / 10);
        let t = decimal_text(n / 10).push(decimal_digit(n % 10));
        assert(t.drop_last() =~= decimal_text(n / 10));
        assert(decimal_text(n) == t);
        assert(decimal_value(t) == decimal_value(t.drop_last()) * 10 + (t.last() as u32 - '0' as u32) as nat);
        assert((n / 10) * 10 + n % 10 == n);
        assert(decimal_value(t.drop_last()) == n / 10);
        assert(t.last() == decimal_digit(n % 10));
        assert(decimal_value(t) == n);
    } else {
        let t = seq![decimal_digit(n)];
        assert(t.drop_last() =~= Seq::<char>::empty());
        assert(decimal_text(n) == t);
        assert(decimal_value(Seq::<char>::empty()) == 0);
        assert(decimal_value(t.drop_last()) == 0);
        assert(n % 10 == n);
        assert(t.last() == decimal_digit(n));
    }
}

/// Normalization law: a rewritten field, read back as a decimal integer, equals the
/// hexadecimal value it held; a field that does not hold a hex-shaped string is unchanged.
pub proof fn lemma_normalize_reads_back(em: Seq<(Seq<char>, JsonModel)>, keys: Seq<Seq<char>>, i: int)
    requires
        0 <= i < em.len(),
    ensures
        normalize_entries(em, keys)[i].0 == em[i].0,
        converts(em, keys, i) ==> normalize_entries(em, keys)[i].1 is Str && decimal_value(
            normalize_entries(em, keys)[i].1->Str_0,
        ) == hex_value(hex_digits_of(em[i].1->Str_0)),
        !holds_hex(em, i) ==> normalize_entries(em, keys)[i].1 == em[i].1,
{
    if converts(em, keys, i) {
        lemma_decimal_text_value(hex_value(hex_digits_of(em[i].1->Str_0)));
    }
}

/// A second normalization leaves a field that did not hold a hex-shaped string as it first was.
pub proof fn lemma_normalize_unshaped_stable(em: Seq<(Seq<char>, JsonModel)>, keys: Seq<Seq<char>>, i: int)
    requires
        0 <= i < em.len(),
        !holds_hex(em, i),
    ensures
        normalize_entries(normalize_entries(em, keys), keys)[i] == em[i],
{
    let once = normalize_entries(em, keys);
    assert(once[i] == em[i]);
    assert(!holds_hex(once, i));
}

} // verus!

verus! {

pub open spec fn is_decimal_digit(c: char) -> bool {
    '0' <= c && c <= '9'
}

pub open spec fn all_decimal(t: Seq<char>) -> bool {
    forall|i: int| 0 <= i < t.len() ==> is_decimal_digit(#[trigger] t[i])
}

/// Whether `t` is the text of an integer that fits in 64 unsigned bits.
pub open spec fn is_u64_text(t: Seq<char>) -> bool {
    t.len() > 0 && all_decimal(t) && decimal_value(t) <= u64::MAX
}

proof fn lemma_decimal_value_grows(t: Seq<char>, j: int)
    requires
        0 <= j <= t.len(),
        all_decimal(t),
    ensures
        decimal_value(t.subrange(0, j)) <= decimal_value(t),
    decreases t.len() - j,
{
    if j < t.len() {
        lemma_decimal_value_grows(t, j + 1);
        let p = t.subrange(0, j + 1);
        assert(p.drop_last() =~= t.subrange(0, j));
        assert(is_decimal_digit(t[j]));
    } else {
        assert(t.subrange(0, j) =~= t);
    }
}

/// The value of a decimal text that fits in 64 bits.
pub fn parse_u64(t: &str) -> (r: Option<u64>)
    ensures
        r is Some <==> is_u64_text(t@),
        r matches Some(v) ==> v as nat == decimal_value(t@),
{
    let cs = crate::text::chars_of(t);
    if cs.len() == 0 {
        return None;
    }
    let mut acc: u64 = 0;
    let mut i: usize = 0;
    assert(cs@.subrange(0, 0) =~= Seq::<char>::empty());
    while i < cs.len()
        invariant
            cs@ == t@,
            i <= cs@.len(),
            all_decimal(cs@.subrange(0, i as int)),
            acc as nat == decimal_value(cs@.subrange(0, i as int)),
        decreases cs@.len() - i,
    {
        let c = cs[i];
        let ghost next = cs@.subrange(0, i + 1);
        assert(next.drop_last() =~= cs@.subrange(0, i as int));
        if !('0' <= c && c <= '9') {
            assert(!is_decimal_digit(t@[i as int]));
            return None;
        }
        let d = (c as u32 - '0' as u32) as u64;
        if acc > (u64::MAX - d) / 10 {
            proof {
                assert(decimal_value(next) == decimal_value(cs@.subrange(0, i as int)) * 10 + d);
                assert(acc * 10 + d > u64::MAX) by (nonlinear_arith)
                    requires acc > (u64::MAX - d) / 10, d <= 9;
                assert(all_decimal(next));
                if all_decimal(t@) {
                    lemma_decimal_value_grows(t@, i + 1);
                }
            }
            return None;
        }
        proof {
            assert(acc * 10 + d <= u64::MAX) by (nonlinear_arith)
                requires acc <= (u64::MAX - d) / 10, d <= 9;
        }
        acc = acc * 10 + d;
        i = i + 1;
        assert(all_decimal(cs@.subrange(0, i as int))) by {
            assert forall|k: int| 0 <= k < i implies is_decimal_digit(#[trigger] cs@.subrange(0, i as int)[k]) by {
                if k < i - 1 {
                    assert(cs@.subrange(0, i as int)[k] == cs@.subrange(0, i - 1)[k]);
                }
            }
        }
    }
    assert(cs@.subrange(0, i as int) =~= t@);
    Some(acc)
}

/// Appends the decimal text of `n`.
pub fn push_decimal(out: &mut String, n: u64)
    ensures
        final(out)@ == old(out)@ + decimal_text(n as nat),
    decreases n,
{
    if n >= 10 {
        push_decimal(out, n / 10);
    }
    let digits = ['0', '1', '2', '3', '4', '5', '6', '7', '8', '9'];
    let d = digits[(n % 10) as usize];
    assert(digits@ =~= seq!['0', '1', '2', '3', '4', '5', '6', '7', '8', '9']);
    crate::text::push_char(out, d);
    if n < 10 {
        assert(out@ =~= old(out)@ + decimal_text(n as nat));
    } else {
        assert(out@ =~= old(out)@ + decimal_text(n as nat));
    }
}

} // verus!

verus! {

/// `16` to the power `n`.
pub open spec fn pow16(n: nat) -> nat
    decreases n,
{
    if n == 0 {
        1
    } else {
        16 * pow16((n - 1) as nat)
    }
}

/// Whether `d` is the canonical decimal text of a number: digits only, and no
/// leading zero unless it is `0` itself.
pub open spec fn is_canonical_decimal(d: Seq<char>) -> bool {
    d.len() > 0 && all_decimal(d) && (d[0] == '0' ==> d.len() == 1)
}

proof fn lemma_pow16_mono(a: nat, b: nat)
    requires
        a <= b,
    ensures
        pow16(a) <= pow16(b),
        pow16(a) >= 1,
    decreases b,
{
    if b > 0 && a < b {
        lemma_pow16_mono(a, (b - 1) as nat);
    } else if a > 0 {
        lemma_pow16_mono((a - 1) as nat, (a - 1) as nat);
    }
}

proof fn lemma_hex_value_below(d: Seq<char>)
    requires
        all_hex(d),
    ensures
        hex_value(d) < pow16(d.len()),
    decreases d.len(),
{
    if d.len() > 0 {
        let p = d.drop_last();
        assert(all_hex(p)) by {
            assert forall|i: int| 0 <= i < p.len() implies is_hex_digit(#[trigger] p[i]) by {
                assert(p[i] == d[i]);
            }
        }
        lemma_hex_value_below(p);
        assert(is_hex_digit(d[d.len() - 1]));
        let h = hex_value(p);
        let x = hex_digit_value(d.last());
        assert(x < 16);
        assert(h * 16 + x < 16 * pow16(p.len())) by (nonlinear_arith)
            requires h < pow16(p.len()), x < 16;
    }
}

proof fn lemma_hex_value_above(d: Seq<char>)
    requires
        all_hex(d),
        d.len() > 0,
        d[0] != '0',
    ensures
        hex_value(d) >= pow16((d.len() - 1) as nat),
    decreases d.len(),
{
    if d.len() == 1 {
        assert(d.drop_last().len() == 0);
        assert(is_hex_digit(d[0]));
        assert(hex_digit_value(d.last()) >= 1);
    } else {
        let p = d.drop_last();
        assert(all_hex(p)) by {
            assert forall|i: int| 0 <= i < p.len() implies is_hex_digit(#[trigger] p[i]) by {
                assert(p[i] == d[i]);
            }
        }
        assert(p[0] == d[0]);
        lemma_hex_value_above(p);
        let h = hex_value(p);
        assert(h * 16 >= pow16((p.len() - 1) as nat) * 16) by (nonlinear_arith)
            requires h >= pow16((p.len() - 1) as nat);
    }
}

proof fn lemma_strip_zeros_leads(d: Seq<char>)
    ensures
        strip_zeros(d).len() > 0 ==> strip_zeros(d)[0] != '0',
    decreases d.len(),
{
    if d.len() > 0 && d[0] == '0' {
        lemma_strip_zeros_leads(d.drop_first());
    }
}

/// The 256-bit condition of the normalizer is the value bound: at most 64
/// significant hexadecimal digits exactly when the value is below 2^256.
pub proof fn lemma_fits_u256_is_value_bound(s: Seq<char>)
    requires
        is_hex_shape(s),
    ensures
        fits_u256(s) <==> hex_value(hex_digits_of(s)) < pow16(64),
{
    let d = hex_digits_of(s);
    assert(all_hex(d));
    lemma_hex_value_strip(d);
    let t = strip_zeros(d);
    lemma_strip_zeros_leads(d);
    lemma_hex_value_below(t);
    if t.len() <= 64 {
        lemma_pow16_mono(t.len(), 64);
    } else {
        lemma_hex_value_above(t);
        lemma_pow16_mono(64, (t.len() - 1) as nat);
    }
}

proof fn lemma_decimal_digit_is_digit(d: nat)
    requires
        d < 10,
    ensures
        is_decimal_digit(decimal_digit(d)),
        (decimal_digit(d) == '0') == (d == 0),
{
    let ds = seq!['0', '1', '2', '3', '4', '5', '6', '7', '8', '9'];
    assert(ds[0] == '0' && ds[1] == '1' && ds[2] == '2' && ds[3] == '3' && ds[4] == '4');
    assert(ds[5] == '5' && ds[6] == '6' && ds[7] == '7' && ds[8] == '8' && ds[9] == '9');
}

proof fn lemma_decimal_text_shape(n: nat)
    ensures
        decimal_text(n).len() > 0,
        all_decimal(decimal_text(n)),
        n > 0 ==> decimal_text(n)[0] != '0',
        n == 0 ==> decimal_text(n).len() == 1,
    decreases n,
{
    lemma_decimal_digit_is_digit(n % 10);
    if n >= 10 {
        lemma_decimal_text_shape(n / 10);
        let p = decimal_text(n / 10);
        let t = p.push(decimal_digit(n % 10));
        assert(t[0] == p[0]);
        assert forall|i: int| 0 <= i < t.len() implies is_decimal_digit(#[trigger] t[i]) by {
            if i < p.len() {
                assert(t[i] == p[i]);
            }
        }
    } else {
        let t = seq![decimal_digit(n)];
        assert(t[0] == decimal_digit(n));
    }
}

/// Normalization round trip: for a hex-shaped string whose value is below 2^256,
/// the normalizer succeeds and its decimal text is canonical and reads back as
/// the hexadecimal value.
pub proof fn lemma_hex_round_trip(s: Seq<char>)
    requires
        is_hex_shape(s),
        hex_value(hex_digits_of(s)) < pow16(64),
    ensures
        fits_u256(s),
        is_canonical_decimal(decimal_text(hex_value(hex_digits_of(s)))),
        decimal_value(decimal_text(hex_value(hex_digits_of(s)))) == hex_value(hex_digits_of(s)),
{
    lemma_fits_u256_is_value_bound(s);
    lemma_decimal_text_shape(hex_value(hex_digits_of(s)));
    lemma_decimal_text_value(hex_value(hex_digits_of(s)));
}

} // verus!

verus! {

/// Normalization of a record in value form: when every named hex-shaped field is
/// below 2^256 the normalizer succeeds, and each rewritten field holds canonical
/// decimal text that reads back as its hexadecimal value.
pub proof fn lemma_normalize_value_form(em: Seq<(Seq<char>, JsonModel)>, keys: Seq<Seq<char>>)
    requires
        forall|i: int|
            0 <= i < em.len() && converts(em, keys, i) ==> hex_value(hex_digits_of(#[trigger] em[i].1->Str_0))
                < pow16(64),
    ensures
        normalize_fits(em, keys),
        forall|i: int|
            0 <= i < em.len() && converts(em, keys, i) ==> is_canonical_decimal(
                (#[trigger] normalize_entries(em, keys)[i]).1->Str_0,
            ) && decimal_value(normalize_entries(em, keys)[i].1->Str_0) == hex_value(
                hex_digits_of(em[i].1->Str_0),
            ),
{
    assert forall|i: int| 0 <= i < em.len() && converts(em, keys, i) implies fits_u256(#[trigger] em[i].1->Str_0) by {
        lemma_hex_round_trip(em[i].1->Str_0);
    }
    assert forall|i: int| 0 <= i < em.len() && converts(em, keys, i) implies is_canonical_decimal(
        (#[trigger] normalize_entries(em, keys)[i]).1->Str_0,
    ) && decimal_value(normalize_entries(em, keys)[i].1->Str_0) == hex_value(hex_digits_of(em[i].1->Str_0)) by {
        lemma_hex_round_trip(em[i].1->Str_0);
    }
}

} // verus!
