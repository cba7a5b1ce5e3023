use vstd::prelude::*;

verus! {

/// The character of the decimal digit `d`.
pub open spec fn digit_char(d: nat) -> char {
    if d == 0 {
        '0'
    } else if d == 1 {
        '1'
    } else if d == 2 {
        '2'
    } else if d == 3 {
        '3'
    } else if d == 4 {
        '4'
    } else if d == 5 {
        '5'
    } else if d == 6 {
        '6'
    } else if d == 7 {
        '7'
    } else if d == 8 {
        '8'
    } else {
        '9'
    }
}

/// The decimal digits of `v`, most significant first, without leading
/// zeros.
pub open spec fn decimal_text(v: nat) -> Seq<char>
    decreases v,
{
    if v < 10 {
        seq![digit_char(v)]
    } else {
        decimal_text(v / 10).push(digit_char(v % 10))
    }
}

/// The decimal text of a number reads back as that number.
pub proof fn lemma_decimal_text_parses(v: u64)
    ensures
        parsed_u64(decimal_text(v as nat)) == Some(v),
{
    lemma_decimal_text_value(v as nat);
}

pub proof fn lemma_decimal_text_value(v: nat)
    ensures
        decimal_text(v).len() > 0,
        all_digits(decimal_text(v)),
        decimal_value(decimal_text(v)) == v,
    decreases v,
{
    let d = v % 10;
    assert(is_digit(digit_char(d)) && digit_value(digit_char(d)) == d) by {
        if d == 0 {} else if d == 1 {} else if d == 2 {} else if d == 3 {} else if d == 4 {}
        else if d == 5 {} else if d == 6 {} else if d == 7 {} else if d == 8 {} else {}
    }
    if v >= 10 {
        lemma_decimal_text_value(v / 10);
        let t = decimal_text(v);
        assert(t.drop_last() =~= decimal_text(v / 10));
        assert forall|i: int| 0 <= i < t.len() implies is_digit(#[trigger] t[i]) by {
            if i < t.len() - 1 {
                assert(t[i] == decimal_text(v / 10)[i]);
            }
        }
        assert(t.last() == digit_char(d));
        assert(decimal_value(t) == decimal_value(decimal_text(v / 10)) * 10 + digit_value(
            digit_char(d),
        ));
        assert(v == (v / 10) * 10 + d);
    } else {
        let t = decimal_text(v);
        assert(t.drop_last() =~= Seq::<char>::empty());
        assert(t.last() == digit_char(v));
        assert(decimal_value(t) == decimal_value(t.drop_last()) * 10 + digit_value(t.last()));
        assert(decimal_value(Seq::<char>::empty()) == 0);
    }
}

pub open spec fn is_digit(c: char) -> bool {
    '0' <= c <= '9'
}

pub open spec fn digit_value(c: char) -> int {
    c as int - '0' as int
}

/// The number written by a string of decimal digits.
pub open spec fn decimal_value(s: Seq<char>) -> int
    decreases s.len(),
{
    if s.len() == 0 {
        0
    } else {
        decimal_value(s.drop_last()) * 10 + digit_value(s.last())
    }
}

pub open spec fn all_digits(s: Seq<char>) -> bool {
    forall|i: int| 0 <= i < s.len() ==> is_digit(#[trigger] s[i])
}

/// The `u64` that `s` writes in decimal, if it is a non-empty string of
/// digits whose value fits.
pub open spec fn parsed_u64(s: Seq<char>) -> Option<u64> {
    if s.len() > 0 && all_digits(s) && decimal_value(s) <= u64::MAX {
        Some(decimal_value(s) as u64)
    } else {
        None
    }
}

/// Appending digits never makes the value smaller.
pub proof fn lemma_decimal_value_grows(s: Seq<char>, n: int)
    requires
        all_digits(s),
        0 <= n <= s.len(),
    ensures
        0 <= decimal_value(s.take(n)) <= decimal_value(s),
    decreases s.len() - n,
{
    if n < s.len() {
        lemma_decimal_value_grows(s, n + 1);
        assert(s.take(n + 1).drop_last() =~= s.take(n));
        assert(is_digit(s[n]));
    } else {
        assert(s.take(n) =~= s);
        lemma_decimal_value_nonneg(s);
    }
}

pub proof fn lemma_decimal_value_nonneg(s: Seq<char>)
    requires
        all_digits(s),
    ensures
        0 <= decimal_value(s),
    decreases s.len(),
{
    if s.len() > 0 {
        assert(is_digit(s[s.len() - 1]));
        lemma_decimal_value_nonneg(s.drop_last());
    }
}

/// Reads a `u64` written in decimal.
pub fn parse_u64(s: &str) -> (r: Option<u64>)
    ensures
        r == parsed_u64(s@),
{
    let ghost text = s@;
    let mut value: u64 = 0;
    let mut any = false;
    let mut overflow = false;
    let mut bad = false;
    for c in it: s.chars()
        invariant
            it.seq() == text,
            any == (it.index() > 0),
            !bad ==> all_digits(text.take(it.index())),
            bad ==> !all_digits(text),
            !bad && !overflow ==> value == decimal_value(text.take(it.index())),
            !bad && overflow ==> decimal_value(text.take(it.index())) > u64::MAX,
    {
        proof {
            assert(text.take(it.index() + 1).drop_last() =~= text.take(it.index()));
        }
        if bad {
        } else if c < '0' || c > '9' {
            bad = true;
            assert(!is_digit(text[it.index()]));
        } else {
            let d: u64 = (c as u32 - '0' as u32) as u64;
            assert(d == digit_value(text[it.index()]));
            if overflow {
                proof {
                    lemma_decimal_value_nonneg(text.take(it.index() + 1));
                }
            } else if value > (u64::MAX - d) / 10 {
                overflow = true;
            } else {
                value = value * 10 + d;
            }
        }
        any = true;
    }
    assert(text.take(text.len() as int) =~= text);
    if bad || overflow || !any {
        None
    } else {
        Some(value)
    }
}

/// The integer by which fontdb orders IDs: its keys compare by slot index,
/// then by version, so the index goes in the high half.
pub open spec fn order_key_of_ffi(ffi: u64) -> u64 {
    ((ffi % 0x1_0000_0000) * 0x1_0000_0000 + ffi / 0x1_0000_0000) as u64
}

/// Ordering keys compare as fontdb compares IDs: by slot index (the low
/// half of the ffi value), then by version (the high half); and two ffi
/// values get the same key only if they are equal.
pub proof fn lemma_order_key_matches_id_order(a: u64, b: u64)
    ensures
        order_key_of_ffi(a) < order_key_of_ffi(b) <==> (a % 0x1_0000_0000 < b % 0x1_0000_0000 || (a
            % 0x1_0000_0000 == b % 0x1_0000_0000 && a / 0x1_0000_0000 < b / 0x1_0000_0000)),
        order_key_of_ffi(a) == order_key_of_ffi(b) <==> a == b,
{
    assert(a == (a / 0x1_0000_0000) * 0x1_0000_0000 + a % 0x1_0000_0000);
    assert(b == (b / 0x1_0000_0000) * 0x1_0000_0000 + b % 0x1_0000_0000);
}

/// Swaps the halves of fontdb's ffi value to get its ordering key.
pub fn order_key_from_ffi(ffi: u64) -> (k: u64)
    ensures
        k == order_key_of_ffi(ffi),
{
    let low: u64 = ffi % 0x1_0000_0000;
    let high: u64 = ffi / 0x1_0000_0000;
    low * 0x1_0000_0000 + high
}

/// The ordering key of the face whose ID fontdb displays as `text`, if
/// that text is a `u64` in decimal.
pub open spec fn text_key(text: Seq<char>) -> Option<u64> {
    match parsed_u64(text) {
        Some(ffi) => Some(order_key_of_ffi(ffi)),
        None => None,
    }
}

/// A face of the font database, by the integer that orders it.
///
/// fontdb displays a face ID as the decimal text of its slot key's ffi
/// value; the key here is that value with its halves swapped (see
/// [`order_key_of_ffi`]), so that two IDs are the same face exactly when
/// their keys are equal, and IDs sort by key as fontdb sorts them.
#[derive(Clone, Copy, Debug, PartialEq, Eq, Structural)]
pub struct FontId {
    pub key: u64,
}

impl FontId {
    /// The ID that fontdb displays as `text`, if the text is a `u64` in
    /// decimal.
    pub fn from_text(text: &str) -> (r: Option<FontId>)
        ensures
            r == (match text_key(text@) {
                Some(k) => Some(FontId { key: k }),
                None => None,
            }),
    {
        match parse_u64(text) {
            Some(ffi) => Some(FontId { key: order_key_from_ffi(ffi) }),
            None => None,
        }
    }
}

/// Faces whose IDs display as the decimal texts of two different `u64`s
/// have different keys.
pub proof fn lemma_text_keys_differ(a: u64, b: u64)
    requires
        a != b,
    ensures
        text_key(decimal_text(a as nat)) is Some,
        text_key(decimal_text(b as nat)) is Some,
        text_key(decimal_text(a as nat)) != text_key(decimal_text(b as nat)),
{
    lemma_decimal_text_parses(a);
    lemma_decimal_text_parses(b);
    lemma_order_key_matches_id_order(a, b);
}

} // verus!
