//! The textual form of a 128-bit value: 32 lowercase hex digits grouped
//! 8-4-4-4-12 and joined by hyphens.
use vstd::prelude::*;
use vstd::string::*;

verus! {

/// Length of the grouped textual form.
pub const TEXT_LEN: usize = 36;

/// The lowercase hex digit for `d < 16`.
pub open spec fn hex_char(d: u128) -> char {
    if d == 0 {
        '0'
    } else if d == 1 {
        '1'
    } else if d == 2 {
        '2'
    } else if d == 3 {
        '3'
    } else if d == 4 {
        '4'
    } else if d == 5 {
        '5'
    } else if d == 6 {
        '6'
    } else if d == 7 {
        '7'
    } else if d == 8 {
        '8'
    } else if d == 9 {
        '9'
    } else if d == 10 {
        'a'
    } else if d == 11 {
        'b'
    } else if d == 12 {
        'c'
    } else if d == 13 {
        'd'
    } else if d == 14 {
        'e'
    } else {
        'f'
    }
}

/// The value of a lowercase hex digit, or `None` for any other character.
pub open spec fn char_digit(c: char) -> Option<u128> {
    if c == '0' {
        Some(0)
    } else if c == '1' {
        Some(1)
    } else if c == '2' {
        Some(2)
    } else if c == '3' {
        Some(3)
    } else if c == '4' {
        Some(4)
    } else if c == '5' {
        Some(5)
    } else if c == '6' {
        Some(6)
    } else if c == '7' {
        Some(7)
    } else if c == '8' {
        Some(8)
    } else if c == '9' {
        Some(9)
    } else if c == 'a' {
        Some(10)
    } else if c == 'b' {
        Some(11)
    } else if c == 'c' {
        Some(12)
    } else if c == 'd' {
        Some(13)
    } else if c == 'e' {
        Some(14)
    } else if c == 'f' {
        Some(15)
    } else {
        None
    }
}

/// Hex digit number `k` of `v`, counting from the most significant (`0 <= k < 32`).
pub open spec fn nibble(v: u128, k: int) -> u128 {
    (v >> ((124 - 4 * k) as u128)) & 0xf
}

/// Hex digits `from .. to` of `v`.
pub open spec fn digit_run(v: u128, from: int, to: int) -> Seq<char> {
    Seq::new((to - from) as nat, |j: int| hex_char(nibble(v, from + j)))
}

/// `v` as 32 zero-padded lowercase hex digits, grouped 8-4-4-4-12 with hyphens.
pub open spec fn render(v: u128) -> Seq<char> {
    digit_run(v, 0, 8) + seq!['-'] + digit_run(v, 8, 12) + seq!['-'] + digit_run(v, 12, 16)
        + seq!['-'] + digit_run(v, 16, 20) + seq!['-'] + digit_run(v, 20, 32)
}

/// The positions of the four hyphens in the grouped form.
pub open spec fn is_hyphen_position(i: int) -> bool {
    i == 8 || i == 13 || i == 18 || i == 23
}

/// `t` has the grouped shape: 36 characters, hyphens at the group breaks and
/// lowercase hex digits everywhere else.
pub open spec fn is_grouped_hex(t: Seq<char>) -> bool {
    &&& t.len() == TEXT_LEN
    &&& forall|i: int|
        0 <= i < TEXT_LEN ==> if is_hyphen_position(i) {
            #[trigger] t[i] == '-'
        } else {
            char_digit(t[i]) is Some
        }
}

/// The 32 digit characters of a grouped text, hyphens left out.
pub open spec fn digits_of(t: Seq<char>) -> Seq<char> {
    t.subrange(0, 8) + t.subrange(9, 13) + t.subrange(14, 18) + t.subrange(19, 23) + t.subrange(
        24,
        36,
    )
}

/// The number read from a sequence of hex digits, most significant first.
pub open spec fn hex_value(ds: Seq<char>) -> u128
    decreases ds.len(),
{
    if ds.len() == 0 {
        0
    } else {
        let d = match char_digit(ds.last()) {
            Some(d) => d,
            None => 0,
        };
        (hex_value(ds.drop_last()) << 4u128) | d
    }
}

/// The number that a grouped text stands for.
pub open spec fn text_value(t: Seq<char>) -> u128 {
    hex_value(digits_of(t))
}

/// How many digit characters come before position `i` of a grouped text.
pub open spec fn digits_before(i: int) -> int {
    if i <= 8 {
        i
    } else if i <= 13 {
        i - 1
    } else if i <= 18 {
        i - 2
    } else if i <= 23 {
        i - 3
    } else {
        i - 4
    }
}

proof fn lemma_hex_char_digit(d: u128)
    requires
        d < 16,
    ensures
        char_digit(hex_char(d)) == Some(d),
{
}

proof fn lemma_nibble_bound(v: u128, k: int)
    ensures
        nibble(v, k) < 16,
{
    let s = (124 - 4 * k) as u128;
    assert((v >> s) & 0xf < 16) by (bit_vector);
}

proof fn lemma_shift_step(v: u128, s: u128)
    requires
        s <= 120,
    ensures
        ((v >> ((s + 4) as u128)) << 4u128) | ((v >> s) & 0xf) == v >> s,
{
    assert(s <= 120 ==> ((v >> ((s + 4) as u128)) << 4u128) | ((v >> s) & 0xf) == v >> s)
        by (bit_vector);
}

/// Reading back the first `n >= 1` digits of `v` gives `v` without its low
/// `128 - 4 n` bits.
proof fn lemma_hex_value_prefix(v: u128, n: int)
    requires
        1 <= n <= 32,
    ensures
        hex_value(digit_run(v, 0, n)) == v >> ((128 - 4 * n) as u128),
    decreases n,
{
    let ds = digit_run(v, 0, n);
    lemma_nibble_bound(v, n - 1);
    lemma_hex_char_digit(nibble(v, n - 1));
    assert(ds.drop_last() =~= digit_run(v, 0, n - 1));
    if n == 1 {
        assert(hex_value(digit_run(v, 0, 0)) == 0);
        assert(((0u128 << 4u128) | ((v >> 124u128) & 0xf)) == v >> 124u128) by (bit_vector);
    } else {
        lemma_hex_value_prefix(v, n - 1);
        lemma_shift_step(v, (128 - 4 * n) as u128);
    }
}

/// The rendered form of any value is grouped hex and reads back as that value.
pub proof fn lemma_render_reads_back(v: u128)
    ensures
        is_grouped_hex(render(v)),
        text_value(render(v)) == v,
{
    let t = render(v);
    assert forall|i: int| 0 <= i < TEXT_LEN implies if is_hyphen_position(i) {
        #[trigger] t[i] == '-'
    } else {
        char_digit(t[i]) is Some
    } by {
        if !is_hyphen_position(i) {
            lemma_nibble_bound(v, digits_before(i));
            lemma_hex_char_digit(nibble(v, digits_before(i)));
        }
    }
    assert(digits_of(t) =~= digit_run(v, 0, 32));
    lemma_hex_value_prefix(v, 32);
    assert(v >> 0u128 == v) by (bit_vector);
}

proof fn lemma_char_digit_hex(c: char)
    requires
        char_digit(c) is Some,
    ensures
        char_digit(c)->Some_0 < 16,
        hex_char(char_digit(c)->Some_0) == c,
{
}

proof fn lemma_append_digit(a: u128, d: u128, s: u128, n: u128)
    requires
        d < 16,
        s <= 120,
        n <= 120 ==> a >> n == 0,
    ensures
        (((a << 4u128) | d) >> ((s + 4) as u128)) & 0xf == (a >> s) & 0xf,
        ((a << 4u128) | d) & 0xf == d,
        n <= 120 ==> ((a << 4u128) | d) >> ((n + 4) as u128) == 0,
{
    assert(d < 16 && s <= 120 && (n <= 120 ==> a >> n == 0) ==> {
        &&& (((a << 4u128) | d) >> ((s + 4) as u128)) & 0xf == (a >> s) & 0xf
        &&& ((a << 4u128) | d) & 0xf == d
        &&& (n <= 120 ==> ((a << 4u128) | d) >> ((n + 4) as u128) == 0)
    }) by (bit_vector);
}

/// The value read from `n` hex digits holds digit `k` at bit `4 (n - 1 - k)`.
proof fn lemma_hex_value_digits(ds: Seq<char>, n: int)
    requires
        1 <= n <= ds.len() <= 32,
        forall|k: int| 0 <= k < ds.len() ==> char_digit(#[trigger] ds[k]) is Some,
    ensures
        n < 32 ==> hex_value(ds.subrange(0, n)) >> ((4 * n) as u128) == 0,
        forall|k: int|
            0 <= k < n ==> (hex_value(ds.subrange(0, n)) >> ((4 * (n - 1 - k)) as u128)) & 0xf
                == char_digit(#[trigger] ds[k])->Some_0,
    decreases n,
{
    let p = ds.subrange(0, n);
    assert(p.drop_last() =~= ds.subrange(0, n - 1));
    let d = char_digit(ds[n - 1])->Some_0;
    lemma_char_digit_hex(ds[n - 1]);
    let a = hex_value(ds.subrange(0, n - 1));
    if n == 1 {
        assert(a == 0);
        assert(d < 16 ==> ((0u128 << 4u128) | d) >> 4u128 == 0 && ((0u128 << 4u128) | d) >> 0u128
            & 0xf == d) by (bit_vector);
    } else {
        lemma_hex_value_digits(ds, n - 1);
        lemma_append_digit(a, d, 0, (4 * (n - 1)) as u128);
        assert forall|k: int| 0 <= k < n implies (hex_value(p) >> ((4 * (n - 1 - k)) as u128)) & 0xf
            == char_digit(#[trigger] ds[k])->Some_0 by {
            if k < n - 1 {
                lemma_append_digit(a, d, (4 * (n - 2 - k)) as u128, (4 * (n - 1)) as u128);
            } else {
                assert(((a << 4u128) | d) >> 0u128 == (a << 4u128) | d) by (bit_vector);
            }
        }
    }
}

/// A grouped text is the rendering of the value it reads as.
pub proof fn lemma_grouped_renders_back(t: Seq<char>)
    requires
        is_grouped_hex(t),
    ensures
        render(text_value(t)) == t,
{
    let ds = digits_of(t);
    assert forall|k: int| 0 <= k < ds.len() implies char_digit(#[trigger] ds[k]) is Some by {
        let i = if k < 8 {
            k
        } else if k < 12 {
            k + 1
        } else if k < 16 {
            k + 2
        } else if k < 20 {
            k + 3
        } else {
            k + 4
        };
        lemma_digit_position(t, i);
        assert(t[i] == ds[k]);
    }
    lemma_hex_value_digits(ds, 32);
    assert(ds.subrange(0, 32) =~= ds);
    let v = text_value(t);
    let r = render(v);
    assert forall|i: int| 0 <= i < TEXT_LEN implies #[trigger] r[i] == t[i] by {
        if !is_hyphen_position(i) {
            lemma_digit_position(t, i);
            let k = digits_before(i);
            lemma_char_digit_hex(ds[k]);
            assert(nibble(v, k) == char_digit(ds[k])->Some_0);
        }
    }
    assert(r =~= t);
}

/// In a text of the grouped length, the digit at position `i` is entry
/// `digits_before(i)` of its digit sequence.
proof fn lemma_digit_position(t: Seq<char>, i: int)
    requires
        t.len() == TEXT_LEN,
        0 <= i < TEXT_LEN,
        !is_hyphen_position(i),
    ensures
        0 <= digits_before(i) < 32,
        digits_of(t)[digits_before(i)] == t[i],
{
}

/// The value of a lowercase hex digit character.
fn digit_value(c: char) -> (r: Option<u128>)
    ensures
        r == char_digit(c),
{
    match c {
        '0' => Some(0),
        '1' => Some(1),
        '2' => Some(2),
        '3' => Some(3),
        '4' => Some(4),
        '5' => Some(5),
        '6' => Some(6),
        '7' => Some(7),
        '8' => Some(8),
        '9' => Some(9),
        'a' => Some(10),
        'b' => Some(11),
        'c' => Some(12),
        'd' => Some(13),
        'e' => Some(14),
        'f' => Some(15),
        _ => None,
    }
}

/// A one-character string holding the hex digit `d`.
fn digit_text(d: u128) -> (r: &'static str)
    requires
        d < 16,
    ensures
        r@ == seq![hex_char(d)],
{
    let digits = "0123456789abcdef";
    proof {
        reveal_strlit("0123456789abcdef");
    }
    assert(digits.is_ascii());
    let k = d as usize;
    let r = digits.substring_ascii(k, k + 1);
    assert(r@ =~= seq![hex_char(d)]);
    r
}

/// Appends hex digits `from .. to` of `v` to `out`.
fn push_digits(out: &mut String, v: u128, from: usize, to: usize)
    requires
        from <= to <= 32,
    ensures
        final(out)@ == old(out)@ + digit_run(v, from as int, to as int),
{
    let mut k = from;
    while k < to
        invariant
            from <= k <= to <= 32,
            out@ == old(out)@ + digit_run(v, from as int, k as int),
        decreases to - k,
    {
        let shift: u128 = 124 - 4 * (k as u128);
        let d = (v >> shift) & 0xf;
        proof {
            lemma_nibble_bound(v, k as int);
        }
        out.append(digit_text(d));
        k = k + 1;
        assert(digit_run(v, from as int, k as int) =~= digit_run(v, from as int, k - 1).push(
            hex_char(nibble(v, k - 1)),
        ));
    }
}

/// `v` as 32 zero-padded lowercase hex digits grouped 8-4-4-4-12.
pub fn format_grouped(v: u128) -> (r: String)
    ensures
        r@ == render(v),
{
    let mut out = String::new();
    push_digits(&mut out, v, 0, 8);
    out.append("-");
    push_digits(&mut out, v, 8, 12);
    out.append("-");
    push_digits(&mut out, v, 12, 16);
    out.append("-");
    push_digits(&mut out, v, 16, 20);
    out.append("-");
    push_digits(&mut out, v, 20, 32);
    proof {
        reveal_strlit("-");
    }
    assert(out@ =~= render(v));
    out
}

/// Reads a grouped hex text back into its value; `None` unless the text
/// has the grouped shape.
pub fn parse_grouped(s: &str) -> (r: Option<u128>)
    ensures
        r == (if is_grouped_hex(s@) {
            Some(text_value(s@))
        } else {
            None::<u128>
        }),
{
    if s.unicode_len() != TEXT_LEN {
        return None;
    }
    let ghost t = s@;
    let mut acc: u128 = 0;
    let mut i: usize = 0;
    while i < TEXT_LEN
        invariant
            t == s@,
            t.len() == TEXT_LEN,
            i <= TEXT_LEN,
            forall|j: int|
                0 <= j < i ==> if is_hyphen_position(j) {
                    #[trigger] t[j] == '-'
                } else {
                    char_digit(t[j]) is Some
                },
            acc == hex_value(digits_of(t).subrange(0, digits_before(i as int))),
        decreases TEXT_LEN - i,
    {
        let c = s.get_char(i);
        if i == 8 || i == 13 || i == 18 || i == 23 {
            if c != '-' {
                return None;
            }
        } else {
            match digit_value(c) {
                Some(d) => {
                    proof {
                        lemma_digit_position(t, i as int);
                        let ds = digits_of(t).subrange(0, digits_before(i as int) + 1);
                        assert(ds.drop_last() =~= digits_of(t).subrange(
                            0,
                            digits_before(i as int),
                        ));
                    }
                    acc = (acc << 4u128) | d;
                },
                None => {
                    return None;
                },
            }
        }
        i = i + 1;
    }
    assert(digits_of(t).subrange(0, 32) =~= digits_of(t));
    Some(acc)
}

} // verus!
