use vstd::prelude::*;
use vstd::string::StringSliceAdditionalSpecFns;
use vstd::utf8::{
    encode_utf8, is_char_boundary, is_continuation_byte, is_char_boundary_iff_not_is_continuation_byte,
    is_char_boundary_start_end_of_seq, length_of_first_scalar, pop_first_scalar, valid_utf8,
    valid_utf8_split,
};

verus! {

broadcast use vstd::string::to_string_from_display_ensures_for_str;

/// Whether two string slices hold the same characters.
pub fn str_equals(a: &str, b: &str) -> (equal: bool)
    ensures
        equal == (a@ == b@),
{
    let a_owned = a.to_string();
    let b_owned = b.to_string();
    a_owned == b_owned
}

/// The decimal digit character for `d`.
pub open spec fn digit_char(d: nat) -> char {
    if d == 0 { '0' }
    else if d == 1 { '1' }
    else if d == 2 { '2' }
    else if d == 3 { '3' }
    else if d == 4 { '4' }
    else if d == 5 { '5' }
    else if d == 6 { '6' }
    else if d == 7 { '7' }
    else if d == 8 { '8' }
    else { '9' }
}

/// The decimal notation of `n`, without leading zeros.
pub open spec fn decimal(n: nat) -> Seq<char>
    decreases n,
{
    if n < 10 {
        seq![digit_char(n)]
    } else {
        decimal(n / 10) + seq![digit_char(n % 10)]
    }
}

fn digit_str(d: usize) -> (s: &'static str)
    requires
        d < 10,
    ensures
        s@ == seq![digit_char(d as nat)],
{
    proof {
        reveal_strlit("0");
        reveal_strlit("1");
        reveal_strlit("2");
        reveal_strlit("3");
        reveal_strlit("4");
        reveal_strlit("5");
        reveal_strlit("6");
        reveal_strlit("7");
        reveal_strlit("8");
        reveal_strlit("9");
    }
    if d == 0 { "0" }
    else if d == 1 { "1" }
    else if d == 2 { "2" }
    else if d == 3 { "3" }
    else if d == 4 { "4" }
    else if d == 5 { "5" }
    else if d == 6 { "6" }
    else if d == 7 { "7" }
    else if d == 8 { "8" }
    else { "9" }
}

/// Appends the decimal notation of `n` to `out`.
pub fn push_decimal(out: &mut String, n: usize)
    ensures
        final(out)@ == old(out)@ + decimal(n as nat),
    decreases n,
{
    if n >= 10 {
        push_decimal(out, n / 10);
    }
    out.append(digit_str(n % 10));
    proof {
        assert(n >= 10 ==> (n / 10) as nat == n as nat / 10);
    }
}

/// In valid UTF-8, the position after an ASCII byte that starts a character is again a
/// character boundary.
pub proof fn lemma_boundary_after_ascii(bytes: Seq<u8>, k: int)
    requires
        valid_utf8(bytes),
        0 <= k < bytes.len(),
        bytes[k] < 0x80u8,
        is_char_boundary(bytes, k),
    ensures
        is_char_boundary(bytes, k + 1),
    decreases bytes.len(),
{
    reveal_with_fuel(is_char_boundary, 2);
    let n = length_of_first_scalar(bytes);
    let rest = pop_first_scalar(bytes);
    assert(rest =~= bytes.subrange(n, bytes.len() as int));
    if k == 0 {
        assert(n == 1);
        assert(is_char_boundary(rest, 0));
    } else {
        assert(is_char_boundary(bytes, k) == is_char_boundary(rest, k - n));
        assert(k - n >= 0);
        assert(rest[k - n] == bytes[k]);
        lemma_boundary_after_ascii(rest, k - n);
        assert(is_char_boundary(bytes, k + 1) == is_char_boundary(rest, k + 1 - n));
    }
}

/// In valid UTF-8, an ASCII byte starts a character, and so does the position after it.
pub proof fn lemma_ascii_boundaries(bytes: Seq<u8>, k: int)
    requires
        valid_utf8(bytes),
        0 <= k < bytes.len(),
        bytes[k] < 0x80u8,
    ensures
        is_char_boundary(bytes, k),
        is_char_boundary(bytes, k + 1),
{
    is_char_boundary_iff_not_is_continuation_byte(bytes, k);
    lemma_boundary_after_ascii(bytes, k);
}

/// The characters of `s` whose UTF-8 encoding spans the bytes `start..end`.
pub fn substring(s: &str, start: usize, end: usize) -> (sub: String)
    requires
        start <= end <= s.spec_bytes().len(),
        is_char_boundary(s.spec_bytes(), start as int),
        is_char_boundary(s.spec_bytes(), end as int),
    ensures
        encode_utf8(sub@) == s.spec_bytes().subrange(start as int, end as int),
{
    let ghost bytes = s.spec_bytes();
    proof {
        vstd::utf8::encode_utf8_valid_utf8(s@);
        valid_utf8_split(bytes, end as int);
    }
    let (head, _tail) = s.split_at(end);
    proof {
        let hb = head.spec_bytes();
        assert(hb =~= bytes.subrange(0, end as int));
        if start < end {
            is_char_boundary_iff_not_is_continuation_byte(bytes, start as int);
            assert(hb[start as int] == bytes[start as int]);
            is_char_boundary_iff_not_is_continuation_byte(hb, start as int);
        } else {
            is_char_boundary_start_end_of_seq(hb);
        }
    }
    let (_front, middle) = head.split_at(start);
    let sub = middle.to_string();
    proof {
        assert(middle.spec_bytes() =~= bytes.subrange(start as int, end as int));
        assert(sub@ == middle@);
    }
    sub
}

} // verus!
