//! Small text helpers: comparing strings and writing numbers.

use vstd::prelude::*;
use vstd::utf8::*;

verus! {

/// The character of a decimal or hexadecimal digit.
pub open spec fn digit_char(d: nat) -> char {
    if d < 10 {
        (48 + d) as char
    } else {
        (87 + d) as char
    }
}

/// The decimal text of a number, without leading zeros.
pub open spec fn decimal(n: nat) -> Seq<char>
    decreases n,
{
    if n < 10 {
        seq![digit_char(n)]
    } else {
        decimal(n / 10).push(digit_char(n % 10))
    }
}

/// The text of one digit, up to the hexadecimal `f`.
fn digit_text(d: u8) -> (r: &'static str)
    requires
        d < 16,
    ensures
        r@ == seq![digit_char(d as nat)],
{
    proof {
        reveal_strlit("0");
        reveal_strlit("1");
        reveal_strlit("2");
        reveal_strlit("3");
        reveal_strlit("4");
        reveal_strlit("5");
        reveal_strlit("6");
        reveal_strlit("7");
        reveal_strlit("8");
        reveal_strlit("9");
        reveal_strlit("a");
        reveal_strlit("b");
        reveal_strlit("c");
        reveal_strlit("d");
        reveal_strlit("e");
        reveal_strlit("f");
    }
    match d {
        0 => "0",
        1 => "1",
        2 => "2",
        3 => "3",
        4 => "4",
        5 => "5",
        6 => "6",
        7 => "7",
        8 => "8",
        9 => "9",
        10 => "a",
        11 => "b",
        12 => "c",
        13 => "d",
        14 => "e",
        _ => "f",
    }
}

/// Appends the decimal text of `n`.
pub fn push_decimal(out: &mut String, n: u128)
    ensures
        final(out)@ == old(out)@ + decimal(n as nat),
    decreases n,
{
    if n >= 10 {
        push_decimal(out, n / 10);
    }
    let digit: u8 = (n % 10) as u8;
    out.append(digit_text(digit));
}

/// Appends the two lower-case hexadecimal digits of a byte.
pub fn push_hex_byte(out: &mut String, b: u8)
    ensures
        final(out)@ == old(out)@ + hex_byte(b),
{
    out.append(digit_text(b / 16));
    out.append(digit_text(b % 16));
}

/// The two lower-case hexadecimal digits of a byte.
pub open spec fn hex_byte(b: u8) -> Seq<char> {
    seq![digit_char((b / 16) as nat), digit_char((b % 16) as nat)]
}

/// Whether two slices of bytes hold the same bytes.
pub fn same_bytes(a: &[u8], b: &[u8]) -> (r: bool)
    ensures
        r == (a@ == b@),
{
    if a.len() != b.len() {
        return false;
    }
    let mut i: usize = 0;
    while i < a.len()
        invariant
            i <= a@.len(),
            a@.len() == b@.len(),
            forall|j: int| 0 <= j < i ==> a@[j] == b@[j],
        decreases a@.len() - i,
    {
        if a[i] != b[i] {
            return false;
        }
        i += 1;
    }
    assert(a@ =~= b@);
    true
}

/// Whether two strings hold the same characters.
pub fn same_text(a: &str, b: &str) -> (r: bool)
    ensures
        r == (a@ == b@),
{
    proof {
        encode_utf8_decode_utf8(a@);
        encode_utf8_decode_utf8(b@);
    }
    same_bytes(a.as_bytes(), b.as_bytes())
}

/// The characters of a string.
fn characters(s: &str) -> (r: Vec<char>)
    ensures
        r@ == s@,
{
    let mut out: Vec<char> = Vec::new();
    let total: usize = s.unicode_len();
    let mut i: usize = 0;
    while i < total
        invariant
            i <= total,
            total == s@.len(),
            out@ == s@.take(i as int),
        decreases total - i,
    {
        out.push(s.get_char(i));
        assert(out@ =~= s@.take(i + 1));
        i += 1;
    }
    assert(s@.take(i as int) =~= s@);
    out
}

/// Whether `part` stands in `whole` from position `at` on.
pub open spec fn stands_at(whole: Seq<char>, part: Seq<char>, at: int) -> bool {
    0 <= at && at + part.len() <= whole.len() && whole.subrange(at, at + part.len()) == part
}

/// Whether `part` stands somewhere in `whole`.
pub open spec fn contains_text(whole: Seq<char>, part: Seq<char>) -> bool {
    exists|at: int| stands_at(whole, part, at)
}

/// Whether one string stands somewhere in another.
pub fn text_contains(whole: &str, part: &str) -> (r: bool)
    ensures
        r == contains_text(whole@, part@),
{
    let w = characters(whole);
    let p = characters(part);
    if p.len() > w.len() {
        return false;
    }
    let mut at: usize = 0;
    while at <= w.len() - p.len()
        invariant
            p@.len() <= w@.len(),
            at <= w@.len() - p@.len() + 1,
            w@ == whole@,
            p@ == part@,
            w.len() == w@.len(),
            forall|k: int| 0 <= k < at ==> !#[trigger] stands_at(w@, p@, k),
        decreases w@.len() + 1 - at,
    {
        let mut i: usize = 0;
        let mut same = true;
        while i < p.len()
            invariant
                i <= p@.len(),
                at + p@.len() <= w@.len(),
                w.len() == w@.len(),
                same ==> forall|k: int| 0 <= k < i ==> w@[at + k] == p@[k],
                !same ==> exists|k: int| 0 <= k < p@.len() && w@[at + k] != #[trigger] p@[k],
            decreases p@.len() - i,
        {
            if w[at + i] != p[i] {
                same = false;
                assert(w@[at + i] != p@[i as int]);
            }
            i += 1;
        }
        if same {
            assert(w@.subrange(at as int, at + p@.len()) =~= p@);
            assert(stands_at(w@, p@, at as int));
            return true;
        }
        assert(!stands_at(w@, p@, at as int)) by {
            let k = choose|k: int| 0 <= k < p@.len() && w@[at + k] != #[trigger] p@[k];
            assert(w@.subrange(at as int, at + p@.len())[k] == w@[at + k]);
        }
        if at == w.len() - p.len() {
            assert forall|k: int| !stands_at(w@, p@, k) by {
                if 0 <= k <= at {
                    assert(k < at || k == at);
                }
            }
            return false;
        }
        at += 1;
    }
    false
}

/// Whether `whole` ends with `part`.
pub open spec fn ends_with_text(whole: Seq<char>, part: Seq<char>) -> bool {
    stands_at(whole, part, whole.len() - part.len())
}

/// Whether one string ends with another.
pub fn text_ends_with(whole: &str, part: &str) -> (r: bool)
    ensures
        r == ends_with_text(whole@, part@),
{
    let w = characters(whole);
    let p = characters(part);
    if p.len() > w.len() {
        return false;
    }
    let at: usize = w.len() - p.len();
    let mut i: usize = 0;
    while i < p.len()
        invariant
            i <= p@.len(),
            at + p@.len() == w@.len(),
            w.len() == w@.len(),
            w@ == whole@,
            p@ == part@,
            forall|k: int| 0 <= k < i ==> w@[at + k] == #[trigger] p@[k],
        decreases p@.len() - i,
    {
        if w[at + i] != p[i] {
            assert(w@.subrange(at as int, at + p@.len())[i as int] != p@[i as int]);
            return false;
        }
        i += 1;
    }
    assert(w@.subrange(at as int, at + p@.len()) =~= p@);
    true
}

/// Two strings written one after the other.
pub fn joined(a: &str, b: &str) -> (r: String)
    ensures
        r@ == a@ + b@,
{
    let mut out = a.to_owned();
    out.append(b);
    out
}

/// The bytes of a string never determine two strings: equal encodings come
/// from equal text.
pub proof fn lemma_encoding_determines_text(a: Seq<char>, b: Seq<char>)
    requires
        encode_utf8(a) == encode_utf8(b),
    ensures
        a == b,
{
    encode_utf8_decode_utf8(a);
    encode_utf8_decode_utf8(b);
}

} // verus!
