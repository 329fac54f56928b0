//! Text: the order of names, search, and the decimal spelling of integers.
//!
//! Measurement names are kept in the order Rust gives to strings: the
//! lexicographic order of their UTF-8 bytes.  This module states that order
//! over sequences, decides it on `&str`, and proves that it is a strict total
//! order.

use vstd::prelude::*;
use vstd::string::*;
use vstd::utf8::*;

verus! {

/// `a` and `b` agree on their first `k` bytes, and at position `k` either `a`
/// has ended while `b` goes on, or `a` holds the smaller byte.
pub open spec fn precedes_at(a: Seq<u8>, b: Seq<u8>, k: int) -> bool {
    &&& 0 <= k <= a.len()
    &&& k < b.len()
    &&& forall|i: int| 0 <= i < k ==> a[i] == b[i]
    &&& k < a.len() ==> a[k] < b[k]
}

/// Lexicographic order on byte sequences.
pub open spec fn bytes_lt(a: Seq<u8>, b: Seq<u8>) -> bool {
    exists|k: int| precedes_at(a, b, k)
}

/// The order of two names: that of their UTF-8 encodings.
pub open spec fn name_lt(a: Seq<char>, b: Seq<char>) -> bool {
    bytes_lt(encode_utf8(a), encode_utf8(b))
}

/// No byte sequence precedes itself, and no two precede each other.
pub proof fn lemma_bytes_lt_asymmetric(a: Seq<u8>, b: Seq<u8>)
    requires
        bytes_lt(a, b),
    ensures
        !bytes_lt(b, a),
        a != b,
{
    let k = choose|k: int| precedes_at(a, b, k);
    assert forall|j: int| !precedes_at(b, a, j) by {
        if precedes_at(b, a, j) {
            if j < k {
                assert(a[j] == b[j]);
            } else if k < j {
                assert(b[k] == a[k]);
            }
        }
    }
    if a == b {
        assert(precedes_at(b, a, k));
    }
}

/// The order on byte sequences is transitive.
pub proof fn lemma_bytes_lt_transitive(a: Seq<u8>, b: Seq<u8>, c: Seq<u8>)
    requires
        bytes_lt(a, b),
        bytes_lt(b, c),
    ensures
        bytes_lt(a, c),
{
    let k1 = choose|k: int| precedes_at(a, b, k);
    let k2 = choose|k: int| precedes_at(b, c, k);
    let k = if k1 <= k2 { k1 } else { k2 };
    assert forall|i: int| 0 <= i < k implies a[i] == c[i] by {
        assert(a[i] == b[i]);
        assert(b[i] == c[i]);
    }
    if k1 < k2 {
        assert(b[k1] == c[k1]);
    } else if k2 < k1 {
        assert(a[k2] == b[k2]);
    }
    assert(precedes_at(a, c, k));
}

/// Two byte sequences of which neither precedes the other agree on every
/// position below `k` that both have.
proof fn lemma_unordered_agree(a: Seq<u8>, b: Seq<u8>, k: int)
    requires
        !bytes_lt(a, b),
        !bytes_lt(b, a),
        0 <= k <= a.len(),
        k <= b.len(),
    ensures
        forall|i: int| 0 <= i < k ==> a[i] == b[i],
    decreases k,
{
    if k > 0 {
        lemma_unordered_agree(a, b, k - 1);
        if a[k - 1] < b[k - 1] {
            assert(precedes_at(a, b, k - 1));
        } else if b[k - 1] < a[k - 1] {
            assert(precedes_at(b, a, k - 1));
        }
    }
}

/// Of two different byte sequences one precedes the other.
pub proof fn lemma_bytes_lt_total(a: Seq<u8>, b: Seq<u8>)
    requires
        a != b,
    ensures
        bytes_lt(a, b) || bytes_lt(b, a),
{
    if !bytes_lt(a, b) && !bytes_lt(b, a) {
        let k = if a.len() <= b.len() { a.len() as int } else { b.len() as int };
        lemma_unordered_agree(a, b, k);
        if a.len() < b.len() {
            assert(precedes_at(a, b, k));
        } else if b.len() < a.len() {
            assert(precedes_at(b, a, k));
        }
        assert(a =~= b);
    }
}

/// No name precedes itself, and no two names precede each other.
pub proof fn lemma_name_lt_asymmetric(a: Seq<char>, b: Seq<char>)
    requires
        name_lt(a, b),
    ensures
        !name_lt(b, a),
        a != b,
{
    lemma_bytes_lt_asymmetric(encode_utf8(a), encode_utf8(b));
}

/// The order on names is transitive.
pub proof fn lemma_name_lt_transitive(a: Seq<char>, b: Seq<char>, c: Seq<char>)
    requires
        name_lt(a, b),
        name_lt(b, c),
    ensures
        name_lt(a, c),
{
    lemma_bytes_lt_transitive(encode_utf8(a), encode_utf8(b), encode_utf8(c));
}

/// Of two different names one precedes the other.
pub proof fn lemma_name_lt_total(a: Seq<char>, b: Seq<char>)
    requires
        a != b,
    ensures
        name_lt(a, b) || name_lt(b, a),
{
    encode_utf8_decode_utf8(a);
    encode_utf8_decode_utf8(b);
    lemma_bytes_lt_total(encode_utf8(a), encode_utf8(b));
}

/// Decides whether `a` comes before `b` in the order of names.
pub fn str_lt(a: &str, b: &str) -> (r: bool)
    ensures
        r == name_lt(a@, b@),
{
    let x = a.as_bytes();
    let y = b.as_bytes();
    let mut i: usize = 0;
    while i < x.len() && i < y.len()
        invariant
            i <= x@.len(),
            i <= y@.len(),
            x@ == encode_utf8(a@),
            y@ == encode_utf8(b@),
            forall|j: int| 0 <= j < i ==> x@[j] == y@[j],
        decreases x@.len() - i,
    {
        if x[i] != y[i] {
            proof {
                if x@[i as int] < y@[i as int] {
                    assert(precedes_at(x@, y@, i as int));
                } else {
                    assert(precedes_at(y@, x@, i as int));
                    lemma_bytes_lt_asymmetric(y@, x@);
                }
            }
            return x[i] < y[i];
        }
        i += 1;
    }
    proof {
        if x@.len() < y@.len() {
            assert(precedes_at(x@, y@, i as int));
        } else {
            assert forall|k: int| !precedes_at(x@, y@, k) by {
                if precedes_at(x@, y@, k) {
                    if k < i {
                        assert(x@[k] == y@[k]);
                    }
                }
            }
        }
    }
    x.len() < y.len()
}

/// The characters of a string.
pub fn chars_of(text: &str) -> (chars: Vec<char>)
    ensures
        chars@ == text@,
{
    let mut chars: Vec<char> = Vec::new();
    for c in it: text.chars()
        invariant
            chars@ == it.seq().take(it.index() as int),
    {
        chars.push(c);
    }
    chars
}

/// `needle` stands in `haystack` from position `at` on.
pub open spec fn occurs_at(haystack: Seq<char>, needle: Seq<char>, at: int) -> bool {
    &&& 0 <= at
    &&& at + needle.len() <= haystack.len()
    &&& haystack.subrange(at, at + needle.len()) == needle
}

/// `needle` stands somewhere in `haystack`.
pub open spec fn contains_text(haystack: Seq<char>, needle: Seq<char>) -> bool {
    exists|at: int| occurs_at(haystack, needle, at)
}

/// Decides whether `needle` stands somewhere in `haystack`.
pub fn str_contains(haystack: &str, needle: &str) -> (found: bool)
    ensures
        found == contains_text(haystack@, needle@),
{
    let hay = chars_of(haystack);
    let pin = chars_of(needle);
    if pin.len() > hay.len() {
        assert forall|at: int| !occurs_at(hay@, pin@, at) by {}
        return false;
    }
    let last = hay.len() - pin.len();
    if last == usize::MAX {
        // An empty needle in a haystack of the greatest length: it stands at the start.
        assert(hay@.subrange(0, 0) =~= pin@);
        assert(occurs_at(hay@, pin@, 0));
        return true;
    }
    let mut at: usize = 0;
    while at <= last
        invariant
            hay@ == haystack@,
            pin@ == needle@,
            last == hay@.len() - pin@.len(),
            hay@.len() <= usize::MAX,
            last < usize::MAX,
            at <= last + 1,
            forall|j: int| 0 <= j < at ==> !occurs_at(hay@, pin@, j),
        decreases last + 1 - at,
    {
        let mut k: usize = 0;
        while k < pin.len() && hay[at + k] == pin[k]
            invariant
                at <= last,
                last == hay@.len() - pin@.len(),
                hay@.len() <= usize::MAX,
                k <= pin@.len(),
                forall|t: int| 0 <= t < k ==> hay@[at + t] == pin@[t],
            decreases pin@.len() - k,
        {
            k += 1;
        }
        if k == pin.len() {
            proof {
                assert(hay@.subrange(at as int, at + pin@.len()) =~= pin@);
                assert(occurs_at(hay@, pin@, at as int));
            }
            return true;
        }
        proof {
            assert(hay@.subrange(at as int, at + pin@.len())[k as int] == hay@[at + k]);
        }
        at += 1;
    }
    proof {
        assert forall|j: int| !occurs_at(hay@, pin@, j) by {}
    }
    false
}

/// The character that spells a digit.
pub open spec fn digit_char(digit: int) -> char {
    if digit == 0 {
        '0'
    } else if digit == 1 {
        '1'
    } else if digit == 2 {
        '2'
    } else if digit == 3 {
        '3'
    } else if digit == 4 {
        '4'
    } else if digit == 5 {
        '5'
    } else if digit == 6 {
        '6'
    } else if digit == 7 {
        '7'
    } else if digit == 8 {
        '8'
    } else {
        '9'
    }
}

/// The decimal digits of a natural number, without leading zeros.
pub open spec fn decimal_digits(n: nat) -> Seq<char>
    decreases n,
{
    if n < 10 {
        seq![digit_char(n as int)]
    } else {
        decimal_digits(n / 10).push(digit_char((n % 10) as int))
    }
}

/// The decimal spelling of an integer: its digits, after a minus sign where it
/// is negative.
pub open spec fn decimal_of(n: int) -> Seq<char> {
    if n < 0 {
        seq!['-'] + decimal_digits((-n) as nat)
    } else {
        decimal_digits(n as nat)
    }
}

/// The text that spells a digit.
fn digit_text(digit: u64) -> (text: &'static str)
    requires
        digit < 10,
    ensures
        text@ == seq![digit_char(digit as int)],
{
    proof {
        reveal_strlit("0");
        reveal_strlit("1");
        reveal_strlit("2");
        reveal_strlit("3");
        reveal_strlit("4");
        reveal_strlit("5");
        reveal_strlit("6");
        reveal_strlit("7");
        reveal_strlit("8");
        reveal_strlit("9");
    }
    let text = if digit == 0 {
        "0"
    } else if digit == 1 {
        "1"
    } else if digit == 2 {
        "2"
    } else if digit == 3 {
        "3"
    } else if digit == 4 {
        "4"
    } else if digit == 5 {
        "5"
    } else if digit == 6 {
        "6"
    } else if digit == 7 {
        "7"
    } else if digit == 8 {
        "8"
    } else {
        "9"
    };
    assert(text@ =~= seq![digit_char(digit as int)]);
    text
}

/// Writes the decimal digits of `n` at the end of `out`.
fn push_decimal_digits(out: &mut String, n: u64)
    ensures
        final(out)@ == old(out)@ + decimal_digits(n as nat),
    decreases n,
{
    if n >= 10 {
        push_decimal_digits(out, n / 10);
    }
    let ghost before = out@;
    out.append(digit_text(n % 10));
    proof {
        if n >= 10 {
            assert(out@ =~= old(out)@ + decimal_digits(n as nat));
        } else {
            assert(out@ =~= old(out)@ + decimal_digits(n as nat));
        }
    }
}

/// The decimal spelling of `n`.
pub fn format_decimal(n: i64) -> (text: String)
    ensures
        text@ == decimal_of(n as int),
{
    let mut text = String::new();
    if n < 0 {
        proof {
            reveal_strlit("-");
        }
        text.append("-");
        assert(text@ =~= seq!['-']);
        let magnitude: u64 = (-(n as i128)) as u64;
        push_decimal_digits(&mut text, magnitude);
    } else {
        push_decimal_digits(&mut text, n as u64);
        assert(text@ =~= decimal_of(n as int));
    }
    text
}

} // verus!
