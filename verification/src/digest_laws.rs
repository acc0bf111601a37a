//! How digests are written, and in which order names stand.

use vstd::prelude::*;

use crate::json_util::{before, digest_text, digit, hex, sha256};

verus! {

// ---- digests ----

/// The value of a hexadecimal digit; minus one for any other character.
pub open spec fn hex_value(c: char) -> int {
    if '0' <= c <= '9' {
        c as int - '0' as int
    } else if 'a' <= c <= 'f' {
        c as int - 'a' as int + 10
    } else {
        -1
    }
}

proof fn lemma_hex_digit(n: int)
    requires
        0 <= n < 16,
    ensures
        hex_value(digit(n)) == n,
{
}

/// Whether the characters from `at` on are the two digits of a byte, the higher one first.
pub open spec fn spells(text: Seq<char>, at: int, b: u8) -> bool {
    &&& 0 <= hex_value(text[at]) < 16
    &&& 0 <= hex_value(text[at + 1]) < 16
    &&& b as int == 16 * hex_value(text[at]) + hex_value(text[at + 1])
}

proof fn lemma_hex(bytes: Seq<u8>, i: int)
    requires
        0 <= i < bytes.len(),
    ensures
        spells(hex(bytes), 2 * i, bytes[i]),
    decreases bytes.len(),
{
    let front = bytes.drop_last();
    let b = bytes.last() as int;
    lemma_hex_length(bytes);
    lemma_hex_length(front);
    let two = seq![digit(b / 16), digit(b % 16)];
    assert(hex(bytes) == hex(front) + two);
    if i < front.len() {
        lemma_hex(front, i);
        assert(hex(bytes)[2 * i] == hex(front)[2 * i]);
        assert(hex(bytes)[2 * i + 1] == hex(front)[2 * i + 1]);
    } else {
        lemma_hex_digit(b / 16);
        lemma_hex_digit(b % 16);
        assert(hex(bytes)[2 * i] == two[0]);
        assert(hex(bytes)[2 * i + 1] == two[1]);
    }
}

proof fn lemma_hex_length(bytes: Seq<u8>)
    ensures
        hex(bytes).len() == 2 * bytes.len(),
    decreases bytes.len(),
{
    if bytes.len() > 0 {
        lemma_hex_length(bytes.drop_last());
    }
}

/// A digest is written as the name of the function, a colon, and two lowercase hexadecimal digits for
/// each of its bytes, the higher one first.
pub proof fn a_digest_is_in_hexadecimal(data: Seq<u8>, i: int)
    ensures
        ({
            let text = digest_text(data);
            let bytes = sha256(data);
            &&& text.len() == 7 + 2 * bytes.len()
            &&& text.take(7) == seq!['s', 'h', 'a', '2', '5', '6', ':']
            &&& 0 <= i < bytes.len() ==> spells(text, 7 + 2 * i, bytes[i])
        }),
{
    reveal_strlit("sha256:");
    let bytes = sha256(data);
    let text = digest_text(data);
    lemma_hex_length(bytes);
    assert(text.take(7) =~= seq!['s', 'h', 'a', '2', '5', '6', ':']);
    if 0 <= i < bytes.len() {
        lemma_hex(bytes, i);
        assert(text[7 + 2 * i] == hex(bytes)[2 * i]);
        assert(text[7 + 2 * i + 1] == hex(bytes)[2 * i + 1]);
    }
}

// ---- the order and the form of texts ----

/// Whether `a` comes before `b` in a dictionary: at the first place where they differ it has the
/// smaller character, or it ends there.
pub open spec fn precedes(a: Seq<char>, b: Seq<char>) -> bool {
    exists|k: int| #[trigger] parts_at(a, b, k)
}

/// Whether two texts differ first at a place, and `a` is the smaller one there.
pub open spec fn parts_at(a: Seq<char>, b: Seq<char>, k: int) -> bool {
    &&& 0 <= k < b.len()
    &&& k <= a.len()
    &&& forall|i: int| 0 <= i < k ==> a[i] == #[trigger] b[i]
    &&& k == a.len() || (a[k] as u32) < (b[k] as u32)
}

/// Names are put in the order of a dictionary, by their characters.
pub proof fn names_are_ordered_by_characters(a: Seq<char>, b: Seq<char>)
    ensures
        before(a, b) <==> precedes(a, b),
    decreases a.len(),
{
    if b.len() > 0 {
        if a.len() == 0 {
            assert(parts_at(a, b, 0));
        } else {
            let x = a.drop_first();
            let y = b.drop_first();
            names_are_ordered_by_characters(x, y);
            if (a[0] as u32) < (b[0] as u32) {
                assert(parts_at(a, b, 0));
            }
            if a[0] == b[0] && precedes(x, y) {
                let k = choose|k: int| #[trigger] parts_at(x, y, k);
                assert forall|i: int| 0 <= i < k + 1 implies a[i] == #[trigger] b[i] by {
                    if i > 0 {
                        assert(x[i - 1] == y[i - 1]);
                    }
                }
                assert(k < x.len() ==> x[k] == a[k + 1]);
                assert(y[k] == b[k + 1]);
                assert(parts_at(a, b, k + 1));
            }
            if precedes(a, b) {
                let k = choose|k: int| #[trigger] parts_at(a, b, k);
                if k > 0 {
                    assert(a[0] == b[0]);
                    assert forall|i: int| 0 <= i < k - 1 implies x[i] == #[trigger] y[i] by {
                        assert(a[i + 1] == b[i + 1]);
                    }
                    assert(k - 1 < x.len() ==> x[k - 1] == a[k]);
                    assert(y[k - 1] == b[k]);
                    assert(parts_at(x, y, k - 1));
                }
            }
        }
    }
}

} // verus!
