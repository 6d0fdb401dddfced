//! Cluster-wide unique identifiers: a node's own id, a hyphen, and a local
//! sequence number in decimal.

use vstd::prelude::*;
use vstd::string::StringExecFns;

verus! {

/// The character that writes the digit `d`.
pub open spec fn digit_char(d: nat) -> char {
    if d == 0 {
        '0'
    } else if d == 1 {
        '1'
    } else if d == 2 {
        '2'
    } else if d == 3 {
        '3'
    } else if d == 4 {
        '4'
    } else if d == 5 {
        '5'
    } else if d == 6 {
        '6'
    } else if d == 7 {
        '7'
    } else if d == 8 {
        '8'
    } else {
        '9'
    }
}

/// Whether `c` is one of the ten decimal digits.
pub open spec fn is_digit(c: char) -> bool {
    exists|d: nat| d < 10 && c == #[trigger] digit_char(d)
}

/// The decimal numeral of `n`, most significant digit first, without leading
/// zeros.
pub open spec fn decimal(n: nat) -> Seq<char>
    decreases n,
{
    if n < 10 {
        seq![digit_char(n)]
    } else {
        decimal(n / 10).push(digit_char(n % 10))
    }
}

/// The identifier that the node `node_id` derives from its local sequence
/// number `sequence`.
pub open spec fn unique_id(node_id: Seq<char>, sequence: nat) -> Seq<char> {
    node_id + seq!['-'] + decimal(sequence)
}

/// The number that a string of decimal digits writes; the inverse of
/// [`decimal`].
pub open spec fn numeral_value(digits: Seq<char>) -> nat
    decreases digits.len(),
{
    if digits.len() == 0 {
        0
    } else {
        10 * numeral_value(digits.drop_last()) + digit_value(digits.last())
    }
}

/// The digit that `c` writes, `0` for any other character.
pub open spec fn digit_value(c: char) -> nat {
    if c == '1' {
        1
    } else if c == '2' {
        2
    } else if c == '3' {
        3
    } else if c == '4' {
        4
    } else if c == '5' {
        5
    } else if c == '6' {
        6
    } else if c == '7' {
        7
    } else if c == '8' {
        8
    } else if c == '9' {
        9
    } else {
        0
    }
}

/// A numeral is never empty and holds decimal digits only.
pub proof fn lemma_decimal_digits(n: nat)
    ensures
        decimal(n).len() >= 1,
        forall|i: int| 0 <= i < decimal(n).len() ==> is_digit(#[trigger] decimal(n)[i]),
    decreases n,
{
    if n >= 10 {
        lemma_decimal_digits(n / 10);
    }
}

/// Reading a numeral back gives the number it was written from.
pub proof fn lemma_decimal_value(n: nat)
    ensures
        numeral_value(decimal(n)) == n,
    decreases n,
{
    if n < 10 {
        let s = decimal(n);
        assert(numeral_value(s.drop_last()) == 0);
    } else {
        lemma_decimal_value(n / 10);
        let s = decimal(n);
        assert(s.drop_last() =~= decimal(n / 10));
    }
}

/// Two numbers with the same numeral are the same number.
pub proof fn lemma_decimal_injective(m: nat, n: nat)
    requires
        decimal(m) == decimal(n),
    ensures
        m == n,
{
    lemma_decimal_value(m);
    lemma_decimal_value(n);
}

/// An identifier determines both the node that made it and the sequence
/// number it was made from: no two nodes ever generate the same identifier,
/// and no node generates one identifier twice.
pub proof fn lemma_unique_id_injective(
    node_a: Seq<char>,
    sequence_a: nat,
    node_b: Seq<char>,
    sequence_b: nat,
)
    requires
        unique_id(node_a, sequence_a) == unique_id(node_b, sequence_b),
    ensures
        node_a == node_b,
        sequence_a == sequence_b,
{
    let id = unique_id(node_a, sequence_a);
    let da = decimal(sequence_a);
    let db = decimal(sequence_b);
    lemma_decimal_digits(sequence_a);
    lemma_decimal_digits(sequence_b);
    assert(id.len() == node_b.len() + 1 + db.len());
    if node_a.len() < node_b.len() {
        // The hyphen that ends `node_a` would sit among the digits of `da`.
        let k: int = node_b.len() - node_a.len() - 1;
        assert(id[node_b.len() as int] == da[k]);
    } else if node_b.len() < node_a.len() {
        let k: int = node_a.len() - node_b.len() - 1;
        assert(id[node_a.len() as int] == db[k]);
    } else {
        assert(node_b =~= id.subrange(0, node_b.len() as int));
        assert(da =~= id.subrange(node_a.len() as int + 1, id.len() as int));
        assert(db =~= id.subrange(node_b.len() as int + 1, id.len() as int));
        lemma_decimal_injective(sequence_a, sequence_b);
    }
}

/// The one-character string that writes the digit `d`.
fn digit_str(d: usize) -> (s: &'static str)
    requires
        d < 10,
    ensures
        s@ == seq![digit_char(d as nat)],
{
    proof {
        reveal_strlit("0");
        reveal_strlit("1");
        reveal_strlit("2");
        reveal_strlit("3");
        reveal_strlit("4");
        reveal_strlit("5");
        reveal_strlit("6");
        reveal_strlit("7");
        reveal_strlit("8");
        reveal_strlit("9");
    }
    if d == 0 {
        "0"
    } else if d == 1 {
        "1"
    } else if d == 2 {
        "2"
    } else if d == 3 {
        "3"
    } else if d == 4 {
        "4"
    } else if d == 5 {
        "5"
    } else if d == 6 {
        "6"
    } else if d == 7 {
        "7"
    } else if d == 8 {
        "8"
    } else {
        "9"
    }
}

/// Writes `n` in decimal.
pub fn decimal_string(n: usize) -> (s: String)
    ensures
        s@ == decimal(n as nat),
    decreases n,
{
    if n < 10 {
        String::from_str(digit_str(n))
    } else {
        let mut s = decimal_string(n / 10);
        s.append(digit_str(n % 10));
        s
    }
}

/// Builds the identifier of `node_id` at local sequence number `sequence`.
pub fn generated_id(node_id: &String, sequence: usize) -> (id: String)
    ensures
        id@ == unique_id(node_id@, sequence as nat),
{
    let mut id = node_id.clone();
    proof {
        reveal_strlit("-");
    }
    id.append("-");
    let digits = decimal_string(sequence);
    id.append(digits.as_str());
    id
}

} // verus!
