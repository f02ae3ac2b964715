//! Records for the adversarial fuzz pool, to which the operator can send a
//! held transaction with F8.

use vstd::prelude::*;
use vstd::string::*;
use crate::text::{decimal, decimal_text, digit_char};

verus! {

/// One JSON line of the fuzz pool, newline included; the transaction id is
/// written as it is, without escaping.
pub open spec fn fuzz_record_text(epoch: u64, tx: Seq<char>) -> Seq<char> {
    record_head() + decimal_text(epoch as nat) + record_middle() + tx + record_tail()
}

pub open spec fn record_head() -> Seq<char> {
    "{\"timestamp\": "@
}

pub open spec fn record_middle() -> Seq<char> {
    ", \"transaction_id\": \""@
}

pub open spec fn record_tail() -> Seq<char> {
    "\", \"flag\": \"ADVERSARIAL_FUZZ_TARGET\"}\n"@
}

pub open spec fn is_digit(c: char) -> bool {
    '0' <= c && c <= '9'
}

/// How many decimal digits `s` starts with.
pub open spec fn leading_digits(s: Seq<char>) -> nat
    decreases s.len(),
{
    if s.len() > 0 && is_digit(s[0]) {
        1 + leading_digits(s.drop_first())
    } else {
        0
    }
}

/// The number that a string of decimal digits denotes.
pub open spec fn digits_value(s: Seq<char>) -> nat
    decreases s.len(),
{
    if s.len() == 0 {
        0
    } else {
        digits_value(s.drop_last()) * 10 + ((s.last() as int - 48) as nat)
    }
}

/// How many characters `s` has before its first `"`.
pub open spec fn before_quote(s: Seq<char>) -> nat
    decreases s.len(),
{
    if s.len() > 0 && s[0] != '"' {
        1 + before_quote(s.drop_first())
    } else {
        0
    }
}

/// Reads a fuzz-pool line back by its layout, not as JSON: the number after
/// `{"timestamp": `, and the text of the `transaction_id` string up to its
/// closing quote, provided that the line is laid out as `fuzz_record`
/// writes it. The line is also valid JSON, with the same id, when the id
/// holds no `"`, no `\` and no control character; no JSON grammar is
/// written here, so that is not stated.
pub open spec fn read_fuzz_record(line: Seq<char>) -> Option<(nat, Seq<char>)> {
    let head = record_head();
    let middle = record_middle();
    if line.len() >= head.len() && line.take(head.len() as int) == head {
        let rest = line.skip(head.len() as int);
        let k = leading_digits(rest);
        let after = rest.skip(k as int);
        if k > 0 && after.len() >= middle.len() && after.take(middle.len() as int) == middle {
            let quoted = after.skip(middle.len() as int);
            let j = before_quote(quoted);
            if quoted.skip(j as int) == record_tail() {
                Some((digits_value(rest.take(k as int)), quoted.take(j as int)))
            } else {
                None
            }
        } else {
            None
        }
    } else {
        None
    }
}

pub open spec fn export_log_text(tx: Seq<char>) -> Seq<char> {
    "EXPORTED TO CHANDRIAN: "@ + tx
}

pub open spec fn export_failure_log_text(reason: Seq<char>) -> Seq<char> {
    "EXPORTED TO CHANDRIAN FAILURE: "@ + reason
}

/// The fuzz-pool line for transaction `tx_id`, stamped with `epoch`
/// (seconds since the Unix epoch).
pub fn fuzz_record(epoch: u64, tx_id: &str) -> (s: String)
    ensures
        s@ == fuzz_record_text(epoch, tx_id@),
{
    let mut s = String::from_str("{\"timestamp\": ");
    let digits = decimal(epoch);
    s.append(digits.as_str());
    s.append(", \"transaction_id\": \"");
    s.append(tx_id);
    s.append("\", \"flag\": \"ADVERSARIAL_FUZZ_TARGET\"}\n");
    s
}

/// The log line for a transaction exported to the fuzz pool.
pub fn export_log(tx_id: &str) -> (s: String)
    ensures
        s@ == export_log_text(tx_id@),
{
    let mut s = String::from_str("EXPORTED TO CHANDRIAN: ");
    s.append(tx_id);
    s
}

/// The log line for an export that failed for `reason`.
pub fn export_failure_log(reason: &str) -> (s: String)
    ensures
        s@ == export_failure_log_text(reason@),
{
    let mut s = String::from_str("EXPORTED TO CHANDRIAN FAILURE: ");
    s.append(reason);
    s
}

proof fn lemma_decimal_digits(n: nat)
    ensures
        decimal_text(n).len() > 0,
        forall|i: int| 0 <= i < decimal_text(n).len() ==> is_digit(#[trigger] decimal_text(n)[i]),
        digits_value(decimal_text(n)) == n,
    decreases n,
{
    let d = decimal_text(n);
    let r = (n % 10) as int;
    assert(digit_char(r) as int == r + 48);
    if n >= 10 {
        lemma_decimal_digits(n / 10);
        assert(d.drop_last() =~= decimal_text(n / 10));
        assert(d.last() == digit_char(r));
        assert((n / 10) * 10 + r == n);
        assert(d.last() as int - 48 == r);
        assert(digits_value(d) == digits_value(d.drop_last()) * 10 + ((d.last() as int - 48) as nat));
    } else {
        assert(d.drop_last() =~= Seq::<char>::empty());
        assert(d.last() == digit_char(n as int));
        assert(d.last() as int - 48 == n);
        assert(digits_value(d) == digits_value(d.drop_last()) * 10 + ((d.last() as int - 48) as nat));
    }
}

proof fn lemma_leading_digits(d: Seq<char>, rest: Seq<char>)
    requires
        forall|i: int| 0 <= i < d.len() ==> is_digit(#[trigger] d[i]),
        rest.len() > 0,
        !is_digit(rest[0]),
    ensures
        leading_digits(d + rest) == d.len(),
    decreases d.len(),
{
    if d.len() > 0 {
        assert((d + rest).drop_first() =~= d.drop_first() + rest);
        lemma_leading_digits(d.drop_first(), rest);
    } else {
        assert(d + rest =~= rest);
    }
}

proof fn lemma_before_quote(t: Seq<char>, rest: Seq<char>)
    requires
        forall|i: int| 0 <= i < t.len() ==> #[trigger] t[i] != '"',
        rest.len() > 0,
        rest[0] == '"',
    ensures
        before_quote(t + rest) == t.len(),
    decreases t.len(),
{
    if t.len() > 0 {
        assert((t + rest).drop_first() =~= t.drop_first() + rest);
        lemma_before_quote(t.drop_first(), rest);
    } else {
        assert(t + rest =~= rest);
    }
}

/// A fuzz-pool line reads back: the timestamp is the epoch it was stamped
/// with, and the `transaction_id` string holds the transaction id unchanged,
/// provided that the id holds no `"`.
pub proof fn law_fuzz_record_reads_back(epoch: u64, tx: Seq<char>)
    requires
        forall|i: int| 0 <= i < tx.len() ==> #[trigger] tx[i] != '"',
    ensures
        read_fuzz_record(fuzz_record_text(epoch, tx)) == Some((epoch as nat, tx)),
{
    reveal_strlit("{\"timestamp\": ");
    reveal_strlit(", \"transaction_id\": \"");
    reveal_strlit("\", \"flag\": \"ADVERSARIAL_FUZZ_TARGET\"}\n");
    let head = record_head();
    let middle = record_middle();
    let tail = record_tail();
    let d = decimal_text(epoch as nat);
    let line = fuzz_record_text(epoch, tx);
    lemma_decimal_digits(epoch as nat);
    assert(line.take(head.len() as int) =~= head);
    let rest = line.skip(head.len() as int);
    assert(rest =~= d + (middle + tx + tail));
    lemma_leading_digits(d, middle + tx + tail);
    let after = rest.skip(d.len() as int);
    assert(after =~= middle + (tx + tail));
    assert(after.take(middle.len() as int) =~= middle);
    let quoted = after.skip(middle.len() as int);
    assert(quoted =~= tx + tail);
    lemma_before_quote(tx, tail);
    assert(quoted.skip(tx.len() as int) =~= tail);
    assert(quoted.take(tx.len() as int) =~= tx);
    assert(rest.take(d.len() as int) =~= d);
}

/// The decimal text of a number is made of digits, has no leading zero,
/// and reads back as the number.
pub proof fn law_decimal_reads_back(n: nat)
    ensures
        decimal_text(n).len() > 0,
        forall|i: int| 0 <= i < decimal_text(n).len() ==> is_digit(#[trigger] decimal_text(n)[i]),
        digits_value(decimal_text(n)) == n,
        decimal_text(n).len() > 1 ==> decimal_text(n)[0] != '0',
    decreases n,
{
    lemma_decimal_digits(n);
    if n >= 10 {
        law_decimal_reads_back(n / 10);
        let d = decimal_text(n);
        assert(d[0] == decimal_text(n / 10)[0]);
        let m = n / 10;
        assert(m >= 1);
        if m < 10 {
            let c = digit_char(m as int);
            assert(decimal_text(m) == seq![c]);
            assert(c as int == m + 48);
            assert(('0' as int) == 48);
            assert(c != '0');
        } else {
            lemma_decimal_digits(m / 10);
            assert(decimal_text(m).len() > 1);
        }
    }
}

} // verus!
