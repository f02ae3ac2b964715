//! Text building blocks: decimal rendering of counters and line joining.

use vstd::prelude::*;
use vstd::string::*;

verus! {

/// The character of a decimal digit `d` (`0 <= d < 10`).
pub open spec fn digit_char(d: int) -> char {
    (d + 48) as char
}

/// Decimal rendering of a natural number, without sign or leading zeros.
pub open spec fn decimal_text(n: nat) -> Seq<char>
    decreases n,
{
    if n < 10 {
        seq![digit_char(n as int)]
    } else {
        decimal_text(n / 10) + seq![digit_char((n % 10) as int)]
    }
}

/// The texts held by a sequence of strings.
pub open spec fn texts(v: Seq<String>) -> Seq<Seq<char>> {
    v.map_values(|s: String| s@)
}

/// Lines joined by a single newline between consecutive lines.
pub open spec fn joined_lines(lines: Seq<Seq<char>>) -> Seq<char>
    decreases lines.len(),
{
    if lines.len() == 0 {
        Seq::empty()
    } else if lines.len() == 1 {
        lines[0]
    } else {
        joined_lines(lines.drop_last()) + seq!['\n'] + lines.last()
    }
}

fn digit_string(d: u64) -> (s: String)
    requires
        d < 10,
    ensures
        s@ == seq![digit_char(d as int)],
{
    match d {
        0 => {
            proof { reveal_strlit("0"); }
            String::from_str("0")
        },
        1 => {
            proof { reveal_strlit("1"); }
            String::from_str("1")
        },
        2 => {
            proof { reveal_strlit("2"); }
            String::from_str("2")
        },
        3 => {
            proof { reveal_strlit("3"); }
            String::from_str("3")
        },
        4 => {
            proof { reveal_strlit("4"); }
            String::from_str("4")
        },
        5 => {
            proof { reveal_strlit("5"); }
            String::from_str("5")
        },
        6 => {
            proof { reveal_strlit("6"); }
            String::from_str("6")
        },
        7 => {
            proof { reveal_strlit("7"); }
            String::from_str("7")
        },
        8 => {
            proof { reveal_strlit("8"); }
            String::from_str("8")
        },
        _ => {
            proof { reveal_strlit("9"); }
            String::from_str("9")
        },
    }
}

/// Renders `n` in decimal, as `format!("{}", n)` does.
pub fn decimal(n: u64) -> (s: String)
    ensures
        s@ == decimal_text(n as nat),
    decreases n,
{
    if n < 10 {
        digit_string(n)
    } else {
        let mut s = decimal(n / 10);
        let last = digit_string(n % 10);
        s.append(last.as_str());
        s
    }
}

/// Joins editor lines with `"\n"`, as `lines.join("\n")` does.
pub fn join_lines(lines: &Vec<String>) -> (s: String)
    ensures
        s@ == joined_lines(texts(lines@)),
{
    let mut s = String::new();
    let ghost all = texts(lines@);
    let n = lines.len();
    let mut i: usize = 0;
    while i < n
        invariant
            n == lines@.len(),
            all == texts(lines@),
            i <= n,
            s@ == joined_lines(all.take(i as int)),
        decreases n - i,
    {
        assert(all.take(i + 1).drop_last() =~= all.take(i as int));
        if i > 0 {
            proof { reveal_strlit("\n"); }
            s.append("\n");
        }
        s.append(lines[i].as_str());
        assert(all.take(i + 1).last() == lines@[i as int]@);
        assert(i == 0 ==> all.take(1)[0] == lines@[0]@);
        i = i + 1;
    }
    assert(all.take(n as int) =~= all);
    s
}

} // verus!
