//! What the text primitives come to: equations that hold of every text, from
//! which each of them follows.

use crate::text::{
    decimal, digit, digits_value, is_digits, joined, lemma_line_break, lemma_line_break_is, line_break, lines_of,
    lowered, number_of, numeral, without_cr,
};
use vstd::prelude::*;

verus! {

/// A text without line feeds is one line, and an empty one has none. A text
/// that starts with one, up to its first line feed, has that line first and
/// then the lines of what follows the line feed; a carriage return right
/// before the line feed is not part of the line.
pub proof fn law_lines_end_at_line_feeds(line: Seq<char>, rest: Seq<char>)
    requires
        !line.contains('\n'),
    ensures
        line.len() == 0 ==> lines_of(line) == Seq::<Seq<char>>::empty(),
        line.len() > 0 ==> lines_of(line) == seq![line],
        line.len() == 0 || line.last() != '\r' ==> lines_of(line + seq!['\n'] + rest)
            == seq![line] + lines_of(rest),
        lines_of(line + seq!['\r', '\n'] + rest) == seq![line] + lines_of(rest),
{
    let n = line.len() as int;
    lemma_line_break(line);
    if line.len() > 0 && line_break(line) < line.len() {
        assert(line.contains(line[line_break(line)]));
    }
    let a = line + seq!['\n'] + rest;
    assert forall|i: int| 0 <= i < line.len() implies a[i] != '\n' by {
        assert(line.contains(line[i]));
    }
    lemma_line_break_is(a, n);
    assert(a.take(n) =~= line);
    assert(a.skip(n + 1) =~= rest);
    let b = line + seq!['\r', '\n'] + rest;
    assert forall|i: int| 0 <= i < line.len() + 1 implies b[i] != '\n' by {
        if i < line.len() {
            assert(line.contains(line[i]));
        }
    }
    lemma_line_break_is(b, n + 1);
    assert(b.take(n + 1) =~= line.push('\r'));
    assert(without_cr(line.push('\r')) =~= line);
    assert(b.skip(n + 2) =~= rest);
}

/// Joining nothing gives nothing, joining one part gives that part, and one
/// more part comes behind the separator.
pub proof fn law_parts_are_joined_in_order(
    parts: Seq<Seq<char>>,
    part: Seq<char>,
    sep: Seq<char>,
)
    ensures
        joined(seq![], sep) == Seq::<char>::empty(),
        joined(seq![part], sep) == part,
        parts.len() > 0 ==> joined(parts.push(part), sep) == joined(parts, sep) + sep + part,
{
    assert(parts.push(part).drop_last() =~= parts);
}

/// Lower case changes the ASCII letters, each on its own, and nothing else.
pub proof fn law_lower_case_changes_ascii_letters(s: Seq<char>, i: int)
    requires
        0 <= i < s.len(),
    ensures
        lowered(s).len() == s.len(),
        'A' <= s[i] <= 'Z' ==> lowered(s)[i] as int == s[i] as int + 32,
        !('A' <= s[i] <= 'Z') ==> lowered(s)[i] == s[i],
{
}

/// The value of a digit: `0` to `9`, then `a` to `f`.
pub open spec fn value_of_digit(c: char) -> int {
    if '0' <= c <= '9' {
        c as int - '0' as int
    } else if 'a' <= c <= 'f' {
        c as int - 'a' as int + 10
    } else {
        -1
    }
}

/// The value of a run of digits, the last of them counting once and each other
/// one `base` times as much as the one behind it.
pub open spec fn positional(s: Seq<char>, base: int) -> int
    decreases s.len(),
{
    if s.len() == 0 {
        0
    } else {
        positional(s.drop_last(), base) * base + value_of_digit(s.last())
    }
}

/// A numeral stands for its number: it has digits of its base alone, they come
/// to the number, and it has no needless zero in front.
pub proof fn law_numerals_stand_for_their_number(n: nat, base: nat)
    requires
        2 <= base <= 16,
    ensures
        positional(numeral(n, base), base as int) == n,
        forall|i: int|
            0 <= i < numeral(n, base).len() ==> 0 <= value_of_digit(
                #[trigger] numeral(n, base)[i],
            ) < base,
        numeral(n, base).len() > 0,
        numeral(n, base).len() > 1 ==> numeral(n, base)[0] != '0',
    decreases n,
{
    let s = numeral(n, base);
    if n < base {
        assert(s == seq![digit(n)]);
        assert(value_of_digit(digit(n)) == n);
        assert(s.drop_last() =~= seq![]);
        assert(positional(s.drop_last(), base as int) == 0);
        assert(0 * base == 0) by (nonlinear_arith);
    } else {
        let q = n / base;
        assert(q < n && q * base + n % base == n && q > 0) by (nonlinear_arith)
            requires
                n >= base,
                base >= 2,
                q == n / base,
        ;
        assert(0 <= n % base < base) by (nonlinear_arith)
            requires
                base >= 2,
        ;
        law_numerals_stand_for_their_number(q, base);
        let front = numeral(q, base);
        assert(s == front.push(digit(n % base)));
        assert(s.drop_last() =~= front);
        assert(value_of_digit(digit(n % base)) == n % base);
        assert forall|i: int| 0 <= i < s.len() implies 0 <= value_of_digit(#[trigger] s[i])
            < base by {
            if i < front.len() {
                assert(s[i] == front[i]);
            }
        }
        if front.len() == 1 {
            assert(front[0] != '0') by {
                if front[0] == '0' {
                    assert(front =~= seq!['0']);
                    assert(front.drop_last() =~= seq![]);
                    assert(positional(front.drop_last(), base as int) == 0);
                    assert(0 * base == 0) by (nonlinear_arith);
                    assert(positional(front, base as int) == 0);
                }
            }
        }
        assert(s[0] == front[0]);
    }
}

/// An integer in decimal is its numeral, behind a minus sign where it is
/// negative.
pub proof fn law_decimals_carry_their_sign(i: int)
    ensures
        i >= 0 ==> positional(decimal(i), 10) == i && decimal(i)[0] != '-',
        i < 0 ==> decimal(i)[0] == '-' && positional(decimal(i).skip(1), 10) == -i,
{
    let n = if i < 0 {
        (-i) as nat
    } else {
        i as nat
    };
    law_numerals_stand_for_their_number(n, 10);
    if i < 0 {
        assert(decimal(i).skip(1) =~= numeral(n, 10));
    } else {
        assert(0 <= value_of_digit(numeral(n, 10)[0]));
    }
}

/// A text is read as a number exactly if it is a run of decimal digits, and
/// then as what they come to.
pub proof fn law_digits_are_read_as_their_number(s: Seq<char>)
    ensures
        number_of(s) is Some <==> s.len() > 0 && forall|i: int|
            0 <= i < s.len() ==> '0' <= #[trigger] s[i] <= '9',
        number_of(s) matches Some(n) ==> n == positional(s, 10),
{
    if is_digits(s) {
        lemma_digits(s);
    }
}

proof fn lemma_digits(s: Seq<char>)
    requires
        forall|i: int| 0 <= i < s.len() ==> '0' <= #[trigger] s[i] <= '9',
    ensures
        digits_value(s) == positional(s, 10),
    decreases s.len(),
{
    if s.len() > 0 {
        lemma_digits(s.drop_last());
        assert('0' <= s[s.len() - 1] <= '9');
    }
}

/// Writing a number and reading it back gives the number.
pub proof fn law_numerals_are_read_back(n: nat)
    ensures
        number_of(numeral(n, 10)) == Some(n),
{
    law_numerals_stand_for_their_number(n, 10);
    let s = numeral(n, 10);
    assert forall|i: int| 0 <= i < s.len() implies '0' <= #[trigger] s[i] <= '9' by {
        assert(0 <= value_of_digit(s[i]) < 10);
    }
    law_digits_are_read_as_their_number(s);
}

} // verus!
