//! Text primitives: lines, joining, ASCII case, and number rendering, each
//! described over the sequence of characters that a string holds.

use vstd::prelude::*;
use vstd::string::*;
use vstd::utf8::encode_utf8;

verus! {

/// `String::push` of the standard library appends the given character to the
/// end of the string.
pub assume_specification[ String::push ](s: &mut String, c: char)
    ensures
        final(s)@ == old(s)@.push(c),
;

/// The characters of each string in turn.
pub open spec fn texts(parts: Seq<String>) -> Seq<Seq<char>> {
    parts.map_values(|s: String| s@)
}

/// The characters of an optional string.
pub open spec fn opt_text(s: Option<String>) -> Option<Seq<char>> {
    match s {
        Some(text) => Some(text@),
        None => None,
    }
}

/// The characters of each optional string in turn.
pub open spec fn opt_texts(values: Seq<Option<String>>) -> Seq<Option<Seq<char>>> {
    values.map_values(|v: Option<String>| opt_text(v))
}

/// The number of bytes that `s` takes in UTF-8.
pub open spec fn byte_len(s: Seq<char>) -> nat {
    encode_utf8(s).len()
}

/// The position of the first line feed in `s`, or the length of `s` if it has
/// none.
pub open spec fn line_break(s: Seq<char>) -> int
    decreases s.len(),
{
    if s.len() == 0 || s[0] == '\n' {
        0
    } else {
        1 + line_break(s.drop_first())
    }
}

/// `s` without one final carriage return, if it ends in one.
pub open spec fn without_cr(s: Seq<char>) -> Seq<char> {
    if s.len() > 0 && s.last() == '\r' {
        s.drop_last()
    } else {
        s
    }
}

/// The lines of `s`: a line ends at a line feed, or at a carriage return
/// followed by a line feed, neither of which belongs to the line, and the
/// last line needs no terminator.
pub open spec fn lines_of(s: Seq<char>) -> Seq<Seq<char>>
    decreases s.len(),
{
    if s.len() == 0 {
        seq![]
    } else if line_break(s) == s.len() {
        seq![s]
    } else {
        proof {
            lemma_line_break(s);
        }
        seq![without_cr(s.take(line_break(s)))] + lines_of(s.skip(line_break(s) + 1))
    }
}

/// `parts` one after the other, with `sep` between neighbours.
pub open spec fn joined(parts: Seq<Seq<char>>, sep: Seq<char>) -> Seq<char>
    decreases parts.len(),
{
    if parts.len() == 0 {
        seq![]
    } else if parts.len() == 1 {
        parts[0]
    } else {
        joined(parts.drop_last(), sep) + sep + parts.last()
    }
}

/// The lower-case form of an ASCII letter; any other character as it is.
pub open spec fn lower_char(c: char) -> char {
    if 'A' <= c <= 'Z' {
        (c as u8 + 32) as u8 as char
    } else {
        c
    }
}

/// `s` with every ASCII letter in lower case.
pub open spec fn lowered(s: Seq<char>) -> Seq<char> {
    s.map_values(|c: char| lower_char(c))
}

pub proof fn lemma_line_break(s: Seq<char>)
    ensures
        0 <= line_break(s) <= s.len(),
        forall|i: int| 0 <= i < line_break(s) ==> s[i] != '\n',
        line_break(s) < s.len() ==> s[line_break(s)] == '\n',
    decreases s.len(),
{
    if s.len() > 0 && s[0] != '\n' {
        let rest = s.drop_first();
        lemma_line_break(rest);
        assert forall|i: int| 0 <= i < line_break(s) implies s[i] != '\n' by {
            if i > 0 {
                assert(s[i] == rest[i - 1]);
            }
        }
        if line_break(s) < s.len() {
            assert(s[line_break(s)] == rest[line_break(rest)]);
        }
    }
}

pub proof fn lemma_line_break_is(s: Seq<char>, at: int)
    requires
        0 <= at <= s.len(),
        forall|i: int| 0 <= i < at ==> s[i] != '\n',
        at < s.len() ==> s[at] == '\n',
    ensures
        line_break(s) == at,
{
    lemma_line_break(s);
    if line_break(s) < at {
        assert(s[line_break(s)] != '\n');
    }
    if at < line_break(s) {
        assert(s[at] != '\n');
    }
}

/// No line holds a line feed.
pub proof fn lemma_lines_hold_no_break(s: Seq<char>)
    ensures
        forall|i: int, j: int|
            0 <= i < lines_of(s).len() && 0 <= j < lines_of(s)[i].len() ==> #[trigger] lines_of(
                s,
            )[i][j] != '\n',
    decreases s.len(),
{
    lemma_line_break(s);
    if s.len() > 0 && line_break(s) < s.len() {
        let head = without_cr(s.take(line_break(s)));
        let rest = s.skip(line_break(s) + 1);
        lemma_lines_hold_no_break(rest);
        assert forall|i: int, j: int|
            0 <= i < lines_of(s).len() && 0 <= j < lines_of(s)[i].len() implies
            #[trigger] lines_of(s)[i][j] != '\n' by {
            if i == 0 {
                assert(lines_of(s)[0] == head);
                assert(head[j] == s[j]);
            } else {
                assert(lines_of(s)[i] == lines_of(rest)[i - 1]);
            }
        }
    }
}

/// Joining, taken apart at the front.
pub proof fn lemma_joined_front(parts: Seq<Seq<char>>, sep: Seq<char>)
    requires
        parts.len() >= 2,
    ensures
        joined(parts, sep) == parts[0] + sep + joined(parts.drop_first(), sep),
    decreases parts.len(),
{
    if parts.len() == 2 {
        assert(parts.drop_last()[0] == parts[0]);
        assert(joined(parts.drop_last(), sep) == parts[0]);
        assert(parts.drop_first()[0] == parts[1]);
        assert(joined(parts.drop_first(), sep) == parts[1]);
    } else {
        let front = parts.drop_last();
        lemma_joined_front(front, sep);
        assert(front.drop_first() =~= parts.drop_first().drop_last());
        assert(parts.drop_first().last() == parts.last());
        assert(joined(parts, sep) =~= parts[0] + sep + joined(parts.drop_first(), sep));
    }
}

/// What becomes of lines that are joined by line feeds and split again: a
/// carriage return at the end of any but the last is lost, and so is the last
/// if it is empty.
pub open spec fn resplit(parts: Seq<Seq<char>>) -> Seq<Seq<char>>
    decreases parts.len(),
{
    if parts.len() == 0 {
        seq![]
    } else if parts.len() == 1 {
        if parts[0].len() == 0 {
            seq![]
        } else {
            parts
        }
    } else {
        seq![without_cr(parts[0])] + resplit(parts.drop_first())
    }
}

/// Splitting what was joined by line feeds.
pub proof fn lemma_lines_of_joined(parts: Seq<Seq<char>>)
    requires
        forall|i: int, j: int|
            0 <= i < parts.len() && 0 <= j < parts[i].len() ==> #[trigger] parts[i][j] != '\n',
    ensures
        lines_of(joined(parts, seq!['\n'])) == resplit(parts),
    decreases parts.len(),
{
    let sep = seq!['\n'];
    let all = joined(parts, sep);
    if parts.len() == 1 {
        assert forall|j: int| 0 <= j < all.len() implies all[j] != '\n' by {
            assert(parts[0][j] != '\n');
        }
        lemma_line_break_is(all, all.len() as int);
        assert(parts =~= seq![parts[0]]);
    } else if parts.len() > 1 {
        lemma_joined_front(parts, sep);
        let rest = parts.drop_first();
        let tail = joined(rest, sep);
        let at = parts[0].len() as int;
        assert forall|j: int| 0 <= j < at implies all[j] != '\n' by {
            assert(all[j] == parts[0][j]);
        }
        assert(all[at] == '\n');
        lemma_line_break_is(all, at);
        assert(all.take(at) =~= parts[0]);
        assert(all.skip(at + 1) =~= tail);
        assert forall|i: int, j: int|
            0 <= i < rest.len() && 0 <= j < rest[i].len() implies #[trigger] rest[i][j]
            != '\n' by {
            assert(rest[i] == parts[i + 1]);
            assert(parts[i + 1][j] != '\n');
        }
        lemma_lines_of_joined(rest);
    }
}

/// Which lines are left, and as what, once they are joined and split again.
pub proof fn lemma_resplit(parts: Seq<Seq<char>>)
    ensures
        resplit(parts).len() == if parts.len() > 0 && parts.last().len() == 0 {
            parts.len() - 1
        } else {
            parts.len() as int
        },
        forall|i: int|
            0 <= i < resplit(parts).len() ==> (#[trigger] resplit(parts)[i] == parts[i]
                || resplit(parts)[i] == without_cr(parts[i])),
    decreases parts.len(),
{
    if parts.len() > 1 {
        let rest = parts.drop_first();
        lemma_resplit(rest);
        assert(rest.last() == parts.last());
        assert forall|i: int| 0 <= i < resplit(parts).len() implies (
        #[trigger] resplit(parts)[i] == parts[i] || resplit(parts)[i] == without_cr(
            parts[i],
        )) by {
            if i > 0 {
                assert(resplit(parts)[i] == resplit(rest)[i - 1]);
                assert(rest[i - 1] == parts[i]);
            }
        }
    }
}

/// A line holds no character that the text does not hold.
pub proof fn lemma_lines_come_from_the_text(s: Seq<char>, i: int, j: int)
    requires
        0 <= i < lines_of(s).len(),
        0 <= j < lines_of(s)[i].len(),
    ensures
        s.contains(lines_of(s)[i][j]),
    decreases s.len(),
{
    lemma_line_break(s);
    if line_break(s) < s.len() {
        let at = line_break(s);
        let rest = s.skip(at + 1);
        if i == 0 {
            assert(lines_of(s)[0] == without_cr(s.take(at)));
            assert(lines_of(s)[0][j] == s[j]);
        } else {
            assert(lines_of(s)[i] == lines_of(rest)[i - 1]);
            lemma_lines_come_from_the_text(rest, i - 1, j);
            let k = choose|k: int| 0 <= k < rest.len() && rest[k] == lines_of(s)[i][j];
            assert(s[at + 1 + k] == rest[k]);
        }
    } else {
        assert(lines_of(s)[i] == s);
    }
}

/// The characters of `s`.
pub fn chars_of(s: &str) -> (r: Vec<char>)
    ensures
        r@ == s@,
{
    let mut r: Vec<char> = Vec::new();
    for c in it: s.chars()
        invariant
            r@ == s@.take(it.index() as int),
            it.seq() == s@,
    {
        r.push(c);
    }
    r
}

/// The string that `chars[from..to]` spells.
pub fn text_of(chars: &Vec<char>, from: usize, to: usize) -> (r: String)
    requires
        from <= to <= chars@.len(),
    ensures
        r@ == chars@.subrange(from as int, to as int),
{
    let mut r = String::new();
    for i in from..to
        invariant
            from <= i <= to <= chars@.len(),
            r@ == chars@.subrange(from as int, i as int),
    {
        r.push(chars[i]);
        assert(r@ =~= chars@.subrange(from as int, i + 1));
    }
    r
}

/// Whether two strings hold the same characters.
pub fn same_text(a: &str, b: &str) -> (r: bool)
    ensures
        r == (a@ == b@),
{
    let left = a.to_owned();
    let right = b.to_owned();
    left == right
}

/// A copy of an optional string.
pub fn copy_opt(s: &Option<String>) -> (r: Option<String>)
    ensures
        opt_text(r) == opt_text(*s),
{
    match s {
        Some(text) => Some(text.clone()),
        None => None,
    }
}

/// The lines of `content`.
pub fn split_lines(content: &str) -> (r: Vec<String>)
    ensures
        texts(r@) == lines_of(content@),
{
    let chars = chars_of(content);
    let mut r: Vec<String> = Vec::new();
    let mut start: usize = 0;
    let mut i: usize = 0;
    assert(chars@.skip(0) =~= chars@);
    while i < chars.len()
        invariant
            chars@ == content@,
            start <= i <= chars@.len(),
            forall|j: int| start <= j < i ==> chars@[j] != '\n',
            lines_of(content@) == texts(r@) + lines_of(chars@.skip(start as int)),
        decreases chars@.len() - i,
    {
        if chars[i] == '\n' {
            let ghost tail = chars@.skip(start as int);
            let ghost at = i - start;
            let ghost before = r@;
            proof {
                assert forall|j: int| 0 <= j < at implies tail[j] != '\n' by {
                    assert(tail[j] == chars@[start + j]);
                }
                lemma_line_break_is(tail, at);
                assert(tail.take(at) =~= chars@.subrange(start as int, i as int));
                assert(tail.skip(at + 1) =~= chars@.skip(i + 1));
            }
            let mut end: usize = i;
            if start < i && chars[i - 1] == '\r' {
                end = i - 1;
            }
            let line = text_of(&chars, start, end);
            assert(line@ =~= without_cr(tail.take(at)));
            r.push(line);
            assert(texts(r@) =~= texts(before).push(line@));
            assert(texts(r@) + lines_of(chars@.skip(i + 1)) =~= texts(before) + (seq![line@]
                + lines_of(chars@.skip(i + 1))));
            start = i + 1;
        }
        i = i + 1;
    }
    let ghost tail = chars@.skip(start as int);
    if start < chars.len() {
        let ghost before = r@;
        proof {
            assert forall|j: int| 0 <= j < tail.len() implies tail[j] != '\n' by {
                assert(tail[j] == chars@[start + j]);
            }
            lemma_line_break_is(tail, tail.len() as int);
        }
        let line = text_of(&chars, start, chars.len());
        assert(line@ =~= tail);
        r.push(line);
        assert(texts(r@) =~= texts(before) + seq![line@]);
    } else {
        assert(tail =~= seq![]);
        assert(lines_of(tail) =~= seq![]);
        assert(texts(r@) =~= texts(r@) + lines_of(tail));
    }
    r
}

/// `parts[from..to]` one after the other, with `sep` between neighbours.
pub fn join_range(parts: &Vec<String>, from: usize, to: usize, sep: &str) -> (r: String)
    requires
        from <= to <= parts@.len(),
    ensures
        r@ == joined(texts(parts@).subrange(from as int, to as int), sep@),
{
    let mut r = String::new();
    let ghost all = texts(parts@);
    for i in from..to
        invariant
            from <= i <= to <= parts@.len(),
            all == texts(parts@),
            r@ == joined(all.subrange(from as int, i as int), sep@),
    {
        let ghost next = all.subrange(from as int, i + 1);
        assert(next.drop_last() =~= all.subrange(from as int, i as int));
        assert(next.last() == parts@[i as int]@);
        if i > from {
            r.append(sep);
        } else {
            assert(r@ =~= seq![]);
        }
        r.append(parts[i].as_str());
        assert(r@ =~= joined(next, sep@));
    }
    r
}

/// `s` with every ASCII letter in lower case.
pub fn ascii_lower(s: &str) -> (r: String)
    ensures
        r@ == lowered(s@),
{
    let chars = chars_of(s);
    let mut r = String::new();
    for i in 0..chars.len()
        invariant
            chars@ == s@,
            r@ == lowered(s@.take(i as int)),
    {
        let c = chars[i];
        if 'A' <= c && c <= 'Z' {
            r.push((c as u8 + 32) as char);
        } else {
            r.push(c);
        }
        assert(r@ =~= lowered(s@.take(i + 1)));
    }
    assert(s@.take(s@.len() as int) =~= s@);
    r
}

/// The digit of value `d`: `0` to `9`, then `a` to `f`.
pub open spec fn digit(d: nat) -> char {
    if d < 10 {
        (48 + d) as u8 as char
    } else {
        (87 + d) as u8 as char
    }
}

/// `n` written in the given base, without leading zeros.
pub open spec fn numeral(n: nat, base: nat) -> Seq<char>
    decreases n,
{
    if n < base || base < 2 {
        seq![digit(n)]
    } else {
        proof {
            assert(n / base < n) by (nonlinear_arith)
                requires
                    n >= base,
                    base >= 2,
            ;
        }
        numeral(n / base, base).push(digit(n % base))
    }
}

/// `i` written in decimal, with a minus sign if it is negative.
pub open spec fn decimal(i: int) -> Seq<char> {
    if i < 0 {
        seq!['-'] + numeral((-i) as nat, 10)
    } else {
        numeral(i as nat, 10)
    }
}

/// A numeral is never empty and has only digits in it.
pub proof fn lemma_numeral_digits(n: nat, base: nat)
    requires
        2 <= base <= 16,
    ensures
        numeral(n, base).len() > 0,
        forall|i: int|
            0 <= i < numeral(n, base).len() ==> '0' <= #[trigger] numeral(n, base)[i] <= 'f',
    decreases n,
{
    if n >= base {
        assert(n / base < n) by (nonlinear_arith)
            requires
                n >= base,
                base >= 2,
        ;
        lemma_numeral_digits(n / base, base);
    }
}

/// Different numbers have different numerals.
pub proof fn lemma_numeral_injective(m: nat, n: nat, base: nat)
    requires
        2 <= base <= 16,
        numeral(m, base) == numeral(n, base),
    ensures
        m == n,
    decreases m,
{
    let a = numeral(m, base);
    let b = numeral(n, base);
    lemma_numeral_digits(m, base);
    lemma_numeral_digits(n, base);
    assert(a.last() == b.last());
    if m < base {
        if n >= base {
            lemma_numeral_digits(n / base, base);
            assert(b.len() > 1);
        }
    } else if n < base {
        lemma_numeral_digits(m / base, base);
        assert(a.len() > 1);
    } else {
        assert(m / base < m) by (nonlinear_arith)
            requires
                m >= base,
                base >= 2,
        ;
        assert(a.drop_last() =~= numeral(m / base, base));
        assert(b.drop_last() =~= numeral(n / base, base));
        lemma_numeral_injective(m / base, n / base, base);
        assert(m % base == n % base);
        assert(m == base * (m / base) + m % base) by (nonlinear_arith)
            requires
                base > 0,
        ;
        assert(n == base * (n / base) + n % base) by (nonlinear_arith)
            requires
                base > 0,
        ;
    }
}

/// Different integers are written differently.
pub proof fn lemma_decimal_injective(i: int, j: int)
    requires
        decimal(i) == decimal(j),
    ensures
        i == j,
{
    let a = if i < 0 { (-i) as nat } else { i as nat };
    let b = if j < 0 { (-j) as nat } else { j as nat };
    lemma_numeral_digits(a, 10);
    lemma_numeral_digits(b, 10);
    if i < 0 {
        assert(decimal(i)[0] == '-');
        assert(decimal(i).drop_first() =~= numeral(a, 10));
    }
    if j < 0 {
        assert(decimal(j)[0] == '-');
        assert(decimal(j).drop_first() =~= numeral(b, 10));
    }
    lemma_numeral_injective(a, b, 10);
}

/// `n` written in the given base, without leading zeros.
pub fn write_numeral(n: u64, base: u64) -> (r: String)
    requires
        2 <= base <= 16,
    ensures
        r@ == numeral(n as nat, base as nat),
    decreases n,
{
    let mut r = String::new();
    if n >= base {
        assert(n / base < n) by (nonlinear_arith)
            requires
                n >= base,
                base >= 2,
        ;
        r = write_numeral(n / base, base);
    } else {
        assert(n % base == n) by (nonlinear_arith)
            requires
                n < base,
        ;
    }
    assert(n % base < base) by (nonlinear_arith)
        requires
            base > 0,
    ;
    let d: u64 = n % base;
    if d < 10 {
        r.push((48 + d as u8) as char);
    } else {
        r.push((87 + d as u8) as char);
    }
    assert(r@ =~= numeral(n as nat, base as nat));
    r
}

/// `i` written in decimal, with a minus sign if it is negative.
pub fn write_decimal(i: i32) -> (r: String)
    ensures
        r@ == decimal(i as int),
{
    if i < 0 {
        let size: u64 = (-(i as i64)) as u64;
        let digits = write_numeral(size, 10);
        let mut r = String::new();
        r.push('-');
        r.append(digits.as_str());
        assert(r@ =~= decimal(i as int));
        r
    } else {
        write_numeral(i as u64, 10)
    }
}

/// Whether `s` is a run of one or more decimal digits.
pub open spec fn is_digits(s: Seq<char>) -> bool {
    s.len() > 0 && forall|i: int| 0 <= i < s.len() ==> '0' <= #[trigger] s[i] <= '9'
}

/// The number that a run of decimal digits stands for.
pub open spec fn digits_value(s: Seq<char>) -> nat
    decreases s.len(),
{
    if s.len() == 0 {
        0
    } else {
        digits_value(s.drop_last()) * 10 + (s.last() as nat - '0' as nat) as nat
    }
}

/// The number that `s` stands for, if it is a run of decimal digits.
pub open spec fn number_of(s: Seq<char>) -> Option<nat> {
    if is_digits(s) {
        Some(digits_value(s))
    } else {
        None
    }
}

proof fn lemma_digits_value_grows(s: Seq<char>, n: int)
    requires
        0 <= n <= s.len(),
    ensures
        digits_value(s.take(n)) <= digits_value(s),
    decreases s.len() - n,
{
    if n == s.len() {
        assert(s.take(n) =~= s);
    } else {
        lemma_digits_value_grows(s, n + 1);
        assert(s.take(n + 1).drop_last() =~= s.take(n));
    }
}

/// The number that `chars[from..]` stands for, if it is a run of decimal
/// digits and the number is at most `max`.
pub fn read_number(chars: &Vec<char>, from: usize, max: u64) -> (r: Option<u64>)
    requires
        from <= chars@.len(),
    ensures
        match number_of(chars@.skip(from as int)) {
            Some(n) => if n <= max {
                r == Some(n as u64)
            } else {
                r is None
            },
            None => r is None,
        },
{
    let ghost s = chars@.skip(from as int);
    if from == chars.len() {
        return None;
    }
    let mut value: u64 = 0;
    for i in from..chars.len()
        invariant
            from <= chars@.len(),
            s == chars@.skip(from as int),
            forall|j: int| 0 <= j < i - from ==> '0' <= #[trigger] s[j] <= '9',
            value == digits_value(s.take(i - from)),
            value <= max,
    {
        let c = chars[i];
        let ghost n = i - from;
        assert(s[n] == c);
        assert(s.take(n + 1).drop_last() =~= s.take(n));
        if c < '0' || c > '9' {
            return None;
        }
        let next: u128 = value as u128 * 10 + (c as u8 - 48) as u128;
        assert(next == digits_value(s.take(n + 1)));
        if next > max as u128 {
            proof {
                lemma_digits_value_grows(s, n + 1);
            }
            return None;
        }
        value = next as u64;
    }
    assert(s.take(s.len() as int) =~= s);
    Some(value)
}

} // verus!
