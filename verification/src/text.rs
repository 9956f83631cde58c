//! Text as sequences of characters: searching, trimming, ordering, and the
//! decimal form of numbers.

use vstd::prelude::*;

verus! {

/// Whether `pat` stands in `s` at position `i`.
pub open spec fn occurs_at(s: Seq<char>, pat: Seq<char>, i: int) -> bool {
    0 <= i && i + pat.len() <= s.len() && s.subrange(i, i + pat.len()) == pat
}

/// The lowest position at which `pat` stands in `s`.
pub open spec fn find(s: Seq<char>, pat: Seq<char>) -> Option<int>
    decreases s.len(),
{
    if occurs_at(s, pat, 0) {
        Some(0)
    } else if s.len() == 0 {
        None
    } else {
        match find(s.skip(1), pat) {
            Some(i) => Some(i + 1),
            None => None,
        }
    }
}

/// `find` gives a position at which the pattern stands, with none before it,
/// and fails only when there is no such position.
pub proof fn find_is_lowest(s: Seq<char>, pat: Seq<char>)
    ensures
        match find(s, pat) {
            Some(i) => occurs_at(s, pat, i) && forall|j: int| j < i ==> !occurs_at(s, pat, j),
            None => forall|j: int| !occurs_at(s, pat, j),
        },
    decreases s.len(),
{
    if !occurs_at(s, pat, 0) && s.len() > 0 {
        let t = s.skip(1);
        find_is_lowest(t, pat);
        assert forall|j: int| j >= 1 implies occurs_at(s, pat, j) == occurs_at(t, pat, j - 1) by {
            if j + pat.len() <= s.len() {
                assert(s.subrange(j, j + pat.len()) =~= t.subrange(j - 1, j - 1 + pat.len()));
            }
        }
        match find(t, pat) {
            Some(i) => {
                assert forall|j: int| j < i + 1 implies !occurs_at(s, pat, j) by {
                    if j >= 1 {
                        assert(!occurs_at(t, pat, j - 1));
                    }
                }
            },
            None => {
                assert forall|j: int| !occurs_at(s, pat, j) by {
                    if j >= 1 {
                        assert(!occurs_at(t, pat, j - 1));
                    }
                }
            },
        }
    }
}

/// A position at which the pattern stands, with none before it, is the one
/// that `find` gives.
pub proof fn lowest_is_found(s: Seq<char>, pat: Seq<char>, i: int)
    requires
        occurs_at(s, pat, i),
        forall|j: int| 0 <= j < i ==> !occurs_at(s, pat, j),
    ensures
        find(s, pat) == Some(i),
{
    find_is_lowest(s, pat);
}

/// One character, at the position that it stands in.
pub proof fn char_occurs_at(s: Seq<char>, c: char, i: int)
    ensures
        occurs_at(s, seq![c], i) <==> 0 <= i < s.len() && s[i] == c,
{
    if 0 <= i < s.len() {
        let sub = s.subrange(i, i + 1);
        assert(sub[0] == s[i]);
        if s[i] == c {
            assert(sub =~= seq![c]);
        }
        if sub == seq![c] {
            assert(seq![c][0] == c);
        }
    }
}

/// Whether `c` stands anywhere in `s` is whether `find` finds it.
pub proof fn char_found_iff_contained(s: Seq<char>, c: char)
    ensures
        find(s, seq![c]) is Some <==> s.contains(c),
        find(s, seq![c]) matches Some(i) ==> 0 <= i < s.len() && s[i] == c && !s.take(i).contains(
            c,
        ),
{
    find_is_lowest(s, seq![c]);
    assert forall|j: int| occurs_at(s, seq![c], j) <==> 0 <= j < s.len() && s[j] == c by {
        char_occurs_at(s, c, j);
    }
    if let Some(i) = find(s, seq![c]) {
        char_occurs_at(s, c, i);
        assert forall|j: int| 0 <= j < i implies s[j] != c by {
            assert(!occurs_at(s, seq![c], j));
        }
    } else if s.contains(c) {
        let j = choose|j: int| 0 <= j < s.len() && s[j] == c;
        assert(occurs_at(s, seq![c], j));
    }
}

/// The characters of `s`.
pub fn chars_of(s: &str) -> (r: Vec<char>)
    ensures
        r@ == s@,
{
    let mut out: Vec<char> = Vec::new();
    for c in it: s.chars()
        invariant
            out@ == s@.take(it.index() as int),
            it.seq() == s@,
    {
        out.push(c);
    }
    assert(s@.take(s@.len() as int) == s@);
    out
}

/// Whether two texts are the same.
pub fn same_text(a: &str, b: &str) -> (r: bool)
    ensures
        r == (a@ == b@),
{
    let x = chars_of(a);
    let y = chars_of(b);
    if x.len() != y.len() {
        return false;
    }
    for i in 0..x.len()
        invariant
            x@ == a@,
            y@ == b@,
            x.len() == y.len(),
            forall|j: int| 0 <= j < i ==> x@[j] == y@[j],
    {
        if x[i] != y[i] {
            return false;
        }
    }
    assert(x@ =~= y@);
    true
}

/// Whether `pat` stands in `s` at position `at`.
pub fn stands_at(s: &Vec<char>, pat: &[char], at: usize) -> (r: bool)
    requires
        at <= s@.len(),
    ensures
        r == occurs_at(s@, pat@, at as int),
{
    if s.len() - at < pat.len() {
        return false;
    }
    for j in 0..pat.len()
        invariant
            at + pat@.len() <= s.len(),
            forall|k: int| 0 <= k < j ==> s@[at + k] == pat@[k],
    {
        if s[at + j] != pat[j] {
            assert(s@.subrange(at as int, at + pat@.len())[j as int] != pat@[j as int]);
            return false;
        }
    }
    assert(s@.subrange(at as int, at + pat@.len()) =~= pat@);
    true
}

/// The lowest position, from `from` on, at which `pat` stands in `s`.
pub fn find_from(s: &Vec<char>, pat: &[char], from: usize) -> (r: Option<usize>)
    requires
        from <= s@.len(),
    ensures
        match r {
            Some(i) => from <= i && i + pat@.len() <= s.len() && find(
                s@.skip(from as int),
                pat@,
            ) == Some(i - from),
            None => find(s@.skip(from as int), pat@) is None,
        },
{
    let ghost tail = s@.skip(from as int);
    let mut i: usize = from;
    loop
        invariant
            from <= i <= s@.len(),
            tail == s@.skip(from as int),
            forall|j: int| 0 <= j < i - from ==> !occurs_at(tail, pat@, j),
        decreases s@.len() - i,
    {
        let here = stands_at(s, pat, i);
        proof {
            let k = i - from;
            if i + pat@.len() <= s@.len() {
                assert(s@.subrange(i as int, i + pat@.len()) =~= tail.subrange(
                    k,
                    k + pat@.len(),
                ));
            }
            assert(here == occurs_at(tail, pat@, k));
        }
        if here {
            proof {
                lowest_is_found(tail, pat@, i - from);
            }
            return Some(i);
        }
        if i == s.len() {
            proof {
                find_is_lowest(tail, pat@);
            }
            return None;
        }
        i += 1;
    }
}

/// The decimal digit of value `d`, for `d` below ten.
pub open spec fn digit_char(d: nat) -> char {
    (48 + d) as char
}

/// The decimal form of `n`, without leading zeros.
pub open spec fn decimal(n: nat) -> Seq<char>
    decreases n,
{
    if n < 10 {
        seq![digit_char(n)]
    } else {
        decimal(n / 10).push(digit_char(n % 10))
    }
}

/// One decimal digit as text.
fn digit_text(d: u64) -> (r: &'static str)
    requires
        d < 10,
    ensures
        r@ == seq![digit_char(d as nat)],
{
    proof {
        reveal_strlit("0");
        reveal_strlit("1");
        reveal_strlit("2");
        reveal_strlit("3");
        reveal_strlit("4");
        reveal_strlit("5");
        reveal_strlit("6");
        reveal_strlit("7");
        reveal_strlit("8");
        reveal_strlit("9");
    }
    match d {
        0 => "0",
        1 => "1",
        2 => "2",
        3 => "3",
        4 => "4",
        5 => "5",
        6 => "6",
        7 => "7",
        8 => "8",
        _ => "9",
    }
}

/// The decimal form of `n`.
pub fn decimal_text(n: u64) -> (r: String)
    ensures
        r@ == decimal(n as nat),
    decreases n,
{
    if n < 10 {
        digit_text(n).to_owned()
    } else {
        let mut s = decimal_text(n / 10);
        s.append(digit_text(n % 10));
        assert(s@ =~= decimal(n as nat));
        s
    }
}

/// Whether `c` is a decimal digit.
pub open spec fn is_digit(c: char) -> bool {
    '0' <= c && c <= '9'
}

/// Whether every character of `s` is a decimal digit.
pub open spec fn all_digits(s: Seq<char>) -> bool {
    forall|i: int| 0 <= i < s.len() ==> is_digit(#[trigger] s[i])
}

/// The number that a sequence of decimal digits writes; 0 for no digits.
pub open spec fn digits_value(s: Seq<char>) -> nat
    decreases s.len(),
{
    if s.len() == 0 {
        0
    } else {
        digits_value(s.drop_last()) * 10 + (s.last() as nat - 48) as nat
    }
}

/// `s` without one leading `+`.
pub open spec fn without_plus(s: Seq<char>) -> Seq<char> {
    if s.len() > 0 && s[0] == '+' {
        s.skip(1)
    } else {
        s
    }
}

/// The port number that `s` writes: an optional `+` and at least one digit,
/// with a value that fits a port.
pub open spec fn port_value(s: Seq<char>) -> Option<u16> {
    let digits = without_plus(s);
    if digits.len() > 0 && all_digits(digits) && digits_value(digits) <= u16::MAX {
        Some(digits_value(digits) as u16)
    } else {
        None
    }
}

/// The digits in front write no more than the whole does.
proof fn digits_value_grows(s: Seq<char>, i: int)
    requires
        0 <= i <= s.len(),
        all_digits(s),
    ensures
        digits_value(s.take(i)) <= digits_value(s),
    decreases s.len() - i,
{
    if i == s.len() {
        assert(s.take(i) =~= s);
    } else {
        digits_value_grows(s, i + 1);
        assert(s.take(i + 1).drop_last() =~= s.take(i));
    }
}

/// Reads a port number.
pub fn parse_port(s: &str) -> (r: Option<u16>)
    ensures
        r == port_value(s@),
{
    let cs = chars_of(s);
    let start: usize = if cs.len() > 0 && cs[0] == '+' {
        1
    } else {
        0
    };
    let ghost digits = without_plus(s@);
    assert(digits =~= cs@.skip(start as int));
    if cs.len() == start {
        return None;
    }
    let mut value: u32 = 0;
    for i in start..cs.len()
        invariant
            start <= cs@.len(),
            digits == cs@.skip(start as int),
            digits == without_plus(s@),
            forall|j: int| 0 <= j < i - start ==> is_digit(digits[j]),
            value == digits_value(digits.take(i - start)),
            value <= u16::MAX,
    {
        let c = cs[i];
        let ghost k = i - start;
        assert(digits[k] == c);
        if !('0' <= c && c <= '9') {
            assert(!all_digits(digits));
            return None;
        }
        let next: u32 = value * 10 + (c as u32 - 48);
        proof {
            assert(digits.take(k + 1).drop_last() =~= digits.take(k));
        }
        if next > 65535 {
            proof {
                if all_digits(digits) {
                    digits_value_grows(digits, k + 1);
                }
            }
            return None;
        }
        value = next;
    }
    assert(digits.take(digits.len() as int) =~= digits);
    assert(all_digits(digits));
    Some(value as u16)
}

/// Reading a port's decimal form gives the port back.
pub proof fn port_reads_back(port: u16)
    ensures
        port_value(decimal(port as nat)) == Some(port),
{
    decimal_writes_value(port as nat);
    let s = decimal(port as nat);
    assert(is_digit(s[0]));
    assert(without_plus(s) == s);
}

/// A decimal form is one or more digits that write its number.
pub proof fn decimal_writes_value(n: nat)
    ensures
        decimal(n).len() > 0,
        all_digits(decimal(n)),
        digits_value(decimal(n)) == n,
    decreases n,
{
    let s = decimal(n);
    if n < 10 {
        reveal_with_fuel(digits_value, 2);
        assert(s.drop_last() =~= Seq::<char>::empty());
        assert(s.last() == digit_char(n));
    } else {
        decimal_writes_value(n / 10);
        assert(s.drop_last() =~= decimal(n / 10));
        assert(s.last() == digit_char(n % 10));
        assert forall|i: int| 0 <= i < s.len() implies is_digit(s[i]) by {
            if i < s.len() - 1 {
                assert(s[i] == decimal(n / 10)[i]);
            }
        }
    }
}

/// Different numbers have different decimal forms.
pub proof fn decimal_is_injective(a: nat, b: nat)
    requires
        decimal(a) == decimal(b),
    ensures
        a == b,
{
    decimal_writes_value(a);
    decimal_writes_value(b);
}

/// Whether `c` has the Unicode property White_Space.
pub open spec fn is_whitespace(c: char) -> bool {
    ||| 0x9 <= c as u32 <= 0xd
    ||| c as u32 == 0x20
    ||| c as u32 == 0x85
    ||| c as u32 == 0xa0
    ||| c as u32 == 0x1680
    ||| 0x2000 <= c as u32 <= 0x200a
    ||| 0x2028 <= c as u32 <= 0x2029
    ||| c as u32 == 0x202f
    ||| c as u32 == 0x205f
    ||| c as u32 == 0x3000
}

/// Tests `is_whitespace`.
pub fn whitespace(c: char) -> (r: bool)
    ensures
        r == is_whitespace(c),
{
    let n = c as u32;
    (0x9 <= n && n <= 0xd) || n == 0x20 || n == 0x85 || n == 0xa0 || n == 0x1680 || (0x2000 <= n
        && n <= 0x200a) || (0x2028 <= n && n <= 0x2029) || n == 0x202f || n == 0x205f || n == 0x3000
}

/// `s` without whitespace in front.
pub open spec fn trim_start(s: Seq<char>) -> Seq<char>
    decreases s.len(),
{
    if s.len() > 0 && is_whitespace(s[0]) {
        trim_start(s.skip(1))
    } else {
        s
    }
}

/// `s` without whitespace behind.
pub open spec fn trim_end(s: Seq<char>) -> Seq<char>
    decreases s.len(),
{
    if s.len() > 0 && is_whitespace(s.last()) {
        trim_end(s.drop_last())
    } else {
        s
    }
}

/// `s` without whitespace in front and behind.
pub open spec fn trimmed(s: Seq<char>) -> Seq<char> {
    trim_end(trim_start(s))
}

/// Drops whitespace in front and behind.
pub fn trim(s: &str) -> (r: String)
    ensures
        r@ == trimmed(s@),
{
    let cs = chars_of(s);
    let mut from: usize = 0;
    assert(s@.skip(0) =~= s@);
    while from < cs.len() && whitespace(cs[from])
        invariant
            cs@ == s@,
            from <= cs@.len(),
            trim_start(s@.skip(from as int)) == trim_start(s@),
        decreases cs@.len() - from,
    {
        assert(s@.skip(from as int).skip(1) =~= s@.skip(from + 1));
        from += 1;
    }
    let ghost t = s@.skip(from as int);
    assert(trim_start(s@) == t);
    let mut to: usize = cs.len();
    assert(s@.subrange(from as int, to as int) =~= t);
    while to > from && whitespace(cs[to - 1])
        invariant
            cs@ == s@,
            from <= to <= cs@.len(),
            t == s@.skip(from as int),
            trim_end(s@.subrange(from as int, to as int)) == trim_end(t),
        decreases to,
    {
        assert(s@.subrange(from as int, to as int).drop_last() =~= s@.subrange(
            from as int,
            to - 1,
        ));
        to -= 1;
    }
    s.substring_char(from, to).to_owned()
}

/// Trimming a text that is trimmed changes nothing.
pub proof fn trimming_is_idempotent(s: Seq<char>)
    ensures
        trimmed(trimmed(s)) == trimmed(s),
{
    trim_start_leaves_no_space(s);
    trim_end_leaves_no_space(trim_start(s));
}

proof fn trim_start_leaves_no_space(s: Seq<char>)
    ensures
        trim_start(s).len() > 0 ==> !is_whitespace(trim_start(s)[0]),
    decreases s.len(),
{
    if s.len() > 0 && is_whitespace(s[0]) {
        trim_start_leaves_no_space(s.skip(1));
    }
}

proof fn trim_end_leaves_no_space(s: Seq<char>)
    ensures
        trim_end(s).len() > 0 ==> !is_whitespace(trim_end(s).last()) && trim_end(s)[0] == s[0],
    decreases s.len(),
{
    if s.len() > 0 && is_whitespace(s.last()) {
        trim_end_leaves_no_space(s.drop_last());
    }
}

/// Whether `a` comes before `b`, or is `b`, in the order of their characters'
/// code points, taken from the front.
pub open spec fn text_le(a: Seq<char>, b: Seq<char>) -> bool
    decreases a.len(),
{
    if a.len() == 0 {
        true
    } else if b.len() == 0 {
        false
    } else if a[0] != b[0] {
        a[0] < b[0]
    } else {
        text_le(a.skip(1), b.skip(1))
    }
}

/// Tests `text_le`.
pub fn not_after(a: &str, b: &str) -> (r: bool)
    ensures
        r == text_le(a@, b@),
{
    let x = chars_of(a);
    let y = chars_of(b);
    let mut i: usize = 0;
    assert(a@.skip(0) =~= a@);
    assert(b@.skip(0) =~= b@);
    while i < x.len() && i < y.len()
        invariant
            x@ == a@,
            y@ == b@,
            i <= x@.len(),
            i <= y@.len(),
            text_le(a@, b@) == text_le(a@.skip(i as int), b@.skip(i as int)),
        decreases x@.len() - i,
    {
        if x[i] != y[i] {
            return x[i] < y[i];
        }
        assert(a@.skip(i as int).skip(1) =~= a@.skip(i + 1));
        assert(b@.skip(i as int).skip(1) =~= b@.skip(i + 1));
        i += 1;
    }
    i == x.len()
}

/// Every text is in order with itself.
pub proof fn text_le_is_reflexive(a: Seq<char>)
    ensures
        text_le(a, a),
    decreases a.len(),
{
    if a.len() > 0 {
        text_le_is_reflexive(a.skip(1));
    }
}

/// Of two texts, one is in order before the other.
pub proof fn text_le_is_total(a: Seq<char>, b: Seq<char>)
    ensures
        text_le(a, b) || text_le(b, a),
    decreases a.len(),
{
    if a.len() > 0 && b.len() > 0 && a[0] == b[0] {
        text_le_is_total(a.skip(1), b.skip(1));
    }
}

/// Two texts that are each in order before the other are the same.
pub proof fn text_le_is_antisymmetric(a: Seq<char>, b: Seq<char>)
    requires
        text_le(a, b),
        text_le(b, a),
    ensures
        a == b,
    decreases a.len(),
{
    if a.len() > 0 && b.len() > 0 {
        text_le_is_antisymmetric(a.skip(1), b.skip(1));
        assert(a =~= seq![a[0]] + a.skip(1));
        assert(b =~= seq![b[0]] + b.skip(1));
    } else {
        assert(a =~= b);
    }
}

/// The order carries over from one text to the next.
pub proof fn text_le_is_transitive(a: Seq<char>, b: Seq<char>, c: Seq<char>)
    requires
        text_le(a, b),
        text_le(b, c),
    ensures
        text_le(a, c),
    decreases a.len(),
{
    if a.len() > 0 && b.len() > 0 && c.len() > 0 && a[0] == b[0] && b[0] == c[0] {
        text_le_is_transitive(a.skip(1), b.skip(1), c.skip(1));
    }
}

/// The lines of a text, joined by line feeds.
pub open spec fn joined(lines: Seq<Seq<char>>) -> Seq<char>
    decreases lines.len(),
{
    if lines.len() == 0 {
        Seq::empty()
    } else if lines.len() == 1 {
        lines[0]
    } else {
        joined(lines.drop_last()) + "\n"@ + lines.last()
    }
}

/// The texts of a list of strings.
pub open spec fn texts(lines: Seq<String>) -> Seq<Seq<char>> {
    lines.map_values(|line: String| line@)
}

/// Joins lines by line feeds.
pub fn join_lines(lines: &Vec<String>) -> (r: String)
    ensures
        r@ == joined(texts(lines@)),
{
    let mut out = String::new();
    let ghost all = texts(lines@);
    for i in 0..lines.len()
        invariant
            all == texts(lines@),
            out@ == joined(all.take(i as int)),
    {
        let ghost upto = all.take(i + 1);
        assert(upto.drop_last() =~= all.take(i as int));
        if i > 0 {
            out.append("\n");
        }
        out.append(lines[i].as_str());
        assert(out@ =~= joined(upto));
    }
    assert(all.take(all.len() as int) =~= all);
    out
}

/// The text of an optional string.
pub open spec fn opt_text(o: Option<String>) -> Option<Seq<char>> {
    match o {
        Some(s) => Some(s@),
        None => None,
    }
}

/// A copy of an optional string.
pub fn copy_opt(o: &Option<String>) -> (r: Option<String>)
    ensures
        opt_text(r) == opt_text(*o),
{
    match o {
        Some(s) => Some(s.as_str().to_owned()),
        None => None,
    }
}

/// A pattern stands in a text where each of its characters does.
pub proof fn pattern_stands_char_by_char(s: Seq<char>, pat: Seq<char>, i: int)
    ensures
        occurs_at(s, pat, i) <==> 0 <= i && i + pat.len() <= s.len() && forall|k: int|
            0 <= k < pat.len() ==> s[i + k] == #[trigger] pat[k],
{
    if 0 <= i && i + pat.len() <= s.len() {
        let part = s.subrange(i, i + pat.len());
        assert forall|k: int| 0 <= k < pat.len() implies part[k] == s[i + k] by {}
        if forall|k: int| 0 <= k < pat.len() ==> s[i + k] == #[trigger] pat[k] {
            assert(part =~= pat);
        }
    }
}

/// A digit behind a number makes ten times the number and the digit of it.
pub proof fn one_more_digit(s: Seq<char>, c: char)
    requires
        '0' <= c && c <= '9',
    ensures
        digits_value(Seq::empty()) == 0,
        digits_value(s.push(c)) == 10 * digits_value(s) + (c as nat - '0' as nat),
{
    assert(s.push(c).drop_last() =~= s);
}

/// A decimal form is made of digits, with no zero in front but for the one of
/// 0 itself.
pub proof fn decimal_has_no_leading_zero(n: nat)
    ensures
        decimal(n).len() > 0,
        forall|i: int|
            0 <= i < decimal(n).len() ==> '0' <= #[trigger] decimal(n)[i] && decimal(n)[i] <= '9',
        n > 0 ==> decimal(n)[0] != '0',
        n == 0 ==> decimal(n) == seq!['0'],
    decreases n,
{
    if n >= 10 {
        decimal_has_no_leading_zero(n / 10);
        let front = decimal(n / 10);
        assert forall|i: int| 0 <= i < decimal(n).len() implies '0' <= #[trigger] decimal(n)[i]
            && decimal(n)[i] <= '9' by {
            if i < front.len() {
                assert(decimal(n)[i] == front[i]);
            }
        }
    }
}

/// Digits without a zero in front are the decimal form of what they write.
pub proof fn decimal_form_is_unique(s: Seq<char>)
    requires
        s.len() > 0,
        forall|i: int| 0 <= i < s.len() ==> '0' <= #[trigger] s[i] && s[i] <= '9',
        s.len() > 1 ==> s[0] != '0',
    ensures
        decimal(digits_value(s)) == s,
    decreases s.len(),
{
    let front = s.drop_last();
    let d = (s.last() as nat - 48) as nat;
    assert('0' <= s[s.len() - 1] && s[s.len() - 1] <= '9');
    assert(digit_char(d) == s.last());
    if s.len() == 1 {
        assert(digits_value(front) == 0);
        assert(decimal(digits_value(s)) =~= s);
    } else {
        decimal_form_is_unique(front);
        let v = digits_value(front);
        assert(v > 0) by {
            if v == 0 {
                decimal_has_no_leading_zero(0);
                assert(front[0] == '0');
            }
        }
        assert(digits_value(s) == 10 * v + d);
        assert((10 * v + d) / 10 == v && (10 * v + d) % 10 == d);
        assert(decimal(digits_value(s)) =~= s);
    }
}

/// Digits are read as a port up to the last port.
pub proof fn digits_are_read_up_to_last_port(digits: Seq<char>)
    requires
        digits.len() > 0,
        forall|i: int| 0 <= i < digits.len() ==> '0' <= #[trigger] digits[i] && digits[i] <= '9',
    ensures
        port_value(digits) == (if digits_value(digits) <= 65535 {
            Some(digits_value(digits) as u16)
        } else {
            None
        }),
        port_value(seq!['+'] + digits) == port_value(digits),
{
    assert('0' <= digits[0]);
    assert((seq!['+'] + digits).skip(1) =~= digits);
}

/// A text without digits, or with a character that is neither a digit nor a
/// `+` in front, is no port.
pub proof fn other_texts_are_no_port(s: Seq<char>, i: int)
    requires
        ({
            ||| s.len() == 0
            ||| s == seq!['+']
            ||| 0 <= i < s.len() && !('0' <= s[i] && s[i] <= '9') && !(i == 0 && s[i] == '+')
        }),
    ensures
        port_value(s) is None,
{
    let digits = without_plus(s);
    if 0 <= i < s.len() && !('0' <= s[i] && s[i] <= '9') && !(i == 0 && s[i] == '+') {
        if s[0] == '+' {
            assert(digits[i - 1] == s[i]);
            assert(!is_digit(digits[i - 1]));
        } else {
            assert(!is_digit(digits[i]));
        }
    }
}

/// Trimming leaves what stands between the whitespace in front and behind.
pub proof fn trimming_drops_whitespace_around(
    front: Seq<char>,
    core: Seq<char>,
    back: Seq<char>,
)
    requires
        forall|i: int| 0 <= i < front.len() ==> is_whitespace(#[trigger] front[i]),
        forall|i: int| 0 <= i < back.len() ==> is_whitespace(#[trigger] back[i]),
        core.len() > 0,
        !is_whitespace(core[0]),
        !is_whitespace(core.last()),
    ensures
        trimmed(front + core + back) == core,
    decreases front.len() + back.len(),
{
    let s = front + core + back;
    if front.len() > 0 {
        assert(is_whitespace(front[0]));
        assert(s[0] == front[0]);
        assert(s.skip(1) =~= front.skip(1) + core + back);
        trimming_drops_whitespace_around(front.skip(1), core, back);
    } else {
        assert(s =~= core + back);
        assert(s[0] == core[0]);
        assert(trim_start(s) == s);
        if back.len() > 0 {
            assert(is_whitespace(back[back.len() - 1]));
            let t = core + back.drop_last();
            assert(s.drop_last() =~= t);
            assert(front + core + back.drop_last() =~= t);
            trimming_drops_whitespace_around(front, core, back.drop_last());
            assert(t[0] == core[0]);
            assert(trim_start(t) == t);
        } else {
            assert(s =~= core);
        }
    }
}

/// Two texts are in the order of the first characters in which they differ; a
/// text comes before those that go on where it ends.
pub proof fn order_goes_by_first_difference(common: Seq<char>, a: Seq<char>, b: Seq<char>)
    requires
        b.len() > 0,
        a.len() > 0 ==> a[0] < b[0],
    ensures
        text_le(common + a, common + b),
        !text_le(common + b, common + a),
    decreases common.len(),
{
    if common.len() == 0 {
        assert(common + a =~= a);
        assert(common + b =~= b);
    } else {
        let tail = common.skip(1);
        assert((common + a).skip(1) =~= tail + a);
        assert((common + b).skip(1) =~= tail + b);
        order_goes_by_first_difference(tail, a, b);
    }
}

/// A line is joined to those in front by one line feed.
pub proof fn one_more_line(lines: Seq<Seq<char>>, line: Seq<char>)
    ensures
        joined(Seq::empty()) == Seq::<char>::empty(),
        joined(seq![line]) == line,
        lines.len() > 0 ==> joined(lines.push(line)) == joined(lines) + "\n"@ + line,
{
    assert(lines.push(line).drop_last() =~= lines);
}

/// A line between two others stands between two line feeds.
pub proof fn line_stands_between_line_feeds(lines: Seq<Seq<char>>, i: int)
    requires
        0 < i < lines.len() - 1,
    ensures
        exists|front: Seq<char>, back: Seq<char>|
            joined(lines) == #[trigger] (front + ("\n"@ + lines[i] + "\n"@) + back),
    decreases lines.len(),
{
    let front_lines = lines.drop_last();
    let last = lines.last();
    let whole = "\n"@ + lines[i] + "\n"@;
    assert(joined(lines) == joined(front_lines) + "\n"@ + last);
    if i == lines.len() - 2 {
        let before = joined(front_lines.drop_last());
        assert(joined(front_lines) == before + "\n"@ + lines[i]);
        assert(joined(lines) =~= before + whole + last);
    } else {
        line_stands_between_line_feeds(front_lines, i);
        assert(front_lines[i] == lines[i]);
        let (front, back) = choose|front: Seq<char>, back: Seq<char>|
            joined(front_lines) == #[trigger] (front + ("\n"@ + front_lines[i] + "\n"@) + back);
        assert(joined(lines) =~= front + whole + (back + "\n"@ + last));
    }
}

/// The characters that trimming drops: the tab, the line feed and their
/// neighbours, the space, the next line, and the spaces and separators beyond
/// Latin-1.
pub proof fn whitespace_characters(c: char)
    ensures
        ({
            let n = c as u32;
            is_whitespace(c) <==> {
                ||| n == 9 || n == 10 || n == 11 || n == 12 || n == 13 || n == 32
                ||| n == 0x85 || n == 0xa0 || n == 0x1680 || n == 0x202f || n == 0x205f || n
                    == 0x3000
                ||| 0x2000 <= n <= 0x200a
                ||| n == 0x2028 || n == 0x2029
            }
        }),
{
}

/// A list of strings has as many texts, in the same order.
pub proof fn texts_are_those_of_the_strings(lines: Seq<String>, i: int)
    ensures
        texts(lines).len() == lines.len(),
        0 <= i < lines.len() ==> texts(lines)[i] == lines[i]@,
{
}

/// An optional string has a text if it is there.
pub proof fn optional_text_is_that_of_the_string(s: String)
    ensures
        opt_text(Some(s)) == Some(s@),
        opt_text(None) is None,
{
}

} // verus!
