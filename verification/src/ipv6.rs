//! The text form of an IPv6 address.

use vstd::prelude::*;

use crate::text;
use crate::text::{chars_of, find_from};

verus! {

/// A hexadecimal digit.
pub open spec fn is_hex_digit(c: char) -> bool {
    ||| '0' <= c && c <= '9'
    ||| 'a' <= c && c <= 'f'
    ||| 'A' <= c && c <= 'F'
}

/// Whether `s` is a group of an address: one to four hexadecimal digits.
pub open spec fn is_group(s: Seq<char>) -> bool {
    1 <= s.len() <= 4 && forall|i: int| 0 <= i < s.len() ==> is_hex_digit(#[trigger] s[i])
}

/// Whether `s` is a number of a dotted tail: up to 255, without leading zeros.
pub open spec fn is_octet(s: Seq<char>) -> bool {
    1 <= s.len() <= 3 && text::all_digits(s) && text::digits_value(s) <= 255 && (s.len() > 1
        ==> s[0] != '0')
}

/// `n` more than a count, if there is one.
pub open spec fn more(n: nat, count: Option<nat>) -> Option<nat> {
    match count {
        Some(m) => Some(n + m),
        None => None,
    }
}

/// How many numbers a dotted tail has; `None` where one of them is none.
pub open spec fn octet_count(s: Seq<char>) -> Option<nat>
    decreases s.len(),
{
    match text::find(s, seq!['.']) {
        None => if is_octet(s) {
            Some(1)
        } else {
            None
        },
        Some(i) => {
            proof {
                text::find_is_lowest(s, seq!['.']);
            }
            if is_octet(s.take(i)) {
                more(1, octet_count(s.skip(i + 1)))
            } else {
                None
            }
        },
    }
}

/// How many groups `s` writes, separated by `:`; `None` where one of them is
/// none. With `dotted`, four dotted numbers may stand for the last two groups.
pub open spec fn group_count(s: Seq<char>, dotted: bool) -> Option<nat>
    decreases s.len(),
{
    match text::find(s, seq![':']) {
        None => if is_group(s) {
            Some(1)
        } else if dotted && octet_count(s) == Some(4nat) {
            Some(2)
        } else {
            None
        },
        Some(i) => {
            proof {
                text::find_is_lowest(s, seq![':']);
            }
            if is_group(s.take(i)) {
                more(1, group_count(s.skip(i + 1), dotted))
            } else {
                None
            }
        },
    }
}

/// How many groups stand on one side of `::`, where there may be none.
pub open spec fn side_count(s: Seq<char>, dotted: bool) -> Option<nat> {
    if s.len() == 0 {
        Some(0)
    } else {
        group_count(s, dotted)
    }
}

/// Whether `s` is an IPv6 address: eight groups, or fewer around one `::`,
/// which stands for the others.
pub open spec fn is_ipv6_address(s: Seq<char>) -> bool {
    match text::find(s, seq![':', ':']) {
        None => group_count(s, true) == Some(8nat),
        Some(i) => match (side_count(s.take(i), false), side_count(s.skip(i + 2), true)) {
            (Some(a), Some(b)) => a + b <= 7,
            _ => false,
        },
    }
}

fn hex_digit(c: char) -> (r: bool)
    ensures
        r == is_hex_digit(c),
{
    ('0' <= c && c <= '9') || ('a' <= c && c <= 'f') || ('A' <= c && c <= 'F')
}

/// Tests `is_group` on the part of `s` from `from` to `to`.
fn group(s: &Vec<char>, from: usize, to: usize) -> (r: bool)
    requires
        from <= to <= s@.len(),
    ensures
        r == is_group(s@.subrange(from as int, to as int)),
{
    let ghost part = s@.subrange(from as int, to as int);
    if from == to || to - from > 4 {
        return false;
    }
    for i in from..to
        invariant
            from <= to <= s@.len(),
            part == s@.subrange(from as int, to as int),
            forall|j: int| 0 <= j < i - from ==> is_hex_digit(#[trigger] part[j]),
    {
        if !hex_digit(s[i]) {
            assert(!is_hex_digit(part[i - from]));
            return false;
        }
    }
    true
}

/// Tests `is_octet` on the part of `s` from `from` to `to`.
fn octet(s: &Vec<char>, from: usize, to: usize) -> (r: bool)
    requires
        from <= to <= s@.len(),
    ensures
        r == is_octet(s@.subrange(from as int, to as int)),
{
    let ghost part = s@.subrange(from as int, to as int);
    if from == to || to - from > 3 {
        return false;
    }
    let mut value: u32 = 0;
    let mut bound: u32 = 1;
    for i in from..to
        invariant
            from <= to <= s@.len(),
            to - from <= 3,
            part == s@.subrange(from as int, to as int),
            forall|j: int| 0 <= j < i - from ==> text::is_digit(#[trigger] part[j]),
            value == text::digits_value(part.take(i - from)),
            value < bound,
            i == from ==> bound == 1,
            i == from + 1 ==> bound == 10,
            i == from + 2 ==> bound == 100,
            i == from + 3 ==> bound == 1000,
    {
        let c = s[i];
        let ghost k = i - from;
        assert(part[k] == c);
        if !('0' <= c && c <= '9') {
            assert(!text::is_digit(part[k]));
            return false;
        }
        assert(part.take(k + 1).drop_last() =~= part.take(k));
        value = value * 10 + (c as u32 - 48);
        bound = bound * 10;
    }
    assert(part.take(part.len() as int) =~= part);
    assert(part[0] == s@[from as int]);
    value <= 255 && (to - from == 1 || s[from] != '0')
}

/// Tests whether four dotted numbers stand in `s`, from `from` on.
fn dotted_tail(s: &Vec<char>, from: usize) -> (r: bool)
    requires
        from <= s@.len(),
    ensures
        r == (octet_count(s@.skip(from as int)) == Some(4nat)),
{
    let dot: [char; 1] = ['.'];
    assert(dot@ =~= seq!['.']);
    let ghost whole = s@.skip(from as int);
    let mut at: usize = from;
    let mut n: usize = 0;
    loop
        invariant
            dot@ == seq!['.'],
            from <= at <= s.len(),
            2 * n <= at - from,
            whole == s@.skip(from as int),
            octet_count(whole) == more(n as nat, octet_count(s@.skip(at as int))),
        decreases s@.len() - at,
    {
        let ghost left = s@.skip(at as int);
        match find_from(s, &dot, at) {
            Some(i) => {
                assert(left.take(i - at) =~= s@.subrange(at as int, i as int));
                if !octet(s, at, i) {
                    return false;
                }
                assert(left.skip(i - at + 1) =~= s@.skip(i + 1));
                n = n + 1;
                at = i + 1;
            },
            None => {
                assert(left =~= s@.subrange(at as int, s@.len() as int));
                return octet(s, at, s.len()) && n == 3;
            },
        }
    }
}

/// Counts the groups of `s`.
fn count_groups(s: &Vec<char>, dotted: bool) -> (r: Option<usize>)
    ensures
        match r {
            Some(n) => group_count(s@, dotted) == Some(n as nat),
            None => group_count(s@, dotted) is None,
        },
{
    let colon: [char; 1] = [':'];
    assert(colon@ =~= seq![':']);
    let mut at: usize = 0;
    let mut n: usize = 0;
    assert(s@.skip(0) =~= s@);
    loop
        invariant
            colon@ == seq![':'],
            at <= s.len(),
            2 * n <= at,
            group_count(s@, dotted) == more(n as nat, group_count(s@.skip(at as int), dotted)),
        decreases s@.len() - at,
    {
        let ghost left = s@.skip(at as int);
        match find_from(s, &colon, at) {
            Some(i) => {
                assert(left.take(i - at) =~= s@.subrange(at as int, i as int));
                if !group(s, at, i) {
                    return None;
                }
                assert(left.skip(i - at + 1) =~= s@.skip(i + 1));
                n = n + 1;
                at = i + 1;
            },
            None => {
                assert(left =~= s@.subrange(at as int, s@.len() as int));
                if group(s, at, s.len()) {
                    return Some(n + 1);
                }
                if dotted && dotted_tail(s, at) {
                    return Some(n + 2);
                }
                return None;
            },
        }
    }
}

/// Counts the groups on one side of `::`.
fn count_side(s: &Vec<char>, dotted: bool) -> (r: Option<usize>)
    ensures
        match r {
            Some(n) => side_count(s@, dotted) == Some(n as nat),
            None => side_count(s@, dotted) is None,
        },
{
    if s.len() == 0 {
        Some(0)
    } else {
        count_groups(s, dotted)
    }
}

/// Whether a text is an IPv6 address, without brackets around it.
pub fn ipv6_address(address: &str) -> (r: bool)
    ensures
        r == is_ipv6_address(address@),
{
    let s = chars_of(address);
    let gap: [char; 2] = [':', ':'];
    assert(gap@ =~= seq![':', ':']);
    assert(s@.skip(0) =~= s@);
    match find_from(&s, &gap, 0) {
        None => count_groups(&s, true) == Some(8usize),
        Some(i) => {
            let front = chars_of(address.substring_char(0, i));
            let back = chars_of(address.substring_char(i + 2, s.len()));
            assert(front@ =~= s@.take(i as int));
            assert(back@ =~= s@.skip(i + 2));
            match (count_side(&front, false), count_side(&back, true)) {
                (Some(a), Some(b)) => a <= 7 && b <= 7 - a,
                _ => false,
            }
        },
    }
}

/// Whether `c` may stand in an IPv6 address.
pub open spec fn is_ipv6_char(c: char) -> bool {
    is_hex_digit(c) || c == ':' || c == '.'
}

/// Whether every character of `s` may stand in an IPv6 address.
pub open spec fn all_ipv6_chars(s: Seq<char>) -> bool {
    forall|i: int| 0 <= i < s.len() ==> is_ipv6_char(#[trigger] s[i])
}

proof fn octets_have_ipv6_chars(s: Seq<char>)
    requires
        octet_count(s) is Some,
    ensures
        all_ipv6_chars(s),
    decreases s.len(),
{
    text::char_found_iff_contained(s, '.');
    match text::find(s, seq!['.']) {
        None => {
            assert forall|j: int| 0 <= j < s.len() implies is_ipv6_char(#[trigger] s[j]) by {
                assert(text::is_digit(s[j]));
            }
        },
        Some(i) => {
            octets_have_ipv6_chars(s.skip(i + 1));
            assert forall|j: int| 0 <= j < s.len() implies is_ipv6_char(#[trigger] s[j]) by {
                if j < i {
                    assert(text::is_digit(s.take(i)[j]));
                } else if j > i {
                    assert(is_ipv6_char(s.skip(i + 1)[j - i - 1]));
                }
            }
        },
    }
}

proof fn groups_have_ipv6_chars(s: Seq<char>, dotted: bool)
    requires
        group_count(s, dotted) is Some,
    ensures
        all_ipv6_chars(s),
    decreases s.len(),
{
    text::char_found_iff_contained(s, ':');
    match text::find(s, seq![':']) {
        None => {
            if is_group(s) {
                assert forall|j: int| 0 <= j < s.len() implies is_ipv6_char(#[trigger] s[j]) by {
                    assert(is_hex_digit(s[j]));
                }
            } else {
                octets_have_ipv6_chars(s);
            }
        },
        Some(i) => {
            groups_have_ipv6_chars(s.skip(i + 1), dotted);
            assert forall|j: int| 0 <= j < s.len() implies is_ipv6_char(#[trigger] s[j]) by {
                if j < i {
                    assert(is_hex_digit(s.take(i)[j]));
                } else if j > i {
                    assert(is_ipv6_char(s.skip(i + 1)[j - i - 1]));
                }
            }
        },
    }
}

/// An IPv6 address is made of hexadecimal digits, `:` and `.`.
pub proof fn address_has_ipv6_chars(s: Seq<char>)
    requires
        is_ipv6_address(s),
    ensures
        all_ipv6_chars(s),
{
    let gap = seq![':', ':'];
    text::find_is_lowest(s, gap);
    match text::find(s, gap) {
        None => {
            groups_have_ipv6_chars(s, true);
        },
        Some(i) => {
            let front = s.take(i);
            let back = s.skip(i + 2);
            if front.len() > 0 {
                groups_have_ipv6_chars(front, false);
            }
            if back.len() > 0 {
                groups_have_ipv6_chars(back, true);
            }
            assert forall|j: int| 0 <= j < s.len() implies is_ipv6_char(#[trigger] s[j]) by {
                if j < i {
                    assert(is_ipv6_char(front[j]));
                } else if j >= i + 2 {
                    assert(is_ipv6_char(back[j - i - 2]));
                } else {
                    assert(s.subrange(i, i + 2)[j - i] == s[j]);
                    assert(gap[j - i] == ':');
                }
            }
        },
    }
}

/// An IPv6 address holds a `:`.
pub proof fn address_holds_a_colon(s: Seq<char>)
    requires
        is_ipv6_address(s),
    ensures
        s.contains(':'),
{
    let gap = seq![':', ':'];
    text::find_is_lowest(s, gap);
    text::char_found_iff_contained(s, ':');
    if let Some(i) = text::find(s, gap) {
        assert(s.subrange(i, i + 2)[0] == s[i]);
        assert(gap[0] == ':');
        assert(s[i] == ':');
    }
}

/// `parts` with `sep` between each two of them.
pub open spec fn separated(parts: Seq<Seq<char>>, sep: char) -> Seq<char>
    decreases parts.len(),
{
    if parts.len() == 0 {
        Seq::empty()
    } else if parts.len() == 1 {
        parts[0]
    } else {
        parts[0] + seq![sep] + separated(parts.skip(1), sep)
    }
}

/// The first separator stands behind the first part.
proof fn first_separator(part: Seq<char>, sep: char, rest: Seq<char>)
    requires
        !part.contains(sep),
    ensures
        text::find(part + seq![sep] + rest, seq![sep]) == Some(part.len() as int),
        (part + seq![sep] + rest).take(part.len() as int) == part,
        (part + seq![sep] + rest).skip(part.len() as int + 1) == rest,
{
    let s = part + seq![sep] + rest;
    let n = part.len() as int;
    text::char_occurs_at(s, sep, n);
    assert forall|j: int| 0 <= j < n implies !text::occurs_at(s, seq![sep], j) by {
        text::char_occurs_at(s, sep, j);
        assert(s[j] == part[j]);
    }
    text::lowest_is_found(s, seq![sep], n);
    assert(s.take(n) =~= part);
    assert(s.skip(n + 1) =~= rest);
}

proof fn group_holds_no_separator(g: Seq<char>)
    requires
        is_group(g),
    ensures
        !g.contains(':'),
        !g.contains('.'),
{
    assert forall|i: int| 0 <= i < g.len() implies g[i] != ':' && g[i] != '.' by {
        assert(is_hex_digit(g[i]));
    }
}

/// Groups, and a last part with its own count, count together.
proof fn separated_groups_count(groups: Seq<Seq<char>>, last: Seq<char>, dotted: bool)
    requires
        forall|i: int| 0 <= i < groups.len() ==> is_group(#[trigger] groups[i]),
    ensures
        group_count(separated(groups.push(last), ':'), dotted) == more(
            groups.len(),
            group_count(last, dotted),
        ),
    decreases groups.len(),
{
    let all = groups.push(last);
    if groups.len() == 0 {
        assert(all[0] == last);
    } else {
        let rest = groups.skip(1);
        assert(is_group(groups[0]));
        assert(all[0] == groups[0]);
        assert(all.skip(1) =~= rest.push(last));
        assert forall|i: int| 0 <= i < rest.len() implies is_group(#[trigger] rest[i]) by {
            assert(rest[i] == groups[i + 1]);
        }
        separated_groups_count(rest, last, dotted);
        group_holds_no_separator(groups[0]);
        first_separator(groups[0], ':', separated(rest.push(last), ':'));
    }
}

/// Parts that are not empty and hold no `:` make a text with no `:` at either
/// end and no two of them together.
proof fn separated_parts_have_no_gap(parts: Seq<Seq<char>>)
    requires
        parts.len() > 0,
        forall|i: int|
            0 <= i < parts.len() ==> (#[trigger] parts[i]).len() > 0 && !parts[i].contains(':'),
    ensures
        ({
            let s = separated(parts, ':');
            &&& s.len() > 0
            &&& s[0] != ':'
            &&& s.last() != ':'
            &&& forall|j: int| !text::occurs_at(s, seq![':', ':'], j)
        }),
    decreases parts.len(),
{
    let s = separated(parts, ':');
    let first = parts[0];
    let gap = seq![':', ':'];
    assert(first.len() > 0 && !first.contains(':'));
    assert(forall|j: int| 0 <= j < first.len() ==> first[j] != ':');
    let rest = separated(parts.skip(1), ':');
    if parts.len() > 1 {
        let tail = parts.skip(1);
        assert forall|i: int| 0 <= i < tail.len() implies (#[trigger] tail[i]).len() > 0
            && !tail[i].contains(':') by {
            assert(tail[i] == parts[i + 1]);
        }
        separated_parts_have_no_gap(tail);
        assert(s =~= first + seq![':'] + rest);
    }
    assert forall|j: int| !text::occurs_at(s, gap, j) by {
        if text::occurs_at(s, gap, j) {
            let here = s.subrange(j, j + 2);
            assert(here[0] == s[j] && here[1] == s[j + 1]);
            assert(gap[0] == ':' && gap[1] == ':');
            let n = first.len() as int;
            if j < n {
                assert(s[j] == first[j]);
            } else if j == n {
                assert(s[j + 1] == rest[0]);
            } else {
                let k = j - n - 1;
                assert(rest.subrange(k, k + 2) =~= here);
                assert(!text::occurs_at(rest, gap, k));
            }
        }
    }
}

/// `::` between two texts that have no gap is where the gap is found.
proof fn gap_is_found_between(front: Seq<char>, back: Seq<char>)
    requires
        front.len() > 0 ==> front.last() != ':',
        forall|j: int| !text::occurs_at(front, seq![':', ':'], j),
    ensures
        text::find(front + seq![':', ':'] + back, seq![':', ':']) == Some(front.len() as int),
        (front + seq![':', ':'] + back).take(front.len() as int) == front,
        (front + seq![':', ':'] + back).skip(front.len() as int + 2) == back,
{
    let gap = seq![':', ':'];
    let s = front + gap + back;
    let n = front.len() as int;
    assert(s.subrange(n, n + 2) =~= gap);
    assert forall|j: int| 0 <= j < n implies !text::occurs_at(s, gap, j) by {
        if text::occurs_at(s, gap, j) {
            let here = s.subrange(j, j + 2);
            assert(here[0] == s[j]);
            if j + 2 <= n {
                assert(front.subrange(j, j + 2) =~= here);
                assert(!text::occurs_at(front, gap, j));
            } else {
                assert(s[j] == front.last());
            }
        }
    }
    text::lowest_is_found(s, gap, n);
    assert(s.take(n) =~= front);
    assert(s.skip(n + 2) =~= back);
}

proof fn hex_parts_are_groups(parts: Seq<Seq<char>>)
    requires
        forall|i: int| 0 <= i < parts.len() ==> 1 <= (#[trigger] parts[i]).len() <= 4,
        forall|i: int, j: int|
            0 <= i < parts.len() && 0 <= j < parts[i].len() ==> ('0' <= #[trigger] parts[i][j]
                && parts[i][j] <= '9') || ('a' <= parts[i][j] && parts[i][j] <= 'f') || ('A'
                <= parts[i][j] && parts[i][j] <= 'F'),
    ensures
        forall|i: int| 0 <= i < parts.len() ==> is_group(#[trigger] parts[i]),
        forall|i: int|
            0 <= i < parts.len() ==> (#[trigger] parts[i]).len() > 0 && !parts[i].contains(':'),
{
    assert forall|i: int| 0 <= i < parts.len() implies is_group(#[trigger] parts[i])
        && !parts[i].contains(':') by {
        assert(1 <= parts[i].len() <= 4);
        assert forall|j: int| 0 <= j < parts[i].len() implies is_hex_digit(
            #[trigger] parts[i][j],
        ) by {}
        group_holds_no_separator(parts[i]);
    }
}

/// Groups alone count as many as they are.
proof fn plain_groups_count(groups: Seq<Seq<char>>, dotted: bool)
    requires
        groups.len() > 0,
        forall|i: int| 0 <= i < groups.len() ==> is_group(#[trigger] groups[i]),
    ensures
        group_count(separated(groups, ':'), dotted) == Some(groups.len()),
{
    let front = groups.drop_last();
    let last = groups.last();
    assert(groups =~= front.push(last));
    assert(is_group(groups[groups.len() - 1]));
    assert forall|i: int| 0 <= i < front.len() implies is_group(#[trigger] front[i]) by {
        assert(front[i] == groups[i]);
    }
    separated_groups_count(front, last, dotted);
    group_holds_no_separator(last);
    text::char_found_iff_contained(last, ':');
}

/// Eight groups of one to four hexadecimal digits, with `:` between them, are
/// an address.
pub proof fn eight_groups_are_an_address(groups: Seq<Seq<char>>)
    requires
        groups.len() == 8,
        forall|i: int| 0 <= i < groups.len() ==> 1 <= (#[trigger] groups[i]).len() <= 4,
        forall|i: int, j: int|
            0 <= i < groups.len() && 0 <= j < groups[i].len() ==> ('0' <= #[trigger] groups[i][j]
                && groups[i][j] <= '9') || ('a' <= groups[i][j] && groups[i][j] <= 'f') || ('A'
                <= groups[i][j] && groups[i][j] <= 'F'),
    ensures
        is_ipv6_address(separated(groups, ':')),
{
    hex_parts_are_groups(groups);
    plain_groups_count(groups, true);
    separated_parts_have_no_gap(groups);
    text::find_is_lowest(separated(groups, ':'), seq![':', ':']);
}

/// Up to seven groups around one `::`, any number of them on either side, are
/// an address.
pub proof fn groups_around_a_gap_are_an_address(front: Seq<Seq<char>>, back: Seq<Seq<char>>)
    requires
        front.len() + back.len() <= 7,
        forall|i: int| 0 <= i < front.len() ==> 1 <= (#[trigger] front[i]).len() <= 4,
        forall|i: int, j: int|
            0 <= i < front.len() && 0 <= j < front[i].len() ==> ('0' <= #[trigger] front[i][j]
                && front[i][j] <= '9') || ('a' <= front[i][j] && front[i][j] <= 'f') || ('A'
                <= front[i][j] && front[i][j] <= 'F'),
        forall|i: int| 0 <= i < back.len() ==> 1 <= (#[trigger] back[i]).len() <= 4,
        forall|i: int, j: int|
            0 <= i < back.len() && 0 <= j < back[i].len() ==> ('0' <= #[trigger] back[i][j]
                && back[i][j] <= '9') || ('a' <= back[i][j] && back[i][j] <= 'f') || ('A'
                <= back[i][j] && back[i][j] <= 'F'),
    ensures
        is_ipv6_address(separated(front, ':') + seq![':', ':'] + separated(back, ':')),
{
    hex_parts_are_groups(front);
    hex_parts_are_groups(back);
    let a = separated(front, ':');
    let b = separated(back, ':');
    if front.len() > 0 {
        plain_groups_count(front, false);
        separated_parts_have_no_gap(front);
    }
    if back.len() > 0 {
        plain_groups_count(back, true);
        separated_parts_have_no_gap(back);
    }
    gap_is_found_between(a, b);
}

proof fn decimal_of_byte_is_octet(n: u8)
    ensures
        is_octet(text::decimal(n as nat)),
        !text::decimal(n as nat).contains('.'),
        !text::decimal(n as nat).contains(':'),
{
    let s = text::decimal(n as nat);
    reveal_with_fuel(text::decimal, 3);
    text::decimal_writes_value(n as nat);
    text::decimal_has_no_leading_zero(n as nat);
    assert(s.len() <= 3);
    assert forall|i: int| 0 <= i < s.len() implies s[i] != '.' && s[i] != ':' by {
        assert(text::is_digit(s[i]));
    }
}

/// Four numbers up to 255 with dots between them, as the last two groups of an
/// address are written.
pub open spec fn dotted(a: u8, b: u8, c: u8, d: u8) -> Seq<char> {
    separated(
        seq![
            text::decimal(a as nat),
            text::decimal(b as nat),
            text::decimal(c as nat),
            text::decimal(d as nat),
        ],
        '.',
    )
}

proof fn dotted_counts_two_groups(a: u8, b: u8, c: u8, d: u8)
    ensures
        group_count(dotted(a, b, c, d), true) == Some(2nat),
        dotted(a, b, c, d).len() > 0,
        !dotted(a, b, c, d).contains(':'),
{
    let (p, q, r, s) = (
        text::decimal(a as nat),
        text::decimal(b as nat),
        text::decimal(c as nat),
        text::decimal(d as nat),
    );
    decimal_of_byte_is_octet(a);
    decimal_of_byte_is_octet(b);
    decimal_of_byte_is_octet(c);
    decimal_of_byte_is_octet(d);
    let t1 = s;
    let t2 = r + seq!['.'] + t1;
    let t3 = q + seq!['.'] + t2;
    let t4 = p + seq!['.'] + t3;
    let all = seq![p, q, r, s];
    assert(all.skip(1) =~= seq![q, r, s]);
    assert(seq![q, r, s].skip(1) =~= seq![r, s]);
    assert(seq![r, s].skip(1) =~= seq![s]);
    assert(separated(seq![s], '.') == t1);
    assert(separated(seq![r, s], '.') == t2);
    assert(separated(seq![q, r, s], '.') == t3);
    assert(dotted(a, b, c, d) == t4);
    text::char_found_iff_contained(s, '.');
    assert(octet_count(t1) == Some(1nat));
    first_separator(r, '.', t1);
    assert(octet_count(t2) == Some(2nat));
    first_separator(q, '.', t2);
    assert(octet_count(t3) == Some(3nat));
    first_separator(p, '.', t3);
    assert(octet_count(t4) == Some(4nat));
    assert(t4[p.len() as int] == '.');
    assert(!is_group(t4)) by {
        if is_group(t4) {
            group_holds_no_separator(t4);
        }
    }
    assert forall|i: int| 0 <= i < t4.len() implies t4[i] != ':' by {
        let n1 = p.len() as int;
        let n2 = n1 + 1 + q.len();
        let n3 = n2 + 1 + r.len();
        if i < n1 {
            assert(t4[i] == p[i]);
        } else if i > n1 && i < n2 {
            assert(t4[i] == q[i - n1 - 1]);
        } else if i > n2 && i < n3 {
            assert(t4[i] == r[i - n2 - 1]);
        } else if i > n3 {
            assert(t4[i] == s[i - n3 - 1]);
        }
    }
    text::char_found_iff_contained(t4, ':');
}

/// Four dotted numbers at the end stand for two groups: six groups in front of
/// them make an address, and so do up to five around one `::`.
pub proof fn dotted_numbers_stand_for_two_groups(
    front: Seq<Seq<char>>,
    back: Seq<Seq<char>>,
    a: u8,
    b: u8,
    c: u8,
    d: u8,
)
    requires
        forall|i: int| 0 <= i < front.len() ==> 1 <= (#[trigger] front[i]).len() <= 4,
        forall|i: int, j: int|
            0 <= i < front.len() && 0 <= j < front[i].len() ==> ('0' <= #[trigger] front[i][j]
                && front[i][j] <= '9') || ('a' <= front[i][j] && front[i][j] <= 'f') || ('A'
                <= front[i][j] && front[i][j] <= 'F'),
        forall|i: int| 0 <= i < back.len() ==> 1 <= (#[trigger] back[i]).len() <= 4,
        forall|i: int, j: int|
            0 <= i < back.len() && 0 <= j < back[i].len() ==> ('0' <= #[trigger] back[i][j]
                && back[i][j] <= '9') || ('a' <= back[i][j] && back[i][j] <= 'f') || ('A'
                <= back[i][j] && back[i][j] <= 'F'),
    ensures
        back.len() == 6 ==> is_ipv6_address(separated(back.push(dotted(a, b, c, d)), ':')),
        front.len() + back.len() <= 5 ==> is_ipv6_address(
            separated(front, ':') + seq![':', ':'] + separated(back.push(dotted(a, b, c, d)), ':'),
        ),
{
    let tail = dotted(a, b, c, d);
    let parts = back.push(tail);
    hex_parts_are_groups(front);
    hex_parts_are_groups(back);
    dotted_counts_two_groups(a, b, c, d);
    separated_groups_count(back, tail, true);
    assert forall|i: int| 0 <= i < parts.len() implies (#[trigger] parts[i]).len() > 0
        && !parts[i].contains(':') by {
        if i < back.len() {
            assert(parts[i] == back[i]);
        }
    }
    separated_parts_have_no_gap(parts);
    text::find_is_lowest(separated(parts, ':'), seq![':', ':']);
    if front.len() > 0 {
        plain_groups_count(front, false);
        separated_parts_have_no_gap(front);
    }
    gap_is_found_between(separated(front, ':'), separated(parts, ':'));
}

/// The groups that were counted, where no dots are in the text.
proof fn counted_groups(s: Seq<char>, dotted: bool) -> (groups: Seq<Seq<char>>)
    requires
        group_count(s, dotted) is Some,
        !s.contains('.'),
    ensures
        groups.len() == group_count(s, dotted)->0,
        groups.len() > 0,
        s == separated(groups, ':'),
        forall|i: int| 0 <= i < groups.len() ==> is_group(#[trigger] groups[i]),
    decreases s.len(),
{
    text::char_found_iff_contained(s, ':');
    text::char_found_iff_contained(s, '.');
    match text::find(s, seq![':']) {
        None => {
            assert(octet_count(s) != Some(4nat));
            seq![s]
        },
        Some(i) => {
            let rest = s.skip(i + 1);
            assert(!rest.contains('.')) by {
                if rest.contains('.') {
                    let k = choose|k: int| 0 <= k < rest.len() && rest[k] == '.';
                    assert(s[k + i + 1] == '.');
                }
            }
            let tail = counted_groups(rest, dotted);
            let groups = seq![s.take(i)] + tail;
            assert(groups.skip(1) =~= tail);
            assert(s =~= s.take(i) + seq![':'] + rest);
            assert forall|k: int| 0 <= k < groups.len() implies is_group(#[trigger] groups[k]) by {
                if k > 0 {
                    assert(groups[k] == tail[k - 1]);
                }
            }
            groups
        },
    }
}

/// An address without dots is eight groups, or up to seven around one `::`,
/// each of one to four hexadecimal digits.
pub proof fn address_is_made_of_groups(s: Seq<char>) -> (r: (Seq<Seq<char>>, Seq<Seq<char>>))
    requires
        is_ipv6_address(s),
        !s.contains('.'),
    ensures
        ({
            let (front, back) = r;
            &&& {
                ||| front.len() == 8 && s == separated(front, ':')
                ||| front.len() + back.len() <= 7 && s == separated(front, ':') + seq![':', ':']
                    + separated(back, ':')
            }
            &&& forall|i: int| 0 <= i < front.len() ==> 1 <= (#[trigger] front[i]).len() <= 4
            &&& forall|i: int| 0 <= i < back.len() ==> 1 <= (#[trigger] back[i]).len() <= 4
            &&& forall|i: int, j: int|
                0 <= i < front.len() && 0 <= j < front[i].len() ==> ('0' <= #[trigger] front[i][j]
                    && front[i][j] <= '9') || ('a' <= front[i][j] && front[i][j] <= 'f') || ('A'
                    <= front[i][j] && front[i][j] <= 'F')
            &&& forall|i: int, j: int|
                0 <= i < back.len() && 0 <= j < back[i].len() ==> ('0' <= #[trigger] back[i][j]
                    && back[i][j] <= '9') || ('a' <= back[i][j] && back[i][j] <= 'f') || ('A'
                    <= back[i][j] && back[i][j] <= 'F')
        }),
{
    let gap = seq![':', ':'];
    text::find_is_lowest(s, gap);
    let r = match text::find(s, gap) {
        None => (counted_groups(s, true), Seq::empty()),
        Some(i) => {
            let a = s.take(i);
            let b = s.skip(i + 2);
            assert(s =~= a + gap + b) by {
                assert(s.subrange(i, i + 2) =~= gap);
                assert(s =~= a + s.subrange(i, i + 2) + b);
            }
            assert(!a.contains('.') && !b.contains('.')) by {
                if a.contains('.') {
                    let k = choose|k: int| 0 <= k < a.len() && a[k] == '.';
                    assert(s[k] == '.');
                }
                if b.contains('.') {
                    let k = choose|k: int| 0 <= k < b.len() && b[k] == '.';
                    assert(s[k + i + 2] == '.');
                }
            }
            let front = if a.len() == 0 {
                Seq::empty()
            } else {
                counted_groups(a, false)
            };
            let back = if b.len() == 0 {
                Seq::empty()
            } else {
                counted_groups(b, true)
            };
            assert(a =~= separated(front, ':'));
            assert(b =~= separated(back, ':'));
            (front, back)
        },
    };
    groups_are_hex_parts(r.0);
    groups_are_hex_parts(r.1);
    r
}

/// The decimal forms of numbers up to 255.
spec fn decimals(numbers: Seq<u8>) -> Seq<Seq<char>> {
    numbers.map_values(|n: u8| text::decimal(n as nat))
}

/// The numbers that were counted.
proof fn counted_octets(s: Seq<char>) -> (numbers: Seq<u8>)
    requires
        octet_count(s) is Some,
    ensures
        numbers.len() == octet_count(s)->0,
        numbers.len() > 0,
        s == separated(decimals(numbers), '.'),
    decreases s.len(),
{
    text::char_found_iff_contained(s, '.');
    match text::find(s, seq!['.']) {
        None => {
            let n = octet_value(s);
            assert(decimals(seq![n]) =~= seq![s]);
            seq![n]
        },
        Some(i) => {
            let rest = s.skip(i + 1);
            let n = octet_value(s.take(i));
            let tail = counted_octets(rest);
            let numbers = seq![n] + tail;
            assert(decimals(numbers).skip(1) =~= decimals(tail));
            assert(decimals(numbers)[0] == s.take(i));
            assert(s =~= s.take(i) + seq!['.'] + rest);
            numbers
        },
    }
}

proof fn octet_value(s: Seq<char>) -> (n: u8)
    requires
        is_octet(s),
    ensures
        text::decimal(n as nat) == s,
{
    assert forall|i: int| 0 <= i < s.len() implies '0' <= #[trigger] s[i] && s[i] <= '9' by {
        assert(text::is_digit(s[i]));
    }
    text::decimal_form_is_unique(s);
    text::digits_value(s) as u8
}

proof fn undotted_groups_hold_no_dot(s: Seq<char>)
    requires
        group_count(s, false) is Some,
    ensures
        !s.contains('.'),
    decreases s.len(),
{
    text::char_found_iff_contained(s, ':');
    match text::find(s, seq![':']) {
        None => {
            group_holds_no_separator(s);
        },
        Some(i) => {
            let rest = s.skip(i + 1);
            group_holds_no_separator(s.take(i));
            undotted_groups_hold_no_dot(rest);
            assert forall|k: int| 0 <= k < s.len() implies s[k] != '.' by {
                if k < i {
                    assert(s.take(i)[k] == s[k]);
                } else if k > i {
                    assert(rest[k - i - 1] == s[k]);
                }
            }
        },
    }
}

/// The groups and the dotted numbers that were counted.
proof fn counted_dotted_groups(s: Seq<char>) -> (r: (Seq<Seq<char>>, (u8, u8, u8, u8)))
    requires
        group_count(s, true) is Some,
        s.contains('.'),
    ensures
        r.0.len() + 2 == group_count(s, true)->0,
        s == separated(r.0.push(dotted(r.1.0, r.1.1, r.1.2, r.1.3)), ':'),
        forall|i: int| 0 <= i < r.0.len() ==> is_group(#[trigger] r.0[i]),
    decreases s.len(),
{
    text::char_found_iff_contained(s, ':');
    match text::find(s, seq![':']) {
        None => {
            if is_group(s) {
                group_holds_no_separator(s);
            }
            let n = counted_octets(s);
            assert(decimals(n) =~= seq![
                text::decimal(n[0] as nat),
                text::decimal(n[1] as nat),
                text::decimal(n[2] as nat),
                text::decimal(n[3] as nat),
            ]);
            let none = Seq::<Seq<char>>::empty();
            assert(none.push(s)[0] == s);
            (none, (n[0], n[1], n[2], n[3]))
        },
        Some(i) => {
            let first = s.take(i);
            let rest = s.skip(i + 1);
            group_holds_no_separator(first);
            assert(rest.contains('.')) by {
                let k = choose|k: int| 0 <= k < s.len() && s[k] == '.';
                if k < i {
                    assert(first[k] == '.');
                }
                assert(rest[k - i - 1] == '.');
            }
            let (tail, n) = counted_dotted_groups(rest);
            let groups = seq![first] + tail;
            let last = dotted(n.0, n.1, n.2, n.3);
            assert(groups.push(last).skip(1) =~= tail.push(last));
            assert(groups.push(last)[0] == first);
            assert(s =~= first + seq![':'] + rest);
            assert forall|k: int| 0 <= k < groups.len() implies is_group(#[trigger] groups[k]) by {
                if k > 0 {
                    assert(groups[k] == tail[k - 1]);
                }
            }
            (groups, n)
        },
    }
}

/// An address with dots ends with four dotted numbers up to 255, which have six
/// groups in front of them, or up to five around one `::`.
pub proof fn address_with_dots_ends_with_four_numbers(s: Seq<char>) -> (r: (
    Seq<Seq<char>>,
    Seq<Seq<char>>,
    (u8, u8, u8, u8),
))
    requires
        is_ipv6_address(s),
        s.contains('.'),
    ensures
        ({
            let (front, back, (a, b, c, d)) = r;
            &&& {
                ||| back.len() == 6 && s == separated(back.push(dotted(a, b, c, d)), ':')
                ||| front.len() + back.len() <= 5 && s == separated(front, ':') + seq![':', ':']
                    + separated(back.push(dotted(a, b, c, d)), ':')
            }
            &&& forall|i: int| 0 <= i < front.len() ==> 1 <= (#[trigger] front[i]).len() <= 4
            &&& forall|i: int| 0 <= i < back.len() ==> 1 <= (#[trigger] back[i]).len() <= 4
            &&& forall|i: int, j: int|
                0 <= i < front.len() && 0 <= j < front[i].len() ==> ('0' <= #[trigger] front[i][j]
                    && front[i][j] <= '9') || ('a' <= front[i][j] && front[i][j] <= 'f') || ('A'
                    <= front[i][j] && front[i][j] <= 'F')
            &&& forall|i: int, j: int|
                0 <= i < back.len() && 0 <= j < back[i].len() ==> ('0' <= #[trigger] back[i][j]
                    && back[i][j] <= '9') || ('a' <= back[i][j] && back[i][j] <= 'f') || ('A'
                    <= back[i][j] && back[i][j] <= 'F')
        }),
{
    let gap = seq![':', ':'];
    text::find_is_lowest(s, gap);
    let r = match text::find(s, gap) {
        None => {
            let (back, n) = counted_dotted_groups(s);
            (Seq::empty(), back, n)
        },
        Some(i) => {
            let x = s.take(i);
            let y = s.skip(i + 2);
            assert(s =~= x + gap + y) by {
                assert(s.subrange(i, i + 2) =~= gap);
                assert(s =~= x + s.subrange(i, i + 2) + y);
            }
            if x.len() > 0 {
                undotted_groups_hold_no_dot(x);
            }
            assert(y.contains('.')) by {
                let k = choose|k: int| 0 <= k < s.len() && s[k] == '.';
                if k < i {
                    assert(x[k] == '.');
                } else if k < i + 2 {
                    assert(s.subrange(i, i + 2)[k - i] == s[k]);
                    assert(gap[k - i] == ':');
                }
                assert(y[k - i - 2] == '.');
            }
            let front = if x.len() == 0 {
                Seq::empty()
            } else {
                counted_groups(x, false)
            };
            assert(x =~= separated(front, ':'));
            let (back, n) = counted_dotted_groups(y);
            (front, back, n)
        },
    };
    groups_are_hex_parts(r.0);
    groups_are_hex_parts(r.1);
    r
}

proof fn groups_are_hex_parts(groups: Seq<Seq<char>>)
    requires
        forall|i: int| 0 <= i < groups.len() ==> is_group(#[trigger] groups[i]),
    ensures
        forall|i: int| 0 <= i < groups.len() ==> 1 <= (#[trigger] groups[i]).len() <= 4,
        forall|i: int, j: int|
            0 <= i < groups.len() && 0 <= j < groups[i].len() ==> ('0' <= #[trigger] groups[i][j]
                && groups[i][j] <= '9') || ('a' <= groups[i][j] && groups[i][j] <= 'f') || ('A'
                <= groups[i][j] && groups[i][j] <= 'F'),
{
    assert forall|i: int| 0 <= i < groups.len() implies 1 <= (#[trigger] groups[i]).len() <= 4 by {
        assert(is_group(groups[i]));
    }
    assert forall|i: int, j: int| 0 <= i < groups.len() && 0 <= j < groups[i].len() implies ('0'
        <= #[trigger] groups[i][j] && groups[i][j] <= '9') || ('a' <= groups[i][j] && groups[i][j]
        <= 'f') || ('A' <= groups[i][j] && groups[i][j] <= 'F') by {
        assert(is_group(groups[i]));
        assert(is_hex_digit(groups[i][j]));
    }
}

} // verus!
