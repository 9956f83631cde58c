//! References to variables in custom environment values.

use vstd::prelude::*;

use crate::strmap;
use crate::strmap::StrMap;
use crate::text;
use crate::text::{chars_of, find_from};

verus! {

/// What becomes of a value when its references are resolved.
pub enum Interpolation {
    /// The value with every reference replaced.
    Text(Seq<char>),
    /// A reference has no closing brace.
    Unterminated,
    /// A reference names no known variable.
    Unknown(Seq<char>),
}

/// A custom environment value that cannot be resolved.
#[derive(Debug)]
pub enum InterpolateError {
    /// A `${` that no `}` follows.
    Unterminated { value: String },
    /// A reference to a name that is not known.
    Unknown { name: String, value: String },
}

/// Resolves the references `${NAME}` of `value`, from the left. What a
/// reference is replaced by is not searched again. The first reference that
/// cannot be resolved decides.
pub open spec fn interpolation(value: Seq<char>, known: Map<Seq<char>, Seq<char>>) -> Interpolation
    decreases value.len(),
{
    match text::find(value, seq!['$', '{']) {
        None => Interpolation::Text(value),
        Some(start) => {
            let after = value.skip(start + 2);
            match text::find(after, seq!['}']) {
                None => Interpolation::Unterminated,
                Some(end) => {
                    let name = after.take(end);
                    let rest = after.skip(end + 1);
                    proof {
                        text::find_is_lowest(value, seq!['$', '{']);
                        text::find_is_lowest(after, seq!['}']);
                    }
                    if known.contains_key(name) {
                        match interpolation(rest, known) {
                            Interpolation::Text(t) => Interpolation::Text(
                                value.take(start) + known[name] + t,
                            ),
                            other => other,
                        }
                    } else {
                        Interpolation::Unknown(name)
                    }
                },
            }
        },
    }
}

impl InterpolateError {
    /// The outcome that the error stands for.
    pub open spec fn outcome(&self) -> Interpolation {
        match *self {
            InterpolateError::Unterminated { value } => Interpolation::Unterminated,
            InterpolateError::Unknown { name, value } => Interpolation::Unknown(name@),
        }
    }

    /// The value that could not be resolved.
    pub open spec fn value_text(&self) -> Seq<char> {
        match *self {
            InterpolateError::Unterminated { value } => value@,
            InterpolateError::Unknown { name, value } => value@,
        }
    }

    /// The text of the error.
    pub open spec fn message_text(&self) -> Seq<char> {
        match *self {
            InterpolateError::Unterminated { value } =>
                "unterminated \"${\" in custom env value: "@ + value@,
            InterpolateError::Unknown { name, value } =>
                "custom env value references unknown variable \"${"@ + name@ + "}\": "@ + value@,
        }
    }

    /// The error in words.
    pub fn message(&self) -> (r: String)
        ensures
            r@ == self.message_text(),
    {
        match self {
            InterpolateError::Unterminated { value } => {
                let mut out = "unterminated \"${\" in custom env value: ".to_owned();
                out.append(value.as_str());
                out
            },
            InterpolateError::Unknown { name, value } => {
                let mut out = "custom env value references unknown variable \"${".to_owned();
                out.append(name.as_str());
                out.append("}\": ");
                out.append(value.as_str());
                out
            },
        }
    }
}

/// What `front` and the outcome of the rest make together.
spec fn behind(front: Seq<char>, rest: Interpolation) -> Interpolation {
    match rest {
        Interpolation::Text(t) => Interpolation::Text(front + t),
        other => other,
    }
}

/// Substitutes `${NAME}` references in `value` with entries from `lookup`. A
/// value without `${` is returned unchanged. Fails on a `${` that no `}`
/// follows, and on a reference to a name that is not in `lookup`.
pub fn interpolate_env_value(value: &str, lookup: &StrMap<String>) -> (r: Result<
    String,
    InterpolateError,
>)
    ensures
        match r {
            Ok(t) => interpolation(value@, strmap::text_map(lookup@)) == Interpolation::Text(t@),
            Err(e) => e.outcome() == interpolation(value@, strmap::text_map(lookup@))
                && !(e.outcome() is Text) && e.value_text() == value@,
        },
{
    let cs = chars_of(value);
    let open: [char; 2] = ['$', '{'];
    let close: [char; 1] = ['}'];
    assert(open@ =~= seq!['$', '{']);
    assert(close@ =~= seq!['}']);
    let ghost known = strmap::text_map(lookup@);
    let mut result = String::new();
    let mut at: usize = 0;
    assert(value@.skip(0) =~= value@);
    assert(interpolation(value@, known) == behind(result@, interpolation(value@, known))) by {
        if let Interpolation::Text(t) = interpolation(value@, known) {
            assert(result@ + t =~= t);
        }
    }
    loop
        invariant
            cs@ == value@,
            open@ == seq!['$', '{'],
            close@ == seq!['}'],
            known == strmap::text_map(lookup@),
            at <= cs@.len(),
            interpolation(value@, known) == behind(
                result@,
                interpolation(value@.skip(at as int), known),
            ),
        decreases cs@.len() - at,
    {
        let ghost left = value@.skip(at as int);
        let start = match find_from(&cs, &open, at) {
            Some(i) => i,
            None => {
                result.append(value.substring_char(at, cs.len()));
                assert(value@.subrange(at as int, cs@.len() as int) =~= left);
                return Ok(result);
            },
        };
        let ghost after = left.skip(start - at + 2);
        assert(after =~= cs@.skip(start + 2));
        let end = match find_from(&cs, &close, start + 2) {
            Some(i) => i,
            None => {
                return Err(InterpolateError::Unterminated { value: value.to_owned() });
            },
        };
        let name = value.substring_char(start + 2, end);
        assert(name@ =~= after.take(end - start - 2));
        match lookup.get(name) {
            Some(resolved) => {
                let ghost before = result@;
                result.append(value.substring_char(at, start));
                result.append(resolved.as_str());
                proof {
                    assert(after.skip(end - start - 1) =~= value@.skip(end + 1));
                    assert(value@.subrange(at as int, start as int) =~= left.take(start - at));
                    let rest = interpolation(value@.skip(end + 1), known);
                    if let Interpolation::Text(t) = rest {
                        assert(before + (left.take(start - at) + known[name@] + t) =~= result@ + t);
                    }
                }
                at = end + 1;
            },
            None => {
                return Err(
                    InterpolateError::Unknown { name: name.to_owned(), value: value.to_owned() },
                );
            },
        }
    }
}

/// A value without `${` is its own outcome.
pub proof fn value_without_reference_is_unchanged(
    value: Seq<char>,
    known: Map<Seq<char>, Seq<char>>,
)
    requires
        forall|i: int| !text::occurs_at(value, seq!['$', '{'], i),
    ensures
        interpolation(value, known) == Interpolation::Text(value),
{
    text::find_is_lowest(value, seq!['$', '{']);
}

/// The first reference of a value is replaced by what its name stands for, and
/// the rest of the value is resolved by itself; a name that is not known is
/// the outcome.
pub proof fn first_reference_is_replaced(
    front: Seq<char>,
    name: Seq<char>,
    rest: Seq<char>,
    known: Map<Seq<char>, Seq<char>>,
)
    requires
        forall|i: int| !text::occurs_at(front, seq!['$', '{'], i),
        !name.contains('}'),
    ensures
        interpolation(front + seq!['$', '{'] + name + seq!['}'] + rest, known) == (
        if known.contains_key(name) {
            match interpolation(rest, known) {
                Interpolation::Text(t) => Interpolation::Text(front + known[name] + t),
                other => other,
            }
        } else {
            Interpolation::Unknown(name)
        }),
{
    let open = seq!['$', '{'];
    let value = front + open + name + seq!['}'] + rest;
    reference_start(front, name + seq!['}'] + rest);
    assert(value =~= front + open + (name + seq!['}'] + rest));
    let start = front.len() as int;
    let after = value.skip(start + 2);
    assert(after =~= name + seq!['}'] + rest);
    let end = name.len() as int;
    text::char_occurs_at(after, '}', end);
    assert forall|j: int| 0 <= j < end implies !text::occurs_at(after, seq!['}'], j) by {
        text::char_occurs_at(after, '}', j);
        assert(after[j] == name[j]);
    }
    text::lowest_is_found(after, seq!['}'], end);
    assert(after.take(end) =~= name);
    assert(after.skip(end + 1) =~= rest);
    assert(value.take(start) =~= front);
}

/// A `${` behind a front that has none is the first one.
proof fn reference_start(front: Seq<char>, tail: Seq<char>)
    requires
        forall|i: int| !text::occurs_at(front, seq!['$', '{'], i),
    ensures
        text::find(front + seq!['$', '{'] + tail, seq!['$', '{']) == Some(front.len() as int),
{
    let open = seq!['$', '{'];
    let value = front + open + tail;
    let start = front.len() as int;
    assert(value.subrange(start, start + 2) =~= open);
    assert forall|j: int| 0 <= j < start implies !text::occurs_at(value, open, j) by {
        let here = value.subrange(j, j + 2);
        if j + 2 <= start {
            assert(here =~= front.subrange(j, j + 2));
            assert(!text::occurs_at(front, open, j));
        } else {
            assert(here[1] == value[start]);
            assert(value[start] == '$');
            assert(open[1] == '{');
        }
    }
    text::lowest_is_found(value, open, start);
}

/// A `${` that no `}` follows, behind a front without references, is an error.
pub proof fn unclosed_reference_is_refused(
    front: Seq<char>,
    tail: Seq<char>,
    known: Map<Seq<char>, Seq<char>>,
)
    requires
        forall|i: int| !text::occurs_at(front, seq!['$', '{'], i),
        !tail.contains('}'),
    ensures
        interpolation(front + seq!['$', '{'] + tail, known) == Interpolation::Unterminated,
{
    reference_start(front, tail);
    let value = front + seq!['$', '{'] + tail;
    assert(value.skip(front.len() as int + 2) =~= tail);
    text::char_found_iff_contained(tail, '}');
}

/// A refusal stands for its outcome; its message ends with the whole value,
/// and names the variable that is not known.
pub proof fn refusal_quotes_the_value(e: InterpolateError)
    ensures
        match e {
            InterpolateError::Unterminated { value } => {
                &&& e.outcome() is Unterminated
                &&& e.value_text() == value@
                &&& e.message_text() == "unterminated \"${\" in custom env value: "@ + value@
            },
            InterpolateError::Unknown { name, value } => {
                &&& e.outcome() == Interpolation::Unknown(name@)
                &&& e.value_text() == value@
                &&& e.message_text() == "custom env value references unknown variable \"${"@ + name@
                    + "}\": "@ + value@
            },
        },
{
}

} // verus!
