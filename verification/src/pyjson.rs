//! JSON as text, in the layout of Python's `json.dumps`.

use vstd::prelude::*;
use crate::json::{
    Json, JsonView, Members, Number, NumberView, array_item_smaller, json_view,
    object_value_smaller, valid, views,
};

verus! {

/// The digit of a number below 16, in lower case.
pub open spec fn digit(d: int) -> char {
    if d < 10 {
        (('0' as int) + d) as char
    } else {
        (('a' as int) + d - 10) as char
    }
}

/// The decimal digits of a natural number.
pub open spec fn decimal(n: nat) -> Seq<char>
    decreases n,
{
    if n < 10 {
        seq![digit(n as int)]
    } else {
        decimal(n / 10).push(digit((n % 10) as int))
    }
}

/// The text of a number.
pub open spec fn number_text(n: NumberView) -> Seq<char> {
    match n {
        NumberView::Integer(i) => if i < 0 {
            seq!['-'] + decimal((-i) as nat)
        } else {
            decimal(i as nat)
        },
        NumberView::Float(t) => t,
    }
}

/// One character inside a JSON string.
pub open spec fn escaped_char(c: char) -> Seq<char> {
    if c == '"' {
        seq!['\\', '"']
    } else if c == '\\' {
        seq!['\\', '\\']
    } else if c == '\u{8}' {
        seq!['\\', 'b']
    } else if c == '\t' {
        seq!['\\', 't']
    } else if c == '\n' {
        seq!['\\', 'n']
    } else if c == '\u{c}' {
        seq!['\\', 'f']
    } else if c == '\r' {
        seq!['\\', 'r']
    } else if ' ' > c {
        seq!['\\', 'u', '0', '0', digit(c as int / 16), digit(c as int % 16)]
    } else {
        seq![c]
    }
}

/// The characters of a JSON string between its quotes.
pub open spec fn escaped(s: Seq<char>) -> Seq<char>
    decreases s.len(),
{
    if s.len() == 0 {
        Seq::empty()
    } else {
        escaped(s.drop_last()) + escaped_char(s.last())
    }
}

/// A text as a JSON string.
pub open spec fn quoted(s: Seq<char>) -> Seq<char> {
    seq!['"'] + escaped(s) + seq!['"']
}

/// The text that Python's `json.dumps(v, ensure_ascii=False)` gives a value.
pub open spec fn py_text(v: JsonView) -> Seq<char>
    decreases v,
{
    match v {
        JsonView::Null => "null"@,
        JsonView::Bool(true) => "true"@,
        JsonView::Bool(false) => "false"@,
        JsonView::Number(n) => number_text(n),
        JsonView::Text(s) => quoted(s),
        JsonView::Array(items) => "["@ + items_text(items) + "]"@,
        JsonView::Object(members) => "{"@ + members_text(members) + "}"@,
    }
}

/// The items of an array, a comma and a space between them.
pub open spec fn items_text(items: Seq<JsonView>) -> Seq<char>
    decreases items,
{
    if items.len() == 0 {
        Seq::empty()
    } else {
        items_text(items.drop_last()) + gap(items.len()) + py_text(items.last())
    }
}

/// The members of an object, a comma and a space between them, a colon and a space after
/// each key.
pub open spec fn members_text(members: Members) -> Seq<char>
    decreases members,
{
    if members.len() == 0 {
        Seq::empty()
    } else {
        members_text(members.drop_last()) + gap(members.len()) + quoted(members.last().0) + ": "@
            + py_text(members.last().1)
    }
}

/// What stands before the last of `n` items: a comma and a space, except before the
/// first.
pub open spec fn gap(n: nat) -> Seq<char> {
    if n > 1 {
        ", "@
    } else {
        Seq::empty()
    }
}

/// `serde_json::to_string` of a string: the string in quotes, with the quote, the
/// backslash and the control characters below U+0020 escaped.
#[verifier::external_body]
fn quote(s: &str) -> (r: String)
    ensures
        r@ == quoted(s@),
{
    serde_json::to_string(s).expect("a string serializes")
}

/// `serde_json::Number::from_i128`, then its `to_string`: the decimal digits, after a
/// minus sign when the number is negative.
#[verifier::external_body]
fn integer(n: i128) -> (r: String)
    requires
        i64::MIN <= n <= u64::MAX,
    ensures
        r@ == number_text(NumberView::Integer(n as int)),
{
    serde_json::Number::from_i128(n).expect("an integer in range").to_string()
}

/// The text of a number.
pub fn number_to_string(n: &Number) -> (r: String)
    ensures
        r@ == number_text(n@),
{
    match n {
        Number::PosInt(i) => integer(*i as i128),
        Number::NegInt(i) => integer(*i as i128),
        Number::Float(t) => t.clone(),
    }
}

/// Writes `value` at the end of `out`, in the layout of Python's `json.dumps`.
fn write_value(value: &Json, out: &mut String)
    ensures
        final(out)@ == old(out)@ + py_text(value@),
        valid(value@),
    decreases value@,
{
    broadcast use json_view;

    match value {
        Json::Null => out.append("null"),
        Json::Bool(b) => if *b {
            out.append("true")
        } else {
            out.append("false")
        },
        Json::Number(n) => out.append(number_to_string(n).as_str()),
        Json::Text(s) => out.append(quote(s.as_str()).as_str()),
        Json::Array(items) => {
            out.append("[");
            let ghost start = out@;
            let ghost all = views(items@);
            let mut i: usize = 0;
            proof {
                assert(all.take(0) =~= Seq::<JsonView>::empty());
                assert(out@ =~= start + items_text(all.take(0)));
            }
            while i < items.len()
                invariant
                    i <= items@.len(),
                    all == views(items@),
                    value@ == JsonView::Array(all),
                    out@ == start + items_text(all.take(i as int)),
                    forall|j: int| 0 <= j < i ==> valid(#[trigger] all[j]),
                decreases items@.len() - i,
            {
                proof {
                    array_item_smaller(value@, i as int);
                    assert(all[i as int] == items@[i as int]@);
                    assert(all.take(i + 1).drop_last() =~= all.take(i as int));
                }
                let ghost so_far = out@;
                if i > 0 {
                    out.append(", ");
                }
                proof {
                    assert(out@ =~= so_far + gap((i + 1) as nat));
                }
                write_value(&items[i], out);
                proof {
                    assert(out@ =~= start + items_text(all.take(i + 1)));
                }
                i = i + 1;
            }
            out.append("]");
            proof {
                assert(all.take(i as int) =~= all);
                assert(out@ =~= old(out)@ + py_text(value@));
            }
        },
        Json::Object(o) => {
            out.append("{");
            let ghost start = out@;
            let ghost all = o@;
            let n: usize = o.len();
            let mut i: usize = 0;
            proof {
                assert(all.take(0) =~= Members::empty());
                assert(out@ =~= start + members_text(all.take(0)));
            }
            while i < n
                invariant
                    i <= n == all.len(),
                    all == o@,
                    value@ == JsonView::Object(all),
                    out@ == start + members_text(all.take(i as int)),
                    forall|j: int| 0 <= j < i ==> valid((#[trigger] all[j]).1),
                decreases all.len() - i,
            {
                proof {
                    object_value_smaller(value@, i as int);
                    assert(all.take(i + 1).drop_last() =~= all.take(i as int));
                }
                let ghost so_far = out@;
                if i > 0 {
                    out.append(", ");
                }
                proof {
                    assert(out@ =~= so_far + gap((i + 1) as nat));
                }
                out.append(quote(o.key(i)).as_str());
                out.append(": ");
                write_value(o.value(i), out);
                proof {
                    assert(out@ =~= start + members_text(all.take(i + 1)));
                }
                i = i + 1;
            }
            out.append("}");
            proof {
                assert(all.take(i as int) =~= all);
                assert(out@ =~= old(out)@ + py_text(value@));
            }
        },
    }
}

/// The text of a value in the layout of Python's `json.dumps(v, ensure_ascii=False)`:
/// a space after each comma and colon, keys in their order, only what must be
/// escaped is. [`read_json`](crate::parse::read_json) reads it back.
pub fn py_json(value: &Json) -> (r: String)
    ensures
        r@ == py_text(value@),
        valid(value@),
{
    let mut out = String::new();
    write_value(value, &mut out);
    proof {
        assert(out@ =~= py_text(value@));
    }
    out
}

/// Text without quotes, backslashes and control characters stands in a JSON string as
/// it is, beyond ASCII too.
pub proof fn plain_text_unescaped(s: Seq<char>)
    requires
        forall|i: int|
            0 <= i < s.len() ==> (#[trigger] s[i]) >= ' ' && s[i] != '"' && s[i] != '\\',
    ensures
        escaped(s) == s,
    decreases s.len(),
{
    if s.len() > 0 {
        let front = s.drop_last();
        assert forall|i: int| 0 <= i < front.len() implies (#[trigger] front[i]) >= ' '
            && front[i] != '"' && front[i] != '\\' by {
            assert(front[i] == s[i]);
        }
        plain_text_unescaped(front);
        let c = s[s.len() - 1];
        assert(escaped_char(c) =~= seq![c]);
        assert(escaped(s) =~= s);
    }
}

} // verus!
