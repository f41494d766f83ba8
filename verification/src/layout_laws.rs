//! How the text of a JSON value is laid out, piece by piece.

use vstd::prelude::*;
use crate::json::{
    JsonView, Members, NumberView, inserted, keys_unique, lookup, member, position,
    position_is_first, position_unique, removed, text_field,
};
use crate::pyjson::{
    decimal, digit, escaped, escaped_char, items_text, members_text, number_text, py_text,
    quoted,
};
use crate::text::joined;

verus! {

/// What stands between the brackets of a text.
pub open spec fn inner(text: Seq<char>) -> Seq<char> {
    text.subrange(1, text.len() - 1)
}

/// A text between two characters.
pub open spec fn between(open: char, text: Seq<char>, close: char) -> Seq<char> {
    seq![open] + text + seq![close]
}

proof fn inner_of(open: char, text: Seq<char>, close: char)
    ensures
        inner(between(open, text, close)) == text,
{
    assert(inner(between(open, text, close)) =~= text);
}

/// The literals of JSON.
pub proof fn literals_text(v: JsonView)
    ensures
        v is Null ==> py_text(v) == "null"@,
        v == JsonView::Bool(true) ==> py_text(v) == "true"@,
        v == JsonView::Bool(false) ==> py_text(v) == "false"@,
{
}

proof fn items_split(a: Seq<JsonView>, b: Seq<JsonView>)
    requires
        a.len() > 0,
        b.len() > 0,
    ensures
        items_text(a + b) == items_text(a) + ", "@ + items_text(b),
    decreases b.len(),
{
    let all = a + b;
    assert(all.drop_last() =~= a + b.drop_last());
    assert(all.last() == b.last());
    if b.len() == 1 {
        assert(a + b.drop_last() =~= a);
        assert(b.drop_last() =~= Seq::<JsonView>::empty());
        assert(items_text(Seq::<JsonView>::empty()) =~= Seq::<char>::empty());
        assert(items_text(b) =~= py_text(b.last()));
        assert(items_text(all) =~= items_text(a) + ", "@ + items_text(b));
    } else {
        items_split(a, b.drop_last());
        assert(items_text(all) =~= items_text(a) + ", "@ + items_text(b));
    }
}

/// Arrays: the empty one is `[]`; one item stands in brackets; two arrays end to end have
/// the insides of both, a comma and a space between them.
pub proof fn array_text(x: JsonView, a: Seq<JsonView>, b: Seq<JsonView>)
    requires
        a.len() > 0,
        b.len() > 0,
    ensures
        py_text(JsonView::Array(Seq::empty())) == seq!['[', ']'],
        py_text(JsonView::Array(seq![x])) == between('[', py_text(x), ']'),
        py_text(JsonView::Array(a + b)) == between(
            '[',
            inner(py_text(JsonView::Array(a))) + ", "@ + inner(py_text(JsonView::Array(b))),
            ']',
        ),
{
    brackets();
    let none = Seq::<JsonView>::empty();
    assert(items_text(none) =~= Seq::<char>::empty());
    assert(py_text(JsonView::Array(none)) =~= seq!['[', ']']);
    let one = seq![x];
    assert(one.drop_last() =~= none);
    assert(items_text(one) =~= py_text(x));
    items_split(a, b);
    inner_of('[', items_text(a), ']');
    inner_of('[', items_text(b), ']');
    assert(py_text(JsonView::Array(a)) =~= between('[', items_text(a), ']'));
    assert(py_text(JsonView::Array(b)) =~= between('[', items_text(b), ']'));
}

proof fn brackets()
    ensures
        "["@ == seq!['['],
        "]"@ == seq![']'],
        "{"@ == seq!['{'],
        "}"@ == seq!['}'],
{
    reveal_strlit("[");
    reveal_strlit("]");
    reveal_strlit("{");
    reveal_strlit("}");
    assert("["@ =~= seq!['[']);
    assert("]"@ =~= seq![']']);
    assert("{"@ =~= seq!['{']);
    assert("}"@ =~= seq!['}']);
}

proof fn members_split(a: Members, b: Members)
    requires
        a.len() > 0,
        b.len() > 0,
    ensures
        members_text(a + b) == members_text(a) + ", "@ + members_text(b),
    decreases b.len(),
{
    let all = a + b;
    assert(all.drop_last() =~= a + b.drop_last());
    assert(all.last() == b.last());
    if b.len() == 1 {
        assert(a + b.drop_last() =~= a);
        assert(b.drop_last() =~= Members::empty());
        assert(members_text(Members::empty()) =~= Seq::<char>::empty());
        assert(members_text(all) =~= members_text(a) + ", "@ + members_text(b));
    } else {
        members_split(a, b.drop_last());
        assert(members_text(all) =~= members_text(a) + ", "@ + members_text(b));
    }
}

/// Objects: the empty one is `{}`; one member is its key as a string, a colon and a space,
/// and its value, in braces; two objects end to end have the insides of both, a comma and
/// a space between them.
pub proof fn object_text(key: Seq<char>, x: JsonView, a: Members, b: Members)
    requires
        a.len() > 0,
        b.len() > 0,
    ensures
        py_text(JsonView::Object(Members::empty())) == seq!['{', '}'],
        py_text(JsonView::Object(seq![(key, x)])) == between(
            '{',
            py_text(JsonView::Text(key)) + ": "@ + py_text(x),
            '}',
        ),
        py_text(JsonView::Object(a + b)) == between(
            '{',
            inner(py_text(JsonView::Object(a))) + ", "@ + inner(py_text(JsonView::Object(b))),
            '}',
        ),
{
    brackets();
    let none = Members::empty();
    assert(members_text(none) =~= Seq::<char>::empty());
    assert(py_text(JsonView::Object(none)) =~= seq!['{', '}']);
    let one = seq![(key, x)];
    assert(one.drop_last() =~= none);
    assert(members_text(one) =~= quoted(key) + ": "@ + py_text(x));
    members_split(a, b);
    inner_of('{', members_text(a), '}');
    inner_of('{', members_text(b), '}');
    assert(py_text(JsonView::Object(a)) =~= between('{', members_text(a), '}'));
    assert(py_text(JsonView::Object(b)) =~= between('{', members_text(b), '}'));
}

proof fn escaped_split(a: Seq<char>, b: Seq<char>)
    ensures
        escaped(a + b) == escaped(a) + escaped(b),
    decreases b.len(),
{
    if b.len() == 0 {
        assert(a + b =~= a);
        assert(escaped(a) + escaped(b) =~= escaped(a));
    } else {
        escaped_split(a, b.drop_last());
        assert((a + b).drop_last() =~= a + b.drop_last());
        assert(escaped(a + b) =~= escaped(a) + escaped(b));
    }
}

/// The value of a hexadecimal digit in lower case.
pub open spec fn hex(c: char) -> int {
    if '0' <= c <= '9' {
        c as int - '0' as int
    } else {
        c as int - 'a' as int + 10
    }
}

/// Strings: two texts end to end have what both have between quotes; a character other
/// than the quote, the backslash and the control characters stands for itself; those are
/// a backslash and a letter, or `\u00` and two digits that give the character.
pub proof fn string_text(a: Seq<char>, b: Seq<char>, c: char)
    ensures
        py_text(JsonView::Text(Seq::empty())) == seq!['"', '"'],
        py_text(JsonView::Text(a + b)) == between(
            '"',
            inner(py_text(JsonView::Text(a))) + inner(py_text(JsonView::Text(b))),
            '"',
        ),
        c >= ' ' && c != '"' && c != '\\' ==> py_text(JsonView::Text(seq![c])) == seq!['"', c, '"'],
        py_text(JsonView::Text(seq!['"'])) == seq!['"', '\\', '"', '"'],
        py_text(JsonView::Text(seq!['\\'])) == seq!['"', '\\', '\\', '"'],
        py_text(JsonView::Text(seq!['\n'])) == seq!['"', '\\', 'n', '"'],
        py_text(JsonView::Text(seq!['\r'])) == seq!['"', '\\', 'r', '"'],
        py_text(JsonView::Text(seq!['\t'])) == seq!['"', '\\', 't', '"'],
        py_text(JsonView::Text(seq!['\u{8}'])) == seq!['"', '\\', 'b', '"'],
        py_text(JsonView::Text(seq!['\u{c}'])) == seq!['"', '\\', 'f', '"'],
        ({
            let t = py_text(JsonView::Text(seq![c]));
            ' ' > c && c != '\n' && c != '\r' && c != '\t' && c != '\u{8}' && c != '\u{c}' ==> {
                &&& t.len() == 8
                &&& t.take(5) == seq!['"', '\\', 'u', '0', '0']
                &&& c as int == 16 * hex(t[5]) + hex(t[6])
                &&& t[7] == '"'
            }
        }),
{
    escaped_split(a, b);
    inner_of('"', escaped(a), '"');
    inner_of('"', escaped(b), '"');
    assert(py_text(JsonView::Text(a)) == between('"', escaped(a), '"'));
    assert(py_text(JsonView::Text(b)) == between('"', escaped(b), '"'));
    let none = Seq::<char>::empty();
    assert(escaped(none) =~= none);
    assert(py_text(JsonView::Text(none)) =~= seq!['"', '"']);
    one_escaped(c);
    one_escaped('"');
    one_escaped('\\');
    one_escaped('\n');
    one_escaped('\r');
    one_escaped('\t');
    one_escaped('\u{8}');
    one_escaped('\u{c}');
    assert(c >= ' ' && c != '"' && c != '\\' ==> py_text(JsonView::Text(seq![c])) =~= seq![
        '"',
        c,
        '"',
    ]);
    assert(py_text(JsonView::Text(seq!['"'])) =~= seq!['"', '\\', '"', '"']);
    assert(py_text(JsonView::Text(seq!['\\'])) =~= seq!['"', '\\', '\\', '"']);
    assert(py_text(JsonView::Text(seq!['\n'])) =~= seq!['"', '\\', 'n', '"']);
    assert(py_text(JsonView::Text(seq!['\r'])) =~= seq!['"', '\\', 'r', '"']);
    assert(py_text(JsonView::Text(seq!['\t'])) =~= seq!['"', '\\', 't', '"']);
    assert(py_text(JsonView::Text(seq!['\u{8}'])) =~= seq!['"', '\\', 'b', '"']);
    assert(py_text(JsonView::Text(seq!['\u{c}'])) =~= seq!['"', '\\', 'f', '"']);
    let t = py_text(JsonView::Text(seq![c]));
    if ' ' > c && c != '\n' && c != '\r' && c != '\t' && c != '\u{8}' && c != '\u{c}' {
        assert(t.take(5) =~= seq!['"', '\\', 'u', '0', '0']);
        let h = c as int / 16;
        let l = c as int % 16;
        assert(t[5] == digit(h) && t[6] == digit(l));
        digit_value(h);
        digit_value(l);
    }
}

proof fn one_escaped(c: char)
    ensures
        py_text(JsonView::Text(seq![c])) == seq!['"'] + escaped_char(c) + seq!['"'],
{
    let none = Seq::<char>::empty();
    assert(seq![c].drop_last() =~= none);
    assert(escaped(none) =~= none);
    assert(escaped(seq![c]) =~= escaped_char(c));
}

proof fn digit_value(d: int)
    requires
        0 <= d < 16,
    ensures
        hex(digit(d)) == d,
{
    assert(digit(d) as int == (if d < 10 { 48 + d } else { 87 + d }));
}

/// The number that decimal digits stand for.
pub open spec fn value_of(t: Seq<char>) -> int
    decreases t.len(),
{
    if t.len() == 0 {
        0
    } else {
        10 * value_of(t.drop_last()) + (t.last() as int - '0' as int)
    }
}

proof fn decimal_value(n: nat)
    ensures
        value_of(decimal(n)) == n,
        decimal(n).len() > 0,
        n > 0 ==> decimal(n)[0] != '0',
        n == 0 ==> decimal(n) == seq!['0'],
        forall|i: int| 0 <= i < decimal(n).len() ==> '0' <= #[trigger] decimal(n)[i] <= '9',
    decreases n,
{
    let d = decimal(n);
    if n < 10 {
        digit_value(n as int);
        assert(d.drop_last() =~= Seq::<char>::empty());
        assert(value_of(Seq::<char>::empty()) == 0);
    } else {
        decimal_value(n / 10);
        digit_value((n % 10) as int);
        assert(d.drop_last() =~= decimal(n / 10));
        assert forall|i: int| 0 <= i < d.len() implies '0' <= #[trigger] d[i] <= '9' by {
            if i < d.len() - 1 {
                assert(d[i] == decimal(n / 10)[i]);
            }
        }
        assert(d[0] == decimal(n / 10)[0]);
    }
}

/// Integers: digits that stand for the number, without leading zeros, after a minus sign
/// exactly when it is negative. A float is its own text.
pub proof fn number_digits(i: int, t: Seq<char>)
    ensures
        ({
            let text = py_text(JsonView::Number(NumberView::Integer(i)));
            let digits = if i < 0 {
                text.drop_first()
            } else {
                text
            };
            &&& i < 0 ==> text[0] == '-'
            &&& digits.len() > 0
            &&& value_of(digits) == (if i < 0 { -i } else { i })
            &&& digits.len() > 1 ==> digits[0] != '0'
            &&& forall|j: int| 0 <= j < digits.len() ==> '0' <= #[trigger] digits[j] <= '9'
        }),
        py_text(JsonView::Number(NumberView::Float(t))) == t,
{
    decimal_value((if i < 0 { -i } else { i }) as nat);
    let text = number_text(NumberView::Integer(i));
    if i < 0 {
        assert(text.drop_first() =~= decimal((-i) as nat));
    }
}

/// A key reads the value that stands with it, and nothing when no member has it.
pub proof fn lookup_reads(members: Members, key: Seq<char>, i: int)
    ensures
        keys_unique(members) && 0 <= i < members.len() && members[i].0 == key ==> lookup(
            members,
            key,
        ) == Some(members[i].1),
        (forall|j: int| 0 <= j < members.len() ==> (#[trigger] members[j]).0 != key) <==> lookup(
            members,
            key,
        ) is None,
{
    position_is_first(members, key);
    let p = position(members, key);
    if keys_unique(members) && 0 <= i < members.len() && members[i].0 == key {
        if p < i {
            assert(members[p].0 != members[i].0);
        }
    }
    if forall|j: int| 0 <= j < members.len() ==> (#[trigger] members[j]).0 != key {
        if p < members.len() {
            assert(members[p].0 != key);
        }
    }
}

/// Only objects have members, and a text is read of a member only when it is one.
pub proof fn member_reads(v: JsonView, key: Seq<char>, s: Seq<char>)
    ensures
        v matches JsonView::Object(members) ==> member(v, key) == lookup(members, key),
        !(v is Object) ==> member(v, key) is None,
        text_field(v, key) == Some(s) <==> member(v, key) == Some(JsonView::Text(s)),
{
}

/// A write keeps every other member where it is: a key that is there keeps its place, a
/// new one goes to the end.
pub proof fn insert_places(members: Members, key: Seq<char>, value: JsonView, i: int)
    requires
        keys_unique(members),
        0 <= i < members.len(),
    ensures
        members[i].0 == key ==> inserted(members, key, value) == members.update(i, (key, value)),
        (forall|j: int| 0 <= j < members.len() ==> (#[trigger] members[j]).0 != key) ==> inserted(
            members,
            key,
            value,
        ) == members.push((key, value)),
{
    lookup_reads(members, key, i);
    if members[i].0 == key {
        assert forall|j: int| 0 <= j < i implies (#[trigger] members[j]).0 != key by {
            assert(members[j].0 != members[i].0);
        }
        position_unique(members, key, i);
    }
    if forall|j: int| 0 <= j < members.len() ==> (#[trigger] members[j]).0 != key {
        position_unique(members, key, members.len() as int);
    }
}

/// A removal takes one member away and puts the last in its place; without the key there is
/// nothing to take.
pub proof fn remove_places(members: Members, key: Seq<char>, i: int)
    requires
        keys_unique(members),
    ensures
        0 <= i < members.len() && members[i].0 == key ==> removed(members, key) == members.update(
            i,
            members.last(),
        ).drop_last(),
        (forall|j: int| 0 <= j < members.len() ==> (#[trigger] members[j]).0 != key) ==> removed(
            members,
            key,
        ) == members,
{
    lookup_reads(members, key, i);
    if 0 <= i < members.len() && members[i].0 == key {
        assert forall|j: int| 0 <= j < i implies (#[trigger] members[j]).0 != key by {
            assert(members[j].0 != members[i].0);
        }
        position_unique(members, key, i);
    }
    if forall|j: int| 0 <= j < members.len() ==> (#[trigger] members[j]).0 != key {
        position_unique(members, key, members.len() as int);
    }
}

/// Joining: nothing of nothing, a part of itself, and of two lists the separator between
/// what both give.
pub proof fn joined_parts(
    part: Seq<char>,
    a: Seq<Seq<char>>,
    b: Seq<Seq<char>>,
    sep: Seq<char>,
)
    requires
        a.len() > 0,
        b.len() > 0,
    ensures
        joined(Seq::empty(), sep) == Seq::<char>::empty(),
        joined(seq![part], sep) == part,
        joined(a + b, sep) == joined(a, sep) + sep + joined(b, sep),
    decreases b.len(),
{
    let all = a + b;
    assert(all.drop_last() =~= a + b.drop_last());
    assert(all.last() == b.last());
    if b.len() == 1 {
        assert(a + b.drop_last() =~= a);
        assert(joined(all, sep) =~= joined(a, sep) + sep + joined(b, sep));
    } else {
        joined_parts(part, a, b.drop_last(), sep);
        assert(joined(all, sep) =~= joined(a, sep) + sep + joined(b, sep));
    }
}

} // verus!
