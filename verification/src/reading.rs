//! The text of a value in the layout of Python's `json.dumps` determines the value.

use vstd::prelude::*;
use crate::json::{
    JsonView, Members, NumberView, array_item_smaller, object_value_smaller, valid,
};
use crate::pyjson::{
    decimal, digit, escaped, escaped_char, items_text, members_text, number_text, py_text, quoted,
};

verus! {

/// Does the value hold no number with a fraction or an exponent?
pub open spec fn floatless(v: JsonView) -> bool
    decreases v,
{
    match v {
        JsonView::Number(n) => n is Integer,
        JsonView::Array(items) => forall|i: int|
            0 <= i < items.len() ==> floatless(#[trigger] items[i]),
        JsonView::Object(members) => forall|i: int|
            0 <= i < members.len() ==> floatless((#[trigger] members[i]).1),
        _ => true,
    }
}

/// Are arrays and objects nested at most `depth` deep?
pub open spec fn nested(v: JsonView, depth: nat) -> bool
    decreases v,
{
    match v {
        JsonView::Array(items) => depth > 0 && forall|i: int|
            0 <= i < items.len() ==> nested(#[trigger] items[i], (depth - 1) as nat),
        JsonView::Object(members) => depth > 0 && forall|i: int|
            0 <= i < members.len() ==> nested((#[trigger] members[i]).1, (depth - 1) as nat),
        _ => true,
    }
}

/// A value that is nested at most `depth` deep is nested at most `more` deep.
pub proof fn nested_deeper(v: JsonView, depth: nat, more: nat)
    requires
        nested(v, depth),
        depth <= more,
    ensures
        nested(v, more),
    decreases v,
{
    match v {
        JsonView::Array(items) => {
            assert forall|i: int| 0 <= i < items.len() implies nested(
                #[trigger] items[i],
                (more - 1) as nat,
            ) by {
                array_item_smaller(v, i);
                nested_deeper(items[i], (depth - 1) as nat, (more - 1) as nat);
            }
        },
        JsonView::Object(members) => {
            assert forall|i: int| 0 <= i < members.len() implies nested(
                (#[trigger] members[i]).1,
                (more - 1) as nat,
            ) by {
                object_value_smaller(v, i);
                nested_deeper(members[i].1, (depth - 1) as nat, (more - 1) as nat);
            }
        },
        _ => {},
    }
}

/// Does `serde_json` read the text of the value back? It does of a valid value without
/// floats that is nested no deeper than the 127 levels that the reader takes.
pub open spec fn readable(v: JsonView) -> bool {
    valid(v) && floatless(v) && nested(v, 127)
}

spec fn is_digit(c: char) -> bool {
    '0' <= c <= '9'
}

/// A text before which a number ends.
spec fn ends_number(s: Seq<char>) -> bool {
    s.len() == 0 || !is_digit(s[0])
}

proof fn digit_unique(a: int, b: int)
    requires
        0 <= a < 16,
        0 <= b < 16,
        digit(a) == digit(b),
    ensures
        a == b,
{
    assert(digit(a) as int == (if a < 10 { 48 + a } else { 87 + a }));
    assert(digit(b) as int == (if b < 10 { 48 + b } else { 87 + b }));
}

proof fn decimal_shape(n: nat)
    ensures
        decimal(n).len() > 0,
        n < 10 <==> decimal(n).len() == 1,
        forall|i: int| 0 <= i < decimal(n).len() ==> is_digit(#[trigger] decimal(n)[i]),
    decreases n,
{
    let d = decimal(n);
    if n >= 10 {
        decimal_shape(n / 10);
        assert forall|i: int| 0 <= i < d.len() implies is_digit(#[trigger] d[i]) by {
            if i < d.len() - 1 {
                assert(d[i] == decimal(n / 10)[i]);
            }
        }
    }
}

proof fn decimal_unique(n: nat, m: nat)
    requires
        decimal(n) == decimal(m),
    ensures
        n == m,
    decreases n,
{
    decimal_shape(n);
    decimal_shape(m);
    let d = decimal(n);
    if n < 10 {
        assert(d[0] == digit(n as int) && d[0] == digit(m as int));
        digit_unique(n as int, m as int);
    } else {
        assert(d.drop_last() =~= decimal(n / 10));
        assert(d.drop_last() =~= decimal(m / 10));
        decimal_unique(n / 10, m / 10);
        assert(d.last() == digit((n % 10) as int) && d.last() == digit((m % 10) as int));
        digit_unique((n % 10) as int, (m % 10) as int);
    }
}

/// Two texts that agree after heads of the same length agree on the heads and after.
proof fn split_same(a: Seq<char>, s: Seq<char>, b: Seq<char>, t: Seq<char>)
    requires
        a + s == b + t,
        a.len() == b.len(),
    ensures
        a == b,
        s == t,
{
    let n = a.len() as int;
    assert((a + s).take(n) =~= a);
    assert((b + t).take(n) =~= b);
    assert((a + s).skip(n) =~= s);
    assert((b + t).skip(n) =~= t);
}

proof fn decimal_read(n: nat, s: Seq<char>, m: nat, t: Seq<char>)
    requires
        decimal(n) + s == decimal(m) + t,
        ends_number(s),
        ends_number(t),
    ensures
        n == m,
        s == t,
{
    decimal_shape(n);
    decimal_shape(m);
    let a = decimal(n);
    let b = decimal(m);
    let x = a + s;
    if a.len() < b.len() {
        let k = a.len() as int;
        assert(x[k] == b[k]);
        assert(is_digit(b[k]));
        assert(x.len() > k);
        assert(x[k] == s[0]);
    }
    if b.len() < a.len() {
        let k = b.len() as int;
        assert(x[k] == a[k]);
        assert(is_digit(a[k]));
        assert((b + t)[k] == t[0]);
    }
    split_same(a, s, b, t);
    decimal_unique(n, m);
}

proof fn integer_read(i: int, s: Seq<char>, j: int, t: Seq<char>)
    requires
        number_text(NumberView::Integer(i)) + s == number_text(NumberView::Integer(j)) + t,
        ends_number(s),
        ends_number(t),
    ensures
        i == j,
        s == t,
{
    let a = number_text(NumberView::Integer(i));
    let b = number_text(NumberView::Integer(j));
    decimal_shape((if i < 0 { -i } else { i }) as nat);
    decimal_shape((if j < 0 { -j } else { j }) as nat);
    assert((a + s)[0] == a[0] && (b + t)[0] == b[0]);
    if i < 0 {
        assert(a[0] == '-');
        if j >= 0 {
            assert(is_digit(b[0]));
        }
        let da = decimal((-i) as nat);
        let db = decimal((-j) as nat);
        assert(a + s =~= seq!['-'] + (da + s));
        assert(b + t =~= seq!['-'] + (db + t));
        split_same(seq!['-'], da + s, seq!['-'], db + t);
        decimal_read((-i) as nat, s, (-j) as nat, t);
    } else {
        assert(is_digit(a[0]));
        if j < 0 {
            assert(b[0] == '-');
        }
        decimal_read(i as nat, s, j as nat, t);
    }
}

/// No character begins another's escape, and none begins with a quote.
proof fn escaped_char_read(c: char, s: Seq<char>, d: char, t: Seq<char>)
    requires
        escaped_char(c) + s == escaped_char(d) + t,
    ensures
        c == d,
        s == t,
{
    let a = escaped_char(c);
    let b = escaped_char(d);
    let x = a + s;
    assert(x[0] == a[0] && x[0] == b[0]);
    if a[0] == '\\' {
        assert(a.len() >= 2 && b.len() >= 2);
        assert(x[1] == a[1] && x[1] == b[1]);
        assert(x[1] == (b + t)[1]);
        assert(a.len() == b.len());
        if a.len() == 6 {
            assert(x[4] == a[4] && x[4] == b[4]);
            assert(x[5] == a[5] && x[5] == b[5]);
            digit_unique(c as int / 16, d as int / 16);
            digit_unique(c as int % 16, d as int % 16);
            assert(c as int == d as int);
        }
    } else {
        assert(a.len() == 1 && b.len() == 1);
    }
    split_same(a, s, b, t);
}

proof fn escaped_front(s: Seq<char>)
    requires
        s.len() > 0,
    ensures
        escaped(s) == escaped_char(s[0]) + escaped(s.drop_first()),
    decreases s.len(),
{
    let rest = s.drop_first();
    if s.len() == 1 {
        assert(s.drop_last() =~= Seq::<char>::empty());
        assert(rest =~= Seq::<char>::empty());
        assert(escaped(s) =~= escaped_char(s[0]) + escaped(rest));
    } else {
        escaped_front(s.drop_last());
        assert(s.drop_last().drop_first() =~= rest.drop_last());
        assert(escaped(s) =~= escaped_char(s[0]) + escaped(rest));
    }
}

proof fn escaped_read(p: Seq<char>, s: Seq<char>, q: Seq<char>, t: Seq<char>)
    requires
        escaped(p) + (seq!['"'] + s) == escaped(q) + (seq!['"'] + t),
    ensures
        p == q,
        s == t,
    decreases p.len(),
{
    let x = escaped(p) + (seq!['"'] + s);
    let y = escaped(q) + (seq!['"'] + t);
    if p.len() > 0 {
        escaped_front(p);
        assert(escaped_char(p[0])[0] != '"');
        assert(x[0] == escaped_char(p[0])[0]);
    } else {
        assert(x[0] == '"');
    }
    if q.len() > 0 {
        escaped_front(q);
        assert(escaped_char(q[0])[0] != '"');
        assert(y[0] == escaped_char(q[0])[0]);
    } else {
        assert(y[0] == '"');
    }
    if p.len() > 0 {
        let u = escaped(p.drop_first()) + (seq!['"'] + s);
        let w = escaped(q.drop_first()) + (seq!['"'] + t);
        assert(x =~= escaped_char(p[0]) + u);
        assert(y =~= escaped_char(q[0]) + w);
        escaped_char_read(p[0], u, q[0], w);
        escaped_read(p.drop_first(), s, q.drop_first(), t);
        assert(p =~= seq![p[0]] + p.drop_first());
        assert(q =~= seq![q[0]] + q.drop_first());
    } else {
        assert(p =~= q);
        assert(x =~= seq!['"'] + s);
        assert(y =~= seq!['"'] + t);
        split_same(seq!['"'], s, seq!['"'], t);
    }
}

proof fn quoted_read(p: Seq<char>, s: Seq<char>, q: Seq<char>, t: Seq<char>)
    requires
        quoted(p) + s == quoted(q) + t,
    ensures
        p == q,
        s == t,
{
    let u = escaped(p) + (seq!['"'] + s);
    let w = escaped(q) + (seq!['"'] + t);
    assert(quoted(p) + s =~= seq!['"'] + u);
    assert(quoted(q) + t =~= seq!['"'] + w);
    split_same(seq!['"'], u, seq!['"'], w);
    escaped_read(p, s, q, t);
}

/// The character that a value's text begins with.
spec fn head(v: JsonView) -> char {
    py_text(v)[0]
}

proof fn literals()
    ensures
        "null"@ == seq!['n', 'u', 'l', 'l'],
        "true"@ == seq!['t', 'r', 'u', 'e'],
        "false"@ == seq!['f', 'a', 'l', 's', 'e'],
        "["@ == seq!['['],
        "]"@ == seq![']'],
        "{"@ == seq!['{'],
        "}"@ == seq!['}'],
        ", "@ == seq![',', ' '],
        ": "@ == seq![':', ' '],
{
    reveal_strlit("null");
    reveal_strlit("true");
    reveal_strlit("false");
    reveal_strlit("[");
    reveal_strlit("]");
    reveal_strlit("{");
    reveal_strlit("}");
    reveal_strlit(", ");
    reveal_strlit(": ");
    assert("null"@ =~= seq!['n', 'u', 'l', 'l']);
    assert("true"@ =~= seq!['t', 'r', 'u', 'e']);
    assert("false"@ =~= seq!['f', 'a', 'l', 's', 'e']);
    assert("["@ =~= seq!['[']);
    assert("]"@ =~= seq![']']);
    assert("{"@ =~= seq!['{']);
    assert("}"@ =~= seq!['}']);
    assert(", "@ =~= seq![',', ' ']);
    assert(": "@ =~= seq![':', ' ']);
}

/// What a value's text begins with tells what kind of value it is.
proof fn head_tells(v: JsonView)
    requires
        floatless(v),
    ensures
        py_text(v).len() > 0,
        match v {
            JsonView::Null => head(v) == 'n',
            JsonView::Bool(b) => head(v) == (if b { 't' } else { 'f' }),
            JsonView::Number(_) => head(v) == '-' || is_digit(head(v)),
            JsonView::Text(_) => head(v) == '"',
            JsonView::Array(_) => head(v) == '[',
            JsonView::Object(_) => head(v) == '{',
        },
{
    literals();
    if let JsonView::Number(NumberView::Integer(i)) = v {
        decimal_shape((if i < 0 { -i } else { i }) as nat);
    }
}

/// The items after the first, each after its comma.
spec fn more_items(items: Seq<JsonView>) -> Seq<char>
    decreases items,
{
    if items.len() == 0 {
        Seq::empty()
    } else {
        ", "@ + py_text(items[0]) + more_items(items.drop_first())
    }
}

proof fn more_items_last(items: Seq<JsonView>)
    requires
        items.len() > 0,
    ensures
        more_items(items) == more_items(items.drop_last()) + ", "@ + py_text(items.last()),
    decreases items.len(),
{
    let rest = items.drop_first();
    if items.len() == 1 {
        assert(rest =~= Seq::<JsonView>::empty());
        assert(items.drop_last() =~= Seq::<JsonView>::empty());
        assert(more_items(items) =~= more_items(items.drop_last()) + ", "@ + py_text(items.last()));
    } else {
        more_items_last(rest);
        assert(rest.drop_last() =~= items.drop_last().drop_first());
        assert(more_items(items) =~= more_items(items.drop_last()) + ", "@ + py_text(items.last()));
    }
}

proof fn items_front(items: Seq<JsonView>)
    requires
        items.len() > 0,
    ensures
        items_text(items) == py_text(items[0]) + more_items(items.drop_first()),
    decreases items.len(),
{
    let rest = items.drop_first();
    let text = items_text(items);
    if items.len() == 1 {
        assert(items.drop_last() =~= Seq::<JsonView>::empty());
        assert(rest =~= Seq::<JsonView>::empty());
        assert(items_text(Seq::<JsonView>::empty()) =~= Seq::<char>::empty());
        assert(text =~= py_text(items[0]) + more_items(rest));
    } else {
        items_front(items.drop_last());
        more_items_last(rest);
        assert(rest.drop_last() =~= items.drop_last().drop_first());
        assert(text =~= py_text(items[0]) + more_items(rest));
    }
}

/// One member.
spec fn one_member(m: (Seq<char>, JsonView)) -> Seq<char> {
    quoted(m.0) + ": "@ + py_text(m.1)
}

/// The members after the first, each after its comma.
spec fn more_members(members: Members) -> Seq<char>
    decreases members,
{
    if members.len() == 0 {
        Seq::empty()
    } else {
        ", "@ + one_member(members[0]) + more_members(members.drop_first())
    }
}

proof fn more_members_last(members: Members)
    requires
        members.len() > 0,
    ensures
        more_members(members) == more_members(members.drop_last()) + ", "@ + one_member(
            members.last(),
        ),
    decreases members.len(),
{
    let rest = members.drop_first();
    let front = members.drop_last();
    if members.len() == 1 {
        assert(rest =~= Members::empty());
        assert(front =~= Members::empty());
        assert(more_members(members) =~= more_members(front) + ", "@ + one_member(members.last()));
    } else {
        more_members_last(rest);
        assert(rest.drop_last() =~= front.drop_first());
        assert(more_members(members) =~= more_members(front) + ", "@ + one_member(members.last()));
    }
}

proof fn members_front(members: Members)
    requires
        members.len() > 0,
    ensures
        members_text(members) == one_member(members[0]) + more_members(
            members.drop_first(),
        ),
    decreases members.len(),
{
    let rest = members.drop_first();
    let text = members_text(members);
    if members.len() == 1 {
        assert(members.drop_last() =~= Members::empty());
        assert(rest =~= Members::empty());
        assert(members_text(Members::empty()) =~= Seq::<char>::empty());
        assert(text =~= one_member(members[0]) + more_members(rest));
    } else {
        members_front(members.drop_last());
        more_members_last(rest);
        assert(rest.drop_last() =~= members.drop_last().drop_first());
        assert(text =~= one_member(members[0]) + more_members(rest));
    }
}

proof fn more_items_read(a: Seq<JsonView>, s: Seq<char>, b: Seq<JsonView>, t: Seq<char>)
    requires
        forall|i: int| 0 <= i < a.len() ==> floatless(#[trigger] a[i]),
        forall|i: int| 0 <= i < b.len() ==> floatless(#[trigger] b[i]),
        more_items(a) + ("]"@ + s) == more_items(b) + ("]"@ + t),
    ensures
        a == b,
        s == t,
    decreases a,
{
    literals();
    let x = more_items(a) + ("]"@ + s);
    let y = more_items(b) + ("]"@ + t);
    assert(x[0] == (if a.len() > 0 { ',' } else { ']' }));
    assert(y[0] == (if b.len() > 0 { ',' } else { ']' }));
    if a.len() > 0 {
        let ra = a.drop_first();
        let rb = b.drop_first();
        let u = more_items(ra) + ("]"@ + s);
        let w = more_items(rb) + ("]"@ + t);
        assert(x =~= ", "@ + (py_text(a[0]) + u));
        assert(y =~= ", "@ + (py_text(b[0]) + w));
        split_same(", "@, py_text(a[0]) + u, ", "@, py_text(b[0]) + w);
        assert(u[0] == ',' || u[0] == ']');
        assert(w[0] == ',' || w[0] == ']');
        value_read(a[0], u, b[0], w);
        assert forall|i: int| 0 <= i < ra.len() implies floatless(#[trigger] ra[i]) by {
            assert(ra[i] == a[i + 1]);
        }
        assert forall|i: int| 0 <= i < rb.len() implies floatless(#[trigger] rb[i]) by {
            assert(rb[i] == b[i + 1]);
        }
        more_items_read(ra, s, rb, t);
        assert(a =~= seq![a[0]] + ra);
        assert(b =~= seq![b[0]] + rb);
    } else {
        assert(a =~= b);
        assert(x =~= "]"@ + s);
        assert(y =~= "]"@ + t);
        split_same("]"@, s, "]"@, t);
    }
}

proof fn items_read(a: Seq<JsonView>, s: Seq<char>, b: Seq<JsonView>, t: Seq<char>)
    requires
        forall|i: int| 0 <= i < a.len() ==> floatless(#[trigger] a[i]),
        forall|i: int| 0 <= i < b.len() ==> floatless(#[trigger] b[i]),
        items_text(a) + ("]"@ + s) == items_text(b) + ("]"@ + t),
    ensures
        a == b,
        s == t,
    decreases a,
{
    literals();
    let x = items_text(a) + ("]"@ + s);
    let y = items_text(b) + ("]"@ + t);
    if a.len() > 0 {
        items_front(a);
        head_tells(a[0]);
        assert(x[0] == head(a[0]));
    } else {
        assert(x =~= "]"@ + s);
    }
    if b.len() > 0 {
        items_front(b);
        head_tells(b[0]);
        assert(y[0] == head(b[0]));
    } else {
        assert(y =~= "]"@ + t);
    }
    if a.len() > 0 {
        assert(b.len() > 0);
        let ra = a.drop_first();
        let rb = b.drop_first();
        let u = more_items(ra) + ("]"@ + s);
        let w = more_items(rb) + ("]"@ + t);
        assert(x =~= py_text(a[0]) + u);
        assert(y =~= py_text(b[0]) + w);
        assert(u[0] == ',' || u[0] == ']');
        assert(w[0] == ',' || w[0] == ']');
        value_read(a[0], u, b[0], w);
        assert forall|i: int| 0 <= i < ra.len() implies floatless(#[trigger] ra[i]) by {
            assert(ra[i] == a[i + 1]);
        }
        assert forall|i: int| 0 <= i < rb.len() implies floatless(#[trigger] rb[i]) by {
            assert(rb[i] == b[i + 1]);
        }
        more_items_read(ra, s, rb, t);
        assert(a =~= seq![a[0]] + ra);
        assert(b =~= seq![b[0]] + rb);
    } else {
        assert(b.len() == 0);
        assert(a =~= b);
        split_same("]"@, s, "]"@, t);
    }
}

proof fn member_read(
    a: (Seq<char>, JsonView),
    s: Seq<char>,
    b: (Seq<char>, JsonView),
    t: Seq<char>,
)
    requires
        floatless(a.1),
        floatless(b.1),
        one_member(a) + s == one_member(b) + t,
        ends_number(s),
        ends_number(t),
    ensures
        a == b,
        s == t,
    decreases a,
{
    let u = ": "@ + (py_text(a.1) + s);
    let w = ": "@ + (py_text(b.1) + t);
    assert(one_member(a) + s =~= quoted(a.0) + u);
    assert(one_member(b) + t =~= quoted(b.0) + w);
    quoted_read(a.0, u, b.0, w);
    split_same(": "@, py_text(a.1) + s, ": "@, py_text(b.1) + t);
    value_read(a.1, s, b.1, t);
}

proof fn more_members_read(a: Members, s: Seq<char>, b: Members, t: Seq<char>)
    requires
        forall|i: int| 0 <= i < a.len() ==> floatless((#[trigger] a[i]).1),
        forall|i: int| 0 <= i < b.len() ==> floatless((#[trigger] b[i]).1),
        more_members(a) + ("}"@ + s) == more_members(b) + ("}"@ + t),
    ensures
        a == b,
        s == t,
    decreases a,
{
    literals();
    let x = more_members(a) + ("}"@ + s);
    let y = more_members(b) + ("}"@ + t);
    assert(x[0] == (if a.len() > 0 { ',' } else { '}' }));
    assert(y[0] == (if b.len() > 0 { ',' } else { '}' }));
    if a.len() > 0 {
        let ra = a.drop_first();
        let rb = b.drop_first();
        let u = more_members(ra) + ("}"@ + s);
        let w = more_members(rb) + ("}"@ + t);
        assert(x =~= ", "@ + (one_member(a[0]) + u));
        assert(y =~= ", "@ + (one_member(b[0]) + w));
        split_same(", "@, one_member(a[0]) + u, ", "@, one_member(b[0]) + w);
        assert(u[0] == ',' || u[0] == '}');
        assert(w[0] == ',' || w[0] == '}');
        member_read(a[0], u, b[0], w);
        assert forall|i: int| 0 <= i < ra.len() implies floatless((#[trigger] ra[i]).1) by {
            assert(ra[i] == a[i + 1]);
        }
        assert forall|i: int| 0 <= i < rb.len() implies floatless((#[trigger] rb[i]).1) by {
            assert(rb[i] == b[i + 1]);
        }
        more_members_read(ra, s, rb, t);
        assert(a =~= seq![a[0]] + ra);
        assert(b =~= seq![b[0]] + rb);
    } else {
        assert(a =~= b);
        assert(x =~= "}"@ + s);
        assert(y =~= "}"@ + t);
        split_same("}"@, s, "}"@, t);
    }
}

proof fn members_read(a: Members, s: Seq<char>, b: Members, t: Seq<char>)
    requires
        forall|i: int| 0 <= i < a.len() ==> floatless((#[trigger] a[i]).1),
        forall|i: int| 0 <= i < b.len() ==> floatless((#[trigger] b[i]).1),
        members_text(a) + ("}"@ + s) == members_text(b) + ("}"@ + t),
    ensures
        a == b,
        s == t,
    decreases a,
{
    literals();
    let x = members_text(a) + ("}"@ + s);
    let y = members_text(b) + ("}"@ + t);
    if a.len() > 0 {
        members_front(a);
        assert(x[0] == '"');
    } else {
        assert(x =~= "}"@ + s);
    }
    if b.len() > 0 {
        members_front(b);
        assert(y[0] == '"');
    } else {
        assert(y =~= "}"@ + t);
    }
    if a.len() > 0 {
        assert(b.len() > 0);
        let ra = a.drop_first();
        let rb = b.drop_first();
        let u = more_members(ra) + ("}"@ + s);
        let w = more_members(rb) + ("}"@ + t);
        assert(x =~= one_member(a[0]) + u);
        assert(y =~= one_member(b[0]) + w);
        assert(u[0] == ',' || u[0] == '}');
        assert(w[0] == ',' || w[0] == '}');
        member_read(a[0], u, b[0], w);
        assert forall|i: int| 0 <= i < ra.len() implies floatless((#[trigger] ra[i]).1) by {
            assert(ra[i] == a[i + 1]);
        }
        assert forall|i: int| 0 <= i < rb.len() implies floatless((#[trigger] rb[i]).1) by {
            assert(rb[i] == b[i + 1]);
        }
        more_members_read(ra, s, rb, t);
        assert(a =~= seq![a[0]] + ra);
        assert(b =~= seq![b[0]] + rb);
    } else {
        assert(b.len() == 0);
        assert(a =~= b);
        split_same("}"@, s, "}"@, t);
    }
}

/// A value at the start of a text is determined, and so is what follows it.
proof fn value_read(a: JsonView, s: Seq<char>, b: JsonView, t: Seq<char>)
    requires
        floatless(a),
        floatless(b),
        py_text(a) + s == py_text(b) + t,
        ends_number(s),
        ends_number(t),
    ensures
        a == b,
        s == t,
    decreases a,
{
    literals();
    head_tells(a);
    head_tells(b);
    assert((py_text(a) + s)[0] == head(a));
    assert((py_text(b) + t)[0] == head(b));
    match a {
        JsonView::Null => {
            split_same("null"@, s, "null"@, t);
        },
        JsonView::Bool(_) => {
            split_same(py_text(a), s, py_text(b), t);
        },
        JsonView::Number(n) => {
            integer_read(n->Integer_0, s, b->Number_0->Integer_0, t);
        },
        JsonView::Text(p) => {
            quoted_read(p, s, b->Text_0, t);
        },
        JsonView::Array(items) => {
            let others = b->Array_0;
            let u = items_text(items) + ("]"@ + s);
            let w = items_text(others) + ("]"@ + t);
            assert(py_text(a) + s =~= "["@ + u);
            assert(py_text(b) + t =~= "["@ + w);
            split_same("["@, u, "["@, w);
            items_read(items, s, others, t);
        },
        JsonView::Object(members) => {
            let others = b->Object_0;
            let u = members_text(members) + ("}"@ + s);
            let w = members_text(others) + ("}"@ + t);
            assert(py_text(a) + s =~= "{"@ + u);
            assert(py_text(b) + t =~= "{"@ + w);
            split_same("{"@, u, "{"@, w);
            members_read(members, s, others, t);
        },
    }
}

/// Two values without floats that have the same text are the same value: the text tells
/// every string, every integer, and the members of every object in their order.
pub proof fn py_text_injective(a: JsonView, b: JsonView)
    requires
        floatless(a),
        floatless(b),
        py_text(a) == py_text(b),
    ensures
        a == b,
{
    let none = Seq::<char>::empty();
    assert(py_text(a) + none =~= py_text(b) + none);
    value_read(a, none, b, none);
}

} // verus!
