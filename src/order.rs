//! Attribute order independence: the line parser finds attributes by name,
//! so rearranging the `name="value"` attributes of a line leaves its message
//! unchanged.
use vstd::prelude::*;
use crate::message::{
    lookup, parse_line, parse_tokens, sms_tag, split_quote, strip_eq, strip_tag, tokens,
};
use crate::text::{is_ws, trim, trim_end, trim_start};

verus! {

/// The names of the attributes that a message needs.
pub open spec fn field_names() -> Seq<Seq<char>> {
    seq![
        "protocol"@,
        "address"@,
        "contact_name"@,
        "date"@,
        "readable_date"@,
        "type"@,
        "subject"@,
        "body"@,
        "toa"@,
        "sc_toa"@,
        "service_center"@,
        "read"@,
        "status"@,
        "locked"@,
    ]
}

/// The tokens of attributes `name="value"` in order: `name=`, then `value`.
pub open spec fn attr_tokens(attrs: Seq<(Seq<char>, Seq<char>)>) -> Seq<Seq<char>>
    decreases attrs.len(),
{
    if attrs.len() == 0 {
        Seq::empty()
    } else {
        attr_tokens(attrs.drop_last()) + seq![attrs.last().0.push('='), attrs.last().1]
    }
}

/// No token reads as the name of a needed attribute.
pub open spec fn names_no_field(t: Seq<Seq<char>>) -> bool {
    forall|k: int, f: int|
        0 <= k < t.len() && 0 <= f < field_names().len() ==> strip_eq(#[trigger] t[k])
            != #[trigger] field_names()[f]
}

/// Attributes that can be looked up by name: distinct names that end in no
/// `=`, and values that do not read as the name of a needed attribute.
pub open spec fn lookup_safe(attrs: Seq<(Seq<char>, Seq<char>)>) -> bool {
    &&& forall|i: int, j: int|
        0 <= i < attrs.len() && 0 <= j < attrs.len() && i != j ==> attrs[i].0 != attrs[j].0
    &&& forall|i: int|
        0 <= i < attrs.len() ==> (#[trigger] attrs[i]).0.len() == 0 || attrs[i].0.last() != '='
    &&& names_no_field(attrs.map_values(|a: (Seq<char>, Seq<char>)| a.1))
}

/// Each attribute of `a` is one of `b` and each of `b` one of `a`.
pub open spec fn same_attrs(a: Seq<(Seq<char>, Seq<char>)>, b: Seq<(Seq<char>, Seq<char>)>) -> bool {
    &&& forall|i: int| 0 <= i < a.len() ==> b.contains(#[trigger] a[i])
    &&& forall|j: int| 0 <= j < b.len() ==> a.contains(#[trigger] b[j])
}

proof fn lemma_attr_tokens(attrs: Seq<(Seq<char>, Seq<char>)>)
    ensures
        attr_tokens(attrs).len() == 2 * attrs.len(),
        forall|k: int|
            0 <= k < attrs.len() ==> attr_tokens(attrs)[2 * k] == (#[trigger] attrs[k]).0.push('=')
                && attr_tokens(attrs)[2 * k + 1] == attrs[k].1,
    decreases attrs.len(),
{
    if attrs.len() > 0 {
        lemma_attr_tokens(attrs.drop_last());
        assert forall|k: int| 0 <= k < attrs.len() implies attr_tokens(attrs)[2 * k] == (
        #[trigger] attrs[k]).0.push('=') && attr_tokens(attrs)[2 * k + 1] == attrs[k].1 by {
            if k < attrs.len() - 1 {
                assert(attrs.drop_last()[k] == attrs[k]);
            }
        }
    }
}

proof fn lemma_strip_eq_push(n: Seq<char>)
    requires
        n.len() == 0 || n.last() != '=',
    ensures
        strip_eq(n.push('=')) == n,
{
    assert(n.push('=').drop_last() =~= n);
    assert(strip_eq(n) == n);
}

/// Where no token from `i` on before `j` names `name`, the lookup from `i`
/// is the lookup from `j`.
proof fn lemma_lookup_skip(t: Seq<Seq<char>>, name: Seq<char>, i: int, j: int)
    requires
        0 <= i <= j <= t.len(),
        forall|k: int| i <= k < j ==> strip_eq(#[trigger] t[k]) != name,
    ensures
        lookup(t, name, i) == lookup(t, name, j),
    decreases j - i,
{
    if i < j {
        lemma_lookup_skip(t, name, i + 1, j);
    }
}

/// Looking up a needed attribute in the tokens of lookup-safe attributes
/// followed by tokens that name none gives that attribute's value, or nothing
/// where no attribute has that name.
proof fn lemma_lookup_attrs(attrs: Seq<(Seq<char>, Seq<char>)>, tail: Seq<Seq<char>>, f: int)
    requires
        lookup_safe(attrs),
        names_no_field(tail),
        0 <= f < field_names().len(),
    ensures
        ({
            let t = attr_tokens(attrs) + tail;
            let n = field_names()[f];
            &&& forall|k: int|
                0 <= k < attrs.len() && (#[trigger] attrs[k]).0 == n ==> lookup(t, n, 0) == Some(
                    attrs[k].1,
                )
            &&& (forall|k: int| 0 <= k < attrs.len() ==> (#[trigger] attrs[k]).0 != n) ==> lookup(
                t,
                n,
                0,
            ) is None
        }),
{
    let t = attr_tokens(attrs) + tail;
    let n = field_names()[f];
    let vals = attrs.map_values(|a: (Seq<char>, Seq<char>)| a.1);
    lemma_attr_tokens(attrs);
    let m = 2 * attrs.len();
    assert forall|k: int| 0 <= k < attrs.len() && (#[trigger] attrs[k]).0 == n implies lookup(
        t,
        n,
        0,
    ) == Some(attrs[k].1) by {
        assert forall|x: int| 0 <= x < 2 * k implies strip_eq(#[trigger] t[x]) != n by {
            let a = x / 2;
            assert(0 <= a < k && (x == 2 * a || x == 2 * a + 1));
            if x == 2 * a {
                lemma_strip_eq_push(attrs[a].0);
                assert(t[x] == attrs[a].0.push('='));
            } else {
                assert(t[x] == vals[a]);
                assert(strip_eq(vals[a]) != field_names()[f]);
            }
        }
        lemma_lookup_skip(t, n, 0, 2 * k);
        lemma_strip_eq_push(attrs[k].0);
        assert(t[2 * k] == attrs[k].0.push('='));
        assert(t[2 * k + 1] == attrs[k].1);
    }
    if forall|k: int| 0 <= k < attrs.len() ==> (#[trigger] attrs[k]).0 != n {
        assert forall|x: int| 0 <= x < t.len() implies strip_eq(#[trigger] t[x]) != n by {
            if x < m {
                let a = x / 2;
                assert(0 <= a < attrs.len() && (x == 2 * a || x == 2 * a + 1));
                if x == 2 * a {
                    lemma_strip_eq_push(attrs[a].0);
                    assert(t[x] == attrs[a].0.push('='));
                } else {
                    assert(t[x] == vals[a]);
                    assert(strip_eq(vals[a]) != field_names()[f]);
                }
            } else {
                assert(t[x] == tail[x - m]);
                assert(strip_eq(tail[x - m]) != field_names()[f]);
            }
        }
        lemma_lookup_skip(t, n, 0, t.len() as int);
    }
}

/// The order of the attributes does not matter: two arrangements of the same
/// lookup-safe attributes, followed by the same tokens that name no needed
/// attribute, parse to the same message or fail with the same error.
pub proof fn lemma_attribute_order_irrelevant(
    a: Seq<(Seq<char>, Seq<char>)>,
    b: Seq<(Seq<char>, Seq<char>)>,
    tail: Seq<Seq<char>>,
)
    requires
        lookup_safe(a),
        lookup_safe(b),
        same_attrs(a, b),
        names_no_field(tail),
    ensures
        parse_tokens(attr_tokens(a) + tail) == parse_tokens(attr_tokens(b) + tail),
{
    let ta = attr_tokens(a) + tail;
    let tb = attr_tokens(b) + tail;
    assert forall|f: int| 0 <= f < field_names().len() implies lookup(ta, field_names()[f], 0)
        == lookup(tb, field_names()[f], 0) by {
        let n = field_names()[f];
        lemma_lookup_attrs(a, tail, f);
        lemma_lookup_attrs(b, tail, f);
        if exists|k: int| 0 <= k < a.len() && (#[trigger] a[k]).0 == n {
            let k = choose|k: int| 0 <= k < a.len() && (#[trigger] a[k]).0 == n;
            assert(b.contains(a[k]));
            let j = choose|j: int| 0 <= j < b.len() && b[j] == a[k];
        } else if exists|j: int| 0 <= j < b.len() && (#[trigger] b[j]).0 == n {
            let j = choose|j: int| 0 <= j < b.len() && (#[trigger] b[j]).0 == n;
            assert(a.contains(b[j]));
            let k = choose|k: int| 0 <= k < a.len() && a[k] == b[j];
            assert(a[k].0 == n);
        }
    }
    assert(lookup(ta, "protocol"@, 0) == lookup(tb, "protocol"@, 0)) by { assert(field_names()[0] == "protocol"@); }
    assert(lookup(ta, "address"@, 0) == lookup(tb, "address"@, 0)) by { assert(field_names()[1] == "address"@); }
    assert(lookup(ta, "contact_name"@, 0) == lookup(tb, "contact_name"@, 0)) by { assert(field_names()[2] == "contact_name"@); }
    assert(lookup(ta, "date"@, 0) == lookup(tb, "date"@, 0)) by { assert(field_names()[3] == "date"@); }
    assert(lookup(ta, "readable_date"@, 0) == lookup(tb, "readable_date"@, 0)) by { assert(field_names()[4] == "readable_date"@); }
    assert(lookup(ta, "type"@, 0) == lookup(tb, "type"@, 0)) by { assert(field_names()[5] == "type"@); }
    assert(lookup(ta, "subject"@, 0) == lookup(tb, "subject"@, 0)) by { assert(field_names()[6] == "subject"@); }
    assert(lookup(ta, "body"@, 0) == lookup(tb, "body"@, 0)) by { assert(field_names()[7] == "body"@); }
    assert(lookup(ta, "toa"@, 0) == lookup(tb, "toa"@, 0)) by { assert(field_names()[8] == "toa"@); }
    assert(lookup(ta, "sc_toa"@, 0) == lookup(tb, "sc_toa"@, 0)) by { assert(field_names()[9] == "sc_toa"@); }
    assert(lookup(ta, "service_center"@, 0) == lookup(tb, "service_center"@, 0)) by { assert(field_names()[10] == "service_center"@); }
    assert(lookup(ta, "read"@, 0) == lookup(tb, "read"@, 0)) by { assert(field_names()[11] == "read"@); }
    assert(lookup(ta, "status"@, 0) == lookup(tb, "status"@, 0)) by { assert(field_names()[12] == "status"@); }
    assert(lookup(ta, "locked"@, 0) == lookup(tb, "locked"@, 0)) by { assert(field_names()[13] == "locked"@); }
}

/// One attribute as the export writes it: ` name="value"`.
pub open spec fn attr_text(a: (Seq<char>, Seq<char>)) -> Seq<char> {
    seq![' '] + a.0 + seq!['=', '"'] + a.1 + seq!['"']
}

/// The attributes written one after the other.
pub open spec fn attrs_text(attrs: Seq<(Seq<char>, Seq<char>)>) -> Seq<char>
    decreases attrs.len(),
{
    if attrs.len() == 0 {
        Seq::empty()
    } else {
        attrs_text(attrs.drop_last()) + attr_text(attrs.last())
    }
}

/// A record line with the given attributes: `<sms name="value" ... />`.
pub open spec fn line_of(attrs: Seq<(Seq<char>, Seq<char>)>) -> Seq<char> {
    seq!['<', 's', 'm', 's'] + attrs_text(attrs) + seq![' ', '/', '>']
}

pub open spec fn no_quote(s: Seq<char>) -> bool {
    forall|i: int| 0 <= i < s.len() ==> s[i] != '"'
}

/// Attributes that a line can hold as written: names that are not empty and
/// start with no whitespace, no `"` in names or values, and values with no
/// whitespace at either end.
pub open spec fn writable(attrs: Seq<(Seq<char>, Seq<char>)>) -> bool {
    forall|i: int|
        0 <= i < attrs.len() ==> {
            let (n, v) = #[trigger] attrs[i];
            &&& n.len() > 0 && !is_ws(n[0])
            &&& no_quote(n) && no_quote(v)
            &&& v.len() > 0 ==> !is_ws(v[0]) && !is_ws(v.last())
        }
}

/// The pieces between the quotes of `attrs_text(attrs)`, untrimmed.
spec fn raw_tokens(attrs: Seq<(Seq<char>, Seq<char>)>) -> Seq<Seq<char>>
    decreases attrs.len(),
{
    if attrs.len() == 0 {
        Seq::empty()
    } else {
        raw_tokens(attrs.drop_last()) + seq![seq![' '] + attrs.last().0 + seq!['='], attrs.last().1]
    }
}

proof fn lemma_raw_tokens(attrs: Seq<(Seq<char>, Seq<char>)>)
    ensures
        raw_tokens(attrs).len() == 2 * attrs.len(),
        forall|k: int|
            0 <= k < attrs.len() ==> raw_tokens(attrs)[2 * k] == seq![' '] + (
            #[trigger] attrs[k]).0 + seq!['='] && raw_tokens(attrs)[2 * k + 1] == attrs[k].1,
    decreases attrs.len(),
{
    if attrs.len() > 0 {
        lemma_raw_tokens(attrs.drop_last());
        assert forall|k: int| 0 <= k < attrs.len() implies raw_tokens(attrs)[2 * k] == seq![' ']
            + (#[trigger] attrs[k]).0 + seq!['='] && raw_tokens(attrs)[2 * k + 1] == attrs[k].1 by {
            if k < attrs.len() - 1 {
                assert(attrs.drop_last()[k] == attrs[k]);
            }
        }
    }
}

proof fn lemma_split_nonempty(s: Seq<char>)
    ensures
        split_quote(s).len() >= 1,
    decreases s.len(),
{
    if s.len() > 0 {
        lemma_split_nonempty(s.drop_last());
    }
}

proof fn lemma_split_no_quote(s: Seq<char>)
    requires
        no_quote(s),
    ensures
        split_quote(s) == seq![s],
    decreases s.len(),
{
    if s.len() == 0 {
        assert(s =~= Seq::<char>::empty());
        assert(split_quote(s) =~= seq![s]);
    } else {
        assert(no_quote(s.drop_last()));
        lemma_split_no_quote(s.drop_last());
        assert(s[s.len() - 1] != '"');
        assert(s.drop_last().push(s.last()) =~= s);
        assert(split_quote(s) =~= seq![s]);
    }
}

/// Cutting a concatenation at quotes: the last piece of `x` joins the first
/// piece of `y`.
proof fn lemma_split_concat(x: Seq<char>, y: Seq<char>)
    ensures
        split_quote(x + y) == split_quote(x).drop_last() + seq![
            split_quote(x).last() + split_quote(y)[0],
        ] + split_quote(y).drop_first(),
    decreases y.len(),
{
    lemma_split_nonempty(x);
    lemma_split_nonempty(y);
    let sx = split_quote(x);
    if y.len() == 0 {
        assert(x + y =~= x);
        assert(sx.last() + split_quote(y)[0] =~= sx.last());
        assert(sx.drop_last() + seq![sx.last() + split_quote(y)[0]] + split_quote(y).drop_first()
            =~= sx);
    } else {
        let y1 = y.drop_last();
        let c = y.last();
        lemma_split_concat(x, y1);
        lemma_split_nonempty(y1);
        assert((x + y).drop_last() =~= x + y1);
        assert((x + y).last() == c);
        let s1 = split_quote(y1);
        if c == '"' {
            assert(split_quote(y).drop_first() =~= s1.drop_first().push(Seq::empty()));
            assert(split_quote(x + y) =~= sx.drop_last() + seq![sx.last() + split_quote(y)[0]]
                + split_quote(y).drop_first());
        } else if s1.len() == 1 {
            assert((sx.last() + s1[0]).push(c) =~= sx.last() + s1[0].push(c));
            assert(split_quote(y).drop_first() =~= Seq::<Seq<char>>::empty());
            assert(split_quote(x + y) =~= sx.drop_last() + seq![sx.last() + split_quote(y)[0]]
                + split_quote(y).drop_first());
        } else {
            assert(split_quote(y).drop_first() =~= s1.drop_first().update(
                s1.len() - 2,
                s1.last().push(c),
            ));
            assert(split_quote(x + y) =~= sx.drop_last() + seq![sx.last() + split_quote(y)[0]]
                + split_quote(y).drop_first());
        }
    }
}

proof fn lemma_split_attr(a: (Seq<char>, Seq<char>))
    requires
        no_quote(a.0),
        no_quote(a.1),
    ensures
        split_quote(attr_text(a)) == seq![seq![' '] + a.0 + seq!['='], a.1, Seq::<char>::empty()],
{
    let n = seq![' '] + a.0 + seq!['='];
    assert(no_quote(n));
    lemma_split_no_quote(n);
    lemma_split_no_quote(a.1);
    let nq = n.push('"');
    assert(nq.drop_last() =~= n);
    assert(split_quote(nq) =~= seq![n, Seq::<char>::empty()]);
    lemma_split_concat(nq, a.1);
    assert(Seq::<char>::empty() + a.1 =~= a.1);
    assert(split_quote(nq + a.1) =~= seq![n, a.1]);
    let full = (nq + a.1).push('"');
    assert(full.drop_last() =~= nq + a.1);
    assert(full =~= attr_text(a));
    assert(split_quote(full) =~= seq![n, a.1, Seq::<char>::empty()]);
}

proof fn lemma_split_attrs(attrs: Seq<(Seq<char>, Seq<char>)>)
    requires
        writable(attrs),
    ensures
        split_quote(attrs_text(attrs)) == raw_tokens(attrs).push(Seq::empty()),
    decreases attrs.len(),
{
    if attrs.len() == 0 {
        assert(split_quote(attrs_text(attrs)) =~= raw_tokens(attrs).push(Seq::empty()));
    } else {
        let rest = attrs.drop_last();
        let a = attrs.last();
        assert(writable(rest)) by {
            assert forall|i: int| 0 <= i < rest.len() implies rest[i] == attrs[i] by {}
        }
        assert(attrs[attrs.len() - 1] == a);
        lemma_split_attrs(rest);
        lemma_split_attr(a);
        lemma_split_concat(attrs_text(rest), attr_text(a));
        let n = seq![' '] + a.0 + seq!['='];
        assert(Seq::<char>::empty() + n =~= n);
        assert(split_quote(attrs_text(attrs)) =~= raw_tokens(attrs).push(Seq::empty()));
    }
}

proof fn lemma_trim_fixed(v: Seq<char>)
    requires
        v.len() > 0 ==> !is_ws(v[0]) && !is_ws(v.last()),
    ensures
        trim(v) == v,
{
}

proof fn lemma_line_body(attrs: Seq<(Seq<char>, Seq<char>)>)
    ensures
        strip_tag(trim(line_of(attrs))) == attrs_text(attrs) + seq![' ', '/', '>'],
{
    let line = line_of(attrs);
    let body = attrs_text(attrs) + seq![' ', '/', '>'];
    assert(line =~= seq!['<', 's', 'm', 's'] + body);
    assert(line[0] == '<');
    assert(trim_start(line) == line);
    assert(line.last() == '>');
    assert(trim_end(line) == line);
    assert(line.subrange(0, 4) =~= sms_tag());
    assert(line.subrange(4, line.len() as int) =~= body);
}

proof fn lemma_trim_name(n: Seq<char>)
    requires
        n.len() > 0,
        !is_ws(n[0]),
    ensures
        trim(seq![' '] + n + seq!['=']) == n.push('='),
{
    let t = seq![' '] + n + seq!['='];
    assert(t[0] == ' ');
    assert(t.drop_first() =~= n.push('='));
    assert(n.push('=')[0] == n[0]);
    assert(trim_start(n.push('=')) == n.push('='));
    assert(trim_start(t) == n.push('='));
    lemma_trim_fixed(n.push('='));
}

proof fn lemma_trim_close()
    ensures
        trim(seq![' ', '/', '>']) == seq!['/', '>'],
{
    let sp = seq![' ', '/', '>'];
    assert(sp.drop_first() =~= seq!['/', '>']);
    assert(trim_start(seq!['/', '>']) == seq!['/', '>']);
    assert(trim_start(sp) == seq!['/', '>']);
    lemma_trim_fixed(seq!['/', '>']);
}

/// The tokens of a written line are its attributes' tokens, then `/>`.
proof fn lemma_line_tokens(attrs: Seq<(Seq<char>, Seq<char>)>)
    requires
        writable(attrs),
    ensures
        tokens(line_of(attrs)) == attr_tokens(attrs) + seq![seq!['/', '>']],
{
    let body = attrs_text(attrs) + seq![' ', '/', '>'];
    lemma_line_body(attrs);
    lemma_split_attrs(attrs);
    lemma_split_no_quote(seq![' ', '/', '>']);
    lemma_split_concat(attrs_text(attrs), seq![' ', '/', '>']);
    assert(Seq::<char>::empty() + seq![' ', '/', '>'] =~= seq![' ', '/', '>']);
    let raw = raw_tokens(attrs).push(seq![' ', '/', '>']);
    assert(split_quote(body) =~= raw);
    lemma_raw_tokens(attrs);
    lemma_attr_tokens(attrs);
    let want = attr_tokens(attrs) + seq![seq!['/', '>']];
    let got = raw.map_values(|t: Seq<char>| trim(t));
    assert forall|i: int| 0 <= i < want.len() implies got[i] == want[i] by {
        if i == want.len() - 1 {
            lemma_trim_close();
        } else {
            let k = i / 2;
            assert(0 <= k < attrs.len() && (i == 2 * k || i == 2 * k + 1));
            let (n, v) = attrs[k];
            if i == 2 * k {
                lemma_trim_name(n);
            } else {
                lemma_trim_fixed(v);
            }
        }
    }
    assert(got =~= want);
}

/// Rearranging the attributes of a written line leaves what it parses to
/// unchanged: the same message, or the same error.
pub proof fn lemma_line_order_irrelevant(
    a: Seq<(Seq<char>, Seq<char>)>,
    b: Seq<(Seq<char>, Seq<char>)>,
)
    requires
        lookup_safe(a),
        lookup_safe(b),
        writable(a),
        writable(b),
        same_attrs(a, b),
    ensures
        parse_line(line_of(a)) == parse_line(line_of(b)),
{
    lemma_line_tokens(a);
    lemma_line_tokens(b);
    let tail = seq![seq!['/', '>']];
    reveal_strlit("protocol");
    reveal_strlit("address");
    reveal_strlit("contact_name");
    reveal_strlit("date");
    reveal_strlit("readable_date");
    reveal_strlit("type");
    reveal_strlit("subject");
    reveal_strlit("body");
    reveal_strlit("toa");
    reveal_strlit("sc_toa");
    reveal_strlit("service_center");
    reveal_strlit("read");
    reveal_strlit("status");
    reveal_strlit("locked");
    assert(strip_eq(seq!['/', '>']) == seq!['/', '>']);
    assert forall|k: int, f: int| 0 <= k < tail.len() && 0 <= f < field_names().len() implies strip_eq(
        #[trigger] tail[k],
    ) != #[trigger] field_names()[f] by {
        assert(field_names()[f].len() >= 3);
    }
    lemma_attribute_order_irrelevant(a, b, tail);
}

} // verus!
