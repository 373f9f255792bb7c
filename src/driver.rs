//! The aggregation pass: candidate lines are parsed and counted into the
//! ledger, lines that fail to parse are tallied.
use vstd::prelude::*;
use crate::entity::lemma_decode_len;
use crate::ledger::{
    contact_views, distinct_addresses, lemma_record_step, lemma_rfind, record, record_spec,
    Contact, ContactView,
};
use crate::message::{
    lookup, parse_line, sms_tag, split_quote, strip_eq, strip_tag, text_field, tokens, Message,
};
use crate::text::{
    chars_of, has_prefix, is_ws, lemma_trim_end_prefix, lemma_trim_len, trim, trim_bounds,
    trim_end, trim_start,
};

verus! {

pub open spec fn sms_open() -> Seq<char> {
    seq!['<', 's', 'm', 's', ' ']
}

/// A line is handed to the parser when, leading whitespace aside, it starts
/// with `<sms `.
pub open spec fn is_candidate(line: Seq<char>) -> bool {
    has_prefix(trim_start(line), sms_open())
}

/// The ledger and the number of candidate lines that failed to parse, after
/// `lines` in order.
pub open spec fn analyze_spec(lines: Seq<Seq<char>>) -> (Seq<ContactView>, nat)
    decreases lines.len(),
{
    if lines.len() == 0 {
        (Seq::empty(), 0)
    } else {
        let (l, e) = analyze_spec(lines.drop_last());
        let line = lines.last();
        if is_candidate(line) {
            match parse_line(line) {
                Ok(m) => (record_spec(l, m), e),
                Err(_) => (l, e + 1),
            }
        } else {
            (l, e)
        }
    }
}

/// The number of characters in all of `lines`.
pub open spec fn total_chars(lines: Seq<Seq<char>>) -> nat
    decreases lines.len(),
{
    if lines.len() == 0 {
        0
    } else {
        total_chars(lines.drop_last()) + lines.last().len()
    }
}

pub open spec fn line_views(lines: Seq<String>) -> Seq<Seq<char>> {
    lines.map_values(|s: String| s@)
}

spec fn weight(c: ContactView) -> nat {
    c.count_to + c.length_to + c.count_from + c.length_from
}

proof fn lemma_total_prefix(lines: Seq<Seq<char>>, i: int)
    requires
        0 <= i <= lines.len(),
    ensures
        total_chars(lines.subrange(0, i)) <= total_chars(lines),
    decreases lines.len(),
{
    if i < lines.len() {
        assert(lines.drop_last().subrange(0, i) =~= lines.subrange(0, i));
        lemma_total_prefix(lines.drop_last(), i);
    } else {
        assert(lines.subrange(0, i) =~= lines);
    }
}

proof fn lemma_split_len(s: Seq<char>)
    ensures
        forall|i: int| 0 <= i < split_quote(s).len() ==> #[trigger] split_quote(s)[i].len() <= s.len(),
        split_quote(s).len() > 0,
    decreases s.len(),
{
    if s.len() > 0 {
        lemma_split_len(s.drop_last());
    }
}

proof fn lemma_lookup_in(t: Seq<Seq<char>>, name: Seq<char>, i: int)
    requires
        lookup(t, name, i) is Some,
    ensures
        exists|k: int| 0 <= k < t.len() && t[k] == lookup(t, name, i)->Some_0,
    decreases t.len() - i,
{
    if i >= 0 && i < t.len() && strip_eq(t[i]) != name {
        lemma_lookup_in(t, name, i + 1);
    } else {
        assert(t[i + 1] == lookup(t, name, i)->Some_0);
    }
}

/// A parsed candidate line's body is shorter than the line.
proof fn lemma_body_shorter(line: Seq<char>)
    requires
        is_candidate(line),
        parse_line(line) is Ok,
    ensures
        parse_line(line)->Ok_0.body.len() + 1 <= line.len(),
{
    let ts = trim_start(line);
    lemma_trim_len(line);
    lemma_trim_end_prefix(ts);
    let k = choose|k: int|
        0 <= k <= ts.len() && trim_end(ts) == ts.subrange(0, k) && (forall|j: int|
            0 <= j < ts.len() && !is_ws(ts[j]) ==> j < k);
    assert(ts.subrange(0, 5)[3] == 's');
    assert(!is_ws(ts[3]));
    let t = trim(line);
    assert(t.subrange(0, 4) =~= sms_tag());
    let r = strip_tag(t);
    let toks = tokens(line);
    lemma_split_len(r);
    let v = text_field(toks, "body"@)->Ok_0;
    lemma_lookup_in(toks, "body"@, 0);
    let idx = choose|idx: int| 0 <= idx < toks.len() && toks[idx] == v;
    lemma_trim_len(split_quote(r)[idx]);
    lemma_decode_len(v);
}

/// Whether `line` starts, leading whitespace aside, with `<sms `.
pub fn is_sms_line(line: &str) -> (r: bool)
    ensures
        r == is_candidate(line@),
{
    let c = chars_of(line);
    let (lo, _hi) = trim_bounds(&c);
    let n = c.len();
    if n - lo >= 5 && c[lo] == '<' && c[lo + 1] == 's' && c[lo + 2] == 'm' && c[lo + 3] == 's'
        && c[lo + 4] == ' ' {
        assert(c@.subrange(lo as int, n as int).subrange(0, 5) =~= sms_open());
        true
    } else {
        proof {
            let ts = c@.subrange(lo as int, n as int);
            if has_prefix(ts, sms_open()) {
                assert(ts.subrange(0, 5)[0] == ts[0]);
                assert(ts.subrange(0, 5)[1] == ts[1]);
                assert(ts.subrange(0, 5)[2] == ts[2]);
                assert(ts.subrange(0, 5)[3] == ts[3]);
                assert(ts.subrange(0, 5)[4] == ts[4]);
            }
        }
        false
    }
}

/// Runs the aggregation over `lines`: each candidate line is parsed and, on
/// success, counted into the ledger; each failure adds one to the error count.
/// Returns the ledger and the error count.
pub fn analyze(lines: &Vec<String>) -> (r: (Vec<Contact>, usize))
    requires
        total_chars(line_views(lines@)) <= usize::MAX,
    ensures
        (contact_views(r.0@), r.1 as nat) == analyze_spec(line_views(lines@)),
{
    let ghost all = line_views(lines@);
    let mut contacts: Vec<Contact> = Vec::new();
    let mut errors: usize = 0;
    assert(all.subrange(0, 0) =~= Seq::<Seq<char>>::empty());
    for i in 0..lines.len()
        invariant
            all == line_views(lines@),
            total_chars(all) <= usize::MAX,
            (contact_views(contacts@), errors as nat) == analyze_spec(all.subrange(0, i as int)),
            errors <= i,
            distinct_addresses(contact_views(contacts@)),
            forall|j: int|
                0 <= j < contacts.len() ==> weight(#[trigger] contact_views(contacts@)[j])
                    <= total_chars(all.subrange(0, i as int)),
    {
        let ghost pre = all.subrange(0, i as int);
        let ghost l0 = contact_views(contacts@);
        assert(all.subrange(0, i + 1).drop_last() =~= pre);
        assert(all[i as int] == lines@[i as int]@);
        proof {
            lemma_total_prefix(all, i + 1);
        }
        let line = &lines[i];
        if is_sms_line(line.as_str()) {
            match Message::read_from_xml(line.as_str()) {
                Ok(m) => {
                    proof {
                        lemma_body_shorter(line@);
                        lemma_record_step(l0, m@);
                        lemma_rfind(l0, m@.address);
                    }
                    record(m, &mut contacts);
                    proof {
                        let l = contact_views(contacts@);
                        assert forall|j: int| 0 <= j < contacts.len() implies weight(
                            #[trigger] contact_views(contacts@)[j],
                        ) <= total_chars(all.subrange(0, i + 1)) by {
                            if j < l.len() - 1 {
                                let k = choose|k: int|
                                    0 <= k < l0.len() && l[j] == #[trigger] l0[k] && l0[k].address
                                        != m@.address;
                            }
                        }
                    }
                },
                Err(_) => {
                    errors = errors + 1;
                },
            }
        }
    }
    assert(all.subrange(0, lines.len() as int) =~= all);
    (contacts, errors)
}

} // verus!
