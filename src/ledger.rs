//! The contact ledger: per-address message and character counts, kept in the
//! order in which addresses were last touched.
use vstd::prelude::*;
use vstd::string::*;
use crate::message::{Message, MessageView};

verus! {

/// The running totals for one address.
#[derive(Debug, Clone, PartialEq, Eq)]
pub struct Contact {
    pub address: String,
    pub contact_name: String,
    /// Messages sent to this address.
    pub count_to: usize,
    /// Characters sent to this address.
    pub length_to: usize,
    /// Messages received from this address.
    pub count_from: usize,
    /// Characters received from this address.
    pub length_from: usize,
}

pub ghost struct ContactView {
    pub address: Seq<char>,
    pub contact_name: Seq<char>,
    pub count_to: nat,
    pub length_to: nat,
    pub count_from: nat,
    pub length_from: nat,
}

impl View for Contact {
    type V = ContactView;

    open spec fn view(&self) -> ContactView {
        ContactView {
            address: self.address@,
            contact_name: self.contact_name@,
            count_to: self.count_to as nat,
            length_to: self.length_to as nat,
            count_from: self.count_from as nat,
            length_from: self.length_from as nat,
        }
    }
}

pub open spec fn sent(m: MessageView) -> bool {
    m.type_ == 2
}

pub open spec fn received(m: MessageView) -> bool {
    m.type_ == 1
}

/// `c` with `m` counted: a sent message adds to the `to` pair, a received one
/// to the `from` pair, any other type to neither.
pub open spec fn bump(c: ContactView, m: MessageView) -> ContactView {
    ContactView {
        count_to: c.count_to + if sent(m) { 1nat } else { 0nat },
        length_to: c.length_to + if sent(m) { m.body.len() } else { 0nat },
        count_from: c.count_from + if received(m) { 1nat } else { 0nat },
        length_from: c.length_from + if received(m) { m.body.len() } else { 0nat },
        ..c
    }
}

/// Whether counting `m` into `c` keeps every counter within `usize`.
pub open spec fn fits(c: ContactView, m: MessageView) -> bool {
    let b = bump(c, m);
    &&& b.count_to <= usize::MAX
    &&& b.length_to <= usize::MAX
    &&& b.count_from <= usize::MAX
    &&& b.length_from <= usize::MAX
}

/// A contact for `m`'s address with nothing counted.
pub open spec fn fresh(m: MessageView) -> ContactView {
    ContactView {
        address: m.address,
        contact_name: m.contact_name,
        count_to: 0,
        length_to: 0,
        count_from: 0,
        length_from: 0,
    }
}

pub open spec fn contact_views(v: Seq<Contact>) -> Seq<ContactView> {
    v.map_values(|c: Contact| c@)
}

/// The last position of the ledger that holds address `a`.
pub open spec fn rfind(l: Seq<ContactView>, a: Seq<char>) -> Option<int>
    decreases l.len(),
{
    if l.len() == 0 {
        None
    } else if l.last().address == a {
        Some(l.len() - 1)
    } else {
        rfind(l.drop_last(), a)
    }
}

/// The contact that `m` is counted into: the last one with its address, or a
/// fresh one.
pub open spec fn target(l: Seq<ContactView>, m: MessageView) -> ContactView {
    match rfind(l, m.address) {
        Some(i) => l[i],
        None => fresh(m),
    }
}

/// The ledger after `m`: its contact taken out, counted, and put at the end.
pub open spec fn record_spec(l: Seq<ContactView>, m: MessageView) -> Seq<ContactView> {
    let rest = match rfind(l, m.address) {
        Some(i) => l.remove(i),
        None => l,
    };
    rest.push(bump(target(l, m), m))
}

/// The ledger after each message of `msgs`, in order, from an empty one.
pub open spec fn ledger_of(msgs: Seq<MessageView>) -> Seq<ContactView>
    decreases msgs.len(),
{
    if msgs.len() == 0 {
        Seq::empty()
    } else {
        record_spec(ledger_of(msgs.drop_last()), msgs.last())
    }
}

pub proof fn lemma_rfind(l: Seq<ContactView>, a: Seq<char>)
    ensures
        match rfind(l, a) {
            Some(i) => 0 <= i < l.len() && l[i].address == a && forall|j: int|
                i < j < l.len() ==> l[j].address != a,
            None => forall|j: int| 0 <= j < l.len() ==> l[j].address != a,
        },
    decreases l.len(),
{
    if l.len() > 0 {
        lemma_rfind(l.drop_last(), a);
        assert(forall|j: int| 0 <= j < l.len() - 1 ==> l.drop_last()[j] == l[j]);
    }
}

/// The last position of `contacts` whose address is `address`.
fn last_with(contacts: &Vec<Contact>, address: &String) -> (r: Option<usize>)
    ensures
        match r {
            Some(n) => rfind(contact_views(contacts@), address@) == Some(n as int),
            None => rfind(contact_views(contacts@), address@) is None,
        },
{
    let ghost l = contact_views(contacts@);
    let mut i: usize = contacts.len();
    assert(l.subrange(0, i as int) =~= l);
    while i > 0
        invariant
            i <= contacts.len(),
            l == contact_views(contacts@),
            rfind(l, address@) == rfind(l.subrange(0, i as int), address@),
        decreases i,
    {
        assert(l.subrange(0, i as int).drop_last() =~= l.subrange(0, i - 1));
        if contacts[i - 1].address == *address {
            return Some(i - 1);
        }
        i = i - 1;
    }
    None
}

/// No two contacts of the ledger share an address.
pub open spec fn distinct_addresses(l: Seq<ContactView>) -> bool {
    forall|i: int, j: int|
        0 <= i < l.len() && 0 <= j < l.len() && i != j ==> l[i].address != l[j].address
}

/// The messages of `msgs` with address `a` that were sent or received.
pub open spec fn directed(msgs: Seq<MessageView>, a: Seq<char>) -> nat
    decreases msgs.len(),
{
    if msgs.len() == 0 {
        0
    } else {
        directed(msgs.drop_last(), a) + if msgs.last().address == a && (sent(msgs.last())
            || received(msgs.last())) {
            1nat
        } else {
            0nat
        }
    }
}

/// Some message of `msgs` has address `a`.
pub open spec fn some_message_has(msgs: Seq<MessageView>, a: Seq<char>) -> bool {
    exists|k: int| 0 <= k < msgs.len() && #[trigger] msgs[k].address == a
}

/// Some contact of `l` has address `a`.
pub open spec fn some_contact_has(l: Seq<ContactView>, a: Seq<char>) -> bool {
    exists|j: int| 0 <= j < l.len() && #[trigger] l[j].address == a
}

/// `c` is a contact of `l` whose address is not `a`.
pub open spec fn kept_from(l: Seq<ContactView>, c: ContactView, a: Seq<char>) -> bool {
    exists|k: int| 0 <= k < l.len() && c == #[trigger] l[k] && l[k].address != a
}

pub proof fn lemma_record_step(l: Seq<ContactView>, m: MessageView)
    requires
        distinct_addresses(l),
    ensures
        ({
            let r = record_spec(l, m);
            &&& r.len() > 0
            &&& r.last() == bump(target(l, m), m)
            &&& r.last().address == m.address
            &&& distinct_addresses(r)
            &&& forall|j: int| 0 <= j < r.len() - 1 ==> kept_from(l, #[trigger] r[j], m.address)
            &&& forall|k: int|
                0 <= k < l.len() && l[k].address != m.address ==> exists|j: int|
                    0 <= j < r.len() - 1 && #[trigger] r[j] == l[k]
        }),
{
    let r = record_spec(l, m);
    lemma_rfind(l, m.address);
    match rfind(l, m.address) {
        Some(i) => {
            assert(r.last().address == m.address);
            assert forall|j: int| 0 <= j < r.len() - 1 implies kept_from(l, #[trigger] r[j], m.address) by {
                let k = if j < i { j } else { j + 1 };
                assert(r[j] == l[k]);
            }
            assert forall|k: int| 0 <= k < l.len() && l[k].address != m.address implies exists|j: int|
                0 <= j < r.len() - 1 && #[trigger] r[j] == l[k] by {
                let j = if k < i { k } else { k - 1 };
                assert(r[j] == l[k]);
            }
            assert forall|x: int, y: int|
                0 <= x < r.len() && 0 <= y < r.len() && x != y implies r[x].address
                != r[y].address by {
                if x < r.len() - 1 {
                    let kx = if x < i { x } else { x + 1 };
                    assert(r[x] == l[kx]);
                }
                if y < r.len() - 1 {
                    let ky = if y < i { y } else { y + 1 };
                    assert(r[y] == l[ky]);
                }
            }
        },
        None => {
            assert forall|j: int| 0 <= j < r.len() - 1 implies kept_from(l, #[trigger] r[j], m.address) by {
                assert(r[j] == l[j]);
            }
            assert forall|k: int| 0 <= k < l.len() && l[k].address != m.address implies exists|j: int|
                0 <= j < r.len() - 1 && #[trigger] r[j] == l[k] by {
                assert(r[k] == l[k]);
            }
            assert forall|x: int, y: int|
                0 <= x < r.len() && 0 <= y < r.len() && x != y implies r[x].address
                != r[y].address by {
                if x < r.len() - 1 {
                    assert(r[x] == l[x]);
                }
                if y < r.len() - 1 {
                    assert(r[y] == l[y]);
                }
            }
        },
    }
}

proof fn lemma_directed_none(msgs: Seq<MessageView>, a: Seq<char>)
    requires
        forall|k: int| 0 <= k < msgs.len() ==> msgs[k].address != a,
    ensures
        directed(msgs, a) == 0,
    decreases msgs.len(),
{
    if msgs.len() > 0 {
        lemma_directed_none(msgs.drop_last(), a);
    }
}

/// What holds of the ledger after any sequence of messages: addresses are
/// distinct, a contact's address is that of some message and each message's
/// address has a contact, and each contact counts, over both directions, the
/// sent or received messages of its address.
pub proof fn lemma_ledger_invariant(msgs: Seq<MessageView>)
    ensures
        ({
            let l = ledger_of(msgs);
            &&& distinct_addresses(l)
            &&& forall|j: int| 0 <= j < l.len() ==> some_message_has(msgs, #[trigger] l[j].address)
            &&& forall|k: int| 0 <= k < msgs.len() ==> some_contact_has(l, #[trigger] msgs[k].address)
            &&& forall|j: int|
                0 <= j < l.len() ==> #[trigger] l[j].count_to + l[j].count_from == directed(
                    msgs,
                    l[j].address,
                )
        }),
    decreases msgs.len(),
{
    if msgs.len() > 0 {
        let p = msgs.drop_last();
        let m = msgs.last();
        let l0 = ledger_of(p);
        let l = ledger_of(msgs);
        lemma_ledger_invariant(p);
        lemma_record_step(l0, m);
        lemma_rfind(l0, m.address);
        assert forall|j: int| 0 <= j < l.len() implies some_message_has(msgs, #[trigger] l[j].address) by {
            if j == l.len() - 1 {
                assert(msgs[msgs.len() - 1].address == l[j].address);
            } else {
                let k0 = choose|k0: int|
                    0 <= k0 < l0.len() && l[j] == #[trigger] l0[k0] && l0[k0].address != m.address;
                assert(some_message_has(p, l0[k0].address));
                let k = choose|k: int| 0 <= k < p.len() && #[trigger] p[k].address == l0[k0].address;
                assert(msgs[k] == p[k]);
            }
        }
        assert forall|k: int| 0 <= k < msgs.len() implies some_contact_has(l, #[trigger] msgs[k].address) by {
            if k == msgs.len() - 1 || msgs[k].address == m.address {
                assert(l[l.len() - 1].address == msgs[k].address);
            } else {
                assert(msgs[k] == p[k]);
                assert(some_contact_has(l0, p[k].address));
                let j0 = choose|j0: int| 0 <= j0 < l0.len() && #[trigger] l0[j0].address == p[k].address;
                let j = choose|j: int| 0 <= j < l.len() - 1 && #[trigger] l[j] == l0[j0];
            }
        }
        assert forall|j: int| 0 <= j < l.len() implies #[trigger] l[j].count_to + l[j].count_from
            == directed(msgs, l[j].address) by {
            if j == l.len() - 1 {
                match rfind(l0, m.address) {
                    Some(i) => {
                        assert(l0[i].count_to + l0[i].count_from == directed(p, l0[i].address));
                    },
                    None => {
                        assert forall|k: int| 0 <= k < p.len() implies p[k].address != m.address by {
                            if p[k].address == m.address {
                                assert(some_contact_has(l0, p[k].address));
                                let j0 = choose|j0: int|
                                    0 <= j0 < l0.len() && #[trigger] l0[j0].address == p[k].address;
                            }
                        }
                        lemma_directed_none(p, m.address);
                    },
                }
            } else {
                let k0 = choose|k0: int|
                    0 <= k0 < l0.len() && l[j] == #[trigger] l0[k0] && l0[k0].address != m.address;
                assert(l0[k0].count_to + l0[k0].count_from == directed(p, l0[k0].address));
            }
        }
    }
}

/// For every address `a`, at most one contact holds it, one does exactly when
/// some message has it, and that contact's sent and received messages together
/// number the messages of address `a` whose type is sent or received.
pub proof fn lemma_counts_match_messages(msgs: Seq<MessageView>, a: Seq<char>)
    ensures
        ({
            let l = ledger_of(msgs);
            &&& forall|i: int, j: int|
                0 <= i < l.len() && 0 <= j < l.len() && l[i].address == a && l[j].address == a
                    ==> i == j
            &&& some_contact_has(l, a) <==> some_message_has(msgs, a)
            &&& forall|j: int|
                0 <= j < l.len() && l[j].address == a ==> l[j].count_to + l[j].count_from
                    == directed(msgs, a)
        }),
{
    lemma_ledger_invariant(msgs);
    let l = ledger_of(msgs);
    if some_message_has(msgs, a) {
        let k = choose|k: int| 0 <= k < msgs.len() && #[trigger] msgs[k].address == a;
        assert(some_contact_has(l, msgs[k].address));
    }
    if some_contact_has(l, a) {
        let j = choose|j: int| 0 <= j < l.len() && #[trigger] l[j].address == a;
        assert(some_message_has(msgs, l[j].address));
    }
}

/// Two messages of one address, counted one after the other into an empty
/// ledger, leave a single contact whose counters are the sums of both.
pub proof fn lemma_same_address_merges(m1: MessageView, m2: MessageView)
    requires
        m1.address == m2.address,
    ensures
        ({
            let l = record_spec(record_spec(Seq::empty(), m1), m2);
            &&& l == seq![bump(bump(fresh(m1), m1), m2)]
            &&& l.len() == 1
            &&& l[0].address == m1.address
            &&& l[0].contact_name == m1.contact_name
            &&& l[0].count_to == (if sent(m1) { 1nat } else { 0nat }) + (if sent(m2) { 1nat } else { 0nat })
            &&& l[0].length_to == (if sent(m1) { m1.body.len() } else { 0nat }) + (if sent(m2) { m2.body.len() } else { 0nat })
            &&& l[0].count_from == (if received(m1) { 1nat } else { 0nat }) + (if received(m2) { 1nat } else { 0nat })
            &&& l[0].length_from == (if received(m1) { m1.body.len() } else { 0nat }) + (if received(m2) { m2.body.len() } else { 0nat })
        }),
{
    let l1 = record_spec(Seq::empty(), m1);
    assert(l1 =~= seq![bump(fresh(m1), m1)]);
    assert(l1.drop_last() =~= Seq::<ContactView>::empty());
    assert(rfind(l1, m2.address) == Some(0int));
    assert(l1.remove(0) =~= Seq::<ContactView>::empty());
    assert(record_spec(l1, m2) =~= seq![bump(bump(fresh(m1), m1), m2)]);
}

impl Contact {
    /// A contact with nothing counted yet.
    pub fn new(contact_name: &str, address: &str) -> (c: Contact)
        ensures
            c@ == (ContactView {
                address: address@,
                contact_name: contact_name@,
                count_to: 0,
                length_to: 0,
                count_from: 0,
                length_from: 0,
            }),
    {
        Contact {
            address: address.to_owned(),
            contact_name: contact_name.to_owned(),
            count_to: 0,
            length_to: 0,
            count_from: 0,
            length_from: 0,
        }
    }

    /// This contact with `message` counted: type 2 adds one message and the
    /// body's characters to the `to` pair, type 1 to the `from` pair.
    pub fn record(self, message: &Message) -> (c: Contact)
        requires
            fits(self@, message@),
        ensures
            c@ == bump(self@, message@),
    {
        let len = message.body.as_str().unicode_len();
        Contact {
            address: self.address,
            contact_name: self.contact_name,
            count_to: self.count_to + if message.type_ == 2 { 1 } else { 0 },
            length_to: self.length_to + if message.type_ == 2 { len } else { 0 },
            count_from: self.count_from + if message.type_ == 1 { 1 } else { 0 },
            length_from: self.length_from + if message.type_ == 1 { len } else { 0 },
        }
    }
}

/// Counts `message` into the ledger: the last contact with its address is
/// taken out, or a fresh one made, and the counted contact is appended.
pub fn record(message: Message, contacts: &mut Vec<Contact>)
    requires
        fits(target(contact_views(old(contacts)@), message@), message@),
    ensures
        contact_views(final(contacts)@) == record_spec(contact_views(old(contacts)@), message@),
{
    let ghost l = contact_views(contacts@);
    let found = last_with(contacts, &message.address);
    proof {
        lemma_rfind(l, message@.address);
    }
    let contact = match found {
        Some(n) => contacts.remove(n),
        None => Contact::new(message.contact_name.as_str(), message.address.as_str()),
    };
    proof {
        if let Some(n) = found {
            assert(contact_views(contacts@) =~= l.remove(n as int));
        }
    }
    let ghost rest = contact_views(contacts@);
    contacts.push(contact.record(&message));
    assert(contact_views(contacts@) =~= rest.push(bump(target(l, message@), message@)));
    assert(contact_views(contacts@) =~= record_spec(l, message@));
}

} // verus!
