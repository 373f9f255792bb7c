//! The line parser: one `<sms .../>` line into a [`Message`], looking each
//! attribute up by name.
use vstd::prelude::*;
use crate::entity::{decode, decode_chars};
use crate::number::{parse_i32, parse_i64, parse_int, parse_u32};
use crate::text::{chars_of, copy_range, has_prefix, string_of, trim, trim_chars};

verus! {

/// One SMS record.
#[derive(Debug, Clone, PartialEq, Eq)]
pub struct Message {
    pub protocol: u32,
    /// The number the message was sent to or received from.
    pub address: String,
    /// The contact's name, `null` where the export had none.
    pub contact_name: String,
    pub date: i64,
    pub readable_date: String,
    /// 1 for a received message, 2 for a sent one.
    pub type_: u32,
    pub subject: String,
    /// The text of the message, entities decoded.
    pub body: String,
    pub toa: String,
    pub sc_toa: String,
    pub service_center: String,
    pub read: bool,
    pub status: i32,
    pub locked: bool,
}

pub ghost struct MessageView {
    pub protocol: u32,
    pub address: Seq<char>,
    pub contact_name: Seq<char>,
    pub date: i64,
    pub readable_date: Seq<char>,
    pub type_: u32,
    pub subject: Seq<char>,
    pub body: Seq<char>,
    pub toa: Seq<char>,
    pub sc_toa: Seq<char>,
    pub service_center: Seq<char>,
    pub read: bool,
    pub status: i32,
    pub locked: bool,
}

impl View for Message {
    type V = MessageView;

    open spec fn view(&self) -> MessageView {
        MessageView {
            protocol: self.protocol,
            address: self.address@,
            contact_name: self.contact_name@,
            date: self.date,
            readable_date: self.readable_date@,
            type_: self.type_,
            subject: self.subject@,
            body: self.body@,
            toa: self.toa@,
            sc_toa: self.sc_toa@,
            service_center: self.service_center@,
            read: self.read,
            status: self.status,
            locked: self.locked,
        }
    }
}

/// Why a line could not be read.
#[derive(Debug, Clone, PartialEq, Eq)]
pub enum ParseError {
    /// The named attribute is absent.
    MissingField(String),
    /// The named attribute's value (second field) is no number of its type.
    InvalidNumber(String, String),
}

pub ghost enum ParseErrorView {
    MissingField(Seq<char>),
    InvalidNumber(Seq<char>, Seq<char>),
}

impl View for ParseError {
    type V = ParseErrorView;

    open spec fn view(&self) -> ParseErrorView {
        match self {
            ParseError::MissingField(n) => ParseErrorView::MissingField(n@),
            ParseError::InvalidNumber(n, v) => ParseErrorView::InvalidNumber(n@, v@),
        }
    }
}

pub open spec fn result_view(r: Result<Message, ParseError>) -> Result<MessageView, ParseErrorView> {
    match r {
        Ok(m) => Ok(m@),
        Err(e) => Err(e@),
    }
}

/// `s` cut at each `"`: the pieces between quotes, in order.
pub open spec fn split_quote(s: Seq<char>) -> Seq<Seq<char>>
    decreases s.len(),
{
    if s.len() == 0 {
        seq![Seq::empty()]
    } else {
        let r = split_quote(s.drop_last());
        if s.last() == '"' {
            r.push(Seq::empty())
        } else {
            r.update(r.len() - 1, r.last().push(s.last()))
        }
    }
}

pub open spec fn sms_tag() -> Seq<char> {
    seq!['<', 's', 'm', 's']
}

/// `t` without a leading `<sms`.
pub open spec fn strip_tag(t: Seq<char>) -> Seq<char> {
    if has_prefix(t, sms_tag()) {
        t.subrange(4, t.len() as int)
    } else {
        t
    }
}

/// The trimmed pieces of a line: attribute names (`name=`) alternate with values.
pub open spec fn tokens(line: Seq<char>) -> Seq<Seq<char>> {
    split_quote(strip_tag(trim(line))).map_values(|t: Seq<char>| trim(t))
}

/// `s` without its trailing `=` characters.
pub open spec fn strip_eq(s: Seq<char>) -> Seq<char>
    decreases s.len(),
{
    if s.len() > 0 && s.last() == '=' {
        strip_eq(s.drop_last())
    } else {
        s
    }
}

/// The value after the first token from `i` on that names `name`.
pub open spec fn lookup(t: Seq<Seq<char>>, name: Seq<char>, i: int) -> Option<Seq<char>>
    decreases t.len() - i,
{
    if i < 0 || i >= t.len() {
        None
    } else if strip_eq(t[i]) == name {
        if i + 1 < t.len() {
            Some(t[i + 1])
        } else {
            None
        }
    } else {
        lookup(t, name, i + 1)
    }
}

pub open spec fn text_field(t: Seq<Seq<char>>, name: Seq<char>) -> Result<Seq<char>, ParseErrorView> {
    match lookup(t, name, 0) {
        Some(v) => Ok(v),
        None => Err(ParseErrorView::MissingField(name)),
    }
}

pub open spec fn int_field(t: Seq<Seq<char>>, name: Seq<char>, signed: bool, min: int, max: int) -> Result<int, ParseErrorView> {
    match text_field(t, name) {
        Err(e) => Err(e),
        Ok(v) => match parse_int(v, signed, min, max) {
            Some(n) => Ok(n),
            None => Err(ParseErrorView::InvalidNumber(name, v)),
        },
    }
}

/// A flag is set exactly where its value is `1`.
pub open spec fn flag_field(t: Seq<Seq<char>>, name: Seq<char>) -> Result<bool, ParseErrorView> {
    match text_field(t, name) {
        Err(e) => Err(e),
        Ok(v) => Ok(v == seq!['1']),
    }
}

/// The message that the tokens give, or the first failing field's error,
/// fields taken in the order of the export's attributes.
pub open spec fn parse_tokens(t: Seq<Seq<char>>) -> Result<MessageView, ParseErrorView> {
    let protocol = int_field(t, "protocol"@, false, 0, u32::MAX as int);
    let address = text_field(t, "address"@);
    let contact_name = text_field(t, "contact_name"@);
    let date = int_field(t, "date"@, true, i64::MIN as int, i64::MAX as int);
    let readable_date = text_field(t, "readable_date"@);
    let type_ = int_field(t, "type"@, false, 0, u32::MAX as int);
    let subject = text_field(t, "subject"@);
    let body = text_field(t, "body"@);
    let toa = text_field(t, "toa"@);
    let sc_toa = text_field(t, "sc_toa"@);
    let service_center = text_field(t, "service_center"@);
    let read = flag_field(t, "read"@);
    let status = int_field(t, "status"@, true, i32::MIN as int, i32::MAX as int);
    let locked = flag_field(t, "locked"@);
    if protocol is Err {
        Err(protocol->Err_0)
    } else if address is Err {
        Err(address->Err_0)
    } else if contact_name is Err {
        Err(contact_name->Err_0)
    } else if date is Err {
        Err(date->Err_0)
    } else if readable_date is Err {
        Err(readable_date->Err_0)
    } else if type_ is Err {
        Err(type_->Err_0)
    } else if subject is Err {
        Err(subject->Err_0)
    } else if body is Err {
        Err(body->Err_0)
    } else if toa is Err {
        Err(toa->Err_0)
    } else if sc_toa is Err {
        Err(sc_toa->Err_0)
    } else if service_center is Err {
        Err(service_center->Err_0)
    } else if read is Err {
        Err(read->Err_0)
    } else if status is Err {
        Err(status->Err_0)
    } else if locked is Err {
        Err(locked->Err_0)
    } else {
        Ok(
            MessageView {
                protocol: protocol->Ok_0 as u32,
                address: address->Ok_0,
                contact_name: contact_name->Ok_0,
                date: date->Ok_0 as i64,
                readable_date: readable_date->Ok_0,
                type_: type_->Ok_0 as u32,
                subject: subject->Ok_0,
                body: decode(body->Ok_0),
                toa: toa->Ok_0,
                sc_toa: sc_toa->Ok_0,
                service_center: service_center->Ok_0,
                read: read->Ok_0,
                status: status->Ok_0 as i32,
                locked: locked->Ok_0,
            },
        )
    }
}

/// What reading `line` gives.
pub open spec fn parse_line(line: Seq<char>) -> Result<MessageView, ParseErrorView> {
    parse_tokens(tokens(line))
}

pub open spec fn views(v: Seq<Vec<char>>) -> Seq<Seq<char>> {
    v.map_values(|x: Vec<char>| x@)
}

pub(crate) fn split_quotes(s: &Vec<char>) -> (r: Vec<Vec<char>>)
    ensures
        views(r@) == split_quote(s@),
{
    let mut toks: Vec<Vec<char>> = Vec::new();
    let mut cur: Vec<char> = Vec::new();
    assert(split_quote(s@.subrange(0, 0)) =~= seq![Seq::<char>::empty()]);
    assert(views(toks@).push(cur@) =~= seq![Seq::<char>::empty()]);
    for i in 0..s.len()
        invariant
            views(toks@).push(cur@) == split_quote(s@.subrange(0, i as int)),
    {
        let c = s[i];
        let ghost pre = s@.subrange(0, i as int);
        assert(s@.subrange(0, i + 1).drop_last() =~= pre);
        if c == '"' {
            toks.push(cur);
            cur = Vec::new();
            assert(views(toks@).push(cur@) =~= split_quote(pre).push(Seq::empty()));
        } else {
            cur.push(c);
            assert(views(toks@).push(cur@) =~= split_quote(pre).update(
                split_quote(pre).len() - 1,
                split_quote(pre).last().push(c),
            ));
        }
    }
    toks.push(cur);
    assert(s@.subrange(0, s.len() as int) =~= s@);
    assert(views(toks@) =~= split_quote(s@));
    toks
}

fn trim_all(v: &Vec<Vec<char>>) -> (r: Vec<Vec<char>>)
    ensures
        views(r@) == views(v@).map_values(|t: Seq<char>| trim(t)),
{
    let mut r: Vec<Vec<char>> = Vec::new();
    for i in 0..v.len()
        invariant
            views(r@) == views(v@).subrange(0, i as int).map_values(|t: Seq<char>| trim(t)),
    {
        let ghost before = views(r@);
        r.push(trim_chars(&v[i]));
        assert(views(v@)[i as int] == v@[i as int]@);
        assert(views(r@) =~= before.push(trim(v@[i as int]@)));
        assert(views(r@) =~= views(v@).subrange(0, i + 1).map_values(|t: Seq<char>| trim(t)));
    }
    assert(views(v@).subrange(0, v.len() as int) =~= views(v@));
    r
}

/// The tokens of `line`, as [`tokens`] states.
fn line_tokens(line: &str) -> (r: Vec<Vec<char>>)
    ensures
        views(r@) == tokens(line@),
{
    let t = trim_chars(&chars_of(line));
    let n = t.len();
    let stripped = if n >= 4 && t[0] == '<' && t[1] == 's' && t[2] == 'm' && t[3] == 's' {
        assert(t@.subrange(0, 4) =~= sms_tag());
        copy_range(&t, 4, n)
    } else {
        proof {
            if has_prefix(t@, sms_tag()) {
                assert(t@.subrange(0, 4)[1] == 's');
            }
        }
        t
    };
    trim_all(&split_quotes(&stripped))
}

/// Whether `tok`, its trailing `=` taken off, is `name`.
fn names(tok: &Vec<char>, name: &Vec<char>) -> (r: bool)
    ensures
        r == (strip_eq(tok@) == name@),
{
    let mut k: usize = tok.len();
    assert(tok@.subrange(0, k as int) =~= tok@);
    while k > 0 && tok[k - 1] == '='
        invariant
            k <= tok.len(),
            strip_eq(tok@) == strip_eq(tok@.subrange(0, k as int)),
        decreases k,
    {
        assert(tok@.subrange(0, k as int).drop_last() =~= tok@.subrange(0, k - 1));
        k = k - 1;
    }
    let ghost stem = tok@.subrange(0, k as int);
    assert(strip_eq(tok@) == stem);
    if k != name.len() {
        return false;
    }
    for i in 0..k
        invariant
            k == name.len() <= tok.len(),
            stem == tok@.subrange(0, k as int),
            strip_eq(tok@) == stem,
            forall|j: int| 0 <= j < i ==> stem[j] == name@[j],
    {
        if tok[i] != name[i] {
            assert(stem[i as int] != name@[i as int]);
            return false;
        }
    }
    assert(stem =~= name@);
    true
}

/// The value of the attribute `name`, as [`lookup`] states.
fn find_value(t: &Vec<Vec<char>>, name: &Vec<char>) -> (r: Option<Vec<char>>)
    ensures
        match r {
            Some(v) => lookup(views(t@), name@, 0) == Some(v@),
            None => lookup(views(t@), name@, 0) is None,
        },
{
    let mut i: usize = 0;
    while i < t.len()
        invariant
            i <= t.len(),
            lookup(views(t@), name@, 0) == lookup(views(t@), name@, i as int),
        decreases t.len() - i,
    {
        if names(&t[i], name) {
            if i + 1 < t.len() {
                return Some(copy_range(&t[i + 1], 0, t[i + 1].len()));
            }
            return None;
        }
        i = i + 1;
    }
    None
}

fn missing(name: &str) -> (e: ParseError)
    ensures
        e@ == ParseErrorView::MissingField(name@),
{
    ParseError::MissingField(name.to_owned())
}

fn text_value(t: &Vec<Vec<char>>, name: &str) -> (r: Result<Vec<char>, ParseError>)
    ensures
        match r {
            Ok(v) => text_field(views(t@), name@) == Ok::<Seq<char>, ParseErrorView>(v@),
            Err(e) => text_field(views(t@), name@) == Err::<Seq<char>, ParseErrorView>(e@),
        },
{
    match find_value(t, &chars_of(name)) {
        Some(v) => Ok(v),
        None => Err(missing(name)),
    }
}

fn text_string(t: &Vec<Vec<char>>, name: &str) -> (r: Result<String, ParseError>)
    ensures
        match r {
            Ok(v) => text_field(views(t@), name@) == Ok::<Seq<char>, ParseErrorView>(v@),
            Err(e) => text_field(views(t@), name@) == Err::<Seq<char>, ParseErrorView>(e@),
        },
{
    match text_value(t, name) {
        Ok(v) => Ok(string_of(&v)),
        Err(e) => Err(e),
    }
}

fn invalid(name: &str, v: &Vec<char>) -> (e: ParseError)
    ensures
        e@ == ParseErrorView::InvalidNumber(name@, v@),
{
    ParseError::InvalidNumber(name.to_owned(), string_of(v))
}

fn u32_value(t: &Vec<Vec<char>>, name: &str) -> (r: Result<u32, ParseError>)
    ensures
        match r {
            Ok(n) => int_field(views(t@), name@, false, 0, u32::MAX as int) == Ok::<int, ParseErrorView>(n as int),
            Err(e) => int_field(views(t@), name@, false, 0, u32::MAX as int) == Err::<int, ParseErrorView>(e@),
        },
{
    match text_value(t, name) {
        Ok(v) => match parse_u32(&v) {
            Some(n) => Ok(n),
            None => Err(invalid(name, &v)),
        },
        Err(e) => Err(e),
    }
}

fn i64_value(t: &Vec<Vec<char>>, name: &str) -> (r: Result<i64, ParseError>)
    ensures
        match r {
            Ok(n) => int_field(views(t@), name@, true, i64::MIN as int, i64::MAX as int) == Ok::<int, ParseErrorView>(n as int),
            Err(e) => int_field(views(t@), name@, true, i64::MIN as int, i64::MAX as int) == Err::<int, ParseErrorView>(e@),
        },
{
    match text_value(t, name) {
        Ok(v) => match parse_i64(&v) {
            Some(n) => Ok(n),
            None => Err(invalid(name, &v)),
        },
        Err(e) => Err(e),
    }
}

fn i32_value(t: &Vec<Vec<char>>, name: &str) -> (r: Result<i32, ParseError>)
    ensures
        match r {
            Ok(n) => int_field(views(t@), name@, true, i32::MIN as int, i32::MAX as int) == Ok::<int, ParseErrorView>(n as int),
            Err(e) => int_field(views(t@), name@, true, i32::MIN as int, i32::MAX as int) == Err::<int, ParseErrorView>(e@),
        },
{
    match text_value(t, name) {
        Ok(v) => match parse_i32(&v) {
            Some(n) => Ok(n),
            None => Err(invalid(name, &v)),
        },
        Err(e) => Err(e),
    }
}

fn flag_value(t: &Vec<Vec<char>>, name: &str) -> (r: Result<bool, ParseError>)
    ensures
        match r {
            Ok(b) => flag_field(views(t@), name@) == Ok::<bool, ParseErrorView>(b),
            Err(e) => flag_field(views(t@), name@) == Err::<bool, ParseErrorView>(e@),
        },
{
    match text_value(t, name) {
        Ok(v) => {
            let set = v.len() == 1 && v[0] == '1';
            assert(set == (v@ == seq!['1'])) by {
                if v@ == seq!['1'] {
                    assert(v@[0] == '1');
                }
                if set {
                    assert(v@ =~= seq!['1']);
                }
            }
            Ok(set)
        },
        Err(e) => Err(e),
    }
}

impl Message {
    /// Reads one `<sms .../>` line: the line is trimmed, a leading `<sms` taken
    /// off, the rest cut at each `"`, and each attribute's value is the token
    /// after the first token that names it. `body` is decoded; `read` and
    /// `locked` are set where their value is `1`. The error is that of the first
    /// attribute, in the export's order, that is missing or no number.
    pub fn read_from_xml(line: &str) -> (r: Result<Message, ParseError>)
        ensures
            result_view(r) == parse_line(line@),
    {
        let t = line_tokens(line);
        let protocol = match u32_value(&t, "protocol") {
            Ok(v) => v,
            Err(e) => return Err(e),
        };
        let address = match text_string(&t, "address") {
            Ok(v) => v,
            Err(e) => return Err(e),
        };
        let contact_name = match text_string(&t, "contact_name") {
            Ok(v) => v,
            Err(e) => return Err(e),
        };
        let date = match i64_value(&t, "date") {
            Ok(v) => v,
            Err(e) => return Err(e),
        };
        let readable_date = match text_string(&t, "readable_date") {
            Ok(v) => v,
            Err(e) => return Err(e),
        };
        let type_ = match u32_value(&t, "type") {
            Ok(v) => v,
            Err(e) => return Err(e),
        };
        let subject = match text_string(&t, "subject") {
            Ok(v) => v,
            Err(e) => return Err(e),
        };
        let body = match text_value(&t, "body") {
            Ok(v) => decode_chars(&v),
            Err(e) => return Err(e),
        };
        let toa = match text_string(&t, "toa") {
            Ok(v) => v,
            Err(e) => return Err(e),
        };
        let sc_toa = match text_string(&t, "sc_toa") {
            Ok(v) => v,
            Err(e) => return Err(e),
        };
        let service_center = match text_string(&t, "service_center") {
            Ok(v) => v,
            Err(e) => return Err(e),
        };
        let read = match flag_value(&t, "read") {
            Ok(v) => v,
            Err(e) => return Err(e),
        };
        let status = match i32_value(&t, "status") {
            Ok(v) => v,
            Err(e) => return Err(e),
        };
        let locked = match flag_value(&t, "locked") {
            Ok(v) => v,
            Err(e) => return Err(e),
        };
        Ok(
            Message {
                protocol,
                address,
                contact_name,
                date,
                readable_date,
                type_,
                subject,
                body,
                toa,
                sc_toa,
                service_center,
                read,
                status,
                locked,
            },
        )
    }
}

} // verus!
