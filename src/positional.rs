//! Reading a line whose attributes stand in the export's fixed order: the
//! line is cut at each `"` and the values are taken by position.
use vstd::prelude::*;
use crate::entity::{decode, decode_chars, desanitize};
use crate::message::{
    result_view, split_quote, split_quotes, views, Message, MessageView, ParseError, ParseErrorView,
};
use crate::number::{parse_i32, parse_i64, parse_int, parse_u32};
use crate::text::{chars_of, copy_range, string_of};

verus! {

/// The piece at position `k`, or `name` reported missing.
pub open spec fn piece_at(t: Seq<Seq<char>>, k: int, name: Seq<char>) -> Result<Seq<char>, ParseErrorView> {
    if 0 <= k < t.len() {
        Ok(t[k])
    } else {
        Err(ParseErrorView::MissingField(name))
    }
}

pub open spec fn int_at(t: Seq<Seq<char>>, k: int, name: Seq<char>, signed: bool, min: int, max: int) -> Result<int, ParseErrorView> {
    match piece_at(t, k, name) {
        Err(e) => Err(e),
        Ok(v) => match parse_int(v, signed, min, max) {
            Some(n) => Ok(n),
            None => Err(ParseErrorView::InvalidNumber(name, v)),
        },
    }
}

/// A flag is a 32-bit integer, set where it is 1.
pub open spec fn flag_at(t: Seq<Seq<char>>, k: int, name: Seq<char>) -> Result<bool, ParseErrorView> {
    match int_at(t, k, name, true, i32::MIN as int, i32::MAX as int) {
        Err(e) => Err(e),
        Ok(n) => Ok(n == 1),
    }
}

/// The message that the pieces give by position, or the first failing
/// field's error.
pub open spec fn positional_pieces(t: Seq<Seq<char>>) -> Result<MessageView, ParseErrorView> {
    let protocol = int_at(t, 1, "protocol"@, false, 0, u32::MAX as int);
    let address = piece_at(t, 3, "address"@);
    let contact_name = piece_at(t, 5, "contact_name"@);
    let date = int_at(t, 7, "date"@, true, i64::MIN as int, i64::MAX as int);
    let readable_date = piece_at(t, 9, "readable_date"@);
    let type_ = int_at(t, 11, "type"@, false, 0, u32::MAX as int);
    let subject = piece_at(t, 13, "subject"@);
    let body = piece_at(t, 15, "body"@);
    let toa = piece_at(t, 17, "toa"@);
    let sc_toa = piece_at(t, 19, "sc_toa"@);
    let service_center = piece_at(t, 21, "service_center"@);
    let read = flag_at(t, 23, "read"@);
    let status = int_at(t, 25, "status"@, true, i32::MIN as int, i32::MAX as int);
    let locked = flag_at(t, 27, "locked"@);
    if protocol is Err {
        Err(protocol->Err_0)
    } else if address is Err {
        Err(address->Err_0)
    } else if contact_name is Err {
        Err(contact_name->Err_0)
    } else if date is Err {
        Err(date->Err_0)
    } else if readable_date is Err {
        Err(readable_date->Err_0)
    } else if type_ is Err {
        Err(type_->Err_0)
    } else if subject is Err {
        Err(subject->Err_0)
    } else if body is Err {
        Err(body->Err_0)
    } else if toa is Err {
        Err(toa->Err_0)
    } else if sc_toa is Err {
        Err(sc_toa->Err_0)
    } else if service_center is Err {
        Err(service_center->Err_0)
    } else if read is Err {
        Err(read->Err_0)
    } else if status is Err {
        Err(status->Err_0)
    } else if locked is Err {
        Err(locked->Err_0)
    } else {
        Ok(
            MessageView {
                protocol: protocol->Ok_0 as u32,
                address: address->Ok_0,
                contact_name: contact_name->Ok_0,
                date: date->Ok_0 as i64,
                readable_date: readable_date->Ok_0,
                type_: type_->Ok_0 as u32,
                subject: subject->Ok_0,
                body: decode(body->Ok_0),
                toa: toa->Ok_0,
                sc_toa: sc_toa->Ok_0,
                service_center: service_center->Ok_0,
                read: read->Ok_0,
                status: status->Ok_0 as i32,
                locked: locked->Ok_0,
            },
        )
    }
}

fn piece(t: &Vec<Vec<char>>, k: usize, name: &str) -> (r: Result<Vec<char>, ParseError>)
    ensures
        match r {
            Ok(v) => piece_at(views(t@), k as int, name@) == Ok::<Seq<char>, ParseErrorView>(v@),
            Err(e) => piece_at(views(t@), k as int, name@) == Err::<Seq<char>, ParseErrorView>(e@),
        },
{
    if k < t.len() {
        let v = copy_range(&t[k], 0, t[k].len());
        assert(views(t@)[k as int] == t@[k as int]@);
        assert(v@ =~= t@[k as int]@);
        Ok(v)
    } else {
        Err(ParseError::MissingField(name.to_owned()))
    }
}

fn piece_string(t: &Vec<Vec<char>>, k: usize, name: &str) -> (r: Result<String, ParseError>)
    ensures
        match r {
            Ok(v) => piece_at(views(t@), k as int, name@) == Ok::<Seq<char>, ParseErrorView>(v@),
            Err(e) => piece_at(views(t@), k as int, name@) == Err::<Seq<char>, ParseErrorView>(e@),
        },
{
    match piece(t, k, name) {
        Ok(v) => Ok(string_of(&v)),
        Err(e) => Err(e),
    }
}

fn u32_at(t: &Vec<Vec<char>>, k: usize, name: &str) -> (r: Result<u32, ParseError>)
    ensures
        match r {
            Ok(n) => int_at(views(t@), k as int, name@, false, 0, u32::MAX as int) == Ok::<int, ParseErrorView>(n as int),
            Err(e) => int_at(views(t@), k as int, name@, false, 0, u32::MAX as int) == Err::<int, ParseErrorView>(e@),
        },
{
    match piece(t, k, name) {
        Ok(v) => match parse_u32(&v) {
            Some(n) => Ok(n),
            None => Err(ParseError::InvalidNumber(name.to_owned(), string_of(&v))),
        },
        Err(e) => Err(e),
    }
}

fn i64_at(t: &Vec<Vec<char>>, k: usize, name: &str) -> (r: Result<i64, ParseError>)
    ensures
        match r {
            Ok(n) => int_at(views(t@), k as int, name@, true, i64::MIN as int, i64::MAX as int) == Ok::<int, ParseErrorView>(n as int),
            Err(e) => int_at(views(t@), k as int, name@, true, i64::MIN as int, i64::MAX as int) == Err::<int, ParseErrorView>(e@),
        },
{
    match piece(t, k, name) {
        Ok(v) => match parse_i64(&v) {
            Some(n) => Ok(n),
            None => Err(ParseError::InvalidNumber(name.to_owned(), string_of(&v))),
        },
        Err(e) => Err(e),
    }
}

fn i32_at(t: &Vec<Vec<char>>, k: usize, name: &str) -> (r: Result<i32, ParseError>)
    ensures
        match r {
            Ok(n) => int_at(views(t@), k as int, name@, true, i32::MIN as int, i32::MAX as int) == Ok::<int, ParseErrorView>(n as int),
            Err(e) => int_at(views(t@), k as int, name@, true, i32::MIN as int, i32::MAX as int) == Err::<int, ParseErrorView>(e@),
        },
{
    match piece(t, k, name) {
        Ok(v) => match parse_i32(&v) {
            Some(n) => Ok(n),
            None => Err(ParseError::InvalidNumber(name.to_owned(), string_of(&v))),
        },
        Err(e) => Err(e),
    }
}

fn flag_at_exec(t: &Vec<Vec<char>>, k: usize, name: &str) -> (r: Result<bool, ParseError>)
    ensures
        match r {
            Ok(b) => flag_at(views(t@), k as int, name@) == Ok::<bool, ParseErrorView>(b),
            Err(e) => flag_at(views(t@), k as int, name@) == Err::<bool, ParseErrorView>(e@),
        },
{
    match i32_at(t, k, name) {
        Ok(n) => Ok(n == 1),
        Err(e) => Err(e),
    }
}

/// Decodes a message body, as [`desanitize`] does.
pub fn parse_body(unclean: &str) -> (clean: String)
    ensures
        clean@ == decode(unclean@),
{
    desanitize(unclean)
}

/// Reads a line whose attributes stand in the export's order (`protocol`,
/// `address`, `contact_name`, `date`, `readable_date`, `type`, `subject`,
/// `body`, `toa`, `sc_toa`, `service_center`, `read`, `status`, `locked`):
/// the line is cut at each `"` and the value of the n-th attribute is piece
/// 2n - 1. `read` and `locked` are 32-bit integers, set where they are 1.
pub fn read_xml_line(line: &str) -> (r: Result<Message, ParseError>)
    ensures
        result_view(r) == positional_pieces(split_quote(line@)),
{
    let t = split_quotes(&chars_of(line));
    let protocol = match u32_at(&t, 1, "protocol") {
        Ok(v) => v,
        Err(e) => return Err(e),
    };
    let address = match piece_string(&t, 3, "address") {
        Ok(v) => v,
        Err(e) => return Err(e),
    };
    let contact_name = match piece_string(&t, 5, "contact_name") {
        Ok(v) => v,
        Err(e) => return Err(e),
    };
    let date = match i64_at(&t, 7, "date") {
        Ok(v) => v,
        Err(e) => return Err(e),
    };
    let readable_date = match piece_string(&t, 9, "readable_date") {
        Ok(v) => v,
        Err(e) => return Err(e),
    };
    let type_ = match u32_at(&t, 11, "type") {
        Ok(v) => v,
        Err(e) => return Err(e),
    };
    let subject = match piece_string(&t, 13, "subject") {
        Ok(v) => v,
        Err(e) => return Err(e),
    };
    let body = match piece(&t, 15, "body") {
        Ok(v) => decode_chars(&v),
        Err(e) => return Err(e),
    };
    let toa = match piece_string(&t, 17, "toa") {
        Ok(v) => v,
        Err(e) => return Err(e),
    };
    let sc_toa = match piece_string(&t, 19, "sc_toa") {
        Ok(v) => v,
        Err(e) => return Err(e),
    };
    let service_center = match piece_string(&t, 21, "service_center") {
        Ok(v) => v,
        Err(e) => return Err(e),
    };
    let read = match flag_at_exec(&t, 23, "read") {
        Ok(v) => v,
        Err(e) => return Err(e),
    };
    let status = match i32_at(&t, 25, "status") {
        Ok(v) => v,
        Err(e) => return Err(e),
    };
    let locked = match flag_at_exec(&t, 27, "locked") {
        Ok(v) => v,
        Err(e) => return Err(e),
    };
    Ok(
        Message {
            protocol,
            address,
            contact_name,
            date,
            readable_date,
            type_,
            subject,
            body,
            toa,
            sc_toa,
            service_center,
            read,
            status,
            locked,
        },
    )
}

} // verus!
