//! Decoding of the five named XML character entities.
use vstd::prelude::*;
use crate::text::{chars_of, push_char};

verus! {

/// The character that a buffered entity token (`&` and its name, without the
/// closing `;`) stands for; an unknown token becomes `?`.
pub open spec fn entity_char(tok: Seq<char>) -> char {
    if tok == seq!['&', 'a', 'p', 'o', 's'] {
        '\''
    } else if tok == seq!['&', 'a', 'm', 'p'] {
        '&'
    } else if tok == seq!['&', 'g', 't'] {
        '>'
    } else if tok == seq!['&', 'l', 't'] {
        '<'
    } else if tok == seq!['&', 'q', 'u', 'o', 't'] {
        '"'
    } else {
        '?'
    }
}

/// The decoder's state after reading `s`: the text emitted so far, and the
/// entity token being buffered (empty when no `&` is open).
pub open spec fn decode_state(s: Seq<char>) -> (Seq<char>, Seq<char>)
    decreases s.len(),
{
    if s.len() == 0 {
        (Seq::empty(), Seq::empty())
    } else {
        let (out, tok) = decode_state(s.drop_last());
        let c = s.last();
        if c == '&' {
            (out, seq!['&'])
        } else if c == ';' && tok.len() > 0 {
            (out.push(entity_char(tok)), Seq::empty())
        } else if tok.len() > 0 {
            (out, tok.push(c))
        } else {
            (out.push(c), tok)
        }
    }
}

/// The decoded text: entity tokens replaced, a token left open at the end dropped.
pub open spec fn decode(s: Seq<char>) -> Seq<char> {
    decode_state(s).0
}

/// Decoding never lengthens the text.
pub proof fn lemma_decode_len(s: Seq<char>)
    ensures
        decode_state(s).0.len() + decode_state(s).1.len() <= s.len(),
        decode(s).len() <= s.len(),
    decreases s.len(),
{
    if s.len() > 0 {
        lemma_decode_len(s.drop_last());
    }
}

fn token_char(tok: &Vec<char>) -> (r: char)
    ensures
        r == entity_char(tok@),
{
    let n = tok.len();
    if n == 5 && tok[0] == '&' && tok[1] == 'a' && tok[2] == 'p' && tok[3] == 'o' && tok[4] == 's' {
        assert(tok@ =~= seq!['&', 'a', 'p', 'o', 's']);
        '\''
    } else if n == 4 && tok[0] == '&' && tok[1] == 'a' && tok[2] == 'm' && tok[3] == 'p' {
        assert(tok@ =~= seq!['&', 'a', 'm', 'p']);
        '&'
    } else if n == 3 && tok[0] == '&' && tok[1] == 'g' && tok[2] == 't' {
        assert(tok@ =~= seq!['&', 'g', 't']);
        '>'
    } else if n == 3 && tok[0] == '&' && tok[1] == 'l' && tok[2] == 't' {
        assert(tok@ =~= seq!['&', 'l', 't']);
        '<'
    } else if n == 5 && tok[0] == '&' && tok[1] == 'q' && tok[2] == 'u' && tok[3] == 'o' && tok[4] == 't' {
        assert(tok@ =~= seq!['&', 'q', 'u', 'o', 't']);
        '"'
    } else {
        '?'
    }
}

/// Decodes the characters of `s`, as [`decode`] states.
pub fn decode_chars(s: &Vec<char>) -> (r: String)
    ensures
        r@ == decode(s@),
        r@.len() <= s@.len(),
{
    let mut clean = String::new();
    let mut tok: Vec<char> = Vec::new();
    for i in 0..s.len()
        invariant
            decode_state(s@.subrange(0, i as int)) == (clean@, tok@),
    {
        let c = s[i];
        assert(s@.subrange(0, i as int) =~= s@.subrange(0, i + 1).drop_last());
        if c == '&' {
            tok = Vec::new();
            tok.push('&');
            assert(tok@ =~= seq!['&']);
        } else if c == ';' && tok.len() > 0 {
            push_char(&mut clean, token_char(&tok));
            tok = Vec::new();
            assert(tok@ =~= Seq::<char>::empty());
        } else if tok.len() > 0 {
            tok.push(c);
        } else {
            push_char(&mut clean, c);
        }
    }
    assert(s@.subrange(0, s.len() as int) =~= s@);
    proof {
        lemma_decode_len(s@);
    }
    clean
}

/// Replaces each entity token `&apos;`, `&amp;`, `&gt;`, `&lt;`, `&quot;` by
/// its character and any other `&...;` token by `?`; a `&` that is never
/// closed drops the rest of the text.
pub fn desanitize(unclean: &str) -> (clean: String)
    ensures
        clean@ == decode(unclean@),
        clean@.len() <= unclean@.len(),
{
    decode_chars(&chars_of(unclean))
}

} // verus!
