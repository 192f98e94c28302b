//! Finding a token in the `Cookie` headers of a request.
use vstd::prelude::*;
use vstd::string::StrSliceExecFns;
use crate::text::chars_of;

verus! {

/// Unicode's White_Space characters: those that `char::is_whitespace`
/// accepts and `str::trim` strips.
pub open spec fn is_white(c: char) -> bool {
    ('\t' <= c && c <= '\r') || c == ' ' || c == '\u{85}' || c == '\u{A0}' || c == '\u{1680}'
        || ('\u{2000}' <= c && c <= '\u{200A}') || c == '\u{2028}' || c == '\u{2029}'
        || c == '\u{202F}' || c == '\u{205F}' || c == '\u{3000}'
}

pub open spec fn trimmed_start(s: Seq<char>) -> Seq<char>
    decreases s.len(),
{
    if s.len() > 0 && is_white(s[0]) {
        trimmed_start(s.drop_first())
    } else {
        s
    }
}

pub open spec fn trimmed_end(s: Seq<char>) -> Seq<char>
    decreases s.len(),
{
    if s.len() > 0 && is_white(s.last()) {
        trimmed_end(s.drop_last())
    } else {
        s
    }
}

/// `s` without its leading and trailing white space.
pub open spec fn trimmed(s: Seq<char>) -> Seq<char> {
    trimmed_end(trimmed_start(s))
}

/// The index of the first `c` in `s` from `i` on, or the length of `s`.
pub open spec fn first_index(s: Seq<char>, c: char, i: int) -> int
    decreases s.len() - i,
{
    if i < 0 || i >= s.len() {
        s.len() as int
    } else if s[i] == c {
        i
    } else {
        first_index(s, c, i + 1)
    }
}

/// The name and value that cookie's `Cookie::parse` reads from a text: in
/// its first `;`-separated part, what stands before the first `=` and what
/// stands after it, both trimmed; nothing where that part has no `=` or the
/// name is empty.
pub open spec fn cookie_pair(s: Seq<char>) -> Option<(Seq<char>, Seq<char>)> {
    let part = s.subrange(0, first_index(s, ';', 0));
    let eq = first_index(part, '=', 0);
    if eq >= part.len() {
        None
    } else {
        let name = trimmed(part.subrange(0, eq));
        if name.len() == 0 {
            None
        } else {
            Some((name, trimmed(part.subrange(eq + 1, part.len() as int))))
        }
    }
}

/// Relies on cookie's `Cookie::parse`, which does no percent-decoding, takes
/// the name and value from the first `;`-separated part, trims both with
/// `str::trim`, refuses a part without `=` or with an empty name, and never
/// refuses for the attributes that follow.
#[verifier::external_body]
fn parse_cookie(s: &str) -> (r: Option<(String, String)>)
    ensures
        match r {
            Some((n, v)) => cookie_pair(s@) == Some((n@, v@)),
            None => cookie_pair(s@) is None,
        },
{
    match cookie::Cookie::parse(s) {
        Ok(c) => Some((c.name().to_owned(), c.value().to_owned())),
        Err(_) => None,
    }
}

/// The pieces of `s` from `i` on, split at each ';', the current piece
/// having begun at `start`.
pub open spec fn split_from(s: Seq<char>, i: int, start: int) -> Seq<Seq<char>>
    decreases s.len() - i,
{
    if i >= s.len() {
        seq![s.subrange(start, s.len() as int)]
    } else if s[i] == ';' {
        seq![s.subrange(start, i)] + split_from(s, i + 1, i + 1)
    } else {
        split_from(s, i + 1, start)
    }
}

/// `s` split at each ';'.
pub open spec fn pieces(s: Seq<char>) -> Seq<Seq<char>> {
    split_from(s, 0, 0)
}

/// The value of the first piece that reads as a cookie named `name`.
pub open spec fn first_cookie(ps: Seq<Seq<char>>, name: Seq<char>) -> Option<Seq<char>>
    decreases ps.len(),
{
    if ps.len() == 0 {
        None
    } else {
        match cookie_pair(ps[0]) {
            Some((n, v)) if n == name => Some(v),
            _ => first_cookie(ps.drop_first(), name),
        }
    }
}

/// The value of the first cookie named `name` in the headers `hs`, taken in
/// order, each a `;`-separated list of cookies.
pub open spec fn headers_cookie(hs: Seq<Seq<char>>, name: Seq<char>) -> Option<Seq<char>>
    decreases hs.len(),
{
    if hs.len() == 0 {
        None
    } else {
        match first_cookie(pieces(hs[0]), name) {
            Some(v) => Some(v),
            None => headers_cookie(hs.drop_first(), name),
        }
    }
}

proof fn lemma_first_cookie_cons(p: Seq<char>, rest: Seq<Seq<char>>, name: Seq<char>)
    ensures
        first_cookie(seq![p] + rest, name) == (match cookie_pair(p) {
            Some((n, v)) if n == name => Some(v),
            _ => first_cookie(rest, name),
        }),
{
    assert((seq![p] + rest).drop_first() =~= rest);
    assert((seq![p] + rest)[0] == p);
}

/// The value of the first cookie named `name` in one `Cookie` header.
pub fn header_cookie(header: &str, name: &str) -> (r: Option<String>)
    ensures
        match r {
            Some(v) => first_cookie(pieces(header@), name@) == Some(v@),
            None => first_cookie(pieces(header@), name@) is None,
        },
{
    let s = chars_of(header);
    let wanted = name.to_owned();
    let mut start: usize = 0;
    let mut i: usize = 0;
    while i < s.len()
        invariant
            s@ == header@,
            wanted@ == name@,
            start <= i <= s.len(),
            first_cookie(pieces(header@), name@) == first_cookie(split_from(s@, i as int, start as int), name@),
        decreases s.len() - i,
    {
        if s[i] == ';' {
            let piece = header.substring_char(start, i);
            proof {
                lemma_first_cookie_cons(s@.subrange(start as int, i as int), split_from(s@, i + 1, i + 1), name@);
            }
            match parse_cookie(piece) {
                Some((n, v)) => {
                    if n == wanted {
                        return Some(v);
                    }
                },
                None => {},
            }
            start = i + 1;
        }
        i = i + 1;
    }
    let piece = header.substring_char(start, s.len());
    proof {
        lemma_first_cookie_cons(s@.subrange(start as int, s@.len() as int), Seq::empty(), name@);
        assert(split_from(s@, i as int, start as int) =~= seq![s@.subrange(start as int, s@.len() as int)] + Seq::<Seq<char>>::empty());
    }
    match parse_cookie(piece) {
        Some((n, v)) => if n == wanted {
            Some(v)
        } else {
            None
        },
        None => None,
    }
}

/// Reads tokens from the cookies of a request.
pub struct CookieService;

impl CookieService {
    /// The value of the first cookie named `token_name` in the `Cookie` headers
    /// `headers`, taken in order.
    pub fn extract_token(headers: &Vec<String>, token_name: &str) -> (r: Option<String>)
        ensures
            match r {
                Some(v) => headers_cookie(headers@.map_values(|h: String| h@), token_name@) == Some(v@),
                None => headers_cookie(headers@.map_values(|h: String| h@), token_name@) is None,
            },
    {
        let ghost hs = headers@.map_values(|h: String| h@);
        let mut i: usize = 0;
        proof {
            assert(hs.subrange(0, hs.len() as int) =~= hs);
        }
        while i < headers.len()
            invariant
                hs == headers@.map_values(|h: String| h@),
                i <= headers.len(),
                headers_cookie(hs, token_name@) == headers_cookie(hs.subrange(i as int, hs.len() as int), token_name@),
            decreases headers.len() - i,
        {
            let found = header_cookie(headers[i].as_str(), token_name);
            proof {
                let rest = hs.subrange(i as int, hs.len() as int);
                assert(rest[0] == headers@[i as int]@);
                assert(rest.drop_first() =~= hs.subrange(i + 1, hs.len() as int));
            }
            if found.is_some() {
                return found;
            }
            i = i + 1;
        }
        None
    }
}

} // verus!
