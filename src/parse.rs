use vstd::prelude::*;
use vstd::string::StrSliceExecFns;

use crate::message::{colon_space, HeaderView, Response, ResponseBuilder, ResponseError, ResponseView};
use crate::number::i32_value;
use crate::text::{blank_line, crlf, find_match, first_match, lemma_first_match_facts, split_on};

verus! {

/// A header line cut at its first `": "`.
pub open spec fn header_of(line: Seq<char>) -> Option<HeaderView> {
    match first_match(line, colon_space(), 0) {
        Some(c) => Some((line.subrange(0, c), line.subrange(c + 2, line.len() as int))),
        None => None,
    }
}

/// The headers of the given lines, if every one of them is a header line.
pub open spec fn headers_of(lines: Seq<Seq<char>>) -> Option<Seq<HeaderView>> {
    if forall|i: int| 0 <= i < lines.len() ==> (#[trigger] header_of(lines[i])) is Some {
        Some(lines.map_values(|l: Seq<char>| header_of(l)->0))
    } else {
        None
    }
}

/// A status line cut at its first two spaces: the protocol, the status text,
/// and the reason phrase (all the rest, spaces included).
pub open spec fn status_parts(line: Seq<char>) -> Option<(Seq<char>, Seq<char>, Seq<char>)> {
    match first_match(line, seq![' '], 0) {
        Some(a) => match first_match(line, seq![' '], a + 1) {
            Some(b) => Some(
                (line.subrange(0, a), line.subrange(a + 1, b), line.subrange(b + 1, line.len() as int)),
            ),
            None => None,
        },
        None => None,
    }
}

/// The response that raw text `s` denotes: the head before the first empty
/// line, cut into CRLF-separated lines, a status line and header lines; the
/// body is all that follows the empty line.
pub open spec fn parse_spec(s: Seq<char>) -> Result<ResponseView, ResponseError> {
    match first_match(s, blank_line(), 0) {
        None => Err(ResponseError::MalformedResponse),
        Some(k) => {
            let lines = split_on(s.subrange(0, k), crlf());
            match status_parts(lines[0]) {
                None => Err(ResponseError::MalformedResponse),
                Some(parts) => match i32_value(parts.1) {
                    None => Err(ResponseError::ParseError),
                    Some(v) => match headers_of(lines.drop_first()) {
                        None => Err(ResponseError::MalformedResponse),
                        Some(hs) => Ok(
                            ResponseView {
                                protocol: parts.0,
                                status: v,
                                message: parts.2,
                                headers: hs,
                                body: s.subrange(k + 4, s.len() as int),
                            },
                        ),
                    },
                },
            }
        },
    }
}

pub open spec fn strings_view(v: Seq<String>) -> Seq<Seq<char>> {
    v.map_values(|x: String| x@)
}

/// One step of `split_on`: the text before the first separator, then the
/// pieces of what follows it.
proof fn lemma_split_step(s: Seq<char>, sep: Seq<char>)
    requires
        sep.len() > 0,
    ensures
        split_on(s, sep).len() >= 1,
        match first_match(s, sep, 0) {
            Some(k) => 0 <= k && k + sep.len() <= s.len() && split_on(s, sep) == seq![
                s.subrange(0, k),
            ] + split_on(s.subrange(k + sep.len(), s.len() as int), sep),
            None => split_on(s, sep) == seq![s],
        },
{
    lemma_first_match_facts(s, sep, 0);
}

/// The pieces of `s` between CRLFs.
fn split_lines(s: &str) -> (r: Vec<String>)
    ensures
        strings_view(r@) == split_on(s@, crlf()),
{
    proof {
        reveal_strlit("\r\n");
    }
    assert("\r\n"@ =~= crlf());
    let mut r: Vec<String> = Vec::new();
    let mut rest: &str = s;
    loop
        invariant
            "\r\n"@ == crlf(),
            strings_view(r@) + split_on(rest@, crlf()) == split_on(s@, crlf()),
        decreases rest@.len(),
    {
        proof {
            lemma_split_step(rest@, crlf());
        }
        let n = rest.unicode_len();
        match find_match(rest, "\r\n", 0) {
            Some(k) => {
                let piece = rest.substring_char(0, k).to_owned();
                let ghost before = r@;
                r.push(piece);
                proof {
                    assert(strings_view(r@) =~= strings_view(before).push(piece@));
                    let tail = rest@.subrange(k + 2, n as int);
                    assert(strings_view(r@) + split_on(tail, crlf()) =~= strings_view(before)
                        + split_on(rest@, crlf()));
                }
                rest = rest.substring_char(k + 2, n);
            },
            None => {
                let ghost before = r@;
                r.push(rest.to_owned());
                assert(strings_view(r@) =~= strings_view(before) + split_on(rest@, crlf()));
                return r;
            },
        }
    }
}

impl ResponseBuilder {
    /// Reads a raw response: the head up to the first empty line, then the
    /// body. The status line is cut at its first two spaces, so that a reason
    /// phrase keeps its inner spaces; each header line is cut at its first
    /// `": "`, and the headers keep their order and duplicates.
    pub fn parse_response(response: &str) -> (r: Result<Response, ResponseError>)
        ensures
            match parse_spec(response@) {
                Ok(v) => r matches Ok(m) && m@ == v,
                Err(e) => r == Err::<Response, ResponseError>(e),
            },
    {
        proof {
            reveal_strlit("\r\n\r\n");
            reveal_strlit(" ");
            reveal_strlit(": ");
        }
        assert("\r\n\r\n"@ =~= blank_line());
        assert(" "@ =~= seq![' ']);
        assert(": "@ =~= colon_space());
        let s = response;
        let n = s.unicode_len();
        let k = match find_match(s, "\r\n\r\n", 0) {
            Some(k) => k,
            None => {
                return Err(ResponseError::MalformedResponse);
            },
        };
        proof {
            lemma_first_match_facts(s@, blank_line(), 0);
        }
        let head = s.substring_char(0, k);
        let body = s.substring_char(k + 4, n);
        let lines = split_lines(head);
        let ghost ls = split_on(head@, crlf());
        proof {
            lemma_split_step(head@, crlf());
        }
        assert(lines@.len() == ls.len());
        assert(lines@[0]@ == ls[0]);
        let status_line = lines[0].as_str();
        let ln = status_line.unicode_len();
        proof {
            lemma_first_match_facts(status_line@, seq![' '], 0);
        }
        let a = match find_match(status_line, " ", 0) {
            Some(a) => a,
            None => {
                return Err(ResponseError::MalformedResponse);
            },
        };
        proof {
            lemma_first_match_facts(status_line@, seq![' '], a + 1);
        }
        let b = match find_match(status_line, " ", a + 1) {
            Some(b) => b,
            None => {
                return Err(ResponseError::MalformedResponse);
            },
        };
        let builder = ResponseBuilder::new().body(body).protocol(
            status_line.substring_char(0, a),
        );
        let builder = match builder.status(status_line.substring_char(a + 1, b)) {
            Ok(b) => b,
            Err(e) => {
                return Err(e);
            },
        };
        let mut builder = builder.message(status_line.substring_char(b + 1, ln));
        let ghost hls = ls.drop_first();
        let ghost base = builder@;
        let mut i: usize = 1;
        assert(hls.take(0).map_values(|l: Seq<char>| header_of(l)->0) =~= Seq::empty());
        assert(base == (ResponseView {
            headers: hls.take(0).map_values(|l: Seq<char>| header_of(l)->0),
            ..base
        }));
        assert(head@ == s@.subrange(0, k as int));
        assert(parse_spec(response@) == match headers_of(hls) {
            None => Err(ResponseError::MalformedResponse),
            Some(hs) => Ok(ResponseView { headers: hs, ..base }),
        });
        while i < lines.len()
            invariant
                parse_spec(response@) == match headers_of(hls) {
                    None => Err(ResponseError::MalformedResponse),
                    Some(hs) => Ok(ResponseView { headers: hs, ..base }),
                },
                ": "@ == colon_space(),
                1 <= i <= lines@.len(),
                lines@.len() == ls.len(),
                hls == ls.drop_first(),
                forall|j: int| 0 <= j < lines@.len() ==> #[trigger] lines@[j]@ == ls[j],
                forall|j: int| 0 <= j < i - 1 ==> (#[trigger] header_of(hls[j])) is Some,
                builder@ == (ResponseView {
                    headers: hls.take(i - 1).map_values(|l: Seq<char>| header_of(l)->0),
                    ..base
                }),
            decreases lines@.len() - i,
        {
            let line = lines[i].as_str();
            assert(line@ == hls[i - 1]);
            proof {
                lemma_first_match_facts(line@, colon_space(), 0);
            }
            let m = line.unicode_len();
            match find_match(line, ": ", 0) {
                Some(c) => {
                    let ghost prev = builder@;
                    builder =
                    builder.add_header(line.substring_char(0, c), line.substring_char(c + 2, m));
                    assert(hls.take(i as int).map_values(|l: Seq<char>| header_of(l)->0)
                        =~= hls.take(i - 1).map_values(|l: Seq<char>| header_of(l)->0).push(
                        header_of(hls[i - 1])->0,
                    ));
                },
                None => {
                    assert(header_of(hls[i - 1]) is None);
                    return Err(ResponseError::MalformedResponse);
                },
            }
            i = i + 1;
        }
        assert(hls.take(i - 1) =~= hls);
        assert(headers_of(hls) is Some);
        Ok(builder.finalize())
    }
}

} // verus!
